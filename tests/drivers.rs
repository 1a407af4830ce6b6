use nco_firmware::freq::Frequency;
use nco_firmware::led::{Led, LED_ADDR};
use nco_firmware::nco::{Nco, NCO_BASE};
use nco_firmware::reg::RegWrite;

#[test]
fn nco_registers_sit_at_fixed_address() {
    let nco = Nco::new();
    assert_eq!(nco.ctrl_addr(), 0xf000_0000);
    assert_eq!(nco.phase_step_addr(), 0xf000_0004);
    assert_eq!(NCO_BASE, 0xf000_0000);
}

#[test]
fn nco_enable_keeps_reserved_bits() {
    let nco = Nco::new();
    let w = nco.enable(0x8000_0000, true);
    assert_eq!(w, RegWrite { addr: 0xf000_0000, value: 0x8000_0001 });
    let w = nco.enable(0x8000_0001, false);
    assert_eq!(w, RegWrite { addr: 0xf000_0000, value: 0x8000_0000 });
}

#[test]
fn nco_enable_twice_equals_once() {
    let nco = Nco::new();
    for x in [0u32, 0x8000_0000, 0x1234_5678, 0xffff_fffe] {
        let once = nco.enable(x, true);
        let twice = nco.enable(once.value, true);
        assert_eq!(once, twice);
        assert_eq!(once.value, x | 1);
    }
}

#[test]
fn nco_set_frequency_then_enable() {
    let nco = Nco::new();
    let mut phase_step: u32 = 0;
    let mut ctrl: u32 = 0x8000_0000;
    let w = nco.set_frequency(Frequency::from_bits(32768.5f32.to_bits()));
    assert_eq!(w.addr, nco.phase_step_addr());
    phase_step = w.value;
    let w = nco.enable(ctrl, true);
    assert_eq!(w.addr, nco.ctrl_addr());
    ctrl = w.value;
    assert_eq!(phase_step, 8_796_227);
    assert_eq!(ctrl, 0x8000_0001);
}

#[test]
fn led_enable_overwrites_whole_word() {
    let led = Led::new();
    assert_eq!(led.enable(true), RegWrite { addr: 0xcafe_bab0, value: 1 });
    assert_eq!(led.enable(false), RegWrite { addr: LED_ADDR, value: 0 });
}
