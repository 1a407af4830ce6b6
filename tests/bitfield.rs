use nco_firmware::ctrl::{Ctrl, ENABLE_BIT};

const WORDS: [u32; 7] = [0, 1, 2, 0x8000_0000, 0x8000_0001, 0xdead_beef, 0xffff_ffff];

#[test]
fn round_trip_keeps_every_bit() {
    for x in WORDS {
        assert_eq!(Ctrl::from_bits_retain(x).bits(), x);
    }
}

#[test]
fn set_enable_touches_bit_zero_only() {
    for x in WORDS {
        for v in [false, true] {
            let mut c = Ctrl::from_bits_retain(x);
            c.set(Ctrl::enable_flag(), v);
            let y = c.bits();
            assert_eq!(y & !1, x & !1);
            assert_eq!(y & 1 == 1, v);
        }
    }
}

#[test]
fn set_twice_equals_set_once() {
    for x in WORDS {
        let mut once = Ctrl::from_bits_retain(x);
        once.set(Ctrl::enable_flag(), true);
        let mut twice = once;
        twice.set(Ctrl::enable_flag(), true);
        assert_eq!(once, twice);
    }
}

#[test]
fn contains_reports_enable_bit() {
    assert!(Ctrl::from_bits_retain(0x8000_0001).contains(Ctrl::enable_flag()));
    assert!(!Ctrl::from_bits_retain(0x8000_0000).contains(Ctrl::enable_flag()));
    assert!(Ctrl::from_bits_retain(0x8000_0000).contains(Ctrl::empty()));
}

#[test]
fn named_flag_sets() {
    assert_eq!(Ctrl::empty().bits(), 0);
    assert_eq!(Ctrl::enable_flag().bits(), ENABLE_BIT);
    assert_eq!(ENABLE_BIT, 1);
}
