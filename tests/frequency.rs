use nco_firmware::freq::{phase_step, Frequency, NCO_CLOCK_HZ};

fn step(hz: f32) -> u32 {
    let f = Frequency::from_bits(hz.to_bits());
    assert!(f.is_valid());
    phase_step(f)
}

#[test]
fn quantizes_fractional_frequency_exactly() {
    // 2^32 * 32768.5 / 16e6 = 8796227.239936
    assert_eq!(step(32768.5), 8_796_227);
}

#[test]
fn zero_gives_zero() {
    assert_eq!(step(0.0), 0);
    assert_eq!(step(-0.0), 0);
}

#[test]
fn clock_frequency_wraps_to_zero() {
    assert_eq!(step(NCO_CLOCK_HZ as f32), 0);
    assert_eq!(step(16_000_000.0), 0);
}

#[test]
fn above_clock_frequency_aliases() {
    assert_eq!(step(8_000_000.0), 0x8000_0000);
    assert_eq!(step(24_000_000.0), 0x8000_0000);
    assert_eq!(step(1.0e9), 0x8000_0000);
    assert_eq!(step(3.0e38), 2_488_469_692);
}

#[test]
fn small_frequencies_round_to_nearest() {
    assert_eq!(step(1.0), 268);
    assert_eq!(step(0.5), 134);
    assert_eq!(step(440.0), 118_112);
    assert_eq!(step(f32::from_bits(1)), 0);
}

#[test]
fn halves_round_away_from_zero() {
    // exactly 0.5 and 1.5 phase steps
    assert_eq!(step(15625.0 / 8_388_608.0), 1);
    assert_eq!(step(46875.0 / 8_388_608.0), 2);
}

#[test]
fn bits_round_trip() {
    let f = Frequency::from_bits(32768.5f32.to_bits());
    assert_eq!(f.to_bits(), 0x4700_0080);
}

#[test]
fn rejects_negative_and_non_finite() {
    for hz in [-1.0f32, -32768.5, f32::NAN, f32::INFINITY, f32::NEG_INFINITY] {
        assert!(!Frequency::from_bits(hz.to_bits()).is_valid());
    }
    for hz in [0.0f32, -0.0, 1.0e-45, 32768.5, f32::MAX] {
        assert!(Frequency::from_bits(hz.to_bits()).is_valid());
    }
}
