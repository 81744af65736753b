use hark::precision::{narrow, widen};
use hark::single::Single;

fn check(bits: u64) {
    let value = f64::from_bits(bits);
    assert_eq!(narrow(bits).bits, (value as f32).to_bits(), "{bits:#x}");
}

#[test]
fn doubles_are_narrowed_as_usual() {
    // Every exponent, with fractions at and next to where rounding turns.
    for exponent in 0..2047u64 {
        for fraction in [
            0,
            1,
            0x0fff_ffff,
            0x1000_0000,
            0x1000_0001,
            0x1fff_ffff,
            0x2000_0000,
            0x3000_0000,
            0x3000_0001,
            0x8_0000_0000_0000,
            0xf_ffff_efff_ffff,
            0xf_ffff_f000_0000,
            0xf_ffff_ffff_ffff,
        ] {
            let bits = (exponent << 52) | fraction;
            check(bits);
            check(bits | 1 << 63);
        }
    }
}

#[test]
fn any_double_is_narrowed_as_usual() {
    let mut seed = 0x9e37_79b9_7f4a_7c15u64;
    for _ in 0..300_000 {
        seed ^= seed << 13;
        seed ^= seed >> 7;
        seed ^= seed << 17;
        if f64::from_bits(seed).is_finite() {
            check(seed);
        }
        // Most doubles are too large or too small: also one that is neither.
        let near = (seed & !(0x7ff << 52)) | ((870 + (seed >> 52) % 290) << 52);
        check(near);
    }
}

/// Ties between the numbers closest to zero, where the steps get wider.
#[test]
fn small_doubles_are_rounded_to_even() {
    for k in 860..=897u64 {
        for fraction in 0..64u64 {
            check((k << 52) | (fraction << 46));
        }
    }
    assert_eq!(narrow(2f64.powi(-150).to_bits()).bits, 0);
    assert_eq!(narrow((3. * 2f64.powi(-150)).to_bits()).bits, 2);
    assert_eq!(narrow((2f64.powi(-150) * 1.5).to_bits()).bits, 1);
}

#[test]
fn singles_are_widened_as_usual() {
    let mut bits = 0u32;
    loop {
        let value = f32::from_bits(bits);
        let expected = value.is_finite().then_some((value as f64).to_bits());
        assert_eq!(widen(Single { bits }), expected, "{bits:#x}");
        if let Some(double) = expected {
            assert_eq!(narrow(double).bits, bits);
        }
        match bits.checked_add(4_093) {
            Some(next) => bits = next,
            None => break,
        }
    }
    for bits in (0..=0x80_0001u32).step_by(37).chain([0x7f7f_ffff, 0x7f80_0000, 0x8000_0000]) {
        let value = f32::from_bits(bits);
        let expected = value.is_finite().then_some((value as f64).to_bits());
        assert_eq!(widen(Single { bits }), expected, "{bits:#x}");
    }
}
