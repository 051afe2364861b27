use rtw::scalar::{at_most, greater, is_negative, less, lesser, sort_key, ZERO};

fn samples() -> Vec<f32> {
    vec![
        f32::NEG_INFINITY,
        f32::MIN,
        -1000.5,
        -1.0,
        -0.0001,
        -f32::MIN_POSITIVE,
        -0.0,
        0.0,
        f32::MIN_POSITIVE,
        0.0001,
        0.001,
        1.0,
        1000.5,
        f32::MAX,
        f32::INFINITY,
    ]
}

#[test]
fn zero_is_the_pattern_of_zero() {
    assert_eq!(ZERO, 0.0f32.to_bits());
}

#[test]
fn sort_key_of_given_bit_patterns() {
    assert_eq!(sort_key(0x0000_0000), 0x8000_0000);
    assert_eq!(sort_key(0x8000_0000), 0x8000_0000);
    assert_eq!(sort_key(0x0000_0001), 0x8000_0001);
    assert_eq!(sort_key(0x8000_0001), 0x7fff_ffff);
    assert_eq!(sort_key(0x7fff_ffff), 0xffff_ffff);
    assert_eq!(sort_key(0xffff_ffff), 0x0000_0001);
    assert_eq!(sort_key(1.0f32.to_bits()), 0x8000_0000 + 0x3f80_0000);
    assert_eq!(sort_key((-1.0f32).to_bits()), 0x8000_0000 - 0x3f80_0000);
}

#[test]
fn sort_keys_order_like_the_numbers() {
    for a in samples() {
        for b in samples() {
            let (ka, kb) = (sort_key(a.to_bits()), sort_key(b.to_bits()));
            assert_eq!(a < b, ka < kb);
            assert_eq!(a == b, ka == kb);
        }
    }
}

#[test]
fn less_and_at_most_compare_like_the_numbers() {
    for a in samples() {
        for b in samples() {
            assert_eq!(less(a.to_bits(), b.to_bits()), a < b);
            assert_eq!(at_most(a.to_bits(), b.to_bits()), a <= b);
        }
    }
}

#[test]
fn is_negative_tells_the_sign() {
    for a in samples() {
        assert_eq!(is_negative(a.to_bits()), a < 0.0);
    }
    assert!(!is_negative((-0.0f32).to_bits()));
}

#[test]
fn lesser_and_greater_choose_like_min_and_max() {
    for a in samples() {
        for b in samples() {
            let lo = f32::from_bits(lesser(a.to_bits(), b.to_bits()));
            let hi = f32::from_bits(greater(a.to_bits(), b.to_bits()));
            assert_eq!(lo, a.min(b));
            assert_eq!(hi, a.max(b));
        }
    }
}

#[test]
fn lesser_and_greater_return_the_first_of_equals() {
    let (pz, nz) = (0.0f32.to_bits(), (-0.0f32).to_bits());
    assert_eq!(lesser(pz, nz), pz);
    assert_eq!(lesser(nz, pz), nz);
    assert_eq!(greater(pz, nz), pz);
    assert_eq!(greater(nz, pz), nz);
}
