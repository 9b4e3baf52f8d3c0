use collide2d::codec;

fn round_trips(f: f64) {
    let code = codec::encode(f.to_bits());
    let back = codec::decode(code);
    assert_eq!(back, f.to_bits());
    assert_eq!(f64::from_bits(back), f);
}

#[test]
fn codec_round_trip() {
    let samples = [
        0.0f64,
        -0.0,
        1.0,
        -1.0,
        1.5,
        -2.25,
        0.1,
        -0.1,
        12345.6789,
        -98765.4321,
        1e-300,
        -1e-300,
        1e308,
        -1e308,
        f64::MIN_POSITIVE,
        f64::MAX,
        f64::MIN,
    ];
    for f in samples {
        round_trips(f);
    }
}

#[test]
fn codec_round_trip_non_finite_bits() {
    // The codec is a bijection on all bit patterns, so even infinities
    // and NaN payloads survive a round trip bit-for-bit.
    for bits in [
        f64::INFINITY.to_bits(),
        f64::NEG_INFINITY.to_bits(),
        f64::NAN.to_bits(),
        f64::NAN.to_bits() | 0x8000_0000_0000_0000,
    ] {
        assert_eq!(codec::decode(codec::encode(bits)), bits);
    }
}

#[test]
fn codec_exact_keys() {
    // positive doubles keep their bit pattern as the key
    assert_eq!(codec::encode(1.0f64.to_bits()), 0x3FF0_0000_0000_0000i64);
    assert_eq!(codec::encode(0.0f64.to_bits()), 0);
    // the negative range folds to consecutive keys below zero
    assert_eq!(codec::encode((-0.0f64).to_bits()), -1);
    assert_eq!(codec::encode((-1.0f64).to_bits()), -0x3FF0_0000_0000_0001i64);
    assert_eq!(codec::decode(0x3FF0_0000_0000_0000i64), 1.0f64.to_bits());
    assert_eq!(codec::decode(-1), (-0.0f64).to_bits());
}

#[test]
fn codec_order_preservation() {
    let ordered = [
        f64::MIN,
        -1e308,
        -12345.678,
        -2.0,
        -1.5,
        -1.0,
        -0.25,
        -f64::MIN_POSITIVE,
        0.0,
        f64::MIN_POSITIVE,
        0.25,
        1.0,
        1.5,
        2.0,
        12345.678,
        1e308,
        f64::MAX,
    ];
    for i in 0..ordered.len() {
        for j in (i + 1)..ordered.len() {
            let a = ordered[i];
            let b = ordered[j];
            assert!(a < b);
            assert!(codec::encode(a.to_bits()) < codec::encode(b.to_bits()));
        }
    }
}

#[test]
fn codec_integer_comparisons_decide_float_comparisons() {
    let values = [-3.5f64, -1.0, -0.0, 0.0, 0.5, 2.75, 1e100];
    for &a in &values {
        for &b in &values {
            let ea = codec::encode(a.to_bits());
            let eb = codec::encode(b.to_bits());
            // Distinct keys order exactly as the doubles do; the two
            // zeroes get distinct adjacent keys.
            if a < b {
                assert!(ea < eb);
            }
            if a > b {
                assert!(ea > eb);
            }
        }
    }
}
