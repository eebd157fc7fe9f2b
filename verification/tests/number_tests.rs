use yaml_number::Number;

#[test]
fn nonnegative_from_signed_is_u64() {
    let n = Number::from_i64(64);
    assert!(n.is_u64());
    assert!(n.is_i64());
    assert!(!n.is_f64());
    assert_eq!(n.as_u64(), Some(64));
    assert_eq!(n.as_i64(), Some(64));
}

#[test]
fn nonnegative_from_every_native_width() {
    assert_eq!(Number::from_i8(7).as_u64(), Some(7));
    assert_eq!(Number::from_i16(7).as_u64(), Some(7));
    assert_eq!(Number::from_i32(7).as_u64(), Some(7));
    assert_eq!(Number::from_isize(7).as_u64(), Some(7));
    assert_eq!(Number::from_u8(7).as_u64(), Some(7));
    assert_eq!(Number::from_u16(7).as_u64(), Some(7));
    assert_eq!(Number::from_u32(7).as_u64(), Some(7));
    assert_eq!(Number::from_u64(7).as_u64(), Some(7));
    assert_eq!(Number::from_usize(7).as_u64(), Some(7));
    assert!(Number::from_i8(0).is_u64());
    assert_eq!(Number::from_i8(0).as_u64(), Some(0));
}

#[test]
fn negative_ints_are_i64_not_u64() {
    let n = Number::from_i64(-64);
    assert!(n.is_i64());
    assert!(!n.is_u64());
    assert!(!n.is_f64());
    assert_eq!(n.as_i64(), Some(-64));
    assert_eq!(n.as_u64(), None);
    assert_eq!(Number::from_i8(-8).as_i64(), Some(-8));
    assert_eq!(Number::from_i16(-8).as_i64(), Some(-8));
    assert_eq!(Number::from_i32(-8).as_i64(), Some(-8));
    assert_eq!(Number::from_isize(-8).as_i64(), Some(-8));
    assert_eq!(Number::from_i64(i64::MIN).as_i64(), Some(i64::MIN));
    assert_eq!(Number::from_i64(i64::MIN).as_u64(), None);
}

#[test]
fn floats_are_f64_by_variant_not_value() {
    let n = Number::from_f64_bits(256.0f64.to_bits());
    assert!(n.is_f64());
    assert!(!n.is_i64());
    assert!(!n.is_u64());
    assert_eq!(n.as_i64(), None);
    assert_eq!(n.as_u64(), None);
    assert_eq!(n.as_f64(), Some(256.0f64.to_bits()));
}

#[test]
fn as_f64_succeeds_for_every_variant() {
    assert!(Number::from_u64(5).as_f64().is_some());
    assert!(Number::from_i64(-5).as_f64().is_some());
    assert!(Number::from_f64_bits(f64::NAN.to_bits()).as_f64().is_some());
    assert!(Number::from_f64_bits(f64::INFINITY.to_bits()).as_f64().is_some());
}

#[test]
fn as_f64_matches_native_casts() {
    let cases: [u64; 9] = [
        0,
        1,
        5,
        4096,
        (1u64 << 53) - 1,
        (1u64 << 53) + 1,
        (1u64 << 53) + 3,
        0x1234_5678_9abc_def0,
        u64::MAX,
    ];
    for &v in cases.iter() {
        assert_eq!(
            Number::from_u64(v).as_f64(),
            Some((v as f64).to_bits()),
            "u64 {v}"
        );
    }
    let signed: [i64; 7] = [-1, -5, -4097, i64::MIN, i64::MIN + 1, -(1i64 << 53) - 1, -0x1234_5678_9abc_def0];
    for &i in signed.iter() {
        assert_eq!(
            Number::from_i64(i).as_f64(),
            Some((i as f64).to_bits()),
            "i64 {i}"
        );
    }
}

#[test]
fn float_view_is_lossless_below_2_53() {
    assert_ne!(
        Number::from_u64(1000).as_f64(),
        Number::from_u64(1001).as_f64()
    );
    assert_ne!(
        Number::from_i64(-1000).as_f64(),
        Number::from_i64(-1001).as_f64()
    );
    assert_ne!(
        Number::from_i64(-1).as_f64(),
        Number::from_u64(1).as_f64()
    );
    // Above 2^53 the conversion rounds: these neighbours conflate.
    assert_eq!(
        Number::from_u64((1u64 << 53) + 1).as_f64(),
        Number::from_u64(1u64 << 53).as_f64()
    );
}

#[test]
fn round_trip_at_the_unsigned_boundary() {
    let n = Number::from_u64(u64::MAX);
    assert!(n.is_u64());
    assert!(!n.is_i64());
    assert_eq!(n.as_u64(), Some(u64::MAX));
    assert_eq!(n.as_i64(), None);
    let m = Number::from_i64(i64::MAX);
    assert!(m.is_u64());
    assert!(m.is_i64());
    assert_eq!(m.as_u64(), Some(i64::MAX as u64));
    assert_eq!(m.as_i64(), Some(i64::MAX));
}

#[test]
fn boundary_signed_max_plus_ten() {
    let n = Number::from_u64(9223372036854775817);
    assert!(!n.is_i64());
    assert!(n.is_u64());
    assert_eq!(n.as_i64(), None);
    assert_eq!(n.as_u64(), Some(9223372036854775817));
}

#[test]
fn integers_are_finite_never_nan_or_infinite() {
    let n = Number::from_u64(u64::MAX);
    assert!(n.is_finite());
    assert!(!n.is_nan());
    assert!(!n.is_infinite());
    let m = Number::from_i64(i64::MIN);
    assert!(m.is_finite());
    assert!(!m.is_nan());
    assert!(!m.is_infinite());
}

#[test]
fn float_special_value_classification() {
    let nan = Number::from_f64_bits(f64::NAN.to_bits());
    assert!(nan.is_nan());
    assert!(!nan.is_infinite());
    assert!(!nan.is_finite());
    let inf = Number::from_f64_bits(f64::INFINITY.to_bits());
    assert!(!inf.is_nan());
    assert!(inf.is_infinite());
    assert!(!inf.is_finite());
    let ninf = Number::from_f64_bits(f64::NEG_INFINITY.to_bits());
    assert!(!ninf.is_nan());
    assert!(ninf.is_infinite());
    assert!(!ninf.is_finite());
    let ord = Number::from_f64_bits(256.0f64.to_bits());
    assert!(!ord.is_nan());
    assert!(!ord.is_infinite());
    assert!(ord.is_finite());
}
