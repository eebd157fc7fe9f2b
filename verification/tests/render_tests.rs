use yaml_number::Number;

#[test]
fn renders_positive_integers() {
    assert_eq!(Number::from_u64(0).render().unwrap(), "0");
    assert_eq!(Number::from_u64(64).render().unwrap(), "64");
    assert_eq!(Number::from_u64(10).render().unwrap(), "10");
    assert_eq!(Number::from_u64(9876543210).render().unwrap(), "9876543210");
    assert_eq!(
        Number::from_u64(u64::MAX).render().unwrap(),
        "18446744073709551615"
    );
}

#[test]
fn renders_negative_integers() {
    assert_eq!(Number::from_i64(-64).render().unwrap(), "-64");
    assert_eq!(Number::from_i64(-1).render().unwrap(), "-1");
    assert_eq!(
        Number::from_i64(i64::MIN).render().unwrap(),
        "-9223372036854775808"
    );
}

#[test]
fn renders_special_floats() {
    let nan = Number::from_f64_bits(f64::NAN.to_bits());
    assert_eq!(nan.render().unwrap(), ".nan");
    let inf = Number::from_f64_bits(f64::INFINITY.to_bits());
    assert_eq!(inf.render().unwrap(), ".inf");
    let ninf = Number::from_f64_bits(f64::NEG_INFINITY.to_bits());
    assert_eq!(ninf.render().unwrap(), "-.inf");
}

#[test]
fn negative_nan_still_renders_nan() {
    let bits = f64::NAN.to_bits() | (1u64 << 63);
    assert_eq!(Number::from_f64_bits(bits).render().unwrap(), ".nan");
}

#[test]
fn finite_floats_defer_to_the_host_formatter() {
    assert_eq!(Number::from_f64_bits(256.0f64.to_bits()).render(), None);
    assert_eq!(Number::from_f64_bits(0.0f64.to_bits()).render(), None);
    assert_eq!(Number::from_f64_bits((-0.5f64).to_bits()).render(), None);
}
