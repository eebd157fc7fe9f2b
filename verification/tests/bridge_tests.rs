use yaml_number::Number;
use yaml_number::Primitive;

#[test]
fn serializes_pos_int_as_unsigned_event() {
    let n = Number::from_u64(9223372036854775817);
    assert_eq!(n.to_primitive(), Primitive::Unsigned(9223372036854775817));
}

#[test]
fn serializes_neg_int_as_signed_event() {
    let n = Number::from_i64(-64);
    assert_eq!(n.to_primitive(), Primitive::Signed(-64));
}

#[test]
fn serializes_float_as_float_event() {
    let bits = 256.0f64.to_bits();
    let n = Number::from_f64_bits(bits);
    assert_eq!(n.to_primitive(), Primitive::Float(bits));
}

#[test]
fn nonnegative_signed_serializes_unsigned() {
    // A non-negative value takes the unsigned representation at
    // construction, whichever native type it came from.
    let n = Number::from_i64(64);
    assert_eq!(n.to_primitive(), Primitive::Unsigned(64));
}

#[test]
fn unexpected_tags_match_the_variant() {
    assert_eq!(Number::from_u64(5).unexpected(), Primitive::Unsigned(5));
    assert_eq!(Number::from_i64(-5).unexpected(), Primitive::Signed(-5));
    let bits = f64::NAN.to_bits();
    assert_eq!(Number::from_f64_bits(bits).unexpected(), Primitive::Float(bits));
}

#[test]
fn inbound_primitives_route_through_construction() {
    let n = Number::from_primitive(Primitive::Signed(-3));
    assert_eq!(n.as_i64(), Some(-3));
    assert!(!n.is_u64());
    let m = Number::from_primitive(Primitive::Signed(3));
    assert_eq!(m.as_u64(), Some(3));
    let u = Number::from_primitive(Primitive::Unsigned(u64::MAX));
    assert_eq!(u.as_u64(), Some(u64::MAX));
    let bits = 1.5f64.to_bits();
    let f = Number::from_primitive(Primitive::Float(bits));
    assert!(f.is_f64());
    assert_eq!(f.as_f64(), Some(bits));
}

#[test]
fn primitive_round_trips_to_the_same_number() {
    let cases = [
        Number::from_u64(0),
        Number::from_u64(u64::MAX),
        Number::from_i64(-1),
        Number::from_i64(i64::MIN),
        Number::from_f64_bits(2.5f64.to_bits()),
    ];
    for &n in cases.iter() {
        assert_eq!(Number::from_primitive(n.to_primitive()), n);
    }
}

#[test]
fn equality_is_structural() {
    assert_eq!(Number::from_u64(256), Number::from_u64(256));
    assert_ne!(Number::from_u64(256), Number::from_f64_bits(256.0f64.to_bits()));
    assert_ne!(Number::from_u64(5), Number::from_i64(-5));
    assert_eq!(Number::from_i64(-5), Number::from_i64(-5));
}

#[test]
fn float_equality_follows_ieee() {
    let nan = Number::from_f64_bits(f64::NAN.to_bits());
    assert_ne!(nan, nan);
    let pz = Number::from_f64_bits(0.0f64.to_bits());
    let nz = Number::from_f64_bits((-0.0f64).to_bits());
    assert_eq!(pz, nz);
    assert_eq!(
        Number::from_f64_bits(1.5f64.to_bits()),
        Number::from_f64_bits(1.5f64.to_bits())
    );
}

#[test]
fn ordering_within_variants() {
    assert!(Number::from_u64(1) < Number::from_u64(2));
    assert!(Number::from_i64(-5) < Number::from_i64(-3));
    assert!(
        Number::from_f64_bits(1.5f64.to_bits()) < Number::from_f64_bits(2.5f64.to_bits())
    );
    assert!(
        Number::from_f64_bits((-1.5f64).to_bits()) < Number::from_f64_bits(1.5f64.to_bits())
    );
    assert!(
        Number::from_f64_bits((-2.5f64).to_bits()) < Number::from_f64_bits((-1.5f64).to_bits())
    );
    assert!(
        Number::from_f64_bits(f64::NEG_INFINITY.to_bits())
            < Number::from_f64_bits(f64::INFINITY.to_bits())
    );
}

#[test]
fn ordering_across_variants_is_positional() {
    // Comparison is structural, so across representations the order is
    // positional: non-negative integers, then negative integers, then
    // floats.
    assert!(Number::from_u64(5) < Number::from_i64(-3));
    assert!(Number::from_i64(-3) < Number::from_f64_bits(0.0f64.to_bits()));
}

#[test]
fn nan_compares_with_nothing() {
    let nan = Number::from_f64_bits(f64::NAN.to_bits());
    let one = Number::from_f64_bits(1.0f64.to_bits());
    assert_eq!(nan.partial_cmp(&one), None);
    assert_eq!(one.partial_cmp(&nan), None);
    assert_eq!(nan.partial_cmp(&nan), None);
}

#[test]
fn signed_zeros_compare_equal() {
    let pz = Number::from_f64_bits(0.0f64.to_bits());
    let nz = Number::from_f64_bits((-0.0f64).to_bits());
    assert_eq!(pz.partial_cmp(&nz), Some(std::cmp::Ordering::Equal));
    assert_eq!(nz.partial_cmp(&pz), Some(std::cmp::Ordering::Equal));
}

#[test]
fn float_comparison_matches_native() {
    let values: [f64; 8] = [-0.0, 0.0, 1.5, -1.5, f64::INFINITY, f64::NEG_INFINITY, f64::NAN, 256.0];
    for &a in values.iter() {
        for &b in values.iter() {
            let na = Number::from_f64_bits(a.to_bits());
            let nb = Number::from_f64_bits(b.to_bits());
            assert_eq!(na.partial_cmp(&nb), a.partial_cmp(&b), "{a} vs {b}");
        }
    }
}
