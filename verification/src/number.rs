//! The scalar number value type and its verified behavior.

use vstd::prelude::*;
use vstd::string::StringExecFns;

use crate::bits::{
    bits_is_finite, bits_is_inf, bits_is_nan, f64_bits_of, f64_bits_of_neg, float_cmp_bits,
    float_eq_bits, i64_neg_to_f64_bits, is_finite_bits, is_inf_bits, is_nan_bits,
    lemma_f64_bits_lossless_small, lemma_f64_bits_small_range, sign_bit, sign_field,
    spec_float_cmp, spec_float_eq, u64_to_f64_bits,
};
use crate::decimal::{dec_digits, push_dec};

verus! {

/// The three-way internal representation of a number.
///
/// A float is carried as its IEEE-754 bit pattern, so that every operation
/// on it is verifiable integer arithmetic; the unverified embedding converts
/// with `f64::to_bits` and `f64::from_bits` at the boundary.
#[derive(Clone, Copy, Debug)]
pub enum N {
    /// Any non-negative integral value.
    PosInt(u64),
    /// Always strictly less than zero.
    NegInt(i64),
    /// The IEEE-754 bit pattern of a double; may encode an infinity or NaN.
    Float(u64),
}

/// A scalar number of the host format: a non-negative integer, a negative
/// integer, or a double-precision float.
///
/// Exactly one representation is active at a time, and a negative-integer
/// representation never holds a non-negative value.
#[derive(Clone, Copy, Debug)]
pub struct Number {
    n: N,
}

/// The tagged primitive shape of a number, as exchanged with a generic
/// serialization framework: the outbound event a number serializes to, and
/// the tag a diagnostic describes it by. The float payload is an IEEE-754
/// bit pattern.
#[derive(Clone, Copy, Debug, PartialEq, Eq, Structural)]
pub enum Primitive {
    /// An unsigned 64-bit primitive.
    Unsigned(u64),
    /// A signed 64-bit primitive.
    Signed(i64),
    /// A float-64 primitive, carried as its bit pattern.
    Float(u64),
}

impl Number {
    /// The active representation of this number.
    pub closed spec fn repr(&self) -> N {
        self.n
    }

    #[verifier::type_invariant]
    spec fn inv(&self) -> bool {
        match self.n {
            N::NegInt(i) => i < 0,
            _ => true,
        }
    }

    /// Builds a number from a signed 64-bit value: negative values take the
    /// negative-integer representation, the rest the non-negative one.
    pub fn from_i64(i: i64) -> (r: Number)
        ensures
            r.repr() == (if i < 0 {
                N::NegInt(i)
            } else {
                N::PosInt(i as u64)
            }),
    {
        if i < 0 {
            Number { n: N::NegInt(i) }
        } else {
            Number { n: N::PosInt(i as u64) }
        }
    }

    /// Builds a number from an unsigned 64-bit value.
    pub fn from_u64(u: u64) -> (r: Number)
        ensures
            r.repr() == N::PosInt(u),
    {
        Number { n: N::PosInt(u) }
    }

    /// Builds a number from the IEEE-754 bit pattern of a double.
    pub fn from_f64_bits(b: u64) -> (r: Number)
        ensures
            r.repr() == N::Float(b),
    {
        Number { n: N::Float(b) }
    }

    /// Builds a number from a signed 8-bit value.
    pub fn from_i8(i: i8) -> (r: Number)
        ensures
            r.repr() == (if i < 0 {
                N::NegInt(i as i64)
            } else {
                N::PosInt(i as u64)
            }),
    {
        Number::from_i64(i as i64)
    }

    /// Builds a number from a signed 16-bit value.
    pub fn from_i16(i: i16) -> (r: Number)
        ensures
            r.repr() == (if i < 0 {
                N::NegInt(i as i64)
            } else {
                N::PosInt(i as u64)
            }),
    {
        Number::from_i64(i as i64)
    }

    /// Builds a number from a signed 32-bit value.
    pub fn from_i32(i: i32) -> (r: Number)
        ensures
            r.repr() == (if i < 0 {
                N::NegInt(i as i64)
            } else {
                N::PosInt(i as u64)
            }),
    {
        Number::from_i64(i as i64)
    }

    /// Builds a number from a pointer-sized signed value.
    pub fn from_isize(i: isize) -> (r: Number)
        ensures
            r.repr() == (if i < 0 {
                N::NegInt(i as i64)
            } else {
                N::PosInt(i as u64)
            }),
    {
        Number::from_i64(i as i64)
    }

    /// Builds a number from an unsigned 8-bit value.
    pub fn from_u8(u: u8) -> (r: Number)
        ensures
            r.repr() == N::PosInt(u as u64),
    {
        Number::from_u64(u as u64)
    }

    /// Builds a number from an unsigned 16-bit value.
    pub fn from_u16(u: u16) -> (r: Number)
        ensures
            r.repr() == N::PosInt(u as u64),
    {
        Number::from_u64(u as u64)
    }

    /// Builds a number from an unsigned 32-bit value.
    pub fn from_u32(u: u32) -> (r: Number)
        ensures
            r.repr() == N::PosInt(u as u64),
    {
        Number::from_u64(u as u64)
    }

    /// Builds a number from a pointer-sized unsigned value.
    pub fn from_usize(u: usize) -> (r: Number)
        ensures
            r.repr() == N::PosInt(u as u64),
    {
        Number::from_u64(u as u64)
    }

    /// Whether this number is an integer in the signed 64-bit range.
    pub open spec fn spec_is_i64(&self) -> bool {
        match self.repr() {
            N::PosInt(v) => v <= i64::MAX as u64,
            N::NegInt(_) => true,
            N::Float(_) => false,
        }
    }

    /// Whether this number is an integer in the unsigned 64-bit range.
    pub open spec fn spec_is_u64(&self) -> bool {
        self.repr() matches N::PosInt(_)
    }

    /// Whether this number is a float.
    pub open spec fn spec_is_f64(&self) -> bool {
        self.repr() matches N::Float(_)
    }

    /// Returns true if the number is an integer between `i64::MIN` and
    /// `i64::MAX`.
    ///
    /// For any number on which `is_i64` returns true, `as_i64` is
    /// guaranteed to return the integer value.
    pub fn is_i64(&self) -> (r: bool)
        ensures
            r == self.spec_is_i64(),
    {
        match self.n {
            N::PosInt(v) => v <= i64::MAX as u64,
            N::NegInt(_) => true,
            N::Float(_) => false,
        }
    }

    /// Returns true if the number is an integer between zero and
    /// `u64::MAX`.
    ///
    /// For any number on which `is_u64` returns true, `as_u64` is
    /// guaranteed to return the integer value.
    pub fn is_u64(&self) -> (r: bool)
        ensures
            r == self.spec_is_u64(),
    {
        match self.n {
            N::PosInt(_) => true,
            N::NegInt(_) | N::Float(_) => false,
        }
    }

    /// Returns true if the number is a float.
    ///
    /// For any number on which `is_f64` returns true, `as_f64` is
    /// guaranteed to return the floating point value.
    pub fn is_f64(&self) -> (r: bool)
        ensures
            r == self.spec_is_f64(),
    {
        match self.n {
            N::Float(_) => true,
            N::PosInt(_) | N::NegInt(_) => false,
        }
    }

    /// The signed 64-bit value of this number, when it has one.
    pub open spec fn spec_as_i64(&self) -> Option<i64> {
        match self.repr() {
            N::PosInt(v) => if v <= i64::MAX as u64 {
                Some(v as i64)
            } else {
                None
            },
            N::NegInt(i) => Some(i),
            N::Float(_) => None,
        }
    }

    /// The unsigned 64-bit value of this number, when it has one.
    pub open spec fn spec_as_u64(&self) -> Option<u64> {
        match self.repr() {
            N::PosInt(v) => Some(v),
            N::NegInt(_) | N::Float(_) => None,
        }
    }

    /// If the number is an integer, represent it as an i64 if possible.
    /// Returns None otherwise.
    pub fn as_i64(&self) -> (r: Option<i64>)
        ensures
            r == self.spec_as_i64(),
    {
        match self.n {
            N::PosInt(v) => if v <= i64::MAX as u64 {
                Some(v as i64)
            } else {
                None
            },
            N::NegInt(i) => Some(i),
            N::Float(_) => None,
        }
    }

    /// If the number is an integer, represent it as a u64 if possible.
    /// Returns None otherwise.
    pub fn as_u64(&self) -> (r: Option<u64>)
        ensures
            r == self.spec_as_u64(),
    {
        match self.n {
            N::PosInt(v) => Some(v),
            N::NegInt(_) | N::Float(_) => None,
        }
    }

    /// The IEEE-754 bit pattern of this number's float-64 value: a float's
    /// own pattern, or the pattern encoding an integer representation,
    /// rounded to nearest (ties to even) above 2^53.
    pub open spec fn spec_as_f64(&self) -> Option<u64> {
        match self.repr() {
            N::PosInt(v) => Some(f64_bits_of(v as int) as u64),
            N::NegInt(i) => Some(f64_bits_of_neg(-(i as int)) as u64),
            N::Float(b) => Some(b),
        }
    }

    /// Represents the number as a float-64 bit pattern. Succeeds for every
    /// number: integers are converted to the nearest representable double
    /// (which may lose precision above 2^53), and a float returns its own
    /// pattern unchanged, including NaN and the infinities.
    pub fn as_f64(&self) -> (r: Option<u64>)
        ensures
            r == self.spec_as_f64(),
            r is Some,
    {
        proof {
            use_type_invariant(&*self);
        }
        match self.n {
            N::PosInt(v) => Some(u64_to_f64_bits(v)),
            N::NegInt(i) => Some(i64_neg_to_f64_bits(i)),
            N::Float(b) => Some(b),
        }
    }

    /// Returns true if this value is NaN and false otherwise. Integers are
    /// never NaN.
    pub fn is_nan(&self) -> (r: bool)
        ensures
            r == match self.repr() {
                N::Float(b) => bits_is_nan(b),
                _ => false,
            },
    {
        match self.n {
            N::PosInt(_) | N::NegInt(_) => false,
            N::Float(b) => is_nan_bits(b),
        }
    }

    /// Returns true if this value is positive or negative infinity and
    /// false otherwise. Integers are never infinite.
    pub fn is_infinite(&self) -> (r: bool)
        ensures
            r == match self.repr() {
                N::Float(b) => bits_is_inf(b),
                _ => false,
            },
    {
        match self.n {
            N::PosInt(_) | N::NegInt(_) => false,
            N::Float(b) => is_inf_bits(b),
        }
    }

    /// Returns true if this number is neither infinite nor NaN. Integers
    /// are always finite, regardless of magnitude.
    pub fn is_finite(&self) -> (r: bool)
        ensures
            r == match self.repr() {
                N::Float(b) => bits_is_finite(b),
                _ => true,
            },
    {
        match self.n {
            N::PosInt(_) | N::NegInt(_) => true,
            N::Float(b) => is_finite_bits(b),
        }
    }

    /// The outbound primitive this number serializes to, and the tag a
    /// diagnostic describes it by: the non-negative integer representation
    /// maps to the unsigned shape, the negative one to the signed shape,
    /// and the float one to the float shape, payloads unchanged.
    pub fn to_primitive(&self) -> (r: Primitive)
        ensures
            r == match self.repr() {
                N::PosInt(v) => Primitive::Unsigned(v),
                N::NegInt(i) => Primitive::Signed(i),
                N::Float(b) => Primitive::Float(b),
            },
    {
        match self.n {
            N::PosInt(v) => Primitive::Unsigned(v),
            N::NegInt(i) => Primitive::Signed(i),
            N::Float(b) => Primitive::Float(b),
        }
    }

    /// The tagged description of this number's kind and payload, for
    /// inclusion in type-mismatch diagnostics.
    pub fn unexpected(&self) -> (r: Primitive)
        ensures
            r == match self.repr() {
                N::PosInt(v) => Primitive::Unsigned(v),
                N::NegInt(i) => Primitive::Signed(i),
                N::Float(b) => Primitive::Float(b),
            },
    {
        self.to_primitive()
    }

    /// The canonical text of this number, when the library can state it:
    /// base-10 digits for integers (a leading minus for negative ones),
    /// and the literal tokens `.nan`, `.inf` and `-.inf` for the special
    /// floats, the infinity's sign taken from the sign bit. A finite float
    /// has no canonical text here: its shortest round-trippable decimal
    /// form is the host float formatter's, which this library does not
    /// model.
    pub open spec fn spec_render(&self) -> Option<Seq<char>> {
        match self.repr() {
            N::PosInt(v) => Some(dec_digits(v as int)),
            N::NegInt(i) => Some(seq!['-'] + dec_digits(-(i as int))),
            N::Float(b) => if bits_is_nan(b) {
                Some(".nan"@)
            } else if bits_is_inf(b) {
                if sign_field(b) {
                    Some("-.inf"@)
                } else {
                    Some(".inf"@)
                }
            } else {
                None
            },
        }
    }

    /// Renders the canonical text of this number, or returns None for a
    /// finite float, whose decimal form is left to the host float
    /// formatter.
    pub fn render(&self) -> (r: Option<String>)
        ensures
            r is Some <==> self.spec_render() is Some,
            r matches Some(s) ==> self.spec_render() matches Some(t) && s@ == t,
    {
        match self.n {
            N::PosInt(v) => {
                let mut s = String::new();
                push_dec(&mut s, v);
                proof {
                    assert(s@ =~= dec_digits(v as int));
                }
                Some(s)
            },
            N::NegInt(i) => {
                proof {
                    use_type_invariant(&*self);
                    reveal_strlit("-");
                }
                let mag: u64 = ((-(i + 1)) as u64) + 1;
                let mut s = String::new();
                s.append("-");
                push_dec(&mut s, mag);
                proof {
                    assert(mag as int == -(i as int));
                    assert(s@ =~= seq!['-'] + dec_digits(-(i as int)));
                }
                Some(s)
            },
            N::Float(b) => {
                if is_nan_bits(b) {
                    Some(".nan".to_owned())
                } else if is_inf_bits(b) {
                    if sign_bit(b) {
                        Some("-.inf".to_owned())
                    } else {
                        Some(".inf".to_owned())
                    }
                } else {
                    None
                }
            },
        }
    }

    /// Builds a number from an inbound primitive, routing each shape
    /// through the matching construction rule.
    pub fn from_primitive(p: Primitive) -> (r: Number)
        ensures
            r.repr() == match p {
                Primitive::Unsigned(v) => N::PosInt(v),
                Primitive::Signed(i) => if i < 0 {
                    N::NegInt(i)
                } else {
                    N::PosInt(i as u64)
                },
                Primitive::Float(b) => N::Float(b),
            },
    {
        match p {
            Primitive::Unsigned(v) => Number::from_u64(v),
            Primitive::Signed(i) => Number::from_i64(i),
            Primitive::Float(b) => Number::from_f64_bits(b),
        }
    }
}

/// Structural equality of two numbers: the same representation with equal
/// integer payloads, or float payloads equal under IEEE-754 comparison
/// (so NaN is unequal to everything, itself included, and the two zeros
/// are equal).
pub open spec fn spec_num_eq(a: Number, b: Number) -> bool {
    match (a.repr(), b.repr()) {
        (N::PosInt(x), N::PosInt(y)) => x == y,
        (N::NegInt(x), N::NegInt(y)) => x == y,
        (N::Float(x), N::Float(y)) => spec_float_eq(x, y),
        _ => false,
    }
}

impl PartialEq for Number {
    fn eq(&self, other: &Number) -> (r: bool) {
        match (self.n, other.n) {
            (N::PosInt(a), N::PosInt(b)) => a == b,
            (N::NegInt(a), N::NegInt(b)) => a == b,
            (N::Float(a), N::Float(b)) => float_eq_bits(a, b),
            _ => false,
        }
    }
}

impl vstd::std_specs::cmp::PartialEqSpecImpl for Number {
    open spec fn obeys_eq_spec() -> bool {
        true
    }

    open spec fn eq_spec(&self, other: &Number) -> bool {
        spec_num_eq(*self, *other)
    }
}

/// Structural comparison of two numbers. Within a representation, integer
/// payloads order as integers and float payloads under IEEE-754 (so a NaN
/// compares with nothing). Across representations the order is positional:
/// non-negative integers, then negative integers, then floats.
pub open spec fn spec_num_cmp(a: Number, b: Number) -> Option<core::cmp::Ordering> {
    match (a.repr(), b.repr()) {
        (N::PosInt(x), N::PosInt(y)) => Some(spec_int_cmp(x as int, y as int)),
        (N::NegInt(x), N::NegInt(y)) => Some(spec_int_cmp(x as int, y as int)),
        (N::Float(x), N::Float(y)) => spec_float_cmp(x, y),
        (N::PosInt(_), _) => Some(core::cmp::Ordering::Less),
        (_, N::PosInt(_)) => Some(core::cmp::Ordering::Greater),
        (N::NegInt(_), N::Float(_)) => Some(core::cmp::Ordering::Less),
        (N::Float(_), N::NegInt(_)) => Some(core::cmp::Ordering::Greater),
    }
}

/// The ordering of two mathematical integers.
pub open spec fn spec_int_cmp(x: int, y: int) -> core::cmp::Ordering {
    if x < y {
        core::cmp::Ordering::Less
    } else if x == y {
        core::cmp::Ordering::Equal
    } else {
        core::cmp::Ordering::Greater
    }
}

impl PartialOrd for Number {
    fn partial_cmp(&self, other: &Number) -> (r: Option<core::cmp::Ordering>) {
        match (self.n, other.n) {
            (N::PosInt(a), N::PosInt(b)) => Some(
                if a < b {
                    core::cmp::Ordering::Less
                } else if a == b {
                    core::cmp::Ordering::Equal
                } else {
                    core::cmp::Ordering::Greater
                },
            ),
            (N::NegInt(a), N::NegInt(b)) => Some(
                if a < b {
                    core::cmp::Ordering::Less
                } else if a == b {
                    core::cmp::Ordering::Equal
                } else {
                    core::cmp::Ordering::Greater
                },
            ),
            (N::Float(a), N::Float(b)) => float_cmp_bits(a, b),
            (N::PosInt(_), _) => Some(core::cmp::Ordering::Less),
            (_, N::PosInt(_)) => Some(core::cmp::Ordering::Greater),
            (N::NegInt(_), N::Float(_)) => Some(core::cmp::Ordering::Less),
            (N::Float(_), N::NegInt(_)) => Some(core::cmp::Ordering::Greater),
        }
    }
}

impl vstd::std_specs::cmp::PartialOrdSpecImpl for Number {
    open spec fn obeys_partial_cmp_spec() -> bool {
        true
    }

    open spec fn partial_cmp_spec(&self, other: &Number) -> Option<core::cmp::Ordering> {
        spec_num_cmp(*self, *other)
    }
}

/// A classification predicate guarantees its extraction: a number is an
/// integer of a native range exactly when the matching extraction returns
/// a value, and the float view always exists.
pub proof fn lemma_classification_guarantees_extraction(n: Number)
    ensures
        n.spec_is_i64() <==> n.spec_as_i64() is Some,
        n.spec_is_u64() <==> n.spec_as_u64() is Some,
        n.spec_as_f64() is Some,
{
}

/// Every non-negative native integer constructs to the non-negative
/// representation, is classified as an unsigned 64-bit integer, and is
/// extracted back exactly; it fits the signed view exactly when it is
/// within the signed range.
pub proof fn lemma_nonnegative_round_trip(n: Number, i: i64, u: u64)
    ensures
        i >= 0 && n.repr() == N::PosInt(i as u64) ==> n.spec_is_u64() && n.spec_as_u64()
            == Some(i as u64) && n.spec_as_i64() == Some(i),
        n.repr() == N::PosInt(u) ==> n.spec_is_u64() && n.spec_as_u64() == Some(u) && !n.spec_is_f64(),
        n.repr() == N::PosInt(u) ==> (n.spec_is_i64() <==> u <= i64::MAX as u64),
        n.repr() == N::PosInt(u) && u > i64::MAX as u64 ==> n.spec_as_i64() is None,
{
}

/// Every negative native integer constructs to the negative representation,
/// is classified as a signed 64-bit integer but not as unsigned, and is
/// extracted back exactly.
pub proof fn lemma_negative_round_trip(n: Number, i: i64)
    requires
        i < 0,
        n.repr() == N::NegInt(i),
    ensures
        n.spec_is_i64(),
        !n.spec_is_u64(),
        !n.spec_is_f64(),
        n.spec_as_i64() == Some(i),
        n.spec_as_u64() is None,
{
}

/// Every float constructs to the float representation, whatever its value
/// (finite, infinite or NaN), is classified as a float and as neither kind
/// of integer, and its pattern is extracted back unchanged.
pub proof fn lemma_float_round_trip(n: Number, b: u64)
    requires
        n.repr() == N::Float(b),
    ensures
        n.spec_is_f64(),
        !n.spec_is_i64(),
        !n.spec_is_u64(),
        n.spec_as_i64() is None,
        n.spec_as_u64() is None,
        n.spec_as_f64() == Some(b),
{
}

/// Below 2^53 the float view of the integers is lossless: two integer
/// numbers with different signed 64-bit values in the open interval
/// (-2^53, 2^53) always receive different float-64 bit patterns. Outside
/// that interval the conversion rounds and may conflate neighbours.
pub proof fn lemma_as_f64_lossless_small(a: Number, b: Number, x: i64, y: i64)
    requires
        a.spec_as_i64() == Some(x),
        b.spec_as_i64() == Some(y),
        x != y,
        -0x20_0000_0000_0000 < x < 0x20_0000_0000_0000,
        -0x20_0000_0000_0000 < y < 0x20_0000_0000_0000,
        a.repr() matches N::NegInt(i) ==> i < 0,
        b.repr() matches N::NegInt(j) ==> j < 0,
    ensures
        a.spec_as_f64() != b.spec_as_f64(),
{
    vstd::arithmetic::power2::lemma2_to64();
    vstd::arithmetic::power2::lemma2_to64_rest();
    match (a.repr(), b.repr()) {
        (N::PosInt(va), N::PosInt(vb)) => {
            lemma_f64_bits_small_range(va as int);
            lemma_f64_bits_small_range(vb as int);
            if va < vb {
                lemma_f64_bits_lossless_small(va as int, vb as int);
            } else {
                lemma_f64_bits_lossless_small(vb as int, va as int);
            }
        },
        (N::NegInt(ia), N::NegInt(ib)) => {
            lemma_f64_bits_small_range(-(ia as int));
            lemma_f64_bits_small_range(-(ib as int));
            if ia < ib {
                lemma_f64_bits_lossless_small(-(ib as int), -(ia as int));
            } else {
                lemma_f64_bits_lossless_small(-(ia as int), -(ib as int));
            }
        },
        (N::PosInt(va), N::NegInt(ib)) => {
            lemma_f64_bits_small_range(va as int);
            lemma_f64_bits_small_range(-(ib as int));
        },
        (N::NegInt(ia), N::PosInt(vb)) => {
            lemma_f64_bits_small_range(-(ia as int));
            lemma_f64_bits_small_range(vb as int);
        },
        _ => {},
    }
}

} // verus!
