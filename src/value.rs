use vstd::prelude::*;

verus! {

/// A runtime value. A number is a binary64 floating-point number, held as its IEEE 754
/// bit pattern.
#[derive(Debug, Clone, PartialEq)]
pub enum Value {
    Number(u64),
    Boolean(bool),
    String(String),
    Nil,
}

/// What a value is, with a string as its characters.
pub ghost enum Datum {
    Number(u64),
    Boolean(bool),
    Text(Seq<char>),
    Nil,
}

impl View for Value {
    type V = Datum;

    open spec fn view(&self) -> Datum {
        match self {
            Value::Number(b) => Datum::Number(*b),
            Value::Boolean(b) => Datum::Boolean(*b),
            Value::String(s) => Datum::Text(s@),
            Value::Nil => Datum::Nil,
        }
    }
}

impl Value {
    pub(crate) fn duplicate(&self) -> (r: Value)
        ensures
            r == *self,
    {
        match self {
            Value::Number(b) => Value::Number(*b),
            Value::Boolean(b) => Value::Boolean(*b),
            Value::String(s) => Value::String(s.clone()),
            Value::Nil => Value::Nil,
        }
    }
}

/// The sign bit of a binary64 bit pattern.
pub const SIGN_BIT: u64 = 0x8000_0000_0000_0000;

/// Every bit of a binary64 bit pattern but the sign.
pub const MAGNITUDE: u64 = 0x7fff_ffff_ffff_ffff;

/// The pattern of positive infinity: every exponent bit set, no fraction bit.
pub const INFINITY_BITS: u64 = 0x7ff0_0000_0000_0000;

/// The pattern is a NaN: every exponent bit set and a fraction that is not zero.
pub open spec fn is_nan(b: u64) -> bool {
    b & MAGNITUDE > INFINITY_BITS
}

/// Where a number that is not a NaN stands on the real line. Among the patterns of
/// binary64 numbers that are not NaNs, the magnitude bits grow with the absolute value,
/// and both zeros get the key 0.
pub open spec fn order_key(b: u64) -> int {
    if b & SIGN_BIT == 0 {
        (b & MAGNITUDE) as int
    } else {
        -((b & MAGNITUDE) as int)
    }
}

/// Binary64 equality: no NaN equals anything, and the two zeros are equal.
pub open spec fn number_eq(a: u64, b: u64) -> bool {
    !is_nan(a) && !is_nan(b) && order_key(a) == order_key(b)
}

/// Binary64 `<`: false when either side is a NaN.
pub open spec fn number_lt(a: u64, b: u64) -> bool {
    !is_nan(a) && !is_nan(b) && order_key(a) < order_key(b)
}

/// Binary64 negation flips the sign bit and nothing else.
pub open spec fn number_neg(a: u64) -> u64 {
    a ^ SIGN_BIT
}

/// Equality of values: total over every pair of variants, unequal across variants.
pub open spec fn value_eq(a: Datum, b: Datum) -> bool {
    match (a, b) {
        (Datum::Number(x), Datum::Number(y)) => number_eq(x, y),
        (Datum::Boolean(x), Datum::Boolean(y)) => x == y,
        (Datum::Text(x), Datum::Text(y)) => x == y,
        (Datum::Nil, Datum::Nil) => true,
        _ => false,
    }
}

fn order_key_of(b: u64) -> (r: i128)
    ensures
        r == order_key(b),
{
    let m = b & MAGNITUDE;
    if b & SIGN_BIT == 0 {
        m as i128
    } else {
        -(m as i128)
    }
}

/// Binary64 `==` on two bit patterns.
pub fn number_equal(a: u64, b: u64) -> (r: bool)
    ensures
        r == number_eq(a, b),
{
    a & MAGNITUDE <= INFINITY_BITS && b & MAGNITUDE <= INFINITY_BITS && order_key_of(a)
        == order_key_of(b)
}

/// Binary64 `<` on two bit patterns.
pub fn number_less(a: u64, b: u64) -> (r: bool)
    ensures
        r == number_lt(a, b),
{
    a & MAGNITUDE <= INFINITY_BITS && b & MAGNITUDE <= INFINITY_BITS && order_key_of(a)
        < order_key_of(b)
}

/// Binary64 negation on a bit pattern.
pub fn number_negate(a: u64) -> (r: u64)
    ensures
        r == number_neg(a),
{
    a ^ SIGN_BIT
}

/// Compares two values by [`value_eq`].
pub fn values_equal(a: &Value, b: &Value) -> (r: bool)
    ensures
        r == value_eq(a@, b@),
{
    match (a, b) {
        (Value::Number(x), Value::Number(y)) => number_equal(*x, *y),
        (Value::Boolean(x), Value::Boolean(y)) => *x == *y,
        (Value::String(x), Value::String(y)) => *x == *y,
        (Value::Nil, Value::Nil) => true,
        _ => false,
    }
}

/// The arithmetic operations that the caller's number engine carries out on binary64
/// numbers, given and returned as bit patterns.
#[derive(Debug, Clone, Copy, PartialEq, Eq, Structural)]
pub enum NumOp {
    Add,
    Sub,
    Mul,
    Div,
    Rem,
    Pow,
}

} // verus!
