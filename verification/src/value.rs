use vstd::prelude::*;

verus! {

/// A runtime value. A number is an IEEE-754 double, held as its bit pattern;
/// a string is the index of its bytes in the interner. `==` compares the
/// representation; the equality of the language is [`Value::equal`].
#[derive(Clone, Copy, Debug, PartialEq, Eq, Structural)]
pub enum Value {
    Number(u64),
    Bool(bool),
    String(usize),
    Nil,
}

/// The sign bit of a double.
pub const SIGN_BIT: u64 = 0x8000_0000_0000_0000;

/// The bit pattern of positive infinity: every larger magnitude is a NaN.
pub const INFINITY_BITS: u64 = 0x7FF0_0000_0000_0000;

/// The bit pattern without its sign.
pub open spec fn magnitude(bits: u64) -> int {
    if bits >= SIGN_BIT {
        bits - SIGN_BIT
    } else {
        bits as int
    }
}

/// Whether the pattern is one of the NaNs.
pub open spec fn is_nan(bits: u64) -> bool {
    magnitude(bits) > INFINITY_BITS
}

/// A number that grows with the double: for patterns that are no NaN, one
/// double is below another exactly when its key is. Both zeros have key 0.
pub open spec fn order_key(bits: u64) -> int {
    if bits >= SIGN_BIT {
        -magnitude(bits)
    } else {
        magnitude(bits)
    }
}

/// IEEE equality: a NaN equals nothing, the two zeros are equal.
pub open spec fn number_eq(a: u64, b: u64) -> bool {
    !is_nan(a) && !is_nan(b) && order_key(a) == order_key(b)
}

/// IEEE `<`: false whenever a NaN takes part.
pub open spec fn number_lt(a: u64, b: u64) -> bool {
    !is_nan(a) && !is_nan(b) && order_key(a) < order_key(b)
}

/// The pattern with its sign bit flipped.
pub open spec fn negated(bits: u64) -> u64 {
    if bits >= SIGN_BIT {
        (bits - SIGN_BIT) as u64
    } else {
        (bits + SIGN_BIT) as u64
    }
}

fn magnitude_of(bits: u64) -> (m: u64)
    ensures
        m == magnitude(bits),
{
    if bits >= SIGN_BIT {
        bits - SIGN_BIT
    } else {
        bits
    }
}

/// Whether the pattern is one of the NaNs.
pub fn nan(bits: u64) -> (r: bool)
    ensures
        r == is_nan(bits),
{
    magnitude_of(bits) > INFINITY_BITS
}

/// IEEE equality of the two doubles.
pub fn numbers_equal(a: u64, b: u64) -> (r: bool)
    ensures
        r == number_eq(a, b),
{
    if nan(a) || nan(b) {
        false
    } else if magnitude_of(a) == 0 && magnitude_of(b) == 0 {
        true
    } else {
        a == b
    }
}

/// IEEE `<` of the two doubles.
pub fn number_less(a: u64, b: u64) -> (r: bool)
    ensures
        r == number_lt(a, b),
{
    if nan(a) || nan(b) {
        false
    } else if a >= SIGN_BIT {
        if b >= SIGN_BIT {
            magnitude_of(a) > magnitude_of(b)
        } else {
            magnitude_of(a) > 0 || magnitude_of(b) > 0
        }
    } else {
        b < SIGN_BIT && a < b
    }
}

/// The double with the opposite sign.
pub fn negate(bits: u64) -> (r: u64)
    ensures
        r == negated(bits),
{
    if bits >= SIGN_BIT {
        bits - SIGN_BIT
    } else {
        bits + SIGN_BIT
    }
}

impl Value {
    /// `Nil` and `false` count as false; everything else counts as true.
    pub open spec fn falsey(self) -> bool {
        self == Value::Nil || self == Value::Bool(false)
    }

    /// Equality of the language: same arm and same payload, numbers by IEEE.
    pub open spec fn equals(self, other: Value) -> bool {
        match (self, other) {
            (Value::Nil, Value::Nil) => true,
            (Value::Number(a), Value::Number(b)) => number_eq(a, b),
            (Value::Bool(a), Value::Bool(b)) => a == b,
            (Value::String(a), Value::String(b)) => a == b,
            _ => false,
        }
    }

    /// Whether the value counts as false.
    pub fn is_falsey(&self) -> (r: bool)
        ensures
            r == self.falsey(),
    {
        match self {
            Value::Nil => true,
            Value::Bool(b) => !*b,
            _ => false,
        }
    }

    /// Whether the two values are equal in the language.
    pub fn equal(&self, other: Value) -> (r: bool)
        ensures
            r == self.equals(other),
    {
        match (*self, other) {
            (Value::Nil, Value::Nil) => true,
            (Value::Number(a), Value::Number(b)) => numbers_equal(a, b),
            (Value::Bool(a), Value::Bool(b)) => a == b,
            (Value::String(a), Value::String(b)) => a == b,
            _ => false,
        }
    }
}

/// Every value but a NaN equals itself, a NaN does not, equality is
/// symmetric, and values of different arms are never equal.
pub proof fn lemma_equality_laws(a: Value, b: Value)
    ensures
        a.equals(a) <==> !(a matches Value::Number(n) && is_nan(n)),
        a.equals(b) == b.equals(a),
        (a is Number) != (b is Number) ==> !a.equals(b),
        (a is Bool) != (b is Bool) ==> !a.equals(b),
        (a is String) != (b is String) ==> !a.equals(b),
        (a is Nil) != (b is Nil) ==> !a.equals(b),
{
}

} // verus!
