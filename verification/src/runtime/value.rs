//! Values on the virtual machine's stack and in its constant pool.
use vstd::prelude::*;
use vstd::std_specs::cmp::PartialEqSpecImpl;

verus! {

/// What kind of value a `Value` holds.
#[derive(Debug, Copy, Clone, PartialEq, Eq, Structural)]
pub enum ValueKind {
    Integer,
    Boolean,
    Double,
    Uninitialized,
}

/// A value of the virtual machine. A double is held as the bits of its
/// IEEE 754 encoding: arithmetic on doubles is done outside this library.
#[derive(Debug, Copy, Clone)]
pub enum Value {
    Integer(i32),
    Boolean(bool),
    Double(u64),
    Uninitialized,
}

impl Value {
    /// The kind of value `v` holds.
    pub open spec fn kind_spec(v: Value) -> ValueKind {
        match v {
            Value::Integer(_) => ValueKind::Integer,
            Value::Boolean(_) => ValueKind::Boolean,
            Value::Double(_) => ValueKind::Double,
            Value::Uninitialized => ValueKind::Uninitialized,
        }
    }

    /// The kind of value this is.
    pub fn kind(&self) -> (k: ValueKind)
        ensures
            k == Value::kind_spec(*self),
    {
        match *self {
            Value::Integer(_) => ValueKind::Integer,
            Value::Boolean(_) => ValueKind::Boolean,
            Value::Double(_) => ValueKind::Double,
            Value::Uninitialized => ValueKind::Uninitialized,
        }
    }

    /// An integer value.
    pub fn new_int(integer: i32) -> (v: Self)
        ensures
            v == Value::Integer(integer),
    {
        Value::Integer(integer)
    }

    /// A boolean value.
    pub fn new_bool(boolean: bool) -> (v: Self)
        ensures
            v == Value::Boolean(boolean),
    {
        Value::Boolean(boolean)
    }

    /// A double value, given by the bits of its encoding.
    pub fn new_double_bits(bits: u64) -> (v: Self)
        ensures
            v == Value::Double(bits),
    {
        Value::Double(bits)
    }

    /// The value of a variable that was declared but not yet given one.
    pub fn new_uninitialized() -> (v: Self)
        ensures
            v == Value::Uninitialized,
    {
        Value::Uninitialized
    }
}


/// The bits `bits` encode a NaN: all exponent bits set, and a fraction
/// that is not zero.
pub open spec fn is_nan_bits(bits: u64) -> bool {
    (bits & 0x7FF0_0000_0000_0000u64) == 0x7FF0_0000_0000_0000u64 && (bits & 0x000F_FFFF_FFFF_FFFFu64) != 0
}

/// The bits `bits` encode a zero, of either sign.
pub open spec fn is_zero_bits(bits: u64) -> bool {
    (bits & 0x7FFF_FFFF_FFFF_FFFFu64) == 0
}

/// Two doubles, given by their bits, compare equal: neither is a NaN, and
/// they are the same or both zero.
pub open spec fn double_eq(a: u64, b: u64) -> bool {
    !is_nan_bits(a) && !is_nan_bits(b) && (a == b || (is_zero_bits(a) && is_zero_bits(b)))
}

/// Two values compare equal: they are of one kind other than
/// uninitialized, and their contents compare equal.
pub open spec fn value_eq(a: Value, b: Value) -> bool {
    match (a, b) {
        (Value::Integer(x), Value::Integer(y)) => x == y,
        (Value::Boolean(x), Value::Boolean(y)) => x == y,
        (Value::Double(x), Value::Double(y)) => double_eq(x, y),
        _ => false,
    }
}

impl PartialEq for Value {
    fn eq(&self, other: &Self) -> (r: bool) {
        match (*self, *other) {
            (Value::Integer(x), Value::Integer(y)) => x == y,
            (Value::Boolean(x), Value::Boolean(y)) => x == y,
            (Value::Double(x), Value::Double(y)) => {
                let x_nan = (x & 0x7FF0_0000_0000_0000u64) == 0x7FF0_0000_0000_0000u64 && (x & 0x000F_FFFF_FFFF_FFFFu64) != 0;
                let y_nan = (y & 0x7FF0_0000_0000_0000u64) == 0x7FF0_0000_0000_0000u64 && (y & 0x000F_FFFF_FFFF_FFFFu64) != 0;
                let zeros = (x & 0x7FFF_FFFF_FFFF_FFFFu64) == 0 && (y & 0x7FFF_FFFF_FFFF_FFFFu64) == 0;
                !x_nan && !y_nan && (x == y || zeros)
            },
            _ => false,
        }
    }
}

impl PartialEqSpecImpl for Value {
    open spec fn obeys_eq_spec() -> bool {
        true
    }

    open spec fn eq_spec(&self, other: &Value) -> bool {
        value_eq(*self, *other)
    }
}

/// Comparing values is symmetric; a value compares equal to itself unless
/// it is uninitialized or a NaN.
pub proof fn lemma_value_eq_symmetric(a: Value, b: Value)
    ensures
        value_eq(a, b) == value_eq(b, a),
        value_eq(a, a) == !(a is Uninitialized || (a matches Value::Double(x) && is_nan_bits(x))),
{
}

} // verus!
