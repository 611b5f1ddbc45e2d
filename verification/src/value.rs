//! The values that a program computes with.
use crate::number::{equal, equal_numbers};
use vstd::prelude::*;
use vstd::std_specs::cmp::PartialEqSpecImpl;

verus! {

/// A value of the language: a boolean, a double (as its IEEE-754 binary64
/// bit pattern), or the absence of a value.
#[derive(Clone, Copy, Debug)]
pub enum Value {
    Bool(bool),
    Number(u64),
    Nil,
}

impl Value {
    /// Equality of the language: two values are equal when they are of the
    /// same variant and hold the same payload, numbers compared as IEEE-754
    /// does. Values of different variants are never equal.
    pub open spec fn same(self, other: Value) -> bool {
        match (self, other) {
            (Value::Bool(a), Value::Bool(b)) => a == b,
            (Value::Number(a), Value::Number(b)) => equal_numbers(a, b),
            (Value::Nil, Value::Nil) => true,
            _ => false,
        }
    }

    /// Only `Nil` and `Bool(false)` count as false.
    pub open spec fn falsey(self) -> bool {
        match self {
            Value::Bool(value) => !value,
            Value::Number(_) => false,
            Value::Nil => true,
        }
    }

    /// The boolean that this value holds, if it is one.
    pub fn as_bool(&self) -> (r: Option<bool>)
        ensures
            r == (match *self {
                Value::Bool(value) => Some(value),
                _ => None,
            }),
    {
        if let Value::Bool(value) = *self {
            Some(value)
        } else {
            None
        }
    }

    /// The bit pattern of the double that this value holds, if it is one.
    pub fn as_number(&self) -> (r: Option<u64>)
        ensures
            r == (match *self {
                Value::Number(bits) => Some(bits),
                _ => None,
            }),
    {
        if let Value::Number(bits) = *self {
            Some(bits)
        } else {
            None
        }
    }

    /// Whether this value counts as false.
    pub fn is_falsey(&self) -> (r: bool)
        ensures
            r == self.falsey(),
    {
        match *self {
            Value::Bool(value) => !value,
            Value::Number(_) => false,
            Value::Nil => true,
        }
    }
}

impl PartialEq for Value {
    fn eq(&self, other: &Self) -> (r: bool) {
        match (*self, *other) {
            (Value::Bool(a), Value::Bool(b)) => a == b,
            (Value::Number(a), Value::Number(b)) => equal(a, b),
            (Value::Nil, Value::Nil) => true,
            _ => false,
        }
    }
}

impl PartialEqSpecImpl for Value {
    open spec fn obeys_eq_spec() -> bool {
        true
    }

    open spec fn eq_spec(&self, other: &Self) -> bool {
        self.same(*other)
    }
}

} // verus!
