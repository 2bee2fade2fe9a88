//! The runtime datum type of the scripting language and its mathematical
//! model.
//!
//! Numeric semantics, stated once for the whole crate: integers are 64-bit
//! two's-complement and arithmetic wraps on overflow; division or modulo by
//! zero is a runtime fault, never undefined behaviour.

use vstd::prelude::*;
use vstd::string::StrSliceExecFns;
use vstd::string::StringExecFns;

use crate::text::int_str;
use crate::text::push_i64_dec;

verus! {

/// A runtime datum: nil, a 64-bit integer, a boolean, or a string.
#[derive(Debug, PartialEq)]
pub enum Value {
    Nil,
    Int(i64),
    Bool(bool),
    Str(String),
}

/// Model of a [`Value`]: a string is modelled by its character sequence.
pub ghost enum ValueV {
    Nil,
    Int(i64),
    Bool(bool),
    Str(Seq<char>),
}

impl View for Value {
    type V = ValueV;

    open spec fn view(&self) -> ValueV {
        match self {
            Value::Nil => ValueV::Nil,
            Value::Int(i) => ValueV::Int(*i),
            Value::Bool(b) => ValueV::Bool(*b),
            Value::Str(s) => ValueV::Str(s@),
        }
    }
}

impl DeepView for Value {
    type V = ValueV;

    open spec fn deep_view(&self) -> ValueV {
        self.view()
    }
}

impl Clone for Value {
    fn clone(&self) -> (r: Self)
        ensures
            r@ == self@,
    {
        match self {
            Value::Nil => Value::Nil,
            Value::Int(i) => Value::Int(*i),
            Value::Bool(b) => Value::Bool(*b),
            Value::Str(s) => Value::Str(s.clone()),
        }
    }
}

/// The type name used in diagnostic messages.
pub open spec fn kind_name_spec(v: ValueV) -> Seq<char> {
    match v {
        ValueV::Nil => "nil"@,
        ValueV::Int(_) => "int"@,
        ValueV::Bool(_) => "bool"@,
        ValueV::Str(_) => "string"@,
    }
}

impl Value {
    pub fn kind_name(&self) -> (r: &'static str)
        ensures
            r@ == kind_name_spec(self@),
    {
        match self {
            Value::Nil => "nil",
            Value::Int(_) => "int",
            Value::Bool(_) => "bool",
            Value::Str(_) => "string",
        }
    }
}

/// How a value renders when printed: integers in decimal, booleans as
/// `true`/`false`, nil as `nil`, strings verbatim.
pub open spec fn render_spec(v: ValueV) -> Seq<char> {
    match v {
        ValueV::Nil => "nil"@,
        ValueV::Int(i) => int_str(i as int),
        ValueV::Bool(b) => if b {
            "true"@
        } else {
            "false"@
        },
        ValueV::Str(s) => s,
    }
}

/// Appends the printed form of `v` to `out`.
pub fn render_push(v: &Value, out: &mut String)
    ensures
        final(out)@ == old(out)@ + render_spec(v@),
{
    match v {
        Value::Nil => out.append("nil"),
        Value::Int(i) => push_i64_dec(*i, out),
        Value::Bool(b) => {
            if *b {
                out.append("true")
            } else {
                out.append("false")
            }
        },
        Value::Str(s) => out.append(s.as_str()),
    }
}

/// Structural equality of two values; values of different kinds are unequal.
pub open spec fn val_eq(a: ValueV, b: ValueV) -> bool {
    match (a, b) {
        (ValueV::Nil, ValueV::Nil) => true,
        (ValueV::Int(x), ValueV::Int(y)) => x == y,
        (ValueV::Bool(x), ValueV::Bool(y)) => x == y,
        (ValueV::Str(x), ValueV::Str(y)) => x == y,
        _ => false,
    }
}

pub fn value_eq(a: &Value, b: &Value) -> (r: bool)
    ensures
        r == val_eq(a@, b@),
{
    match (a, b) {
        (Value::Nil, Value::Nil) => true,
        (Value::Int(x), Value::Int(y)) => x == y,
        (Value::Bool(x), Value::Bool(y)) => x == y,
        (Value::Str(x), Value::Str(y)) => crate::text::str_eq(x.as_str(), y.as_str()),
        _ => false,
    }
}

/// Truthiness, as the `assert` instruction reads it: false, zero, the empty
/// string and nil are false; everything else is true.
pub open spec fn truthy(v: ValueV) -> bool {
    match v {
        ValueV::Nil => false,
        ValueV::Int(i) => i != 0,
        ValueV::Bool(b) => b,
        ValueV::Str(s) => s.len() > 0,
    }
}

pub fn is_truthy(v: &Value) -> (r: bool)
    ensures
        r == truthy(v@),
{
    match v {
        Value::Nil => false,
        Value::Int(i) => *i != 0,
        Value::Bool(b) => *b,
        Value::Str(s) => !s.as_str().is_empty(),
    }
}

} // verus!
