//! The `Value` union: integers and text are storable cell contents;
//! `Star` and `Identifier` occur only in statements (a projection or a
//! condition), never inside a stored row.

use vstd::prelude::*;
use crate::digits::{spec_int_str, i32_to_string};

verus! {

/// A literal or projection item, as the parser produces it.
#[derive(Debug, Clone, PartialEq)]
pub enum Value {
    Int(i32),
    Str(String),
    Star,
    Identifier(String),
}

/// The mathematical model of a `Value`.
pub enum SpecValue {
    Int(int),
    Str(Seq<char>),
    Star,
    Identifier(Seq<char>),
}

impl View for Value {
    type V = SpecValue;

    open spec fn view(&self) -> SpecValue {
        match self {
            Value::Int(i) => SpecValue::Int(*i as int),
            Value::Str(s) => SpecValue::Str(s@),
            Value::Star => SpecValue::Star,
            Value::Identifier(s) => SpecValue::Identifier(s@),
        }
    }
}

impl DeepView for Value {
    type V = SpecValue;

    open spec fn deep_view(&self) -> SpecValue {
        self.view()
    }
}

/// A value that may be stored in a row: an integer in 32-bit signed range,
/// or text.
pub open spec fn spec_value_stored(v: SpecValue) -> bool {
    match v {
        SpecValue::Int(i) => i32::MIN <= i <= i32::MAX,
        SpecValue::Str(_) => true,
        _ => false,
    }
}

/// The rendered form of one cell: integers in decimal, text as itself,
/// anything else as a null marker.
pub open spec fn spec_render_value(v: SpecValue) -> Seq<char> {
    match v {
        SpecValue::Int(i) => spec_int_str(i),
        SpecValue::Str(s) => s,
        _ => seq!['N', 'U', 'L', 'L'],
    }
}

/// Equality of two values, by variant and content.
pub fn value_eq(a: &Value, b: &Value) -> (r: bool)
    ensures
        r == (a@ == b@),
{
    match (a, b) {
        (Value::Int(x), Value::Int(y)) => *x == *y,
        (Value::Str(x), Value::Str(y)) => *x == *y,
        (Value::Star, Value::Star) => true,
        (Value::Identifier(x), Value::Identifier(y)) => *x == *y,
        _ => false,
    }
}

/// An exact copy of a value.
pub fn value_copy(v: &Value) -> (r: Value)
    ensures
        r@ == v@,
{
    match v {
        Value::Int(i) => Value::Int(*i),
        Value::Str(s) => Value::Str(s.clone()),
        Value::Star => Value::Star,
        Value::Identifier(s) => Value::Identifier(s.clone()),
    }
}

/// Renders one cell, matching `spec_render_value`.
pub fn render_value(v: &Value) -> (r: String)
    ensures
        r@ == spec_render_value(v@),
{
    match v {
        Value::Int(i) => i32_to_string(*i),
        Value::Str(s) => s.clone(),
        Value::Star => null_marker(),
        Value::Identifier(_) => null_marker(),
    }
}

/// The null marker used for non-scalar or absent cells.
fn null_marker() -> (r: String)
    ensures
        r@ == seq!['N', 'U', 'L', 'L'],
{
    let mut s = String::new();
    s.push('N');
    s.push('U');
    s.push('L');
    s.push('L');
    assert(s@ =~= seq!['N', 'U', 'L', 'L']);
    s
}

} // verus!
