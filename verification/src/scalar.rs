//! Scalars as the YAML reader understands them: which value a plain string
//! stands for, and which whole number a float counts as.
//!
//! Both answers come from `yaml_rust2`. They are functions of the text alone
//! and too long to state here, so each has a name, and the two functions that
//! ask `yaml_rust2` are believed to return what the name says.

use crate::value::{Value, ValueView};
use vstd::prelude::*;
use yaml_rust2::Yaml;

verus! {

/// The scalar that `yaml_rust2` reads the plain text `text` as: a number, a
/// truth value, null, or else the string itself.
pub uninterp spec fn parsed_scalar(text: Seq<char>) -> ValueView;

/// The whole number that a float written as `text` counts as: its value cut
/// off toward zero, where `yaml_rust2` reads `text` as a float at all.
pub uninterp spec fn float_truncation(text: Seq<char>) -> Option<i64>;

/// `Yaml::from_str`: the scalar that `text` stands for, variant by variant
/// as a `Value`.
#[verifier::external_body]
fn raw_scalar(text: &str) -> (r: Value)
    ensures
        r@ == parsed_scalar(text@),
{
    match Yaml::from_str(text) {
        Yaml::Real(t) => Value::Float(t),
        Yaml::Integer(n) => Value::Int(n),
        Yaml::String(t) => Value::Str(t),
        Yaml::Boolean(b) => Value::Bool(b),
        Yaml::Null => Value::Null,
        _ => Value::Invalid,
    }
}

/// `Yaml::as_f64` on a `Yaml::Real` of `text`, cast to `i64` as Rust casts a
/// float: cut off toward zero.
#[verifier::external_body]
fn raw_float_as_i64(text: &str) -> (r: Option<i64>)
    ensures
        r == float_truncation(text@),
{
    Yaml::Real(text.to_owned()).as_f64().map(|x| x as i64)
}

/// The weight that `v` counts as: a whole number counts as itself, a float as
/// `float_truncation` of its text, anything else as no number.
pub open spec fn weight_of(v: ValueView) -> Option<i64> {
    match v {
        ValueView::Int(n) => Some(n),
        ValueView::Float(text) => float_truncation(text),
        _ => None,
    }
}

impl Value {
    /// The scalar that the plain text `text` stands for.
    pub fn parse_scalar(text: &str) -> (r: Value)
        ensures
            r@ == parsed_scalar(text@),
    {
        raw_scalar(text)
    }
}

/// The number that `v` counts as, if it is one.
pub fn as_i64(v: &Value) -> (r: Option<i64>)
    ensures
        r == weight_of(v@),
{
    match v {
        Value::Int(n) => Some(*n),
        Value::Float(text) => raw_float_as_i64(text.as_str()),
        _ => None,
    }
}

} // verus!
