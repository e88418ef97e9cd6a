//! Parsed literal values, with value-exact equality, and the variables the
//! extractor synthesizes from them.

use vstd::prelude::*;
use crate::text::str_eq;

verus! {

/// A double-precision value identified by its raw bit pattern. Equality is
/// bit-pattern equality, a deliberate deviation from numeric equality: the
/// zeroes of both signs differ, and every NaN payload is its own value. It
/// only decides how many duplicate parameters are synthesized, never what a
/// query means.
#[derive(Debug, Clone, Copy, PartialEq, Eq, Structural)]
pub struct FloatWrapper(pub u64);

/// A parsed literal: a string, a 64-bit signed integer, a double-precision
/// float (by bit pattern), an arbitrary-precision integer (by its canonical
/// decimal digits), or an arbitrary-precision decimal (by its canonical
/// representation).
///
/// A decimal carries the normalized scientific notation of its value
/// (`1.50` becomes `1.5e0`): equal values always coincide, but the
/// literal's own scale — its count of trailing zero digits — is not kept.
/// A consumer that binds decimals and distinguishes `1.5` from `1.50`
/// must keep the literal text alongside.
#[derive(Debug, Clone, PartialEq, Eq)]
pub enum Value {
    Str(String),
    Int(i64),
    Float(FloatWrapper),
    BigInt(String),
    Decimal(String),
}

/// The mathematical model of a [`Value`]: each textual payload is a
/// character sequence.
pub enum ValueModel {
    Str(Seq<char>),
    Int(i64),
    Float(u64),
    BigInt(Seq<char>),
    Decimal(Seq<char>),
}

impl View for Value {
    type V = ValueModel;

    open spec fn view(&self) -> ValueModel {
        match self {
            Value::Str(s) => ValueModel::Str(s@),
            Value::Int(n) => ValueModel::Int(*n),
            Value::Float(f) => ValueModel::Float(f.0),
            Value::BigInt(s) => ValueModel::BigInt(s@),
            Value::Decimal(s) => ValueModel::Decimal(s@),
        }
    }
}

impl DeepView for Value {
    type V = ValueModel;

    open spec fn deep_view(&self) -> ValueModel {
        self.view()
    }
}

/// Value-exact equality: the deduplication criterion of the extractor.
pub fn value_eq(a: &Value, b: &Value) -> (r: bool)
    ensures
        r == (a@ == b@),
{
    match (a, b) {
        (Value::Str(x), Value::Str(y)) => str_eq(x.as_str(), y.as_str()),
        (Value::Int(x), Value::Int(y)) => *x == *y,
        (Value::Float(x), Value::Float(y)) => x.0 == y.0,
        (Value::BigInt(x), Value::BigInt(y)) => str_eq(x.as_str(), y.as_str()),
        (Value::Decimal(x), Value::Decimal(y)) => str_eq(x.as_str(), y.as_str()),
        _ => false,
    }
}

/// One extracted parameter: the distinct literal value it stands for.
/// Variables are recorded in order of first occurrence, 0-indexed.
#[derive(Debug, Clone, PartialEq, Eq)]
pub struct Variable {
    pub value: Value,
}

impl View for Variable {
    type V = ValueModel;

    open spec fn view(&self) -> ValueModel {
        self.value@
    }
}

impl DeepView for Variable {
    type V = ValueModel;

    open spec fn deep_view(&self) -> ValueModel {
        self.value@
    }
}

/// The index of the first occurrence of `v` in `vars` at or after `i`.
pub open spec fn spec_find_first(vars: Seq<ValueModel>, v: ValueModel, i: int) -> Option<int>
    decreases vars.len() - i,
    when 0 <= i <= vars.len()
{
    if i >= vars.len() {
        None
    } else if vars[i] == v {
        Some(i)
    } else {
        spec_find_first(vars, v, i + 1)
    }
}

/// A value's first occurrence does not move when another value is
/// appended.
pub proof fn lemma_find_first_some_stable(
    vars: Seq<ValueModel>,
    y: ValueModel,
    v: ValueModel,
    i: int,
)
    requires
        0 <= i <= vars.len(),
        spec_find_first(vars, v, i) is Some,
    ensures
        spec_find_first(vars.push(y), v, i) == spec_find_first(vars, v, i),
    decreases vars.len() - i,
{
    if vars[i] == v {
        assert(vars.push(y)[i] == vars[i]);
    } else {
        assert(vars.push(y)[i] == vars[i]);
        lemma_find_first_some_stable(vars, y, v, i + 1);
    }
}

/// A value absent so far occurs first exactly where it is appended.
pub proof fn lemma_find_first_push_self(vars: Seq<ValueModel>, v: ValueModel, i: int)
    requires
        0 <= i <= vars.len(),
        spec_find_first(vars, v, i) is None,
    ensures
        spec_find_first(vars.push(v), v, i) == Some(vars.len() as int),
    decreases vars.len() - i,
{
    if i == vars.len() {
        assert(vars.push(v)[i] == v);
    } else {
        assert(vars.push(v)[i] == vars[i]);
        lemma_find_first_push_self(vars, v, i + 1);
    }
}

/// Finds the first recorded variable holding exactly this value.
pub fn find_var(vars: &Vec<Variable>, v: &Value) -> (r: Option<usize>)
    ensures
        (match r {
            Some(j) => Some(j as int)
            ,
            None => None::<int>,
        }) == spec_find_first(vars.deep_view(), v@, 0),
        r is Some ==> r->Some_0 < vars.len(),
{
    let mut i: usize = 0;
    while i < vars.len()
        invariant
            i <= vars.len(),
            vars.deep_view().len() == vars@.len(),
            spec_find_first(vars.deep_view(), v@, 0) == spec_find_first(
                vars.deep_view(),
                v@,
                i as int,
            ),
        decreases vars.len() - i,
    {
        proof {
            assert(vars.deep_view()[i as int] == vars@[i as int].deep_view());
        }
        if value_eq(&vars[i].value, v) {
            return Some(i);
        }
        i += 1;
    }
    None
}

} // verus!
