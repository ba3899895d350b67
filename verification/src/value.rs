//! Runtime values of Gello programs.
use vstd::prelude::*;
use crate::ast::{copy_names, copy_stmts, names_view, stmts_view, Stmt, StmtV};

verus! {

/// Runtime values in Gello.
///
/// A number is held as the bit pattern of an IEEE-754 double; arithmetic on it
/// is done by whoever drives the interpreter. A function value refers to the
/// scope it closes over, and an array value to a shared, mutable array; both
/// by their index in the interpreter's stores.
#[derive(Debug)]
pub enum Value {
    Number(u64),
    Str(String),
    Bool(bool),
    Null,
    Function { params: Vec<String>, body: Vec<Stmt>, closure: usize },
    Array(usize),
}

/// The model of a value.
pub enum ValueV {
    Number(u64),
    Str(Seq<char>),
    Bool(bool),
    Null,
    Function { params: Seq<Seq<char>>, body: Seq<StmtV>, closure: nat },
    Array(nat),
}

impl View for Value {
    type V = ValueV;

    open spec fn view(&self) -> ValueV {
        match self {
            Value::Number(n) => ValueV::Number(*n),
            Value::Str(s) => ValueV::Str(s@),
            Value::Bool(b) => ValueV::Bool(*b),
            Value::Null => ValueV::Null,
            Value::Function { params, body, closure } => ValueV::Function {
                params: names_view(params@),
                body: stmts_view(body@),
                closure: *closure as nat,
            },
            Value::Array(a) => ValueV::Array(*a as nat),
        }
    }
}

impl Value {
    /// A copy of this value (an array value still refers to the same array).
    pub fn duplicate(&self) -> (r: Value)
        ensures
            r@ == self@,
    {
        match self {
            Value::Number(n) => Value::Number(*n),
            Value::Str(s) => Value::Str(s.clone()),
            Value::Bool(b) => Value::Bool(*b),
            Value::Null => Value::Null,
            Value::Function { params, body, closure } => Value::Function {
                params: copy_names(params),
                body: copy_stmts(body),
                closure: *closure,
            },
            Value::Array(a) => Value::Array(*a),
        }
    }
}

/// Whether a value counts as true in a condition. Numbers are true when they
/// are not zero, which only whoever computes on numbers can tell: for them
/// this gives `None`.
pub open spec fn truth_of(v: ValueV) -> Option<bool> {
    match v {
        ValueV::Bool(b) => Some(b),
        ValueV::Null => Some(false),
        ValueV::Number(_) => None,
        ValueV::Str(s) => Some(s.len() > 0),
        ValueV::Function { .. } => Some(true),
        ValueV::Array(_) => Some(true),
    }
}

} // verus!
