//! Values that pass between the editor and its extension language.

use crate::strings::copy;
use vstd::prelude::*;

verus! {

/// A value of the extension language. What is neither a boolean, a number nor
/// a string (a closure, a list) stays with the interpreter; here it is a
/// handle.
#[derive(Debug)]
pub enum SchemeVal {
    Bool(bool),
    Int(isize),
    Str(String),
    Ref(usize),
}

/// What a value of the extension language is.
pub enum ValModel {
    Bool(bool),
    Int(int),
    Str(Seq<char>),
    Ref(int),
}

impl View for SchemeVal {
    type V = ValModel;

    open spec fn view(&self) -> ValModel {
        match self {
            SchemeVal::Bool(b) => ValModel::Bool(*b),
            SchemeVal::Int(i) => ValModel::Int(*i as int),
            SchemeVal::Str(s) => ValModel::Str(s@),
            SchemeVal::Ref(r) => ValModel::Ref(*r as int),
        }
    }
}

impl SchemeVal {
    /// A copy of the value.
    pub fn copy(&self) -> (r: Self)
        ensures
            r@ == self@,
    {
        match self {
            SchemeVal::Bool(b) => SchemeVal::Bool(*b),
            SchemeVal::Int(i) => SchemeVal::Int(*i),
            SchemeVal::Str(s) => SchemeVal::Str(copy(s.as_str())),
            SchemeVal::Ref(r) => SchemeVal::Ref(*r),
        }
    }
}

/// What each value of a list is.
pub open spec fn vals(s: Seq<SchemeVal>) -> Seq<ValModel> {
    Seq::new(s.len(), |i: int| s[i]@)
}

/// What an optional value is.
pub open spec fn opt_val(v: Option<SchemeVal>) -> Option<ValModel> {
    match v {
        Some(x) => Some(x@),
        None => None,
    }
}

/// A copy of an optional value.
pub fn copy_opt_val(v: &Option<SchemeVal>) -> (r: Option<SchemeVal>)
    ensures
        opt_val(r) == opt_val(*v),
{
    match v {
        Some(x) => Some(x.copy()),
        None => None,
    }
}

} // verus!
