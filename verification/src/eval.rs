//! Values of evaluation: unit and 32-bit integers, and how they are displayed.
use vstd::prelude::*;

use crate::text::{push_str, signed_decimal, write_signed};

verus! {

/// A value.
#[derive(Clone, Copy, PartialEq, Eq, Debug, Structural)]
pub enum Term {
    Unit,
    Int { value: i32 },
}

/// How a value is displayed.
pub open spec fn value_text(t: Term) -> Seq<char> {
    match t {
        Term::Unit => "unit"@,
        Term::Int { value } => signed_decimal(value as int),
    }
}

impl Term {
    /// The displayed form of the value.
    pub fn to_string(&self) -> (s: String)
        ensures
            s@ == value_text(*self),
    {
        let mut s = String::new();
        match self {
            Term::Unit => push_str(&mut s, "unit"),
            Term::Int { value } => write_signed(*value, &mut s),
        }
        proof {
            assert(s@ =~= value_text(*self));
        }
        s
    }
}

} // verus!
