//! Simple types (unit, integers, functions) and how they are displayed.
use vstd::prelude::*;

use crate::text::push_str;

verus! {

/// A simple type.
#[derive(Debug)]
pub enum Type {
    Unit,
    Int,
    Fun { param_type: Box<Type>, body_type: Box<Type> },
}

/// How a type is displayed: a function type whose parameter is itself a
/// function type puts that parameter in parentheses.
pub open spec fn type_text(t: Type) -> Seq<char>
    decreases t,
{
    match t {
        Type::Unit => "Unit"@,
        Type::Int => "Int"@,
        Type::Fun { param_type, body_type } => if (*param_type) is Fun {
            "("@ + type_text(*param_type) + ") -> "@ + type_text(*body_type)
        } else {
            type_text(*param_type) + " -> "@ + type_text(*body_type)
        },
    }
}

fn write_type(t: &Type, out: &mut String)
    ensures
        final(out)@ == old(out)@ + type_text(*t),
    decreases t,
{
    let ghost start = out@;
    match t {
        Type::Unit => push_str(out, "Unit"),
        Type::Int => push_str(out, "Int"),
        Type::Fun { param_type, body_type } => {
            match &**param_type {
                Type::Fun { .. } => {
                    push_str(out, "(");
                    write_type(&**param_type, out);
                    push_str(out, ") -> ");
                },
                _ => {
                    write_type(&**param_type, out);
                    push_str(out, " -> ");
                },
            }
            write_type(&**body_type, out);
        },
    }
    proof {
        assert(out@ =~= start + type_text(*t));
    }
}

impl Type {
    /// A copy of this type.
    pub fn duplicate(&self) -> (r: Type)
        ensures
            r == *self,
        decreases self,
    {
        match self {
            Type::Unit => Type::Unit,
            Type::Int => Type::Int,
            Type::Fun { param_type, body_type } => Type::Fun {
                param_type: Box::new((**param_type).duplicate()),
                body_type: Box::new((**body_type).duplicate()),
            },
        }
    }

    /// The displayed form of the type.
    pub fn to_string(&self) -> (s: String)
        ensures
            s@ == type_text(*self),
    {
        let mut s = String::new();
        write_type(self, &mut s);
        proof {
            assert(s@ =~= type_text(*self));
        }
        s
    }
}

} // verus!
