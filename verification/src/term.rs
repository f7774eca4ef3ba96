//! Terms of the core calculus, in de Bruijn form (binder names are kept for
//! display only), their mathematical model, equality up to names, and display.
use std::rc::Rc;
use vstd::prelude::*;

use crate::text::{decimal, push_str, write_decimal};

verus! {

/// A core term. `Var::index` counts the binders between the variable and the
/// binder it refers to (0 is the innermost).
#[derive(Debug)]
pub enum Term {
    Sort { level: usize },
    Unit,
    UnitType,
    Nat { value: usize },
    NatType,
    Fun { param_name: String, param_type: Rc<Term>, body: Rc<Term> },
    Prod { param_name: String, param_type: Rc<Term>, body_type: Rc<Term> },
    Var { index: usize, name: String },
    App { callee: Rc<Term>, arg: Rc<Term> },
    Let { name: String, value: Rc<Term>, body: Rc<Term> },
    Const { name: String },
}

/// The mathematical model of a term: names are character sequences.
pub enum TermV {
    Sort { level: usize },
    Unit,
    UnitType,
    Nat { value: usize },
    NatType,
    Fun { param_name: Seq<char>, param_type: Box<TermV>, body: Box<TermV> },
    Prod { param_name: Seq<char>, param_type: Box<TermV>, body_type: Box<TermV> },
    Var { index: usize, name: Seq<char> },
    App { callee: Box<TermV>, arg: Box<TermV> },
    Let { name: Seq<char>, value: Box<TermV>, body: Box<TermV> },
    Const { name: Seq<char> },
}

impl Term {
    pub open spec fn model(self) -> TermV
        decreases self,
    {
        match self {
            Term::Sort { level } => TermV::Sort { level },
            Term::Unit => TermV::Unit,
            Term::UnitType => TermV::UnitType,
            Term::Nat { value } => TermV::Nat { value },
            Term::NatType => TermV::NatType,
            Term::Fun { param_name, param_type, body } => TermV::Fun {
                param_name: param_name@,
                param_type: Box::new((*param_type).model()),
                body: Box::new((*body).model()),
            },
            Term::Prod { param_name, param_type, body_type } => TermV::Prod {
                param_name: param_name@,
                param_type: Box::new((*param_type).model()),
                body_type: Box::new((*body_type).model()),
            },
            Term::Var { index, name } => TermV::Var { index, name: name@ },
            Term::App { callee, arg } => TermV::App {
                callee: Box::new((*callee).model()),
                arg: Box::new((*arg).model()),
            },
            Term::Let { name, value, body } => TermV::Let {
                name: name@,
                value: Box::new((*value).model()),
                body: Box::new((*body).model()),
            },
            Term::Const { name } => TermV::Const { name: name@ },
        }
    }
}

impl View for Term {
    type V = TermV;

    open spec fn view(&self) -> TermV {
        self.model()
    }
}

/// A new handle to a shared term (`Rc::clone`).
/// Trusted: the handle points to the same term.
#[verifier::external_body]
pub(crate) fn rc_clone(t: &Rc<Term>) -> (r: Rc<Term>)
    ensures
        r == *t,
{
    Rc::clone(t)
}

/// The number of nodes of a term.
pub open spec fn term_size(t: TermV) -> nat
    decreases t,
{
    match t {
        TermV::Fun { param_type, body, .. } => 1 + term_size(*param_type) + term_size(*body),
        TermV::Prod { param_type, body_type, .. } => 1 + term_size(*param_type) + term_size(*body_type),
        TermV::App { callee, arg } => 1 + term_size(*callee) + term_size(*arg),
        TermV::Let { value, body, .. } => 1 + term_size(*value) + term_size(*body),
        _ => 1,
    }
}

/// Equality of terms that ignores the names of binders and variables
/// (constants are still compared by name).
pub open spec fn same_term(a: TermV, b: TermV) -> bool
    decreases a,
{
    match a {
        TermV::Sort { level } => b matches TermV::Sort { level: l2 } && level == l2,
        TermV::Unit => b is Unit,
        TermV::UnitType => b is UnitType,
        TermV::Nat { value } => b matches TermV::Nat { value: v2 } && value == v2,
        TermV::NatType => b is NatType,
        TermV::Fun { param_type, body, .. } => match b {
            TermV::Fun { param_type: p2, body: b2, .. } => same_term(*param_type, *p2) && same_term(*body, *b2),
            _ => false,
        },
        TermV::Prod { param_type, body_type, .. } => match b {
            TermV::Prod { param_type: p2, body_type: b2, .. } => same_term(*param_type, *p2) && same_term(*body_type, *b2),
            _ => false,
        },
        TermV::Var { index, .. } => b matches TermV::Var { index: i2, .. } && index == i2,
        TermV::App { callee, arg } => match b {
            TermV::App { callee: c2, arg: a2 } => same_term(*callee, *c2) && same_term(*arg, *a2),
            _ => false,
        },
        TermV::Let { value, body, .. } => match b {
            TermV::Let { value: v2, body: b2, .. } => same_term(*value, *v2) && same_term(*body, *b2),
            _ => false,
        },
        TermV::Const { name } => b matches TermV::Const { name: n2 } && name == n2,
    }
}

/// Every term is the same as itself.
pub proof fn law_same_term_reflexive(a: TermV)
    ensures
        same_term(a, a),
    decreases a,
{
    match a {
        TermV::Fun { param_type, body, .. } => {
            law_same_term_reflexive(*param_type);
            law_same_term_reflexive(*body);
        },
        TermV::Prod { param_type, body_type, .. } => {
            law_same_term_reflexive(*param_type);
            law_same_term_reflexive(*body_type);
        },
        TermV::App { callee, arg } => {
            law_same_term_reflexive(*callee);
            law_same_term_reflexive(*arg);
        },
        TermV::Let { value, body, .. } => {
            law_same_term_reflexive(*value);
            law_same_term_reflexive(*body);
        },
        _ => {},
    }
}

/// Sameness up to names is symmetric.
pub proof fn law_same_term_symmetric(a: TermV, b: TermV)
    ensures
        same_term(a, b) == same_term(b, a),
    decreases a,
{
    match a {
        TermV::Fun { param_type, body, .. } => if let TermV::Fun { param_type: p2, body: b2, .. } = b {
            law_same_term_symmetric(*param_type, *p2);
            law_same_term_symmetric(*body, *b2);
        },
        TermV::Prod { param_type, body_type, .. } => if let TermV::Prod { param_type: p2, body_type: b2, .. } = b {
            law_same_term_symmetric(*param_type, *p2);
            law_same_term_symmetric(*body_type, *b2);
        },
        TermV::App { callee, arg } => if let TermV::App { callee: c2, arg: a2 } = b {
            law_same_term_symmetric(*callee, *c2);
            law_same_term_symmetric(*arg, *a2);
        },
        TermV::Let { value, body, .. } => if let TermV::Let { value: v2, body: b2, .. } = b {
            law_same_term_symmetric(*value, *v2);
            law_same_term_symmetric(*body, *b2);
        },
        _ => {},
    }
}

/// Sameness up to names is transitive.
pub proof fn law_same_term_transitive(a: TermV, b: TermV, c: TermV)
    requires
        same_term(a, b),
        same_term(b, c),
    ensures
        same_term(a, c),
    decreases a,
{
    match a {
        TermV::Fun { param_type, body, .. } => if let TermV::Fun { param_type: p2, body: b2, .. } = b {
            if let TermV::Fun { param_type: p3, body: b3, .. } = c {
                law_same_term_transitive(*param_type, *p2, *p3);
                law_same_term_transitive(*body, *b2, *b3);
            }
        },
        TermV::Prod { param_type, body_type, .. } => if let TermV::Prod { param_type: p2, body_type: b2, .. } = b {
            if let TermV::Prod { param_type: p3, body_type: b3, .. } = c {
                law_same_term_transitive(*param_type, *p2, *p3);
                law_same_term_transitive(*body_type, *b2, *b3);
            }
        },
        TermV::App { callee, arg } => if let TermV::App { callee: c2, arg: a2 } = b {
            if let TermV::App { callee: c3, arg: a3 } = c {
                law_same_term_transitive(*callee, *c2, *c3);
                law_same_term_transitive(*arg, *a2, *a3);
            }
        },
        TermV::Let { value, body, .. } => if let TermV::Let { value: v2, body: b2, .. } = b {
            if let TermV::Let { value: v3, body: b3, .. } = c {
                law_same_term_transitive(*value, *v2, *v3);
                law_same_term_transitive(*body, *b2, *b3);
            }
        },
        _ => {},
    }
}

/// Equality of two terms up to the names of binders and variables.
pub fn terms_equal(a: &Term, b: &Term) -> (r: bool)
    ensures
        r == same_term(a@, b@),
    decreases a,
{
    match a {
        Term::Sort { level } => match b {
            Term::Sort { level: l2 } => *level == *l2,
            _ => false,
        },
        Term::Unit => match b {
            Term::Unit => true,
            _ => false,
        },
        Term::UnitType => match b {
            Term::UnitType => true,
            _ => false,
        },
        Term::Nat { value } => match b {
            Term::Nat { value: v2 } => *value == *v2,
            _ => false,
        },
        Term::NatType => match b {
            Term::NatType => true,
            _ => false,
        },
        Term::Fun { param_type, body, .. } => match b {
            Term::Fun { param_type: p2, body: b2, .. } => terms_equal(&**param_type, &**p2) && terms_equal(&**body, &**b2),
            _ => false,
        },
        Term::Prod { param_type, body_type, .. } => match b {
            Term::Prod { param_type: p2, body_type: b2, .. } => terms_equal(&**param_type, &**p2) && terms_equal(&**body_type, &**b2),
            _ => false,
        },
        Term::Var { index, .. } => match b {
            Term::Var { index: i2, .. } => *index == *i2,
            _ => false,
        },
        Term::App { callee, arg } => match b {
            Term::App { callee: c2, arg: a2 } => terms_equal(&**callee, &**c2) && terms_equal(&**arg, &**a2),
            _ => false,
        },
        Term::Let { value, body, .. } => match b {
            Term::Let { value: v2, body: b2, .. } => terms_equal(&**value, &**v2) && terms_equal(&**body, &**b2),
            _ => false,
        },
        Term::Const { name } => match b {
            Term::Const { name: n2 } => *name == *n2,
            _ => false,
        },
    }
}

/// How a term is displayed.
pub open spec fn term_text(t: TermV) -> Seq<char>
    decreases t,
{
    match t {
        TermV::Sort { level } => if level == 0 {
            "Prop"@
        } else if level == 1 {
            "Type"@
        } else {
            "Type "@ + decimal((level - 1) as nat)
        },
        TermV::Unit => "unit"@,
        TermV::UnitType => "Unit"@,
        TermV::Nat { value } => decimal(value as nat),
        TermV::NatType => "Nat"@,
        TermV::Fun { param_name, param_type, body } =>
            "fun ("@ + param_name + " : "@ + term_text(*param_type) + ") => "@ + term_text(*body),
        TermV::Prod { param_name, param_type, body_type } => if param_name.len() == 0 {
            if (*param_type) is Prod {
                "("@ + term_text(*param_type) + ") -> "@ + term_text(*body_type)
            } else {
                term_text(*param_type) + " -> "@ + term_text(*body_type)
            }
        } else {
            "("@ + param_name + " : "@ + term_text(*param_type) + ") -> "@ + term_text(*body_type)
        },
        TermV::Var { index, name } => decimal(index as nat) + "#"@ + name,
        TermV::App { callee, arg } => {
            let head = match *callee {
                TermV::Fun { .. } => "("@ + term_text(*callee) + ") "@,
                TermV::App { callee: inner_callee, arg: inner_arg } => if (*inner_arg) is Fun {
                    term_text(*inner_callee) + " ("@ + term_text(*inner_arg) + ") "@
                } else {
                    term_text(*callee) + " "@
                },
                _ => term_text(*callee) + " "@,
            };
            let tail = if (*arg) is App {
                "("@ + term_text(*arg) + ")"@
            } else {
                term_text(*arg)
            };
            head + tail
        },
        TermV::Let { name, value, body } =>
            "let "@ + name + " := "@ + term_text(*value) + "; "@ + term_text(*body),
        TermV::Const { name } => name,
    }
}

/// Appends the displayed form of `t`.
pub fn write_term(t: &Term, out: &mut String)
    ensures
        final(out)@ == old(out)@ + term_text(t@),
    decreases t,
{
    let ghost start = out@;
    match t {
        Term::Sort { level } => {
            if *level == 0 {
                push_str(out, "Prop");
            } else if *level == 1 {
                push_str(out, "Type");
            } else {
                push_str(out, "Type ");
                write_decimal(*level - 1, out);
            }
        },
        Term::Unit => push_str(out, "unit"),
        Term::UnitType => push_str(out, "Unit"),
        Term::Nat { value } => write_decimal(*value, out),
        Term::NatType => push_str(out, "Nat"),
        Term::Fun { param_name, param_type, body } => {
            push_str(out, "fun (");
            push_str(out, param_name.as_str());
            push_str(out, " : ");
            write_term(&**param_type, out);
            push_str(out, ") => ");
            write_term(&**body, out);
        },
        Term::Prod { param_name, param_type, body_type } => {
            if param_name.as_str().is_empty() {
                match &**param_type {
                    Term::Prod { .. } => {
                        push_str(out, "(");
                        write_term(&**param_type, out);
                        push_str(out, ") -> ");
                    },
                    _ => {
                        write_term(&**param_type, out);
                        push_str(out, " -> ");
                    },
                }
            } else {
                push_str(out, "(");
                push_str(out, param_name.as_str());
                push_str(out, " : ");
                write_term(&**param_type, out);
                push_str(out, ") -> ");
            }
            write_term(&**body_type, out);
        },
        Term::Var { index, name } => {
            write_decimal(*index, out);
            push_str(out, "#");
            push_str(out, name.as_str());
        },
        Term::App { callee, arg } => {
            match &**callee {
                Term::Fun { .. } => {
                    push_str(out, "(");
                    write_term(&**callee, out);
                    push_str(out, ") ");
                },
                Term::App { callee: inner_callee, arg: inner_arg } => {
                    match &**inner_arg {
                        Term::Fun { .. } => {
                            write_term(&**inner_callee, out);
                            push_str(out, " (");
                            write_term(&**inner_arg, out);
                            push_str(out, ") ");
                        },
                        _ => {
                            write_term(&**callee, out);
                            push_str(out, " ");
                        },
                    }
                },
                _ => {
                    write_term(&**callee, out);
                    push_str(out, " ");
                },
            }
            match &**arg {
                Term::App { .. } => {
                    push_str(out, "(");
                    write_term(&**arg, out);
                    push_str(out, ")");
                },
                _ => write_term(&**arg, out),
            }
        },
        Term::Let { name, value, body } => {
            push_str(out, "let ");
            push_str(out, name.as_str());
            push_str(out, " := ");
            write_term(&**value, out);
            push_str(out, "; ");
            write_term(&**body, out);
        },
        Term::Const { name } => push_str(out, name.as_str()),
    }
    proof {
        assert(out@ =~= start + term_text(t@));
    }
}

impl Term {
    /// The displayed form of the term.
    pub fn to_string(&self) -> (s: String)
        ensures
            s@ == term_text(self@),
    {
        let mut s = String::new();
        write_term(self, &mut s);
        proof {
            assert(s@ =~= term_text(self@));
        }
        s
    }
}

} // verus!
