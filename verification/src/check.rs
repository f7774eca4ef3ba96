//! Elaboration of surface syntax into core terms with their types, and the
//! checking of commands (definitions and inductive types) against the
//! global context.
use std::rc::Rc;
use vstd::prelude::*;

use crate::context::{
    find_var, var_at, Const, ConstV, ConstValue, ConstValueV, GlobalContext, LocalContext, RecRule, Var, VarV,
};
use crate::env::Env;
use crate::error::{just_error, single_error, Error, ErrorV};
use crate::normalize::{
    app_head, normal_form, normalize, shift, shift_term, split_app, terms_view, NormError,
    norm_fuel, scoped, env_scoped, law_normal_form_scoped, lemma_scoped_avoid_less, lemma_scoped_longer,
    lemma_scoped_enter, lemma_scoped_shift_up, lemma_scoped_shift_down, lemma_env_scoped_push, lemma_env_scoped_grow,
};
use crate::syntax::{
    command_within_limits, syntax_within_limits, Command, CommandV, Ctor, CtorV, Span, Spanned, Syntax, SyntaxV,
};
use crate::term::{rc_clone, same_term, term_text, terms_equal, write_term, Term, TermV};
use crate::text::push_str;

verus! {

/// The message of an error that stopped normalization.
pub open spec fn norm_error_message(e: NormError) -> Seq<char> {
    match e {
        NormError::DepthExceeded => "normalization exceeded its depth bound"@,
        NormError::UnboundIndex => "normalization met a variable outside its environment"@,
    }
}

/// The error reported when normalization stops at `span`.
pub open spec fn norm_failure(span: Span, e: NormError) -> ErrorV {
    ErrorV { span, message: norm_error_message(e) }
}

/// Normal form, nested as deep as a machine word counts.
pub open spec fn nf(t: TermV, g: Map<Seq<char>, ConstV>, env: Seq<Option<TermV>>) -> Result<TermV, NormError> {
    normal_form(norm_fuel(env), t, g, env)
}

/// The term and type that a variable name stands for: the nearest local
/// variable of that name (its type shifted past the binders in between),
/// else the constant of that name (a definition stands for its value, any
/// other constant for itself).
pub open spec fn lookup_var(name: Seq<char>, span: Span, g: Map<Seq<char>, ConstV>, lctx: Seq<VarV>) -> Result<(TermV, TermV), ErrorV> {
    match find_var(lctx, name) {
        Some(i) => {
            let v = var_at(lctx, i as int);
            Ok((TermV::Var { index: i as usize, name: v.name }, shift_term(v.typ, i as int + 1, 0)))
        },
        None => if g.dom().contains(name) {
            let c = g[name];
            let t = match c.value {
                ConstValueV::Def { value } => value,
                _ => TermV::Const { name },
            };
            Ok((t, c.typ))
        } else {
            Err(ErrorV { span, message: "unbound variable"@ })
        },
    }
}

/// The elaborated term and type of surface syntax `s`, in the local context
/// `lctx` with the matching environment `env`, or the first error found.
pub open spec fn elaborate(s: SyntaxV, g: Map<Seq<char>, ConstV>, lctx: Seq<VarV>, env: Seq<Option<TermV>>) -> Result<(TermV, TermV), ErrorV>
    decreases s,
{
    match s {
        SyntaxV::Sort { level } => Ok((TermV::Sort { level }, TermV::Sort { level: (level + 1) as usize })),
        SyntaxV::Unit => Ok((TermV::Unit, TermV::UnitType)),
        SyntaxV::UnitType => Ok((TermV::UnitType, TermV::Sort { level: 1 })),
        SyntaxV::Nat { value } => Ok((TermV::Nat { value }, TermV::NatType)),
        SyntaxV::NatType => Ok((TermV::NatType, TermV::Sort { level: 1 })),
        SyntaxV::Fun { param_name, param_type, param_type_span, body } => match elaborate(*param_type, g, lctx, env) {
            Err(e) => Err(e),
            Ok((pt, pt_sort)) => if !(pt_sort is Sort) {
                Err(ErrorV { span: param_type_span, message: "not a sort"@ })
            } else {
                match elaborate(*body, g, lctx.push(VarV { name: param_name, typ: pt }), env.push(None)) {
                    Err(e) => Err(e),
                    Ok((b, bt)) => Ok((
                        TermV::Fun { param_name, param_type: Box::new(pt), body: Box::new(b) },
                        TermV::Prod { param_name, param_type: Box::new(pt), body_type: Box::new(bt) },
                    )),
                }
            },
        },
        SyntaxV::Prod { param_name, param_type, param_type_span, body_type, body_type_span } => match elaborate(*param_type, g, lctx, env) {
            Err(e) => Err(e),
            Ok((pt, pt_sort)) => match pt_sort {
                TermV::Sort { level: pl } => match elaborate(*body_type, g, lctx.push(VarV { name: param_name, typ: pt }), env.push(None)) {
                    Err(e) => Err(e),
                    Ok((bt, bt_sort)) => match bt_sort {
                        TermV::Sort { level: bl } => Ok((
                            TermV::Prod { param_name, param_type: Box::new(pt), body_type: Box::new(bt) },
                            TermV::Sort { level: if pl >= bl { pl } else { bl } },
                        )),
                        _ => Err(ErrorV { span: body_type_span, message: "not a sort"@ }),
                    },
                },
                _ => Err(ErrorV { span: param_type_span, message: "not a sort"@ }),
            },
        },
        SyntaxV::Var { name, name_span } => lookup_var(name, name_span, g, lctx),
        SyntaxV::App { callee, callee_span, arg, arg_span } => match elaborate(*callee, g, lctx, env) {
            Err(e) => Err(e),
            Ok((c, ct)) => match nf(ct, g, env) {
                Err(ne) => Err(norm_failure(callee_span, ne)),
                Ok(TermV::Prod { param_type, body_type, .. }) => match elaborate(*arg, g, lctx, env) {
                    Err(e) => Err(e),
                    Ok((a, at)) => match nf(at, g, env) {
                        Err(ne) => Err(norm_failure(arg_span, ne)),
                        Ok(norm_at) => match nf(*param_type, g, env) {
                            Err(ne) => Err(norm_failure(arg_span, ne)),
                            Ok(norm_pt) => if !same_term(norm_at, norm_pt) {
                                Err(ErrorV {
                                    span: arg_span,
                                    message: "type mismatch: "@ + term_text(at) + " and "@ + term_text(*param_type),
                                })
                            } else {
                                match nf(*body_type, g, env.push(Some(a))) {
                                    Err(ne) => Err(norm_failure(Span { start: callee_span.start, end: arg_span.end }, ne)),
                                    Ok(nbt) => Ok((TermV::App { callee: Box::new(c), arg: Box::new(a) }, shift_term(nbt, -1, 0))),
                                }
                            },
                        },
                    },
                },
                Ok(_) => Err(ErrorV { span: callee_span, message: "not a function"@ }),
            },
        },
        SyntaxV::Let { name, value, body } => match elaborate(*value, g, lctx, env) {
            Err(e) => Err(e),
            Ok((v, vt)) => match elaborate(*body, g, lctx.push(VarV { name, typ: vt }), env.push(Some(v))) {
                Err(e) => Err(e),
                Ok((b, bt)) => Ok((TermV::Let { name, value: Box::new(v), body: Box::new(b) }, bt)),
            },
        },
    }
}

/// Whether an elaboration result is the one specified.
pub open spec fn elaborated(r: crate::error::Result<(Rc<Term>, Rc<Term>)>, s: Result<(TermV, TermV), ErrorV>) -> bool {
    match (r, s) {
        (Ok((t, ty)), Ok((tv, tyv))) => (*t)@ == tv && (*ty)@ == tyv,
        (Err(es), Err(e)) => just_error(es, e),
        _ => false,
    }
}

/// The context `g` with `name` defined as `c`, unless `name` is already defined.
pub open spec fn define(name: Seq<char>, c: ConstV, span: Span, g: Map<Seq<char>, ConstV>) -> Result<Map<Seq<char>, ConstV>, ErrorV> {
    if g.dom().contains(name) {
        Err(ErrorV { span, message: name + " is already defined"@ })
    } else {
        Ok(g.insert(name, c))
    }
}

/// The parameter types of a chain of products, outermost first.
pub open spec fn prod_fields(t: TermV) -> Seq<TermV>
    decreases t,
{
    match t {
        TermV::Prod { param_type, body_type, .. } => seq![*param_type] + prod_fields(*body_type),
        _ => Seq::empty(),
    }
}

/// Products with unnamed parameters of the types `fields` (outermost
/// first) around `result`.
pub open spec fn prods_over(fields: Seq<TermV>, result: TermV) -> TermV
    decreases fields.len(),
{
    if fields.len() == 0 {
        result
    } else {
        TermV::Prod { param_name: Seq::empty(), param_type: Box::new(fields[0]), body_type: Box::new(prods_over(fields.drop_first(), result)) }
    }
}

/// A chain of products is, up to parameter names, its parameter types
/// around its result type.
pub proof fn law_prod_chain(t: TermV)
    ensures
        same_term(prods_over(prod_fields(t), prod_result(t)), t),
        !(prod_result(t) is Prod),
    decreases t,
{
    match t {
        TermV::Prod { param_type, body_type, .. } => {
            law_prod_chain(*body_type);
            crate::term::law_same_term_reflexive(*param_type);
            assert(prod_fields(t).drop_first() =~= prod_fields(*body_type));
        },
        _ => {
            crate::term::law_same_term_reflexive(t);
        },
    }
}

/// The type at the end of a chain of products.
pub open spec fn prod_result(t: TermV) -> TermV
    decreases t,
{
    match t {
        TermV::Prod { body_type, .. } => prod_result(*body_type),
        _ => t,
    }
}

/// Whether the type found by following the parameter types of `t` (a chain
/// of products' first parameters) is not the inductive type `ind`.
pub open spec fn positivity_ok(ind: TermV, t: TermV) -> bool
    decreases t,
{
    match t {
        TermV::Prod { param_type, .. } => positivity_ok(ind, *param_type),
        _ => !same_term(t, ind),
    }
}

/// Whether a constructor field of type `f` uses `ind` only strictly positively.
pub open spec fn field_ok(ind: TermV, f: TermV) -> bool {
    match f {
        TermV::Prod { param_type, .. } => positivity_ok(ind, *param_type),
        _ => true,
    }
}

/// The verdict on the type `t` of a constructor of `ind`: every field is
/// strictly positive and the result is `ind` (possibly applied).
pub open spec fn ctor_type_verdict(ind: TermV, t: TermV, span: Span) -> Result<(), ErrorV> {
    if exists|i: int| 0 <= i < prod_fields(t).len() && !field_ok(ind, #[trigger] prod_fields(t)[i]) {
        Err(ErrorV { span, message: "found invalid occurrence of inductive type"@ })
    } else if !same_term(app_head(prod_result(t)), ind) {
        Err(ErrorV { span, message: "unecpected resulting type of constructor"@ })
    } else {
        Ok(())
    }
}

/// The constant that a constructor declaration of `ind` defines.
pub open spec fn ctor_const(ctor: CtorV, ind: TermV, g: Map<Seq<char>, ConstV>, lctx: Seq<VarV>, env: Seq<Option<TermV>>) -> Result<ConstV, ErrorV> {
    match elaborate(ctor.typ, g, lctx, env) {
        Err(e) => Err(e),
        Ok((t, sort)) => if !(sort is Sort) {
            Err(ErrorV { span: ctor.typ_span, message: "not a sort"@ })
        } else {
            match ctor_type_verdict(ind, t, ctor.typ_span) {
                Err(e) => Err(e),
                Ok(_) => Ok(ConstV { typ: t, value: ConstValueV::Ctor }),
            }
        },
    }
}

/// The context after defining the constructors `ctors[from..]` of `ind` in order.
pub open spec fn define_ctors(ctors: Seq<CtorV>, from: nat, ind: TermV, g: Map<Seq<char>, ConstV>, lctx: Seq<VarV>, env: Seq<Option<TermV>>) -> Result<Map<Seq<char>, ConstV>, ErrorV>
    decreases ctors.len() - from,
{
    if from >= ctors.len() {
        Ok(g)
    } else {
        match ctor_const(ctors[from as int], ind, g, lctx, env) {
            Err(e) => Err(e),
            Ok(c) => match define(ctors[from as int].name, c, ctors[from as int].name_span, g) {
                Err(e) => Err(e),
                Ok(g1) => define_ctors(ctors, from + 1, ind, g1, lctx, env),
            },
        }
    }
}

/// The premises of a recursor from the constructor `j` on: one premise
/// `motive c_j` per constructor, then the major premise `(t : ind)` with
/// result `motive t`.
pub open spec fn recursor_premises(ind: TermV, ctors: Seq<Seq<char>>, j: nat) -> TermV
    decreases ctors.len() - j,
{
    if j >= ctors.len() {
        TermV::Prod {
            param_name: "t"@,
            param_type: Box::new(ind),
            body_type: Box::new(TermV::App {
                callee: Box::new(TermV::Var { index: (ctors.len() + 1) as usize, name: "motive"@ }),
                arg: Box::new(TermV::Var { index: 0, name: "t"@ }),
            }),
        }
    } else {
        TermV::Prod {
            param_name: ""@,
            param_type: Box::new(TermV::App {
                callee: Box::new(TermV::Var { index: j as usize, name: "motive"@ }),
                arg: Box::new(TermV::Const { name: ctors[j as int] }),
            }),
            body_type: Box::new(recursor_premises(ind, ctors, j + 1)),
        }
    }
}

/// The type of the recursor of `ind` with constructors `ctors`:
/// `(motive : ind -> Type) -> motive c_0 -> ... -> (t : ind) -> motive t`.
pub open spec fn recursor_type(ind: TermV, ctors: Seq<Seq<char>>) -> TermV {
    TermV::Prod {
        param_name: "motive"@,
        param_type: Box::new(TermV::Prod {
            param_name: ""@,
            param_type: Box::new(ind),
            body_type: Box::new(TermV::Sort { level: 1 }),
        }),
        body_type: Box::new(recursor_premises(ind, ctors, 0)),
    }
}

/// The names of constructor declarations.
pub open spec fn ctor_names(ctors: Seq<CtorV>) -> Seq<Seq<char>> {
    ctors.map_values(|c: CtorV| c.name)
}

/// The context after an inductive type `name` of type `typ` with the
/// constructors `ctors`: the type, each constructor, and the recursor
/// `rec<name>`.
pub open spec fn inductive_result(name: Seq<char>, name_span: Span, typ: SyntaxV, typ_span: Span, ctors: Seq<CtorV>, g: Map<Seq<char>, ConstV>, lctx: Seq<VarV>, env: Seq<Option<TermV>>) -> Result<Map<Seq<char>, ConstV>, ErrorV> {
    match elaborate(typ, g, lctx, env) {
        Err(e) => Err(e),
        Ok((t, sort)) => if !(sort is Sort) {
            Err(ErrorV { span: typ_span, message: "not a sort"@ })
        } else {
            match define(name, ConstV { typ: t, value: ConstValueV::Ind }, name_span, g) {
                Err(e) => Err(e),
                Ok(g1) => {
                    let ind = TermV::Const { name };
                    match define_ctors(ctors, 0, ind, g1, lctx, env) {
                        Err(e) => Err(e),
                        Ok(g2) => define(
                            "rec"@ + name,
                            ConstV { typ: recursor_type(ind, ctor_names(ctors)), value: ConstValueV::Rec { ctors: ctor_names(ctors) } },
                            name_span,
                            g2,
                        ),
                    }
                },
            }
        },
    }
}

/// The context after defining the constructors `ctors[from..]` of `ind` in
/// order, stopping at the first that fails: the constructors defined before
/// the failure stay defined.
pub open spec fn define_ctors_state(ctors: Seq<CtorV>, from: nat, ind: TermV, g: Map<Seq<char>, ConstV>, lctx: Seq<VarV>, env: Seq<Option<TermV>>) -> Map<Seq<char>, ConstV>
    decreases ctors.len() - from,
{
    if from >= ctors.len() {
        g
    } else {
        match ctor_const(ctors[from as int], ind, g, lctx, env) {
            Err(_) => g,
            Ok(c) => match define(ctors[from as int].name, c, ctors[from as int].name_span, g) {
                Err(_) => g,
                Ok(g1) => define_ctors_state(ctors, from + 1, ind, g1, lctx, env),
            },
        }
    }
}

/// The context that an inductive command leaves, whether it succeeds or
/// not: each definition made before a failure stays (the type, then the
/// constructors in order, then the recursor).
pub open spec fn inductive_state(name: Seq<char>, name_span: Span, typ: SyntaxV, typ_span: Span, ctors: Seq<CtorV>, g: Map<Seq<char>, ConstV>, lctx: Seq<VarV>, env: Seq<Option<TermV>>) -> Map<Seq<char>, ConstV> {
    match elaborate(typ, g, lctx, env) {
        Err(_) => g,
        Ok((t, sort)) => if !(sort is Sort) {
            g
        } else {
            match define(name, ConstV { typ: t, value: ConstValueV::Ind }, name_span, g) {
                Err(_) => g,
                Ok(g1) => {
                    let ind = TermV::Const { name };
                    match define_ctors(ctors, 0, ind, g1, lctx, env) {
                        Err(_) => define_ctors_state(ctors, 0, ind, g1, lctx, env),
                        Ok(g2) => match define(
                            "rec"@ + name,
                            ConstV { typ: recursor_type(ind, ctor_names(ctors)), value: ConstValueV::Rec { ctors: ctor_names(ctors) } },
                            name_span,
                            g2,
                        ) {
                            Err(_) => g2,
                            Ok(g3) => g3,
                        },
                    }
                },
            }
        },
    }
}

/// The global context after a command, or the first error found.
pub open spec fn command_result(c: CommandV, g: Map<Seq<char>, ConstV>, lctx: Seq<VarV>, env: Seq<Option<TermV>>) -> Result<Map<Seq<char>, ConstV>, ErrorV> {
    match c {
        CommandV::Def { name, name_span, value } => match elaborate(value, g, lctx, env) {
            Err(e) => Err(e),
            Ok((v, t)) => define(name, ConstV { typ: t, value: ConstValueV::Def { value: v } }, name_span, g),
        },
        CommandV::Inductive { name, name_span, typ, typ_span, ctors } =>
            inductive_result(name, name_span, typ, typ_span, ctors, g, lctx, env),
    }
}


/// Whether `g2` keeps every constant of `g` as it was.
pub open spec fn keeps_constants(g: Map<Seq<char>, ConstV>, g2: Map<Seq<char>, ConstV>) -> bool {
    forall|n: Seq<char>| #[trigger] g.dom().contains(n) ==> g2.dom().contains(n) && g2[n] == g[n]
}

proof fn lemma_define_keeps(name: Seq<char>, c: ConstV, span: Span, g: Map<Seq<char>, ConstV>)
    ensures
        define(name, c, span, g) matches Ok(g2) ==> keeps_constants(g, g2) && !g.dom().contains(name)
            && g2.dom().contains(name) && g2[name] == c,
{
}

proof fn lemma_define_ctors_keeps(ctors: Seq<CtorV>, from: nat, ind: TermV, g: Map<Seq<char>, ConstV>, lctx: Seq<VarV>, env: Seq<Option<TermV>>)
    ensures
        define_ctors(ctors, from, ind, g, lctx, env) matches Ok(g2) ==> {
            &&& keeps_constants(g, g2)
            &&& forall|i: int| from <= i < ctors.len() ==> {
                &&& g2.dom().contains((#[trigger] ctors[i]).name)
                &&& g2[ctors[i].name].value is Ctor
                &&& !g.dom().contains(ctors[i].name)
            }
        },
    decreases ctors.len() - from,
{
    if from < ctors.len() {
        let ctor = ctors[from as int];
        if let Ok(c) = ctor_const(ctor, ind, g, lctx, env) {
            lemma_define_keeps(ctor.name, c, ctor.name_span, g);
            if let Ok(g1) = define(ctor.name, c, ctor.name_span, g) {
                lemma_define_ctors_keeps(ctors, from + 1, ind, g1, lctx, env);
            }
        }
    }
}

/// A command that succeeds keeps every constant that was defined before it
/// as it was: no name is ever defined twice.
pub proof fn law_command_keeps_constants(c: CommandV, g: Map<Seq<char>, ConstV>, lctx: Seq<VarV>, env: Seq<Option<TermV>>)
    ensures
        command_result(c, g, lctx, env) matches Ok(g2) ==> keeps_constants(g, g2),
{
    match c {
        CommandV::Def { name, name_span, value } => {
            if let Ok((v, t)) = elaborate(value, g, lctx, env) {
                lemma_define_keeps(name, ConstV { typ: t, value: ConstValueV::Def { value: v } }, name_span, g);
            }
        },
        CommandV::Inductive { name, name_span, typ, typ_span, ctors } => {
            law_inductive_defines(name, name_span, typ, typ_span, ctors, g, lctx, env);
        },
    }
}

/// An inductive type that is accepted defines its name as an inductive
/// type, each of its constructors (none of which was defined before) as a
/// constructor, and `rec` followed by its name as its recursor, whose type
/// is the recursor type over the constructors in order.
pub proof fn law_inductive_defines(name: Seq<char>, name_span: Span, typ: SyntaxV, typ_span: Span, ctors: Seq<CtorV>, g: Map<Seq<char>, ConstV>, lctx: Seq<VarV>, env: Seq<Option<TermV>>)
    ensures
        inductive_result(name, name_span, typ, typ_span, ctors, g, lctx, env) matches Ok(g2) ==> {
            &&& keeps_constants(g, g2)
            &&& !g.dom().contains(name)
            &&& g2.dom().contains(name)
            &&& g2[name].value is Ind
            &&& forall|i: int| 0 <= i < ctors.len() ==> {
                &&& g2.dom().contains((#[trigger] ctors[i]).name)
                &&& g2[ctors[i].name].value is Ctor
            }
            &&& g2.dom().contains("rec"@ + name)
            &&& g2["rec"@ + name] == (ConstV {
                typ: recursor_type(TermV::Const { name }, ctor_names(ctors)),
                value: ConstValueV::Rec { ctors: ctor_names(ctors) },
            })
        },
{
    if let Ok((t, sort)) = elaborate(typ, g, lctx, env) {
        if sort is Sort {
            let ind_const = ConstV { typ: t, value: ConstValueV::Ind };
            lemma_define_keeps(name, ind_const, name_span, g);
            if let Ok(g1) = define(name, ind_const, name_span, g) {
                let ind = TermV::Const { name };
                lemma_define_ctors_keeps(ctors, 0, ind, g1, lctx, env);
                if let Ok(g2) = define_ctors(ctors, 0, ind, g1, lctx, env) {
                    let rc = ConstV {
                        typ: recursor_type(ind, ctor_names(ctors)),
                        value: ConstValueV::Rec { ctors: ctor_names(ctors) },
                    };
                    lemma_define_keeps("rec"@ + name, rc, name_span, g2);
                    if let Ok(g3) = define("rec"@ + name, rc, name_span, g2) {
                        assert(g1.dom().contains(name));
                        assert(g2.dom().contains(name));
                        assert forall|n: Seq<char>| #[trigger] g.dom().contains(n) implies g3.dom().contains(n) && g3[n] == g[n] by {
                            assert(g1.dom().contains(n));
                            assert(g2.dom().contains(n));
                        }
                    }
                }
            }
        }
    }
}

proof fn lemma_recursor_premises_shape(ind: TermV, ctors: Seq<Seq<char>>, j: nat)
    requires
        j <= ctors.len(),
    ensures
        prod_fields(recursor_premises(ind, ctors, j)).len() == ctors.len() - j + 1,
        prod_result(recursor_premises(ind, ctors, j)) == (TermV::App {
            callee: Box::new(TermV::Var { index: (ctors.len() + 1) as usize, name: "motive"@ }),
            arg: Box::new(TermV::Var { index: 0, name: "t"@ }),
        }),
        forall|i: int| j <= i < ctors.len() ==> #[trigger] prod_fields(recursor_premises(ind, ctors, j))[i - j] == (TermV::App {
            callee: Box::new(TermV::Var { index: i as usize, name: "motive"@ }),
            arg: Box::new(TermV::Const { name: ctors[i] }),
        }),
        prod_fields(recursor_premises(ind, ctors, j))[ctors.len() - j] == ind,
    decreases ctors.len() - j,
{
    if j < ctors.len() {
        lemma_recursor_premises_shape(ind, ctors, j + 1);
        let rest = prod_fields(recursor_premises(ind, ctors, j + 1));
        let fields = prod_fields(recursor_premises(ind, ctors, j));
        assert(fields == seq![(TermV::App {
            callee: Box::new(TermV::Var { index: j as usize, name: "motive"@ }),
            arg: Box::new(TermV::Const { name: ctors[j as int] }),
        })] + rest);
        assert forall|i: int| j <= i < ctors.len() implies #[trigger] fields[i - j] == (TermV::App {
            callee: Box::new(TermV::Var { index: i as usize, name: "motive"@ }),
            arg: Box::new(TermV::Const { name: ctors[i] }),
        }) by {
            if i > j {
                assert(fields[i - j] == rest[i - (j + 1)]);
            }
        }
        assert(fields[ctors.len() - j] == rest[ctors.len() - (j + 1)]);
    } else {
        let body = TermV::App {
            callee: Box::new(TermV::Var { index: (ctors.len() + 1) as usize, name: "motive"@ }),
            arg: Box::new(TermV::Var { index: 0, name: "t"@ }),
        };
        assert(prod_fields(body) =~= Seq::<TermV>::empty());
        assert(prod_result(body) == body);
        let f = prod_fields(recursor_premises(ind, ctors, j));
        assert(f =~= seq![ind]);
    }
}

/// The recursor of an inductive type with `k` constructors takes `k + 2`
/// arguments: the motive, one case per constructor in order, and the value
/// eliminated (of the inductive type); its result is the motive applied to
/// that value.
pub proof fn law_recursor_arity(ind: TermV, ctors: Seq<Seq<char>>)
    ensures
        prod_fields(recursor_type(ind, ctors)).len() == ctors.len() + 2,
        prod_fields(recursor_type(ind, ctors))[0] == (TermV::Prod {
            param_name: ""@,
            param_type: Box::new(ind),
            body_type: Box::new(TermV::Sort { level: 1 }),
        }),
        forall|i: int| 0 <= i < ctors.len() ==> #[trigger] prod_fields(recursor_type(ind, ctors))[i + 1] == (TermV::App {
            callee: Box::new(TermV::Var { index: i as usize, name: "motive"@ }),
            arg: Box::new(TermV::Const { name: ctors[i] }),
        }),
        prod_fields(recursor_type(ind, ctors))[ctors.len() + 1int] == ind,
        prod_result(recursor_type(ind, ctors)) == (TermV::App {
            callee: Box::new(TermV::Var { index: (ctors.len() + 1) as usize, name: "motive"@ }),
            arg: Box::new(TermV::Var { index: 0, name: "t"@ }),
        }),
{
    lemma_recursor_premises_shape(ind, ctors, 0);
    let rest = prod_fields(recursor_premises(ind, ctors, 0));
    let fields = prod_fields(recursor_type(ind, ctors));
    assert forall|i: int| 0 <= i < ctors.len() implies #[trigger] fields[i + 1] == (TermV::App {
        callee: Box::new(TermV::Var { index: i as usize, name: "motive"@ }),
        arg: Box::new(TermV::Const { name: ctors[i] }),
    }) by {
        assert(fields[i + 1] == rest[i - 0]);
    }
    assert(fields[ctors.len() + 1int] == rest[ctors.len() - 0]);
}

/// Whether every constant that `t` names is defined in `g`.
pub open spec fn consts_defined(t: TermV, g: Map<Seq<char>, ConstV>) -> bool
    decreases t,
{
    match t {
        TermV::Const { name } => g.dom().contains(name),
        TermV::Fun { param_type, body, .. } => consts_defined(*param_type, g) && consts_defined(*body, g),
        TermV::Prod { param_type, body_type, .. } => consts_defined(*param_type, g) && consts_defined(*body_type, g),
        TermV::App { callee, arg } => consts_defined(*callee, g) && consts_defined(*arg, g),
        TermV::Let { value, body, .. } => consts_defined(*value, g) && consts_defined(*body, g),
        _ => true,
    }
}

/// Whether every value in the environment names only constants defined in `g`.
pub open spec fn env_consts_defined(env: Seq<Option<TermV>>, g: Map<Seq<char>, ConstV>) -> bool {
    forall|i: int| 0 <= i < env.len() ==> (#[trigger] env[i] matches Some(v) ==> consts_defined(v, g))
}

proof fn lemma_shift_consts(t: TermV, value: int, cutoff: nat, g: Map<Seq<char>, ConstV>)
    ensures
        consts_defined(shift_term(t, value, cutoff), g) == consts_defined(t, g),
    decreases t,
{
    match t {
        TermV::Fun { param_type, body, .. } => {
            lemma_shift_consts(*param_type, value, cutoff, g);
            lemma_shift_consts(*body, value, cutoff + 1, g);
        },
        TermV::Prod { param_type, body_type, .. } => {
            lemma_shift_consts(*param_type, value, cutoff, g);
            lemma_shift_consts(*body_type, value, cutoff + 1, g);
        },
        TermV::App { callee, arg } => {
            lemma_shift_consts(*callee, value, cutoff, g);
            lemma_shift_consts(*arg, value, cutoff, g);
        },
        _ => {},
    }
}

proof fn lemma_spine_consts(t: TermV, g: Map<Seq<char>, ConstV>)
    requires
        consts_defined(t, g),
    ensures
        consts_defined(crate::normalize::app_head(t), g),
        forall|i: int| 0 <= i < crate::normalize::app_args(t).len() ==> consts_defined(#[trigger] crate::normalize::app_args(t)[i], g),
    decreases t,
{
    if let TermV::App { callee, arg } = t {
        lemma_spine_consts(*callee, g);
        let args = crate::normalize::app_args(t);
        assert forall|i: int| 0 <= i < args.len() implies consts_defined(#[trigger] args[i], g) by {
            if i > 0 {
                assert(args[i] == crate::normalize::app_args(*callee)[i - 1]);
            }
        }
    }
}

proof fn lemma_env_push_consts(env: Seq<Option<TermV>>, e: Option<TermV>, g: Map<Seq<char>, ConstV>)
    requires
        env_consts_defined(env, g),
        e matches Some(v) ==> consts_defined(v, g),
    ensures
        env_consts_defined(env.push(e), g),
{
    assert forall|i: int| 0 <= i < env.push(e).len() implies (#[trigger] env.push(e)[i] matches Some(v) ==> consts_defined(v, g)) by {
        if i < env.len() {
            assert(env.push(e)[i] == env[i]);
        }
    }
}

/// Normal forms name only constants that the term and the environment name.
proof fn lemma_normal_form_consts(fuel: nat, t: TermV, g: Map<Seq<char>, ConstV>, env: Seq<Option<TermV>>)
    requires
        consts_defined(t, g),
        env_consts_defined(env, g),
    ensures
        normal_form(fuel, t, g, env) matches Ok(r) ==> consts_defined(r, g),
    decreases fuel, 0nat,
{
    if fuel > 0 {
        let f = (fuel - 1) as nat;
        match t {
            TermV::Var { index, .. } => {
                if index < env.len() {
                    if let Some(v) = crate::env::env_entry(env, index as int) {
                        assert(env[env.len() - 1 - index] == Some(v));
                        lemma_shift_consts(v, index + 1, 0, g);
                    }
                }
            },
            TermV::Fun { param_type, body, .. } => {
                lemma_normal_form_consts(f, *param_type, g, env);
                lemma_env_push_consts(env, None, g);
                lemma_normal_form_consts(f, *body, g, env.push(None));
            },
            TermV::Prod { param_type, body_type, .. } => {
                lemma_normal_form_consts(f, *param_type, g, env);
                lemma_env_push_consts(env, None, g);
                lemma_normal_form_consts(f, *body_type, g, env.push(None));
            },
            TermV::App { callee, arg } => {
                lemma_normal_form_consts(f, *callee, g, env);
                lemma_normal_form_consts(f, *arg, g, env);
                if let Ok(nc) = normal_form(f, *callee, g, env) {
                    if let Ok(na) = normal_form(f, *arg, g, env) {
                        match nc {
                            TermV::Fun { body, .. } => {
                                lemma_env_push_consts(env, Some(na), g);
                                lemma_normal_form_consts(f, *body, g, env.push(Some(na)));
                                if let Ok(nb) = normal_form(f, *body, g, env.push(Some(na))) {
                                    lemma_shift_consts(nb, -1, 0, g);
                                }
                            },
                            _ => {
                                let app = TermV::App { callee: Box::new(nc), arg: Box::new(na) };
                                lemma_recursor_step_consts(f, app, g, env);
                                if let Ok(Some(reduced)) = crate::normalize::recursor_step(f, app, g, env) {
                                    lemma_normal_form_consts(f, reduced, g, env);
                                }
                            },
                        }
                    }
                }
            },
            TermV::Let { value, body, .. } => {
                lemma_normal_form_consts(f, *value, g, env);
                if let Ok(nv) = normal_form(f, *value, g, env) {
                    lemma_env_push_consts(env, Some(nv), g);
                    lemma_normal_form_consts(f, *body, g, env.push(Some(nv)));
                }
            },
            _ => {},
        }
    }
}

proof fn lemma_recursor_step_consts(fuel: nat, t: TermV, g: Map<Seq<char>, ConstV>, env: Seq<Option<TermV>>)
    requires
        consts_defined(t, g),
        env_consts_defined(env, g),
    ensures
        crate::normalize::recursor_step(fuel, t, g, env) matches Ok(Some(x)) ==> consts_defined(x, g),
    decreases fuel, 1nat,
{
    lemma_spine_consts(t, g);
    let args = crate::normalize::app_args(t);
    if let TermV::Const { name } = crate::normalize::app_head(t) {
        if g.dom().contains(name) {
            if let ConstValueV::Rec { ctors } = g[name].value {
                if args.len() >= ctors.len() + 2 {
                    if let Ok(TermV::Const { name: ctor_name }) = normal_form(fuel, args[ctors.len() + 1int], g, env) {
                        crate::normalize::law_index_from(ctors, ctor_name, 0);
                    }
                }
            }
        }
    }
}

/// Normalizing a term that names only constants defined in `g`, in an
/// environment whose values name only such constants, gives the same result
/// in any context that keeps the constants of `g`: later definitions do not
/// change earlier normal forms.
pub proof fn law_normal_form_weakening(fuel: nat, t: TermV, g: Map<Seq<char>, ConstV>, g2: Map<Seq<char>, ConstV>, env: Seq<Option<TermV>>)
    requires
        keeps_constants(g, g2),
        consts_defined(t, g),
        env_consts_defined(env, g),
    ensures
        normal_form(fuel, t, g2, env) == normal_form(fuel, t, g, env),
    decreases fuel, 0nat,
{
    if fuel > 0 {
        let f = (fuel - 1) as nat;
        match t {
            TermV::Fun { param_type, body, .. } => {
                law_normal_form_weakening(f, *param_type, g, g2, env);
                lemma_env_push_consts(env, None, g);
                law_normal_form_weakening(f, *body, g, g2, env.push(None));
            },
            TermV::Prod { param_type, body_type, .. } => {
                law_normal_form_weakening(f, *param_type, g, g2, env);
                lemma_env_push_consts(env, None, g);
                law_normal_form_weakening(f, *body_type, g, g2, env.push(None));
            },
            TermV::App { callee, arg } => {
                law_normal_form_weakening(f, *callee, g, g2, env);
                law_normal_form_weakening(f, *arg, g, g2, env);
                lemma_normal_form_consts(f, *callee, g, env);
                lemma_normal_form_consts(f, *arg, g, env);
                if let Ok(nc) = normal_form(f, *callee, g, env) {
                    if let Ok(na) = normal_form(f, *arg, g, env) {
                        match nc {
                            TermV::Fun { body, .. } => {
                                lemma_env_push_consts(env, Some(na), g);
                                law_normal_form_weakening(f, *body, g, g2, env.push(Some(na)));
                            },
                            _ => {
                                let app = TermV::App { callee: Box::new(nc), arg: Box::new(na) };
                                law_recursor_step_weakening(f, app, g, g2, env);
                                lemma_recursor_step_consts(f, app, g, env);
                                if let Ok(Some(reduced)) = crate::normalize::recursor_step(f, app, g, env) {
                                    law_normal_form_weakening(f, reduced, g, g2, env);
                                }
                            },
                        }
                    }
                }
            },
            TermV::Let { value, body, .. } => {
                law_normal_form_weakening(f, *value, g, g2, env);
                lemma_normal_form_consts(f, *value, g, env);
                if let Ok(nv) = normal_form(f, *value, g, env) {
                    lemma_env_push_consts(env, Some(nv), g);
                    law_normal_form_weakening(f, *body, g, g2, env.push(Some(nv)));
                }
            },
            _ => {},
        }
    }
}

/// A recursor step on a term that names only constants defined in `g` is
/// the same in any context that keeps the constants of `g`.
pub proof fn law_recursor_step_weakening(fuel: nat, t: TermV, g: Map<Seq<char>, ConstV>, g2: Map<Seq<char>, ConstV>, env: Seq<Option<TermV>>)
    requires
        keeps_constants(g, g2),
        consts_defined(t, g),
        env_consts_defined(env, g),
    ensures
        crate::normalize::recursor_step(fuel, t, g2, env) == crate::normalize::recursor_step(fuel, t, g, env),
    decreases fuel, 1nat,
{
    lemma_spine_consts(t, g);
    let args = crate::normalize::app_args(t);
    if let TermV::Const { name } = crate::normalize::app_head(t) {
        assert(g.dom().contains(name));
        if let ConstValueV::Rec { ctors } = g[name].value {
            if args.len() >= ctors.len() + 2 {
                law_normal_form_weakening(fuel, args[ctors.len() + 1int], g, g2, env);
            }
        }
    }
}

/// Whether every constant's type, and every definition's value, names only
/// constants that are defined.
pub open spec fn context_closed(g: Map<Seq<char>, ConstV>) -> bool {
    forall|n: Seq<char>| #[trigger] g.dom().contains(n) ==> {
        &&& consts_defined(g[n].typ, g)
        &&& (g[n].value matches ConstValueV::Def { value } ==> consts_defined(value, g))
    }
}

/// Whether the types of the variables in scope name only constants defined in `g`.
pub open spec fn locals_defined(lctx: Seq<VarV>, g: Map<Seq<char>, ConstV>) -> bool {
    forall|i: int| 0 <= i < lctx.len() ==> consts_defined(#[trigger] lctx[i].typ, g)
}

proof fn lemma_consts_defined_keeps(t: TermV, g: Map<Seq<char>, ConstV>, g2: Map<Seq<char>, ConstV>)
    requires
        keeps_constants(g, g2),
        consts_defined(t, g),
    ensures
        consts_defined(t, g2),
    decreases t,
{
    match t {
        TermV::Fun { param_type, body, .. } => {
            lemma_consts_defined_keeps(*param_type, g, g2);
            lemma_consts_defined_keeps(*body, g, g2);
        },
        TermV::Prod { param_type, body_type, .. } => {
            lemma_consts_defined_keeps(*param_type, g, g2);
            lemma_consts_defined_keeps(*body_type, g, g2);
        },
        TermV::App { callee, arg } => {
            lemma_consts_defined_keeps(*callee, g, g2);
            lemma_consts_defined_keeps(*arg, g, g2);
        },
        TermV::Let { value, body, .. } => {
            lemma_consts_defined_keeps(*value, g, g2);
            lemma_consts_defined_keeps(*body, g, g2);
        },
        _ => {},
    }
}

proof fn lemma_locals_push(lctx: Seq<VarV>, v: VarV, g: Map<Seq<char>, ConstV>)
    requires
        locals_defined(lctx, g),
        consts_defined(v.typ, g),
    ensures
        locals_defined(lctx.push(v), g),
{
    assert forall|i: int| 0 <= i < lctx.push(v).len() implies consts_defined(#[trigger] lctx.push(v)[i].typ, g) by {
        if i < lctx.len() {
            assert(lctx.push(v)[i] == lctx[i]);
        }
    }
}

/// Elaborated terms and types name only constants that are defined, when
/// the context, the variables in scope and the environment do.
proof fn lemma_elaborate_consts(s: SyntaxV, g: Map<Seq<char>, ConstV>, lctx: Seq<VarV>, env: Seq<Option<TermV>>)
    requires
        context_closed(g),
        locals_defined(lctx, g),
        env_consts_defined(env, g),
    ensures
        elaborate(s, g, lctx, env) matches Ok((t, ty)) ==> consts_defined(t, g) && consts_defined(ty, g),
    decreases s,
{
    match s {
        SyntaxV::Fun { param_name, param_type, body, .. } => {
            lemma_elaborate_consts(*param_type, g, lctx, env);
            if let Ok((pt, _)) = elaborate(*param_type, g, lctx, env) {
                lemma_locals_push(lctx, VarV { name: param_name, typ: pt }, g);
                lemma_env_push_consts(env, None, g);
                lemma_elaborate_consts(*body, g, lctx.push(VarV { name: param_name, typ: pt }), env.push(None));
            }
        },
        SyntaxV::Prod { param_name, param_type, body_type, .. } => {
            lemma_elaborate_consts(*param_type, g, lctx, env);
            if let Ok((pt, _)) = elaborate(*param_type, g, lctx, env) {
                lemma_locals_push(lctx, VarV { name: param_name, typ: pt }, g);
                lemma_env_push_consts(env, None, g);
                lemma_elaborate_consts(*body_type, g, lctx.push(VarV { name: param_name, typ: pt }), env.push(None));
            }
        },
        SyntaxV::Var { name, .. } => {
            crate::context::law_find_var_found(lctx, name);
            if let Some(i) = find_var(lctx, name) {
                let v = var_at(lctx, i as int);
                assert(lctx[lctx.len() - 1 - i] == v);
                lemma_shift_consts(v.typ, i as int + 1, 0, g);
            }
        },
        SyntaxV::App { callee, arg, .. } => {
            lemma_elaborate_consts(*callee, g, lctx, env);
            lemma_elaborate_consts(*arg, g, lctx, env);
            if let Ok((c, ct)) = elaborate(*callee, g, lctx, env) {
                lemma_normal_form_consts(norm_fuel(env), ct, g, env);
                if let Ok(TermV::Prod { param_type, body_type, .. }) = nf(ct, g, env) {
                    if let Ok((a, at)) = elaborate(*arg, g, lctx, env) {
                        lemma_env_push_consts(env, Some(a), g);
                        lemma_normal_form_consts(norm_fuel(env.push(Some(a))), *body_type, g, env.push(Some(a)));
                        if let Ok(nbt) = nf(*body_type, g, env.push(Some(a))) {
                            lemma_shift_consts(nbt, -1, 0, g);
                        }
                    }
                }
            }
        },
        SyntaxV::Let { name, value, body } => {
            lemma_elaborate_consts(*value, g, lctx, env);
            if let Ok((v, vt)) = elaborate(*value, g, lctx, env) {
                lemma_locals_push(lctx, VarV { name, typ: vt }, g);
                lemma_env_push_consts(env, Some(v), g);
                lemma_elaborate_consts(*body, g, lctx.push(VarV { name, typ: vt }), env.push(Some(v)));
            }
        },
        _ => {},
    }
}

/// Syntax that elaborates under the constants `g` elaborates the same under
/// any context that keeps the constants of `g`, when the context, the
/// variables in scope and the environment name only defined constants.
pub proof fn law_elaborate_weakening(s: SyntaxV, g: Map<Seq<char>, ConstV>, g2: Map<Seq<char>, ConstV>, lctx: Seq<VarV>, env: Seq<Option<TermV>>)
    requires
        keeps_constants(g, g2),
        context_closed(g),
        locals_defined(lctx, g),
        env_consts_defined(env, g),
    ensures
        elaborate(s, g, lctx, env) is Ok ==> elaborate(s, g2, lctx, env) == elaborate(s, g, lctx, env),
    decreases s,
{
    match s {
        SyntaxV::Fun { param_name, param_type, body, .. } => {
            law_elaborate_weakening(*param_type, g, g2, lctx, env);
            lemma_elaborate_consts(*param_type, g, lctx, env);
            if let Ok((pt, _)) = elaborate(*param_type, g, lctx, env) {
                lemma_locals_push(lctx, VarV { name: param_name, typ: pt }, g);
                lemma_env_push_consts(env, None, g);
                law_elaborate_weakening(*body, g, g2, lctx.push(VarV { name: param_name, typ: pt }), env.push(None));
            }
        },
        SyntaxV::Prod { param_name, param_type, body_type, .. } => {
            law_elaborate_weakening(*param_type, g, g2, lctx, env);
            lemma_elaborate_consts(*param_type, g, lctx, env);
            if let Ok((pt, _)) = elaborate(*param_type, g, lctx, env) {
                lemma_locals_push(lctx, VarV { name: param_name, typ: pt }, g);
                lemma_env_push_consts(env, None, g);
                law_elaborate_weakening(*body_type, g, g2, lctx.push(VarV { name: param_name, typ: pt }), env.push(None));
            }
        },
        SyntaxV::Var { name, .. } => {},
        SyntaxV::App { callee, arg, .. } => {
            law_elaborate_weakening(*callee, g, g2, lctx, env);
            law_elaborate_weakening(*arg, g, g2, lctx, env);
            lemma_elaborate_consts(*callee, g, lctx, env);
            lemma_elaborate_consts(*arg, g, lctx, env);
            if let Ok((c, ct)) = elaborate(*callee, g, lctx, env) {
                law_normal_form_weakening(norm_fuel(env), ct, g, g2, env);
                lemma_normal_form_consts(norm_fuel(env), ct, g, env);
                if let Ok(TermV::Prod { param_type, body_type, .. }) = nf(ct, g, env) {
                    if let Ok((a, at)) = elaborate(*arg, g, lctx, env) {
                        law_normal_form_weakening(norm_fuel(env), at, g, g2, env);
                        law_normal_form_weakening(norm_fuel(env), *param_type, g, g2, env);
                        lemma_env_push_consts(env, Some(a), g);
                        law_normal_form_weakening(norm_fuel(env.push(Some(a))), *body_type, g, g2, env.push(Some(a)));
                    }
                }
            }
        },
        SyntaxV::Let { name, value, body } => {
            law_elaborate_weakening(*value, g, g2, lctx, env);
            lemma_elaborate_consts(*value, g, lctx, env);
            if let Ok((v, vt)) = elaborate(*value, g, lctx, env) {
                lemma_locals_push(lctx, VarV { name, typ: vt }, g);
                lemma_env_push_consts(env, Some(v), g);
                law_elaborate_weakening(*body, g, g2, lctx.push(VarV { name, typ: vt }), env.push(Some(v)));
            }
        },
        _ => {},
    }
}

proof fn lemma_locals_keep(lctx: Seq<VarV>, env: Seq<Option<TermV>>, g: Map<Seq<char>, ConstV>, g2: Map<Seq<char>, ConstV>)
    requires
        keeps_constants(g, g2),
        locals_defined(lctx, g),
        env_consts_defined(env, g),
    ensures
        locals_defined(lctx, g2),
        env_consts_defined(env, g2),
{
    assert forall|i: int| 0 <= i < lctx.len() implies consts_defined(#[trigger] lctx[i].typ, g2) by {
        lemma_consts_defined_keeps(lctx[i].typ, g, g2);
    }
    assert forall|i: int| 0 <= i < env.len() implies (#[trigger] env[i] matches Some(v) ==> consts_defined(v, g2)) by {
        if let Some(v) = env[i] {
            lemma_consts_defined_keeps(v, g, g2);
        }
    }
}

proof fn lemma_define_closed(name: Seq<char>, c: ConstV, span: Span, g: Map<Seq<char>, ConstV>)
    requires
        context_closed(g),
        consts_defined(c.typ, g),
        c.value matches ConstValueV::Def { value } ==> consts_defined(value, g),
    ensures
        define(name, c, span, g) matches Ok(g2) ==> context_closed(g2),
{
    if let Ok(g2) = define(name, c, span, g) {
        lemma_define_keeps(name, c, span, g);
        lemma_consts_defined_keeps(c.typ, g, g2);
        if let ConstValueV::Def { value } = c.value {
            lemma_consts_defined_keeps(value, g, g2);
        }
        assert forall|n: Seq<char>| #[trigger] g2.dom().contains(n) implies {
            &&& consts_defined(g2[n].typ, g2)
            &&& (g2[n].value matches ConstValueV::Def { value } ==> consts_defined(value, g2))
        } by {
            if n != name {
                lemma_consts_defined_keeps(g[n].typ, g, g2);
                if let ConstValueV::Def { value } = g[n].value {
                    lemma_consts_defined_keeps(value, g, g2);
                }
            }
        }
    }
}

proof fn lemma_define_ctors_closed(ctors: Seq<CtorV>, from: nat, ind: TermV, g: Map<Seq<char>, ConstV>, lctx: Seq<VarV>, env: Seq<Option<TermV>>)
    requires
        context_closed(g),
        locals_defined(lctx, g),
        env_consts_defined(env, g),
    ensures
        define_ctors(ctors, from, ind, g, lctx, env) matches Ok(g2) ==> context_closed(g2),
    decreases ctors.len() - from,
{
    if from < ctors.len() {
        let ctor = ctors[from as int];
        lemma_elaborate_consts(ctor.typ, g, lctx, env);
        if let Ok(c) = ctor_const(ctor, ind, g, lctx, env) {
            lemma_define_keeps(ctor.name, c, ctor.name_span, g);
            if let Ok(g1) = define(ctor.name, c, ctor.name_span, g) {
                lemma_define_closed(ctor.name, c, ctor.name_span, g);
                lemma_locals_keep(lctx, env, g, g1);
                lemma_define_ctors_closed(ctors, from + 1, ind, g1, lctx, env);
            }
        }
    }
}

proof fn lemma_recursor_premises_consts(ind: TermV, ctors: Seq<Seq<char>>, j: nat, g: Map<Seq<char>, ConstV>)
    requires
        consts_defined(ind, g),
        forall|i: int| 0 <= i < ctors.len() ==> g.dom().contains(#[trigger] ctors[i]),
    ensures
        consts_defined(recursor_premises(ind, ctors, j), g),
    decreases ctors.len() - j,
{
    reveal_with_fuel(consts_defined, 3);
    if j < ctors.len() {
        assert(g.dom().contains(ctors[j as int]));
        lemma_recursor_premises_consts(ind, ctors, j + 1, g);
    }
}

/// A command that succeeds, run in a closed context with variables and an
/// environment that name only defined constants, leaves a closed context in
/// which those variables and that environment still name only defined
/// constants.
pub proof fn law_command_keeps_closed(c: CommandV, g: Map<Seq<char>, ConstV>, lctx: Seq<VarV>, env: Seq<Option<TermV>>)
    requires
        context_closed(g),
        locals_defined(lctx, g),
        env_consts_defined(env, g),
    ensures
        command_result(c, g, lctx, env) matches Ok(g2) ==> {
            &&& context_closed(g2)
            &&& locals_defined(lctx, g2)
            &&& env_consts_defined(env, g2)
        },
{
    law_command_keeps_constants(c, g, lctx, env);
    if let Ok(g2) = command_result(c, g, lctx, env) {
        lemma_locals_keep(lctx, env, g, g2);
    }
    match c {
        CommandV::Def { name, name_span, value } => {
            lemma_elaborate_consts(value, g, lctx, env);
            if let Ok((v, t)) = elaborate(value, g, lctx, env) {
                let k = ConstV { typ: t, value: ConstValueV::Def { value: v } };
                lemma_define_closed(name, k, name_span, g);
            }
        },
        CommandV::Inductive { name, name_span, typ, typ_span, ctors } => {
            lemma_elaborate_consts(typ, g, lctx, env);
            if let Ok((t, sort)) = elaborate(typ, g, lctx, env) {
                let k = ConstV { typ: t, value: ConstValueV::Ind };
                lemma_define_keeps(name, k, name_span, g);
                lemma_define_closed(name, k, name_span, g);
                if sort is Sort {
                    if let Ok(g1) = define(name, k, name_span, g) {
                        let ind = TermV::Const { name };
                        lemma_locals_keep(lctx, env, g, g1);
                        lemma_define_ctors_keeps(ctors, 0, ind, g1, lctx, env);
                        lemma_define_ctors_closed(ctors, 0, ind, g1, lctx, env);
                        if let Ok(g2) = define_ctors(ctors, 0, ind, g1, lctx, env) {
                            let names = ctor_names(ctors);
                            let r = ConstV { typ: recursor_type(ind, names), value: ConstValueV::Rec { ctors: names } };
                            assert forall|i: int| 0 <= i < names.len() implies g2.dom().contains(#[trigger] names[i]) by {
                                assert(names[i] == ctors[i].name);
                            }
                            assert(g2.dom().contains(name));
                            lemma_recursor_premises_consts(ind, names, 0, g2);
                            assert(consts_defined(recursor_type(ind, names), g2)) by {
                                reveal_with_fuel(consts_defined, 3);
                            }
                            lemma_define_closed("rec"@ + name, r, name_span, g2);
                        }
                    }
                }
            }
        },
    }
}

/// A command that succeeds changes nothing that elaborated before it: in a
/// closed context, with variables and an environment that name only defined
/// constants, syntax that elaborated before the command elaborates to the
/// same term and type after it.
pub proof fn law_command_keeps_elaborations(c: CommandV, s: SyntaxV, g: Map<Seq<char>, ConstV>, lctx: Seq<VarV>, env: Seq<Option<TermV>>)
    requires
        context_closed(g),
        locals_defined(lctx, g),
        env_consts_defined(env, g),
    ensures
        command_result(c, g, lctx, env) matches Ok(g2) ==> (elaborate(s, g, lctx, env) is Ok ==> elaborate(s, g2, lctx, env) == elaborate(s, g, lctx, env)),
{
    law_command_keeps_constants(c, g, lctx, env);
    if let Ok(g2) = command_result(c, g, lctx, env) {
        law_elaborate_weakening(s, g, g2, lctx, env);
    }
}

/// A product type lives in the larger of the universes of its parameter type
/// and its body type: it is accepted exactly when both are types, and then
/// its sort level is at least each of theirs and equal to one of them.
pub proof fn law_prod_sort_level(param_name: Seq<char>, param_type: SyntaxV, param_type_span: Span, body_type: SyntaxV, body_type_span: Span, g: Map<Seq<char>, ConstV>, lctx: Seq<VarV>, env: Seq<Option<TermV>>)
    ensures
        ({
            let s = SyntaxV::Prod { param_name, param_type: Box::new(param_type), param_type_span, body_type: Box::new(body_type), body_type_span };
            forall|pt: TermV, pl: usize, bt: TermV, bl: usize|
                elaborate(param_type, g, lctx, env) == Ok::<(TermV, TermV), ErrorV>((pt, TermV::Sort { level: pl }))
                && elaborate(body_type, g, lctx.push(VarV { name: param_name, typ: pt }), env.push(None)) == Ok::<(TermV, TermV), ErrorV>((bt, TermV::Sort { level: bl }))
                ==> (elaborate(s, g, lctx, env) matches Ok((t, TermV::Sort { level }))
                    && t == (TermV::Prod { param_name, param_type: Box::new(pt), body_type: Box::new(bt) })
                    && level >= pl && level >= bl && (level == pl || level == bl))
        }),
        ({
            let s = SyntaxV::Prod { param_name, param_type: Box::new(param_type), param_type_span, body_type: Box::new(body_type), body_type_span };
            elaborate(s, g, lctx, env) is Ok ==> elaborate(s, g, lctx, env)->Ok_0.1 is Sort
        }),
{
}

/// Whether the constant `name` occurs anywhere in `t`.
pub open spec fn occurs(name: Seq<char>, t: TermV) -> bool
    decreases t,
{
    match t {
        TermV::Const { name: n } => n == name,
        TermV::Fun { param_type, body, .. } => occurs(name, *param_type) || occurs(name, *body),
        TermV::Prod { param_type, body_type, .. } => occurs(name, *param_type) || occurs(name, *body_type),
        TermV::App { callee, arg } => occurs(name, *callee) || occurs(name, *arg),
        TermV::Let { value, body, .. } => occurs(name, *value) || occurs(name, *body),
        _ => false,
    }
}

proof fn lemma_no_occurrence_positive(name: Seq<char>, t: TermV)
    requires
        !occurs(name, t),
    ensures
        positivity_ok(TermV::Const { name }, t),
    decreases t,
{
    if let TermV::Prod { param_type, .. } = t {
        lemma_no_occurrence_positive(name, *param_type);
    }
}

/// A constructor is accepted when each of its fields is the inductive type
/// itself or does not mention it, and its result is the inductive type
/// (possibly applied).
pub proof fn law_ctor_accepted(name: Seq<char>, t: TermV, span: Span)
    requires
        forall|k: int| 0 <= k < prod_fields(t).len() ==>
            #[trigger] prod_fields(t)[k] == (TermV::Const { name }) || !occurs(name, prod_fields(t)[k]),
        same_term(app_head(prod_result(t)), TermV::Const { name }),
    ensures
        ctor_type_verdict(TermV::Const { name }, t, span) == Ok::<(), ErrorV>(()),
{
    let ind = TermV::Const { name };
    assert forall|k: int| 0 <= k < prod_fields(t).len() implies field_ok(ind, #[trigger] prod_fields(t)[k]) by {
        let f = prod_fields(t)[k];
        if f != ind {
            if let TermV::Prod { param_type, .. } = f {
                lemma_no_occurrence_positive(name, *param_type);
            }
        }
    }
}

/// A constructor with a field that takes the inductive type as an argument
/// (a negative occurrence) is refused.
pub proof fn law_ctor_negative_refused(name: Seq<char>, t: TermV, span: Span, k: int)
    requires
        0 <= k < prod_fields(t).len(),
        prod_fields(t)[k] matches TermV::Prod { param_type, .. } && *param_type == (TermV::Const { name }),
    ensures
        ctor_type_verdict(TermV::Const { name }, t, span)
            == Err::<(), ErrorV>(ErrorV { span, message: "found invalid occurrence of inductive type"@ }),
{
    let ind = TermV::Const { name };
    assert(!field_ok(ind, prod_fields(t)[k]));
}

/// Whether the syntax holds no `let`.
pub open spec fn let_free(s: SyntaxV) -> bool
    decreases s,
{
    match s {
        SyntaxV::Fun { param_type, body, .. } => let_free(*param_type) && let_free(*body),
        SyntaxV::Prod { param_type, body_type, .. } => let_free(*param_type) && let_free(*body_type),
        SyntaxV::App { callee, arg, .. } => let_free(*callee) && let_free(*arg),
        SyntaxV::Let { .. } => false,
        _ => true,
    }
}

/// The number of nodes of the syntax.
pub open spec fn syntax_size(s: SyntaxV) -> nat
    decreases s,
{
    match s {
        SyntaxV::Fun { param_type, body, .. } => 1 + syntax_size(*param_type) + syntax_size(*body),
        SyntaxV::Prod { param_type, body_type, .. } => 1 + syntax_size(*param_type) + syntax_size(*body_type),
        SyntaxV::App { callee, arg, .. } => 1 + syntax_size(*callee) + syntax_size(*arg),
        SyntaxV::Let { value, body, .. } => 1 + syntax_size(*value) + syntax_size(*body),
        _ => 1,
    }
}

/// Whether every constant's type, and every definition's value, is closed.
pub open spec fn constants_closed(g: Map<Seq<char>, ConstV>) -> bool {
    forall|n: Seq<char>| #[trigger] g.dom().contains(n) ==> {
        &&& scoped(g[n].typ, 0, 0, Set::empty())
        &&& (g[n].value matches ConstValueV::Def { value } ==> scoped(value, 0, 0, Set::empty()))
    }
}

/// Whether the type of each variable in scope refers only to the variables
/// before it.
pub open spec fn locals_scoped(lctx: Seq<VarV>) -> bool {
    forall|p: int| 0 <= p < lctx.len() ==> scoped(#[trigger] lctx[p].typ, 0, p as nat, Set::empty())
}

proof fn lemma_locals_scoped_push(lctx: Seq<VarV>, v: VarV)
    requires
        locals_scoped(lctx),
        scoped(v.typ, 0, lctx.len(), Set::empty()),
    ensures
        locals_scoped(lctx.push(v)),
{
    assert forall|p: int| 0 <= p < lctx.push(v).len() implies scoped(#[trigger] lctx.push(v)[p].typ, 0, p as nat, Set::empty()) by {
        if p < lctx.len() {
            assert(lctx.push(v)[p] == lctx[p]);
        }
    }
}

/// Elaboration stays within the variables in scope: the term and the type
/// it gives refer to no variable beyond them. (The type of an application
/// is its function's result type with the argument put in for the
/// parameter, the parameter's binder removed.) This holds of syntax without
/// `let`, whose type is its body's type, taken under the `let` binder.
pub proof fn law_elaborate_scoped(s: SyntaxV, g: Map<Seq<char>, ConstV>, lctx: Seq<VarV>, env: Seq<Option<TermV>>)
    requires
        let_free(s),
        lctx.len() == env.len(),
        lctx.len() + syntax_size(s) <= usize::MAX,
        locals_scoped(lctx),
        env_scoped(env, Set::empty()),
        constants_closed(g),
    ensures
        elaborate(s, g, lctx, env) matches Ok((t, ty))
            ==> scoped(t, 0, lctx.len(), Set::empty()) && scoped(ty, 0, lctx.len(), Set::empty()),
    decreases s,
{
    let len = lctx.len();
    let none = Set::<int>::empty();
    match s {
        SyntaxV::Fun { param_name, param_type, body, .. } => {
            law_elaborate_scoped(*param_type, g, lctx, env);
            if let Ok((pt, _)) = elaborate(*param_type, g, lctx, env) {
                let v = VarV { name: param_name, typ: pt };
                lemma_locals_scoped_push(lctx, v);
                lemma_env_scoped_push(env, none, None);
                law_elaborate_scoped(*body, g, lctx.push(v), env.push(None));
                if let Ok((b, bt)) = elaborate(*body, g, lctx.push(v), env.push(None)) {
                    lemma_scoped_enter(b, 0, len, none);
                    lemma_scoped_enter(bt, 0, len, none);
                }
            }
        },
        SyntaxV::Prod { param_name, param_type, body_type, .. } => {
            law_elaborate_scoped(*param_type, g, lctx, env);
            if let Ok((pt, _)) = elaborate(*param_type, g, lctx, env) {
                let v = VarV { name: param_name, typ: pt };
                lemma_locals_scoped_push(lctx, v);
                lemma_env_scoped_push(env, none, None);
                law_elaborate_scoped(*body_type, g, lctx.push(v), env.push(None));
                if let Ok((b, bt)) = elaborate(*body_type, g, lctx.push(v), env.push(None)) {
                    lemma_scoped_enter(b, 0, len, none);
                }
            }
        },
        SyntaxV::Var { name, .. } => {
            crate::context::law_find_var_found(lctx, name);
            if let Some(i) = find_var(lctx, name) {
                let pos = len - 1 - i;
                assert(var_at(lctx, i as int) == lctx[pos]);
                lemma_scoped_shift_up(lctx[pos].typ, 0, pos as nat, len, none);
                assert(len - pos == i + 1);
            } else if g.dom().contains(name) {
                lemma_scoped_longer(g[name].typ, 0, 0, len);
                if let ConstValueV::Def { value } = g[name].value {
                    lemma_scoped_longer(value, 0, 0, len);
                }
            }
        },
        SyntaxV::App { callee, arg, .. } => {
            law_elaborate_scoped(*callee, g, lctx, env);
            law_elaborate_scoped(*arg, g, lctx, env);
            if let Ok((c, ct)) = elaborate(*callee, g, lctx, env) {
                law_normal_form_scoped(norm_fuel(env), ct, g, env, none);
                if let Ok(TermV::Prod { param_type, body_type, .. }) = nf(ct, g, env) {
                    if let Ok((a, at)) = elaborate(*arg, g, lctx, env) {
                        let env2 = env.push(Some(a));
                        let avoid = none.insert(len as int);
                        lemma_scoped_enter(*body_type, 0, len, none);
                        lemma_scoped_avoid_less(a, 0, len, none, avoid);
                        lemma_env_scoped_push(env, none, Some(a));
                        lemma_env_scoped_grow(env2, none, len as int);
                        law_normal_form_scoped(norm_fuel(env2), *body_type, g, env2, avoid);
                        if let Ok(nbt) = nf(*body_type, g, env2) {
                            lemma_scoped_shift_down(nbt, 0, len, avoid);
                            lemma_scoped_avoid_less(shift_term(nbt, -1, 0), 0, len, avoid, none);
                        }
                    }
                }
            }
        },
        _ => {},
    }
}

/// Whether a step that updates the global context did what is specified:
/// on success the context is the specified one.
pub open spec fn updated(r: crate::error::Result<()>, s: Result<Map<Seq<char>, ConstV>, ErrorV>, after: Map<Seq<char>, ConstV>) -> bool {
    match s {
        Ok(m) => r is Ok && after == m,
        Err(e) => r matches Err(es) && just_error(es, e),
    }
}

/// The error reported at `span` when normalization fails with `e`.
pub fn norm_error(span: Span, e: NormError) -> (r: Vec<Error>)
    ensures
        just_error(r, norm_failure(span, e)),
{
    let message = match e {
        NormError::DepthExceeded => "normalization exceeded its depth bound".to_owned(),
        NormError::UnboundIndex => "normalization met a variable outside its environment".to_owned(),
    };
    single_error(span, message)
}

fn get_var(name: &str, span: &Span, global_context: &GlobalContext, local_context: &LocalContext) -> (r: crate::error::Result<(Rc<Term>, Rc<Term>)>)
    ensures
        elaborated(r, lookup_var(name@, *span, global_context@, local_context@)),
{
    match local_context.get(name) {
        Some((index, entry)) => {
            let var_term = Term::Var { index, name: entry.name.clone() };
            let var_type = shift(&entry.typ, index as i128 + 1, 0);
            return Ok((Rc::new(var_term), var_type));
        },
        None => {},
    }
    match global_context.get(name) {
        Some(cnst) => {
            let const_term = match &cnst.value {
                ConstValue::Def { value } => rc_clone(value),
                _ => Rc::new(Term::Const { name: name.to_owned() }),
            };
            Ok((const_term, rc_clone(&cnst.typ)))
        },
        None => Err(single_error(*span, "unbound variable".to_owned())),
    }
}

fn check_sort(typ: &Term, span: &Span) -> (r: crate::error::Result<usize>)
    ensures
        match typ@ {
            TermV::Sort { level } => r == Ok::<usize, Vec<Error>>(level),
            _ => r matches Err(es) && just_error(es, ErrorV { span: *span, message: "not a sort"@ }),
        },
{
    match typ {
        Term::Sort { level } => Ok(*level),
        _ => Err(single_error(*span, "not a sort".to_owned())),
    }
}

/// Elaborates `syntax` into a term and its type, in the local context
/// `local_context` with the matching environment `env`.
pub fn check_syntax(syntax: &Syntax, global_context: &GlobalContext, local_context: &LocalContext, env: &Env) -> (r: crate::error::Result<(Rc<Term>, Rc<Term>)>)
    requires
        syntax_within_limits(syntax@),
    ensures
        elaborated(r, elaborate(syntax@, global_context@, local_context@, env@)),
    decreases syntax,
{
    match syntax {
        Syntax::Sort { level } => Ok((Rc::new(Term::Sort { level: *level }), Rc::new(Term::Sort { level: *level + 1 }))),
        Syntax::Unit => Ok((Rc::new(Term::Unit), Rc::new(Term::UnitType))),
        Syntax::UnitType => Ok((Rc::new(Term::UnitType), Rc::new(Term::Sort { level: 1 }))),
        Syntax::Nat { value } => Ok((Rc::new(Term::Nat { value: *value }), Rc::new(Term::NatType))),
        Syntax::NatType => Ok((Rc::new(Term::NatType), Rc::new(Term::Sort { level: 1 }))),
        Syntax::Fun { param_name, param_type, body } => {
            let (param_type_term, param_type_sort) = match check_syntax(&*param_type.inner, global_context, local_context, env) {
                Ok(p) => p,
                Err(e) => return Err(e),
            };
            match check_sort(&*param_type_sort, &param_type.span) {
                Ok(_) => {},
                Err(e) => return Err(e),
            }
            let new_context = local_context.extend(Var { name: param_name.clone(), typ: rc_clone(&param_type_term) });
            let new_env = env.extend(None);
            let (body_term, body_type) = match check_syntax(&**body, global_context, &new_context, &new_env) {
                Ok(p) => p,
                Err(e) => return Err(e),
            };
            let fun_term = Term::Fun { param_name: param_name.clone(), param_type: rc_clone(&param_type_term), body: body_term };
            let fun_type = Term::Prod { param_name: param_name.clone(), param_type: param_type_term, body_type: body_type };
            Ok((Rc::new(fun_term), Rc::new(fun_type)))
        },
        Syntax::Prod { param_name, param_type, body_type } => {
            let (param_type_term, param_type_sort) = match check_syntax(&*param_type.inner, global_context, local_context, env) {
                Ok(p) => p,
                Err(e) => return Err(e),
            };
            let param_type_sort_level = match check_sort(&*param_type_sort, &param_type.span) {
                Ok(l) => l,
                Err(e) => return Err(e),
            };
            let new_context = local_context.extend(Var { name: param_name.clone(), typ: rc_clone(&param_type_term) });
            let new_env = env.extend(None);
            let (body_type_term, body_type_sort) = match check_syntax(&*body_type.inner, global_context, &new_context, &new_env) {
                Ok(p) => p,
                Err(e) => return Err(e),
            };
            let body_type_sort_level = match check_sort(&*body_type_sort, &body_type.span) {
                Ok(l) => l,
                Err(e) => return Err(e),
            };
            let prod_term = Term::Prod { param_name: param_name.clone(), param_type: param_type_term, body_type: body_type_term };
            let level = if param_type_sort_level >= body_type_sort_level { param_type_sort_level } else { body_type_sort_level };
            Ok((Rc::new(prod_term), Rc::new(Term::Sort { level })))
        },
        Syntax::Var { name } => get_var(name.inner.as_str(), &name.span, global_context, local_context),
        Syntax::App { callee, arg } => {
            let (callee_term, callee_type) = match check_syntax(&*callee.inner, global_context, local_context, env) {
                Ok(p) => p,
                Err(e) => return Err(e),
            };
            let norm_callee_type = match normalize(&callee_type, global_context, env) {
                Ok(t) => t,
                Err(ne) => return Err(norm_error(callee.span, ne)),
            };
            let (param_type, body_type) = match &*norm_callee_type {
                Term::Prod { param_type, body_type, .. } => (param_type, body_type),
                _ => return Err(single_error(callee.span, "not a function".to_owned())),
            };
            let (arg_term, arg_type) = match check_syntax(&*arg.inner, global_context, local_context, env) {
                Ok(p) => p,
                Err(e) => return Err(e),
            };
            let norm_arg_type = match normalize(&arg_type, global_context, env) {
                Ok(t) => t,
                Err(ne) => return Err(norm_error(arg.span, ne)),
            };
            let norm_param_type = match normalize(param_type, global_context, env) {
                Ok(t) => t,
                Err(ne) => return Err(norm_error(arg.span, ne)),
            };
            if !terms_equal(&*norm_arg_type, &*norm_param_type) {
                let mut message = "type mismatch: ".to_owned();
                write_term(&*arg_type, &mut message);
                push_str(&mut message, " and ");
                write_term(&**param_type, &mut message);
                return Err(single_error(arg.span, message));
            }
            let app_term = Term::App { callee: callee_term, arg: rc_clone(&arg_term) };
            let new_env = env.extend(Some(arg_term));
            let norm_body_type = match normalize(body_type, global_context, &new_env) {
                Ok(t) => t,
                Err(ne) => return Err(norm_error(Span { start: callee.span.start, end: arg.span.end }, ne)),
            };
            Ok((Rc::new(app_term), shift(&norm_body_type, -1, 0)))
        },
        Syntax::Let { name, value, body } => {
            let (value_term, value_type) = match check_syntax(&**value, global_context, local_context, env) {
                Ok(p) => p,
                Err(e) => return Err(e),
            };
            let new_context = local_context.extend(Var { name: name.clone(), typ: value_type });
            let new_env = env.extend(Some(rc_clone(&value_term)));
            let (body_term, body_type) = match check_syntax(&**body, global_context, &new_context, &new_env) {
                Ok(p) => p,
                Err(e) => return Err(e),
            };
            let let_term = Term::Let { name: name.clone(), value: value_term, body: body_term };
            Ok((Rc::new(let_term), body_type))
        },
    }
}


fn define_const(name: String, cnst: Const, span: &Span, global_context: &mut GlobalContext) -> (r: crate::error::Result<()>)
    ensures
        updated(r, define(name@, cnst@, *span, old(global_context)@), final(global_context)@),
        r is Err ==> final(global_context)@ == old(global_context)@,
{
    match global_context.get(name.as_str()) {
        Some(_) => {
            let mut message = name.clone();
            push_str(&mut message, " is already defined");
            return Err(single_error(*span, message));
        },
        None => {},
    }
    global_context.insert(name, cnst);
    Ok(())
}

fn check_def_command(name: &Spanned<String>, value: &Syntax, global_context: &mut GlobalContext, local_context: &LocalContext, env: &Env) -> (r: crate::error::Result<()>)
    requires
        syntax_within_limits(value@),
    ensures
        updated(r, command_result(CommandV::Def { name: name.inner@, name_span: name.span, value: value@ }, old(global_context)@, local_context@, env@), final(global_context)@),
        r is Err ==> final(global_context)@ == old(global_context)@,
{
    let (value_term, value_type) = match check_syntax(value, &*global_context, local_context, env) {
        Ok(p) => p,
        Err(e) => return Err(e),
    };
    let def_const = Const { typ: value_type, value: ConstValue::Def { value: value_term } };
    define_const(name.inner.clone(), def_const, &name.span, global_context)
}

fn split_ctor_type(ctor_type: &Rc<Term>) -> (r: (Vec<Rc<Term>>, Rc<Term>))
    ensures
        terms_view(r.0@) == prod_fields((**ctor_type)@),
        (*r.1)@ == prod_result((**ctor_type)@),
{
    let mut field_types: Vec<Rc<Term>> = Vec::new();
    let mut result_type = rc_clone(ctor_type);
    loop
        invariant
            prod_result((*result_type)@) == prod_result((**ctor_type)@),
            terms_view(field_types@) + prod_fields((*result_type)@) == prod_fields((**ctor_type)@),
        ensures
            (*result_type)@ == prod_result((**ctor_type)@),
            terms_view(field_types@) == prod_fields((**ctor_type)@),
        decreases crate::term::term_size((*result_type)@),
    {
        let next = match &*result_type {
            Term::Prod { param_type, body_type, .. } => {
                field_types.push(rc_clone(param_type));
                rc_clone(body_type)
            },
            _ => {
                proof {
                    assert(terms_view(field_types@) + prod_fields((*result_type)@) =~= terms_view(field_types@));
                }
                break;
            },
        };
        proof {
            assert(terms_view(field_types@) =~= terms_view(field_types@.drop_last()).push((*field_types@.last())@));
        }
        result_type = next;
    }
    (field_types, result_type)
}

/// The error for a field that uses the inductive type not strictly positively.
pub open spec fn positivity_error(span: Span) -> ErrorV {
    ErrorV { span, message: "found invalid occurrence of inductive type"@ }
}

fn check_field_positivity(ind_type: &Rc<Term>, field_type: &Rc<Term>, span: &Span) -> (r: crate::error::Result<()>)
    ensures
        positivity_ok((**ind_type)@, (**field_type)@) ==> r is Ok,
        !positivity_ok((**ind_type)@, (**field_type)@) ==> (r matches Err(es) && just_error(es, positivity_error(*span))),
    decreases field_type,
{
    match &**field_type {
        Term::Prod { param_type, .. } => check_field_positivity(ind_type, param_type, span),
        _ => {
            if terms_equal(&**field_type, &**ind_type) {
                Err(single_error(*span, "found invalid occurrence of inductive type".to_owned()))
            } else {
                Ok(())
            }
        },
    }
}

fn check_field(ind_type: &Rc<Term>, field_type: &Rc<Term>, span: &Span) -> (r: crate::error::Result<()>)
    ensures
        field_ok((**ind_type)@, (**field_type)@) ==> r is Ok,
        !field_ok((**ind_type)@, (**field_type)@) ==> (r matches Err(es) && just_error(es, positivity_error(*span))),
{
    match &**field_type {
        Term::Prod { param_type, .. } => check_field_positivity(ind_type, param_type, span),
        _ => Ok(()),
    }
}

/// Whether a check that succeeds or fails with one error did what is specified.
pub open spec fn verdict_matches(r: crate::error::Result<()>, s: Result<(), ErrorV>) -> bool {
    match s {
        Ok(_) => r is Ok,
        Err(e) => r matches Err(es) && just_error(es, e),
    }
}

fn check_ctor_type(ind_type: &Rc<Term>, ctor_type: &Rc<Term>, span: &Span) -> (r: crate::error::Result<()>)
    ensures
        verdict_matches(r, ctor_type_verdict((**ind_type)@, (**ctor_type)@, *span)),
{
    let (field_types, result_type) = split_ctor_type(ctor_type);
    let ghost fields = prod_fields((**ctor_type)@);
    let mut i: usize = 0;
    while i < field_types.len()
        invariant
            fields == terms_view(field_types@),
            fields == prod_fields((**ctor_type)@),
            i <= field_types@.len(),
            forall|k: int| 0 <= k < i ==> field_ok((**ind_type)@, #[trigger] fields[k]),
        decreases field_types@.len() - i,
    {
        match check_field(ind_type, &field_types[i], span) {
            Ok(_) => {},
            Err(e) => {
                proof {
                    assert(fields[i as int] == (*field_types@[i as int])@);
                    assert(!field_ok((**ind_type)@, fields[i as int]));
                }
                return Err(e);
            },
        }
        proof {
            assert(fields[i as int] == (*field_types@[i as int])@);
        }
        i = i + 1;
    }
    let (head_type, _) = split_app(&result_type);
    if !terms_equal(&*head_type, &**ind_type) {
        return Err(single_error(*span, "unecpected resulting type of constructor".to_owned()));
    }
    Ok(())
}

fn check_ctor(ctor: &Ctor, ind_type: &Rc<Term>, global_context: &GlobalContext, local_context: &LocalContext, env: &Env) -> (r: crate::error::Result<Const>)
    requires
        syntax_within_limits(ctor.typ.inner@),
    ensures
        match ctor_const(ctor@, (**ind_type)@, global_context@, local_context@, env@) {
            Ok(c) => r matches Ok(rc) && rc@ == c,
            Err(e) => r matches Err(es) && just_error(es, e),
        },
{
    let (ctor_type_term, ctor_type_sort) = match check_syntax(&ctor.typ.inner, global_context, local_context, env) {
        Ok(p) => p,
        Err(e) => return Err(e),
    };
    match check_sort(&*ctor_type_sort, &ctor.typ.span) {
        Ok(_) => {},
        Err(e) => return Err(e),
    }
    match check_ctor_type(ind_type, &ctor_type_term, &ctor.typ.span) {
        Ok(_) => {},
        Err(e) => return Err(e),
    }
    Ok(Const { typ: ctor_type_term, value: ConstValue::Ctor })
}

fn create_rec_type(ind_type: &Rc<Term>, rec_rule: &RecRule) -> (r: Term)
    requires
        rec_rule@.len() < usize::MAX,
    ensures
        r@ == recursor_type((**ind_type)@, rec_rule@),
{
    let motive_type = Term::Prod {
        param_name: "".to_owned(),
        param_type: rc_clone(ind_type),
        body_type: Rc::new(Term::Sort { level: 1 }),
    };
    let ctors_count = rec_rule.ctors.len();
    let mut rec_type = Rc::new(Term::Prod {
        param_name: "t".to_owned(),
        param_type: rc_clone(ind_type),
        body_type: Rc::new(Term::App {
            callee: Rc::new(Term::Var { index: ctors_count + 1, name: "motive".to_owned() }),
            arg: Rc::new(Term::Var { index: 0, name: "t".to_owned() }),
        }),
    });
    let mut motive_index: usize = ctors_count;
    proof {
        reveal_with_fuel(Term::model, 3);
    }
    while motive_index > 0
        invariant
            motive_index <= ctors_count,
            ctors_count == rec_rule@.len(),
            (*rec_type)@ == recursor_premises((**ind_type)@, rec_rule@, motive_index as nat),
        decreases motive_index,
    {
        motive_index = motive_index - 1;
        proof {
            assert(rec_rule@[motive_index as int] == rec_rule.ctors@[motive_index as int]@);
        }
        proof {
            reveal_with_fuel(Term::model, 3);
        }
        rec_type = Rc::new(Term::Prod {
            param_name: "".to_owned(),
            param_type: Rc::new(Term::App {
                callee: Rc::new(Term::Var { index: motive_index, name: "motive".to_owned() }),
                arg: Rc::new(Term::Const { name: rec_rule.ctors[motive_index].clone() }),
            }),
            body_type: rec_type,
        });
    }
    Term::Prod { param_name: "motive".to_owned(), param_type: Rc::new(motive_type), body_type: rec_type }
}

/// The models of constructor declarations.
pub open spec fn ctors_view(ctors: Seq<Ctor>) -> Seq<CtorV> {
    ctors.map_values(|c: Ctor| c@)
}

fn check_rec(ind_type: &Rc<Term>, ctors: &Vec<Ctor>) -> (r: crate::error::Result<Const>)
    requires
        ctors@.len() < usize::MAX,
    ensures
        r matches Ok(c) && c@ == (ConstV {
            typ: recursor_type((**ind_type)@, ctor_names(ctors_view(ctors@))),
            value: ConstValueV::Rec { ctors: ctor_names(ctors_view(ctors@)) },
        }),
{
    let mut names: Vec<String> = Vec::new();
    let mut i: usize = 0;
    while i < ctors.len()
        invariant
            i <= ctors@.len(),
            names@.len() == i,
            forall|k: int| 0 <= k < i ==> (#[trigger] names@[k])@ == ctors@[k].name.inner@,
        decreases ctors@.len() - i,
    {
        names.push(ctors[i].name.inner.clone());
        i = i + 1;
    }
    let rec_rule = RecRule { ctors: names };
    proof {
        assert(rec_rule@ =~= ctor_names(ctors_view(ctors@)));
    }
    let rec_type = create_rec_type(ind_type, &rec_rule);
    Ok(Const { typ: Rc::new(rec_type), value: ConstValue::Rec { rule: rec_rule } })
}

fn check_inductive_command(
    name: &Spanned<String>,
    typ: &Spanned<Syntax>,
    ctors: &Vec<Ctor>,
    global_context: &mut GlobalContext,
    local_context: &LocalContext,
    env: &Env,
) -> (r: crate::error::Result<()>)
    requires
        command_within_limits(CommandV::Inductive { name: name.inner@, name_span: name.span, typ: typ.inner@, typ_span: typ.span, ctors: ctors_view(ctors@) }),
    ensures
        updated(
            r,
            inductive_result(name.inner@, name.span, typ.inner@, typ.span, ctors_view(ctors@), old(global_context)@, local_context@, env@),
            final(global_context)@,
        ),
        final(global_context)@ == inductive_state(name.inner@, name.span, typ.inner@, typ.span, ctors_view(ctors@), old(global_context)@, local_context@, env@),
{
    let ghost cs = ctors_view(ctors@);
    let (type_term, type_sort) = match check_syntax(&typ.inner, &*global_context, local_context, env) {
        Ok(p) => p,
        Err(e) => return Err(e),
    };
    match check_sort(&*type_sort, &typ.span) {
        Ok(_) => {},
        Err(e) => return Err(e),
    }
    let cnst = Const { typ: type_term, value: ConstValue::Ind };
    match define_const(name.inner.clone(), cnst, &name.span, global_context) {
        Ok(_) => {},
        Err(e) => return Err(e),
    }
    let ghost g1 = global_context@;
    let ind_type = Rc::new(Term::Const { name: name.inner.clone() });
    let mut i: usize = 0;
    #[verifier::loop_isolation(false)]
    while i < ctors.len()
        invariant
            i <= ctors@.len(),
            cs == ctors_view(ctors@),
            forall|k: int| 0 <= k < cs.len() ==> syntax_within_limits(#[trigger] cs[k].typ),
            (*ind_type)@ == (TermV::Const { name: name.inner@ }),
            define_ctors(cs, 0, (*ind_type)@, g1, local_context@, env@)
                == define_ctors(cs, i as nat, (*ind_type)@, global_context@, local_context@, env@),
            define_ctors_state(cs, 0, (*ind_type)@, g1, local_context@, env@)
                == define_ctors_state(cs, i as nat, (*ind_type)@, global_context@, local_context@, env@),
        decreases ctors@.len() - i,
    {
        let ctor = &ctors[i];
        proof {
            assert(cs[i as int] == ctor@);
        }
        let ctor_const = match check_ctor(ctor, &ind_type, &*global_context, local_context, env) {
            Ok(c) => c,
            Err(e) => return Err(e),
        };
        match define_const(ctor.name.inner.clone(), ctor_const, &ctor.name.span, global_context) {
            Ok(_) => {},
            Err(e) => return Err(e),
        }
        i = i + 1;
    }
    let rec_const = match check_rec(&ind_type, ctors) {
        Ok(c) => c,
        Err(e) => return Err(e),
    };
    let mut rec_name = "rec".to_owned();
    push_str(&mut rec_name, name.inner.as_str());
    define_const(rec_name, rec_const, &name.span, global_context)
}

/// Checks `command` against `global_context` and returns the global context
/// that it yields.
pub fn check_command(command: &Command, global_context: &GlobalContext, local_context: &mut LocalContext, env: &mut Env) -> (r: crate::error::Result<GlobalContext>)
    requires
        command_within_limits(command@),
    ensures
        match command_result(command@, global_context@, old(local_context)@, old(env)@) {
            Ok(m) => r matches Ok(g) && g@ == m,
            Err(e) => r matches Err(es) && just_error(es, e),
        },
        final(local_context)@ == old(local_context)@,
        final(env)@ == old(env)@,
{
    let mut new_global_context = global_context.clone();
    let outcome = match command {
        Command::Def { name, value } => check_def_command(name, value, &mut new_global_context, &*local_context, &*env),
        Command::Inductive { name, typ, ctors } => check_inductive_command(
            name,
            typ,
            ctors,
            &mut new_global_context,
            &*local_context,
            &*env,
        ),
    };
    match outcome {
        Ok(_) => Ok(new_global_context),
        Err(e) => Err(e),
    }
}

} // verus!
