//! Shifting of de Bruijn indices, application spines, and normalization of
//! terms in an environment (beta reduction, `let` unfolding and recursor
//! reduction on constructors).
use std::rc::Rc;
use vstd::prelude::*;

use crate::context::{ConstV, ConstValue, ConstValueV, GlobalContext};
use crate::env::{env_entry, Env};
use crate::term::{rc_clone, term_size, Term, TermV};

verus! {

/// The index that `index` becomes when shifted by `value`, wrapping around
/// the range of `usize` as machine arithmetic does.
pub open spec fn shift_index(index: usize, value: int) -> usize {
    let x = index + value;
    if x > usize::MAX {
        (x - usize::MAX - 1) as usize
    } else if x < 0 {
        (x + usize::MAX + 1) as usize
    } else {
        x as usize
    }
}

/// Adds `value` to every variable index that is at least `cutoff` binders
/// deep (the cutoff grows under the binders of functions and products).
pub open spec fn shift_term(t: TermV, value: int, cutoff: nat) -> TermV
    decreases t,
{
    match t {
        TermV::Var { index, name } => if index >= cutoff {
            TermV::Var { index: shift_index(index, value), name }
        } else {
            t
        },
        TermV::Fun { param_name, param_type, body } => TermV::Fun {
            param_name,
            param_type: Box::new(shift_term(*param_type, value, cutoff)),
            body: Box::new(shift_term(*body, value, cutoff + 1)),
        },
        TermV::Prod { param_name, param_type, body_type } => TermV::Prod {
            param_name,
            param_type: Box::new(shift_term(*param_type, value, cutoff)),
            body_type: Box::new(shift_term(*body_type, value, cutoff + 1)),
        },
        TermV::App { callee, arg } => TermV::App {
            callee: Box::new(shift_term(*callee, value, cutoff)),
            arg: Box::new(shift_term(*arg, value, cutoff)),
        },
        _ => t,
    }
}

/// Whether every variable index in `t`, bound or free, is below `bound`.
pub open spec fn indices_below(t: TermV, bound: int) -> bool
    decreases t,
{
    match t {
        TermV::Var { index, .. } => index < bound,
        TermV::Fun { param_type, body, .. } => indices_below(*param_type, bound) && indices_below(*body, bound),
        TermV::Prod { param_type, body_type, .. } => indices_below(*param_type, bound) && indices_below(*body_type, bound),
        TermV::App { callee, arg } => indices_below(*callee, bound) && indices_below(*arg, bound),
        TermV::Let { value, body, .. } => indices_below(*value, bound) && indices_below(*body, bound),
        _ => true,
    }
}

/// Shifting by zero changes nothing.
pub proof fn law_shift_zero(t: TermV, cutoff: nat)
    ensures
        shift_term(t, 0, cutoff) == t,
    decreases t,
{
    match t {
        TermV::Fun { param_type, body, .. } => {
            law_shift_zero(*param_type, cutoff);
            law_shift_zero(*body, cutoff + 1);
        },
        TermV::Prod { param_type, body_type, .. } => {
            law_shift_zero(*param_type, cutoff);
            law_shift_zero(*body_type, cutoff + 1);
        },
        TermV::App { callee, arg } => {
            law_shift_zero(*callee, cutoff);
            law_shift_zero(*arg, cutoff);
        },
        _ => {},
    }
}

/// Two shifts at the same cutoff add up, when the first one moves indices
/// up without leaving `usize`.
pub proof fn law_shift_compose(t: TermV, a: int, b: int, cutoff: nat)
    requires
        0 <= a,
        indices_below(t, usize::MAX + 1 - a),
    ensures
        shift_term(shift_term(t, a, cutoff), b, cutoff) == shift_term(t, a + b, cutoff),
    decreases t,
{
    match t {
        TermV::Fun { param_type, body, .. } => {
            law_shift_compose(*param_type, a, b, cutoff);
            law_shift_compose(*body, a, b, cutoff + 1);
        },
        TermV::Prod { param_type, body_type, .. } => {
            law_shift_compose(*param_type, a, b, cutoff);
            law_shift_compose(*body_type, a, b, cutoff + 1);
        },
        TermV::App { callee, arg } => {
            law_shift_compose(*callee, a, b, cutoff);
            law_shift_compose(*arg, a, b, cutoff);
        },
        _ => {},
    }
}

/// Shifting down undoes shifting up by the same amount.
pub proof fn law_shift_undo(t: TermV, a: int, cutoff: nat)
    requires
        0 <= a,
        indices_below(t, usize::MAX + 1 - a),
    ensures
        shift_term(shift_term(t, a, cutoff), -a, cutoff) == t,
{
    law_shift_compose(t, a, -a, cutoff);
    law_shift_zero(t, cutoff);
}

/// Shifting with a cutoff beyond every index changes nothing.
pub proof fn law_shift_beyond(t: TermV, value: int, cutoff: nat)
    requires
        cutoff > usize::MAX,
    ensures
        shift_term(t, value, cutoff) == t,
    decreases t,
{
    match t {
        TermV::Fun { param_type, body, .. } => {
            law_shift_beyond(*param_type, value, cutoff);
            law_shift_beyond(*body, value, cutoff + 1);
        },
        TermV::Prod { param_type, body_type, .. } => {
            law_shift_beyond(*param_type, value, cutoff);
            law_shift_beyond(*body_type, value, cutoff + 1);
        },
        TermV::App { callee, arg } => {
            law_shift_beyond(*callee, value, cutoff);
            law_shift_beyond(*arg, value, cutoff);
        },
        _ => {},
    }
}

fn shift_under(term: &Rc<Term>, value: i128, cutoff: usize) -> (r: Rc<Term>)
    requires
        -(usize::MAX as int) <= value <= usize::MAX,
    ensures
        (*r)@ == shift_term((**term)@, value as int, cutoff as nat + 1),
    decreases term, 1nat,
{
    if cutoff < usize::MAX {
        shift(term, value, cutoff + 1)
    } else {
        proof {
            law_shift_beyond((**term)@, value as int, cutoff as nat + 1);
        }
        rc_clone(term)
    }
}

pub(crate) fn shift(term: &Rc<Term>, value: i128, cutoff: usize) -> (r: Rc<Term>)
    requires
        -(usize::MAX as int) <= value <= usize::MAX,
    ensures
        (*r)@ == shift_term((**term)@, value as int, cutoff as nat),
    decreases term, 0nat,
{
    match &**term {
        Term::Var { index, name } => {
            if *index >= cutoff {
                let shifted: i128 = *index as i128 + value;
                let m: i128 = usize::MAX as i128;
                let wrapped: usize = if shifted > m {
                    (shifted - m - 1) as usize
                } else if shifted < 0 {
                    (shifted + m + 1) as usize
                } else {
                    shifted as usize
                };
                Rc::new(Term::Var { index: wrapped, name: name.clone() })
            } else {
                rc_clone(term)
            }
        },
        Term::Fun { param_name, param_type, body } => Rc::new(Term::Fun {
            param_name: param_name.clone(),
            param_type: shift(param_type, value, cutoff),
            body: shift_under(body, value, cutoff),
        }),
        Term::Prod { param_name, param_type, body_type } => Rc::new(Term::Prod {
            param_name: param_name.clone(),
            param_type: shift(param_type, value, cutoff),
            body_type: shift_under(body_type, value, cutoff),
        }),
        Term::App { callee, arg } => Rc::new(Term::App {
            callee: shift(callee, value, cutoff),
            arg: shift(arg, value, cutoff),
        }),
        _ => rc_clone(term),
    }
}


/// The head of an application spine: the term after all arguments are removed.
pub open spec fn app_head(t: TermV) -> TermV
    decreases t,
{
    match t {
        TermV::App { callee, .. } => app_head(*callee),
        _ => t,
    }
}

/// The arguments of an application spine, the last-applied one first.
pub open spec fn app_args(t: TermV) -> Seq<TermV>
    decreases t,
{
    match t {
        TermV::App { callee, arg } => seq![*arg] + app_args(*callee),
        _ => Seq::empty(),
    }
}

/// Applies `head` to `args`, the last-applied argument first.
pub open spec fn apply_args(head: TermV, args: Seq<TermV>) -> TermV
    decreases args.len(),
{
    if args.len() == 0 {
        head
    } else {
        TermV::App { callee: Box::new(apply_args(head, args.drop_first())), arg: Box::new(args[0]) }
    }
}

/// The models of a list of shared terms.
pub open spec fn terms_view(s: Seq<Rc<Term>>) -> Seq<TermV> {
    s.map_values(|t: Rc<Term>| (*t)@)
}

/// The head and the arguments (the last-applied one first) of an application spine.
pub(crate) fn split_app(term: &Rc<Term>) -> (r: (Rc<Term>, Vec<Rc<Term>>))
    ensures
        (*r.0)@ == app_head((**term)@),
        terms_view(r.1@) == app_args((**term)@),
{
    let mut head = rc_clone(term);
    let mut args: Vec<Rc<Term>> = Vec::new();
    loop
        invariant
            app_head((*head)@) == app_head((**term)@),
            terms_view(args@) + app_args((*head)@) == app_args((**term)@),
        ensures
            (*head)@ == app_head((**term)@),
            terms_view(args@) == app_args((**term)@),
        decreases term_size((*head)@),
    {
        let next = match &*head {
            Term::App { callee, arg } => {
                args.push(rc_clone(arg));
                rc_clone(callee)
            },
            _ => {
                proof {
                    assert(terms_view(args@) + app_args((*head)@) =~= terms_view(args@));
                }
                break;
            },
        };
        proof {
            assert(terms_view(args@) =~= terms_view(args@.drop_last()).push((*args@.last())@));
        }
        head = next;
    }
    (head, args)
}

/// An application spine is its head applied to its arguments, and its head
/// is not an application.
pub proof fn law_app_spine(t: TermV)
    ensures
        apply_args(app_head(t), app_args(t)) == t,
        !(app_head(t) is App),
    decreases t,
{
    match t {
        TermV::App { callee, arg } => {
            law_app_spine(*callee);
            let args = app_args(t);
            assert(args.drop_first() =~= app_args(*callee));
        },
        _ => {},
    }
}

/// Why normalization stopped without a result.
#[derive(Clone, Copy, PartialEq, Eq, Debug, Structural)]
pub enum NormError {
    /// The recursion went deeper than a machine word counts, a limit that
    /// the stack reaches first.
    DepthExceeded,
    /// A variable refers to a binder outside the environment.
    UnboundIndex,
}

/// The position of `x` in `s` counting from `from`, if it occurs there.
pub open spec fn index_from(s: Seq<Seq<char>>, x: Seq<char>, from: nat) -> Option<nat>
    decreases s.len() - from,
{
    if from >= s.len() {
        None
    } else if s[from as int] == x {
        Some(from)
    } else {
        index_from(s, x, from + 1)
    }
}

/// A position found by `index_from` is a position of `x` in `s` at or after `from`.
pub proof fn law_index_from(s: Seq<Seq<char>>, x: Seq<char>, from: nat)
    ensures
        index_from(s, x, from) matches Some(j) ==> from <= j < s.len() && s[j as int] == x,
    decreases s.len() - from,
{
    if from < s.len() && s[from as int] != x {
        law_index_from(s, x, from + 1);
    }
}

/// The normal form of `t` in the environment `env` under the constants `g`,
/// computed with at most `fuel` nested steps.
///
/// A variable bound in the environment to a value is replaced by that value
/// (shifted past the binders in between); functions and products are
/// normalized under their binder; an application whose callee normalizes to
/// a function reduces by normalizing the body with the argument bound;
/// other applications may reduce as a recursor applied to a constructor; a
/// `let` normalizes its body with the value bound.
pub open spec fn normal_form(fuel: nat, t: TermV, g: Map<Seq<char>, ConstV>, env: Seq<Option<TermV>>) -> Result<TermV, NormError>
    decreases fuel, 0nat,
{
    if fuel == 0 {
        Err(NormError::DepthExceeded)
    } else {
        let f = (fuel - 1) as nat;
        match t {
            TermV::Var { index, .. } => if index >= env.len() {
                Err(NormError::UnboundIndex)
            } else {
                match env_entry(env, index as int) {
                    Some(value) => Ok(shift_term(value, index + 1, 0)),
                    None => Ok(t),
                }
            },
            TermV::Fun { param_name, param_type, body } => match normal_form(f, *param_type, g, env) {
                Err(e) => Err(e),
                Ok(npt) => match normal_form(f, *body, g, env.push(None)) {
                    Err(e) => Err(e),
                    Ok(nb) => Ok(TermV::Fun { param_name, param_type: Box::new(npt), body: Box::new(nb) }),
                },
            },
            TermV::Prod { param_name, param_type, body_type } => match normal_form(f, *param_type, g, env) {
                Err(e) => Err(e),
                Ok(npt) => match normal_form(f, *body_type, g, env.push(None)) {
                    Err(e) => Err(e),
                    Ok(nb) => Ok(TermV::Prod { param_name, param_type: Box::new(npt), body_type: Box::new(nb) }),
                },
            },
            TermV::App { callee, arg } => match normal_form(f, *callee, g, env) {
                Err(e) => Err(e),
                Ok(nc) => match normal_form(f, *arg, g, env) {
                    Err(e) => Err(e),
                    Ok(na) => match nc {
                        TermV::Fun { body, .. } => match normal_form(f, *body, g, env.push(Some(na))) {
                            Err(e) => Err(e),
                            Ok(nb) => Ok(shift_term(nb, -1, 0)),
                        },
                        _ => {
                            let app = TermV::App { callee: Box::new(nc), arg: Box::new(na) };
                            match recursor_step(f, app, g, env) {
                                Err(e) => Err(e),
                                Ok(Some(reduced)) => normal_form(f, reduced, g, env),
                                Ok(None) => Ok(app),
                            }
                        },
                    },
                },
            },
            TermV::Let { value, body, .. } => match normal_form(f, *value, g, env) {
                Err(e) => Err(e),
                Ok(nv) => normal_form(f, *body, g, env.push(Some(nv))),
            },
            _ => Ok(t),
        }
    }
}

/// One reduction of a recursor: when `t` applies a recursor to at least two
/// more arguments than its type has constructors, and the argument at the
/// position just past the constructors (counting the last-applied argument
/// as 0) normalizes to one of the constructors, `t` reduces to the argument
/// just after the constructor's position.
pub open spec fn recursor_step(fuel: nat, t: TermV, g: Map<Seq<char>, ConstV>, env: Seq<Option<TermV>>) -> Result<Option<TermV>, NormError>
    decreases fuel, 1nat,
{
    let args = app_args(t);
    match app_head(t) {
        TermV::Const { name } => if g.dom().contains(name) {
            match g[name].value {
                ConstValueV::Rec { ctors } => if args.len() < ctors.len() + 2 {
                    Ok(None)
                } else {
                    match normal_form(fuel, args[ctors.len() + 1int], g, env) {
                        Err(e) => Err(e),
                        Ok(TermV::Const { name: ctor_name }) => match index_from(ctors, ctor_name, 0) {
                            Some(j) => Ok(Some(args[j + 1int])),
                            None => Ok(None),
                        },
                        Ok(_) => Ok(None),
                    }
                },
                _ => Ok(None),
            }
        } else {
            Ok(None)
        },
        _ => Ok(None),
    }
}

/// A normal form found within a depth bound is found, the same, within any
/// larger bound: the bound only decides whether a result is found.
pub proof fn law_normal_form_fuel(fuel: nat, t: TermV, g: Map<Seq<char>, ConstV>, env: Seq<Option<TermV>>)
    ensures
        normal_form(fuel, t, g, env) != Err::<TermV, NormError>(NormError::DepthExceeded)
            ==> normal_form(fuel + 1, t, g, env) == normal_form(fuel, t, g, env),
    decreases fuel, 0nat,
{
    if fuel > 0 {
        let f = (fuel - 1) as nat;
        match t {
            TermV::Fun { param_type, body, .. } => {
                law_normal_form_fuel(f, *param_type, g, env);
                law_normal_form_fuel(f, *body, g, env.push(None));
            },
            TermV::Prod { param_type, body_type, .. } => {
                law_normal_form_fuel(f, *param_type, g, env);
                law_normal_form_fuel(f, *body_type, g, env.push(None));
            },
            TermV::App { callee, arg } => {
                law_normal_form_fuel(f, *callee, g, env);
                law_normal_form_fuel(f, *arg, g, env);
                if let Ok(nc) = normal_form(f, *callee, g, env) {
                    if let Ok(na) = normal_form(f, *arg, g, env) {
                        match nc {
                            TermV::Fun { body, .. } => {
                                law_normal_form_fuel(f, *body, g, env.push(Some(na)));
                            },
                            _ => {
                                let app = TermV::App { callee: Box::new(nc), arg: Box::new(na) };
                                law_recursor_step_fuel(f, app, g, env);
                                if let Ok(Some(reduced)) = recursor_step(f, app, g, env) {
                                    law_normal_form_fuel(f, reduced, g, env);
                                }
                            },
                        }
                    }
                }
            },
            TermV::Let { value, body, .. } => {
                law_normal_form_fuel(f, *value, g, env);
                if let Ok(nv) = normal_form(f, *value, g, env) {
                    law_normal_form_fuel(f, *body, g, env.push(Some(nv)));
                }
            },
            _ => {},
        }
    }
}

/// A recursor step decided within a depth bound is decided the same within
/// any larger bound.
pub proof fn law_recursor_step_fuel(fuel: nat, t: TermV, g: Map<Seq<char>, ConstV>, env: Seq<Option<TermV>>)
    ensures
        recursor_step(fuel, t, g, env) != Err::<Option<TermV>, NormError>(NormError::DepthExceeded)
            ==> recursor_step(fuel + 1, t, g, env) == recursor_step(fuel, t, g, env),
    decreases fuel, 1nat,
{
    let args = app_args(t);
    if let TermV::Const { name } = app_head(t) {
        if g.dom().contains(name) {
            if let ConstValueV::Rec { ctors } = g[name].value {
                if args.len() >= ctors.len() + 2 {
                    law_normal_form_fuel(fuel, args[ctors.len() + 1int], g, env);
                }
            }
        }
    }
}

/// Whether `t` applies a recursor to enough arguments, the argument just
/// past the constructors being one of its constructors: a recursor step
/// would reduce it.
pub open spec fn recursor_redex(t: TermV, g: Map<Seq<char>, ConstV>) -> bool {
    let args = app_args(t);
    match app_head(t) {
        TermV::Const { name } => g.dom().contains(name) && match g[name].value {
            ConstValueV::Rec { ctors } => args.len() >= ctors.len() + 2 && match args[ctors.len() + 1int] {
                TermV::Const { name: c } => index_from(ctors, c, 0) is Some,
                _ => false,
            },
            _ => false,
        },
        _ => false,
    }
}

/// Whether `t` is a normal form: it applies no function to an argument and
/// no recursor to a constructor, and holds no `let`.
pub open spec fn is_normal(t: TermV, g: Map<Seq<char>, ConstV>) -> bool
    decreases t,
{
    match t {
        TermV::Fun { param_type, body, .. } => is_normal(*param_type, g) && is_normal(*body, g),
        TermV::Prod { param_type, body_type, .. } => is_normal(*param_type, g) && is_normal(*body_type, g),
        TermV::App { callee, arg } => is_normal(*callee, g) && is_normal(*arg, g) && !(*callee is Fun)
            && !recursor_redex(t, g),
        TermV::Let { .. } => false,
        _ => true,
    }
}

/// Whether every variable of `t` is bound, by a binder of `t` or by an entry
/// of `env` that holds no value.
pub open spec fn bound_without_value(t: TermV, env: Seq<Option<TermV>>) -> bool
    decreases t,
{
    match t {
        TermV::Var { index, .. } => index < env.len() && env_entry(env, index as int) is None,
        TermV::Fun { param_type, body, .. } => bound_without_value(*param_type, env)
            && bound_without_value(*body, env.push(None)),
        TermV::Prod { param_type, body_type, .. } => bound_without_value(*param_type, env)
            && bound_without_value(*body_type, env.push(None)),
        TermV::App { callee, arg } => bound_without_value(*callee, env) && bound_without_value(*arg, env),
        TermV::Let { .. } => false,
        _ => true,
    }
}

proof fn lemma_normal_args(t: TermV, g: Map<Seq<char>, ConstV>, env: Seq<Option<TermV>>)
    requires
        is_normal(t, g),
        bound_without_value(t, env),
    ensures
        forall|k: int| 0 <= k < app_args(t).len() ==> {
            &&& is_normal(#[trigger] app_args(t)[k], g)
            &&& bound_without_value(app_args(t)[k], env)
            &&& term_size(app_args(t)[k]) < term_size(t)
        },
    decreases t,
{
    if let TermV::App { callee, arg } = t {
        lemma_normal_args(*callee, g, env);
        let args = app_args(t);
        assert forall|k: int| 0 <= k < args.len() implies {
            &&& is_normal(#[trigger] args[k], g)
            &&& bound_without_value(args[k], env)
            &&& term_size(args[k]) < term_size(t)
        } by {
            if k > 0 {
                assert(args[k] == app_args(*callee)[k - 1]);
            }
        }
    }
}

/// A normal form whose variables are bound to no value normalizes to
/// itself, given more steps than its size.
pub proof fn law_normal_form_fixed(fuel: nat, u: TermV, g: Map<Seq<char>, ConstV>, env: Seq<Option<TermV>>)
    requires
        is_normal(u, g),
        bound_without_value(u, env),
        fuel > term_size(u),
    ensures
        normal_form(fuel, u, g, env) == Ok::<TermV, NormError>(u),
    decreases term_size(u),
{
    let f = (fuel - 1) as nat;
    match u {
        TermV::Fun { param_type, body, .. } => {
            law_normal_form_fixed(f, *param_type, g, env);
            law_normal_form_fixed(f, *body, g, env.push(None));
        },
        TermV::Prod { param_type, body_type, .. } => {
            law_normal_form_fixed(f, *param_type, g, env);
            law_normal_form_fixed(f, *body_type, g, env.push(None));
        },
        TermV::App { callee, arg } => {
            law_normal_form_fixed(f, *callee, g, env);
            law_normal_form_fixed(f, *arg, g, env);
            let app = TermV::App { callee: Box::new(*callee), arg: Box::new(*arg) };
            assert(app == u);
            let args = app_args(u);
            if let TermV::Const { name } = app_head(u) {
                if g.dom().contains(name) {
                    if let ConstValueV::Rec { ctors } = g[name].value {
                        if args.len() >= ctors.len() + 2 {
                            lemma_normal_args(u, g, env);
                            law_normal_form_fixed(f, args[ctors.len() + 1int], g, env);
                        }
                    }
                }
            }
            assert(recursor_step(f, u, g, env) == Ok::<Option<TermV>, NormError>(None));
        },
        _ => {},
    }
}

proof fn lemma_shift_spine(t: TermV, value: int, cutoff: nat)
    ensures
        app_head(shift_term(t, value, cutoff)) == shift_term(app_head(t), value, cutoff),
        app_args(shift_term(t, value, cutoff)).len() == app_args(t).len(),
        forall|i: int| 0 <= i < app_args(t).len() ==>
            #[trigger] app_args(shift_term(t, value, cutoff))[i] == shift_term(app_args(t)[i], value, cutoff),
    decreases t,
{
    if let TermV::App { callee, arg } = t {
        lemma_shift_spine(*callee, value, cutoff);
        let a = app_args(shift_term(t, value, cutoff));
        assert forall|i: int| 0 <= i < app_args(t).len() implies
            #[trigger] a[i] == shift_term(app_args(t)[i], value, cutoff) by {
            if i > 0 {
                assert(a[i] == app_args(shift_term(*callee, value, cutoff))[i - 1]);
                assert(app_args(t)[i] == app_args(*callee)[i - 1]);
            }
        }
    }
}

/// Shifting indices keeps a normal form normal, and a term that is not
/// normal not normal.
pub proof fn law_shift_normal(t: TermV, value: int, cutoff: nat, g: Map<Seq<char>, ConstV>)
    ensures
        is_normal(shift_term(t, value, cutoff), g) == is_normal(t, g),
    decreases t,
{
    match t {
        TermV::Fun { param_type, body, .. } => {
            law_shift_normal(*param_type, value, cutoff, g);
            law_shift_normal(*body, value, cutoff + 1, g);
        },
        TermV::Prod { param_type, body_type, .. } => {
            law_shift_normal(*param_type, value, cutoff, g);
            law_shift_normal(*body_type, value, cutoff + 1, g);
        },
        TermV::App { callee, arg } => {
            law_shift_normal(*callee, value, cutoff, g);
            law_shift_normal(*arg, value, cutoff, g);
            lemma_shift_spine(t, value, cutoff);
            let st = shift_term(t, value, cutoff);
            let args = app_args(t);
            if let TermV::Const { name } = app_head(t) {
                if g.dom().contains(name) {
                    if let ConstValueV::Rec { ctors } = g[name].value {
                        if args.len() >= ctors.len() + 2 {
                            assert(app_args(st)[ctors.len() + 1int] == shift_term(args[ctors.len() + 1int], value, cutoff));
                        }
                    }
                }
            }
            assert(recursor_redex(st, g) == recursor_redex(t, g));
        },
        _ => {},
    }
}

/// Whether every value in the environment is a normal form.
pub open spec fn env_normal(env: Seq<Option<TermV>>, g: Map<Seq<char>, ConstV>) -> bool {
    forall|i: int| 0 <= i < env.len() ==> (#[trigger] env[i] matches Some(v) ==> is_normal(v, g))
}

proof fn lemma_env_normal_push(env: Seq<Option<TermV>>, e: Option<TermV>, g: Map<Seq<char>, ConstV>)
    requires
        env_normal(env, g),
        e matches Some(v) ==> is_normal(v, g),
    ensures
        env_normal(env.push(e), g),
{
    assert forall|i: int| 0 <= i < env.push(e).len() implies (#[trigger] env.push(e)[i] matches Some(v) ==> is_normal(v, g)) by {
        if i < env.len() {
            assert(env.push(e)[i] == env[i]);
        }
    }
}

/// What normalization gives is a normal form, when the values in the
/// environment are: no function is left applied to an argument, no recursor
/// to a constructor, and no `let` remains.
pub proof fn law_normal_form_is_normal(fuel: nat, t: TermV, g: Map<Seq<char>, ConstV>, env: Seq<Option<TermV>>)
    requires
        env_normal(env, g),
    ensures
        normal_form(fuel, t, g, env) matches Ok(r) ==> is_normal(r, g),
    decreases fuel,
{
    if fuel > 0 {
        let f = (fuel - 1) as nat;
        match t {
            TermV::Var { index, .. } => {
                if index < env.len() {
                    if let Some(value) = env_entry(env, index as int) {
                        assert(env[env.len() - 1 - index] == Some(value));
                        law_shift_normal(value, index + 1, 0, g);
                    }
                }
            },
            TermV::Fun { param_type, body, .. } => {
                law_normal_form_is_normal(f, *param_type, g, env);
                lemma_env_normal_push(env, None, g);
                law_normal_form_is_normal(f, *body, g, env.push(None));
            },
            TermV::Prod { param_type, body_type, .. } => {
                law_normal_form_is_normal(f, *param_type, g, env);
                lemma_env_normal_push(env, None, g);
                law_normal_form_is_normal(f, *body_type, g, env.push(None));
            },
            TermV::App { callee, arg } => {
                law_normal_form_is_normal(f, *callee, g, env);
                law_normal_form_is_normal(f, *arg, g, env);
                if let Ok(nc) = normal_form(f, *callee, g, env) {
                    if let Ok(na) = normal_form(f, *arg, g, env) {
                        match nc {
                            TermV::Fun { body, .. } => {
                                lemma_env_normal_push(env, Some(na), g);
                                law_normal_form_is_normal(f, *body, g, env.push(Some(na)));
                                if let Ok(nb) = normal_form(f, *body, g, env.push(Some(na))) {
                                    law_shift_normal(nb, -1, 0, g);
                                }
                            },
                            _ => {
                                let app = TermV::App { callee: Box::new(nc), arg: Box::new(na) };
                                if let Ok(Some(reduced)) = recursor_step(f, app, g, env) {
                                    law_normal_form_is_normal(f, reduced, g, env);
                                }
                                if recursor_step(f, app, g, env) == Ok::<Option<TermV>, NormError>(None) {
                                    let args = app_args(app);
                                    if let TermV::Const { name } = app_head(app) {
                                        if g.dom().contains(name) {
                                            if let ConstValueV::Rec { ctors } = g[name].value {
                                                if args.len() >= ctors.len() + 2 {
                                                    let major = args[ctors.len() + 1int];
                                                    if let TermV::Const { name: c } = major {
                                                        assert(normal_form(f, major, g, env) == Ok::<TermV, NormError>(major) || f == 0);
                                                    }
                                                }
                                            }
                                        }
                                    }
                                    assert(!recursor_redex(app, g));
                                }
                            },
                        }
                    }
                }
            },
            TermV::Let { value, body, .. } => {
                law_normal_form_is_normal(f, *value, g, env);
                if let Ok(nv) = normal_form(f, *value, g, env) {
                    lemma_env_normal_push(env, Some(nv), g);
                    law_normal_form_is_normal(f, *body, g, env.push(Some(nv)));
                }
            },
            _ => {},
        }
    }
}

/// Whether `t`, under `depth` binders of its own and placed in an
/// environment of `len` entries, refers only to entries of that environment
/// and to none at a position in `avoid` (positions count from the outermost
/// entry, 0). A `let` counts as not scoped.
pub open spec fn scoped(t: TermV, depth: nat, len: nat, avoid: Set<int>) -> bool
    decreases t,
{
    match t {
        TermV::Var { index, .. } => index < depth
            || (index - depth < len && !avoid.contains(len - 1 - (index - depth))),
        TermV::Fun { param_type, body, .. } => scoped(*param_type, depth, len, avoid)
            && scoped(*body, depth + 1, len, avoid),
        TermV::Prod { param_type, body_type, .. } => scoped(*param_type, depth, len, avoid)
            && scoped(*body_type, depth + 1, len, avoid),
        TermV::App { callee, arg } => scoped(*callee, depth, len, avoid) && scoped(*arg, depth, len, avoid),
        TermV::Let { .. } => false,
        _ => true,
    }
}

pub(crate) proof fn lemma_scoped_avoid_less(t: TermV, depth: nat, len: nat, a: Set<int>, b: Set<int>)
    requires
        scoped(t, depth, len, a),
        forall|x: int| 0 <= x < len && #[trigger] b.contains(x) ==> a.contains(x),
    ensures
        scoped(t, depth, len, b),
    decreases t,
{
    match t {
        TermV::Fun { param_type, body, .. } => {
            lemma_scoped_avoid_less(*param_type, depth, len, a, b);
            lemma_scoped_avoid_less(*body, depth + 1, len, a, b);
        },
        TermV::Prod { param_type, body_type, .. } => {
            lemma_scoped_avoid_less(*param_type, depth, len, a, b);
            lemma_scoped_avoid_less(*body_type, depth + 1, len, a, b);
        },
        TermV::App { callee, arg } => {
            lemma_scoped_avoid_less(*callee, depth, len, a, b);
            lemma_scoped_avoid_less(*arg, depth, len, a, b);
        },
        _ => {},
    }
}

pub(crate) proof fn lemma_scoped_longer(t: TermV, depth: nat, len: nat, len2: nat)
    requires
        scoped(t, depth, len, Set::empty()),
        len <= len2,
    ensures
        scoped(t, depth, len2, Set::empty()),
    decreases t,
{
    match t {
        TermV::Fun { param_type, body, .. } => {
            lemma_scoped_longer(*param_type, depth, len, len2);
            lemma_scoped_longer(*body, depth + 1, len, len2);
        },
        TermV::Prod { param_type, body_type, .. } => {
            lemma_scoped_longer(*param_type, depth, len, len2);
            lemma_scoped_longer(*body_type, depth + 1, len, len2);
        },
        TermV::App { callee, arg } => {
            lemma_scoped_longer(*callee, depth, len, len2);
            lemma_scoped_longer(*arg, depth, len, len2);
        },
        _ => {},
    }
}

/// A binder of the term's own and an entry of the environment are the same
/// place, as seen from inside.
pub(crate) proof fn lemma_scoped_enter(t: TermV, depth: nat, len: nat, avoid: Set<int>)
    ensures
        scoped(t, depth, len + 1, avoid) ==> scoped(t, depth + 1, len, avoid),
        scoped(t, depth + 1, len, avoid) && !avoid.contains(len as int) ==> scoped(t, depth, len + 1, avoid),
    decreases t,
{
    match t {
        TermV::Fun { param_type, body, .. } => {
            lemma_scoped_enter(*param_type, depth, len, avoid);
            lemma_scoped_enter(*body, depth + 1, len, avoid);
        },
        TermV::Prod { param_type, body_type, .. } => {
            lemma_scoped_enter(*param_type, depth, len, avoid);
            lemma_scoped_enter(*body_type, depth + 1, len, avoid);
        },
        TermV::App { callee, arg } => {
            lemma_scoped_enter(*callee, depth, len, avoid);
            lemma_scoped_enter(*arg, depth, len, avoid);
        },
        _ => {},
    }
}

/// Moving a term from an environment of `p` entries into one that extends
/// it to `len` entries (shifting its free variables by the difference) keeps
/// what it refers to.
pub(crate) proof fn lemma_scoped_shift_up(v: TermV, depth: nat, p: nat, len: nat, avoid: Set<int>)
    requires
        scoped(v, depth, p, avoid),
        p <= len,
        len <= usize::MAX,
    ensures
        scoped(shift_term(v, len - p, depth), depth, len, avoid),
    decreases v,
{
    match v {
        TermV::Fun { param_type, body, .. } => {
            lemma_scoped_shift_up(*param_type, depth, p, len, avoid);
            lemma_scoped_shift_up(*body, depth + 1, p, len, avoid);
        },
        TermV::Prod { param_type, body_type, .. } => {
            lemma_scoped_shift_up(*param_type, depth, p, len, avoid);
            lemma_scoped_shift_up(*body_type, depth + 1, p, len, avoid);
        },
        TermV::App { callee, arg } => {
            lemma_scoped_shift_up(*callee, depth, p, len, avoid);
            lemma_scoped_shift_up(*arg, depth, p, len, avoid);
        },
        _ => {},
    }
}

/// Removing the innermost entry of the environment, which the term does not
/// refer to, keeps what the term refers to.
pub(crate) proof fn lemma_scoped_shift_down(t: TermV, depth: nat, len: nat, avoid: Set<int>)
    requires
        scoped(t, depth, len + 1, avoid),
        avoid.contains(len as int),
    ensures
        scoped(shift_term(t, -1, depth), depth, len, avoid),
    decreases t,
{
    match t {
        TermV::Fun { param_type, body, .. } => {
            lemma_scoped_shift_down(*param_type, depth, len, avoid);
            lemma_scoped_shift_down(*body, depth + 1, len, avoid);
        },
        TermV::Prod { param_type, body_type, .. } => {
            lemma_scoped_shift_down(*param_type, depth, len, avoid);
            lemma_scoped_shift_down(*body_type, depth + 1, len, avoid);
        },
        TermV::App { callee, arg } => {
            lemma_scoped_shift_down(*callee, depth, len, avoid);
            lemma_scoped_shift_down(*arg, depth, len, avoid);
        },
        _ => {},
    }
}

proof fn lemma_scoped_args(t: TermV, depth: nat, len: nat, avoid: Set<int>)
    requires
        scoped(t, depth, len, avoid),
    ensures
        forall|k: int| 0 <= k < app_args(t).len() ==> scoped(#[trigger] app_args(t)[k], depth, len, avoid),
    decreases t,
{
    if let TermV::App { callee, arg } = t {
        lemma_scoped_args(*callee, depth, len, avoid);
        let args = app_args(t);
        assert forall|k: int| 0 <= k < args.len() implies scoped(#[trigger] args[k], depth, len, avoid) by {
            if k > 0 {
                assert(args[k] == app_args(*callee)[k - 1]);
            }
        }
    }
}

/// Whether the environment is fit for a scoped normalization avoiding the
/// positions `avoid`: each of them holds a value, and each value refers only
/// to entries before it, at no position in `avoid`.
pub open spec fn env_scoped(env: Seq<Option<TermV>>, avoid: Set<int>) -> bool {
    &&& forall|q: int| #[trigger] avoid.contains(q) ==> 0 <= q < env.len() && env[q] is Some
    &&& forall|p: int| 0 <= p < env.len() ==> (#[trigger] env[p] matches Some(v) ==> scoped(v, 0, p as nat, avoid))
}

/// Normalization keeps a term within its environment, and what it gives
/// refers to no entry that holds a value which it substituted, when the
/// environment's values refer to none either.
pub proof fn law_normal_form_scoped(fuel: nat, t: TermV, g: Map<Seq<char>, ConstV>, env: Seq<Option<TermV>>, avoid: Set<int>)
    requires
        scoped(t, 0, env.len(), Set::empty()),
        env_scoped(env, avoid),
        env.len() + fuel <= usize::MAX + 1,
    ensures
        normal_form(fuel, t, g, env) matches Ok(r) ==> scoped(r, 0, env.len(), avoid),
    decreases fuel,
{
    if fuel > 0 {
        let f = (fuel - 1) as nat;
        let len = env.len();
        match t {
            TermV::Var { index, .. } => {
                if index < len {
                    let pos = len - 1 - index;
                    assert(env_entry(env, index as int) == env[pos]);
                    if let Some(v) = env[pos] {
                        lemma_scoped_shift_up(v, 0, pos as nat, len, avoid);
                        assert(len - pos == index + 1);
                    }
                }
            },
            TermV::Fun { param_type, body, .. } => {
                law_normal_form_scoped(f, *param_type, g, env, avoid);
                lemma_scoped_enter(*body, 0, len, Set::empty());
                lemma_env_scoped_push(env, avoid, None);
                law_normal_form_scoped(f, *body, g, env.push(None), avoid);
                if let Ok(nb) = normal_form(f, *body, g, env.push(None)) {
                    lemma_scoped_enter(nb, 0, len, avoid);
                }
            },
            TermV::Prod { param_type, body_type, .. } => {
                law_normal_form_scoped(f, *param_type, g, env, avoid);
                lemma_scoped_enter(*body_type, 0, len, Set::empty());
                lemma_env_scoped_push(env, avoid, None);
                law_normal_form_scoped(f, *body_type, g, env.push(None), avoid);
                if let Ok(nb) = normal_form(f, *body_type, g, env.push(None)) {
                    lemma_scoped_enter(nb, 0, len, avoid);
                }
            },
            TermV::App { callee, arg } => {
                law_normal_form_scoped(f, *callee, g, env, avoid);
                law_normal_form_scoped(f, *arg, g, env, avoid);
                if let Ok(nc) = normal_form(f, *callee, g, env) {
                    if let Ok(na) = normal_form(f, *arg, g, env) {
                        match nc {
                            TermV::Fun { body, .. } => {
                                let avoid2 = avoid.insert(len as int);
                                let env2 = env.push(Some(na));
                                lemma_scoped_avoid_less(*body, 1, len, avoid, Set::empty());
                                lemma_scoped_enter(*body, 0, len, Set::empty());
                                lemma_scoped_avoid_less(na, 0, len, avoid, avoid2);
                                lemma_env_scoped_push(env, avoid, Some(na));
                                lemma_env_scoped_grow(env2, avoid, len as int);
                                law_normal_form_scoped(f, *body, g, env2, avoid2);
                                if let Ok(nb) = normal_form(f, *body, g, env2) {
                                    lemma_scoped_shift_down(nb, 0, len, avoid2);
                                    lemma_scoped_avoid_less(shift_term(nb, -1, 0), 0, len, avoid2, avoid);
                                }
                            },
                            _ => {
                                let app = TermV::App { callee: Box::new(nc), arg: Box::new(na) };
                                if let Ok(Some(reduced)) = recursor_step(f, app, g, env) {
                                    lemma_scoped_args(app, 0, len, avoid);
                                    let args = app_args(app);
                                    if let TermV::Const { name } = app_head(app) {
                                        if let ConstValueV::Rec { ctors } = g[name].value {
                                            if let Ok(TermV::Const { name: c }) = normal_form(f, args[ctors.len() + 1int], g, env) {
                                                law_index_from(ctors, c, 0);
                                            }
                                        }
                                    }
                                    lemma_scoped_avoid_less(reduced, 0, len, avoid, Set::empty());
                                    law_normal_form_scoped(f, reduced, g, env, avoid);
                                }
                            },
                        }
                    }
                }
            },
            _ => {},
        }
    }
}

pub(crate) proof fn lemma_env_scoped_push(env: Seq<Option<TermV>>, avoid: Set<int>, e: Option<TermV>)
    requires
        env_scoped(env, avoid),
        e matches Some(v) ==> scoped(v, 0, env.len(), avoid),
    ensures
        env_scoped(env.push(e), avoid),
{
    let env2 = env.push(e);
    assert forall|q: int| #[trigger] avoid.contains(q) implies 0 <= q < env2.len() && env2[q] is Some by {
        assert(env2[q] == env[q]);
    }
    assert forall|p: int| 0 <= p < env2.len() implies (#[trigger] env2[p] matches Some(v) ==> scoped(v, 0, p as nat, avoid)) by {
        if p < env.len() {
            assert(env2[p] == env[p]);
        }
    }
}

/// Adding to `avoid` the last position, which holds a value.
pub(crate) proof fn lemma_env_scoped_grow(env: Seq<Option<TermV>>, avoid: Set<int>, q: int)
    requires
        env_scoped(env, avoid),
        q == env.len() - 1,
        0 <= q,
        env[q] is Some,
    ensures
        env_scoped(env, avoid.insert(q)),
{
    let avoid2 = avoid.insert(q);
    assert forall|p: int| 0 <= p < env.len() implies (#[trigger] env[p] matches Some(v) ==> scoped(v, 0, p as nat, avoid2)) by {
        if let Some(v) = env[p] {
            lemma_scoped_avoid_less(v, 0, p as nat, avoid, avoid2);
        }
    }
}

/// How deep normalization may recurse in the environment `env`: as deep as
/// a machine word counts, less the binders already in scope, so that only
/// the machine limits it and the binders in scope never outnumber a word.
pub open spec fn norm_fuel(env: Seq<Option<TermV>>) -> nat {
    if env.len() <= usize::MAX {
        (usize::MAX - env.len()) as nat
    } else {
        0
    }
}

/// The model of a normalization result.
pub open spec fn norm_view(r: Result<Rc<Term>, NormError>) -> Result<TermV, NormError> {
    match r {
        Ok(t) => Ok((*t)@),
        Err(e) => Err(e),
    }
}

/// The model of a recursor-step result.
pub open spec fn step_view(r: Result<Option<Rc<Term>>, NormError>) -> Result<Option<TermV>, NormError> {
    match r {
        Ok(Some(t)) => Ok(Some((*t)@)),
        Ok(None) => Ok(None),
        Err(e) => Err(e),
    }
}

fn normalize_within(term: &Rc<Term>, global_context: &GlobalContext, env: &Env, fuel: usize) -> (r: Result<Rc<Term>, NormError>)
    ensures
        norm_view(r) == normal_form(fuel as nat, (**term)@, global_context@, env@),
    decreases fuel, 0nat,
{
    if fuel == 0 {
        return Err(NormError::DepthExceeded);
    }
    let f = fuel - 1;
    match &**term {
        Term::Var { index, .. } => {
            if *index >= env.len() {
                return Err(NormError::UnboundIndex);
            }
            match env.index(*index) {
                Some(value) => Ok(shift(value, *index as i128 + 1, 0)),
                None => Ok(rc_clone(term)),
            }
        },
        Term::Fun { param_name, param_type, body } => {
            let npt = match normalize_within(param_type, global_context, env, f) {
                Ok(t) => t,
                Err(e) => return Err(e),
            };
            let new_env = env.extend(None);
            let nb = match normalize_within(body, global_context, &new_env, f) {
                Ok(t) => t,
                Err(e) => return Err(e),
            };
            Ok(Rc::new(Term::Fun { param_name: param_name.clone(), param_type: npt, body: nb }))
        },
        Term::Prod { param_name, param_type, body_type } => {
            let npt = match normalize_within(param_type, global_context, env, f) {
                Ok(t) => t,
                Err(e) => return Err(e),
            };
            let new_env = env.extend(None);
            let nb = match normalize_within(body_type, global_context, &new_env, f) {
                Ok(t) => t,
                Err(e) => return Err(e),
            };
            Ok(Rc::new(Term::Prod { param_name: param_name.clone(), param_type: npt, body_type: nb }))
        },
        Term::App { callee, arg } => {
            let nc = match normalize_within(callee, global_context, env, f) {
                Ok(t) => t,
                Err(e) => return Err(e),
            };
            let na = match normalize_within(arg, global_context, env, f) {
                Ok(t) => t,
                Err(e) => return Err(e),
            };
            match &*nc {
                Term::Fun { body, .. } => {
                    let new_env = env.extend(Some(na));
                    let nb = match normalize_within(body, global_context, &new_env, f) {
                        Ok(t) => t,
                        Err(e) => return Err(e),
                    };
                    Ok(shift(&nb, -1, 0))
                },
                _ => {
                    let app = Rc::new(Term::App { callee: rc_clone(&nc), arg: na });
                    match try_rec(&app, global_context, env, f) {
                        Err(e) => Err(e),
                        Ok(Some(reduced)) => normalize_within(&reduced, global_context, env, f),
                        Ok(None) => Ok(app),
                    }
                },
            }
        },
        Term::Let { value, body, .. } => {
            let nv = match normalize_within(value, global_context, env, f) {
                Ok(t) => t,
                Err(e) => return Err(e),
            };
            let new_env = env.extend(Some(nv));
            normalize_within(body, global_context, &new_env, f)
        },
        _ => Ok(rc_clone(term)),
    }
}

fn try_rec(term: &Rc<Term>, global_context: &GlobalContext, env: &Env, fuel: usize) -> (r: Result<Option<Rc<Term>>, NormError>)
    ensures
        step_view(r) == recursor_step(fuel as nat, (**term)@, global_context@, env@),
    decreases fuel, 1nat,
{
    let (callee, args) = split_app(term);
    let name = match &*callee {
        Term::Const { name } => name,
        _ => return Ok(None),
    };
    let cnst = match global_context.get(name.as_str()) {
        Some(c) => c,
        None => return Ok(None),
    };
    let rule = match &cnst.value {
        ConstValue::Rec { rule } => rule,
        _ => return Ok(None),
    };
    let ctors_count = rule.ctors.len();
    if args.len() < 2 || args.len() - 2 < ctors_count {
        return Ok(None);
    }
    proof {
        assert(terms_view(args@)[ctors_count + 1] == (*args@[ctors_count + 1])@);
    }
    let major_premise = match normalize_within(&args[ctors_count + 1], global_context, env, fuel) {
        Ok(t) => t,
        Err(e) => return Err(e),
    };
    let ctor_name = match &*major_premise {
        Term::Const { name } => name,
        _ => return Ok(None),
    };
    let ghost ctors = rule@;
    let mut j: usize = 0;
    #[verifier::loop_isolation(false)]
    while j < ctors_count
        invariant
            ctors_count == rule.ctors@.len(),
            ctors == rule@,
            j <= ctors_count,
            index_from(ctors, ctor_name@, 0) == index_from(ctors, ctor_name@, j as nat),
        decreases ctors_count - j,
    {
        proof {
            assert(ctors[j as int] == rule.ctors@[j as int]@);
        }
        if rule.ctors[j] == *ctor_name {
            proof {
                assert(terms_view(args@)[j + 1] == (*args@[j + 1])@);
            }
            return Ok(Some(rc_clone(&args[j + 1])));
        }
        j = j + 1;
    }
    Ok(None)
}

/// The normal form of `term` in `env` under the constants of `global_context`,
/// or why it could not be computed (a variable outside the environment, or
/// a nesting that, with the binders in scope, is deeper than a machine word
/// counts).
pub fn normalize(term: &Rc<Term>, global_context: &GlobalContext, env: &Env) -> (r: Result<Rc<Term>, NormError>)
    ensures
        norm_view(r) == normal_form(norm_fuel(env@), (**term)@, global_context@, env@),
{
    let n = env.len();
    normalize_within(term, global_context, env, usize::MAX - n)
}

} // verus!
