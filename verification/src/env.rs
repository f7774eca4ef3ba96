//! The evaluation environment: for each enclosing binder, either the value
//! bound to it (a `let` or a substituted argument) or nothing (a parameter).
use std::rc::Rc;
use vstd::prelude::*;

use crate::term::{rc_clone, Term, TermV};

verus! {

/// The model of an environment entry.
pub open spec fn entry_view(e: Option<Rc<Term>>) -> Option<TermV> {
    match e {
        Some(t) => Some((*t)@),
        None => None,
    }
}

/// An environment; the last entry belongs to the innermost binder.
#[derive(Debug)]
pub struct Env {
    terms: Vec<Option<Rc<Term>>>,
}

impl View for Env {
    type V = Seq<Option<TermV>>;

    closed spec fn view(&self) -> Seq<Option<TermV>> {
        self.terms@.map_values(|e: Option<Rc<Term>>| entry_view(e))
    }
}

/// The entry of the binder `index` binders out from the innermost one.
pub open spec fn env_entry(env: Seq<Option<TermV>>, index: int) -> Option<TermV> {
    env[env.len() - 1 - index]
}

/// After entering a binder, index 0 is the new entry and index `i + 1` is
/// what index `i` was before.
pub proof fn law_env_push(env: Seq<Option<TermV>>, e: Option<TermV>, i: int)
    requires
        0 <= i < env.len(),
    ensures
        env_entry(env.push(e), 0) == e,
        env_entry(env.push(e), i + 1) == env_entry(env, i),
{
}

fn copy_entry(e: &Option<Rc<Term>>) -> (r: Option<Rc<Term>>)
    ensures
        r == *e,
{
    match e {
        Some(t) => Some(rc_clone(t)),
        None => None,
    }
}

impl Clone for Env {
    fn clone(&self) -> (r: Self)
        ensures
            r@ == self@,
    {
        let mut terms: Vec<Option<Rc<Term>>> = Vec::new();
        let mut i: usize = 0;
        while i < self.terms.len()
            invariant
                i <= self.terms@.len(),
                terms@ == self.terms@.subrange(0, i as int),
            decreases self.terms@.len() - i,
        {
            terms.push(copy_entry(&self.terms[i]));
            i = i + 1;
            proof {
                assert(terms@ =~= self.terms@.subrange(0, i as int));
            }
        }
        proof {
            assert(terms@ =~= self.terms@);
        }
        Env { terms }
    }
}

impl Env {
    /// The empty environment.
    pub fn new() -> (r: Self)
        ensures
            r@ == Seq::<Option<TermV>>::empty(),
    {
        let r = Env { terms: Vec::new() };
        proof {
            assert(r@ =~= Seq::<Option<TermV>>::empty());
        }
        r
    }

    /// Enters a binder with the given entry.
    pub fn push(&mut self, term: Option<Rc<Term>>)
        ensures
            final(self)@ == old(self)@.push(entry_view(term)),
    {
        self.terms.push(term);
        proof {
            assert(final(self)@ =~= old(self)@.push(entry_view(term)));
        }
    }

    /// A copy of the environment that has entered one more binder.
    pub fn extend(&self, term: Option<Rc<Term>>) -> (r: Self)
        ensures
            r@ == self@.push(entry_view(term)),
    {
        let mut new_env = self.clone();
        new_env.push(term);
        new_env
    }

    /// The number of binders entered.
    pub fn len(&self) -> (n: usize)
        ensures
            n == self@.len(),
    {
        self.terms.len()
    }

    /// The entry of the binder `index` binders out from the innermost one.
    pub fn index(&self, index: usize) -> (r: &Option<Rc<Term>>)
        requires
            index < self@.len(),
        ensures
            entry_view(*r) == env_entry(self@, index as int),
    {
        &self.terms[self.terms.len() - 1 - index]
    }
}

} // verus!
