//! The global context (named constants: definitions, inductive types, their
//! constructors and recursors) and the local context (the variables in scope).
use std::rc::Rc;
use vstd::prelude::*;

use crate::term::{rc_clone, Term, TermV};
use crate::text::same_text;

verus! {

/// How the recursor of an inductive type reduces: the names of its
/// constructors, in order of declaration.
#[derive(Debug)]
pub struct RecRule {
    pub ctors: Vec<String>,
}

/// What a constant is.
#[derive(Debug)]
pub enum ConstValue {
    Def { value: Rc<Term> },
    Ind,
    Ctor,
    Rec { rule: RecRule },
}

/// A constant: its type and what it is.
#[derive(Debug)]
pub struct Const {
    pub typ: Rc<Term>,
    pub value: ConstValue,
}

/// The model of a constant's value.
pub enum ConstValueV {
    Def { value: TermV },
    Ind,
    Ctor,
    Rec { ctors: Seq<Seq<char>> },
}

/// The model of a constant.
pub struct ConstV {
    pub typ: TermV,
    pub value: ConstValueV,
}

pub open spec fn names_view(names: Seq<String>) -> Seq<Seq<char>> {
    names.map_values(|s: String| s@)
}

impl View for RecRule {
    type V = Seq<Seq<char>>;

    open spec fn view(&self) -> Seq<Seq<char>> {
        names_view(self.ctors@)
    }
}

impl View for ConstValue {
    type V = ConstValueV;

    open spec fn view(&self) -> ConstValueV {
        match self {
            ConstValue::Def { value } => ConstValueV::Def { value: (**value)@ },
            ConstValue::Ind => ConstValueV::Ind,
            ConstValue::Ctor => ConstValueV::Ctor,
            ConstValue::Rec { rule } => ConstValueV::Rec { ctors: rule@ },
        }
    }
}

impl View for Const {
    type V = ConstV;

    open spec fn view(&self) -> ConstV {
        ConstV { typ: (*self.typ)@, value: self.value@ }
    }
}

/// A copy of a list of names.
fn copy_names(names: &Vec<String>) -> (r: Vec<String>)
    ensures
        names_view(r@) == names_view(names@),
{
    let mut r: Vec<String> = Vec::new();
    let mut i: usize = 0;
    while i < names.len()
        invariant
            i <= names@.len(),
            r@.len() == i,
            forall|k: int| 0 <= k < i ==> (#[trigger] r@[k])@ == names@[k]@,
        decreases names@.len() - i,
    {
        r.push(names[i].clone());
        i = i + 1;
    }
    proof {
        assert(names_view(r@) =~= names_view(names@));
    }
    r
}

impl RecRule {
    /// A copy of this value.
    pub fn duplicate(&self) -> (r: Self)
        ensures
            r@ == self@,
    {
        RecRule { ctors: copy_names(&self.ctors) }
    }
}

impl ConstValue {
    /// A copy of this value.
    pub fn duplicate(&self) -> (r: Self)
        ensures
            r@ == self@,
    {
        match self {
            ConstValue::Def { value } => ConstValue::Def { value: rc_clone(value) },
            ConstValue::Ind => ConstValue::Ind,
            ConstValue::Ctor => ConstValue::Ctor,
            ConstValue::Rec { rule } => ConstValue::Rec { rule: rule.duplicate() },
        }
    }
}

impl Const {
    /// A copy of this value.
    pub fn duplicate(&self) -> (r: Self)
        ensures
            r@ == self@,
    {
        Const { typ: rc_clone(&self.typ), value: self.value.duplicate() }
    }
}

#[derive(Debug)]
struct Entry {
    name: String,
    cnst: Const,
}

/// The map that a list of definitions gives, later ones taking precedence.
pub open spec fn entries_map(s: Seq<(Seq<char>, ConstV)>) -> Map<Seq<char>, ConstV>
    decreases s.len(),
{
    if s.len() == 0 {
        Map::empty()
    } else {
        entries_map(s.drop_last()).insert(s.last().0, s.last().1)
    }
}

/// The named constants that are defined.
#[derive(Debug)]
pub struct GlobalContext {
    consts: Vec<Entry>,
}

spec fn entry_view(e: Entry) -> (Seq<char>, ConstV) {
    (e.name@, e.cnst@)
}

proof fn lemma_entries_map_skip(s: Seq<(Seq<char>, ConstV)>, j: int, name: Seq<char>)
    requires
        0 <= j <= s.len(),
        forall|k: int| j <= k < s.len() ==> s[k].0 != name,
    ensures
        entries_map(s).dom().contains(name) == entries_map(s.take(j)).dom().contains(name),
        entries_map(s).dom().contains(name) ==> entries_map(s)[name] == entries_map(s.take(j))[name],
    decreases s.len() - j,
{
    if j < s.len() {
        lemma_entries_map_skip(s.drop_last(), j, name);
        assert(s.drop_last().take(j) =~= s.take(j));
    } else {
        assert(s.take(j) =~= s);
    }
}

/// A constant that is defined keeps its definition when another name is
/// defined, and the newly defined name has the new definition.
pub proof fn law_insert_get(g: Map<Seq<char>, ConstV>, name: Seq<char>, c: ConstV, other: Seq<char>)
    ensures
        g.insert(name, c).dom().contains(name),
        g.insert(name, c)[name] == c,
        other != name ==> g.insert(name, c).dom().contains(other) == g.dom().contains(other),
        other != name && g.dom().contains(other) ==> g.insert(name, c)[other] == g[other],
{
}

impl View for GlobalContext {
    type V = Map<Seq<char>, ConstV>;

    closed spec fn view(&self) -> Map<Seq<char>, ConstV> {
        entries_map(self.consts@.map_values(|e: Entry| entry_view(e)))
    }
}

impl Clone for GlobalContext {
    fn clone(&self) -> (r: Self)
        ensures
            r@ == self@,
    {
        let mut consts: Vec<Entry> = Vec::new();
        let mut i: usize = 0;
        while i < self.consts.len()
            invariant
                i <= self.consts@.len(),
                consts@.len() == i,
                forall|k: int| 0 <= k < i ==> entry_view(#[trigger] consts@[k]) == entry_view(self.consts@[k]),
            decreases self.consts@.len() - i,
        {
            let e = &self.consts[i];
            consts.push(Entry { name: e.name.clone(), cnst: e.cnst.duplicate() });
            i = i + 1;
        }
        let r = GlobalContext { consts };
        proof {
            assert(r.consts@.map_values(|e: Entry| entry_view(e)) =~= self.consts@.map_values(|e: Entry| entry_view(e)));
        }
        r
    }
}

impl GlobalContext {
    /// The context with no constants.
    pub fn new() -> (r: Self)
        ensures
            r@ == Map::<Seq<char>, ConstV>::empty(),
    {
        let r = GlobalContext { consts: Vec::new() };
        proof {
            assert(r.consts@.map_values(|e: Entry| entry_view(e)) =~= Seq::<(Seq<char>, ConstV)>::empty());
        }
        r
    }

    /// Defines `name` as `cnst`, replacing any earlier definition.
    pub fn insert(&mut self, name: String, cnst: Const)
        ensures
            final(self)@ == old(self)@.insert(name@, cnst@),
    {
        let ghost old_entries = self.consts@.map_values(|e: Entry| entry_view(e));
        self.consts.push(Entry { name, cnst });
        proof {
            let entries = self.consts@.map_values(|e: Entry| entry_view(e));
            assert(entries.drop_last() =~= old_entries);
        }
    }

    /// The constant named `name`, if there is one.
    pub fn get(&self, name: &str) -> (r: Option<&Const>)
        ensures
            r is Some == self@.dom().contains(name@),
            r matches Some(c) ==> c@ == self@[name@],
    {
        let ghost entries = self.consts@.map_values(|e: Entry| entry_view(e));
        let mut j: usize = self.consts.len();
        while j > 0
            invariant
                j <= self.consts@.len(),
                entries == self.consts@.map_values(|e: Entry| entry_view(e)),
                forall|k: int| j <= k < entries.len() ==> entries[k].0 != name@,
            decreases j,
        {
            let e = &self.consts[j - 1];
            if same_text(&e.name, name) {
                proof {
                    lemma_entries_map_skip(entries, j as int, name@);
                    assert(entries.take(j as int).drop_last() =~= entries.take(j - 1));
                }
                return Some(&e.cnst);
            }
            j = j - 1;
        }
        proof {
            lemma_entries_map_skip(entries, 0, name@);
            assert(entries.take(0) =~= Seq::<(Seq<char>, ConstV)>::empty());
        }
        None
    }
}

/// A variable in scope: its name and type.
#[derive(Debug)]
pub struct Var {
    pub name: String,
    pub typ: Rc<Term>,
}

/// The model of a variable in scope.
pub struct VarV {
    pub name: Seq<char>,
    pub typ: TermV,
}

impl View for Var {
    type V = VarV;

    open spec fn view(&self) -> VarV {
        VarV { name: self.name@, typ: (*self.typ)@ }
    }
}

impl Var {
    /// A copy of this value.
    pub fn duplicate(&self) -> (r: Self)
        ensures
            r@ == self@,
    {
        Var { name: self.name.clone(), typ: rc_clone(&self.typ) }
    }
}

/// The variable `k` binders out from the innermost one.
pub open spec fn var_at(vars: Seq<VarV>, k: int) -> VarV {
    vars[vars.len() - 1 - k]
}

/// How many binders out from the innermost one the nearest variable named
/// `name` is bound, if any is.
pub open spec fn find_var(vars: Seq<VarV>, name: Seq<char>) -> Option<nat>
    decreases vars.len(),
{
    if vars.len() == 0 {
        None
    } else if vars.last().name == name {
        Some(0)
    } else {
        match find_var(vars.drop_last(), name) {
            Some(i) => Some(i + 1),
            None => None,
        }
    }
}

/// After a variable enters scope, its name refers to it (0 binders out) and
/// every other name refers to what it referred to before, one binder further out.
pub proof fn law_find_var_push(vars: Seq<VarV>, v: VarV, name: Seq<char>)
    ensures
        name == v.name ==> find_var(vars.push(v), name) == Some(0nat),
        name != v.name ==> find_var(vars.push(v), name) == (match find_var(vars, name) {
            Some(i) => Some(i + 1),
            None => None::<nat>,
        }),
        find_var(vars.push(v), name) matches Some(i) ==> var_at(vars.push(v), i as int).name == name,
{
    assert(vars.push(v).drop_last() =~= vars);
    law_find_var_found(vars.push(v), name);
}

/// The variable that `find_var` finds has the name looked up.
pub proof fn law_find_var_found(vars: Seq<VarV>, name: Seq<char>)
    ensures
        find_var(vars, name) matches Some(i) ==> i < vars.len() && var_at(vars, i as int).name == name,
        find_var(vars, name) is None ==> forall|k: int| 0 <= k < vars.len() ==> (#[trigger] vars[k]).name != name,
    decreases vars.len(),
{
    if vars.len() > 0 {
        let d = vars.drop_last();
        law_find_var_found(d, name);
        if let Some(i) = find_var(vars, name) {
            if i > 0 {
                assert(var_at(vars, i as int) == var_at(d, i - 1));
            }
        } else {
            assert forall|k: int| 0 <= k < vars.len() implies (#[trigger] vars[k]).name != name by {
                if k < d.len() {
                    assert(vars[k] == d[k]);
                }
            }
        }
    }
}

proof fn lemma_find_var_skip(vars: Seq<VarV>, name: Seq<char>, i: int)
    requires
        0 <= i <= vars.len(),
        forall|k: int| 0 <= k < i ==> #[trigger] var_at(vars, k).name != name,
    ensures
        find_var(vars, name) == (match find_var(vars.take(vars.len() - i), name) {
            Some(j) => Some(j + i as nat),
            None => None::<nat>,
        }),
    decreases i,
{
    if i == 0 {
        assert(vars.take(vars.len() - i) =~= vars);
    } else {
        let d = vars.drop_last();
        assert(var_at(vars, 0).name != name);
        assert forall|k: int| 0 <= k < i - 1 implies #[trigger] var_at(d, k).name != name by {
            assert(var_at(d, k) == var_at(vars, k + 1));
        }
        lemma_find_var_skip(d, name, i - 1);
        assert(d.take(d.len() - (i - 1)) =~= vars.take(vars.len() - i));
    }
}

/// The variables in scope, the innermost last.
#[derive(Debug)]
pub struct LocalContext {
    vars: Vec<Var>,
}

impl View for LocalContext {
    type V = Seq<VarV>;

    closed spec fn view(&self) -> Seq<VarV> {
        self.vars@.map_values(|v: Var| v@)
    }
}

impl Clone for LocalContext {
    fn clone(&self) -> (r: Self)
        ensures
            r@ == self@,
    {
        let mut vars: Vec<Var> = Vec::new();
        let mut i: usize = 0;
        while i < self.vars.len()
            invariant
                i <= self.vars@.len(),
                vars@.len() == i,
                forall|k: int| 0 <= k < i ==> (#[trigger] vars@[k])@ == self.vars@[k]@,
            decreases self.vars@.len() - i,
        {
            vars.push(self.vars[i].duplicate());
            i = i + 1;
        }
        let r = LocalContext { vars };
        proof {
            assert(r@ =~= self@);
        }
        r
    }
}

impl LocalContext {
    /// The context with no variables.
    pub fn new() -> (r: Self)
        ensures
            r@ == Seq::<VarV>::empty(),
    {
        let r = LocalContext { vars: Vec::new() };
        proof {
            assert(r@ =~= Seq::<VarV>::empty());
        }
        r
    }

    /// The nearest variable named `name`, with how many binders out from the
    /// innermost one it is bound.
    pub fn get(&self, name: &str) -> (r: Option<(usize, &Var)>)
        ensures
            r is Some == find_var(self@, name@) is Some,
            r matches Some((i, v)) ==> find_var(self@, name@) == Some(i as nat)
                && i < self@.len() <= usize::MAX && v@ == self@[self@.len() - 1 - i],
    {
        let ghost vars = self@;
        let n = self.vars.len();
        let mut i: usize = 0;
        while i < n
            invariant
                n == self.vars@.len(),
                vars == self@,
                i <= n,
                forall|k: int| 0 <= k < i ==> #[trigger] var_at(vars, k).name != name@,
            decreases n - i,
        {
            let v = &self.vars[n - 1 - i];
            if same_text(&v.name, name) {
                proof {
                    lemma_find_var_skip(vars, name@, i as int);
                    let t = vars.take(vars.len() - i);
                    assert(t.last() == vars[vars.len() - 1 - i]);
                }
                assert(var_at(vars, i as int) == vars[vars.len() - 1 - i]);
                return Some((i, v));
            }
            i = i + 1;
        }
        proof {
            lemma_find_var_skip(vars, name@, n as int);
            assert(vars.take(0) =~= Seq::<VarV>::empty());
        }
        None
    }

    /// Enters the scope of `entry`.
    pub fn push(&mut self, entry: Var)
        ensures
            final(self)@ == old(self)@.push(entry@),
    {
        self.vars.push(entry);
        proof {
            assert(final(self)@ =~= old(self)@.push(entry@));
        }
    }

    /// A copy of the context that has entered the scope of `entry`.
    pub fn extend(&self, entry: Var) -> (r: Self)
        ensures
            r@ == self@.push(entry@),
    {
        let mut new_context = self.clone();
        new_context.push(entry);
        new_context
    }
}

} // verus!
