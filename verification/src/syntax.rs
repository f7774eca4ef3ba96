//! The surface syntax that the parser produces and the checker elaborates,
//! with source spans for error reports: byte offsets into the line once
//! parsing is done (the grammar itself counts characters).
use vstd::prelude::*;

verus! {

/// A range of offsets in the source, `start` inclusive, `end` exclusive.
#[derive(Clone, Copy, PartialEq, Eq, Debug, Structural)]
pub struct Span {
    pub start: usize,
    pub end: usize,
}

/// A value with the span of source it came from.
#[derive(Debug)]
pub struct Spanned<T> {
    pub inner: T,
    pub span: Span,
}

/// Surface syntax of terms. Variables are referred to by name.
#[derive(Debug)]
pub enum Syntax {
    Sort { level: usize },
    Unit,
    UnitType,
    Nat { value: usize },
    NatType,
    Fun { param_name: String, param_type: Spanned<Box<Syntax>>, body: Box<Syntax> },
    Prod { param_name: String, param_type: Spanned<Box<Syntax>>, body_type: Spanned<Box<Syntax>> },
    Var { name: Spanned<String> },
    App { callee: Spanned<Box<Syntax>>, arg: Spanned<Box<Syntax>> },
    Let { name: String, value: Box<Syntax>, body: Box<Syntax> },
}

/// The model of surface syntax.
pub enum SyntaxV {
    Sort { level: usize },
    Unit,
    UnitType,
    Nat { value: usize },
    NatType,
    Fun { param_name: Seq<char>, param_type: Box<SyntaxV>, param_type_span: Span, body: Box<SyntaxV> },
    Prod {
        param_name: Seq<char>,
        param_type: Box<SyntaxV>,
        param_type_span: Span,
        body_type: Box<SyntaxV>,
        body_type_span: Span,
    },
    Var { name: Seq<char>, name_span: Span },
    App { callee: Box<SyntaxV>, callee_span: Span, arg: Box<SyntaxV>, arg_span: Span },
    Let { name: Seq<char>, value: Box<SyntaxV>, body: Box<SyntaxV> },
}

impl Syntax {
    pub open spec fn model(self) -> SyntaxV
        decreases self,
    {
        match self {
            Syntax::Sort { level } => SyntaxV::Sort { level },
            Syntax::Unit => SyntaxV::Unit,
            Syntax::UnitType => SyntaxV::UnitType,
            Syntax::Nat { value } => SyntaxV::Nat { value },
            Syntax::NatType => SyntaxV::NatType,
            Syntax::Fun { param_name, param_type, body } => SyntaxV::Fun {
                param_name: param_name@,
                param_type: Box::new((*param_type.inner).model()),
                param_type_span: param_type.span,
                body: Box::new((*body).model()),
            },
            Syntax::Prod { param_name, param_type, body_type } => SyntaxV::Prod {
                param_name: param_name@,
                param_type: Box::new((*param_type.inner).model()),
                param_type_span: param_type.span,
                body_type: Box::new((*body_type.inner).model()),
                body_type_span: body_type.span,
            },
            Syntax::Var { name } => SyntaxV::Var { name: name.inner@, name_span: name.span },
            Syntax::App { callee, arg } => SyntaxV::App {
                callee: Box::new((*callee.inner).model()),
                callee_span: callee.span,
                arg: Box::new((*arg.inner).model()),
                arg_span: arg.span,
            },
            Syntax::Let { name, value, body } => SyntaxV::Let {
                name: name@,
                value: Box::new((*value).model()),
                body: Box::new((*body).model()),
            },
        }
    }

    /// A copy of this syntax.
    pub fn duplicate(&self) -> (r: Syntax)
        ensures
            r@ == self@,
        decreases self,
    {
        match self {
            Syntax::Sort { level } => Syntax::Sort { level: *level },
            Syntax::Unit => Syntax::Unit,
            Syntax::UnitType => Syntax::UnitType,
            Syntax::Nat { value } => Syntax::Nat { value: *value },
            Syntax::NatType => Syntax::NatType,
            Syntax::Fun { param_name, param_type, body } => Syntax::Fun {
                param_name: param_name.clone(),
                param_type: Spanned { inner: Box::new((*param_type.inner).duplicate()), span: param_type.span },
                body: Box::new((**body).duplicate()),
            },
            Syntax::Prod { param_name, param_type, body_type } => Syntax::Prod {
                param_name: param_name.clone(),
                param_type: Spanned { inner: Box::new((*param_type.inner).duplicate()), span: param_type.span },
                body_type: Spanned { inner: Box::new((*body_type.inner).duplicate()), span: body_type.span },
            },
            Syntax::Var { name } => Syntax::Var { name: Spanned { inner: name.inner.clone(), span: name.span } },
            Syntax::App { callee, arg } => Syntax::App {
                callee: Spanned { inner: Box::new((*callee.inner).duplicate()), span: callee.span },
                arg: Spanned { inner: Box::new((*arg.inner).duplicate()), span: arg.span },
            },
            Syntax::Let { name, value, body } => Syntax::Let {
                name: name.clone(),
                value: Box::new((**value).duplicate()),
                body: Box::new((**body).duplicate()),
            },
        }
    }
}

impl View for Syntax {
    type V = SyntaxV;

    open spec fn view(&self) -> SyntaxV {
        self.model()
    }
}

/// Whether every universe level in the syntax has a successor in `usize`
/// (the checker needs the successor of each level it meets).
pub open spec fn syntax_within_limits(s: SyntaxV) -> bool
    decreases s,
{
    match s {
        SyntaxV::Sort { level } => level < usize::MAX,
        SyntaxV::Fun { param_type, body, .. } => syntax_within_limits(*param_type) && syntax_within_limits(*body),
        SyntaxV::Prod { param_type, body_type, .. } => syntax_within_limits(*param_type) && syntax_within_limits(*body_type),
        SyntaxV::App { callee, arg, .. } => syntax_within_limits(*callee) && syntax_within_limits(*arg),
        SyntaxV::Let { value, body, .. } => syntax_within_limits(*value) && syntax_within_limits(*body),
        _ => true,
    }
}

impl Syntax {
    /// Whether every universe level in the syntax has a successor in `usize`
    /// (the checker needs the successor of each level it meets).
    pub fn within_limits(&self) -> (b: bool)
        ensures
            b == syntax_within_limits(self@),
        decreases self,
    {
        match self {
            Syntax::Sort { level } => *level < usize::MAX,
            Syntax::Fun { param_type, body, .. } => (*param_type.inner).within_limits() && (**body).within_limits(),
            Syntax::Prod { param_type, body_type, .. } => (*param_type.inner).within_limits() && (*body_type.inner).within_limits(),
            Syntax::App { callee, arg } => (*callee.inner).within_limits() && (*arg.inner).within_limits(),
            Syntax::Let { value, body, .. } => (**value).within_limits() && (**body).within_limits(),
            _ => true,
        }
    }
}

/// A constructor of an inductive type, as written.
#[derive(Debug)]
pub struct Ctor {
    pub name: Spanned<String>,
    pub typ: Spanned<Syntax>,
}

/// The model of a constructor declaration.
pub struct CtorV {
    pub name: Seq<char>,
    pub name_span: Span,
    pub typ: SyntaxV,
    pub typ_span: Span,
}

impl View for Ctor {
    type V = CtorV;

    open spec fn view(&self) -> CtorV {
        CtorV { name: self.name.inner@, name_span: self.name.span, typ: self.typ.inner@, typ_span: self.typ.span }
    }
}

/// A command of the language.
#[derive(Debug)]
pub enum Command {
    Def { name: Spanned<String>, value: Syntax },
    Inductive { name: Spanned<String>, typ: Spanned<Syntax>, ctors: Vec<Ctor> },
}

/// The model of a command.
pub enum CommandV {
    Def { name: Seq<char>, name_span: Span, value: SyntaxV },
    Inductive { name: Seq<char>, name_span: Span, typ: SyntaxV, typ_span: Span, ctors: Seq<CtorV> },
}

impl View for Command {
    type V = CommandV;

    open spec fn view(&self) -> CommandV {
        match self {
            Command::Def { name, value } => CommandV::Def { name: name.inner@, name_span: name.span, value: value@ },
            Command::Inductive { name, typ, ctors } => CommandV::Inductive {
                name: name.inner@,
                name_span: name.span,
                typ: typ.inner@,
                typ_span: typ.span,
                ctors: ctors@.map_values(|c: Ctor| c@),
            },
        }
    }
}

/// Whether every universe level in a command has a successor in `usize`,
/// and an inductive type has fewer than `usize::MAX` constructors (its
/// recursor refers to the binder one past them).
pub open spec fn command_within_limits(c: CommandV) -> bool {
    match c {
        CommandV::Def { value, .. } => syntax_within_limits(value),
        CommandV::Inductive { typ, ctors, .. } => syntax_within_limits(typ) && ctors.len() < usize::MAX
            && forall|i: int| 0 <= i < ctors.len() ==> syntax_within_limits(#[trigger] ctors[i].typ),
    }
}

fn ctors_within_limits(ctors: &Vec<Ctor>) -> (b: bool)
    ensures
        b == forall|i: int| 0 <= i < ctors@.len() ==> syntax_within_limits((#[trigger] ctors@[i])@.typ),
{
    let mut i: usize = 0;
    while i < ctors.len()
        invariant
            i <= ctors@.len(),
            forall|k: int| 0 <= k < i ==> syntax_within_limits((#[trigger] ctors@[k])@.typ),
        decreases ctors@.len() - i,
    {
        if !ctors[i].typ.inner.within_limits() {
            return false;
        }
        i = i + 1;
    }
    true
}

impl Command {
    /// Whether every universe level in the command has a successor in
    /// `usize`, and an inductive type has fewer than `usize::MAX` constructors.
    pub fn within_limits(&self) -> (b: bool)
        ensures
            b == command_within_limits(self@),
    {
        match self {
            Command::Def { value, .. } => value.within_limits(),
            Command::Inductive { typ, ctors, .. } => {
                let fits = typ.inner.within_limits() && ctors.len() < usize::MAX && ctors_within_limits(ctors);
                proof {
                    let cs = ctors@.map_values(|c: Ctor| c@);
                    assert(forall|k: int| 0 <= k < cs.len() ==> #[trigger] cs[k] == ctors@[k]@);
                    if fits {
                        assert forall|i: int| 0 <= i < cs.len() implies syntax_within_limits(#[trigger] cs[i].typ) by {
                            assert(cs[i] == ctors@[i]@);
                        }
                    } else if syntax_within_limits(typ.inner@) && ctors@.len() < usize::MAX {
                        let i = choose|i: int| 0 <= i < ctors@.len() && !syntax_within_limits((#[trigger] ctors@[i])@.typ);
                        assert(cs[i] == ctors@[i]@);
                    }
                }
                fits
            },
        }
    }
}

} // verus!
