//! Errors reported to the user: a span of the source and a message.
use vstd::prelude::*;

use crate::syntax::Span;

verus! {

/// An error at a span of the source.
#[derive(Debug)]
pub struct Error {
    pub span: Span,
    pub message: String,
}

/// The model of an error.
pub struct ErrorV {
    pub span: Span,
    pub message: Seq<char>,
}

impl View for Error {
    type V = ErrorV;

    open spec fn view(&self) -> ErrorV {
        ErrorV { span: self.span, message: self.message@ }
    }
}

/// The result of a step that can fail with errors.
pub type Result<T> = std::result::Result<T, Vec<Error>>;

/// The model of a list of errors.
pub open spec fn errors_view(es: Seq<Error>) -> Seq<ErrorV> {
    es.map_values(|e: Error| e@)
}

/// The single error `e`, as the checker reports it.
pub open spec fn just_error(es: Vec<Error>, e: ErrorV) -> bool {
    errors_view(es@) == seq![e]
}

/// A list that holds the one error `span`, `message`.
pub fn single_error(span: Span, message: String) -> (r: Vec<Error>)
    ensures
        just_error(r, ErrorV { span, message: message@ }),
{
    let mut r: Vec<Error> = Vec::new();
    r.push(Error { span, message });
    proof {
        assert(errors_view(r@) =~= seq![ErrorV { span, message: message@ }]);
    }
    r
}

} // verus!
