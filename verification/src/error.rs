//! The error type of the crate: a message and an optional byte range.
use vstd::prelude::*;

verus! {

/// A byte range `start..end` in the parsed input.
#[derive(Clone, Copy, Debug, PartialEq, Eq, Structural)]
pub struct Span {
    pub start: usize,
    pub end: usize,
}

/// A deserialization error: a human readable message and, where known,
/// the byte range of the input it is about.
#[derive(Debug)]
pub struct Error {
    pub message: String,
    pub span: Option<Span>,
}

impl Error {
    /// Creates an error with the given message and span.
    pub fn custom(message: String, span: Option<Span>) -> (e: Error)
        ensures
            e.message@ == message@,
            e.span == span,
    {
        Error { message, span }
    }

    /// The span of the error, if one is known.
    pub fn span(&self) -> (s: Option<Span>)
        ensures
            s == self.span,
    {
        self.span
    }

    /// Replaces the span of the error.
    pub fn set_span(&mut self, span: Option<Span>)
        ensures
            final(self).span == span,
            final(self).message@ == old(self).message@,
    {
        self.span = span;
    }

    /// Gives the error the span `span` when it has none yet; an error that
    /// already points somewhere keeps its span.
    pub fn or_span(self, span: Span) -> (e: Error)
        ensures
            e.message@ == self.message@,
            e.span == (match self.span {
                Some(s) => Some(s),
                None => Some(span),
            }),
    {
        let mut e = self;
        if e.span().is_none() {
            e.set_span(Some(span));
        }
        e
    }
}

} // verus!
