//! Errors of the parser.
use vstd::prelude::*;

verus! {

/// A stretch of a source text: offset and length in bytes.
#[derive(Debug, Clone, Copy, PartialEq, Eq, Structural)]
pub struct SourceSpan {
    pub offset: usize,
    pub len: usize,
}

/// Why a text could not be parsed, and where.
#[derive(Debug)]
pub struct ParseError {
    pub span: SourceSpan,
    pub msg: String,
}

/// The contents of a [`ParseError`].
pub struct ParseErrorView {
    pub span: SourceSpan,
    pub msg: Seq<char>,
}

impl ParseError {
    pub open spec fn view(&self) -> ParseErrorView {
        ParseErrorView { span: self.span, msg: self.msg@ }
    }

    /// An error at a place.
    pub fn new(span: SourceSpan, msg: String) -> (r: Self)
        ensures
            r@ == (ParseErrorView { span, msg: msg@ }),
    {
        ParseError { span, msg }
    }

    /// What the error says.
    pub fn message(&self) -> (r: &str)
        ensures
            r@ == self@.msg,
    {
        self.msg.as_str()
    }
}

} // verus!
