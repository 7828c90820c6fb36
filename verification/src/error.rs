//! Errors of the lowering pass.

use vstd::prelude::*;
use crate::types::{ParseError, ParseErrorView, Span};

verus! {

/// Errors produced during the lowering pass (AST to IR).
#[derive(Debug, Clone, PartialEq)]
pub enum CompileError {
    /// A parse error propagated from the template parser.
    Parse(ParseError),
    /// An event modifier string is not a recognised modifier.
    UnknownEventModifier {
        /// The unrecognised modifier text.
        modifier: String,
        /// Byte-offset span of the directive carrying the modifier.
        span: Span,
    },
}

pub enum CompileErrorView {
    Parse(ParseErrorView),
    UnknownEventModifier { modifier: Seq<char>, span: Span },
}

impl View for CompileError {
    type V = CompileErrorView;

    open spec fn view(&self) -> CompileErrorView {
        match self {
            CompileError::Parse(e) => CompileErrorView::Parse(e@),
            CompileError::UnknownEventModifier { modifier, span } =>
                CompileErrorView::UnknownEventModifier { modifier: modifier@, span: *span },
        }
    }
}

impl CompileError {
    /// The span of an error, if it has one.
    pub open spec fn span_of(e: CompileErrorView) -> Option<Span> {
        match e {
            CompileErrorView::Parse(p) => ParseError::span_of(p),
            CompileErrorView::UnknownEventModifier { span, .. } => Some(span),
        }
    }

    /// Returns the span associated with this error, if available.
    pub fn span(&self) -> (r: Option<Span>)
        ensures
            r == Self::span_of(self@),
    {
        match self {
            CompileError::Parse(e) => e.span(),
            CompileError::UnknownEventModifier { span, .. } => Some(*span),
        }
    }
}

impl From<ParseError> for CompileError {
    /// A parse error propagated into the lowering pass.
    fn from(e: ParseError) -> (r: Self) {
        CompileError::Parse(e)
    }
}

impl vstd::std_specs::convert::FromSpecImpl<ParseError> for CompileError {
    open spec fn obeys_from_spec() -> bool {
        true
    }

    open spec fn from_spec(v: ParseError) -> CompileError {
        CompileError::Parse(v)
    }
}

} // verus!
