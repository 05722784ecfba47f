//! A bare diagnostic record, with no formatter attached.
use crate::span::Span;
use vstd::prelude::*;

verus! {

/// How grave a bare diagnostic is.
#[derive(Debug, Clone, Copy, PartialEq, Eq, Structural)]
pub enum Severity {
    Error,
}

/// A message about a span of the source.
pub struct Diagnostics {
    pub message: String,
    pub span: Span,
    pub severity: Severity,
}

} // verus!
