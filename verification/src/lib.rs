//! A source-to-source rewriter that makes "synthetic promises" transparently
//! awaited: it walks a parsed syntax tree of a script, collects a list of
//! offset-anchored text insertions into the original source buffer, orders
//! them deterministically, and streams the merged output.

pub mod driver;
pub mod insertion;
pub mod laws;
pub mod rules;
pub mod text;
pub mod tree;

use vstd::prelude::*;

verus! {

/// A half-open byte range `[start, end)` into the original source buffer.
#[derive(Clone, Copy, PartialEq, Eq, Structural, Debug)]
pub struct Span {
    pub start: usize,
    pub end: usize,
}

impl Span {
    /// A span is valid for a buffer of length `len` when it is well ordered
    /// and lies inside the buffer.
    pub open spec fn valid(self, len: nat) -> bool {
        self.start <= self.end <= len
    }

    pub fn new(start: usize, end: usize) -> (r: Span)
        ensures
            r.start == start,
            r.end == end,
    {
        Span { start, end }
    }
}

/// How much tracing the rewriter embeds in its output.
#[derive(Clone, Copy, PartialEq, Eq, Structural, Debug)]
pub enum DebugLevel {
    /// No tracing.
    Off,
    /// A comment naming each node's category at the node's start.
    TypesOnly,
    /// Additionally, a trace comment around every emitted insertion.
    Verbose,
}

impl DebugLevel {
    /// Node-category comments are emitted.
    pub open spec fn spec_shows_types(self) -> bool {
        self is TypesOnly || self is Verbose
    }

    /// Per-insertion trace comments are emitted.
    pub open spec fn spec_shows_trace(self) -> bool {
        self is Verbose
    }

    /// Executable mirror of `spec_shows_types`.
    pub fn shows_types(&self) -> (r: bool)
        ensures
            r == self.spec_shows_types(),
    {
        match self {
            DebugLevel::Off => false,
            DebugLevel::TypesOnly => true,
            DebugLevel::Verbose => true,
        }
    }

    /// Executable mirror of `spec_shows_trace`.
    pub fn shows_trace(&self) -> (r: bool)
        ensures
            r == self.spec_shows_trace(),
    {
        match self {
            DebugLevel::Off => false,
            DebugLevel::TypesOnly => false,
            DebugLevel::Verbose => true,
        }
    }
}

/// The ways a rewrite can fail on a structurally surprising tree.
#[derive(Clone, Copy, PartialEq, Eq, Structural, Debug)]
pub enum RewriteError {
    /// A function declaration or expression without a body.
    FunctionWithoutBody,
    /// The node list is not a well-formed preorder tree over the source.
    MalformedTree,
}

impl RewriteError {
    /// A short diagnostic string.
    pub fn message(&self) -> &'static str {
        match self {
            RewriteError::FunctionWithoutBody => "bad FnDecl without body",
            RewriteError::MalformedTree => "malformed syntax tree",
        }
    }
}

} // verus!
