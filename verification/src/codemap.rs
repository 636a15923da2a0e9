//! Source text, spans, and spanned nodes.
//!
//! A [`Span`] is a half-open range of character positions into one
//! [`Source`]; a [`Spanned`] node pairs a value with the span it was read
//! from.  Every syntax-tree node and every error value produced by this
//! crate is a `Spanned` node whose span indexes the source it came from.

use vstd::prelude::*;

verus! {

/// Source code.
///
/// An owned copy of one line (or buffer) of input text.  Its view is the
/// sequence of characters of the text; spans index that sequence.
pub struct Source {
    text: String,
}

impl View for Source {
    type V = Seq<char>;

    closed spec fn view(&self) -> Seq<char> {
        self.text@
    }
}

impl Source {
    /// Treats the input string as source code.
    pub fn new(input: &str) -> (source: Source)
        ensures
            source@ == input@,
    {
        Source { text: input.to_owned() }
    }

    /// Views the source code as a string slice.
    pub fn as_str(&self) -> (s: &str)
        ensures
            s@ == self@,
    {
        self.text.as_str()
    }

    /// The number of characters of the source.
    pub fn len(&self) -> (n: usize)
        ensures
            n == self@.len(),
    {
        self.text.as_str().unicode_len()
    }

    /// The text under `span`.
    pub fn slice(&self, span: Span) -> (s: &str)
        requires
            span.lo <= span.hi <= self@.len(),
        ensures
            s@ == self@.subrange(span.lo as int, span.hi as int),
    {
        self.text.as_str().substring_char(span.lo, span.hi)
    }
}

/// A half-open range `[lo, hi)` of character positions into one [`Source`].
#[derive(Clone, Copy, Debug, PartialEq, Eq, Structural)]
pub struct Span {
    /// Start of the span.
    pub lo: usize,
    /// End of the span.
    pub hi: usize,
}

impl Span {
    /// A span is well formed for a source of `len` characters when it is
    /// a non-reversed range that stays inside the source.
    pub open spec fn wf(self, len: nat) -> bool {
        self.lo <= self.hi <= len
    }

    /// Creates a new span from `lo` to `hi`.
    pub fn new(lo: usize, hi: usize) -> (span: Span)
        ensures
            span.lo == lo,
            span.hi == hi,
    {
        Span { lo, hi }
    }

    /// The "dummy" span: a pre-initialization placeholder that must never
    /// be used for indexing and never reach a rendered diagnostic.
    pub fn dummy() -> (span: Span)
        ensures
            span.lo == 0,
            span.hi == 0,
    {
        Span { lo: 0, hi: 0 }
    }
}

/// A spanned node: a value paired with the span it was read from.
#[derive(Clone, Copy, Debug)]
pub struct Spanned<T> {
    /// The node.
    pub node: T,
    /// The span.
    pub span: Span,
}

impl<T> Spanned<T> {
    /// Creates a spanned node covering `[lo, hi)`.
    pub fn new(lo: usize, hi: usize, node: T) -> (spanned: Spanned<T>)
        ensures
            spanned.span.lo == lo,
            spanned.span.hi == hi,
            spanned.node == node,
    {
        Spanned { span: Span { lo, hi }, node }
    }

    /// Maps the spanned node while retaining the span.
    pub fn map<B, F: FnOnce(T) -> B>(self, f: F) -> (r: Spanned<B>)
        requires
            call_requires(f, (self.node,)),
        ensures
            r.span == self.span,
            call_ensures(f, (self.node,), r.node),
    {
        Spanned { span: self.span, node: f(self.node) }
    }
}

} // verus!
