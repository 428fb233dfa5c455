//! Cursors into a source text and the byte ranges cut out of it.

use vstd::prelude::*;
use vstd::string::StringSliceAdditionalSpecFns;

verus! {

/// A position in a source text: the text and a byte offset into it.
///
/// A cursor is a value; moving it makes a new cursor and leaves the old one
/// as it was.
#[derive(Clone, Copy, Debug, PartialEq, Eq)]
pub struct Input<'a> {
    pub source: &'a str,
    pub offset: usize,
}

impl<'a> Input<'a> {
    /// A cursor at the start of `source`.
    pub fn new(source: &'a str) -> (input: Self)
        ensures
            input.source == source,
            input.offset == 0,
    {
        Input { source, offset: 0 }
    }

    /// The cursor `n` bytes further on in the same text.
    pub fn advance(self, n: usize) -> (moved: Self)
        requires
            self.offset + n <= usize::MAX,
        ensures
            moved.source == self.source,
            moved.offset == self.offset + n,
    {
        Input { source: self.source, offset: self.offset + n }
    }
}

/// What a span is, as plain values: the text it lies in and the byte range
/// `start..end` it covers.
pub struct SpanView {
    pub source: Seq<char>,
    pub start: int,
    pub end: int,
}

/// A byte range of a source text: `start` is the first byte in it, `end` the
/// first byte after it.
#[derive(Clone, Copy, Debug, PartialEq, Eq)]
pub struct Span<'a> {
    source: &'a str,
    start: usize,
    end: usize,
}

impl<'a> View for Span<'a> {
    type V = SpanView;

    closed spec fn view(&self) -> SpanView {
        SpanView { source: self.source@, start: self.start as int, end: self.end as int }
    }
}

impl<'a> Span<'a> {
    #[verifier::type_invariant]
    spec fn within_source(self) -> bool {
        self.start <= self.end <= self.source.spec_bytes().len()
    }

    /// The span `start..end` of `source`.
    pub fn new(source: &'a str, start: usize, end: usize) -> (span: Self)
        requires
            start <= end <= source.spec_bytes().len(),
        ensures
            span@ == (SpanView { source: source@, start: start as int, end: end as int }),
    {
        Span { source, start, end }
    }

    /// The text the span lies in.
    pub fn source(&self) -> (source: &'a str)
        ensures
            source@ == self@.source,
    {
        self.source
    }

    /// The offset of the first byte of the span.
    pub fn start(&self) -> (start: usize)
        ensures
            start == self@.start,
    {
        self.start
    }

    /// The offset of the first byte after the span.
    pub fn end(&self) -> (end: usize)
        ensures
            end == self@.end,
    {
        self.end
    }

    /// The number of bytes in the span. A span never ends before it starts,
    /// nor after the end of its text.
    pub fn len(&self) -> (len: usize)
        ensures
            len == self@.end - self@.start,
            0 <= self@.start <= self@.end <= vstd::utf8::encode_utf8(self@.source).len(),
    {
        proof {
            use_type_invariant(self);
        }
        self.end - self.start
    }
}

} // verus!
