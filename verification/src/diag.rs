//! Source positions and diagnostics.
use vstd::prelude::*;

verus! {

/// Offset of a byte within the UTF-8 encoding of a source text.
#[derive(Copy, Clone, PartialEq, Eq, Structural, PartialOrd, Ord, Debug)]
pub struct BytePos(pub u32);

impl BytePos {
    pub fn index(self) -> (r: usize)
        ensures
            r == self.0,
    {
        self.0 as usize
    }
}

/// A range of bytes `start..end` of a source text.
#[derive(Copy, Clone, PartialEq, Eq, Structural, Debug)]
pub struct Span {
    pub start: BytePos,
    pub end: BytePos,
}

impl Span {
    /// A span whose start does not come after its end.
    pub open spec fn wf(self) -> bool {
        self.start.0 <= self.end.0
    }

    pub fn new(start: BytePos, end: BytePos) -> (r: Span)
        requires
            start.0 <= end.0,
        ensures
            r.start == start,
            r.end == end,
            r.wf(),
    {
        Span { start, end }
    }

    pub fn empty(position: BytePos) -> (r: Span)
        ensures
            r.start == position,
            r.end == position,
            r.wf(),
    {
        Span::new(position, position)
    }

    pub fn start(self) -> (r: BytePos)
        ensures
            r == self.start,
    {
        self.start
    }

    pub fn end(self) -> (r: BytePos)
        ensures
            r == self.end,
    {
        self.end
    }

    /// The span from the start of `self` to the end of `other`.
    pub fn chain(self, other: Span) -> (r: Span)
        requires
            self.start.0 <= other.end.0,
        ensures
            r.start == self.start,
            r.end == other.end,
            r.wf(),
    {
        Span::new(self.start, other.end)
    }
}

/// A message attached to a location in the source text.
#[derive(Clone, Debug)]
pub struct Diagnostic {
    message: String,
    location: Span,
}

impl Diagnostic {
    pub closed spec fn spec_message(&self) -> Seq<char> {
        self.message@
    }

    pub closed spec fn spec_location(&self) -> Span {
        self.location
    }

    pub fn new(message: String, location: Span) -> (r: Diagnostic)
        ensures
            r.spec_message() == message@,
            r.spec_location() == location,
    {
        Diagnostic { message, location }
    }

    /// A diagnostic with the same message and location.
    pub fn duplicate(&self) -> (r: Diagnostic)
        ensures
            r.spec_message() == self.spec_message(),
            r.spec_location() == self.spec_location(),
    {
        Diagnostic { message: self.message.as_str().to_owned(), location: self.location }
    }

    pub fn message(&self) -> (r: &str)
        ensures
            r@ == self.spec_message(),
    {
        self.message.as_str()
    }

    pub fn location(&self) -> (r: Span)
        ensures
            r == self.spec_location(),
    {
        self.location
    }
}

} // verus!
