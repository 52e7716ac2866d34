//! Source positions: byte ranges inside one source text.
use vstd::prelude::*;

verus! {

/// Identifies which source text a span points into.
pub type SourceId = usize;

/// A value together with the source range it was read from.
#[derive(Clone, Debug, PartialEq)]
pub struct Spanned<T> {
    pub item: T,
    pub span: Span,
}

impl<T: View> View for Spanned<T> {
    type V = Spanned<T::V>;

    open spec fn view(&self) -> Spanned<T::V> {
        Spanned { item: self.item@, span: self.span }
    }
}

/// A half-open byte range `start..end` of the source text `source_id`.
#[derive(Clone, Copy, Debug, PartialEq, Eq, Structural, PartialOrd, Ord)]
pub struct Span {
    pub source_id: SourceId,
    pub start: usize,
    pub end: usize,
}

/// The span that stands for "no position": source 0, empty range at 0.
pub open spec fn garbage_span() -> Span {
    Span { source_id: 0, start: 0, end: 0 }
}

/// The span covering a list of spans: empty list gives the garbage span, one span
/// gives itself, otherwise the source and start of the first and the end of the last.
pub open spec fn combined_span(spans: Seq<Span>) -> Span {
    if spans.len() == 0 {
        garbage_span()
    } else if spans.len() == 1 {
        spans[0]
    } else {
        Span {
            source_id: spans[0].source_id,
            start: spans[0].start,
            end: spans[spans.len() - 1].end,
        }
    }
}

impl Span {
    pub fn new(source_id: SourceId, start: usize, end: usize) -> (s: Self)
        ensures
            s == (Span { source_id, start, end }),
    {
        Span { source_id, start, end }
    }

    pub fn garbage() -> (s: Self)
        ensures
            s == garbage_span(),
    {
        Span { source_id: 0, start: 0, end: 0 }
    }

    pub fn combine(spans: &[Span]) -> (s: Self)
        ensures
            s == combined_span(spans@),
    {
        let length = spans.len();
        if length == 0 {
            Span::garbage()
        } else if length == 1 {
            spans[0]
        } else {
            Span {
                source_id: spans[0].source_id,
                start: spans[0].start,
                end: spans[length - 1].end,
            }
        }
    }

    /// Moves the span `offset` bytes towards the start of the text.
    pub fn offset(&self, offset: usize) -> (s: Self)
        requires
            offset <= self.start,
            offset <= self.end,
        ensures
            s == (Span {
                source_id: self.source_id,
                start: (self.start - offset) as usize,
                end: (self.end - offset) as usize,
            }),
    {
        Span { source_id: self.source_id, start: self.start - offset, end: self.end - offset }
    }

    pub fn contains(&self, pos: usize) -> (b: bool)
        ensures
            b == (self.start <= pos && pos < self.end),
    {
        pos >= self.start && pos < self.end
    }

    /// The empty span just past the end of this one.
    pub fn past(&self) -> (s: Span)
        ensures
            s == (Span { source_id: self.source_id, start: self.end, end: self.end }),
    {
        Span { source_id: self.source_id, start: self.end, end: self.end }
    }
}

} // verus!
