use vstd::prelude::*;

verus! {

/// A byte-offset range into the source buffer, used for diagnostics and for
/// deriving composite ranges.
#[derive(Clone, Copy, PartialEq, Eq, Structural, Debug)]
pub struct Span {
    pub start: usize,
    pub end: usize,
}

/// Mathematical model of a `Span`: the same two offsets as unbounded integers.
pub ghost struct SpanView {
    pub start: int,
    pub end: int,
}

impl View for Span {
    type V = SpanView;

    open spec fn view(&self) -> SpanView {
        SpanView { start: self.start as int, end: self.end as int }
    }
}

impl Span {
    /// A well-formed span never runs backwards.
    pub open spec fn wf(self) -> bool {
        self.start <= self.end
    }
}

} // verus!
