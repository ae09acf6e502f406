//! The subtitle segment type and its mathematical model.
use vstd::prelude::*;
use crate::text::chars_of;

verus! {

/// One subtitle: a time span in microseconds and its text.
#[derive(Debug, Clone, PartialEq)]
pub struct Segment {
    /// Start time in microseconds.
    pub start: i64,
    /// End time in microseconds.
    pub end: i64,
    pub text: String,
}

/// The mathematical model of a segment.
pub struct Cue {
    pub start: int,
    pub end: int,
    pub text: Seq<char>,
}

impl View for Segment {
    type V = Cue;

    open spec fn view(&self) -> Cue {
        Cue { start: self.start as int, end: self.end as int, text: self.text@ }
    }
}

/// The models of a sequence of segments.
pub open spec fn cues(s: Seq<Segment>) -> Seq<Cue> {
    s.map_values(|g: Segment| g@)
}

/// Every start and end time lies within `[-bound, bound]`.
pub open spec fn times_within(s: Seq<Cue>, bound: int) -> bool {
    forall|i: int|
        0 <= i < s.len() ==> -bound <= #[trigger] s[i].start <= bound && -bound <= s[i].end
            <= bound
}

impl Segment {
    pub fn new(start: i64, end: i64, text: String) -> (s: Segment)
        ensures
            s.start == start,
            s.end == end,
            s.text@ == text@,
    {
        Segment { start, end, text }
    }

    /// Length of the segment in microseconds (`end - start`).
    pub fn duration(&self) -> (d: i128)
        ensures
            d == self.end - self.start,
    {
        (self.end as i128) - (self.start as i128)
    }

    /// Number of characters of the text.
    pub fn char_count(&self) -> (n: usize)
        ensures
            n == self.text@.len(),
    {
        chars_of(self.text.as_str()).len()
    }

    /// A copy with the same times and text.
    pub fn duplicate(&self) -> (s: Segment)
        ensures
            s@ == self@,
    {
        Segment { start: self.start, end: self.end, text: self.text.clone() }
    }
}

} // verus!
