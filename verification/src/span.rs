use vstd::prelude::*;
use crate::text::{byte_offset, char_index_of, char_width, chars_of, is_char_offset, lemma_byte_offset_step, lemma_byte_offset_strict};
use vstd::string::StrSliceExecFns;

verus! {

/// A half-open byte range `[start, end)` within the source text.
#[derive(Debug, Clone, Copy, PartialEq, Eq, Hash, Default)]
pub struct Span {
    pub start: usize,
    pub end: usize,
}


impl Span {
    /// The span that starts at the earlier and ends at the later of two spans.
    pub open spec fn spec_merge(self, other: Span) -> Span {
        Span {
            start: if self.start <= other.start { self.start } else { other.start },
            end: if self.end >= other.end { self.end } else { other.end },
        }
    }

    /// Creates a new span.
    pub fn new(start: usize, end: usize) -> (span: Span)
        ensures
            span.start == start,
            span.end == end,
    {
        Span { start, end }
    }

    /// Returns the length of the span (zero when `end <= start`).
    pub fn len(&self) -> (length: usize)
        ensures
            length == (if self.end >= self.start { self.end - self.start } else { 0 }),
    {
        if self.end >= self.start {
            self.end - self.start
        } else {
            0
        }
    }

    /// Returns true if the span is empty.
    pub fn is_empty(&self) -> (empty: bool)
        ensures
            empty == (self.start >= self.end),
    {
        self.start >= self.end
    }

    /// Creates a span covering both spans.
    pub fn merge(self, other: Span) -> (merged: Span)
        ensures
            merged == self.spec_merge(other),
    {
        Span {
            start: if self.start <= other.start { self.start } else { other.start },
            end: if self.end >= other.end { self.end } else { other.end },
        }
    }

    /// Returns true if the position is within the span.
    pub fn contains(&self, position: usize) -> (inside: bool)
        ensures
            inside == (self.start <= position && position < self.end),
    {
        position >= self.start && position < self.end
    }

    /// Extracts the text covered by this span. Both ends must fall between
    /// characters of `source`.
    #[verifier::rlimit(30)]
    pub fn slice<'a>(&self, source: &'a str) -> (text: &'a str)
        requires
            self.start <= self.end,
            is_char_offset(source@, self.start as int),
            is_char_offset(source@, self.end as int),
        ensures
            text@ == source@.subrange(
                char_index_of(source@, self.start as int),
                char_index_of(source@, self.end as int),
            ),
    {
        let chars = chars_of(source);
        let ghost cs = source@;
        let ghost i0 = char_index_of(cs, self.start as int);
        let ghost j0 = char_index_of(cs, self.end as int);
        proof {
            if i0 > j0 {
                lemma_byte_offset_strict(cs, j0, i0);
            }
        }
        let mut index: usize = 0;
        let mut offset: usize = 0;
        let mut from: usize = 0;
        while offset < self.start
            invariant
                chars@ == cs,
                0 <= index <= i0,
                i0 <= j0 <= cs.len(),
                byte_offset(cs, i0 as int) == self.start,
                byte_offset(cs, j0 as int) == self.end,
                offset == byte_offset(cs, index as int),
            decreases i0 - index,
        {
            proof {
                assert(index < i0);
                lemma_byte_offset_step(cs, index as int);
                if index + 1 < i0 {
                    lemma_byte_offset_strict(cs, index + 1, i0);
                }
                assert(byte_offset(cs, index + 1) <= self.start);
            }
            offset = offset + char_width(chars[index]);
            index = index + 1;
        }
        proof {
            if index < i0 {
                lemma_byte_offset_strict(cs, index as int, i0);
            }
        }
        from = index;
        while offset < self.end
            invariant
                chars@ == cs,
                from <= index <= j0,
                i0 <= j0 <= cs.len(),
                byte_offset(cs, j0 as int) == self.end,
                offset == byte_offset(cs, index as int),
            decreases j0 - index,
        {
            proof {
                assert(index < j0);
                lemma_byte_offset_step(cs, index as int);
                if index + 1 < j0 {
                    lemma_byte_offset_strict(cs, index + 1, j0);
                }
                assert(byte_offset(cs, index + 1) <= self.end);
            }
            offset = offset + char_width(chars[index]);
            index = index + 1;
        }
        proof {
            if index < j0 {
                lemma_byte_offset_strict(cs, index as int, j0);
            }
        }
        source.substring_char(from, index)
    }
}

} // verus!
