use vstd::prelude::*;
use vstd::utf8::*;
use vstd::string::StringSliceAdditionalSpecFns;
use std::ops::Range;

verus! {

/// A range of byte offsets into a source file.
#[derive(Debug, Clone, Copy, PartialEq, Eq, Structural)]
pub struct Span {
    pub start: usize,
    pub end: usize,
}

/// A span together with the file it belongs to.
#[derive(Debug, Copy, Clone)]
pub struct Loc {
    pub span: Span,
    pub file: usize,
}

/// The smaller of two offsets.
pub open spec fn min_offset(a: usize, b: usize) -> usize {
    if a <= b { a } else { b }
}

/// The larger of two offsets.
pub open spec fn max_offset(a: usize, b: usize) -> usize {
    if a >= b { a } else { b }
}

/// The smallest span covering both `left` and `right`.
pub open spec fn spec_combine(left: Span, right: Span) -> Span {
    Span { start: min_offset(left.start, right.start), end: max_offset(left.end, right.end) }
}

/// The span that covers nothing: combining with it changes no span.
pub open spec fn spec_default_span() -> Span {
    Span { start: usize::MAX, end: 0 }
}

impl Span {
    pub fn new(start: usize, end: usize) -> (s: Self)
        ensures
            s.start == start,
            s.end == end,
    {
        Self { start, end }
    }

    pub fn at(pos: usize) -> (s: Self)
        ensures
            s.start == pos,
            s.end == pos,
    {
        Self { start: pos, end: pos }
    }

    pub fn wrap(self, file: usize) -> (l: Loc)
        ensures
            l.span == self,
            l.file == file,
    {
        Loc::new(self, file)
    }

    pub fn combine(left: Self, right: Self) -> (s: Self)
        ensures
            s == spec_combine(left, right),
    {
        Self {
            start: if left.start <= right.start { left.start } else { right.start },
            end: if left.end >= right.end { left.end } else { right.end },
        }
    }

    /// The text of `source` that this span covers; its ends must lie on
    /// character boundaries of `source`.
    pub fn lexeme<'a>(&self, source: &'a str) -> (text: &'a str)
        requires
            self.start <= self.end <= source.spec_bytes().len(),
            is_char_boundary(source.spec_bytes(), self.start as int),
            is_char_boundary(source.spec_bytes(), self.end as int),
        ensures
            text.spec_bytes() == source.spec_bytes().subrange(self.start as int, self.end as int),
    {
        proof {
            encode_utf8_valid_utf8(source@);
        }
        let (before_end, _) = source.split_at(self.end);
        proof {
            lemma_char_boundary_in_prefix(source.spec_bytes(), self.end as int, self.start as int);
        }
        let (_, text) = before_end.split_at(self.start);
        proof {
            assert(text.spec_bytes() =~= source.spec_bytes().subrange(self.start as int, self.end as int));
        }
        text
    }
}

impl Default for Span {
    fn default() -> (s: Self)
        ensures
            s == spec_default_span(),
    {
        Self { start: usize::MAX, end: 0 }
    }
}

impl From<Span> for Range<usize> {
    fn from(val: Span) -> (r: Self) {
        val.start..val.end
    }
}

impl vstd::std_specs::convert::FromSpecImpl<Span> for Range<usize> {
    open spec fn obeys_from_spec() -> bool {
        true
    }

    open spec fn from_spec(val: Span) -> Range<usize> {
        Range { start: val.start, end: val.end }
    }
}

impl From<Range<usize>> for Span {
    fn from(value: Range<usize>) -> (s: Self) {
        Self { start: value.start, end: value.end }
    }
}

impl vstd::std_specs::convert::FromSpecImpl<Range<usize>> for Span {
    open spec fn obeys_from_spec() -> bool {
        true
    }

    open spec fn from_spec(value: Range<usize>) -> Span {
        Span { start: value.start, end: value.end }
    }
}

/// A span turned into a range and back is the span it was.
pub proof fn lemma_range_roundtrip(s: Span)
    ensures
        <Span as vstd::std_specs::convert::FromSpec<Range<usize>>>::from_spec(
            <Range<usize> as vstd::std_specs::convert::FromSpec<Span>>::from_spec(s),
        ) == s,
{
}

/// A character boundary of a valid UTF-8 sequence that lies before a
/// boundary `end` is also a character boundary of the prefix ending at `end`.
proof fn lemma_char_boundary_in_prefix(bytes: Seq<u8>, end: int, start: int)
    requires
        valid_utf8(bytes),
        0 <= start <= end <= bytes.len(),
        is_char_boundary(bytes, end),
        is_char_boundary(bytes, start),
    ensures
        valid_utf8(bytes.subrange(0, end)),
        is_char_boundary(bytes.subrange(0, end), start),
{
    let prefix = bytes.subrange(0, end);
    valid_utf8_split(bytes, end);
    if start == end {
        is_char_boundary_start_end_of_seq(prefix);
    } else {
        is_char_boundary_iff_not_is_continuation_byte(bytes, start);
        is_char_boundary_iff_not_is_continuation_byte(prefix, start);
    }
}

/// Combining spans does not depend on the order of the two.
pub proof fn lemma_combine_commutative(a: Span, b: Span)
    ensures
        spec_combine(a, b) == spec_combine(b, a),
{
}

/// Combining spans does not depend on how a run of combinations is grouped.
pub proof fn lemma_combine_associative(a: Span, b: Span, c: Span)
    ensures
        spec_combine(spec_combine(a, b), c) == spec_combine(a, spec_combine(b, c)),
{
}

/// Combining a span with itself gives it back.
pub proof fn lemma_combine_idempotent(a: Span)
    ensures
        spec_combine(a, a) == a,
{
}

/// The default span is neutral: combining it with any span gives that span.
pub proof fn lemma_default_span_neutral(a: Span)
    ensures
        spec_combine(spec_default_span(), a) == a,
        spec_combine(a, spec_default_span()) == a,
{
}

/// A combined span starts no later and ends no earlier than either part.
pub proof fn lemma_combine_covers(a: Span, b: Span)
    ensures
        spec_combine(a, b).start <= a.start,
        spec_combine(a, b).start <= b.start,
        spec_combine(a, b).end >= a.end,
        spec_combine(a, b).end >= b.end,
{
}

impl Loc {
    pub fn new(span: Span, file: usize) -> (l: Self)
        ensures
            l.span == span,
            l.file == file,
    {
        Self { span, file }
    }
}

} // verus!
