//! Transcript segments: parsing raw transcriber output into timed segments and
//! removing duplicate lines, first occurrence kept.

use vstd::prelude::*;
use crate::normalize::{normalize, normalized};
use crate::text::{
    lemma_nonblank_lines_nonempty, nonblank_line_count, nonblank_lines, nonblank_lines_of, views,
};

verus! {

/// The time that each transcript line is given, in milliseconds.
pub const LINE_DURATION_MS: u32 = 3000;

/// One timed line of transcript text, with its translation once one is made.
pub struct Segment {
    pub start_ms: u32,
    pub end_ms: u32,
    pub text: String,
    pub translation: Option<String>,
}

impl Segment {
    /// A segment with no translation yet.
    pub fn new(start_ms: u32, end_ms: u32, text: String) -> (r: Segment)
        ensures
            r.start_ms == start_ms,
            r.end_ms == end_ms,
            r.text == text,
            r.translation is None,
    {
        Segment { start_ms, end_ms, text, translation: None }
    }

    /// A segment equal to this one.
    pub fn duplicate(&self) -> (r: Segment)
        ensures
            r == *self,
    {
        let translation = match &self.translation {
            Some(t) => Some(t.clone()),
            None => None,
        };
        Segment {
            start_ms: self.start_ms,
            end_ms: self.end_ms,
            text: self.text.clone(),
            translation,
        }
    }
}

/// `segs` are the segments made from the transcript lines `lines`: line `i`
/// covers `[3000 i, 3000 (i + 1))` and has no translation.
pub open spec fn timed_lines(segs: Seq<Segment>, lines: Seq<Seq<char>>) -> bool {
    &&& segs.len() == lines.len()
    &&& forall|i: int|
        0 <= i < segs.len() ==> {
            &&& (#[trigger] segs[i]).text@ == lines[i]
            &&& segs[i].start_ms == 3000 * i
            &&& segs[i].end_ms == 3000 * (i + 1)
            &&& segs[i].translation is None
        }
}

/// Whether the segments of `text` all end within the range of `u32`.
pub open spec fn fits_timeline(text: Seq<char>) -> bool {
    nonblank_lines(text).len() * 3000 <= u32::MAX
}

/// The number of segments that `text` parses into.
pub fn segment_count(text: &str) -> (n: usize)
    ensures
        n == nonblank_lines(text@).len(),
{
    nonblank_line_count(text)
}

/// The segments of raw transcript text: one per non-blank line, trimmed, in
/// order, each given 3000 ms on a clock that starts at 0.
pub fn parse_text_to_segments(text: &str) -> (r: Vec<Segment>)
    requires
        fits_timeline(text@),
    ensures
        timed_lines(r@, nonblank_lines(text@)),
        forall|i: int| 0 <= i < r.len() ==> (#[trigger] r@[i]).text@.len() > 0,
{
    proof {
        lemma_nonblank_lines_nonempty(text@);
    }
    let lines = nonblank_lines_of(text);
    let ghost ls = nonblank_lines(text@);
    let mut segments: Vec<Segment> = Vec::new();
    let mut start: u32 = 0;
    let mut i: usize = 0;
    while i < lines.len()
        invariant
            i <= lines.len(),
            views(lines@) == ls,
            ls.len() * 3000 <= u32::MAX,
            start == 3000 * i,
            segments.len() == i,
            forall|k: int|
                0 <= k < i ==> {
                    &&& (#[trigger] segments@[k]).text@ == ls[k]
                    &&& segments@[k].start_ms == 3000 * k
                    &&& segments@[k].end_ms == 3000 * (k + 1)
                    &&& segments@[k].translation is None
                },
        decreases lines.len() - i,
    {
        assert(views(lines@)[i as int] == lines@[i as int]@);
        let end = start + LINE_DURATION_MS;
        segments.push(Segment::new(start, end, lines[i].clone()));
        start = end;
        i = i + 1;
    }
    segments
}

/// Why a transcript yields no segments.
#[derive(PartialEq, Eq, Structural, Debug, Clone, Copy)]
pub enum TranscriptError {
    /// It has no non-blank line.
    Empty,
    /// Its segments would end past the range of `u32` milliseconds.
    TooLong,
}

/// The segments of raw transcript text; an empty transcript, or one too
/// long for the millisecond clock, is refused.
pub fn transcript_segments(text: &str) -> (r: Result<Vec<Segment>, TranscriptError>)
    ensures
        nonblank_lines(text@).len() == 0 <==> r == Err::<Vec<Segment>, TranscriptError>(
            TranscriptError::Empty,
        ),
        nonblank_lines(text@).len() > 0 && !fits_timeline(text@) <==> r == Err::<
            Vec<Segment>,
            TranscriptError,
        >(TranscriptError::TooLong),
        r matches Ok(v) ==> timed_lines(v@, nonblank_lines(text@)),
{
    let n = segment_count(text);
    if n == 0 {
        return Err(TranscriptError::Empty);
    }
    if n > 1431655 {
        return Err(TranscriptError::TooLong);
    }
    Ok(parse_text_to_segments(text))
}

// ---------------------------------------------------------- deduplication

/// The dedup key of a segment.
pub open spec fn key_of(s: Segment) -> Seq<char> {
    normalized(s.text@)
}

/// Whether some segment of `d` has key `k`.
pub open spec fn has_key(d: Seq<Segment>, k: Seq<char>) -> bool {
    exists|j: int| 0 <= j < d.len() && key_of(#[trigger] d[j]) == k
}

/// `segs` with every segment whose key an earlier segment has left out; the
/// segments kept are unchanged and in their order.
pub open spec fn dedup(segs: Seq<Segment>) -> Seq<Segment>
    decreases segs.len(),
{
    if segs.len() == 0 {
        Seq::empty()
    } else {
        let d = dedup(segs.drop_last());
        if has_key(d, key_of(segs.last())) {
            d
        } else {
            d.push(segs.last())
        }
    }
}

/// No two segments of `segs` have the same key.
pub open spec fn distinct_keys(segs: Seq<Segment>) -> bool {
    forall|i: int, j: int|
        0 <= i < j < segs.len() ==> key_of(#[trigger] segs[i]) != key_of(#[trigger] segs[j])
}

proof fn lemma_dedup_distinct(segs: Seq<Segment>)
    ensures
        distinct_keys(dedup(segs)),
    decreases segs.len(),
{
    if segs.len() > 0 {
        lemma_dedup_distinct(segs.drop_last());
        let d = dedup(segs.drop_last());
        if !has_key(d, key_of(segs.last())) {
            let e = d.push(segs.last());
            assert forall|i: int, j: int| 0 <= i < j < e.len() implies key_of(#[trigger] e[i])
                != key_of(#[trigger] e[j]) by {
                if j == d.len() {
                    assert(e[i] == d[i]);
                }
            }
        }
    }
}

proof fn lemma_dedup_of_distinct(segs: Seq<Segment>)
    requires
        distinct_keys(segs),
    ensures
        dedup(segs) == segs,
    decreases segs.len(),
{
    if segs.len() > 0 {
        let init = segs.drop_last();
        assert(distinct_keys(init)) by {
            assert forall|i: int, j: int| 0 <= i < j < init.len() implies key_of(
                #[trigger] init[i],
            ) != key_of(#[trigger] init[j]) by {
                assert(init[i] == segs[i] && init[j] == segs[j]);
            }
        }
        lemma_dedup_of_distinct(init);
        if has_key(init, key_of(segs.last())) {
            let j = choose|j: int| 0 <= j < init.len() && key_of(#[trigger] init[j]) == key_of(
                segs.last(),
            );
            assert(init[j] == segs[j]);
            assert(false);
        }
        assert(init.push(segs.last()) =~= segs);
    }
}

/// Removing duplicates twice gives what removing them once gives.
pub proof fn lemma_deduplicate_idempotent(segs: Seq<Segment>)
    ensures
        dedup(dedup(segs)) == dedup(segs),
{
    lemma_dedup_distinct(segs);
    lemma_dedup_of_distinct(dedup(segs));
}

/// Whether some key in `seen` equals `k`.
fn contains_key(seen: &Vec<String>, k: &String) -> (r: bool)
    ensures
        r == exists|j: int| 0 <= j < seen.len() && (#[trigger] seen@[j])@ == k@,
{
    let mut j: usize = 0;
    while j < seen.len()
        invariant
            j <= seen.len(),
            forall|m: int| 0 <= m < j ==> (#[trigger] seen@[m])@ != k@,
        decreases seen.len() - j,
    {
        if seen[j] == *k {
            return true;
        }
        j = j + 1;
    }
    false
}

/// `segments` without the segments whose dedup key an earlier one has: the
/// first of each key is kept, unchanged, and the order is kept.
pub fn deduplicate(segments: &Vec<Segment>) -> (r: Vec<Segment>)
    ensures
        r@ == dedup(segments@),
{
    let mut out: Vec<Segment> = Vec::new();
    let mut seen: Vec<String> = Vec::new();
    let mut i: usize = 0;
    while i < segments.len()
        invariant
            i <= segments.len(),
            out@ == dedup(segments@.take(i as int)),
            seen.len() == out.len(),
            forall|j: int| 0 <= j < seen.len() ==> (#[trigger] seen@[j])@ == key_of(out@[j]),
        decreases segments.len() - i,
    {
        let ghost pre = segments@.take(i + 1);
        assert(pre.drop_last() =~= segments@.take(i as int));
        assert(pre.last() == segments@[i as int]);
        let k = normalize(segments[i].text.as_str());
        let found = contains_key(&seen, &k);
        proof {
            if found {
                let j = choose|j: int| 0 <= j < seen.len() && (#[trigger] seen@[j])@ == k@;
                assert(key_of(out@[j]) == k@);
            } else {
                assert forall|j: int| 0 <= j < out.len() implies key_of(#[trigger] out@[j])
                    != k@ by {
                    assert(seen@[j]@ == key_of(out@[j]));
                }
            }
        }
        if !found {
            out.push(segments[i].duplicate());
            seen.push(k);
        }
        i = i + 1;
    }
    assert(segments@.take(segments.len() as int) =~= segments@);
    out
}

} // verus!
