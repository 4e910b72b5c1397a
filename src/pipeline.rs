//! The transcript pipeline after transcription: keep the English segments,
//! remove duplicates, record translations, and lay out the output file.

use vstd::prelude::*;
use crate::classify::{english_consistent, TextClassifier};
use crate::segment::{dedup, deduplicate, has_key, key_of, Segment};
use crate::text::{chars_of, push_all};

verus! {

/// The segments of `segs` whose flag in `flags` is set, in order.
pub open spec fn selected(segs: Seq<Segment>, flags: Seq<bool>) -> Seq<Segment>
    decreases segs.len(),
{
    if segs.len() == 0 || flags.len() != segs.len() {
        Seq::empty()
    } else {
        let init = selected(segs.drop_last(), flags.drop_last());
        if flags.last() {
            init.push(segs.last())
        } else {
            init
        }
    }
}

/// The number of set flags in `flags`.
pub open spec fn set_count(flags: Seq<bool>) -> nat
    decreases flags.len(),
{
    if flags.len() == 0 {
        0
    } else {
        set_count(flags.drop_last()) + if flags.last() {
            1nat
        } else {
            0nat
        }
    }
}

proof fn lemma_selected_len(segs: Seq<Segment>, flags: Seq<bool>)
    requires
        flags.len() == segs.len(),
    ensures
        selected(segs, flags).len() == set_count(flags),
        set_count(flags) <= flags.len(),
    decreases segs.len(),
{
    if segs.len() > 0 {
        lemma_selected_len(segs.drop_last(), flags.drop_last());
    }
}

proof fn lemma_dedup_len(segs: Seq<Segment>)
    ensures
        dedup(segs).len() <= segs.len(),
    decreases segs.len(),
{
    if segs.len() > 0 {
        lemma_dedup_len(segs.drop_last());
    }
}

proof fn lemma_has_key_dedup(segs: Seq<Segment>, k: Seq<char>)
    ensures
        has_key(dedup(segs), k) == has_key(segs, k),
    decreases segs.len(),
{
    if segs.len() > 0 {
        let init = segs.drop_last();
        let l = segs.last();
        lemma_has_key_dedup(init, k);
        lemma_has_key_dedup(init, key_of(l));
        let d = dedup(init);
        if has_key(segs, k) {
            let j = choose|j: int| 0 <= j < segs.len() && key_of(#[trigger] segs[j]) == k;
            if j < init.len() {
                assert(key_of(init[j]) == k);
            }
        }
        if has_key(d, key_of(l)) {
            if has_key(d, k) {
                let j = choose|j: int| 0 <= j < d.len() && key_of(#[trigger] d[j]) == k;
                let m = choose|m: int| 0 <= m < init.len() && key_of(#[trigger] init[m]) == k;
                assert(segs[m] == init[m]);
            }
        } else {
            let e = d.push(l);
            if has_key(e, k) {
                let j = choose|j: int| 0 <= j < e.len() && key_of(#[trigger] e[j]) == k;
                if j < d.len() {
                    assert(e[j] == d[j]);
                    let m = choose|m: int| 0 <= m < init.len() && key_of(#[trigger] init[m]) == k;
                    assert(segs[m] == init[m]);
                } else {
                    assert(segs[segs.len() - 1] == l);
                }
            }
            if has_key(segs, k) {
                let j = choose|j: int| 0 <= j < segs.len() && key_of(#[trigger] segs[j]) == k;
                if j < init.len() {
                    assert(segs[j] == init[j]);
                    let m = choose|m: int| 0 <= m < d.len() && key_of(#[trigger] d[m]) == k;
                    assert(e[m] == d[m]);
                } else {
                    assert(e[d.len() as int] == l);
                }
            }
        }
    }
}

/// Segment `j` of `segs` is the first with its key.
pub open spec fn first_of_key(segs: Seq<Segment>, j: int) -> bool {
    forall|i: int| 0 <= i < j ==> key_of(#[trigger] segs[i]) != key_of(segs[j])
}

/// Which segments of `segs` are the first with their key.
pub open spec fn first_flags(segs: Seq<Segment>) -> Seq<bool> {
    Seq::new(segs.len(), |j: int| first_of_key(segs, j))
}

/// Removing duplicates keeps exactly the segments that no earlier segment
/// shares a key with, unchanged and in order.
pub proof fn lemma_dedup_keeps_first_of_each_key(segs: Seq<Segment>)
    ensures
        dedup(segs) == selected(segs, first_flags(segs)),
    decreases segs.len(),
{
    if segs.len() > 0 {
        let init = segs.drop_last();
        let l = segs.last();
        let n = segs.len() - 1;
        lemma_dedup_keeps_first_of_each_key(init);
        let ff = first_flags(segs);
        assert(ff.drop_last() =~= first_flags(init)) by {
            assert forall|j: int| 0 <= j < init.len() implies ff.drop_last()[j] == first_flags(
                init,
            )[j] by {
                assert forall|i: int| 0 <= i < j implies segs[i] == init[i] by {}
                assert(segs[j] == init[j]);
                if first_of_key(segs, j) {
                    assert forall|i: int| 0 <= i < j implies key_of(#[trigger] init[i]) != key_of(
                        init[j],
                    ) by {
                        assert(segs[i] == init[i]);
                    }
                }
                if first_of_key(init, j) {
                    assert forall|i: int| 0 <= i < j implies key_of(#[trigger] segs[i]) != key_of(
                        segs[j],
                    ) by {
                        assert(segs[i] == init[i]);
                    }
                }
            }
        }
        lemma_has_key_dedup(init, key_of(l));
        assert(ff.last() == first_of_key(segs, n));
        assert(segs[n] == l);
        if has_key(init, key_of(l)) {
            let m = choose|m: int| 0 <= m < init.len() && key_of(#[trigger] init[m]) == key_of(l);
            assert(segs[m] == init[m]);
            assert(!first_of_key(segs, n));
        } else {
            assert forall|i: int| 0 <= i < n implies key_of(#[trigger] segs[i]) != key_of(segs[n]) by {
                assert(segs[i] == init[i]);
            }
        }
    }
}

/// Whether each segment of `segments` is English, in order; each verdict
/// holds what `is_english` promises of it.
pub fn classify_segments(classifier: &TextClassifier, segments: &Vec<Segment>) -> (r: Vec<bool>)
    ensures
        r.len() == segments.len(),
        forall|i: int| 0 <= i < r.len() ==> english_consistent(segments@[i].text@, #[trigger] r@[i]),
{
    let mut out: Vec<bool> = Vec::new();
    let mut i: usize = 0;
    while i < segments.len()
        invariant
            i <= segments.len(),
            out.len() == i,
            forall|k: int| 0 <= k < i ==> english_consistent(segments@[k].text@, #[trigger] out@[k]),
        decreases segments.len() - i,
    {
        let e = classifier.is_english(segments[i].text.as_str());
        out.push(e);
        i = i + 1;
    }
    out
}

/// The segments of `segments` whose verdict in `english` is set, in order.
pub fn english_segments(segments: &Vec<Segment>, english: &Vec<bool>) -> (r: Vec<Segment>)
    requires
        english.len() == segments.len(),
    ensures
        r@ == selected(segments@, english@),
{
    let mut out: Vec<Segment> = Vec::new();
    let mut i: usize = 0;
    while i < segments.len()
        invariant
            i <= segments.len(),
            english.len() == segments.len(),
            out@ == selected(segments@.take(i as int), english@.take(i as int)),
        decreases segments.len() - i,
    {
        assert(segments@.take(i + 1).drop_last() =~= segments@.take(i as int));
        assert(english@.take(i + 1).drop_last() =~= english@.take(i as int));
        if english[i] {
            out.push(segments[i].duplicate());
        }
        i = i + 1;
    }
    assert(segments@.take(segments.len() as int) =~= segments@);
    assert(english@.take(english.len() as int) =~= english@);
    out
}

/// The unique English segments of `segs`, given the verdicts `english`.
pub open spec fn dedup_of_english(segs: Seq<Segment>, english: Seq<bool>) -> Seq<Segment> {
    dedup(selected(segs, english))
}

/// Counts of one transcript's segments at each stage.
pub struct TranscriptStats {
    pub total: usize,
    pub english: usize,
    pub unique: usize,
    pub duplicates: usize,
    pub non_english: usize,
}

/// The unique English segments of a transcript, with the counts and the
/// verdict on each segment.
pub struct TranscriptSummary {
    pub english: Vec<bool>,
    pub unique: Vec<Segment>,
    pub stats: TranscriptStats,
}

/// `r` summarizes `segs` under the verdicts `r.english`.
pub open spec fn summarizes(r: TranscriptSummary, segs: Seq<Segment>) -> bool {
    &&& r.english.len() == segs.len()
    &&& r.unique@ == dedup_of_english(segs, r.english@)
    &&& r.stats.total == segs.len()
    &&& r.stats.english == set_count(r.english@)
    &&& r.stats.unique == r.unique.len()
    &&& r.stats.duplicates == r.stats.english - r.stats.unique
    &&& r.stats.non_english == r.stats.total - r.stats.english
}

/// The English segments of `segments` without duplicates, given the verdict
/// on each, and the counts: all segments, English ones, unique English
/// ones, English duplicates dropped, and non-English ones.
pub fn summarize(segments: &Vec<Segment>, english: Vec<bool>) -> (r: TranscriptSummary)
    requires
        english.len() == segments.len(),
    ensures
        r.english == english,
        summarizes(r, segments@),
{
    let kept = english_segments(segments, &english);
    let unique = deduplicate(&kept);
    proof {
        lemma_selected_len(segments@, english@);
        lemma_dedup_len(kept@);
    }
    let stats = TranscriptStats {
        total: segments.len(),
        english: kept.len(),
        unique: unique.len(),
        duplicates: kept.len() - unique.len(),
        non_english: segments.len() - kept.len(),
    };
    TranscriptSummary { english, unique, stats }
}

/// The summary of `segments`, with each verdict from `classifier`.
pub fn classify_and_summarize(classifier: &TextClassifier, segments: &Vec<Segment>) -> (r:
    TranscriptSummary)
    ensures
        summarizes(r, segments@),
        forall|i: int|
            0 <= i < segments.len() ==> english_consistent(segments@[i].text@, #[trigger] r.english@[i]),
{
    let english = classify_segments(classifier, segments);
    summarize(segments, english)
}

// ------------------------------------------------------------- translation

/// The translation recorded where the lookup succeeded but held none.
pub const TRANSLATION_NOT_FOUND: &'static str = "未找到翻译";

/// The translation recorded where the lookup failed.
pub const TRANSLATION_FAILED: &'static str = "翻译失败";

/// What one translation request came to.
pub enum TranslationOutcome {
    Translated(String),
    NotFound,
    Failed,
}

/// The translation text recorded for an outcome.
pub open spec fn annotation(o: TranslationOutcome) -> Seq<char> {
    match o {
        TranslationOutcome::Translated(t) => t@,
        TranslationOutcome::NotFound => TRANSLATION_NOT_FOUND@,
        TranslationOutcome::Failed => TRANSLATION_FAILED@,
    }
}

/// The number of failed outcomes in `os`.
pub open spec fn failures(os: Seq<TranslationOutcome>) -> nat
    decreases os.len(),
{
    if os.len() == 0 {
        0
    } else {
        failures(os.drop_last()) + if os.last() is Failed {
            1nat
        } else {
            0nat
        }
    }
}

/// `after` is `before` with its translation set to `t`.
pub open spec fn translated_as(after: Segment, before: Segment, t: Seq<char>) -> bool {
    &&& after.start_ms == before.start_ms
    &&& after.end_ms == before.end_ms
    &&& after.text == before.text
    &&& after.translation is Some
    &&& after.translation->0@ == t
}

/// Records the outcome of translating `segment`.
pub fn annotate(segment: &mut Segment, outcome: TranslationOutcome)
    ensures
        translated_as(*final(segment), *old(segment), annotation(outcome)),
{
    let t = match outcome {
        TranslationOutcome::Translated(t) => t,
        TranslationOutcome::NotFound => TRANSLATION_NOT_FOUND.to_string(),
        TranslationOutcome::Failed => TRANSLATION_FAILED.to_string(),
    };
    segment.translation = Some(t);
}

/// Records the outcome of translating each segment, `outcomes[i]` for
/// `segments[i]`, and returns how many failed. A failed request marks its
/// segment and the stage goes on.
pub fn translate_segments(segments: &mut Vec<Segment>, outcomes: Vec<TranslationOutcome>) -> (failed: usize)
    requires
        old(segments).len() == outcomes.len(),
    ensures
        final(segments).len() == old(segments).len(),
        forall|i: int|
            0 <= i < old(segments).len() ==> translated_as(
                #[trigger] final(segments)@[i],
                old(segments)@[i],
                annotation(outcomes@[i]),
            ),
        (forall|i: int| 0 <= i < outcomes.len() ==> #[trigger] outcomes@[i] is Failed) ==> forall|
            i: int,
        |
            0 <= i < final(segments).len() ==> (#[trigger] final(segments)@[i]).translation->0@
                == TRANSLATION_FAILED@,
        failed == failures(outcomes@),
{
    let ghost start = segments@;
    let mut failed: usize = 0;
    let mut i: usize = 0;
    let ghost all = outcomes@;
    let mut rest = outcomes;
    while i < segments.len()
        invariant
            segments.len() == start.len() == all.len(),
            i <= segments.len(),
            rest@ == all.subrange(i as int, all.len() as int),
            failed == failures(all.take(i as int)),
            failed <= i,
            forall|k: int| 0 <= k < i ==> translated_as(#[trigger] segments@[k], start[k], annotation(all[k])),
            forall|k: int| i <= k < segments.len() ==> #[trigger] segments@[k] == start[k],
        decreases segments.len() - i,
    {
        assert(all.take(i + 1).drop_last() =~= all.take(i as int));
        let outcome = rest.remove(0);
        assert(outcome == all[i as int]);
        if matches!(outcome, TranslationOutcome::Failed) {
            failed = failed + 1;
        }
        let mut seg = segments[i].duplicate();
        annotate(&mut seg, outcome);
        segments.set(i, seg);
        i = i + 1;
        assert(rest@ =~= all.subrange(i as int, all.len() as int));
    }
    assert(all.take(all.len() as int) =~= all);
    failed
}

// ------------------------------------------------------------------ output

/// The unique-English output file: each segment's text on a line of its own.
pub open spec fn unique_english_text(segs: Seq<Segment>) -> Seq<char>
    decreases segs.len(),
{
    if segs.len() == 0 {
        Seq::empty()
    } else {
        unique_english_text(segs.drop_last()) + segs.last().text@ + seq!['\n']
    }
}

/// The content of the unique-English output file for `segments`.
pub fn render_unique_english(segments: &Vec<Segment>) -> (r: String)
    ensures
        r@ == unique_english_text(segments@),
{
    let mut out = String::new();
    let mut i: usize = 0;
    while i < segments.len()
        invariant
            i <= segments.len(),
            out@ == unique_english_text(segments@.take(i as int)),
        decreases segments.len() - i,
    {
        assert(segments@.take(i + 1).drop_last() =~= segments@.take(i as int));
        let t = chars_of(segments[i].text.as_str());
        push_all(&mut out, &t);
        out.push('\n');
        i = i + 1;
    }
    assert(segments@.take(segments.len() as int) =~= segments@);
    out
}

/// Whether an output file is written.
#[derive(PartialEq, Eq, Structural, Debug, Clone, Copy)]
pub enum WriteAction {
    Write,
    Skip,
}

/// An output file that exists already is skipped unless overwriting is
/// forced.
pub fn write_action(target_exists: bool, force: bool) -> (r: WriteAction)
    ensures
        r == (if target_exists && !force {
            WriteAction::Skip
        } else {
            WriteAction::Write
        }),
{
    if target_exists && !force {
        WriteAction::Skip
    } else {
        WriteAction::Write
    }
}

} // verus!
