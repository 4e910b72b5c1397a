use video2en::classify::TextClassifier;
use video2en::pipeline::{
    annotate, classify_and_summarize, render_unique_english, summarize, translate_segments, write_action,
    TranslationOutcome, WriteAction, TRANSLATION_FAILED, TRANSLATION_NOT_FOUND,
};
use video2en::segment::{parse_text_to_segments, Segment};

fn seg(text: &str) -> Segment {
    Segment::new(0, 3000, text.to_string())
}

#[test]
fn failing_translator_marks_every_segment_and_stage_succeeds() {
    let mut segs = vec![seg("one"), seg("two"), seg("three")];
    let outcomes = vec![
        TranslationOutcome::Failed,
        TranslationOutcome::Failed,
        TranslationOutcome::Failed,
    ];
    let failed = translate_segments(&mut segs, outcomes);
    assert_eq!(failed, 3);
    for s in &segs {
        assert_eq!(s.translation.as_deref(), Some(TRANSLATION_FAILED));
    }
    assert_eq!(segs[2].text, "three");
}

#[test]
fn mixed_translation_outcomes() {
    let mut segs = vec![seg("one"), seg("two"), seg("three")];
    let outcomes = vec![
        TranslationOutcome::Translated("一".to_string()),
        TranslationOutcome::NotFound,
        TranslationOutcome::Failed,
    ];
    assert_eq!(translate_segments(&mut segs, outcomes), 1);
    assert_eq!(segs[0].translation.as_deref(), Some("一"));
    assert_eq!(segs[1].translation.as_deref(), Some(TRANSLATION_NOT_FOUND));
    assert_eq!(segs[2].translation.as_deref(), Some("翻译失败"));
}

#[test]
fn annotate_sets_only_the_translation() {
    let mut s = Segment::new(3000, 6000, "hello".to_string());
    annotate(&mut s, TranslationOutcome::NotFound);
    assert_eq!(s.translation.as_deref(), Some("未找到翻译"));
    assert_eq!((s.start_ms, s.end_ms, s.text.as_str()), (3000, 6000, "hello"));
}

#[test]
fn existing_output_is_skipped_unless_forced() {
    assert_eq!(write_action(true, false), WriteAction::Skip);
    assert_eq!(write_action(true, true), WriteAction::Write);
    assert_eq!(write_action(false, false), WriteAction::Write);
    assert_eq!(write_action(false, true), WriteAction::Write);
}

#[test]
fn unique_english_output_has_one_line_per_segment() {
    let segs = vec![seg("A dog."), seg("A cat.")];
    assert_eq!(render_unique_english(&segs), "A dog.\nA cat.\n");
    assert_eq!(render_unique_english(&Vec::new()), "");
}

#[test]
fn summary_keeps_unique_english_segments() {
    let c = match TextClassifier::new() {
        Ok(c) => c,
        Err(_) => panic!("the symbol pattern compiles"),
    };
    let segs = parse_text_to_segments("Hello there\n你好世界\nhello, there!\nGood night\n");
    let r = classify_and_summarize(&c, &segs);
    assert_eq!(r.english, vec![true, false, true, true]);
    let texts: Vec<&str> = r.unique.iter().map(|s| s.text.as_str()).collect();
    assert_eq!(texts, vec!["Hello there", "Good night"]);
    assert_eq!(r.stats.total, 4);
    assert_eq!(r.stats.english, 3);
    assert_eq!(r.stats.unique, 2);
    assert_eq!(r.stats.duplicates, 1);
    assert_eq!(r.stats.non_english, 1);
    assert_eq!((r.unique[1].start_ms, r.unique[1].end_ms), (9000, 12000));
}

#[test]
fn summary_from_given_verdicts() {
    let segs = parse_text_to_segments("A dog.\nxyz\na DOG\nA cat.\n");
    let r = summarize(&segs, vec![true, false, true, true]);
    let texts: Vec<&str> = r.unique.iter().map(|s| s.text.as_str()).collect();
    assert_eq!(texts, vec!["A dog.", "A cat."]);
    assert_eq!((r.stats.total, r.stats.english, r.stats.unique), (4, 3, 2));
    assert_eq!((r.stats.duplicates, r.stats.non_english), (1, 1));
    let none = summarize(&segs, vec![false; 4]);
    assert!(none.unique.is_empty());
    assert_eq!(none.stats.non_english, 4);
}
