use video2en::segment::{
    deduplicate, parse_text_to_segments, segment_count, transcript_segments, Segment, TranscriptError,
};

fn texts(v: &[Segment]) -> Vec<String> {
    v.iter().map(|s| s.text.clone()).collect()
}

fn seg(text: &str) -> Segment {
    Segment::new(0, 3000, text.to_string())
}

#[test]
fn raw_transcript_parses_into_timed_segments() {
    let segs = parse_text_to_segments("Hello\n\n  world  \n");
    assert_eq!(segs.len(), 2);
    assert_eq!(segs[0].text, "Hello");
    assert_eq!((segs[0].start_ms, segs[0].end_ms), (0, 3000));
    assert_eq!(segs[1].text, "world");
    assert_eq!((segs[1].start_ms, segs[1].end_ms), (3000, 6000));
    assert!(segs[0].translation.is_none() && segs[1].translation.is_none());
}

#[test]
fn blank_and_empty_transcripts_give_no_segments() {
    assert!(parse_text_to_segments("").is_empty());
    assert!(parse_text_to_segments(" \n\t\r\n").is_empty());
    assert_eq!(segment_count("a\r\nb\n\nc"), 3);
}

#[test]
fn carriage_returns_are_trimmed() {
    let segs = parse_text_to_segments("one\r\ntwo\r\n");
    assert_eq!(texts(&segs), vec!["one", "two"]);
    assert_eq!(segs[1].end_ms, 6000);
}

#[test]
fn deduplicate_keeps_first_occurrence_verbatim() {
    let input = vec![seg("A dog."), seg("a DOG"), seg("A cat.")];
    let out = deduplicate(&input);
    assert_eq!(texts(&out), vec!["A dog.", "A cat."]);
}

#[test]
fn deduplicate_twice_is_deduplicate_once() {
    let input = vec![seg("Hi!"), seg("hi"), seg("Bye"), seg("  HI "), seg("bye."), seg("new")];
    let once = deduplicate(&input);
    let twice = deduplicate(&once);
    assert_eq!(texts(&once), vec!["Hi!", "Bye", "new"]);
    assert_eq!(texts(&twice), texts(&once));
}

#[test]
fn deduplicate_of_empty_is_empty() {
    assert!(deduplicate(&Vec::new()).is_empty());
}

#[test]
fn duplicate_copies_every_field() {
    let mut s = seg("x");
    s.translation = Some("y".to_string());
    let d = s.duplicate();
    assert_eq!((d.start_ms, d.end_ms, d.text.as_str()), (0, 3000, "x"));
    assert_eq!(d.translation.as_deref(), Some("y"));
}

#[test]
fn empty_transcript_is_refused() {
    assert!(matches!(transcript_segments(""), Err(TranscriptError::Empty)));
    assert!(matches!(transcript_segments("  \n \n"), Err(TranscriptError::Empty)));
    match transcript_segments("Hello\n\n  world  \n") {
        Ok(segs) => assert_eq!(texts(&segs), vec!["Hello", "world"]),
        Err(_) => panic!("two lines parse"),
    }
}

#[test]
fn overlong_transcript_is_refused() {
    let long = "x\n".repeat(1431656);
    assert!(matches!(transcript_segments(&long), Err(TranscriptError::TooLong)));
    let fits = "x\n".repeat(1431655);
    match transcript_segments(&fits) {
        Ok(segs) => assert_eq!(segs[segs.len() - 1].end_ms, 4294965000),
        Err(_) => panic!("fits the clock"),
    }
}
