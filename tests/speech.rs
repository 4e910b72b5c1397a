use video2en::speech::{
    audio_filename, check_tts_reply, female_filename, male_filename, plan_lines, portable_path,
    safe_filename, TtsFailure, TtsRequest, MALE_SPEAKER_WAV,
};

#[test]
fn safe_filename_replaces_forbidden_characters() {
    assert_eq!(safe_filename("Hello: world?"), "Hello_ world");
    assert_eq!(safe_filename("a/b\\c*d"), "a_b_c_d");
    assert_eq!(safe_filename("__x__"), "x");
}

#[test]
fn safe_filename_collapses_double_dots_and_drops_trailing_dots() {
    assert_eq!(safe_filename("a..b.."), "a.b");
    assert_eq!(safe_filename("Wait...."), "Wait");
    assert_eq!(safe_filename("It's peaceful."), "It's peaceful");
}

#[test]
fn short_or_non_ascii_lines_get_numbered_names() {
    assert_eq!(audio_filename("你好", 7), "line_007.wav");
    assert_eq!(audio_filename("ok", 12), "line_012.wav");
    assert_eq!(audio_filename("?", 1234), "line_1234.wav");
    assert_eq!(audio_filename("Good morning", 1), "Good morning.wav");
}

#[test]
fn voice_file_names_replace_every_wav() {
    assert_eq!(female_filename("a.b.wav"), "a.b_female.wav");
    assert_eq!(male_filename("line_001.wav"), "line_001_male.wav");
    assert_eq!(female_filename("x.wav y.wav"), "x_female.wav y_female.wav");
}

#[test]
fn portable_path_uses_single_forward_slashes() {
    assert_eq!(portable_path("C:\\out\\\\audio//x.wav"), "C:/out/audio/x.wav");
    assert_eq!(portable_path("out/audio/x.wav"), "out/audio/x.wav");
}

#[test]
fn plan_lines_numbers_non_blank_lines() {
    let plans = plan_lines("Hello\n\n  你好  \nGood night\n");
    assert_eq!(plans.len(), 3);
    assert_eq!(plans[0].text, "Hello");
    assert_eq!(plans[0].female_file, "Hello_female.wav");
    assert_eq!(plans[1].line_number, 2);
    assert_eq!(plans[1].male_file, "line_002_male.wav");
    assert_eq!(plans[2].text, "Good night");
    assert_eq!(plans[2].line_number, 3);
}

#[test]
fn tts_reply_checks() {
    assert_eq!(check_tts_reply(false, 10), Err(TtsFailure::ServiceError));
    assert_eq!(check_tts_reply(true, 0), Err(TtsFailure::EmptyAudio));
    assert_eq!(check_tts_reply(true, 10), Ok(()));
}

#[test]
fn tts_request_carries_its_fields() {
    let r = TtsRequest::new("hi".to_string(), "en".to_string(), Some(MALE_SPEAKER_WAV.to_string()));
    assert_eq!(r.text, "hi");
    assert_eq!(r.language, "en");
    assert_eq!(r.speaker_wav.as_deref(), Some("1320-122617-0037.wav"));
}
