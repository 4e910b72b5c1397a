use video2en::segment::parse_text_to_segments;
use video2en::pipeline::WriteAction;
use video2en::tools::{Txt2Audio, Txt2AudioArgs, Video2En, Video2EnArgs};

fn txt2audio(force: bool) -> Txt2Audio {
    Txt2Audio::new(Txt2AudioArgs {
        workspace: "ws".to_string(),
        tts_url: "http://localhost:5000".to_string(),
        speaker_wav: None,
        language: "en".to_string(),
        force,
    })
}

fn video2en(force: bool) -> Video2En {
    let args = Video2EnArgs {
        workspace: "ws".to_string(),
        model_name: None,
        language: "auto".to_string(),
        threads: None,
        gpu: false,
        gpu_device: 0,
        force,
        translate: false,
    };
    match Video2En::new(args) {
        Ok(v) => v,
        Err(_) => panic!("the classifier builds"),
    }
}

#[test]
fn txt2audio_keeps_its_settings() {
    let t = txt2audio(false);
    assert_eq!(t.args.workspace, "ws");
    assert_eq!(t.args.language, "en");
}

#[test]
fn txt2audio_requests_per_voice() {
    let t = txt2audio(false);
    let female = t.request_for("Hello", false);
    let male = t.request_for("Hello", true);
    assert_eq!(female.speaker_wav, None);
    assert_eq!(male.speaker_wav.as_deref(), Some("1320-122617-0037.wav"));
    assert_eq!(male.text, "Hello");
    assert_eq!(male.language, "en");
}

#[test]
fn txt2audio_skips_lines_with_both_files() {
    assert!(!txt2audio(false).needs_synthesis(true, true));
    assert!(txt2audio(false).needs_synthesis(true, false));
    assert!(txt2audio(true).needs_synthesis(true, true));
}

#[test]
fn video2en_output_skip_follows_force() {
    assert_eq!(video2en(false).output_action(true), WriteAction::Skip);
    assert_eq!(video2en(true).output_action(true), WriteAction::Write);
}

#[test]
fn video2en_summarizes_a_transcript() {
    let v = video2en(false);
    let segs = parse_text_to_segments("A dog.\na DOG\nA cat.\n");
    let r = v.summarize(&segs);
    let texts: Vec<&str> = r.unique.iter().map(|s| s.text.as_str()).collect();
    assert_eq!(texts, vec!["A dog.", "A cat."]);
}
