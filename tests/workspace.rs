use video2en::workspace::{
    backup_name, check_workspace, choose_model, ffmpeg_args, is_media_extension,
    is_model_extension, is_text_extension, model_file_name, output_dir_action, pick_inputs,
    same_text, whisper_args, with_suffix, DirAction, ModelChoice, ModelError, WorkspaceError,
};

#[test]
fn backup_names_count_up() {
    assert_eq!(backup_name("video2en_output", 0), "video2en_output_backup");
    assert_eq!(backup_name("out", 1), "out_backup_1");
    assert_eq!(backup_name("out", 42), "out_backup_42");
}

#[test]
fn media_extensions_in_any_case() {
    assert!(is_media_extension("mp4"));
    assert!(is_media_extension("MP4"));
    assert!(is_media_extension("M4a"));
    assert!(!is_media_extension("txt"));
    assert!(!is_media_extension("mp"));
    assert!(is_text_extension("TXT"));
    assert!(!is_text_extension("text"));
    assert!(is_model_extension("bin"));
    assert!(!is_model_extension("BIN"));
}

#[test]
fn workspace_checks_in_order() {
    assert_eq!(check_workspace(false, false, Some(false)), Err(WorkspaceError::MissingWorkspace));
    assert_eq!(check_workspace(true, false, Some(true)), Err(WorkspaceError::MissingInput));
    assert_eq!(check_workspace(true, true, Some(false)), Err(WorkspaceError::MissingModels));
    assert_eq!(check_workspace(true, true, None), Ok(()));
    assert_eq!(check_workspace(true, true, Some(true)), Ok(()));
}

#[test]
fn output_directory_actions() {
    assert_eq!(output_dir_action(false, true), DirAction::Create);
    assert_eq!(output_dir_action(true, true), DirAction::Reuse);
    assert_eq!(output_dir_action(true, false), DirAction::Backup);
}

#[test]
fn model_choice() {
    assert_eq!(model_file_name(None), "ggml-large.bin");
    assert_eq!(model_file_name(Some("small.bin".to_string())), "small.bin");
    assert_eq!(choose_model(true, 5), Ok(ModelChoice::Named));
    assert_eq!(choose_model(false, 0), Err(ModelError::NoModel));
    assert_eq!(choose_model(false, 2), Err(ModelError::SeveralModels));
    assert_eq!(choose_model(false, 1), Ok(ModelChoice::OnlyBin));
}

#[test]
fn pick_inputs_lists_accepted_indices() {
    assert_eq!(pick_inputs(&vec![false, true, false, true]), Some(vec![1, 3]));
    assert_eq!(pick_inputs(&vec![false, false]), None);
    assert_eq!(pick_inputs(&Vec::new()), None);
}

#[test]
fn tool_command_lines() {
    assert_eq!(
        ffmpeg_args("in.mp4", "out/in.wav"),
        vec!["-y", "-i", "in.mp4", "-vn", "-ac", "1", "-ar", "16000", "-f", "wav", "out/in.wav"]
    );
    assert_eq!(
        whisper_args("m.bin", "a.wav", "out/a_raw"),
        vec![
            "-m", "m.bin", "-f", "a.wav", "-tr", "-bs", "8", "-bo", "1", "-t", "8", "-otxt",
            "-of", "out/a_raw"
        ]
    );
}

#[test]
fn text_helpers() {
    assert_eq!(with_suffix("clip", "_raw.txt"), "clip_raw.txt");
    assert!(same_text("abc", "abc"));
    assert!(!same_text("abc", "abd"));
    assert!(!same_text("abc", "ab"));
}
