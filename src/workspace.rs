//! The workspace conventions: fixed directory names, which files are taken
//! as input, which model is used, how a used output directory is set aside,
//! and the command lines of the audio extractor and the transcriber.

use vstd::prelude::*;
use crate::normalize::{ascii_lower, is_ascii_text, lower_of, lowercase};
use crate::text::{chars_of, decimal, push_all, push_decimal, views};

verus! {

pub const VIDEO_INPUT_DIR: &'static str = "video2en_input";
pub const VIDEO_OUTPUT_DIR: &'static str = "video2en_output";
pub const MODELS_DIR: &'static str = "models";
pub const TEXT_INPUT_DIR: &'static str = "txt2audio_input";
pub const TEXT_OUTPUT_DIR: &'static str = "txt2audio_output";
pub const AUDIO_DIR: &'static str = "audio";
pub const DEFAULT_MODEL: &'static str = "ggml-large.bin";
pub const WAV_SUFFIX: &'static str = ".wav";
pub const TEXT_SUFFIX: &'static str = ".txt";
pub const RAW_TRANSCRIPT_SUFFIX: &'static str = "_raw";
pub const AUDIO_DATA_SUFFIX: &'static str = "_audio_data.json";

/// Whether `a` and `b` hold the same characters.
pub fn same_text(a: &str, b: &str) -> (r: bool)
    ensures
        r == (a@ == b@),
{
    let x = chars_of(a);
    let y = chars_of(b);
    if x.len() != y.len() {
        return false;
    }
    let mut i: usize = 0;
    while i < x.len()
        invariant
            i <= x.len() == y.len(),
            x@ == a@,
            y@ == b@,
            forall|k: int| 0 <= k < i ==> x@[k] == y@[k],
        decreases x.len() - i,
    {
        if x[i] != y[i] {
            assert(a@[i as int] != b@[i as int]);
            return false;
        }
        i = i + 1;
    }
    assert(x@ =~= y@);
    true
}

/// `stem` followed by `suffix`.
pub fn with_suffix(stem: &str, suffix: &str) -> (r: String)
    ensures
        r@ == stem@ + suffix@,
{
    let mut out = String::new();
    let a = chars_of(stem);
    let b = chars_of(suffix);
    push_all(&mut out, &a);
    push_all(&mut out, &b);
    assert(out@ =~= stem@ + suffix@);
    out
}

/// Why a workspace cannot be used.
#[derive(PartialEq, Eq, Structural, Debug, Clone, Copy)]
pub enum WorkspaceError {
    MissingWorkspace,
    MissingInput,
    MissingModels,
}

/// The first of the workspace, its input directory and, where one is needed
/// (`Some`), its models directory that does not exist.
pub fn check_workspace(workspace_exists: bool, input_exists: bool, models_exists: Option<bool>) -> (r:
    Result<(), WorkspaceError>)
    ensures
        r == (if !workspace_exists {
            Err::<(), WorkspaceError>(WorkspaceError::MissingWorkspace)
        } else if !input_exists {
            Err(WorkspaceError::MissingInput)
        } else if models_exists == Some(false) {
            Err(WorkspaceError::MissingModels)
        } else {
            Ok(())
        }),
{
    if !workspace_exists {
        Err(WorkspaceError::MissingWorkspace)
    } else if !input_exists {
        Err(WorkspaceError::MissingInput)
    } else if models_exists == Some(false) {
        Err(WorkspaceError::MissingModels)
    } else {
        Ok(())
    }
}

/// What is done to an output directory before a run.
#[derive(PartialEq, Eq, Structural, Debug, Clone, Copy)]
pub enum DirAction {
    /// It does not exist: create it.
    Create,
    /// It exists and is empty: use it.
    Reuse,
    /// It exists and holds files: rename it to a free backup name and
    /// create a new one.
    Backup,
}

pub fn output_dir_action(exists: bool, empty: bool) -> (r: DirAction)
    ensures
        r == (if !exists {
            DirAction::Create
        } else if empty {
            DirAction::Reuse
        } else {
            DirAction::Backup
        }),
{
    if !exists {
        DirAction::Create
    } else if empty {
        DirAction::Reuse
    } else {
        DirAction::Backup
    }
}

/// The backup name tried at `attempt` for a directory named `name`:
/// `name_backup` first, then `name_backup_1`, `name_backup_2`, ...
pub open spec fn backup_name_of(name: Seq<char>, attempt: nat) -> Seq<char> {
    let base = name + seq!['_', 'b', 'a', 'c', 'k', 'u', 'p'];
    if attempt == 0 {
        base
    } else {
        base + seq!['_'] + decimal(attempt)
    }
}

pub fn backup_name(name: &str, attempt: u64) -> (r: String)
    ensures
        r@ == backup_name_of(name@, attempt as nat),
{
    proof {
        reveal_strlit("_backup");
    }
    let mut out = with_suffix(name, "_backup");
    if attempt > 0 {
        let mut digits: Vec<char> = Vec::new();
        digits.push('_');
        push_decimal(&mut digits, attempt);
        push_all(&mut out, &digits);
    }
    assert(out@ =~= backup_name_of(name@, attempt as nat));
    out
}

/// The file extensions of video and audio inputs, lower case.
pub open spec fn is_media_ext(e: Seq<char>) -> bool {
    e == "mp4"@ || e == "avi"@ || e == "mkv"@ || e == "mov"@ || e == "wmv"@ || e == "flv"@ || e
        == "webm"@ || e == "mp3"@ || e == "wav"@ || e == "flac"@ || e == "aac"@ || e == "ogg"@
        || e == "m4a"@
}

/// Whether a file with extension `ext` is a video or audio input, in any
/// case.
pub fn is_media_extension(ext: &str) -> (r: bool)
    ensures
        r == is_media_ext(lower_of(ext@)),
        is_ascii_text(ext@) ==> r == is_media_ext(ascii_lower(ext@)),
{
    let e = lowercase(ext);
    let e = e.as_str();
    same_text(e, "mp4") || same_text(e, "avi") || same_text(e, "mkv") || same_text(e, "mov")
        || same_text(e, "wmv") || same_text(e, "flv") || same_text(e, "webm") || same_text(
        e,
        "mp3",
    ) || same_text(e, "wav") || same_text(e, "flac") || same_text(e, "aac") || same_text(e, "ogg")
        || same_text(e, "m4a")
}

/// Whether a file with extension `ext` is a text input, in any case.
pub fn is_text_extension(ext: &str) -> (r: bool)
    ensures
        r == (lower_of(ext@) == "txt"@),
        is_ascii_text(ext@) ==> r == (ascii_lower(ext@) == "txt"@),
{
    let e = lowercase(ext);
    same_text(e.as_str(), "txt")
}

/// Whether a file with extension `ext` is a model file (exactly `bin`).
pub fn is_model_extension(ext: &str) -> (r: bool)
    ensures
        r == (ext@ == "bin"@),
{
    same_text(ext, "bin")
}

/// The indices of the accepted entries, in order, or `None` where none is.
pub fn pick_inputs(accepted: &Vec<bool>) -> (r: Option<Vec<usize>>)
    ensures
        r is None <==> forall|i: int| 0 <= i < accepted.len() ==> !#[trigger] accepted@[i],
        r is Some ==> forall|k: int|
            0 <= k < r->0.len() ==> (#[trigger] r->0@[k]) < accepted.len() && accepted@[r->0@[k] as int],
        r is Some ==> forall|k: int, m: int|
            0 <= k < m < r->0.len() ==> #[trigger] r->0@[k] < #[trigger] r->0@[m],
        r is Some ==> forall|i: int|
            0 <= i < accepted.len() && #[trigger] accepted@[i] ==> exists|k: int|
                0 <= k < r->0.len() && r->0@[k] == i,
{
    let mut v: Vec<usize> = Vec::new();
    let mut i: usize = 0;
    while i < accepted.len()
        invariant
            i <= accepted.len(),
            forall|k: int| 0 <= k < v.len() ==> (#[trigger] v@[k]) < i && accepted@[v@[k] as int],
            forall|k: int, m: int| 0 <= k < m < v.len() ==> #[trigger] v@[k] < #[trigger] v@[m],
            forall|j: int| 0 <= j < i && #[trigger] accepted@[j] ==> exists|k: int|
                0 <= k < v.len() && v@[k] == j,
        decreases accepted.len() - i,
    {
        if accepted[i] {
            let ghost old_v = v@;
            v.push(i);
            assert forall|j: int| 0 <= j < i + 1 && #[trigger] accepted@[j] implies exists|k: int|
                0 <= k < v.len() && v@[k] == j by {
                if j == i {
                    assert(v@[old_v.len() as int] == j);
                } else {
                    let k = choose|k: int| 0 <= k < old_v.len() && old_v[k] == j;
                    assert(v@[k] == j);
                }
            }
        }
        i = i + 1;
    }
    if v.len() == 0 {
        assert forall|i: int| 0 <= i < accepted.len() implies !#[trigger] accepted@[i] by {
            if accepted@[i] {
                let k = choose|k: int| 0 <= k < v.len() && v@[k] == i;
            }
        }
        None
    } else {
        assert(accepted@[v@[0] as int]);
        let r = Some(v);
        assert forall|i: int| 0 <= i < accepted.len() && #[trigger] accepted@[i] implies exists|k: int|
            0 <= k < r->0.len() && r->0@[k] == i by {
            let k = choose|k: int| 0 <= k < v.len() && v@[k] == i;
            assert(r->0@[k] == i);
        }
        r
    }
}

/// The model file name: the one asked for, or `DEFAULT_MODEL`.
pub fn model_file_name(requested: Option<String>) -> (r: String)
    ensures
        r@ == (match requested {
            Some(n) => n@,
            None => DEFAULT_MODEL@,
        }),
{
    match requested {
        Some(n) => n,
        None => DEFAULT_MODEL.to_string(),
    }
}

/// Which model file is used.
#[derive(PartialEq, Eq, Structural, Debug, Clone, Copy)]
pub enum ModelChoice {
    /// The file named by `model_file_name`.
    Named,
    /// The one `.bin` file of the models directory.
    OnlyBin,
}

/// Why no model file can be chosen.
#[derive(PartialEq, Eq, Structural, Debug, Clone, Copy)]
pub enum ModelError {
    NoModel,
    SeveralModels,
}

/// The named model where it exists as a file; else the only `.bin` file of
/// the models directory; an error where there is none or more than one.
pub fn choose_model(named_exists: bool, bin_files: usize) -> (r: Result<ModelChoice, ModelError>)
    ensures
        r == (if named_exists {
            Ok::<ModelChoice, ModelError>(ModelChoice::Named)
        } else if bin_files == 0 {
            Err(ModelError::NoModel)
        } else if bin_files > 1 {
            Err(ModelError::SeveralModels)
        } else {
            Ok(ModelChoice::OnlyBin)
        }),
{
    if named_exists {
        Ok(ModelChoice::Named)
    } else if bin_files == 0 {
        Err(ModelError::NoModel)
    } else if bin_files > 1 {
        Err(ModelError::SeveralModels)
    } else {
        Ok(ModelChoice::OnlyBin)
    }
}

/// The arguments of the audio extractor: overwrite, read `input`, drop the
/// video, one channel, 16 kHz, WAV into `output`.
pub fn ffmpeg_args(input: &str, output: &str) -> (r: Vec<String>)
    ensures
        views(r@) == seq![
            "-y"@,
            "-i"@,
            input@,
            "-vn"@,
            "-ac"@,
            "1"@,
            "-ar"@,
            "16000"@,
            "-f"@,
            "wav"@,
            output@,
        ],
{
    let mut v: Vec<String> = Vec::new();
    v.push("-y".to_string());
    v.push("-i".to_string());
    v.push(input.to_string());
    v.push("-vn".to_string());
    v.push("-ac".to_string());
    v.push("1".to_string());
    v.push("-ar".to_string());
    v.push("16000".to_string());
    v.push("-f".to_string());
    v.push("wav".to_string());
    v.push(output.to_string());
    assert(views(v@) =~= seq![
        "-y"@,
        "-i"@,
        input@,
        "-vn"@,
        "-ac"@,
        "1"@,
        "-ar"@,
        "16000"@,
        "-f"@,
        "wav"@,
        output@,
    ]);
    v
}

/// The arguments of the transcriber: `model`, the audio file, translate to
/// English, beam size 8, best of 1, 8 threads, text output at `out_base`
/// (the tool adds `.txt`).
pub fn whisper_args(model: &str, audio: &str, out_base: &str) -> (r: Vec<String>)
    ensures
        views(r@) == seq![
            "-m"@,
            model@,
            "-f"@,
            audio@,
            "-tr"@,
            "-bs"@,
            "8"@,
            "-bo"@,
            "1"@,
            "-t"@,
            "8"@,
            "-otxt"@,
            "-of"@,
            out_base@,
        ],
{
    let mut v: Vec<String> = Vec::new();
    v.push("-m".to_string());
    v.push(model.to_string());
    v.push("-f".to_string());
    v.push(audio.to_string());
    v.push("-tr".to_string());
    v.push("-bs".to_string());
    v.push("8".to_string());
    v.push("-bo".to_string());
    v.push("1".to_string());
    v.push("-t".to_string());
    v.push("8".to_string());
    v.push("-otxt".to_string());
    v.push("-of".to_string());
    v.push(out_base.to_string());
    assert(views(v@) =~= seq![
        "-m"@,
        model@,
        "-f"@,
        audio@,
        "-tr"@,
        "-bs"@,
        "8"@,
        "-bo"@,
        "1"@,
        "-t"@,
        "8"@,
        "-otxt"@,
        "-of"@,
        out_base@,
    ]);
    v
}

} // verus!
