//! The two tools: speaking the lines of text files, and extracting the unique
//! English lines of transcribed media. Each holds its settings as plain
//! values and makes the decisions that depend on them.

use vstd::prelude::*;
use crate::classify::{ClassifierError, TextClassifier};
use crate::classify::english_consistent;
use crate::pipeline::{
    classify_and_summarize, summarizes, write_action, TranscriptSummary, WriteAction,
};
use crate::segment::Segment;
use crate::speech::{TtsRequest, MALE_SPEAKER_WAV};

verus! {

/// The settings of the text-to-speech tool.
pub struct Txt2AudioArgs {
    pub workspace: String,
    pub tts_url: String,
    pub speaker_wav: Option<String>,
    pub language: String,
    pub force: bool,
}

/// Speaks each line of the text files of a workspace, in two voices.
pub struct Txt2Audio {
    pub args: Txt2AudioArgs,
}

impl Txt2Audio {
    pub fn new(args: Txt2AudioArgs) -> (r: Txt2Audio)
        ensures
            r.args == args,
    {
        Txt2Audio { args }
    }

    /// The request for `text` in the female voice (the service's own) or
    /// the male one (the fixed speaker sample).
    pub fn request_for(&self, text: &str, male: bool) -> (r: TtsRequest)
        ensures
            r.text@ == text@,
            r.language == self.args.language,
            male ==> r.speaker_wav is Some && r.speaker_wav->0@ == MALE_SPEAKER_WAV@,
            !male ==> r.speaker_wav is None,
    {
        let speaker = if male {
            Some(MALE_SPEAKER_WAV.to_string())
        } else {
            None
        };
        TtsRequest::new(text.to_string(), self.args.language.clone(), speaker)
    }

    /// A line is spoken again unless both its files exist and overwriting
    /// is not forced.
    pub fn needs_synthesis(&self, female_exists: bool, male_exists: bool) -> (r: bool)
        ensures
            r == !(female_exists && male_exists && !self.args.force),
    {
        write_action(female_exists && male_exists, self.args.force) == WriteAction::Write
    }
}

/// The settings of the transcript tool.
pub struct Video2EnArgs {
    pub workspace: String,
    pub model_name: Option<String>,
    pub language: String,
    pub threads: Option<usize>,
    pub gpu: bool,
    pub gpu_device: u32,
    pub force: bool,
    pub translate: bool,
}

/// Extracts the unique English lines of the transcripts of a workspace's
/// media files.
pub struct Video2En {
    pub args: Video2EnArgs,
    pub classifier: TextClassifier,
}

impl Video2En {
    pub fn new(args: Video2EnArgs) -> (r: Result<Video2En, ClassifierError>)
        ensures
            r is Ok,
            r matches Ok(v) ==> v.args == args,
    {
        match TextClassifier::new() {
            Ok(classifier) => Ok(Video2En { args, classifier }),
            Err(e) => Err(e),
        }
    }

    /// The unique English segments of a transcript, with the counts and
    /// the verdict on each segment.
    pub fn summarize(&self, segments: &Vec<Segment>) -> (r: TranscriptSummary)
        ensures
            summarizes(r, segments@),
            forall|i: int|
                0 <= i < segments.len() ==> english_consistent(
                    segments@[i].text@,
                    #[trigger] r.english@[i],
                ),
    {
        classify_and_summarize(&self.classifier, segments)
    }

    /// Whether an output file that does or does not exist is written.
    pub fn output_action(&self, target_exists: bool) -> (r: WriteAction)
        ensures
            r == (if target_exists && !self.args.force {
                WriteAction::Skip
            } else {
                WriteAction::Write
            }),
    {
        write_action(target_exists, self.args.force)
    }
}

} // verus!
