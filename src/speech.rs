//! Text-to-speech batch planning: which lines of a text file are spoken, the
//! audio file names each line gets, and the requests sent for it.

use vstd::prelude::*;
use crate::normalize::is_ascii_text;
use crate::text::{
    chars_of, nonblank_lines, nonblank_lines_of, push_all, push_padded, replace_all, replace_str,
    string_of, views, zero_padded,
};

verus! {

/// The speaker sample used for the male voice.
pub const MALE_SPEAKER_WAV: &'static str = "1320-122617-0037.wav";

/// Characters that file systems refuse in names.
pub open spec fn is_forbidden(c: char) -> bool {
    c == '\\' || c == '/' || c == ':' || c == '*' || c == '?' || c == '"' || c == '<' || c == '>'
        || c == '|'
}

/// A character as it stands in a file name: forbidden and non-ASCII
/// characters become `_`.
pub open spec fn file_char(c: char) -> char {
    if is_forbidden(c) || (c as u32) >= 128 {
        '_'
    } else {
        c
    }
}

/// `s` without leading `c` characters.
pub open spec fn strip_start(s: Seq<char>, c: char) -> Seq<char>
    decreases s.len(),
{
    if s.len() > 0 && s[0] == c {
        strip_start(s.drop_first(), c)
    } else {
        s
    }
}

/// `s` without trailing `c` characters.
pub open spec fn strip_end(s: Seq<char>, c: char) -> Seq<char>
    decreases s.len(),
{
    if s.len() > 0 && s.last() == c {
        strip_end(s.drop_last(), c)
    } else {
        s
    }
}

/// The file-name form of a line: characters mapped by `file_char`, `_`
/// trimmed from both ends, `..` replaced by `.` and trailing dots removed.
pub open spec fn safe_name(line: Seq<char>) -> Seq<char> {
    let mapped = line.map_values(|c: char| file_char(c));
    let trimmed = strip_end(strip_start(mapped, '_'), '_');
    strip_end(replace_all(trimmed, seq!['.', '.'], seq!['.']), '.')
}

/// The audio file name of line `line_number` (counted from 1) with text
/// `line`: its file-name form with `.wav`, or `line_NNN.wav` where that form
/// has fewer than 3 characters (bytes alike: the form is ASCII).
pub open spec fn audio_name(line: Seq<char>, line_number: nat) -> Seq<char> {
    let safe = safe_name(line);
    if safe.len() < 3 {
        seq!['l', 'i', 'n', 'e', '_'] + zero_padded(line_number, 3) + seq!['.', 'w', 'a', 'v']
    } else {
        safe + seq!['.', 'w', 'a', 'v']
    }
}

pub open spec fn wav_suffix() -> Seq<char> {
    seq!['.', 'w', 'a', 'v']
}

pub open spec fn female_suffix() -> Seq<char> {
    seq!['_', 'f', 'e', 'm', 'a', 'l', 'e', '.', 'w', 'a', 'v']
}

pub open spec fn male_suffix() -> Seq<char> {
    seq!['_', 'm', 'a', 'l', 'e', '.', 'w', 'a', 'v']
}

proof fn lemma_strip_start_skip(s: Seq<char>, c: char, i: int)
    requires
        0 <= i <= s.len(),
        forall|k: int| 0 <= k < i ==> #[trigger] s[k] == c,
    ensures
        strip_start(s, c) == strip_start(s.subrange(i, s.len() as int), c),
    decreases i,
{
    if i > 0 {
        assert(s.drop_first().subrange(i - 1, s.drop_first().len() as int) =~= s.subrange(
            i,
            s.len() as int,
        ));
        lemma_strip_start_skip(s.drop_first(), c, i - 1);
    } else {
        assert(s.subrange(0, s.len() as int) =~= s);
    }
}

proof fn lemma_strip_end_cut(s: Seq<char>, c: char, j: int)
    requires
        0 <= j <= s.len(),
        forall|k: int| j <= k < s.len() ==> #[trigger] s[k] == c,
    ensures
        strip_end(s, c) == strip_end(s.subrange(0, j), c),
    decreases s.len() - j,
{
    if j < s.len() {
        assert(s.drop_last().subrange(0, j) =~= s.subrange(0, j));
        lemma_strip_end_cut(s.drop_last(), c, j);
    } else {
        assert(s.subrange(0, j) =~= s);
    }
}

/// `v` without leading `c` characters.
fn strip_start_of(v: &Vec<char>, c: char) -> (r: Vec<char>)
    ensures
        r@ == strip_start(v@, c),
{
    let mut i: usize = 0;
    while i < v.len() && v[i] == c
        invariant
            i <= v.len(),
            forall|k: int| 0 <= k < i ==> #[trigger] v@[k] == c,
        decreases v.len() - i,
    {
        i = i + 1;
    }
    proof {
        lemma_strip_start_skip(v@, c, i as int);
    }
    let s = string_of(v, i, v.len());
    chars_of(s.as_str())
}

/// `v` without trailing `c` characters.
fn strip_end_of(v: &Vec<char>, c: char) -> (r: Vec<char>)
    ensures
        r@ == strip_end(v@, c),
{
    let mut j: usize = v.len();
    while j > 0 && v[j - 1] == c
        invariant
            j <= v.len(),
            forall|k: int| j <= k < v.len() ==> #[trigger] v@[k] == c,
        decreases j,
    {
        j = j - 1;
    }
    proof {
        lemma_strip_end_cut(v@, c, j as int);
    }
    let s = string_of(v, 0, j);
    chars_of(s.as_str())
}

proof fn lemma_strip_start_ascii(s: Seq<char>, c: char)
    requires
        is_ascii_text(s),
    ensures
        is_ascii_text(strip_start(s, c)),
    decreases s.len(),
{
    if s.len() > 0 && s[0] == c {
        assert(is_ascii_text(s.drop_first())) by {
            assert forall|i: int| 0 <= i < s.drop_first().len() implies (#[trigger] s.drop_first()[i]
                as u32) < 128 by {
                assert(s.drop_first()[i] == s[i + 1]);
            }
        }
        lemma_strip_start_ascii(s.drop_first(), c);
    }
}

proof fn lemma_strip_end_ascii(s: Seq<char>, c: char)
    requires
        is_ascii_text(s),
    ensures
        is_ascii_text(strip_end(s, c)),
    decreases s.len(),
{
    if s.len() > 0 && s.last() == c {
        assert(is_ascii_text(s.drop_last())) by {
            assert forall|i: int| 0 <= i < s.drop_last().len() implies (#[trigger] s.drop_last()[i]
                as u32) < 128 by {
                assert(s.drop_last()[i] == s[i]);
            }
        }
        lemma_strip_end_ascii(s.drop_last(), c);
    }
}

proof fn lemma_replace_ascii(s: Seq<char>, pat: Seq<char>, rep: Seq<char>)
    requires
        is_ascii_text(s),
        is_ascii_text(rep),
    ensures
        is_ascii_text(replace_all(s, pat, rep)),
    decreases s.len(),
{
    if s.len() > 0 {
        if 0 < pat.len() <= s.len() && s.take(pat.len() as int) == pat {
            let rest = s.skip(pat.len() as int);
            assert(is_ascii_text(rest)) by {
                assert forall|i: int| 0 <= i < rest.len() implies (#[trigger] rest[i] as u32) < 128 by {
                    assert(rest[i] == s[i + pat.len()]);
                }
            }
            lemma_replace_ascii(rest, pat, rep);
            let r = rep + replace_all(rest, pat, rep);
            assert forall|i: int| 0 <= i < r.len() implies (#[trigger] r[i] as u32) < 128 by {
                if i >= rep.len() {
                    assert(r[i] == replace_all(rest, pat, rep)[i - rep.len()]);
                }
            }
        } else {
            let rest = s.drop_first();
            assert(is_ascii_text(rest)) by {
                assert forall|i: int| 0 <= i < rest.len() implies (#[trigger] rest[i] as u32) < 128 by {
                    assert(rest[i] == s[i + 1]);
                }
            }
            lemma_replace_ascii(rest, pat, rep);
            let r = seq![s[0]] + replace_all(rest, pat, rep);
            assert forall|i: int| 0 <= i < r.len() implies (#[trigger] r[i] as u32) < 128 by {
                if i >= 1 {
                    assert(r[i] == replace_all(rest, pat, rep)[i - 1]);
                }
            }
        }
    }
}

/// The file-name form of a line is ASCII, so its length in characters is
/// its length in bytes.
pub proof fn lemma_safe_name_ascii(line: Seq<char>)
    ensures
        is_ascii_text(safe_name(line)),
{
    let mapped = line.map_values(|c: char| file_char(c));
    assert(is_ascii_text(mapped)) by {
        assert forall|i: int| 0 <= i < mapped.len() implies (#[trigger] mapped[i] as u32) < 128 by {
            assert(mapped[i] == file_char(line[i]));
        }
    }
    lemma_strip_start_ascii(mapped, '_');
    lemma_strip_end_ascii(strip_start(mapped, '_'), '_');
    let trimmed = strip_end(strip_start(mapped, '_'), '_');
    let dot: Seq<char> = seq!['.'];
    assert(is_ascii_text(dot)) by {
        assert forall|i: int| 0 <= i < dot.len() implies (#[trigger] dot[i] as u32) < 128 by {
            assert(dot[i] == '.');
        }
    }
    lemma_replace_ascii(trimmed, seq!['.', '.'], dot);
    lemma_strip_end_ascii(replace_all(trimmed, seq!['.', '.'], dot), '.');
}

/// The file-name form of a line of text; it is ASCII.
pub fn safe_filename(line: &str) -> (r: String)
    ensures
        r@ == safe_name(line@),
        is_ascii_text(r@),
{
    proof {
        lemma_safe_name_ascii(line@);
    }
    let v = chars_of(line);
    let mut mapped: Vec<char> = Vec::new();
    let mut i: usize = 0;
    while i < v.len()
        invariant
            i <= v.len(),
            v@ == line@,
            mapped@ == v@.take(i as int).map_values(|c: char| file_char(c)),
        decreases v.len() - i,
    {
        let c = v[i];
        let forbidden = c == '\\' || c == '/' || c == ':' || c == '*' || c == '?' || c == '"'
            || c == '<' || c == '>' || c == '|';
        if forbidden || (c as u32) >= 128 {
            mapped.push('_');
        } else {
            mapped.push(c);
        }
        i = i + 1;
        assert(mapped@ =~= v@.take(i as int).map_values(|c: char| file_char(c)));
    }
    assert(v@.take(v.len() as int) =~= v@);
    let a = strip_start_of(&mapped, '_');
    let b = strip_end_of(&a, '_');
    let bs = string_of(&b, 0, b.len());
    assert(b@.subrange(0, b.len() as int) =~= b@);
    proof {
        reveal_strlit("..");
        reveal_strlit(".");
    }
    let replaced = replace_str(bs.as_str(), "..", ".");
    assert(".."@ =~= seq!['.', '.']);
    assert("."@ =~= seq!['.']);
    let rv = chars_of(replaced.as_str());
    let d = strip_end_of(&rv, '.');
    let r = string_of(&d, 0, d.len());
    assert(d@.subrange(0, d.len() as int) =~= d@);
    r
}

/// The audio file name of line `line_number` (counted from 1) with text
/// `line`.
pub fn audio_filename(line: &str, line_number: usize) -> (r: String)
    ensures
        r@ == audio_name(line@, line_number as nat),
{
    let safe = safe_filename(line);
    let sv = chars_of(safe.as_str());
    proof {
        reveal_strlit("line_");
        reveal_strlit(".wav");
    }
    let mut out = String::new();
    if sv.len() < 3 {
        let prefix = chars_of("line_");
        push_all(&mut out, &prefix);
        push_padded(&mut out, line_number as u64, 3);
    } else {
        push_all(&mut out, &sv);
    }
    let suffix = chars_of(".wav");
    push_all(&mut out, &suffix);
    assert(out@ =~= audio_name(line@, line_number as nat));
    out
}

/// The name of the female-voice file made from `audio_name`: every `.wav`
/// in it becomes `_female.wav`.
pub fn female_filename(audio_name: &str) -> (r: String)
    ensures
        r@ == replace_all(audio_name@, wav_suffix(), female_suffix()),
{
    proof {
        reveal_strlit(".wav");
        reveal_strlit("_female.wav");
    }
    assert(".wav"@ =~= wav_suffix());
    assert("_female.wav"@ =~= female_suffix());
    replace_str(audio_name, ".wav", "_female.wav")
}

/// The name of the male-voice file made from `audio_name`: every `.wav` in
/// it becomes `_male.wav`.
pub fn male_filename(audio_name: &str) -> (r: String)
    ensures
        r@ == replace_all(audio_name@, wav_suffix(), male_suffix()),
{
    proof {
        reveal_strlit(".wav");
        reveal_strlit("_male.wav");
    }
    assert(".wav"@ =~= wav_suffix());
    assert("_male.wav"@ =~= male_suffix());
    replace_str(audio_name, ".wav", "_male.wav")
}

/// A path written with forward slashes: each `\` becomes `/`, then each
/// `//` becomes `/`.
pub fn portable_path(path: &str) -> (r: String)
    ensures
        r@ == replace_all(replace_all(path@, seq!['\\'], seq!['/']), seq!['/', '/'], seq!['/']),
{
    proof {
        reveal_strlit("\\");
        reveal_strlit("/");
        reveal_strlit("//");
    }
    assert("\\"@ =~= seq!['\\']);
    assert("/"@ =~= seq!['/']);
    assert("//"@ =~= seq!['/', '/']);
    let a = replace_str(path, "\\", "/");
    replace_str(a.as_str(), "//", "/")
}

/// What is made for one line of a text file.
pub struct LinePlan {
    /// The line, trimmed.
    pub text: String,
    /// Counted from 1.
    pub line_number: usize,
    pub female_file: String,
    pub male_file: String,
}

/// `p` is the plan of line `line_number` with text `line`.
pub open spec fn plans_line(p: LinePlan, line: Seq<char>, line_number: nat) -> bool {
    &&& p.text@ == line
    &&& p.line_number == line_number
    &&& p.female_file@ == replace_all(audio_name(line, line_number), wav_suffix(), female_suffix())
    &&& p.male_file@ == replace_all(audio_name(line, line_number), wav_suffix(), male_suffix())
}

/// The plan of each non-blank line of `content`, in order.
pub fn plan_lines(content: &str) -> (r: Vec<LinePlan>)
    ensures
        r.len() == nonblank_lines(content@).len(),
        forall|i: int|
            0 <= i < r.len() ==> plans_line(#[trigger] r@[i], nonblank_lines(content@)[i], (i + 1) as nat),
{
    let lines = nonblank_lines_of(content);
    let ghost ls = nonblank_lines(content@);
    let mut plans: Vec<LinePlan> = Vec::new();
    let mut i: usize = 0;
    while i < lines.len()
        invariant
            i <= lines.len(),
            views(lines@) == ls,
            plans.len() == i,
            forall|k: int| 0 <= k < i ==> plans_line(#[trigger] plans@[k], ls[k], (k + 1) as nat),
        decreases lines.len() - i,
    {
        assert(views(lines@)[i as int] == lines@[i as int]@);
        let name = audio_filename(lines[i].as_str(), i + 1);
        let plan = LinePlan {
            text: lines[i].clone(),
            line_number: i + 1,
            female_file: female_filename(name.as_str()),
            male_file: male_filename(name.as_str()),
        };
        plans.push(plan);
        i = i + 1;
    }
    plans
}

/// One spoken line as recorded in the batch's data file.
pub struct AudioEntry {
    pub text: String,
    pub female_audio: String,
    pub male_audio: String,
    pub line_number: usize,
}

/// The data file of one text file's batch.
pub struct AudioData {
    pub entries: Vec<AudioEntry>,
    pub total_count: usize,
    pub output_directory: String,
    pub input_file: String,
}

/// What is sent to the speech service for one line.
pub struct TtsRequest {
    pub text: String,
    pub language: String,
    pub speaker_wav: Option<String>,
}

impl TtsRequest {
    pub fn new(text: String, language: String, speaker_wav: Option<String>) -> (r: TtsRequest)
        ensures
            r.text == text,
            r.language == language,
            r.speaker_wav == speaker_wav,
    {
        TtsRequest { text, language, speaker_wav }
    }
}

/// Why a speech request gave no audio.
#[derive(PartialEq, Eq, Structural, Debug, Clone, Copy)]
pub enum TtsFailure {
    /// The service answered with an error status.
    ServiceError,
    /// The service answered with no audio data.
    EmptyAudio,
}

/// A reply is usable when its status is a success and it carries audio.
pub fn check_tts_reply(status_ok: bool, audio_len: usize) -> (r: Result<(), TtsFailure>)
    ensures
        r == (if !status_ok {
            Err::<(), TtsFailure>(TtsFailure::ServiceError)
        } else if audio_len == 0 {
            Err(TtsFailure::EmptyAudio)
        } else {
            Ok(())
        }),
{
    if !status_ok {
        Err(TtsFailure::ServiceError)
    } else if audio_len == 0 {
        Err(TtsFailure::EmptyAudio)
    } else {
        Ok(())
    }
}

} // verus!
