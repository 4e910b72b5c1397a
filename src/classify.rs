//! Deciding whether a line of transcript text is English: a cheap ratio of
//! ASCII letters first, a statistical language detector only where the ratio
//! does not settle it.

use vstd::prelude::*;
use crate::text::{
    ascii_letter_count, chars_of, collapse_white, collapse_white_of, is_ascii_digit, is_ascii_letter,
    is_white_space, join_space, lemma_collapse_counts, lemma_split_white_len, non_white_count,
    nonempty, split_white, words,
};

verus! {

#[verifier::external_type_specification]
#[verifier::external_body]
pub struct ExRegex(regex::Regex);

#[verifier::external_type_specification]
#[verifier::external_body]
pub struct ExRegexError(regex::Error);

#[verifier::external_type_specification]
#[verifier::external_body]
pub struct ExLanguageDetector(lingua::LanguageDetector);

/// Characters that are neither letters, numbers nor white space.
pub const SYMBOL_PATTERN: &'static str = r"[^\p{L}\p{N}\s]";

/// What replacing each match of `SYMBOL_PATTERN` in `s` by one space gives.
pub uninterp spec fn symbols_blanked(s: Seq<char>) -> Seq<char>;

/// The text the classifier looks at: symbols blanked, white space collapsed.
pub open spec fn cleaned(s: Seq<char>) -> Seq<char> {
    collapse_white(symbols_blanked(s))
}

/// The verdict of the ratio check on cleaned text `c`: not English when `c` is
/// empty, English when at least 60% of its characters are ASCII letters, and
/// no verdict otherwise.
pub open spec fn ratio_verdict(c: Seq<char>) -> Option<bool> {
    if c.len() == 0 {
        Some(false)
    } else if 5 * ascii_letter_count(c) >= 3 * c.len() {
        Some(true)
    } else {
        None
    }
}

/// A character of the CJK Unified Ideographs block.
pub open spec fn is_cjk_ideograph(c: char) -> bool {
    0x4e00 <= c as u32 <= 0x9fff
}

/// `s` is not empty and consists of CJK ideographs.
pub open spec fn all_cjk(s: Seq<char>) -> bool {
    s.len() > 0 && forall|i: int| 0 <= i < s.len() ==> is_cjk_ideograph(#[trigger] s[i])
}

/// Every character of `s` is an ASCII letter, an ASCII digit or white space.
pub open spec fn plain_ascii_words(s: Seq<char>) -> bool {
    forall|i: int|
        0 <= i < s.len() ==> is_ascii_letter(#[trigger] s[i]) || is_ascii_digit(s[i])
            || is_white_space(s[i])
}

/// What holds of every verdict `r` on `text`, whatever the detector
/// answers: the ratio check decides where it gives a verdict; text of ASCII
/// letters and spaces with a letter is English; text of CJK ideographs is
/// not.
pub open spec fn english_consistent(text: Seq<char>, r: bool) -> bool {
    &&& (ratio_verdict(cleaned(text)) matches Some(b) ==> r == b)
    &&& (letters_and_spaces(text) && ascii_letter_count(text) > 0 ==> r)
    &&& (all_cjk(text) ==> !r)
}

/// Every character of `s` is an ASCII letter.
pub open spec fn all_letters(w: Seq<char>) -> bool {
    forall|i: int| 0 <= i < w.len() ==> is_ascii_letter(#[trigger] w[i])
}

/// Every character of `s` is an ASCII letter or a space.
pub open spec fn letters_and_spaces(s: Seq<char>) -> bool {
    forall|i: int| 0 <= i < s.len() ==> is_ascii_letter(#[trigger] s[i]) || s[i] == ' '
}

/// No character of `s` is an ASCII letter.
pub open spec fn no_ascii_letter(s: Seq<char>) -> bool {
    forall|i: int| 0 <= i < s.len() ==> !is_ascii_letter(#[trigger] s[i])
}

proof fn lemma_no_letters_count(s: Seq<char>)
    requires
        no_ascii_letter(s),
    ensures
        ascii_letter_count(s) == 0,
    decreases s.len(),
{
    if s.len() > 0 {
        assert(no_ascii_letter(s.drop_last())) by {
            assert forall|i: int| 0 <= i < s.drop_last().len() implies !is_ascii_letter(
                #[trigger] s.drop_last()[i],
            ) by {
                assert(s.drop_last()[i] == s[i]);
            }
        }
        lemma_no_letters_count(s.drop_last());
        assert(!is_ascii_letter(s[s.len() - 1]));
    }
}

proof fn lemma_split_white_letters(s: Seq<char>)
    requires
        letters_and_spaces(s),
    ensures
        forall|k: int| 0 <= k < split_white(s).len() ==> all_letters(#[trigger] split_white(s)[k]),
    decreases s.len(),
{
    if s.len() == 0 {
        assert(split_white(s)[0] =~= Seq::<char>::empty());
    } else {
        let init = s.drop_last();
        assert(letters_and_spaces(init)) by {
            assert forall|i: int| 0 <= i < init.len() implies is_ascii_letter(#[trigger] init[i])
                || init[i] == ' ' by {
                assert(init[i] == s[i]);
            }
        }
        lemma_split_white_letters(init);
        lemma_split_white_len(init);
        let ls = split_white(init);
        let c = s.last();
        assert(is_ascii_letter(c) || c == ' ');
        if is_white_space(c) {
            assert forall|k: int| 0 <= k < split_white(s).len() implies all_letters(
                #[trigger] split_white(s)[k],
            ) by {
                if k < ls.len() {
                    assert(split_white(s)[k] == ls[k]);
                } else {
                    assert(split_white(s)[k] =~= Seq::<char>::empty());
                }
            }
        } else {
            assert(is_ascii_letter(c));
            assert forall|k: int| 0 <= k < split_white(s).len() implies all_letters(
                #[trigger] split_white(s)[k],
            ) by {
                if k < ls.len() - 1 {
                    assert(split_white(s)[k] == ls[k]);
                } else {
                    let w = ls.last().push(c);
                    assert(split_white(s)[k] == w);
                    assert(all_letters(ls[ls.len() - 1]));
                    assert forall|i: int| 0 <= i < w.len() implies is_ascii_letter(#[trigger] w[i]) by {
                        if i < w.len() - 1 {
                            assert(w[i] == ls.last()[i]);
                        }
                    }
                }
            }
        }
    }
}

proof fn lemma_nonempty_letters(ls: Seq<Seq<char>>)
    requires
        forall|k: int| 0 <= k < ls.len() ==> all_letters(#[trigger] ls[k]),
    ensures
        forall|k: int| 0 <= k < nonempty(ls).len() ==> all_letters(#[trigger] nonempty(ls)[k]),
    decreases ls.len(),
{
    if ls.len() > 0 {
        let init = ls.drop_last();
        assert forall|k: int| 0 <= k < init.len() implies all_letters(#[trigger] init[k]) by {
            assert(init[k] == ls[k]);
        }
        lemma_nonempty_letters(init);
        let ne = nonempty(init);
        assert forall|k: int| 0 <= k < nonempty(ls).len() implies all_letters(
            #[trigger] nonempty(ls)[k],
        ) by {
            if k < ne.len() {
                assert(nonempty(ls)[k] == ne[k]);
            } else {
                assert(nonempty(ls)[k] == ls[ls.len() - 1]);
            }
        }
    }
}

proof fn lemma_join_letters(ws: Seq<Seq<char>>)
    requires
        forall|k: int| 0 <= k < ws.len() ==> all_letters(#[trigger] ws[k]),
    ensures
        letters_and_spaces(join_space(ws)),
    decreases ws.len(),
{
    if ws.len() == 1 {
        assert(all_letters(ws[0]));
    } else if ws.len() > 1 {
        let init = ws.drop_last();
        assert forall|k: int| 0 <= k < init.len() implies all_letters(#[trigger] init[k]) by {
            assert(init[k] == ws[k]);
        }
        lemma_join_letters(init);
        let a = join_space(init);
        let w = ws.last();
        assert(all_letters(ws[ws.len() - 1]));
        let j = a + seq![' '] + w;
        assert(join_space(ws) == j);
        assert forall|i: int| 0 <= i < j.len() implies is_ascii_letter(#[trigger] j[i]) || j[i]
            == ' ' by {
            if i < a.len() {
                assert(j[i] == a[i]);
            } else if i == a.len() {
                assert(j[i] == ' ');
            } else {
                assert(j[i] == w[i - a.len() - 1]);
            }
        }
    }
}

/// Collapsing white space in text of ASCII letters and spaces leaves text
/// of ASCII letters and spaces.
proof fn lemma_collapse_letters(s: Seq<char>)
    requires
        letters_and_spaces(s),
    ensures
        letters_and_spaces(collapse_white(s)),
{
    lemma_split_white_letters(s);
    lemma_nonempty_letters(split_white(s));
    lemma_join_letters(words(s));
}

proof fn lemma_split_white_solid(s: Seq<char>)
    requires
        forall|i: int| 0 <= i < s.len() ==> !is_white_space(#[trigger] s[i]),
    ensures
        split_white(s) == seq![s],
    decreases s.len(),
{
    if s.len() == 0 {
        assert(s =~= Seq::<char>::empty());
    } else {
        let init = s.drop_last();
        assert forall|i: int| 0 <= i < init.len() implies !is_white_space(#[trigger] init[i]) by {
            assert(init[i] == s[i]);
        }
        lemma_split_white_solid(init);
        assert(!is_white_space(s[s.len() - 1]));
        assert(init.push(s.last()) =~= s);
        assert(seq![init].update(0, s) =~= seq![s]);
    }
}

/// Text of CJK ideographs holds no white space, so collapsing leaves it.
proof fn lemma_collapse_cjk(s: Seq<char>)
    requires
        all_cjk(s),
    ensures
        collapse_white(s) == s,
{
    assert forall|i: int| 0 <= i < s.len() implies !is_white_space(#[trigger] s[i]) by {
        assert(is_cjk_ideograph(s[i]));
    }
    lemma_split_white_solid(s);
    let one: Seq<Seq<char>> = seq![s];
    assert(one.drop_last() =~= Seq::<Seq<char>>::empty());
    assert(nonempty(one.drop_last()) == Seq::<Seq<char>>::empty());
    assert(one.last() == s);
    assert(Seq::<Seq<char>>::empty().push(s) =~= one);
    assert(nonempty(one) == one);
}

pub enum ClassifierError {
    /// The symbol pattern did not compile.
    InvalidPattern,
}

/// Relies on `regex::Regex::new`: compiles a pattern, or reports why not; it
/// fails only on a pattern that is invalid or over the size limit, which
/// `SYMBOL_PATTERN` is not.
#[verifier::external_body]
fn compile_pattern(pattern: &str) -> (r: Result<regex::Regex, regex::Error>)
    ensures
        pattern@ == SYMBOL_PATTERN@ ==> r is Ok,
{
    regex::Regex::new(pattern)
}

/// Relies on lingua's `LanguageDetectorBuilder::from_languages` and `build`:
/// a detector that chooses between English and Chinese.
#[verifier::external_body]
fn english_chinese_detector() -> (r: lingua::LanguageDetector) {
    lingua::LanguageDetectorBuilder::from_languages(
        &[lingua::Language::English, lingua::Language::Chinese],
    ).build()
}

/// The number of ASCII letters in `v`.
pub fn count_ascii_letters(v: &Vec<char>) -> (n: usize)
    ensures
        n == ascii_letter_count(v@),
        n <= v.len(),
{
    let mut n: usize = 0;
    let mut i: usize = 0;
    while i < v.len()
        invariant
            i <= v.len(),
            n == ascii_letter_count(v@.take(i as int)),
            n <= i,
        decreases v.len() - i,
    {
        assert(v@.take(i + 1).drop_last() =~= v@.take(i as int));
        let u = v[i] as u32;
        if (65 <= u && u <= 90) || (97 <= u && u <= 122) {
            n = n + 1;
        }
        i = i + 1;
    }
    assert(v@.take(v.len() as int) =~= v@);
    n
}

/// The ratio check on already cleaned text.
pub fn ascii_ratio_verdict(cleaned_text: &str) -> (r: Option<bool>)
    ensures
        r == ratio_verdict(cleaned_text@),
{
    let v = chars_of(cleaned_text);
    if v.len() == 0 {
        return Some(false);
    }
    let letters = count_ascii_letters(&v);
    if (letters as u128) * 5 >= (v.len() as u128) * 3 {
        Some(true)
    } else {
        None
    }
}

/// `s` with its white-space runs turned into single spaces and its ends
/// trimmed.
pub fn collapse_whitespace(s: &str) -> (r: String)
    ensures
        r@ == collapse_white(s@),
{
    let v = chars_of(s);
    collapse_white_of(&v)
}

/// Classifies lines of text as English or not.
pub struct TextClassifier {
    symbols: regex::Regex,
    detector: lingua::LanguageDetector,
}

impl TextClassifier {
    /// A classifier with the symbol pattern compiled and a detector that
    /// chooses between English and Chinese.
    pub fn new() -> (r: Result<TextClassifier, ClassifierError>)
        ensures
            r is Ok,
    {
        match compile_pattern(SYMBOL_PATTERN) {
            Ok(symbols) => Ok(TextClassifier { symbols, detector: english_chinese_detector() }),
            Err(_) => Err(ClassifierError::InvalidPattern),
        }
    }

    /// Relies on `regex::Regex::replace_all` with the `SYMBOL_PATTERN` that
    /// `new` compiled: each character that is not a letter (`\p{L}`), a
    /// number (`\p{N}`) or white space (`\s`) becomes one space; ASCII
    /// letters, digits, white space and CJK ideographs (letters, `Lo`) are
    /// kept.
    #[verifier::external_body]
    fn blank_symbols(&self, text: &str) -> (r: String)
        ensures
            r@ == symbols_blanked(text@),
            r@.len() == text@.len(),
            forall|i: int| 0 <= i < text@.len() ==> #[trigger] r@[i] == text@[i] || r@[i] == ' ',
            forall|i: int|
                0 <= i < text@.len() && (is_ascii_letter(text@[i]) || is_ascii_digit(text@[i])
                    || is_white_space(text@[i]) || is_cjk_ideograph(text@[i])) ==> #[trigger] r@[i]
                    == text@[i],
    {
        self.symbols.replace_all(text, " ").into_owned()
    }

    /// Relies on lingua's `LanguageDetector::detect_language_of` on the
    /// detector that `new` built (English and Chinese): whether it detects
    /// English. Its answer on mixed text may vary between calls; its rule
    /// stage alone settles two cases: words of Latin letters leave English
    /// as the only candidate, and Han characters count for Chinese.
    #[verifier::external_body]
    fn detect_english(&self, text: &str) -> (r: bool)
        ensures
            letters_and_spaces(text@) && ascii_letter_count(text@) > 0 ==> r,
            all_cjk(text@) ==> !r,
    {
        matches!(self.detector.detect_language_of(text), Some(lingua::Language::English))
    }

    /// `text` with symbols blanked and white space collapsed.
    pub fn clean_text(&self, text: &str) -> (r: String)
        ensures
            r@ == cleaned(text@),
    {
        let blanked = self.blank_symbols(text);
        collapse_whitespace(blanked.as_str())
    }

    /// Whether `text` is English: the ratio check on the cleaned text, and
    /// the detector where that gives no verdict.
    pub fn is_english(&self, text: &str) -> (r: bool)
        ensures
            english_consistent(text@, r),
            plain_ascii_words(text@) ==> cleaned(text@) == collapse_white(text@),
    {
        let blanked = self.blank_symbols(text);
        let c = collapse_whitespace(blanked.as_str());
        let ghost t = text@;
        let ghost b = blanked@;
        proof {
            lemma_collapse_counts(b);
            if plain_ascii_words(t) {
                assert(b =~= t) by {
                    assert forall|i: int| 0 <= i < t.len() implies b[i] == t[i] by {
                        assert(is_ascii_letter(t[i]) || is_ascii_digit(t[i]) || is_white_space(t[i]));
                    }
                }
            }
            if letters_and_spaces(t) {
                assert(plain_ascii_words(t)) by {
                    assert forall|i: int| 0 <= i < t.len() implies is_ascii_letter(#[trigger] t[i])
                        || is_ascii_digit(t[i]) || is_white_space(t[i]) by {
                        assert(is_ascii_letter(t[i]) || t[i] == ' ');
                    }
                }
                assert(b == t);
                lemma_collapse_letters(t);
                if c@.len() == 0 {
                    assert(ascii_letter_count(c@) == 0);
                }
            }
            if all_cjk(t) {
                assert(b =~= t) by {
                    assert forall|i: int| 0 <= i < t.len() implies b[i] == t[i] by {
                        assert(is_cjk_ideograph(t[i]));
                    }
                }
                lemma_collapse_cjk(t);
                assert(no_ascii_letter(t)) by {
                    assert forall|i: int| 0 <= i < t.len() implies !is_ascii_letter(#[trigger] t[i]) by {
                        assert(is_cjk_ideograph(t[i]));
                    }
                }
                lemma_no_letters_count(t);
            }
        }
        let verdict = ascii_ratio_verdict(c.as_str());
        let detected = match verdict {
            Some(_) => false,
            None => self.detect_english(c.as_str()),
        };
        english_from(c.as_str(), detected)
    }
}

/// The verdict on cleaned text `cleaned_text` given the detector's answer
/// on it: the ratio check where it decides, else the detector.
pub fn english_from(cleaned_text: &str, detected: bool) -> (r: bool)
    ensures
        r == match ratio_verdict(cleaned_text@) {
            Some(b) => b,
            None => detected,
        },
{
    match ascii_ratio_verdict(cleaned_text) {
        Some(b) => b,
        None => detected,
    }
}

} // verus!
