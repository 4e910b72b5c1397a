//! The dedup key of a line: trimmed, lower-cased, stripped of everything but
//! letters and white space, white space collapsed.

use vstd::prelude::*;
use crate::text::{
    chars_of, is_ascii_letter, collapse_white, collapse_white_of, is_white_space, is_white_space_char, trim, trim_end,
    lemma_collapse_prepend_white, lemma_collapse_push_white, trim_start, trim_str,
};

verus! {

/// What `str::to_lowercase` returns for `s`.
pub uninterp spec fn lower_of(s: Seq<char>) -> Seq<char>;

/// What `char::is_alphabetic` returns for `c`.
pub uninterp spec fn alphabetic(c: char) -> bool;

pub open spec fn is_ascii_text(s: Seq<char>) -> bool {
    forall|i: int| 0 <= i < s.len() ==> (#[trigger] s[i] as u32) < 128
}

pub open spec fn ascii_lower_char(c: char) -> char {
    if 65 <= c as u32 <= 90 {
        (((c as u32) + 32) as u8) as char
    } else {
        c
    }
}

/// `s` with its ASCII upper-case letters turned to lower case.
pub open spec fn ascii_lower(s: Seq<char>) -> Seq<char> {
    s.map_values(|c: char| ascii_lower_char(c))
}

/// Relies on `str::to_lowercase`: the lower-case form of `s`, which on ASCII
/// text lowers the letters A-Z and keeps every other character.
#[verifier::external_body]
pub(crate) fn lowercase(s: &str) -> (r: String)
    ensures
        r@ == lower_of(s@),
        is_ascii_text(s@) ==> r@ == ascii_lower(s@),
{
    s.to_lowercase()
}

/// Relies on `char::is_alphabetic`: the Unicode `Alphabetic` property, which
/// among ASCII characters holds of the letters alone.
#[verifier::external_body]
fn is_alphabetic(c: char) -> (r: bool)
    ensures
        r == alphabetic(c),
        (c as u32) < 128 ==> r == is_ascii_letter(c),
{
    c.is_alphabetic()
}

/// The alphabetic and white-space characters of `s`, in order.
pub open spec fn word_chars(s: Seq<char>) -> Seq<char>
    decreases s.len(),
{
    if s.len() == 0 {
        Seq::empty()
    } else {
        let init = word_chars(s.drop_last());
        if alphabetic(s.last()) || is_white_space(s.last()) {
            init.push(s.last())
        } else {
            init
        }
    }
}

/// The key of already lower-cased text: letters and white space kept,
/// white space collapsed.
pub open spec fn key_of_lowered(s: Seq<char>) -> Seq<char> {
    collapse_white(word_chars(s))
}

/// The dedup key of `s`.
pub open spec fn normalized(s: Seq<char>) -> Seq<char> {
    key_of_lowered(lower_of(trim(s)))
}

/// The ASCII letters and white-space characters of `s`, in order.
pub open spec fn ascii_word_chars(s: Seq<char>) -> Seq<char>
    decreases s.len(),
{
    if s.len() == 0 {
        Seq::empty()
    } else {
        let init = ascii_word_chars(s.drop_last());
        if is_ascii_letter(s.last()) || is_white_space(s.last()) {
            init.push(s.last())
        } else {
            init
        }
    }
}

/// The dedup key of ASCII text `s`, stated without the names of the
/// standard library's Unicode functions.
pub open spec fn ascii_key(s: Seq<char>) -> Seq<char> {
    collapse_white(ascii_word_chars(ascii_lower(trim(s))))
}

/// ASCII punctuation: `!"#$%&'()*+,-./:;<=>?@[\]^_` and `{|}~` and the
/// backquote.
pub open spec fn is_ascii_punctuation(c: char) -> bool {
    let u = c as u32;
    (33 <= u <= 47) || (58 <= u <= 64) || (91 <= u <= 96) || (123 <= u <= 126)
}

/// `s` without its ASCII punctuation.
pub open spec fn without_punctuation(s: Seq<char>) -> Seq<char>
    decreases s.len(),
{
    if s.len() == 0 {
        Seq::empty()
    } else {
        let init = without_punctuation(s.drop_last());
        if is_ascii_punctuation(s.last()) {
            init
        } else {
            init.push(s.last())
        }
    }
}

/// What is left of `s` once case, surrounding white space and punctuation
/// are set aside.
pub open spec fn folded(s: Seq<char>) -> Seq<char> {
    ascii_lower(without_punctuation(trim(s)))
}

proof fn lemma_trim_ascii(s: Seq<char>)
    requires
        is_ascii_text(s),
    ensures
        is_ascii_text(trim(s)),
{
    lemma_trim_start_ascii(s);
    lemma_trim_end_ascii(trim_start(s));
}

proof fn lemma_trim_start_ascii(s: Seq<char>)
    requires
        is_ascii_text(s),
    ensures
        is_ascii_text(trim_start(s)),
    decreases s.len(),
{
    if s.len() > 0 && is_white_space(s[0]) {
        assert(is_ascii_text(s.drop_first())) by {
            assert forall|i: int| 0 <= i < s.drop_first().len() implies (#[trigger] s.drop_first()[i]
                as u32) < 128 by {
                assert(s.drop_first()[i] == s[i + 1]);
            }
        }
        lemma_trim_start_ascii(s.drop_first());
    }
}

proof fn lemma_trim_end_ascii(s: Seq<char>)
    requires
        is_ascii_text(s),
    ensures
        is_ascii_text(trim_end(s)),
    decreases s.len(),
{
    if s.len() > 0 && is_white_space(s.last()) {
        assert(is_ascii_text(s.drop_last())) by {
            assert forall|i: int| 0 <= i < s.drop_last().len() implies (#[trigger] s.drop_last()[i]
                as u32) < 128 by {
                assert(s.drop_last()[i] == s[i]);
            }
        }
        lemma_trim_end_ascii(s.drop_last());
    }
}

proof fn lemma_word_chars_ignore_punctuation(s: Seq<char>)
    ensures
        ascii_word_chars(ascii_lower(s)) == ascii_word_chars(ascii_lower(without_punctuation(s))),
    decreases s.len(),
{
    if s.len() > 0 {
        let init = s.drop_last();
        let c = s.last();
        lemma_word_chars_ignore_punctuation(init);
        assert(ascii_lower(s).drop_last() =~= ascii_lower(init));
        assert(ascii_lower(s).last() == ascii_lower_char(c));
        let wp = without_punctuation(init);
        if is_ascii_punctuation(c) {
            assert(ascii_lower_char(c) == c);
            assert(!is_ascii_letter(c) && !is_white_space(c));
        } else {
            assert(ascii_lower(wp.push(c)).drop_last() =~= ascii_lower(wp));
            assert(ascii_lower(wp.push(c)).last() == ascii_lower_char(c));
        }
    }
}

/// The ASCII letters and white space of `s`, lower-cased.
pub open spec fn lowered_word_chars(s: Seq<char>) -> Seq<char> {
    ascii_word_chars(ascii_lower(s))
}

proof fn lemma_lowered_word_chars_last(s: Seq<char>)
    requires
        s.len() > 0,
    ensures
        lowered_word_chars(s) == if is_ascii_letter(ascii_lower_char(s.last())) || is_white_space(
            ascii_lower_char(s.last()),
        ) {
            lowered_word_chars(s.drop_last()).push(ascii_lower_char(s.last()))
        } else {
            lowered_word_chars(s.drop_last())
        },
{
    assert(ascii_lower(s).drop_last() =~= ascii_lower(s.drop_last()));
    assert(ascii_lower(s).last() == ascii_lower_char(s.last()));
}

proof fn lemma_lowered_word_chars_prepend(c: char, y: Seq<char>)
    requires
        is_white_space(c),
    ensures
        lowered_word_chars(seq![c] + y) == seq![c] + lowered_word_chars(y),
    decreases y.len(),
{
    assert(ascii_lower_char(c) == c);
    if y.len() == 0 {
        assert(seq![c] + y =~= seq![c]);
        lemma_lowered_word_chars_last(seq![c]);
        assert(seq![c].drop_last() =~= Seq::<char>::empty());
        assert(Seq::<char>::empty().push(c) =~= seq![c] + Seq::<char>::empty());
    } else {
        let yi = y.drop_last();
        lemma_lowered_word_chars_prepend(c, yi);
        lemma_lowered_word_chars_last(seq![c] + y);
        lemma_lowered_word_chars_last(y);
        assert((seq![c] + y).drop_last() =~= seq![c] + yi);
        assert((seq![c] + y).last() == y.last());
        let l = lowered_word_chars(yi);
        assert((seq![c] + l).push(ascii_lower_char(y.last())) =~= seq![c] + l.push(
            ascii_lower_char(y.last()),
        ));
    }
}

proof fn lemma_trim_start_key(x: Seq<char>)
    ensures
        collapse_white(lowered_word_chars(trim_start(x))) == collapse_white(lowered_word_chars(x)),
    decreases x.len(),
{
    if x.len() > 0 && is_white_space(x[0]) {
        let rest = x.drop_first();
        lemma_trim_start_key(rest);
        assert(x =~= seq![x[0]] + rest);
        lemma_lowered_word_chars_prepend(x[0], rest);
        lemma_collapse_prepend_white(x[0], lowered_word_chars(rest));
    }
}

proof fn lemma_trim_end_key(x: Seq<char>)
    ensures
        collapse_white(lowered_word_chars(trim_end(x))) == collapse_white(lowered_word_chars(x)),
    decreases x.len(),
{
    if x.len() > 0 && is_white_space(x.last()) {
        lemma_trim_end_key(x.drop_last());
        lemma_lowered_word_chars_last(x);
        assert(ascii_lower_char(x.last()) == x.last());
        lemma_collapse_push_white(lowered_word_chars(x.drop_last()), x.last());
    }
}

/// The ASCII dedup key of `s` is that of `s` without its punctuation, white
/// space at the ends making no difference.
proof fn lemma_ascii_key_untrimmed(s: Seq<char>)
    ensures
        ascii_key(s) == collapse_white(lowered_word_chars(without_punctuation(s))),
{
    lemma_trim_end_key(trim_start(s));
    lemma_trim_start_key(s);
    lemma_word_chars_ignore_punctuation(s);
}

/// For ASCII text, texts that differ only in case and in punctuation,
/// wherever it stands, have the same dedup key.
pub proof fn lemma_ascii_key_ignores_case_and_punctuation(s1: Seq<char>, s2: Seq<char>)
    requires
        is_ascii_text(s1),
        is_ascii_text(s2),
        ascii_lower(without_punctuation(s1)) == ascii_lower(without_punctuation(s2)),
    ensures
        ascii_key(s1) == ascii_key(s2),
{
    lemma_ascii_key_untrimmed(s1);
    lemma_ascii_key_untrimmed(s2);
}

/// Texts whose trimmed forms lower-case alike have the same dedup key.
pub proof fn lemma_key_ignores_case(s1: Seq<char>, s2: Seq<char>)
    requires
        lower_of(trim(s1)) == lower_of(trim(s2)),
    ensures
        normalized(s1) == normalized(s2),
{
}

/// For ASCII text, texts that differ only in case, in white space at their
/// ends, or in punctuation have the same dedup key.
pub proof fn lemma_ascii_key_ignores_case_space_punctuation(s1: Seq<char>, s2: Seq<char>)
    requires
        is_ascii_text(s1),
        is_ascii_text(s2),
        folded(s1) == folded(s2),
    ensures
        ascii_key(s1) == ascii_key(s2),
{
    lemma_word_chars_ignore_punctuation(trim(s1));
    lemma_word_chars_ignore_punctuation(trim(s2));
}

/// The key of already lower-cased text.
pub fn key_from_lowered(lowered: &str) -> (r: String)
    ensures
        r@ == key_of_lowered(lowered@),
        is_ascii_text(lowered@) ==> r@ == collapse_white(ascii_word_chars(lowered@)),
{
    let v = chars_of(lowered);
    let mut kept: Vec<char> = Vec::new();
    let mut i: usize = 0;
    while i < v.len()
        invariant
            i <= v.len(),
            v@ == lowered@,
            kept@ == word_chars(v@.take(i as int)),
            is_ascii_text(v@) ==> kept@ == ascii_word_chars(v@.take(i as int)),
        decreases v.len() - i,
    {
        assert(v@.take(i + 1).drop_last() =~= v@.take(i as int));
        let c = v[i];
        assert(is_ascii_text(v@) ==> (v@[i as int] as u32) < 128);
        if is_alphabetic(c) || is_white_space_char(c) {
            kept.push(c);
        }
        i = i + 1;
    }
    assert(v@.take(v.len() as int) =~= v@);
    collapse_white_of(&kept)
}

/// The dedup key of `text`; for ASCII text it is `ascii_key`.
pub fn normalize(text: &str) -> (r: String)
    ensures
        r@ == normalized(text@),
        is_ascii_text(text@) ==> r@ == ascii_key(text@),
{
    let t = trim_str(text);
    proof {
        if is_ascii_text(text@) {
            lemma_trim_ascii(text@);
        }
    }
    let lowered = lowercase(t.as_str());
    proof {
        if is_ascii_text(text@) {
            let l = lowered@;
            assert forall|i: int| 0 <= i < l.len() implies (#[trigger] l[i] as u32) < 128 by {
                assert(l[i] == ascii_lower_char(t@[i]));
                assert((t@[i] as u32) < 128);
            }
        }
    }
    key_from_lowered(lowered.as_str())
}

} // verus!
