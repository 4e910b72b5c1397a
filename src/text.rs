//! Character-level helpers over `str` and `String`: trimming, line and word
//! splitting, substring replacement and decimal digits, each stated over the
//! `Seq<char>` view.

use vstd::prelude::*;

verus! {

/// Relies on `String::push`: appends one character at the end.
pub assume_specification[ String::push ](s: &mut String, ch: char)
    ensures
        final(s)@ == old(s)@.push(ch),
;

/// The Unicode `White_Space` property, the set that `char::is_whitespace`,
/// `str::trim` and `str::split_whitespace` go by.
pub open spec fn is_white_space(c: char) -> bool {
    let u = c as u32;
    (0x09 <= u <= 0x0d) || u == 0x20 || u == 0x85 || u == 0xa0 || u == 0x1680
        || (0x2000 <= u <= 0x200a) || u == 0x2028 || u == 0x2029 || u == 0x202f
        || u == 0x205f || u == 0x3000
}

pub fn is_white_space_char(c: char) -> (r: bool)
    ensures
        r == is_white_space(c),
{
    let u = c as u32;
    (0x09 <= u && u <= 0x0d) || u == 0x20 || u == 0x85 || u == 0xa0 || u == 0x1680
        || (0x2000 <= u && u <= 0x200a) || u == 0x2028 || u == 0x2029 || u == 0x202f
        || u == 0x205f || u == 0x3000
}

/// The characters of `s`, in order.
pub fn chars_of(s: &str) -> (v: Vec<char>)
    ensures
        v@ == s@,
{
    let mut v: Vec<char> = Vec::new();
    for c in it: s.chars()
        invariant
            v@ == it.seq().take(it.index() as int),
    {
        v.push(c);
    }
    v
}

/// The string made of `v[lo..hi]`.
pub fn string_of(v: &Vec<char>, lo: usize, hi: usize) -> (s: String)
    requires
        lo <= hi <= v.len(),
    ensures
        s@ == v@.subrange(lo as int, hi as int),
{
    let mut s = String::new();
    let mut i: usize = lo;
    while i < hi
        invariant
            lo <= i <= hi <= v.len(),
            s@ == v@.subrange(lo as int, i as int),
        decreases hi - i,
    {
        s.push(v[i]);
        i = i + 1;
        assert(s@ =~= v@.subrange(lo as int, i as int));
    }
    s
}

/// Appends `t` to `out`.
pub fn push_all(out: &mut String, t: &Vec<char>)
    ensures
        final(out)@ == old(out)@ + t@,
{
    let mut i: usize = 0;
    while i < t.len()
        invariant
            i <= t.len(),
            out@ == old(out)@ + t@.take(i as int),
        decreases t.len() - i,
    {
        out.push(t[i]);
        i = i + 1;
        assert(out@ =~= old(out)@ + t@.take(i as int));
    }
    assert(t@.take(t.len() as int) =~= t@);
}

pub open spec fn is_ascii_letter(c: char) -> bool {
    (65 <= c as u32 <= 90) || (97 <= c as u32 <= 122)
}

pub open spec fn is_ascii_digit(c: char) -> bool {
    48 <= c as u32 <= 57
}

/// The number of ASCII letters in `s`.
pub open spec fn ascii_letter_count(s: Seq<char>) -> nat
    decreases s.len(),
{
    if s.len() == 0 {
        0
    } else {
        ascii_letter_count(s.drop_last()) + if is_ascii_letter(s.last()) {
            1nat
        } else {
            0nat
        }
    }
}

// ---------------------------------------------------------------- trimming

/// `s` without its leading white space.
pub open spec fn trim_start(s: Seq<char>) -> Seq<char>
    decreases s.len(),
{
    if s.len() > 0 && is_white_space(s[0]) {
        trim_start(s.drop_first())
    } else {
        s
    }
}

/// `s` without its trailing white space.
pub open spec fn trim_end(s: Seq<char>) -> Seq<char>
    decreases s.len(),
{
    if s.len() > 0 && is_white_space(s.last()) {
        trim_end(s.drop_last())
    } else {
        s
    }
}

/// `s` without white space at either end, as `str::trim` gives it.
pub open spec fn trim(s: Seq<char>) -> Seq<char> {
    trim_end(trim_start(s))
}

proof fn lemma_trim_start_skip(s: Seq<char>, i: int)
    requires
        0 <= i <= s.len(),
        forall|k: int| 0 <= k < i ==> is_white_space(#[trigger] s[k]),
    ensures
        trim_start(s) == trim_start(s.subrange(i, s.len() as int)),
    decreases i,
{
    if i > 0 {
        assert(s.drop_first().subrange(i - 1, s.drop_first().len() as int) =~= s.subrange(
            i,
            s.len() as int,
        ));
        lemma_trim_start_skip(s.drop_first(), i - 1);
    } else {
        assert(s.subrange(0, s.len() as int) =~= s);
    }
}

proof fn lemma_trim_end_cut(s: Seq<char>, j: int)
    requires
        0 <= j <= s.len(),
        forall|k: int| j <= k < s.len() ==> is_white_space(#[trigger] s[k]),
    ensures
        trim_end(s) == trim_end(s.subrange(0, j)),
    decreases s.len() - j,
{
    if j < s.len() {
        assert(s.drop_last().subrange(0, j) =~= s.subrange(0, j));
        lemma_trim_end_cut(s.drop_last(), j);
    } else {
        assert(s.subrange(0, j) =~= s);
    }
}

/// The bounds `lo..hi` of `v` with white space trimmed from both ends.
pub fn trim_bounds(v: &Vec<char>, lo: usize, hi: usize) -> (r: (usize, usize))
    requires
        lo <= hi <= v.len(),
    ensures
        lo <= r.0 <= r.1 <= hi,
        v@.subrange(r.0 as int, r.1 as int) == trim(v@.subrange(lo as int, hi as int)),
{
    let ghost s = v@.subrange(lo as int, hi as int);
    let mut i: usize = lo;
    while i < hi && is_white_space_char(v[i])
        invariant
            lo <= i <= hi <= v.len(),
            s == v@.subrange(lo as int, hi as int),
            forall|k: int| lo <= k < i ==> is_white_space(#[trigger] v@[k]),
        decreases hi - i,
    {
        i = i + 1;
    }
    let ghost t = v@.subrange(i as int, hi as int);
    proof {
        assert forall|k: int| 0 <= k < i - lo implies is_white_space(#[trigger] s[k]) by {
            assert(s[k] == v@[lo + k]);
        }
        lemma_trim_start_skip(s, i - lo);
        assert(s.subrange(i - lo, s.len() as int) =~= t);
        if i < hi {
            assert(t[0] == v@[i as int]);
        }
        assert(trim_start(t) == t);
    }
    let mut j: usize = hi;
    while j > i && is_white_space_char(v[j - 1])
        invariant
            lo <= i <= j <= hi <= v.len(),
            forall|k: int| j <= k < hi ==> is_white_space(#[trigger] v@[k]),
        decreases j - i,
    {
        j = j - 1;
    }
    proof {
        assert forall|k: int| j - i <= k < t.len() implies is_white_space(#[trigger] t[k]) by {
            assert(t[k] == v@[i + k]);
        }
        lemma_trim_end_cut(t, j - i);
        let u = t.subrange(0, j - i);
        assert(u =~= v@.subrange(i as int, j as int));
        if j > i {
            assert(u.last() == v@[j - 1]);
        }
        assert(trim_end(u) == u);
    }
    (i, j)
}

/// `s` with white space trimmed from both ends.
pub fn trim_str(s: &str) -> (r: String)
    ensures
        r@ == trim(s@),
{
    let v = chars_of(s);
    let (i, j) = trim_bounds(&v, 0, v.len());
    assert(v@.subrange(0, v@.len() as int) =~= v@);
    string_of(&v, i, j)
}


// ---------------------------------------------------------- lines and words

/// The pieces of `s` between `'\n'` characters, the last one included even
/// when it is empty.
pub open spec fn split_lines(s: Seq<char>) -> Seq<Seq<char>>
    decreases s.len(),
{
    if s.len() == 0 {
        seq![Seq::empty()]
    } else {
        let init = split_lines(s.drop_last());
        if s.last() == '\n' {
            init.push(Seq::empty())
        } else {
            init.update(init.len() - 1, init.last().push(s.last()))
        }
    }
}

/// Each line trimmed, blank ones left out, order kept.
pub open spec fn trimmed_nonblank(ls: Seq<Seq<char>>) -> Seq<Seq<char>>
    decreases ls.len(),
{
    if ls.len() == 0 {
        Seq::empty()
    } else {
        let init = trimmed_nonblank(ls.drop_last());
        if trim(ls.last()).len() > 0 {
            init.push(trim(ls.last()))
        } else {
            init
        }
    }
}

/// The trimmed, non-blank lines of `s`, in order: what
/// `s.lines().map(str::trim).filter(|l| !l.is_empty())` yields.
pub open spec fn nonblank_lines(s: Seq<char>) -> Seq<Seq<char>> {
    trimmed_nonblank(split_lines(s))
}

/// The pieces of `s` between white-space characters, empty ones included.
pub open spec fn split_white(s: Seq<char>) -> Seq<Seq<char>>
    decreases s.len(),
{
    if s.len() == 0 {
        seq![Seq::empty()]
    } else {
        let init = split_white(s.drop_last());
        if is_white_space(s.last()) {
            init.push(Seq::empty())
        } else {
            init.update(init.len() - 1, init.last().push(s.last()))
        }
    }
}

/// The non-empty pieces of `ls`, in order.
pub open spec fn nonempty(ls: Seq<Seq<char>>) -> Seq<Seq<char>>
    decreases ls.len(),
{
    if ls.len() == 0 {
        Seq::empty()
    } else {
        let init = nonempty(ls.drop_last());
        if ls.last().len() > 0 {
            init.push(ls.last())
        } else {
            init
        }
    }
}

/// The words of `s`: what `str::split_whitespace` yields.
pub open spec fn words(s: Seq<char>) -> Seq<Seq<char>> {
    nonempty(split_white(s))
}

/// The words `ws` joined by single spaces.
pub open spec fn join_space(ws: Seq<Seq<char>>) -> Seq<char>
    decreases ws.len(),
{
    if ws.len() == 0 {
        Seq::empty()
    } else if ws.len() == 1 {
        ws[0]
    } else {
        join_space(ws.drop_last()) + seq![' '] + ws.last()
    }
}

/// `s` with its white-space runs turned into single spaces and its ends
/// trimmed: `s.split_whitespace().collect::<Vec<_>>().join(" ")`.
pub open spec fn collapse_white(s: Seq<char>) -> Seq<char> {
    join_space(words(s))
}

pub open spec fn views(v: Seq<String>) -> Seq<Seq<char>> {
    v.map_values(|x: String| x@)
}

proof fn lemma_split_lines_len(s: Seq<char>)
    ensures
        split_lines(s).len() >= 1,
    decreases s.len(),
{
    if s.len() > 0 {
        lemma_split_lines_len(s.drop_last());
    }
}

pub proof fn lemma_split_white_len(s: Seq<char>)
    ensures
        split_white(s).len() >= 1,
    decreases s.len(),
{
    if s.len() > 0 {
        lemma_split_white_len(s.drop_last());
    }
}

proof fn lemma_views_push(v: Seq<String>, x: String)
    ensures
        views(v.push(x)) == views(v).push(x@),
{
    assert(views(v.push(x)) =~= views(v).push(x@));
}

proof fn lemma_split_white_prepend(c: char, z: Seq<char>)
    requires
        is_white_space(c),
    ensures
        split_white(seq![c] + z) == seq![Seq::<char>::empty()] + split_white(z),
    decreases z.len(),
{
    let e = Seq::<char>::empty();
    if z.len() == 0 {
        assert(seq![c] + z =~= seq![c]);
        assert(seq![c].drop_last() =~= e);
        assert(z =~= e);
        assert(split_white(e) == seq![e]);
        assert(split_white(seq![c]) == split_white(seq![c].drop_last()).push(e));
        assert(seq![e].push(e) =~= seq![e] + seq![e]);
    } else {
        let zi = z.drop_last();
        lemma_split_white_prepend(c, zi);
        lemma_split_white_len(zi);
        assert((seq![c] + z).drop_last() =~= seq![c] + zi);
        assert((seq![c] + z).last() == z.last());
        let si = split_white(zi);
        let pre = seq![e] + si;
        if is_white_space(z.last()) {
            assert(split_white(seq![c] + z) == pre.push(e));
            assert(split_white(z) == si.push(e));
            assert(pre.push(e) =~= seq![e] + si.push(e));
        } else {
            assert(split_white(seq![c] + z) == pre.update(pre.len() - 1, pre.last().push(z.last())));
            assert(split_white(z) == si.update(si.len() - 1, si.last().push(z.last())));
            assert(pre.last() == si.last());
            assert(pre.update(pre.len() - 1, si.last().push(z.last())) =~= seq![e] + si.update(
                si.len() - 1,
                si.last().push(z.last()),
            ));
        }
    }
}

proof fn lemma_nonempty_prepend_empty(ls: Seq<Seq<char>>)
    ensures
        nonempty(seq![Seq::<char>::empty()] + ls) == nonempty(ls),
    decreases ls.len(),
{
    let e = Seq::<char>::empty();
    if ls.len() == 0 {
        assert(seq![e] + ls =~= seq![e]);
        assert(seq![e].drop_last() =~= Seq::<Seq<char>>::empty());
        assert(ls =~= Seq::<Seq<char>>::empty());
        assert(nonempty(seq![e]) == nonempty(seq![e].drop_last()));
        assert(nonempty(Seq::<Seq<char>>::empty()) == Seq::<Seq<char>>::empty());
    } else {
        lemma_nonempty_prepend_empty(ls.drop_last());
        let x = seq![e] + ls;
        assert(x.drop_last() =~= seq![e] + ls.drop_last());
        assert(x.last() == ls.last());
        assert(nonempty(x) == if x.last().len() > 0 {
            nonempty(x.drop_last()).push(x.last())
        } else {
            nonempty(x.drop_last())
        });
    }
}

/// White space at the start of a text does not change its collapsed form.
pub proof fn lemma_collapse_prepend_white(c: char, z: Seq<char>)
    requires
        is_white_space(c),
    ensures
        collapse_white(seq![c] + z) == collapse_white(z),
{
    lemma_split_white_prepend(c, z);
    lemma_nonempty_prepend_empty(split_white(z));
}

/// White space at the end of a text does not change its collapsed form.
pub proof fn lemma_collapse_push_white(z: Seq<char>, c: char)
    requires
        is_white_space(c),
    ensures
        collapse_white(z.push(c)) == collapse_white(z),
{
    assert(z.push(c).drop_last() =~= z);
    let e = Seq::<char>::empty();
    assert(split_white(z.push(c)) == split_white(z).push(e));
    assert(split_white(z).push(e).drop_last() =~= split_white(z));
}

/// Every line that `nonblank_lines` gives has a character.
pub proof fn lemma_nonblank_lines_nonempty(s: Seq<char>)
    ensures
        forall|i: int| 0 <= i < nonblank_lines(s).len() ==> (#[trigger] nonblank_lines(s)[i]).len() > 0,
{
    lemma_trimmed_nonblank_nonempty(split_lines(s));
}

proof fn lemma_trimmed_nonblank_nonempty(ls: Seq<Seq<char>>)
    ensures
        forall|i: int| 0 <= i < trimmed_nonblank(ls).len() ==> (#[trigger] trimmed_nonblank(ls)[i]).len() > 0,
    decreases ls.len(),
{
    if ls.len() > 0 {
        lemma_trimmed_nonblank_nonempty(ls.drop_last());
        let init = trimmed_nonblank(ls.drop_last());
        assert forall|i: int| 0 <= i < trimmed_nonblank(ls).len() implies (
        #[trigger] trimmed_nonblank(ls)[i]).len() > 0 by {
            if i < init.len() {
                assert(trimmed_nonblank(ls)[i] == init[i]);
            }
        }
    }
}

/// The number of trimmed, non-blank lines of `s`.
pub fn nonblank_line_count(s: &str) -> (n: usize)
    ensures
        n == nonblank_lines(s@).len(),
{
    nonblank_lines_of(s).len()
}

/// The trimmed, non-blank lines of `s`, in order.
pub fn nonblank_lines_of(s: &str) -> (out: Vec<String>)
    ensures
        views(out@) == nonblank_lines(s@),
{
    let v = chars_of(s);
    let mut out: Vec<String> = Vec::new();
    let mut start: usize = 0;
    let mut i: usize = 0;
    proof {
        assert(v@.take(0) =~= Seq::<char>::empty());
        assert(views(out@) =~= Seq::<Seq<char>>::empty());
    }
    while i < v.len()
        invariant
            start <= i <= v.len(),
            v@ == s@,
            split_lines(v@.take(i as int)).last() == v@.subrange(start as int, i as int),
            views(out@) == trimmed_nonblank(split_lines(v@.take(i as int)).drop_last()),
        decreases v.len() - i,
    {
        let ghost before = split_lines(v@.take(i as int));
        proof {
            lemma_split_lines_len(v@.take(i as int));
            assert(v@.take(i + 1).drop_last() =~= v@.take(i as int));
        }
        if v[i] == '\n' {
            let (a, b) = trim_bounds(&v, start, i);
            proof {
                assert(split_lines(v@.take(i + 1)) == before.push(Seq::empty()));
                assert(before.push(Seq::<char>::empty()).drop_last() =~= before);
                assert(before.drop_last().push(before.last()) =~= before);
            }
            if a < b {
                let line = string_of(&v, a, b);
                proof {
                    lemma_views_push(out@, line);
                }
                out.push(line);
            }
            start = i + 1;
            i = i + 1;
            proof {
                assert(v@.subrange(start as int, i as int) =~= Seq::<char>::empty());
            }
        } else {
            proof {
                let after = split_lines(v@.take(i + 1));
                assert(after == before.update(before.len() - 1, before.last().push(v@[i as int])));
                assert(after.drop_last() =~= before.drop_last());
                assert(v@.subrange(start as int, i + 1) =~= v@.subrange(start as int, i as int).push(
                    v@[i as int],
                ));
            }
            i = i + 1;
        }
    }
    let ghost all = split_lines(v@.take(i as int));
    proof {
        lemma_split_lines_len(v@.take(i as int));
        assert(v@.take(i as int) =~= v@);
        assert(all.drop_last().push(all.last()) =~= all);
    }
    let (a, b) = trim_bounds(&v, start, i);
    if a < b {
        let line = string_of(&v, a, b);
        proof {
            lemma_views_push(out@, line);
        }
        out.push(line);
    }
    out
}

/// Appends the word `v[start..i]` to `out`, which joins the words `done`.
fn push_word(out: &mut String, any_word: bool, v: &Vec<char>, start: usize, i: usize, done: Ghost<Seq<Seq<char>>>)
    requires
        start <= i <= v.len(),
        old(out)@ == join_space(done@),
        any_word == (old(out)@.len() > 0),
        forall|k: int| 0 <= k < done@.len() ==> #[trigger] done@[k].len() > 0,
    ensures
        final(out)@ == if start < i {
            join_space(done@.push(v@.subrange(start as int, i as int)))
        } else {
            join_space(done@)
        },
        (final(out)@.len() > 0) == (any_word || start < i),
{
    let ghost w = v@.subrange(start as int, i as int);
    proof {
        assert(done@.push(w).drop_last() =~= done@);
        lemma_join_push(done@, w);
    }
    if start < i {
        if any_word {
            out.push(' ');
        }
        proof {
            if done@.len() == 0 {
                assert(out@ =~= Seq::<char>::empty());
            }
        }
        let mut k: usize = start;
        let ghost base = out@;
        while k < i
            invariant
                start <= k <= i <= v.len(),
                out@ == base + v@.subrange(start as int, k as int),
            decreases i - k,
        {
            out.push(v[k]);
            k = k + 1;
            assert(out@ =~= base + v@.subrange(start as int, k as int));
        }
    }
}

/// `v` with white-space runs turned into single spaces and the ends trimmed.
pub fn collapse_white_of(v: &Vec<char>) -> (out: String)
    ensures
        out@ == collapse_white(v@),
{
    let mut out = String::new();
    let mut any_word = false;
    let mut start: usize = 0;
    let mut i: usize = 0;
    proof {
        assert(v@.take(0) =~= Seq::<char>::empty());
    }
    while i < v.len()
        invariant
            any_word == (out@.len() > 0),
            start <= i <= v.len(),
            split_white(v@.take(i as int)).last() == v@.subrange(start as int, i as int),
            out@ == join_space(nonempty(split_white(v@.take(i as int)).drop_last())),
        decreases v.len() - i,
    {
        let ghost before = split_white(v@.take(i as int));
        proof {
            lemma_split_white_len(v@.take(i as int));
            assert(v@.take(i + 1).drop_last() =~= v@.take(i as int));
        }
        if is_white_space_char(v[i]) {
            proof {
                assert(before.drop_last().push(before.last()) =~= before);
                lemma_nonempty_words(before.drop_last());
            }
            push_word(&mut out, any_word, v, start, i, Ghost(nonempty(before.drop_last())));
            any_word = any_word || start < i;
            proof {
                assert(out@ == join_space(nonempty(before)));
                assert(split_white(v@.take(i + 1)) == before.push(Seq::empty()));
                assert(before.push(Seq::<char>::empty()).drop_last() =~= before);
            }
            start = i + 1;
            i = i + 1;
            assert(v@.subrange(start as int, i as int) =~= Seq::<char>::empty());
        } else {
            proof {
                let after = split_white(v@.take(i + 1));
                assert(after == before.update(before.len() - 1, before.last().push(v@[i as int])));
                assert(after.drop_last() =~= before.drop_last());
                assert(v@.subrange(start as int, i + 1) =~= v@.subrange(start as int, i as int).push(
                    v@[i as int],
                ));
            }
            i = i + 1;
        }
    }
    let ghost all = split_white(v@.take(i as int));
    proof {
        lemma_split_white_len(v@.take(i as int));
        assert(v@.take(i as int) =~= v@);
        assert(all.drop_last().push(all.last()) =~= all);
        lemma_nonempty_words(all.drop_last());
    }
    push_word(&mut out, any_word, v, start, i, Ghost(nonempty(all.drop_last())));
    assert(out@ == join_space(nonempty(all)));
    out
}

proof fn lemma_nonempty_words(ls: Seq<Seq<char>>)
    ensures
        forall|k: int| 0 <= k < nonempty(ls).len() ==> #[trigger] nonempty(ls)[k].len() > 0,
    decreases ls.len(),
{
    if ls.len() > 0 {
        lemma_nonempty_words(ls.drop_last());
        let init = nonempty(ls.drop_last());
        assert forall|k: int| 0 <= k < nonempty(ls).len() implies #[trigger] nonempty(ls)[k].len()
            > 0 by {
            if k < init.len() {
                assert(nonempty(ls)[k] == init[k]);
            }
        }
    }
}

proof fn lemma_join_push(ws: Seq<Seq<char>>, w: Seq<char>)
    requires
        forall|k: int| 0 <= k < ws.len() ==> #[trigger] ws[k].len() > 0,
    ensures
        join_space(ws).len() > 0 <==> ws.len() > 0,
        join_space(ws.push(w)) == if ws.len() == 0 {
            w
        } else {
            join_space(ws) + seq![' '] + w
        },
    decreases ws.len(),
{
    assert(ws.push(w).drop_last() =~= ws);
    if ws.len() > 1 {
        lemma_join_push(ws.drop_last(), ws.last());
        assert(ws.drop_last().push(ws.last()) =~= ws);
    }
}


// ------------------------------------------------------------- replacement

/// `s` with every non-overlapping occurrence of `pat`, found from the left,
/// replaced by `rep`, as `str::replace` does for a non-empty pattern.
pub open spec fn replace_all(s: Seq<char>, pat: Seq<char>, rep: Seq<char>) -> Seq<char>
    decreases s.len(),
{
    if s.len() == 0 {
        Seq::empty()
    } else if 0 < pat.len() <= s.len() && s.take(pat.len() as int) == pat {
        rep + replace_all(s.skip(pat.len() as int), pat, rep)
    } else {
        seq![s[0]] + replace_all(s.drop_first(), pat, rep)
    }
}

/// Whether `p` occurs in `v` at index `i`.
pub fn occurs_at(v: &Vec<char>, i: usize, p: &Vec<char>) -> (r: bool)
    requires
        i <= v.len(),
    ensures
        r == (i + p.len() <= v.len() && v@.subrange(i as int, i + p.len()) == p@),
{
    if p.len() > v.len() - i {
        return false;
    }
    let mut k: usize = 0;
    while k < p.len()
        invariant
            k <= p.len(),
            i + p.len() <= v.len(),
            v@.subrange(i as int, i + k) == p@.take(k as int),
        decreases p.len() - k,
    {
        if v[i + k] != p[k] {
            assert(v@.subrange(i as int, i + p.len())[k as int] != p@[k as int]);
            return false;
        }
        k = k + 1;
        assert(v@.subrange(i as int, i + k) =~= p@.take(k as int));
    }
    assert(p@.take(p.len() as int) =~= p@);
    true
}

/// `s` with every non-overlapping occurrence of `pat` replaced by `rep`.
pub fn replace_str(s: &str, pat: &str, rep: &str) -> (r: String)
    requires
        pat@.len() > 0,
    ensures
        r@ == replace_all(s@, pat@, rep@),
{
    let v = chars_of(s);
    let p = chars_of(pat);
    let t = chars_of(rep);
    let mut out = String::new();
    let mut i: usize = 0;
    assert(v@.skip(0) =~= v@);
    while i < v.len()
        invariant
            i <= v.len(),
            v@ == s@,
            p@ == pat@,
            p@.len() > 0,
            out@ + replace_all(v@.skip(i as int), p@, t@) == replace_all(v@, p@, t@),
        decreases v.len() - i,
    {
        let ghost rest = v@.skip(i as int);
        if occurs_at(&v, i, &p) {
            proof {
                assert(rest.take(p@.len() as int) =~= v@.subrange(i as int, i + p.len()));
                assert(rest.skip(p@.len() as int) =~= v@.skip(i + p.len()));
                assert(out@ + t@ + replace_all(v@.skip(i + p.len()), p@, t@) =~= out@ + (t@
                    + replace_all(rest.skip(p@.len() as int), p@, t@)));
            }
            push_all(&mut out, &t);
            i = i + p.len();
        } else {
            proof {
                if 0 < p@.len() <= rest.len() {
                    assert(rest.take(p@.len() as int) =~= v@.subrange(i as int, i + p.len()));
                }
                assert(rest.drop_first() =~= v@.skip(i + 1));
                assert(out@.push(v@[i as int]) + replace_all(v@.skip(i + 1), p@, t@) =~= out@ + (
                seq![rest[0]] + replace_all(rest.drop_first(), p@, t@)));
            }
            out.push(v[i]);
            i = i + 1;
        }
    }
    proof {
        assert(v@.skip(i as int) =~= Seq::<char>::empty());
        assert(out@ + Seq::<char>::empty() =~= out@);
    }
    out
}

// ------------------------------------------------------------------ digits

/// The decimal digit character for `d < 10`.
pub open spec fn digit(d: nat) -> char {
    ((48 + d) as u8) as char
}

/// The decimal digits of `n`, without leading zeros.
pub open spec fn decimal(n: nat) -> Seq<char>
    decreases n,
{
    if n < 10 {
        seq![digit(n)]
    } else {
        decimal(n / 10).push(digit(n % 10))
    }
}

/// The decimal digits of `n`, with leading zeros up to `width` digits.
pub open spec fn zero_padded(n: nat, width: nat) -> Seq<char> {
    let d = decimal(n);
    if d.len() >= width {
        d
    } else {
        Seq::new((width - d.len()) as nat, |_i: int| '0') + d
    }
}

/// Appends the decimal digits of `n` to `out`.
pub fn push_decimal(out: &mut Vec<char>, n: u64)
    ensures
        final(out)@ == old(out)@ + decimal(n as nat),
    decreases n,
{
    if n >= 10 {
        push_decimal(out, n / 10);
    }
    let d: u8 = (n % 10) as u8;
    out.push((48u8 + d) as char);
    assert(out@ =~= old(out)@ + decimal(n as nat));
}

/// Appends the decimal digits of `n`, zero-padded to `width`, to `out`.
pub fn push_padded(out: &mut String, n: u64, width: usize)
    ensures
        final(out)@ == old(out)@ + zero_padded(n as nat, width as nat),
{
    let mut d: Vec<char> = Vec::new();
    push_decimal(&mut d, n);
    assert(d@ =~= decimal(n as nat));
    let ghost base = out@;
    if d.len() < width {
        let fill = width - d.len();
        let mut k: usize = 0;
        while k < fill
            invariant
                k <= fill,
                out@ == base + Seq::new(k as nat, |_i: int| '0'),
            decreases fill - k,
        {
            out.push('0');
            k = k + 1;
            assert(out@ =~= base + Seq::new(k as nat, |_i: int| '0'));
        }
    }
    let ghost mid = out@;
    push_all(out, &d);
    assert(out@ =~= base + zero_padded(n as nat, width as nat));
}


// ---------------------------------------------------- counting after collapse

/// The number of characters of `s` that are not white space.
pub open spec fn non_white_count(s: Seq<char>) -> nat
    decreases s.len(),
{
    if s.len() == 0 {
        0
    } else {
        non_white_count(s.drop_last()) + if is_white_space(s.last()) {
            0nat
        } else {
            1nat
        }
    }
}

pub open spec fn sum_letters(ls: Seq<Seq<char>>) -> nat
    decreases ls.len(),
{
    if ls.len() == 0 {
        0
    } else {
        sum_letters(ls.drop_last()) + ascii_letter_count(ls.last())
    }
}

pub open spec fn sum_len(ls: Seq<Seq<char>>) -> nat
    decreases ls.len(),
{
    if ls.len() == 0 {
        0
    } else {
        sum_len(ls.drop_last()) + ls.last().len()
    }
}

proof fn lemma_letters_concat(a: Seq<char>, b: Seq<char>)
    ensures
        ascii_letter_count(a + b) == ascii_letter_count(a) + ascii_letter_count(b),
    decreases b.len(),
{
    if b.len() == 0 {
        assert(a + b =~= a);
    } else {
        assert((a + b).drop_last() =~= a + b.drop_last());
        lemma_letters_concat(a, b.drop_last());
    }
}

proof fn lemma_join_counts(ws: Seq<Seq<char>>)
    ensures
        ascii_letter_count(join_space(ws)) == sum_letters(ws),
        ws.len() > 0 ==> join_space(ws).len() == sum_len(ws) + ws.len() - 1,
    decreases ws.len(),
{
    if ws.len() == 1 {
        assert(ws.drop_last() =~= Seq::<Seq<char>>::empty());
        assert(sum_letters(ws.drop_last()) == 0);
        assert(sum_len(ws.drop_last()) == 0);
        assert(ws.last() == ws[0]);
    } else if ws.len() > 1 {
        lemma_join_counts(ws.drop_last());
        let init = join_space(ws.drop_last());
        let sp: Seq<char> = seq![' '];
        lemma_letters_concat(init + sp, ws.last());
        lemma_letters_concat(init, sp);
        assert(sp.drop_last() =~= Seq::<char>::empty());
        assert(ascii_letter_count(sp.drop_last()) == 0);
        assert(!is_ascii_letter(sp.last()));
        assert(ascii_letter_count(sp) == 0);
        assert(join_space(ws) == init + sp + ws.last());
    }
}

proof fn lemma_nonempty_counts(ls: Seq<Seq<char>>)
    ensures
        sum_letters(nonempty(ls)) == sum_letters(ls),
        sum_len(nonempty(ls)) == sum_len(ls),
    decreases ls.len(),
{
    if ls.len() > 0 {
        lemma_nonempty_counts(ls.drop_last());
        let init = nonempty(ls.drop_last());
        if ls.last().len() > 0 {
            assert(init.push(ls.last()).drop_last() =~= init);
        } else {
            assert(ls.last() =~= Seq::<char>::empty());
        }
    }
}

proof fn lemma_split_white_counts(s: Seq<char>)
    ensures
        sum_letters(split_white(s)) == ascii_letter_count(s),
        sum_len(split_white(s)) == non_white_count(s),
    decreases s.len(),
{
    if s.len() == 0 {
        let e: Seq<Seq<char>> = seq![Seq::<char>::empty()];
        assert(split_white(s) == e);
        assert(e.drop_last() =~= Seq::<Seq<char>>::empty());
        assert(sum_letters(e.drop_last()) == 0);
        assert(sum_len(e.drop_last()) == 0);
        assert(ascii_letter_count(e.last()) == 0);
    } else {
        lemma_split_white_counts(s.drop_last());
        lemma_split_white_len(s.drop_last());
        let init = split_white(s.drop_last());
        if is_white_space(s.last()) {
            assert(init.push(Seq::<char>::empty()).drop_last() =~= init);
            assert(!is_ascii_letter(s.last()));
        } else {
            let up = init.update(init.len() - 1, init.last().push(s.last()));
            assert(up.drop_last() =~= init.drop_last());
            assert(init.last().push(s.last()).drop_last() =~= init.last());
        }
    }
}

/// Collapsing white space keeps every ASCII letter, and leaves the words
/// with one space between each two.
pub proof fn lemma_collapse_counts(s: Seq<char>)
    ensures
        ascii_letter_count(collapse_white(s)) == ascii_letter_count(s),
        sum_len(words(s)) == non_white_count(s),
        words(s).len() > 0 ==> collapse_white(s).len() == non_white_count(s) + words(s).len() - 1,
{
    lemma_split_white_counts(s);
    lemma_nonempty_counts(split_white(s));
    lemma_join_counts(words(s));
}

} // verus!
