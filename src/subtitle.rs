//! Subtitle and plain-text layouts of segments, and the `HH:MM:SS,mmm`
//! timestamps that subtitles use.

use vstd::prelude::*;
use crate::segment::Segment;
use crate::text::{chars_of, decimal, digit, is_ascii_digit, push_all, push_padded, zero_padded};

verus! {

/// `ms` as `HH:MM:SS,mmm`; the hours take more digits where needed.
pub open spec fn timestamp_text(ms: nat) -> Seq<char> {
    let secs = ms / 1000;
    zero_padded(secs / 3600, 2) + seq![':'] + zero_padded((secs % 3600) / 60, 2) + seq![':']
        + zero_padded(secs % 60, 2) + seq![','] + zero_padded(ms % 1000, 3)
}

/// `ms` as `HH:MM:SS,mmm`.
pub fn format_timestamp(ms: u32) -> (r: String)
    ensures
        r@ == timestamp_text(ms as nat),
{
    let secs = ms / 1000;
    let mut out = String::new();
    push_padded(&mut out, (secs / 3600) as u64, 2);
    out.push(':');
    push_padded(&mut out, ((secs % 3600) / 60) as u64, 2);
    out.push(':');
    push_padded(&mut out, (secs % 60) as u64, 2);
    out.push(',');
    push_padded(&mut out, (ms % 1000) as u64, 3);
    assert(out@ =~= timestamp_text(ms as nat));
    out
}

/// The subtitle entry of segment `s` numbered `n`.
pub open spec fn srt_entry(n: nat, s: Segment) -> Seq<char> {
    decimal(n) + seq!['\n'] + timestamp_text(s.start_ms as nat) + seq![' ', '-', '-', '>', ' ']
        + timestamp_text(s.end_ms as nat) + seq!['\n'] + s.text@ + seq!['\n', '\n']
}

/// The subtitle file of `segs`: entries numbered from 1.
pub open spec fn srt_text(segs: Seq<Segment>) -> Seq<char>
    decreases segs.len(),
{
    if segs.len() == 0 {
        Seq::empty()
    } else {
        srt_text(segs.drop_last()) + srt_entry(segs.len(), segs.last())
    }
}

/// The plain-text file of `segs`: the texts separated by blank lines.
pub open spec fn txt_text(segs: Seq<Segment>) -> Seq<char>
    decreases segs.len(),
{
    if segs.len() == 0 {
        Seq::empty()
    } else if segs.len() == 1 {
        segs[0].text@
    } else {
        txt_text(segs.drop_last()) + seq!['\n', '\n'] + segs.last().text@
    }
}

/// Appends the subtitle entry of `s` numbered `n` to `out`.
fn push_srt_entry(out: &mut String, n: u64, s: &Segment)
    ensures
        final(out)@ == old(out)@ + srt_entry(n as nat, *s),
{
    push_padded(out, n, 0);
    out.push('\n');
    push_all(out, &chars_of(format_timestamp(s.start_ms).as_str()));
    out.push(' ');
    out.push('-');
    out.push('-');
    out.push('>');
    out.push(' ');
    push_all(out, &chars_of(format_timestamp(s.end_ms).as_str()));
    out.push('\n');
    push_all(out, &chars_of(s.text.as_str()));
    out.push('\n');
    out.push('\n');
    assert(zero_padded(n as nat, 0) == decimal(n as nat));
    assert(out@ =~= old(out)@ + srt_entry(n as nat, *s));
}

/// The subtitle file of `segments`.
pub fn render_srt(segments: &Vec<Segment>) -> (r: String)
    ensures
        r@ == srt_text(segments@),
{
    let mut out = String::new();
    let mut i: usize = 0;
    while i < segments.len()
        invariant
            i <= segments.len(),
            out@ == srt_text(segments@.take(i as int)),
        decreases segments.len() - i,
    {
        assert(segments@.take(i + 1).drop_last() =~= segments@.take(i as int));
        push_srt_entry(&mut out, (i + 1) as u64, &segments[i]);
        i = i + 1;
    }
    assert(segments@.take(segments.len() as int) =~= segments@);
    out
}

/// The plain-text file of `segments`.
pub fn render_txt(segments: &Vec<Segment>) -> (r: String)
    ensures
        r@ == txt_text(segments@),
{
    let mut out = String::new();
    let mut i: usize = 0;
    while i < segments.len()
        invariant
            i <= segments.len(),
            out@ == txt_text(segments@.take(i as int)),
        decreases segments.len() - i,
    {
        assert(segments@.take(i + 1).drop_last() =~= segments@.take(i as int));
        if i > 0 {
            out.push('\n');
            out.push('\n');
        } else {
            assert(out@ =~= Seq::<char>::empty());
        }
        push_all(&mut out, &chars_of(segments[i].text.as_str()));
        i = i + 1;
    }
    assert(segments@.take(segments.len() as int) =~= segments@);
    out
}

// ----------------------------------------------------------------- parsing

/// The pieces of `s` between `sep` characters, the last one included.
pub open spec fn split_char(s: Seq<char>, sep: char) -> Seq<Seq<char>>
    decreases s.len(),
{
    if s.len() == 0 {
        seq![Seq::empty()]
    } else {
        let init = split_char(s.drop_last(), sep);
        if s.last() == sep {
            init.push(Seq::empty())
        } else {
            init.update(init.len() - 1, init.last().push(s.last()))
        }
    }
}

/// The value of a string of decimal digits.
pub open spec fn digits_value(s: Seq<char>) -> nat
    decreases s.len(),
{
    if s.len() == 0 {
        0
    } else {
        digits_value(s.drop_last()) * 10 + ((s.last() as u32) - 48) as nat
    }
}

pub open spec fn all_digits(s: Seq<char>) -> bool {
    forall|i: int| 0 <= i < s.len() ==> is_ascii_digit(#[trigger] s[i])
}

/// What parsing `s` as a `u32` gives, as `u32::from_str` does it: an optional
/// `+` and at least one decimal digit, of value within `u32`.
pub open spec fn parsed_u32(s: Seq<char>) -> Option<nat> {
    let d = if s.len() > 0 && s[0] == '+' {
        s.drop_first()
    } else {
        s
    };
    if d.len() > 0 && all_digits(d) && digits_value(d) <= u32::MAX {
        Some(digits_value(d))
    } else {
        None
    }
}

/// Why a timestamp cannot be read.
#[derive(PartialEq, Eq, Structural, Debug, Clone, Copy)]
pub enum TimestampError {
    /// Not three `:`-separated parts.
    BadFormat,
    /// The last part is not two `,`-separated parts.
    BadSeconds,
    /// A part is not a number.
    BadNumber,
    /// The time does not fit in a `u32` of milliseconds.
    OutOfRange,
}

/// What reading `s` as `H:M:S,mmm` gives.
pub open spec fn timestamp_value(s: Seq<char>) -> Result<nat, TimestampError> {
    let parts = split_char(s, ':');
    if parts.len() != 3 {
        Err(TimestampError::BadFormat)
    } else {
        let sec = split_char(parts[2], ',');
        if sec.len() != 2 {
            Err(TimestampError::BadSeconds)
        } else if parsed_u32(parts[0]) is None || parsed_u32(parts[1]) is None || parsed_u32(
            sec[0],
        ) is None || parsed_u32(sec[1]) is None {
            Err(TimestampError::BadNumber)
        } else {
            let t = parsed_u32(parts[0])->0 * 3600000 + parsed_u32(parts[1])->0 * 60000
                + parsed_u32(sec[0])->0 * 1000 + parsed_u32(sec[1])->0;
            if t <= u32::MAX {
                Ok(t)
            } else {
                Err(TimestampError::OutOfRange)
            }
        }
    }
}

proof fn lemma_split_char_len(s: Seq<char>, sep: char)
    ensures
        split_char(s, sep).len() >= 1,
    decreases s.len(),
{
    if s.len() > 0 {
        lemma_split_char_len(s.drop_last(), sep);
    }
}

proof fn lemma_digits_prefix(s: Seq<char>, k: int)
    requires
        0 <= k <= s.len(),
    ensures
        digits_value(s.take(k)) <= digits_value(s),
    decreases s.len() - k,
{
    if k < s.len() {
        assert(s.drop_last().take(k) =~= s.take(k));
        lemma_digits_prefix(s.drop_last(), k);
    } else {
        assert(s.take(k) =~= s);
    }
}

/// The pieces of `v` between `sep` characters.
fn split_vec(v: &Vec<char>, sep: char) -> (r: Vec<Vec<char>>)
    ensures
        r.len() == split_char(v@, sep).len(),
        forall|i: int| 0 <= i < r.len() ==> (#[trigger] r@[i])@ == split_char(v@, sep)[i],
{
    let mut out: Vec<Vec<char>> = Vec::new();
    let mut cur: Vec<char> = Vec::new();
    let mut i: usize = 0;
    assert(v@.take(0) =~= Seq::<char>::empty());
    while i < v.len()
        invariant
            i <= v.len(),
            out.len() + 1 == split_char(v@.take(i as int), sep).len(),
            forall|k: int| 0 <= k < out.len() ==> (#[trigger] out@[k])@ == split_char(v@.take(i as int), sep)[k],
            cur@ == split_char(v@.take(i as int), sep).last(),
        decreases v.len() - i,
    {
        proof {
            lemma_split_char_len(v@.take(i as int), sep);
        }
        assert(v@.take(i + 1).drop_last() =~= v@.take(i as int));
        if v[i] == sep {
            out.push(cur);
            cur = Vec::new();
            assert(cur@ =~= Seq::<char>::empty());
        } else {
            cur.push(v[i]);
        }
        i = i + 1;
    }
    assert(v@.take(v.len() as int) =~= v@);
    out.push(cur);
    out
}

/// `s` parsed as a `u32`.
fn parse_u32(s: &Vec<char>) -> (r: Option<u32>)
    ensures
        r matches Some(n) ==> parsed_u32(s@) == Some(n as nat),
        r is None ==> parsed_u32(s@) is None,
{
    let start: usize = if s.len() > 0 && s[0] == '+' { 1 } else { 0 };
    let ghost d = s@.skip(start as int);
    assert(start == 1 ==> d =~= s@.drop_first());
    assert(start == 0 ==> d =~= s@);
    if start >= s.len() {
        return None;
    }
    let mut acc: u64 = 0;
    let mut i: usize = start;
    assert(d.take(0) =~= Seq::<char>::empty());
    while i < s.len()
        invariant
            start <= i <= s.len(),
            d == s@.skip(start as int),
            d == (if s@.len() > 0 && s@[0] == '+' {
                s@.drop_first()
            } else {
                s@
            }),
            acc == digits_value(d.take(i - start)),
            acc <= u32::MAX,
            all_digits(d.take(i - start)),
        decreases s.len() - i,
    {
        let c = s[i] as u32;
        assert(d.take(i - start + 1).drop_last() =~= d.take(i - start));
        assert(d[i - start] == s@[i as int]);
        if c < 48 || c > 57 {
            assert(!is_ascii_digit(d[i - start]));
            assert(!all_digits(d));
            assert(parsed_u32(s@) is None);
            return None;
        }
        acc = acc * 10 + (c - 48) as u64;
        assert(all_digits(d.take(i - start + 1)));
        i = i + 1;
        if acc > 0xffff_ffff {
            proof {
                lemma_digits_prefix(d, i - start);
                assert(digits_value(d) > u32::MAX);
                assert(parsed_u32(s@) is None);
            }
            return None;
        }
    }
    assert(d.take(i - start) =~= d);
    Some(acc as u32)
}

/// Reads `H:M:S,mmm` as milliseconds.
pub fn parse_timestamp(timestamp: &str) -> (r: Result<u32, TimestampError>)
    ensures
        r matches Ok(n) ==> timestamp_value(timestamp@) == Ok::<nat, TimestampError>(n as nat),
        r matches Err(e) ==> timestamp_value(timestamp@) == Err::<nat, TimestampError>(e),
{
    let v = chars_of(timestamp);
    let parts = split_vec(&v, ':');
    if parts.len() != 3 {
        return Err(TimestampError::BadFormat);
    }
    let sec = split_vec(&parts[2], ',');
    if sec.len() != 2 {
        return Err(TimestampError::BadSeconds);
    }
    let h = parse_u32(&parts[0]);
    let m = parse_u32(&parts[1]);
    let s = parse_u32(&sec[0]);
    let ms = parse_u32(&sec[1]);
    match (h, m, s, ms) {
        (Some(h), Some(m), Some(s), Some(ms)) => {
            let t: u64 = h as u64 * 3600000 + m as u64 * 60000 + s as u64 * 1000 + ms as u64;
            if t <= 0xffff_ffff {
                Ok(t as u32)
            } else {
                Err(TimestampError::OutOfRange)
            }
        },
        _ => Err(TimestampError::BadNumber),
    }
}


// ------------------------------------------------------------- round trip

/// `s` holds no `sep` character.
pub open spec fn free_of(s: Seq<char>, sep: char) -> bool {
    forall|i: int| 0 <= i < s.len() ==> #[trigger] s[i] != sep
}

proof fn lemma_split_free(s: Seq<char>, sep: char)
    requires
        free_of(s, sep),
    ensures
        split_char(s, sep) == seq![s],
    decreases s.len(),
{
    if s.len() == 0 {
        assert(s =~= Seq::<char>::empty());
    } else {
        let init = s.drop_last();
        assert(free_of(init, sep)) by {
            assert forall|i: int| 0 <= i < init.len() implies #[trigger] init[i] != sep by {
                assert(init[i] == s[i]);
            }
        }
        lemma_split_free(init, sep);
        assert(s.last() != sep);
        assert(init.push(s.last()) =~= s);
        assert(seq![init].update(0, s) =~= seq![s]);
    }
}

proof fn lemma_split_append(x: Seq<char>, y: Seq<char>, sep: char)
    requires
        free_of(y, sep),
    ensures
        split_char(x + seq![sep] + y, sep) == split_char(x, sep).push(y),
    decreases y.len(),
{
    let z = x + seq![sep] + y;
    if y.len() == 0 {
        assert(z.drop_last() =~= x);
        assert(z.last() == sep);
        assert(y =~= Seq::<char>::empty());
    } else {
        let yi = y.drop_last();
        assert(free_of(yi, sep)) by {
            assert forall|i: int| 0 <= i < yi.len() implies #[trigger] yi[i] != sep by {
                assert(yi[i] == y[i]);
            }
        }
        lemma_split_append(x, yi, sep);
        assert(z.drop_last() =~= x + seq![sep] + yi);
        assert(z.last() == y.last());
        assert(y.last() != sep);
        let prev = split_char(x, sep).push(yi);
        assert(yi.push(y.last()) =~= y);
        assert(prev.last() == yi);
        assert(prev.update(prev.len() - 1, y) =~= split_char(x, sep).push(y));
    }
}

proof fn lemma_decimal_digits(n: nat)
    ensures
        decimal(n).len() > 0,
        all_digits(decimal(n)),
        digits_value(decimal(n)) == n,
    decreases n,
{
    assert(forall|d: nat| d < 10 ==> #[trigger] (digit(d) as u32) == 48 + d) by {
        assert forall|d: nat| d < 10 implies #[trigger] (digit(d) as u32) == 48 + d by {
            let b: u8 = (48 + d) as u8;
            assert(b as u32 == 48 + d);
            assert((b as char) as u32 == b as u32);
        }
    }
    if n < 10 {
        let d = decimal(n);
        assert(d.drop_last() =~= Seq::<char>::empty());
        assert(digits_value(d.drop_last()) == 0);
        assert(d.last() == digit(n));
        assert((digit(n) as u32) == 48 + n);
    } else {
        lemma_decimal_digits(n / 10);
        let d = decimal(n);
        assert(d.drop_last() =~= decimal(n / 10));
        assert(d.last() == digit(n % 10));
        assert((digit(n % 10) as u32) == 48 + n % 10);
        assert((n / 10) * 10 + n % 10 == n);
        assert(all_digits(d)) by {
            assert forall|i: int| 0 <= i < d.len() implies is_ascii_digit(#[trigger] d[i]) by {
                if i < d.len() - 1 {
                    assert(d[i] == decimal(n / 10)[i]);
                }
            }
        }
    }
}

proof fn lemma_zeros_value(k: nat, d: Seq<char>)
    ensures
        digits_value(Seq::new(k, |_i: int| '0') + d) == digits_value(d) + digits_value(Seq::new(k, |_i: int| '0')) * pow10(d.len()),
        digits_value(Seq::new(k, |_i: int| '0')) == 0,
    decreases d.len() + k,
{
    let z = Seq::new(k, |_i: int| '0');
    if d.len() == 0 {
        assert(z + d =~= z);
        if k > 0 {
            lemma_zeros_value((k - 1) as nat, d);
            assert(z.drop_last() =~= Seq::new((k - 1) as nat, |_i: int| '0'));
            assert(('0' as u32) == 48);
        }
    } else {
        lemma_zeros_value(k, d.drop_last());
        assert((z + d).drop_last() =~= z + d.drop_last());
    }
}

pub open spec fn pow10(n: nat) -> nat
    decreases n,
{
    if n == 0 {
        1
    } else {
        10 * pow10((n - 1) as nat)
    }
}

proof fn lemma_padded_digits(n: nat, w: nat)
    ensures
        zero_padded(n, w).len() > 0,
        all_digits(zero_padded(n, w)),
        digits_value(zero_padded(n, w)) == n,
{
    lemma_decimal_digits(n);
    let d = decimal(n);
    if d.len() < w {
        let k = (w - d.len()) as nat;
        let z = Seq::new(k, |_i: int| '0');
        lemma_zeros_value(k, d);
        let p = z + d;
        assert(all_digits(p)) by {
            assert forall|i: int| 0 <= i < p.len() implies is_ascii_digit(#[trigger] p[i]) by {
                if i < k {
                    assert(p[i] == '0');
                    assert(('0' as u32) == 48);
                } else {
                    assert(p[i] == d[i - k]);
                }
            }
        }
    }
}

proof fn lemma_digits_free(s: Seq<char>)
    requires
        all_digits(s),
    ensures
        free_of(s, ':'),
        free_of(s, ','),
        s.len() > 0 ==> s[0] != '+',
{
    assert forall|i: int| 0 <= i < s.len() implies #[trigger] s[i] != ':' by {
        assert(is_ascii_digit(s[i]));
        assert((':' as u32) == 58);
    }
    assert forall|i: int| 0 <= i < s.len() implies #[trigger] s[i] != ',' by {
        assert(is_ascii_digit(s[i]));
        assert((',' as u32) == 44);
    }
    if s.len() > 0 {
        assert(is_ascii_digit(s[0]));
        assert(('+' as u32) == 43);
    }
}

proof fn lemma_padded_parses(n: nat, w: nat)
    requires
        n <= u32::MAX,
    ensures
        parsed_u32(zero_padded(n, w)) == Some(n),
        free_of(zero_padded(n, w), ':'),
        free_of(zero_padded(n, w), ','),
{
    lemma_padded_digits(n, w);
    lemma_digits_free(zero_padded(n, w));
}

/// Reading a formatted timestamp gives back its milliseconds.
pub proof fn lemma_timestamp_round_trip(ms: u32)
    ensures
        timestamp_value(timestamp_text(ms as nat)) == Ok::<nat, TimestampError>(ms as nat),
{
    let secs = (ms / 1000) as nat;
    let h = secs / 3600;
    let m = (secs % 3600) / 60;
    let s = secs % 60;
    let x = (ms % 1000) as nat;
    let ph = zero_padded(h, 2);
    let pm = zero_padded(m, 2);
    let ps = zero_padded(s, 2);
    let px = zero_padded(x, 3);
    lemma_padded_parses(h, 2);
    lemma_padded_parses(m, 2);
    lemma_padded_parses(s, 2);
    lemma_padded_parses(x, 3);
    let tail = ps + seq![','] + px;
    assert(free_of(tail, ':')) by {
        assert forall|i: int| 0 <= i < tail.len() implies #[trigger] tail[i] != ':' by {
            if i < ps.len() {
                assert(tail[i] == ps[i]);
            } else if i == ps.len() {
                assert(tail[i] == ',');
            } else {
                assert(tail[i] == px[i - ps.len() - 1]);
            }
        }
    }
    let text = timestamp_text(ms as nat);
    assert(text =~= ph + seq![':'] + pm + seq![':'] + tail);
    lemma_split_free(ph, ':');
    lemma_split_append(ph, pm, ':');
    lemma_split_append(ph + seq![':'] + pm, tail, ':');
    assert(split_char(text, ':') =~= seq![ph, pm, tail]);
    lemma_split_free(ps, ',');
    lemma_split_append(ps, px, ',');
    assert(split_char(tail, ',') =~= seq![ps, px]);
    assert(h * 3600000 + m * 60000 + s * 1000 + x == ms as nat) by (nonlinear_arith)
        requires
            secs == ms as nat / 1000,
            h == secs / 3600,
            m == (secs % 3600) / 60,
            s == secs % 60,
            x == ms as nat % 1000,
    {
    }
}

} // verus!
