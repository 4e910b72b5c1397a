//! Signed lookups at the Youdao dictionary: the form fields of a request and
//! the outcome a reply comes to.

use vstd::prelude::*;
use crate::dict::{sentence_translation, WordAllInfo};
use crate::pipeline::TranslationOutcome;
use crate::text::{chars_of, digit, push_all};

verus! {

/// The client name sent with, and signed into, each request.
pub const CLIENT: &'static str = "web";

/// The key-source name sent with each request; it is also the suffix of the
/// text whose digest is signed.
pub const KEYFROM: &'static str = "webdict";

/// The source language sent with each request.
pub const SOURCE_LANGUAGE: &'static str = "en";

/// The 32 lower-case hex digits of the MD5 digest of the UTF-8 bytes of `s`.
pub uninterp spec fn md5_hex(s: Seq<char>) -> Seq<char>;

/// Relies on `md5::compute` and the `LowerHex` format of its digest: the MD5
/// digest of the UTF-8 bytes of `s`, as 32 lower-case hex digits.
#[verifier::external_body]
fn md5_hex_of(s: &str) -> (r: String)
    ensures
        r@ == md5_hex(s@),
        r@.len() == 32,
{
    format!("{:x}", md5::compute(s.as_bytes()))
}

/// The number of UTF-8 bytes that `c` takes.
pub open spec fn utf8_width(c: char) -> nat {
    let u = c as u32;
    if u < 0x80 {
        1
    } else if u < 0x800 {
        2
    } else if u < 0x10000 {
        3
    } else {
        4
    }
}

/// The number of UTF-8 bytes that `s` takes.
pub open spec fn utf8_len(s: Seq<char>) -> nat
    decreases s.len(),
{
    if s.len() == 0 {
        0
    } else {
        utf8_len(s.drop_last()) + utf8_width(s.last())
    }
}

/// The salt of a request for `text`: the last decimal digit of the byte
/// length of `text` followed by `KEYFROM` (7 bytes).
pub open spec fn salt_of(text: Seq<char>) -> char {
    digit(((utf8_len(text) + 7) % 10) as nat)
}

/// The signature of a request for `text` under `key`.
pub open spec fn signature_of(text: Seq<char>, key: Seq<char>) -> Seq<char> {
    md5_hex(CLIENT@ + text + seq![salt_of(text)] + key + md5_hex(text + KEYFROM@))
}

pub open spec fn field_views(v: Seq<(String, String)>) -> Seq<(Seq<char>, Seq<char>)> {
    v.map_values(|p: (String, String)| (p.0@, p.1@))
}

/// The salt of a request for `text`.
pub fn salt(text: &str) -> (r: char)
    ensures
        r == salt_of(text@),
{
    let v = chars_of(text);
    let mut acc: u32 = 7;
    let mut i: usize = 0;
    while i < v.len()
        invariant
            i <= v.len(),
            v@ == text@,
            acc < 10,
            acc as int % 10 == (utf8_len(v@.take(i as int)) + 7) % 10,
        decreases v.len() - i,
    {
        assert(v@.take(i + 1).drop_last() =~= v@.take(i as int));
        let u = v[i] as u32;
        let w: u32 = if u < 0x80 {
            1
        } else if u < 0x800 {
            2
        } else if u < 0x10000 {
            3
        } else {
            4
        };
        acc = (acc + w) % 10;
        i = i + 1;
    }
    assert(v@.take(v.len() as int) =~= v@);
    let d: u8 = (acc % 10) as u8;
    (48u8 + d) as char
}

/// Looks up text at the dictionary service, signing each request with a key.
pub struct YoudaoTranslator {
    pub sign_key: String,
    pub endpoint: String,
}

impl YoudaoTranslator {
    pub fn new(sign_key: String, endpoint: String) -> (r: YoudaoTranslator)
        ensures
            r.sign_key == sign_key,
            r.endpoint == endpoint,
    {
        YoudaoTranslator { sign_key, endpoint }
    }

    /// The signature of a request for `text`.
    pub fn sign(&self, text: &str) -> (r: String)
        ensures
            r@ == signature_of(text@, self.sign_key@),
    {
        let mut inner = String::new();
        push_all(&mut inner, &chars_of(text));
        push_all(&mut inner, &chars_of(KEYFROM));
        let digest = md5_hex_of(inner.as_str());
        let mut outer = String::new();
        push_all(&mut outer, &chars_of(CLIENT));
        push_all(&mut outer, &chars_of(text));
        outer.push(salt(text));
        push_all(&mut outer, &chars_of(self.sign_key.as_str()));
        push_all(&mut outer, &chars_of(digest.as_str()));
        assert(outer@ =~= CLIENT@ + text@ + seq![salt_of(text@)] + self.sign_key@ + md5_hex(
            text@ + KEYFROM@,
        ));
        md5_hex_of(outer.as_str())
    }

    /// The form fields of a lookup of `text`: the query, the source
    /// language, the salt, the client, the signature and the key source.
    pub fn form_fields(&self, text: &str) -> (r: Vec<(String, String)>)
        ensures
            field_views(r@) == seq![
                ("q"@, text@),
                ("le"@, SOURCE_LANGUAGE@),
                ("t"@, seq![salt_of(text@)]),
                ("client"@, CLIENT@),
                ("sign"@, signature_of(text@, self.sign_key@)),
                ("keyfrom"@, KEYFROM@),
            ],
    {
        let mut t = String::new();
        t.push(salt(text));
        let mut v: Vec<(String, String)> = Vec::new();
        v.push(("q".to_string(), text.to_string()));
        v.push(("le".to_string(), SOURCE_LANGUAGE.to_string()));
        v.push(("t".to_string(), t));
        v.push(("client".to_string(), CLIENT.to_string()));
        v.push(("sign".to_string(), self.sign(text)));
        v.push(("keyfrom".to_string(), KEYFROM.to_string()));
        assert(field_views(v@) =~= seq![
            ("q"@, text@),
            ("le"@, SOURCE_LANGUAGE@),
            ("t"@, seq![salt_of(text@)]),
            ("client"@, CLIENT@),
            ("sign"@, signature_of(text@, self.sign_key@)),
            ("keyfrom"@, KEYFROM@),
        ]);
        v
    }
}

/// What a lookup came to: the sentence translation where the reply was read
/// and holds one, not found where it holds none, failed where no reply could
/// be read.
pub fn lookup_outcome(reply: Option<&WordAllInfo>) -> (r: TranslationOutcome)
    ensures
        r == (match reply {
            Some(info) => match info.fanyi {
                Some(f) => TranslationOutcome::Translated(f.tran),
                None => TranslationOutcome::NotFound,
            },
            None => TranslationOutcome::Failed,
        }),
{
    match reply {
        Some(info) => match sentence_translation(info) {
            Some(t) => TranslationOutcome::Translated(t),
            None => TranslationOutcome::NotFound,
        },
        None => TranslationOutcome::Failed,
    }
}

} // verus!
