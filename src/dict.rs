//! The answer of the dictionary service, section by section. Sentences
//! scored with floating-point numbers (authoritative examples) are not held
//! here.

use vstd::prelude::*;

verus! {

#[verifier::external_type_specification]
#[verifier::external_body]
pub struct ExJsonValue(serde_json::Value);

pub struct Meta {
    pub input: String,
    pub guess_language: String,
    pub is_has_simple_dict: String,
    pub le: String,
    pub lang: String,
    pub dicts: Vec<String>,
}

pub struct Snippets {
    pub snippet: serde_json::Value,
}

/// Sentences from films and broadcasts.
pub struct MediaSentsPart {
    pub sentence_count: i64,
    pub more: String,
    pub query: String,
}

pub struct WordRel {
    pub word: String,
    pub tran: String,
}

pub struct RelDetail {
    pub pos: String,
    pub words: Vec<WordRel>,
}

pub struct Rel {
    pub rel: RelDetail,
}

/// Words of the same root.
pub struct RelWord {
    pub word: String,
    pub stem: String,
    pub rels: Vec<Rel>,
}

pub struct Sense {
    pub lang: String,
    pub word: String,
}

pub struct Words {
    pub indexforms: Vec<String>,
    pub word: String,
}

pub struct CollinsPrimary {
    pub words: Words,
    pub gramcat: Vec<serde_json::Value>,
}

pub struct PastExamSent {
    pub en: String,
    pub source: String,
    pub zh: String,
}

pub struct Individual {
    pub past_exam_sents: Vec<PastExamSent>,
}

pub struct SentencePair {
    pub sentence: String,
    pub sentence_eng: String,
    pub sentence_translation: String,
    pub source: String,
    pub url: String,
    pub sentence_speech: String,
}

/// Bilingual example sentences.
pub struct BlngSentsPart {
    pub sentence_count: i64,
    pub sentence_pair: Vec<SentencePair>,
}

pub struct EeWordTr {
    pub pos: String,
    pub tr: serde_json::Value,
}

pub struct EeWord {
    pub trs: Vec<EeWordTr>,
    pub phone: String,
    pub speech: String,
    pub return_phrase: String,
}

/// English-English definitions.
pub struct Ee {
    pub source: Source,
    pub word: EeWord,
}

pub struct WfDetail {
    pub name: String,
    pub value: String,
}

pub struct Wf {
    pub wf: WfDetail,
}

pub struct Tr {
    pub pos: Option<String>,
    pub tran: String,
}

pub struct Word {
    pub usphone: String,
    pub ukphone: String,
    pub ukspeech: String,
    pub trs: Vec<Tr>,
    pub wfs: Vec<Wf>,
    pub return_phrase: String,
    pub usspeech: String,
}

pub struct Source {
    pub name: String,
    pub url: String,
}

/// English-Chinese definitions.
pub struct Ec {
    pub web_trans: Vec<String>,
    pub special: Vec<serde_json::Value>,
    pub exam_type: Vec<String>,
    pub source: Source,
    pub word: Word,
}

pub struct Discriminate {
    pub data: Vec<serde_json::Value>,
    pub return_phrase: String,
}

pub struct SynoDetail {
    pub pos: String,
    pub ws: Vec<String>,
    pub tran: String,
}

/// Synonyms.
pub struct Syno {
    pub synos: Vec<SynoDetail>,
    pub word: String,
}

pub struct Phr {
    pub headword: String,
    pub translation: String,
}

/// Phrases.
pub struct Phrs {
    pub word: String,
    pub phrs: Vec<Phr>,
}

pub struct SimpleWord {
    pub usphone: String,
    pub ukphone: String,
    pub ukspeech: String,
    pub return_phrase: String,
    pub usspeech: String,
}

pub struct Simple {
    pub query: String,
    pub word: Vec<SimpleWord>,
}

pub struct WordInfo {
    pub return_phrase: String,
    pub sense: Vec<String>,
}

pub struct VideoSents {
    pub sents_data: Vec<serde_json::Value>,
    pub word_info: WordInfo,
}

/// Machine translation of a whole sentence.
pub struct Fanyi {
    pub input: String,
    pub tran: String,
}

/// One lookup's answer: every section may be absent but the
/// English-Chinese one.
pub struct WordAllInfo {
    pub video_sents: Option<VideoSents>,
    pub simple: Option<Simple>,
    pub phrs: Option<Phrs>,
    pub syno: Option<Syno>,
    pub discriminate: Option<Discriminate>,
    pub lang: String,
    pub ec: Ec,
    pub ee: Option<Ee>,
    pub blng_sents_part: Option<BlngSentsPart>,
    pub individual: Option<Individual>,
    pub collins_primary: Option<CollinsPrimary>,
    pub rel_word: Option<RelWord>,
    pub media_sents_part: Option<MediaSentsPart>,
    pub fanyi: Option<Fanyi>,
    pub input: String,
    pub meta: Meta,
    pub le: String,
}

/// The sentence translation of a lookup, where it holds one.
pub fn sentence_translation(info: &WordAllInfo) -> (r: Option<String>)
    ensures
        r == (match &info.fanyi {
            Some(f) => Some(f.tran),
            None => None,
        }),
{
    match &info.fanyi {
        Some(f) => Some(f.tran.clone()),
        None => None,
    }
}

} // verus!
