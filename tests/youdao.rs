use video2en::dict::{Ec, Fanyi, Meta, Source, Word, WordAllInfo};
use video2en::pipeline::TranslationOutcome;
use video2en::youdao::{lookup_outcome, salt, YoudaoTranslator};

fn translator() -> YoudaoTranslator {
    YoudaoTranslator::new("key".to_string(), "https://example.invalid/lookup".to_string())
}

fn hex(s: &str) -> String {
    format!("{:x}", md5::compute(s.as_bytes()))
}

fn info(fanyi: Option<Fanyi>) -> WordAllInfo {
    WordAllInfo {
        video_sents: None,
        simple: None,
        phrs: None,
        syno: None,
        discriminate: None,
        lang: "eng".to_string(),
        ec: Ec {
            web_trans: Vec::new(),
            special: Vec::new(),
            exam_type: Vec::new(),
            source: Source { name: String::new(), url: String::new() },
            word: Word {
                usphone: String::new(),
                ukphone: String::new(),
                ukspeech: String::new(),
                trs: Vec::new(),
                wfs: Vec::new(),
                return_phrase: String::new(),
                usspeech: String::new(),
            },
        },
        ee: None,
        blng_sents_part: None,
        individual: None,
        collins_primary: None,
        rel_word: None,
        media_sents_part: None,
        fanyi,
        input: "peace".to_string(),
        meta: Meta {
            input: "peace".to_string(),
            guess_language: "eng".to_string(),
            is_has_simple_dict: "1".to_string(),
            le: "en".to_string(),
            lang: "eng".to_string(),
            dicts: Vec::new(),
        },
        le: "en".to_string(),
    }
}

#[test]
fn salt_is_last_digit_of_byte_length_plus_seven() {
    assert_eq!(salt("It's peaceful"), '0');
    assert_eq!(salt(""), '7');
    assert_eq!(salt("你"), '0');
    assert_eq!(salt("ab"), '9');
}

#[test]
fn signature_is_md5_of_client_text_salt_key_and_inner_digest() {
    let t = translator();
    let text = "It's peaceful";
    let inner = hex("It's peacefulwebdict");
    let expected = hex(&format!("webIt's peaceful0key{}", inner));
    assert_eq!(t.sign(text), expected);
    assert_eq!(t.sign(text).len(), 32);
}

#[test]
fn form_fields_in_order() {
    let t = translator();
    let fields = t.form_fields("hello");
    let names: Vec<&str> = fields.iter().map(|p| p.0.as_str()).collect();
    assert_eq!(names, vec!["q", "le", "t", "client", "sign", "keyfrom"]);
    assert_eq!(fields[0].1, "hello");
    assert_eq!(fields[1].1, "en");
    assert_eq!(fields[2].1, "2");
    assert_eq!(fields[3].1, "web");
    assert_eq!(fields[4].1, t.sign("hello"));
    assert_eq!(fields[5].1, "webdict");
}

#[test]
fn lookup_outcomes() {
    let found = info(Some(Fanyi { input: "peace".to_string(), tran: "和平".to_string() }));
    assert!(matches!(lookup_outcome(Some(&found)), TranslationOutcome::Translated(t) if t == "和平"));
    assert!(matches!(lookup_outcome(Some(&info(None))), TranslationOutcome::NotFound));
    assert!(matches!(lookup_outcome(None), TranslationOutcome::Failed));
}
