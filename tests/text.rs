use piperdesk::dict::{DictError, PronunciationDictionary};
use piperdesk::ssml::{plain_from_events, ssml_to_plain, MarkupError};
use piperdesk::text::{same_text, to_ascii_lower, trim};

#[test]
fn dictionary_substitutes_known_words() {
    let d = PronunciationDictionary::from_json(r#"{"GIF": "jif", "SQL": "sequel"}"#).ok().unwrap();
    assert_eq!(d.translate("GIF"), "jif");
    assert_eq!(d.translate("SQL"), "sequel");
    assert_eq!(d.translate("gif"), "gif");
}

#[test]
fn dictionary_missing_file_is_empty_and_bad_json_fails() {
    let d = PronunciationDictionary::from_file_content(None).ok().unwrap();
    assert_eq!(d.translate("word"), "word");
    assert_eq!(PronunciationDictionary::from_json("[1, 2]").err(), Some(DictError::InvalidFormat));
    assert!(PronunciationDictionary::from_file_content(Some("{}".to_string())).is_ok());
}

#[test]
fn markup_reduces_to_spaced_text() {
    assert_eq!(
        ssml_to_plain("<speak>Hello <emphasis>big</emphasis> world</speak>").ok().unwrap(),
        "Hello big world"
    );
    assert_eq!(ssml_to_plain("<speak>  a &amp; b  </speak>").ok().unwrap(), "a & b");
    assert_eq!(ssml_to_plain("").ok().unwrap(), "");
}

#[test]
fn malformed_markup_fails() {
    assert_eq!(ssml_to_plain("<speak>hi</other>").err(), Some(MarkupError::MarkupParseError));
}

#[test]
fn text_helpers() {
    assert!(same_text("abc", "abc"));
    assert!(!same_text("abc", "abd"));
    assert!(!same_text("ab", "abc"));
    assert_eq!(to_ascii_lower("MiXeD-Ünï"), "mixed-Ünï");
}

#[test]
fn dictionary_substitutes_each_word_of_a_text() {
    let d = PronunciationDictionary::from_json(r#"{"GIF": "jif", "SQL": "sequel"}"#).ok().unwrap();
    assert_eq!(d.substitute_words("a GIF of SQL"), "a jif of sequel");
    assert_eq!(d.substitute_words(" GIF  x "), " jif  x ");
    assert_eq!(d.substitute_words(""), "");
}

#[test]
fn events_join_into_plain_text() {
    let events = vec![None, Some("  Hello ".to_string()), None, Some("world".to_string()), None];
    assert_eq!(plain_from_events(&events), "Hello world");
    assert_eq!(plain_from_events(&vec![None, None]), "");
    assert_eq!(plain_from_events(&vec![Some("".to_string()), Some("x".to_string())]), "x");
}

#[test]
fn trimming_matches_std() {
    for s in ["  a b \t\n", "\u{3000}x\u{85}", "\u{200b}x", "", " \u{a0} ", "no_space", "\u{2029}y\u{2000}z\u{205f}"] {
        assert_eq!(trim(s), s.trim());
    }
    assert_eq!(trim("\u{1680} mid dle \r"), "mid dle");
}

#[test]
fn blank_text_nodes_add_no_space() {
    assert_eq!(ssml_to_plain("<speak>x<b>&#32;</b>y</speak>").ok().unwrap(), "x y");
    let events = vec![Some("x".to_string()), Some(" ".to_string()), None, Some("y".to_string())];
    assert_eq!(plain_from_events(&events), "x y");
}
