use nsclient::labels::{annotation_from_str, labels_from_str, KeyValue, ParseReason};
use nsclient::text::decimal;

fn pairs(v: &[KeyValue]) -> Vec<(String, String)> {
    v.iter().map(|kv| (kv.key.clone(), kv.value.clone())).collect()
}

#[test]
fn single_pair_round_trip() {
    let tok = "app.example.com/team=core=blue";
    let parsed = labels_from_str(tok).unwrap();
    assert_eq!(pairs(&parsed), vec![("app.example.com/team".to_string(), "core=blue".to_string())]);
    assert_eq!(parsed[0].to_token(), tok);
}

#[test]
fn single_pair_empty_value() {
    let parsed = labels_from_str("env=").unwrap();
    assert_eq!(pairs(&parsed), vec![("env".to_string(), "".to_string())]);
    assert_eq!(parsed[0].to_token(), "env=");
}

#[test]
fn block_form_skips_blank_lines() {
    let parsed = labels_from_str("env: prod\n\n  \ntier:   web\nowner:team-x").unwrap();
    assert_eq!(
        pairs(&parsed),
        vec![
            ("env".to_string(), "prod".to_string()),
            ("tier".to_string(), "web".to_string()),
            ("owner".to_string(), "team-x".to_string()),
        ]
    );
}

#[test]
fn empty_input_gives_no_pairs() {
    assert!(labels_from_str("").unwrap().is_empty());
}

#[test]
fn missing_separator_is_refused() {
    let e = labels_from_str("a=1\nnoseparator").err().unwrap();
    assert_eq!(e.reason, ParseReason::MissingSeparator);
    assert_eq!(e.line, 2);
    assert_eq!(e.input, "a=1\nnoseparator");
    assert!(e.message().ends_with("(line 2)"));
}

#[test]
fn empty_key_is_refused() {
    let e = labels_from_str("=value").err().unwrap();
    assert_eq!(e.reason, ParseReason::EmptyKey);
    assert_eq!(e.line, 1);
}

#[test]
fn invalid_keys_are_refused() {
    for tok in ["bad key=1", "/lead=1", "trail/=1", "a/b/c=1", "k*y=1"] {
        let e = labels_from_str(tok).err().unwrap();
        assert_eq!(e.reason, ParseReason::InvalidKey, "{}", tok);
    }
}

#[test]
fn annotation_splits_on_first_equals() {
    let kv = annotation_from_str("note=a=b: c\nd").unwrap();
    assert_eq!(kv.key, "note");
    assert_eq!(kv.value, "a=b: c\nd");
    assert_eq!(kv.to_token(), "note=a=b: c\nd");
}

#[test]
fn annotation_errors() {
    assert_eq!(annotation_from_str("novalue").err().unwrap().reason, ParseReason::MissingSeparator);
    assert_eq!(annotation_from_str("=v").err().unwrap().reason, ParseReason::EmptyKey);
    assert_eq!(annotation_from_str("a:b=v").err().unwrap().reason, ParseReason::InvalidKey);
}

#[test]
fn decimal_rendering() {
    assert_eq!(decimal(0), "0");
    assert_eq!(decimal(7), "7");
    assert_eq!(decimal(404), "404");
    assert_eq!(decimal(65535), "65535");
}

#[test]
fn parser_value_parses_tokens() {
    let p = nsclient::labels::LabelParser;
    let parsed = p.parse("a: 1\nb=2").unwrap();
    assert_eq!(pairs(&parsed), vec![("a".to_string(), "1".to_string()), ("b".to_string(), "2".to_string())]);
}
