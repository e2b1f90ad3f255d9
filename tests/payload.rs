use nsclient::extra::{extra_from_text, extra_names_distinct, file_reference};
use nsclient::labels::KeyValue;
use nsclient::payload::{NSDef, WireValue};
use nsclient::types::Error;
use nsclient::vault::VaultServiceAccounts;

fn names(fields: &[nsclient::payload::WireField]) -> Vec<String> {
    fields.iter().map(|f| f.name.clone()).collect()
}

#[test]
fn extra_properties_are_flattened() {
    let extra = extra_from_text("{\"owner\":\"team-x\"}", "{\"owner\":\"team-x\"}").ok().unwrap();
    let d = NSDef::new(
        "pk".to_string(),
        "24h".to_string(),
        "c1".to_string(),
        "ns".to_string(),
        vec![],
        vec![],
        VaultServiceAccounts::new_no_default(),
        extra,
    )
    .ok()
    .unwrap();
    let fields = d.into_wire();
    assert_eq!(names(&fields), vec!["productkey", "ttl", "cluster", "namespace", "owner"]);
    match &fields[4].value {
        WireValue::Raw(v) => assert_eq!(v, &serde_json::Value::String("team-x".to_string())),
        _ => panic!("expected a raw value"),
    }
}

#[test]
fn all_sections_present() {
    let mut vault = VaultServiceAccounts::new_no_default();
    vault.extend(vec!["svc".to_string()]);
    let d = NSDef::new(
        "pk".to_string(),
        "1d".to_string(),
        "c1".to_string(),
        "ns".to_string(),
        vec![KeyValue::new("a".to_string(), "1".to_string())],
        vec![KeyValue::new("n".to_string(), "x".to_string())],
        vault,
        vec![],
    )
    .ok()
    .unwrap();
    let fields = d.into_wire();
    assert_eq!(names(&fields), vec!["productkey", "ttl", "cluster", "namespace", "labels", "annotations", "vault_config"]);
    match &fields[6].value {
        WireValue::VaultConfig(s) => assert_eq!(s, "svc"),
        _ => panic!("expected the vault config"),
    }
    match &fields[1].value {
        WireValue::Text(s) => assert_eq!(s, "1d"),
        _ => panic!("expected text"),
    }
}

#[test]
fn default_vault_is_sent() {
    let d = NSDef::new(
        "pk".to_string(),
        "1h".to_string(),
        "c".to_string(),
        "n".to_string(),
        vec![],
        vec![],
        VaultServiceAccounts::new(),
        vec![],
    )
    .ok()
    .unwrap();
    let fields = d.into_wire();
    assert_eq!(names(&fields), vec!["productkey", "ttl", "cluster", "namespace", "vault_config"]);
}

#[test]
fn empty_required_field_is_refused() {
    let e = NSDef::new(
        "pk".to_string(),
        "".to_string(),
        "c".to_string(),
        "n".to_string(),
        vec![],
        vec![],
        VaultServiceAccounts::new(),
        vec![],
    )
    .err()
    .unwrap();
    match e {
        Error::Configuration(d) => assert_eq!(d, "ttl must not be empty"),
        _ => panic!("expected a configuration error"),
    }
}

#[test]
fn extra_from_yaml_is_sorted_by_key() {
    let extra = extra_from_text("inline", "zeta: 1\nalpha: [1, 2]\n").ok().unwrap();
    let keys: Vec<String> = extra.iter().map(|e| e.0.clone()).collect();
    assert_eq!(keys, vec!["alpha", "zeta"]);
}

#[test]
fn malformed_extra_is_an_option_error() {
    match extra_from_text("[1, 2]", "[1, 2]").err().unwrap() {
        Error::OptionValue(opt, raw, _) => {
            assert_eq!(opt, "extra-data");
            assert_eq!(raw, "[1, 2]");
        }
        _ => panic!("expected an option error"),
    }
}

#[test]
fn file_references() {
    assert_eq!(file_reference("@extra.yaml"), Some("extra.yaml".to_string()));
    assert_eq!(file_reference("owner: x"), None);
    assert_eq!(file_reference(""), None);
}

#[test]
fn extra_names_must_be_distinct() {
    let one = serde_json::Value::Bool(true);
    assert!(extra_names_distinct(&vec![]));
    assert!(extra_names_distinct(&vec![("a".to_string(), one.clone()), ("b".to_string(), one.clone())]));
    assert!(!extra_names_distinct(&vec![
        ("a".to_string(), one.clone()),
        ("b".to_string(), one.clone()),
        ("a".to_string(), one.clone()),
    ]));
}
