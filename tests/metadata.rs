use nsclient::metadata::{match_annotations, match_labels, metadata_from_matches, KvMap, Metadata};
use nsclient::naming::resolve_name;
use nsclient::types::Error;

fn strings(v: &[&str]) -> Vec<String> {
    v.iter().map(|s| s.to_string()).collect()
}

fn entries(m: KvMap) -> Vec<(String, String)> {
    m.into_list().into_iter().map(|kv| (kv.key, kv.value)).collect()
}

fn manifest(name: Option<&str>, labels: &[(&str, &str)]) -> Metadata {
    let mut md = Metadata::empty();
    md.name = name.map(|n| n.to_string());
    for (k, v) in labels {
        md.labels.insert(k.to_string(), v.to_string());
    }
    md
}

#[test]
fn cli_label_overrides_manifest() {
    let md = metadata_from_matches(Some(manifest(None, &[("env", "prod")])), &strings(&["env=staging"]), &vec![])
        .ok()
        .unwrap();
    assert_eq!(entries(md.labels), vec![("env".to_string(), "staging".to_string())]);
}

#[test]
fn merging_same_label_twice_is_idempotent() {
    let mut once = KvMap::new();
    match_labels(&strings(&["a=1"]), &mut once).ok().unwrap();
    let mut twice = KvMap::new();
    match_labels(&strings(&["a=1", "a=1"]), &mut twice).ok().unwrap();
    let mut again = KvMap::new();
    match_labels(&strings(&["a=1"]), &mut again).ok().unwrap();
    match_labels(&strings(&["a=1"]), &mut again).ok().unwrap();
    assert_eq!(entries(once), vec![("a".to_string(), "1".to_string())]);
    assert_eq!(entries(twice), vec![("a".to_string(), "1".to_string())]);
    assert_eq!(entries(again), vec![("a".to_string(), "1".to_string())]);
}

#[test]
fn merge_keeps_first_position_and_last_value() {
    let mut m = KvMap::new();
    match_labels(&strings(&["a=1", "b: 2\nc: 3", "a=4"]), &mut m).ok().unwrap();
    assert_eq!(
        entries(m),
        vec![("a".to_string(), "4".to_string()), ("b".to_string(), "2".to_string()), ("c".to_string(), "3".to_string())]
    );
}

#[test]
fn malformed_label_is_an_option_error() {
    let mut m = KvMap::new();
    let e = match_labels(&strings(&["a=1", "oops"]), &mut m).err().unwrap();
    match e {
        Error::OptionValue(opt, raw, detail) => {
            assert_eq!(opt, "labels");
            assert_eq!(raw, "oops");
            assert!(detail.starts_with('\n'));
        }
        _ => panic!("expected an option error"),
    }
}

#[test]
fn annotations_merge_and_fail() {
    let mut m = KvMap::new();
    match_annotations(&strings(&["x=1", "y=a=b", "x=2"]), &mut m).ok().unwrap();
    assert_eq!(entries(m), vec![("x".to_string(), "2".to_string()), ("y".to_string(), "a=b".to_string())]);
    let mut m2 = KvMap::new();
    match match_annotations(&strings(&["bad"]), &mut m2).err().unwrap() {
        Error::OptionValue(opt, raw, _) => {
            assert_eq!(opt, "annotation");
            assert_eq!(raw, "bad");
        }
        _ => panic!("expected an option error"),
    }
}

#[test]
fn no_manifest_starts_empty() {
    let md = metadata_from_matches(None, &strings(&["k=v"]), &strings(&["n=note"])).ok().unwrap();
    assert!(md.name.is_none());
    assert_eq!(entries(md.labels), vec![("k".to_string(), "v".to_string())]);
    assert_eq!(entries(md.annotations), vec![("n".to_string(), "note".to_string())]);
}

#[test]
fn name_from_manifest_strips_prefix() {
    let md = manifest(Some("foo-bar"), &[]);
    assert_eq!(resolve_name("foo", "-", false, &md).ok().unwrap(), "bar");
}

#[test]
fn name_from_manifest_without_prefix_fails() {
    let md = manifest(Some("baz"), &[]);
    match resolve_name("foo", "-", false, &md).err().unwrap() {
        Error::Configuration(d) => assert_eq!(d, "Expected that name 'baz' is prefixed with product key 'foo'"),
        _ => panic!("expected a configuration error"),
    }
}

#[test]
fn name_from_manifest_missing_fails() {
    let md = manifest(None, &[]);
    assert!(matches!(resolve_name("foo", "-", true, &md), Err(Error::Configuration(_))));
}

#[test]
fn explicit_name_strip_is_best_effort() {
    let md = manifest(None, &[]);
    assert_eq!(resolve_name("foo", "foo-bar", true, &md).ok().unwrap(), "bar");
    assert_eq!(resolve_name("foo", "baz", true, &md).ok().unwrap(), "baz");
    assert_eq!(resolve_name("foo", "foo-bar", false, &md).ok().unwrap(), "foo-bar");
}

#[test]
fn labels_before_a_failure_stay_applied() {
    let mut m = KvMap::new();
    assert!(match_labels(&strings(&["a=1", "bad", "c=3"]), &mut m).is_err());
    assert_eq!(entries(m), vec![("a".to_string(), "1".to_string())]);
    let mut n = KvMap::new();
    assert!(match_annotations(&strings(&["x=1", "bad", "y=2"]), &mut n).is_err());
    assert_eq!(entries(n), vec![("x".to_string(), "1".to_string())]);
}
