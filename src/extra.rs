//! Extra request properties: a YAML or JSON mapping of names to arbitrary
//! JSON values, flattened into the request.
use vstd::prelude::*;
use crate::metadata::is_option_error;


verus! {

#[verifier::external_type_specification]
#[verifier::external_body]
pub struct ExValue(serde_json::Value);

/// Extra properties: names with JSON values.
pub type ExtraProps = Vec<(String, serde_json::Value)>;

pub open spec fn extra_view(v: Seq<(String, serde_json::Value)>) -> Seq<(Seq<char>, serde_json::Value)> {
    v.map_values(|e: (String, serde_json::Value)| (e.0@, e.1))
}

pub open spec fn names_distinct(v: Seq<(Seq<char>, serde_json::Value)>) -> bool {
    forall|i: int, j: int| 0 <= i < v.len() && 0 <= j < v.len() && #[trigger] v[i].0 == #[trigger] v[j].0 ==> i == j
}

/// The entries, in key order, of the mapping of strings to JSON values that
/// serde_yaml reads from `text`; none where the text is no such mapping.
pub uninterp spec fn yaml_mapping(text: Seq<char>) -> Option<Seq<(Seq<char>, serde_json::Value)>>;

/// Relies on `serde_yaml::from_str` into `serde_json::Map<String, Value>`:
/// the result depends on the text alone, and a map holds each key once. A
/// failure is handed back as the text that its `Display` gives.
#[verifier::external_body]
fn parse_yaml_mapping(text: &str) -> (r: Result<ExtraProps, String>)
    ensures
        match r {
            Ok(v) => yaml_mapping(text@) == Some(extra_view(v@)),
            Err(_) => yaml_mapping(text@) is None,
        },
        r matches Ok(v) ==> names_distinct(extra_view(v@)),
{
    serde_yaml::from_str::<serde_json::Map<String, serde_json::Value>>(text).map(
        |m| m.into_iter().collect(),
    ).map_err(|e| e.to_string())
}

/// The file named by an option value of the form `@filename`.
pub fn file_reference(raw: &str) -> (r: Option<String>)
    ensures
        match r {
            Some(f) => raw@.len() > 0 && raw@[0] == '@' && f@ == raw@.skip(1),
            None => raw@.len() == 0 || raw@[0] != '@',
        },
{
    let n = raw.unicode_len();
    if n > 0 && raw.get_char(0) == '@' {
        let f = raw.substring_char(1, n);
        Some(f.to_owned())
    } else {
        None
    }
}

/// The extra properties that `text` holds, read as YAML (of which JSON is a
/// part); `raw` is the option value that `text` came from.
pub fn extra_from_text(raw: &str, text: &str) -> (r: Result<ExtraProps, crate::types::Error>)
    ensures
        match r {
            Ok(v) => yaml_mapping(text@) == Some(extra_view(v@)) && names_distinct(extra_view(v@)),
            Err(e) => yaml_mapping(text@) is None && exists|d: Seq<char>| is_option_error(e, "extra-data"@, raw@, d),
        },
{
    match parse_yaml_mapping(text) {
        Ok(v) => Ok(v),
        Err(d) => {
            let err = crate::types::Error::OptionValue(String::from_str("extra-data"), raw.to_owned(), d);
            assert(is_option_error(err, "extra-data"@, raw@, d@));
            Err(err)
        },
    }
}

/// Whether no name occurs twice among the extra properties.
pub fn extra_names_distinct(extra: &ExtraProps) -> (r: bool)
    ensures
        r == names_distinct(extra_view(extra@)),
{
    let ghost v = extra_view(extra@);
    let n = extra.len();
    let mut i: usize = 0;
    while i < n
        invariant
            n == extra@.len(),
            v == extra_view(extra@),
            i <= n,
            forall|a: int, b: int| 0 <= a < i && 0 <= b < n && #[trigger] v[a].0 == #[trigger] v[b].0 ==> a == b,
        decreases n - i,
    {
        let mut j: usize = 0;
        while j < n
            invariant
                n == extra@.len(),
                v == extra_view(extra@),
                i < n,
                j <= n,
                forall|a: int, b: int| 0 <= a < i && 0 <= b < n && #[trigger] v[a].0 == #[trigger] v[b].0 ==> a == b,
                forall|b: int| 0 <= b < j && #[trigger] v[b].0 == v[i as int].0 ==> b == i,
            decreases n - j,
        {
            if j != i && extra[i].0 == extra[j].0 {
                proof {
                    assert(v[i as int].0 == v[j as int].0);
                }
                return false;
            }
            j = j + 1;
        }
        i = i + 1;
    }
    true
}

} // verus!
