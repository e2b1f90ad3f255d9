//! Validation of namespace time-to-live values: `1h` to `24h`, or `1d` to
//! `7d`, checked against a regular expression.
use vstd::prelude::*;

verus! {

#[verifier::external_type_specification]
#[verifier::external_body]
pub struct ExRegex(regex::Regex);

/// Whether the regular expression `pattern` matches somewhere in `text`.
pub uninterp spec fn regex_accepts(pattern: Seq<char>, text: Seq<char>) -> bool;

/// A compiled regular expression and the pattern it was compiled from.
pub struct Pattern {
    regex: regex::Regex,
    source: String,
}

impl Pattern {
    pub closed spec fn source(&self) -> Seq<char> {
        self.source@
    }
}

/// Relies on `regex::Regex::new`: compiles `pattern`, or fails where the
/// pattern is invalid or too large; the time-to-live pattern is neither.
#[verifier::external_body]
fn compile(pattern: &str) -> (r: Option<Pattern>)
    ensures
        r matches Some(p) ==> p.source() == pattern@,
        pattern@ == ttl_pattern() ==> r is Some,
{
    match regex::Regex::new(pattern) {
        Ok(regex) => Some(Pattern { regex, source: pattern.to_string() }),
        Err(_) => None,
    }
}

/// Relies on `regex::Regex::is_match`: whether the compiled pattern matches
/// somewhere in `text`, a function of the pattern and the text alone.
#[verifier::external_body]
fn is_match(p: &Pattern, text: &str) -> (r: bool)
    ensures
        r == regex_accepts(p.source(), text@),
{
    p.regex.is_match(text)
}

/// The pattern that a time-to-live must match.
pub open spec fn ttl_pattern() -> Seq<char> {
    "^(1([hd]|[0-9]h)|2([hd]|[0-4]h)|[3-7][hd]|[89]h)$"@
}

pub open spec fn ttl_error_text() -> Seq<char> {
    "Valid TTLs are 1-24h or 1-7d"@
}

/// The outcome of validation once the pattern has answered whether it
/// matched.
pub fn ttl_verdict(matched: bool) -> (r: Result<(), String>)
    ensures
        r is Ok <==> matched,
        r matches Err(m) ==> m@ == ttl_error_text(),
{
    if matched {
        Ok(())
    } else {
        Err(String::from_str("Valid TTLs are 1-24h or 1-7d"))
    }
}

/// Accepts a time-to-live of 1 to 24 hours or 1 to 7 days, written `<n>h` or
/// `<n>d`, and refuses anything else with a message.
pub fn validate_ttl(inp: &str) -> (r: Result<(), String>)
    ensures
        r is Ok <==> regex_accepts(ttl_pattern(), inp@),
        r matches Err(m) ==> m@ == ttl_error_text(),
{
    let matched = match compile("^(1([hd]|[0-9]h)|2([hd]|[0-4]h)|[3-7][hd]|[89]h)$") {
        Some(p) => is_match(&p, inp),
        None => false,
    };
    ttl_verdict(matched)
}

} // verus!
