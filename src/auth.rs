//! The decisions around authentication and the platform API's answers: the
//! client credentials to post, which token to accept, and which status is a
//! failure.
use vstd::prelude::*;
use crate::text::{contains_seq, contains_str};
use crate::types::{Error, OAuthCred, Token};

verus! {

/// What percent-decoding makes of `s`; none where the decoded bytes are not
/// UTF-8.
pub uninterp spec fn url_decoded(s: Seq<char>) -> Option<Seq<char>>;

/// Relies on `urlencoding::decode`: `%XX` escapes decoded, `+` kept as it
/// is, the result depending on the text alone; a failure is handed back as
/// the text that its `Display` gives.
#[verifier::external_body]
fn decode_url(s: &str) -> (r: Result<String, String>)
    ensures
        match r {
            Ok(d) => url_decoded(s@) == Some(d@),
            Err(_) => url_decoded(s@) is None,
        },
{
    urlencoding::decode(s).map_err(|e| e.to_string())
}

/// The mark of a scope that arrives percent-encoded already.
pub open spec fn encoded_mark() -> Seq<char> {
    "%3A%2F%2F"@
}

/// The scope to send: decoded where it holds an encoded `://`, so that it is
/// not encoded twice; as given otherwise. None where decoding fails.
pub open spec fn effective_scope(scope: Seq<char>) -> Option<Seq<char>> {
    if contains_seq(scope, encoded_mark()) {
        url_decoded(scope)
    } else {
        Some(scope)
    }
}

/// Client credentials from the settings read for them.
pub fn oauth_creds(scope: String, client_id: String, client_secret: String) -> (r: Result<OAuthCred, Error>)
    ensures
        match r {
            Ok(c) => exists|s: Seq<char>|
                effective_scope(scope@) == Some(s) && c.form_spec() == seq![
                    ("scope"@, s),
                    ("client_id"@, client_id@),
                    ("client_secret"@, client_secret@),
                    ("grant_type"@, "client_credentials"@),
                ],
            Err(e) => effective_scope(scope@) is None && e is Unknown,
        },
{
    let mut scope = scope;
    if contains_str(scope.as_str(), "%3A%2F%2F") {
        match decode_url(scope.as_str()) {
            Ok(d) => {
                scope = d;
            },
            Err(m) => {
                return Err(Error::Unknown(m));
            },
        }
    }
    Ok(OAuthCred::new(scope, client_id, client_secret))
}

pub open spec fn bearer_type() -> Seq<char> {
    "Bearer"@
}

/// Accepts a bearer token; any other type is an error naming it.
pub fn accept_token(token: Token) -> (r: Result<Token, Error>)
    ensures
        match r {
            Ok(t) => t == token && token.type_spec() == bearer_type(),
            Err(e) => token.type_spec() != bearer_type() && match e {
                Error::Unknown(m) => m@ == "Unknown token type: "@ + token.type_spec(),
                _ => false,
            },
        },
{
    let bearer = String::from_str("Bearer");
    let ty = String::from_str(token.get_type());
    if ty == bearer {
        Ok(token)
    } else {
        let mut m = String::from_str("Unknown token type: ");
        m.append(ty.as_str());
        Err(Error::Unknown(m))
    }
}

/// The identity provider's answer: its body where the status is a success,
/// an error with the status and the body otherwise.
pub fn oauth_outcome(success: bool, status: u16, body: String) -> (r: Result<String, Error>)
    ensures
        success ==> r == Ok::<String, Error>(body),
        !success ==> r == Err::<String, Error>(Error::OAuth(status, body)),
{
    if success {
        Ok(body)
    } else {
        Err(Error::OAuth(status, body))
    }
}

/// The platform API's answer: its body where the status is a success, an
/// error with the status and the body otherwise.
pub fn api_outcome(success: bool, status: u16, body: String) -> (r: Result<String, Error>)
    ensures
        success ==> r == Ok::<String, Error>(body),
        !success ==> r == Err::<String, Error>(Error::Api(status, body)),
{
    if success {
        Ok(body)
    } else {
        Err(Error::Api(status, body))
    }
}

} // verus!
