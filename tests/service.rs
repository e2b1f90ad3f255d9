use nsclient::auth::{accept_token, api_outcome, oauth_creds, oauth_outcome};
use nsclient::ttl::{ttl_verdict, validate_ttl};
use nsclient::types::{Error, ExitError, NSResponse, OAuthCred, Token};

#[test]
fn ttl_accepts_hours_and_days() {
    for h in 1..=24 {
        assert!(validate_ttl(&format!("{}h", h)).is_ok(), "{}h", h);
    }
    for d in 1..=7 {
        assert!(validate_ttl(&format!("{}d", d)).is_ok(), "{}d", d);
    }
}

#[test]
fn ttl_rejects_out_of_range() {
    for t in ["25h", "8d", "0h", "", "24", "01h", "1w", "1h "] {
        assert_eq!(validate_ttl(t).err().unwrap(), "Valid TTLs are 1-24h or 1-7d", "{}", t);
    }
    assert!(ttl_verdict(true).is_ok());
    assert!(ttl_verdict(false).is_err());
}

#[test]
fn encoded_scope_is_decoded() {
    let c = oauth_creds("api%3A%2F%2Fabc%2F.default".to_string(), "id".to_string(), "s".to_string()).ok().unwrap();
    assert_eq!(c.form_fields()[0], ("scope".to_string(), "api://abc/.default".to_string()));
    let plain = oauth_creds("api://x/.default".to_string(), "id".to_string(), "s".to_string()).ok().unwrap();
    assert_eq!(plain.form_fields()[0].1, "api://x/.default");
}

#[test]
fn undecodable_scope_fails() {
    assert!(matches!(oauth_creds("%3A%2F%2F%FF".to_string(), "i".to_string(), "s".to_string()), Err(Error::Unknown(_))));
}

#[test]
fn credential_form() {
    let c = OAuthCred::new("sc".to_string(), "id".to_string(), "secret".to_string());
    let f = c.form_fields();
    assert_eq!(
        f,
        vec![
            ("scope".to_string(), "sc".to_string()),
            ("client_id".to_string(), "id".to_string()),
            ("client_secret".to_string(), "secret".to_string()),
            ("grant_type".to_string(), "client_credentials".to_string()),
        ]
    );
}

#[test]
fn bearer_tokens_only() {
    let t = accept_token(Token::new("Bearer".to_string(), "abc".to_string())).ok().unwrap();
    assert_eq!(t.get_type(), "Bearer");
    assert_eq!(t.to_string(), "abc");
    match accept_token(Token::new("MAC".to_string(), "abc".to_string())).err().unwrap() {
        Error::Unknown(m) => assert_eq!(m, "Unknown token type: MAC"),
        _ => panic!("expected an unknown error"),
    }
}

#[test]
fn outcomes_by_status() {
    assert_eq!(oauth_outcome(true, 200, "b".to_string()).ok().unwrap(), "b");
    assert!(matches!(oauth_outcome(false, 401, "no".to_string()), Err(Error::OAuth(401, _))));
    assert_eq!(api_outcome(true, 201, "ok".to_string()).ok().unwrap(), "ok");
    assert!(matches!(api_outcome(false, 500, "x".to_string()), Err(Error::Api(500, _))));
}

#[test]
fn error_messages_and_codes() {
    let e = Error::Api(503, "down".to_string());
    assert_eq!(e.to_string(), "Error from Platform API, status code: 503\ndown");
    assert_eq!(e.exit_code(), 4);
    let o = Error::OptionValue("labels".to_string(), "x".to_string(), "bad".to_string());
    assert_eq!(o.to_string(), "Error in labels option value 'x': bad");
    assert_eq!(o.exit_code(), 2);
    assert_eq!(Error::OAuth(401, "no".to_string()).to_string(), "Error from OAuth API, status code: 401\nno");
    assert_eq!(Error::OAuth(401, "no".to_string()).exit_code(), 3);
    assert_eq!(Error::Environment("x".to_string()).to_string(), "Environment Error: x");
    assert_eq!(Error::APITimeout.to_string(), "Timeout calling PlatformAPI");
    assert_eq!(Error::Unknown("u".to_string()).exit_code(), 1);
    let x: ExitError = Error::Configuration("c".to_string()).into();
    assert_eq!(x.to_string(), "c");
}

#[test]
fn response_text() {
    let r = NSResponse { message: "created".to_string(), namespace: "pk-ns".to_string(), expiry: "tomorrow".to_string() };
    assert_eq!(r.to_string(), "message: created\nnamespace: pk-ns\nexpiry: tomorrow");
}
