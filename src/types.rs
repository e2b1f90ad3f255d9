//! Error kinds surfaced by the library and the small records exchanged with
//! the platform and identity services.
use vstd::prelude::*;
use crate::text::{decimal, decimal_of};

verus! {

/// Every failure the library reports, with enough detail to print a message
/// and pick an exit code.
#[derive(Debug)]
pub enum Error {
    /// A required setting could not be read.
    Environment(String),
    /// The identity provider answered with a failure status and body.
    OAuth(u16, String),
    /// The platform API answered with a failure status and body.
    Api(u16, String),
    /// The platform API did not answer in time.
    APITimeout,
    /// An option value was malformed: the option's name, the raw value, and
    /// what was wrong with it.
    OptionValue(String, String, String),
    /// The name and prefix settings contradict each other or the manifest.
    Configuration(String),
    /// Anything else.
    Unknown(String),
}

impl Error {
    /// The text that the error shows.
    pub open spec fn message_of(&self) -> Seq<char> {
        match self {
            Error::Environment(s) => "Environment Error: "@ + s@,
            Error::OAuth(c, b) => "Error from OAuth API, status code: "@ + decimal_of(*c as nat) + "\n"@ + b@,
            Error::Api(c, b) => "Error from Platform API, status code: "@ + decimal_of(*c as nat) + "\n"@ + b@,
            Error::APITimeout => "Timeout calling PlatformAPI"@,
            Error::OptionValue(o, r, d) => "Error in "@ + o@ + " option value '"@ + r@ + "': "@ + d@,
            Error::Configuration(d) => d@,
            Error::Unknown(d) => d@,
        }
    }

    /// The process exit code for the error's category: 2 for the
    /// environment and the configuration, 3 for the identity provider, 4 for
    /// the platform API, 1 for anything else.
    pub open spec fn exit_code_of(&self) -> i32 {
        match self {
            Error::Environment(_) | Error::OptionValue(..) | Error::Configuration(_) => 2,
            Error::OAuth(..) => 3,
            Error::Api(..) | Error::APITimeout => 4,
            Error::Unknown(_) => 1,
        }
    }

    /// A human-readable account of the error.
    pub fn to_string(&self) -> (r: String)
        ensures
            r@ == self.message_of(),
    {
        match self {
            Error::Environment(s) => {
                let mut r = String::from_str("Environment Error: ");
                r.append(s.as_str());
                r
            },
            Error::OAuth(c, b) => {
                let mut r = String::from_str("Error from OAuth API, status code: ");
                r.append(decimal(*c as usize).as_str());
                r.append("\n");
                r.append(b.as_str());
                r
            },
            Error::Api(c, b) => {
                let mut r = String::from_str("Error from Platform API, status code: ");
                r.append(decimal(*c as usize).as_str());
                r.append("\n");
                r.append(b.as_str());
                r
            },
            Error::APITimeout => String::from_str("Timeout calling PlatformAPI"),
            Error::OptionValue(o, v, d) => {
                let mut r = String::from_str("Error in ");
                r.append(o.as_str());
                r.append(" option value '");
                r.append(v.as_str());
                r.append("': ");
                r.append(d.as_str());
                r
            },
            Error::Configuration(d) => d.clone(),
            Error::Unknown(d) => d.clone(),
        }
    }

    /// The exit code for the error's category.
    pub fn exit_code(&self) -> (r: i32)
        ensures
            r == self.exit_code_of(),
    {
        match self {
            Error::Environment(_) | Error::OptionValue(..) | Error::Configuration(_) => 2,
            Error::OAuth(..) => 3,
            Error::Api(..) | Error::APITimeout => 4,
            Error::Unknown(_) => 1,
        }
    }
}

/// The error with which the process ends.
#[derive(Debug)]
pub struct ExitError(pub Error);

impl From<Error> for ExitError {
    fn from(err: Error) -> (r: ExitError) {
        ExitError(err)
    }
}

impl vstd::std_specs::convert::FromSpecImpl<Error> for ExitError {
    open spec fn obeys_from_spec() -> bool {
        true
    }

    open spec fn from_spec(err: Error) -> ExitError {
        ExitError(err)
    }
}

impl ExitError {
    /// The text printed when the process ends with this error.
    pub fn to_string(&self) -> (r: String)
        ensures
            r@ == self.0.message_of(),
    {
        self.0.to_string()
    }
}

/// An access token from the identity provider: its type and its value.
#[derive(Debug)]
pub struct Token {
    type_: String,
    value: String,
}

impl Token {
    pub fn new(type_: String, value: String) -> (r: Token)
        ensures
            r.type_spec() == type_@,
            r.value_spec() == value@,
    {
        Token { type_, value }
    }

    pub closed spec fn type_spec(&self) -> Seq<char> {
        self.type_@
    }

    pub closed spec fn value_spec(&self) -> Seq<char> {
        self.value@
    }

    /// The token type, such as `Bearer`.
    pub fn get_type(&self) -> (r: &str)
        ensures
            r@ == self.type_spec(),
    {
        self.type_.as_str()
    }

    /// The token's value, as sent in an authorization header.
    pub fn to_string(&self) -> (r: String)
        ensures
            r@ == self.value_spec(),
    {
        self.value.clone()
    }
}

/// The platform API's answer to a namespace request.
#[derive(Debug)]
pub struct NSResponse {
    pub message: String,
    pub namespace: String,
    pub expiry: String,
}

impl NSResponse {
    pub open spec fn text_of(&self) -> Seq<char> {
        "message: "@ + self.message@ + "\nnamespace: "@ + self.namespace@ + "\nexpiry: "@ + self.expiry@
    }

    /// The answer as three `name: value` lines.
    pub fn to_string(&self) -> (r: String)
        ensures
            r@ == self.text_of(),
    {
        let mut r = String::from_str("message: ");
        r.append(self.message.as_str());
        r.append("\nnamespace: ");
        r.append(self.namespace.as_str());
        r.append("\nexpiry: ");
        r.append(self.expiry.as_str());
        r
    }
}

/// Client credentials for the identity provider's token endpoint.
#[derive(Debug)]
pub struct OAuthCred {
    scope: String,
    client_id: String,
    client_secret: String,
    grant_type: String,
}

impl OAuthCred {
    /// Credentials for the client-credentials grant.
    pub fn new(scope: String, client_id: String, client_secret: String) -> (r: OAuthCred)
        ensures
            r.form_spec() == seq![
                ("scope"@, scope@),
                ("client_id"@, client_id@),
                ("client_secret"@, client_secret@),
                ("grant_type"@, "client_credentials"@),
            ],
    {
        OAuthCred { scope, client_id, client_secret, grant_type: String::from_str("client_credentials") }
    }

    /// The form fields, in order.
    pub closed spec fn form_spec(&self) -> Seq<(Seq<char>, Seq<char>)> {
        seq![
            ("scope"@, self.scope@),
            ("client_id"@, self.client_id@),
            ("client_secret"@, self.client_secret@),
            ("grant_type"@, self.grant_type@),
        ]
    }

    /// The form fields to post, in order.
    pub fn form_fields(&self) -> (r: Vec<(String, String)>)
        ensures
            r@.map_values(|f: (String, String)| (f.0@, f.1@)) == self.form_spec(),
    {
        let mut r: Vec<(String, String)> = Vec::new();
        r.push((String::from_str("scope"), self.scope.clone()));
        r.push((String::from_str("client_id"), self.client_id.clone()));
        r.push((String::from_str("client_secret"), self.client_secret.clone()));
        r.push((String::from_str("grant_type"), self.grant_type.clone()));
        assert(r@.map_values(|f: (String, String)| (f.0@, f.1@)) =~= self.form_spec());
        r
    }
}

} // verus!
