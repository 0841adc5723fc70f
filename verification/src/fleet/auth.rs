//! Enrolling a node: its owner approves a code on another device, and the node gets a token.

use vstd::prelude::*;
use crate::json::Json;
use crate::json::JsonView;
use crate::text;

verus! {

/// Why a node could not be enrolled.
pub enum AuthError {
    Network(String),
    ExpiredToken,
    AccessDenied,
    Io(String),
    Server(String),
}

/// What such a failure is.
#[verifier::ext_equal]
pub enum AuthErrorView {
    Network(Seq<char>),
    ExpiredToken,
    AccessDenied,
    Io(Seq<char>),
    Server(Seq<char>),
}

impl View for AuthError {
    type V = AuthErrorView;

    open spec fn view(&self) -> AuthErrorView {
        match self {
            AuthError::Network(t) => AuthErrorView::Network(t@),
            AuthError::ExpiredToken => AuthErrorView::ExpiredToken,
            AuthError::AccessDenied => AuthErrorView::AccessDenied,
            AuthError::Io(t) => AuthErrorView::Io(t@),
            AuthError::Server(t) => AuthErrorView::Server(t@),
        }
    }
}

impl AuthErrorView {
    /// The failure in words.
    pub open spec fn message(self) -> Seq<char> {
        match self {
            AuthErrorView::Network(t) => "network error: "@ + t,
            AuthErrorView::ExpiredToken => "device code expired before approval"@,
            AuthErrorView::AccessDenied => "access denied by user"@,
            AuthErrorView::Io(t) => "io: "@ + t,
            AuthErrorView::Server(t) => "auth server error: "@ + t,
        }
    }
}

impl AuthError {
    /// The failure in words.
    pub fn message(&self) -> (words: String)
        ensures
            words@ == self@.message(),
    {
        match self {
            AuthError::Network(t) => "network error: ".to_string().concat(t.as_str()),
            AuthError::ExpiredToken => "device code expired before approval".to_string(),
            AuthError::AccessDenied => "access denied by user".to_string(),
            AuthError::Io(t) => "io: ".to_string().concat(t.as_str()),
            AuthError::Server(t) => "auth server error: ".to_string().concat(t.as_str()),
        }
    }
}

/// The code that the owner approves.
pub struct DeviceCode {
    pub device_code: String,
    pub user_code: String,
    pub verification_uri: String,
    pub expires_in: u64,
    pub interval: u64,
}

/// What asking for approval gave.
pub enum PollOutcome {
    /// It is not given yet.
    Pending,
    Authorized { access_token: String },
}

/// What an outcome is.
#[verifier::ext_equal]
pub enum PollView {
    Pending,
    Authorized { access_token: Seq<char> },
}

impl View for PollOutcome {
    type V = PollView;

    open spec fn view(&self) -> PollView {
        match self {
            PollOutcome::Pending => PollView::Pending,
            PollOutcome::Authorized { access_token } => PollView::Authorized {
                access_token: access_token@,
            },
        }
    }
}

/// What the server's answer means: a token, or why there is none. An answer with neither is
/// unreadable.
pub open spec fn poll_view(answer: JsonView) -> Result<PollView, AuthErrorView> {
    match (answer.text_field("access_token"@), answer.text_field("error"@)) {
        (Some(access_token), error) => Ok(PollView::Authorized { access_token }),
        (None, Some(error)) => if error == "authorization_pending"@ || error == "slow_down"@ {
            Ok(PollView::Pending)
        } else if error == "access_denied"@ {
            Err(AuthErrorView::AccessDenied)
        } else if error == "expired_token"@ {
            Err(AuthErrorView::ExpiredToken)
        } else {
            Err(AuthErrorView::Server(error))
        },
        (None, None) => Err(AuthErrorView::Network("error decoding response body"@)),
    }
}

/// What the server's answer means.
pub fn poll_answer(answer: &Json) -> (outcome: Result<PollOutcome, AuthError>)
    ensures
        (match outcome {
            Ok(o) => Ok(o@),
            Err(e) => Err(e@),
        }) == poll_view(answer@),
{
    if let Some(access_token) = answer.get_text("access_token") {
        return Ok(PollOutcome::Authorized { access_token });
    }
    match answer.get_text("error") {
        None => Err(AuthError::Network("error decoding response body".to_string())),
        Some(error) => {
            if text::same_text(error.as_str(), "authorization_pending") || text::same_text(
                error.as_str(),
                "slow_down",
            ) {
                Ok(PollOutcome::Pending)
            } else if text::same_text(error.as_str(), "access_denied") {
                Err(AuthError::AccessDenied)
            } else if text::same_text(error.as_str(), "expired_token") {
                Err(AuthError::ExpiredToken)
            } else {
                Err(AuthError::Server(error))
            }
        },
    }
}

/// Asks the server for approval.
pub struct DeviceFlow {
    pub auth_url: String,
}

impl DeviceFlow {
    /// Asks the server at this address.
    pub fn new(auth_url: &str) -> (flow: Self)
        ensures
            flow.auth_url@ == auth_url@,
    {
        DeviceFlow { auth_url: auth_url.to_string() }
    }

    /// Where a code is asked for.
    pub fn start_url(&self) -> (url: String)
        ensures
            url@ == self.auth_url@ + "/api/device/authorize"@,
    {
        self.auth_url.clone().concat("/api/device/authorize")
    }

    /// Where approval is asked for.
    pub fn token_url(&self) -> (url: String)
        ensures
            url@ == self.auth_url@ + "/api/device/token"@,
    {
        self.auth_url.clone().concat("/api/device/token")
    }

    /// What is sent to ask for a code: the name of the node, where it has one.
    pub fn start_body(node_label: Option<&str>) -> (body: Json)
        ensures
            body@ == JsonView::Object(
                match node_label {
                    Some(label) => Map::empty().insert("node_label"@, JsonView::Text(label@)),
                    None => Map::empty(),
                },
            ),
    {
        match node_label {
            Some(label) => Json::object().with("node_label", Json::of_text(label)),
            None => Json::object(),
        }
    }

    /// What is sent to ask for approval.
    pub fn token_body(device_code: &str) -> (body: Json)
        ensures
            body@ == JsonView::Object(
                Map::empty().insert("device_code"@, JsonView::Text(device_code@)),
            ),
    {
        Json::object().with("device_code", Json::of_text(device_code))
    }

    /// How many seconds to wait between two questions: one at least.
    pub fn interval(code: &DeviceCode) -> (seconds: u64)
        ensures
            seconds == (if code.interval > 1 {
                code.interval
            } else {
                1
            }),
    {
        if code.interval > 1 {
            code.interval
        } else {
            1
        }
    }
}

/// Keeps the token of a node in a file.
pub struct TokenStore {
    pub path: String,
}

/// The token in what the file holds: what stands between white space, if anything does.
pub open spec fn token_of(raw: Seq<char>) -> Option<Seq<char>> {
    if text::trimmed(raw).len() == 0 {
        None
    } else {
        Some(text::trimmed(raw))
    }
}

impl TokenStore {
    /// Keeps the token in this file.
    pub fn new(path: &str) -> (store: Self)
        ensures
            store.path@ == path@,
    {
        TokenStore { path: path.to_string() }
    }

    /// The token in what the file holds, if it could be read.
    pub fn token_in(raw: Option<&str>) -> (token: Option<String>)
        ensures
            text::opt_view(token) == (match raw {
                Some(r) => token_of(r@),
                None => None,
            }),
    {
        match raw {
            None => None,
            Some(r) => {
                let token = text::trim(r);
                if token.as_str().is_empty() {
                    None
                } else {
                    Some(token)
                }
            },
        }
    }
}

/// A token without white space around it that was kept is found again.
pub proof fn lemma_token_is_found(token: Seq<char>)
    requires
        token.len() > 0,
        !text::white(token[0]),
        !text::white(token.last()),
    ensures
        token_of(token) == Some(token),
{
}

} // verus!
