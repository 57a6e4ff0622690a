//! Bearer-token authentication of MCP requests.
//!
//! The API key comes from the environment variable that
//! `server.access.api-key-env` names; the program reads that variable and hands
//! its value here. A request is let through when its `Authorization` header
//! carries the `Bearer` scheme and exactly that key.

use vstd::prelude::*;
use crate::config::AccessConfig;
use crate::text::{
    ascii_lower_seq, chars_of, find_char, first_index, lower_ascii_chars, chars_equal,
    slice_range, string_from_chars, string_from_str, push_str, trim_seq, trimmed_chars,
};
use vstd::utf8::encode_utf8_decode_utf8;

verus! {

/// Why the API key could not be set up.
#[derive(Debug, Clone, PartialEq, Eq)]
pub enum TransportAuthError {
    /// The configured variable is not set; holds its name.
    MissingApiKeyEnv(String),
    /// The configured variable is set to blank text; holds its name.
    EmptyApiKeyEnv(String),
}

impl TransportAuthError {
    /// The error's message.
    pub fn message(&self) -> (m: String)
        ensures
            m@ == auth_error_text(self.view_error()),
    {
        let mut m = string_from_str("server.access.api-key-env '");
        match self {
            TransportAuthError::MissingApiKeyEnv(name) => {
                push_str(&mut m, name.as_str());
                push_str(&mut m, "' is set but the environment variable is missing");
            },
            TransportAuthError::EmptyApiKeyEnv(name) => {
                push_str(&mut m, name.as_str());
                push_str(&mut m, "' resolved to an empty value");
            },
        }
        m
    }
}

/// The key requests must present.
#[derive(Debug, Clone)]
pub struct RequestAuth {
    pub api_key: Vec<u8>,
}

/// Whether requests must authenticate, and with which key.
#[derive(Debug, Clone)]
pub struct RequestAuthState {
    pub auth: Option<RequestAuth>,
}

/// The authentication settings in force; the server swaps them on a
/// configuration reload.
#[derive(Debug, Clone)]
pub struct RequestAuthController {
    state: RequestAuthState,
}

/// The key the state asks for, if any.
pub open spec fn required_key(state: RequestAuthState) -> Option<Seq<u8>> {
    match state.auth {
        Some(a) => Some(a.api_key@),
        None => None,
    }
}

/// The bytes of a text in UTF-8.
pub open spec fn utf8(s: Seq<char>) -> Seq<u8> {
    vstd::utf8::encode_utf8(s)
}

/// An authentication error with its variable name taken by view.
pub enum AuthErrorView {
    MissingApiKeyEnv(Seq<char>),
    EmptyApiKeyEnv(Seq<char>),
}

impl TransportAuthError {
    /// The error with its variable name taken by view.
    pub open spec fn view_error(&self) -> AuthErrorView {
        match self {
            TransportAuthError::MissingApiKeyEnv(n) => AuthErrorView::MissingApiKeyEnv(n@),
            TransportAuthError::EmptyApiKeyEnv(n) => AuthErrorView::EmptyApiKeyEnv(n@),
        }
    }
}

/// The message of an authentication error.
pub open spec fn auth_error_text(e: AuthErrorView) -> Seq<char> {
    match e {
        AuthErrorView::MissingApiKeyEnv(name) => "server.access.api-key-env '"@ + name
            + "' is set but the environment variable is missing"@,
        AuthErrorView::EmptyApiKeyEnv(name) => "server.access.api-key-env '"@ + name
            + "' resolved to an empty value"@,
    }
}

/// What the access settings and the variable's value give: no key when no
/// variable is configured, an error when it is missing or blank, else its bytes.
pub open spec fn request_auth_spec(
    env_name: Option<Seq<char>>,
    env_value: Option<Seq<char>>,
) -> Result<Option<Seq<u8>>, AuthErrorView> {
    match env_name {
        None => Ok(None),
        Some(name) => match env_value {
            None => Err(AuthErrorView::MissingApiKeyEnv(name)),
            Some(v) => if trim_seq(v).len() == 0 {
                Err(AuthErrorView::EmptyApiKeyEnv(name))
            } else {
                Ok(Some(utf8(v)))
            },
        },
    }
}

/// The view of an optional owned string.
pub open spec fn opt_string_view(o: Option<String>) -> Option<Seq<char>> {
    match o {
        Some(s) => Some(s@),
        None => None,
    }
}

/// The view of an optional string slice.
pub open spec fn opt_text_view(o: Option<&str>) -> Option<Seq<char>> {
    match o {
        Some(s) => Some(s@),
        None => None,
    }
}

/// The view of a state result.
pub open spec fn auth_result_view(r: Result<RequestAuthState, TransportAuthError>) -> Result<
    Option<Seq<u8>>,
    AuthErrorView,
> {
    match r {
        Ok(state) => Ok(required_key(state)),
        Err(e) => Err(e.view_error()),
    }
}

/// Whether a state result agrees with `request_auth_spec`.
pub open spec fn auth_result_matches(
    r: Result<RequestAuthState, TransportAuthError>,
    access: AccessConfig,
    env_value: Option<&str>,
) -> bool {
    auth_result_view(r) == request_auth_spec(
        opt_string_view(access.api_key_env),
        opt_text_view(env_value),
    )
}

/// Builds the authentication state from the access settings and the value of
/// the variable they name (`None` when that variable is not set).
pub fn resolve_request_auth(access: &AccessConfig, env_value: Option<&str>) -> (r: Result<
    RequestAuthState,
    TransportAuthError,
>)
    ensures
        auth_result_matches(r, *access, env_value),
{
    let env_name = match &access.api_key_env {
        None => {
            return Ok(RequestAuthState { auth: None });
        },
        Some(name) => name,
    };
    let value = match env_value {
        None => {
            return Err(TransportAuthError::MissingApiKeyEnv(string_from_str(env_name.as_str())));
        },
        Some(v) => v,
    };
    if crate::text::is_blank(value) {
        return Err(TransportAuthError::EmptyApiKeyEnv(string_from_str(env_name.as_str())));
    }
    let bytes = value.as_bytes();
    let mut key: Vec<u8> = Vec::new();
    let mut i: usize = 0;
    while i < bytes.len()
        invariant
            i <= bytes@.len(),
            key@ == bytes@.take(i as int),
        decreases bytes@.len() - i,
    {
        key.push(bytes[i]);
        assert(bytes@.take(i + 1) =~= bytes@.take(i as int).push(bytes@[i as int]));
        i += 1;
    }
    assert(bytes@.take(i as int) =~= bytes@);
    Ok(RequestAuthState { auth: Some(RequestAuth { api_key: key }) })
}

impl RequestAuthController {
    /// The controller's current settings.
    pub closed spec fn state_view(&self) -> RequestAuthState {
        self.state
    }

    /// A controller for the access settings; `env_value` is the value of the
    /// variable that `access.api_key_env` names, `None` when it is not set.
    pub fn new(access: &AccessConfig, env_value: Option<&str>) -> (r: Result<Self, TransportAuthError>)
        ensures
            match r {
                Ok(c) => Ok(required_key(c.state_view())),
                Err(e) => Err(e.view_error()),
            } == request_auth_spec(opt_string_view(access.api_key_env), opt_text_view(env_value)),
    {
        match Self::prepare(access, env_value) {
            Ok(state) => Ok(RequestAuthController { state }),
            Err(e) => Err(e),
        }
    }

    /// The settings a controller would take for these access settings.
    pub fn prepare(access: &AccessConfig, env_value: Option<&str>) -> (r: Result<
        RequestAuthState,
        TransportAuthError,
    >)
        ensures
            auth_result_matches(r, *access, env_value),
    {
        resolve_request_auth(access, env_value)
    }

    /// Replaces the settings in force.
    pub fn apply(&mut self, state: RequestAuthState)
        ensures
            final(self).state_view() == state,
    {
        self.state = state;
    }

    /// Whether requests must present a key.
    pub fn is_configured(&self) -> (b: bool)
        ensures
            b == (self.state_view().auth is Some),
    {
        self.state.auth.is_some()
    }

    /// Checks a request's `Authorization` header against the settings in force;
    /// every request passes when no key is configured.
    pub fn authorize(&self, header: &AuthorizationHeader) -> (outcome: AuthOutcome)
        ensures
            outcome == match required_key(self.state_view()) {
                None => AuthOutcome { is_authorized: true, reason: AuthReason::NotRequired },
                Some(key) => authenticate_spec(header.view_header(), key),
            },
    {
        match &self.state.auth {
            None => AuthOutcome { is_authorized: true, reason: AuthReason::NotRequired },
            Some(auth) => authenticate_request(header, auth),
        }
    }
}

/// The `Authorization` header of a request, as far as the check reads it.
#[derive(Debug, Clone)]
pub enum AuthorizationHeader {
    /// The request has no such header.
    Missing,
    /// The header's value is not visible ASCII text.
    NotText,
    /// The header's value.
    Text(String),
}

/// The header with its text taken by view.
pub enum HeaderView {
    Missing,
    NotText,
    Text(Seq<char>),
}

impl AuthorizationHeader {
    /// The header with its text taken by view.
    pub open spec fn view_header(&self) -> HeaderView {
        match self {
            AuthorizationHeader::Missing => HeaderView::Missing,
            AuthorizationHeader::NotText => HeaderView::NotText,
            AuthorizationHeader::Text(t) => HeaderView::Text(t@),
        }
    }
}

/// Why a request was let through or turned away.
#[derive(Debug, Clone, Copy, PartialEq, Eq, Structural)]
pub enum AuthReason {
    NotRequired,
    MissingHeader,
    InvalidHeaderEncoding,
    InvalidHeaderFormat,
    InvalidScheme,
    InvalidApiKey,
}

impl AuthReason {
    /// The reason as it is logged.
    pub fn as_str(&self) -> (s: &'static str)
        ensures
            s@ == match self {
                AuthReason::NotRequired => "not_required"@,
                AuthReason::MissingHeader => "missing_header"@,
                AuthReason::InvalidHeaderEncoding => "invalid_header_encoding"@,
                AuthReason::InvalidHeaderFormat => "invalid_header_format"@,
                AuthReason::InvalidScheme => "invalid_scheme"@,
                AuthReason::InvalidApiKey => "invalid_api_key"@,
            },
    {
        match self {
            AuthReason::NotRequired => "not_required",
            AuthReason::MissingHeader => "missing_header",
            AuthReason::InvalidHeaderEncoding => "invalid_header_encoding",
            AuthReason::InvalidHeaderFormat => "invalid_header_format",
            AuthReason::InvalidScheme => "invalid_scheme",
            AuthReason::InvalidApiKey => "invalid_api_key",
        }
    }
}

/// The verdict on one request.
#[derive(Debug, Clone, Copy, PartialEq, Eq, Structural)]
pub struct AuthOutcome {
    pub is_authorized: bool,
    pub reason: AuthReason,
}

/// A header value split at its first space into a non-empty scheme and a
/// non-empty trimmed token.
pub open spec fn split_scheme_spec(v: Seq<char>) -> Option<(Seq<char>, Seq<char>)> {
    match first_index(v, ' ', 0) {
        None => None,
        Some(i) => {
            let scheme = v.subrange(0, i);
            let token = trim_seq(v.subrange(i + 1, v.len() as int));
            if scheme.len() == 0 || token.len() == 0 {
                None
            } else {
                Some((scheme, token))
            }
        },
    }
}

/// ASCII case-insensitive equality.
pub open spec fn eq_ignore_ascii_case(a: Seq<char>, b: Seq<char>) -> bool {
    ascii_lower_seq(a) == ascii_lower_seq(b)
}

/// The verdict on a request whose header is `header`, when `key` is required.
pub open spec fn authenticate_spec(header: HeaderView, key: Seq<u8>) -> AuthOutcome {
    match header {
        HeaderView::Missing => AuthOutcome { is_authorized: false, reason: AuthReason::MissingHeader },
        HeaderView::NotText => AuthOutcome {
            is_authorized: false,
            reason: AuthReason::InvalidHeaderEncoding,
        },
        HeaderView::Text(v) => match split_scheme_spec(v) {
            None => AuthOutcome { is_authorized: false, reason: AuthReason::InvalidHeaderFormat },
            Some((scheme, token)) => if !eq_ignore_ascii_case(scheme, "Bearer"@) {
                AuthOutcome { is_authorized: false, reason: AuthReason::InvalidScheme }
            } else {
                AuthOutcome { is_authorized: key == utf8(token), reason: AuthReason::InvalidApiKey }
            },
        },
    }
}

/// Splits `Scheme token` at its first space; `None` when either part is empty.
pub fn split_scheme_and_token(value: &str) -> (r: Option<(String, String)>)
    ensures
        match (r, split_scheme_spec(value@)) {
            (Some((a, b)), Some((sa, sb))) => a@ == sa && b@ == sb,
            (None, None) => true,
            _ => false,
        },
{
    let v = chars_of(value);
    let i = match find_char(v.as_slice(), ' ') {
        None => {
            return None;
        },
        Some(i) => i,
    };
    assert(i < v@.len());
    assert(first_index(value@, ' ', 0) == Some(i as int));
    let scheme = slice_range(v.as_slice(), 0, i);
    let rest = string_from_chars(slice_range(v.as_slice(), i + 1, v.len()).as_slice());
    let token = trimmed_chars(rest.as_str());
    if scheme.len() == 0 || token.len() == 0 {
        return None;
    }
    Some((string_from_chars(scheme.as_slice()), string_from_chars(token.as_slice())))
}

/// Compares two byte strings, reading every byte of the longer one whatever
/// the outcome.
pub fn constant_time_equals(expected: &[u8], actual: &[u8]) -> (r: bool)
    ensures
        r == (expected@ == actual@),
{
    let el = expected.len();
    let al = actual.len();
    let mut difference: usize = el ^ al;
    proof {
        assert((el ^ al) == 0usize <==> el == al) by (bit_vector);
    }
    let max_len = if el > al {
        el
    } else {
        al
    };
    let mut index: usize = 0;
    while index < max_len
        invariant
            el == expected@.len(),
            al == actual@.len(),
            max_len == if el > al {
                el
            } else {
                al
            },
            index <= max_len,
            (difference == 0) <==> (el == al && forall|k: int|
                0 <= k < index ==> expected@[k] == actual@[k]),
        decreases max_len - index,
    {
        let left: u8 = if index < el {
            expected[index]
        } else {
            0
        };
        let right: u8 = if index < al {
            actual[index]
        } else {
            0
        };
        let x: u8 = left ^ right;
        let wide: usize = x as usize;
        proof {
            assert((left ^ right) == 0u8 <==> left == right) by (bit_vector);
            assert(((x as usize) == 0usize) <==> (x == 0u8));
        }
        let d = difference | wide;
        proof {
            assert((difference | wide) == 0usize <==> (difference == 0usize && wide == 0usize))
                by (bit_vector);
        }
        difference = d;
        index += 1;
    }
    proof {
        if difference == 0 {
            assert(expected@ =~= actual@);
        }
    }
    difference == 0
}

/// The verdict on a request, given the key that is required.
pub fn authenticate_request(header: &AuthorizationHeader, auth: &RequestAuth) -> (outcome: AuthOutcome)
    ensures
        outcome == authenticate_spec(header.view_header(), auth.api_key@),
{
    let value = match header {
        AuthorizationHeader::Missing => {
            return AuthOutcome { is_authorized: false, reason: AuthReason::MissingHeader };
        },
        AuthorizationHeader::NotText => {
            return AuthOutcome { is_authorized: false, reason: AuthReason::InvalidHeaderEncoding };
        },
        AuthorizationHeader::Text(v) => v,
    };
    let (scheme, token) = match split_scheme_and_token(value.as_str()) {
        None => {
            return AuthOutcome { is_authorized: false, reason: AuthReason::InvalidHeaderFormat };
        },
        Some(parts) => parts,
    };
    let scheme_chars = chars_of(scheme.as_str());
    let lowered = lower_ascii_chars(scheme_chars.as_slice());
    let expected = chars_of("Bearer");
    let expected_lower = lower_ascii_chars(expected.as_slice());
    if !chars_equal(lowered.as_slice(), expected_lower.as_slice()) {
        return AuthOutcome { is_authorized: false, reason: AuthReason::InvalidScheme };
    }
    let ok = constant_time_equals(auth.api_key.as_slice(), token.as_str().as_bytes());
    AuthOutcome { is_authorized: ok, reason: AuthReason::InvalidApiKey }
}

} // verus!
