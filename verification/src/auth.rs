//! The token lifecycle: an access token with its expiry, the cached-token
//! decision (reuse or refresh), and what an identity-endpoint response
//! means.  The lock and the POST around these live outside; every decision
//! about tokens stands here.

use vstd::prelude::*;
use vstd::string::StringExecFns;

verus! {

/// The safety margin: a token within this many seconds of its stated expiry
/// is not used, so it cannot expire mid-request.
pub const TOKEN_SAFETY_MARGIN_SECS: i64 = 60;

/// The mathematical shape of a token.
pub ghost struct TokenView {
    pub access_token: Seq<char>,
    pub token_type: Seq<char>,
    pub expires_at: int,
}

/// A bearer credential and the instant it expires; replaced, never mutated,
/// on refresh.
#[derive(Debug, Clone)]
pub struct AuthToken {
    pub access_token: String,
    pub token_type: String,
    pub expires_at: i64,
}

impl View for AuthToken {
    type V = TokenView;

    open spec fn view(&self) -> TokenView {
        TokenView {
            access_token: self.access_token@,
            token_type: self.token_type@,
            expires_at: self.expires_at as int,
        }
    }
}

/// `a + b` held within the representable instants.
pub open spec fn sat_add(a: int, b: int) -> int {
    if a + b > i64::MAX { i64::MAX as int }
    else if a + b < i64::MIN { i64::MIN as int }
    else { a + b }
}

impl TokenView {
    /// A token is valid at `now` until its expiry minus the safety margin.
    pub open spec fn valid_at(self, now: int) -> bool {
        now + TOKEN_SAFETY_MARGIN_SECS < self.expires_at
    }
}

impl AuthToken {
    /// Builds the token a successful identity exchange yields: it expires
    /// `expires_in` seconds from now.
    pub fn new(access_token: String, token_type: String, expires_in: i64, now: i64) -> (r: Self)
        ensures
            r@.access_token == access_token@,
            r@.token_type == token_type@,
            r@.expires_at == sat_add(now as int, expires_in as int),
    {
        let expires_at: i64 = if expires_in >= 0 {
            if now > i64::MAX - expires_in { i64::MAX } else { now + expires_in }
        } else {
            if now < i64::MIN - expires_in { i64::MIN } else { now + expires_in }
        };
        AuthToken { access_token, token_type, expires_at }
    }

    /// Whether the token must not be used at `now`: expired, or within the
    /// safety margin of its expiry.
    pub fn is_expired(&self, now: i64) -> (r: bool)
        requires now + TOKEN_SAFETY_MARGIN_SECS <= i64::MAX,
        ensures r == !self@.valid_at(now as int),
    {
        now + TOKEN_SAFETY_MARGIN_SECS >= self.expires_at
    }

    /// The value of the authorization header: the scheme, a space, the
    /// credential.
    pub fn header_value(&self) -> (r: String)
        ensures r@ == self@.token_type + " "@ + self@.access_token,
    {
        let mut s = self.token_type.clone();
        s.append(" ");
        s.append(self.access_token.as_str());
        s
    }
}

/// Whether a cached token must be refreshed at `now`: there is none, or the
/// held one is no longer valid.
pub open spec fn needs_refresh(cached: Option<TokenView>, now: int) -> bool {
    match cached {
        None => true,
        Some(t) => !t.valid_at(now),
    }
}

/// What one call to the token cache yields.
#[derive(Debug, Clone)]
pub enum TokenQuery {
    /// The held token is valid: its authorization header value.
    Valid(String),
    /// No valid token is held: the caller must fetch one and install it.
    NeedsRefresh,
}

/// The owned token cache.  Callers serialize on a lock held outside; each
/// checks, and only one that finds no valid token fetches and installs.
pub struct TokenCache {
    current: Option<AuthToken>,
}

impl View for TokenCache {
    type V = Option<TokenView>;

    closed spec fn view(&self) -> Option<TokenView> {
        match self.current {
            None => None,
            Some(ref t) => Some(t@),
        }
    }
}

impl TokenCache {
    /// An empty cache: the first call refreshes.
    pub fn new() -> (r: Self)
        ensures r@ is None,
    {
        TokenCache { current: None }
    }

    /// Checks the held token: its header value while it is valid, else the
    /// instruction to refresh — and nothing else, so a refresh happens
    /// exactly when no valid token is held.
    pub fn check(&self, now: i64) -> (r: TokenQuery)
        requires now + TOKEN_SAFETY_MARGIN_SECS <= i64::MAX,
        ensures
            match r {
                TokenQuery::Valid(h) => {
                    &&& !needs_refresh(self@, now as int)
                    &&& (self@ matches Some(t) && h@ == t.token_type + " "@ + t.access_token)
                },
                TokenQuery::NeedsRefresh => needs_refresh(self@, now as int),
            },
    {
        match &self.current {
            Some(t) => {
                if t.is_expired(now) {
                    TokenQuery::NeedsRefresh
                } else {
                    TokenQuery::Valid(t.header_value())
                }
            },
            None => TokenQuery::NeedsRefresh,
        }
    }

    /// Installs a freshly fetched token, replacing any held one.
    pub fn install(&mut self, token: AuthToken)
        ensures final(self)@ == Some(token@),
    {
        self.current = Some(token);
    }
}

/// A terminal failure of the identity exchange; none is retried here.
#[derive(Debug, Clone)]
pub enum AuthError {
    /// The endpoint rejected the credentials.
    InvalidCredentials,
    /// The endpoint answered with its own error and description.
    IdentityRejected { error: String, description: String },
    /// The response body is neither an error nor a token.
    Protocol,
}

/// The error and description an identity-error body parses to, where it is
/// one.
pub uninterp spec fn identity_error_of(body: Seq<char>) -> Option<(Seq<char>, Seq<char>)>;

/// Relies on serde_json::from_str: the body must be a JSON object holding
/// the strings `error` and `error_description`; a pure function of the body.
#[verifier::external_body]
fn parse_identity_error(body: &str) -> (r: Option<(String, String)>)
    ensures
        match r {
            Some(p) => identity_error_of(body@) == Some((p.0@, p.1@)),
            None => identity_error_of(body@) is None,
        },
{
    let v: serde_json::Value = serde_json::from_str(body).ok()?;
    let error = v.get("error")?.as_str()?.to_string();
    let description = v.get("error_description")?.as_str()?.to_string();
    Some((error, description))
}

/// The access token, token type and lifetime a token body parses to, where
/// it is one.
pub uninterp spec fn token_fields_of(body: Seq<char>) -> Option<(Seq<char>, Seq<char>, int)>;

/// Relies on serde_json::from_str: the body must be a JSON object holding
/// the strings `access_token` and `token_type` and the integer `expires_in`;
/// a pure function of the body.
#[verifier::external_body]
fn parse_token_fields(body: &str) -> (r: Option<(String, String, i64)>)
    ensures
        match r {
            Some(p) => token_fields_of(body@) == Some((p.0@, p.1@, p.2 as int)),
            None => token_fields_of(body@) is None,
        },
{
    let v: serde_json::Value = serde_json::from_str(body).ok()?;
    let access_token = v.get("access_token")?.as_str()?.to_string();
    let token_type = v.get("token_type")?.as_str()?.to_string();
    let expires_in = v.get("expires_in")?.as_i64()?;
    Some((access_token, token_type, expires_in))
}

/// Decides what one identity-endpoint response means.
///
/// An unauthorized status is invalid credentials; a body carrying the
/// endpoint's error shape is its rejection; a body carrying the token shape
/// is a token expiring `expires_in` seconds from now; anything else is a
/// protocol failure.  None of these is retried here — callers decide.
pub fn interpret_token_response(status: u16, body: &str, now: i64) -> (r: Result<AuthToken, AuthError>)
    ensures
        status == 401 ==> (r matches Err(AuthError::InvalidCredentials)),
        status != 401 ==> match identity_error_of(body@) {
            Some(p) => (r matches Err(AuthError::IdentityRejected { error, description })
                && error@ == p.0 && description@ == p.1),
            None => match token_fields_of(body@) {
                Some(f) => (r matches Ok(t) && t@.access_token == f.0 && t@.token_type == f.1
                    && t@.expires_at == sat_add(now as int, f.2)),
                None => (r matches Err(AuthError::Protocol)),
            },
        },
{
    if status == 401 {
        return Err(AuthError::InvalidCredentials);
    }
    if let Some((error, description)) = parse_identity_error(body) {
        return Err(AuthError::IdentityRejected { error, description });
    }
    match parse_token_fields(body) {
        Some((access_token, token_type, expires_in)) => {
            Ok(AuthToken::new(access_token, token_type, expires_in, now))
        },
        None => Err(AuthError::Protocol),
    }
}

/// Token validity drives exactly one refresh: a caller that finds the cache
/// stale (no token, an expired one, or one within the safety margin) is told
/// to refresh, and once any caller installs a token valid at that instant,
/// every later check at that instant reuses it instead of refreshing again.
pub proof fn lemma_single_refresh(cached: Option<TokenView>, fresh: TokenView, now: int)
    requires fresh.valid_at(now),
    ensures
        !needs_refresh(Some(fresh), now),
        cached matches Some(t) && t.expires_at <= now + TOKEN_SAFETY_MARGIN_SECS ==>
            needs_refresh(cached, now),
        cached is None ==> needs_refresh(cached, now),
{
}

} // verus!
