//! Stateless tokens: the signed payload, its role-tagged credential views,
//! and the session that validates and rotates a credential pair.

use crate::encrypt::cipher_plain_of;
use crate::encrypt::Aes;
use crate::encrypt::MAX_PLAINTEXT_LEN;
use crate::error::Error;
use crate::error::ErrorKind;
use crate::wire::emit_token_record;
use crate::wire::lemma_parse_token_plain;
use crate::wire::parse_token_plain;
use crate::wire::parse_token_record;
use crate::wire::token_plain;
use vstd::prelude::*;

verus! {

/// How long a refresh credential lives: 90 days of seconds.
pub const REFRESH_LIFETIME_SECONDS: i64 = 90 * 86400;

/// How old an access credential may grow before the pair is rotated: 15
/// minutes of seconds.
pub const ACCESS_ROTATION_SECONDS: i64 = 15 * 60;

/// A struct that contains configuration for tokens: the shared secret
/// passphrase and the cookie-security flag. It starts unset; every credential
/// operation fails with `NotConfigured` until it is set.
pub struct TokenConfig {
    key: Option<String>,
    secure_cookie: bool,
}

impl TokenConfig {
    /// Whether the configuration has been set.
    pub closed spec fn is_configured(&self) -> bool {
        self.key is Some
    }

    /// The configured passphrase.
    pub closed spec fn spec_key(&self) -> Seq<char>
        recommends
            self.is_configured(),
    {
        self.key.unwrap()@
    }

    /// The configured cookie-security flag.
    pub closed spec fn spec_secure(&self) -> bool {
        self.secure_cookie
    }

    /// Create new configuration from a passphrase and the cookie-security flag
    pub fn new(key: &str, secure_cookie: bool) -> (r: Self)
        requires
            key@.len() > 0,
        ensures
            r.is_configured(),
            r.spec_key() == key@,
            r.spec_secure() == secure_cookie,
    {
        TokenConfig { key: Some(key.to_owned()), secure_cookie }
    }

    /// The unset configuration, as at process start.
    pub fn unset() -> (r: Self)
        ensures
            !r.is_configured(),
    {
        TokenConfig { key: None, secure_cookie: false }
    }

    /// Override configuration by given configuration
    pub fn set(&mut self, config: Self)
        ensures
            *final(self) == config,
    {
        *self = config;
    }
}

/// Relies on `rand::random`: a fresh sample of a uniformly random 64-bit
/// integer; nothing is promised of the value.
#[verifier::external_body]
fn random_i64() -> i64 {
    rand::random()
}

/// Relies on `chrono::Utc::now`: the current instant's Unix seconds; nothing
/// is promised of the value.
#[verifier::external_body]
fn now_timestamp() -> i64 {
    chrono::Utc::now().timestamp()
}

/// What decoding an envelope under a passphrase yields: the token fields, or
/// the failure class — the cipher's classes unchanged, or `EncodingError`
/// where the decrypted bytes are not a token record in an accepted JSON
/// spelling.
pub open spec fn token_decode_spec(key: Seq<char>, envelope: Seq<char>) -> Result<
    (Seq<char>, int, int),
    ErrorKind,
> {
    match cipher_plain_of(key, envelope) {
        Err(k) => Err(k),
        Ok(plain) => match parse_token_plain(plain) {
            None => Err(ErrorKind::EncodingError),
            Some(f) => Ok(f),
        },
    }
}

/// The canonical signed payload: subject identity, issue timestamp, and an
/// anti-collision nonce that carries no meaning and is never checked.
pub struct Token {
    who: String,
    timestamp: i64,
    nonce: i64,
}

impl Token {
    /// The subject this token names.
    pub closed spec fn spec_who(&self) -> Seq<char> {
        self.who@
    }

    /// The instant this token was stamped with, in Unix seconds.
    pub closed spec fn spec_timestamp(&self) -> i64 {
        self.timestamp
    }

    /// The anti-collision nonce this token carries.
    pub closed spec fn spec_nonce(&self) -> i64 {
        self.nonce
    }

    /// Create a token for a subject at an instant, drawing a fresh random
    /// nonce.
    pub fn new(who: &str, timestamp: i64) -> (r: Token)
        ensures
            r.spec_who() == who@,
            r.spec_timestamp() == timestamp,
    {
        Token { who: who.to_owned(), timestamp, nonce: random_i64() }
    }

    /// Decode a token from an envelope: exactly [`token_decode_spec`], after
    /// the configuration check.
    pub fn from(encrypted: &str, config: &TokenConfig) -> (r: Result<Token, Error>)
        ensures
            !config.is_configured() ==> (r matches Err(e) && e.spec_kind()
                == ErrorKind::NotConfigured),
            config.is_configured() ==> match r {
                Ok(t) => token_decode_spec(config.spec_key(), encrypted@) == Ok::<
                    (Seq<char>, int, int),
                    ErrorKind,
                >((t.spec_who(), t.spec_timestamp() as int, t.spec_nonce() as int)),
                Err(e) => token_decode_spec(config.spec_key(), encrypted@) == Err::<
                    (Seq<char>, int, int),
                    ErrorKind,
                >(e.spec_kind()),
            },
    {
        let key = match &config.key {
            None => {
                return Err(Error::from(ErrorKind::NotConfigured));
            },
            Some(k) => k,
        };
        let plain = match Aes::decrypt(encrypted, key.as_str()) {
            Err(e) => {
                return Err(e);
            },
            Ok(p) => p,
        };
        match parse_token_record(&plain) {
            None => Err(Error::from(ErrorKind::EncodingError)),
            Some(f) => Ok(Token { who: f.0, timestamp: f.1, nonce: f.2 }),
        }
    }

    /// Encode this token into an envelope under the configured passphrase;
    /// the envelope decodes back to exactly this token's fields.
    pub fn to_string(&self, config: &TokenConfig) -> (r: Result<String, Error>)
        ensures
            !config.is_configured() ==> (r matches Err(e) && e.spec_kind()
                == ErrorKind::NotConfigured),
            config.is_configured() ==> match r {
                Ok(env) => token_decode_spec(config.spec_key(), env@) == Ok::<
                    (Seq<char>, int, int),
                    ErrorKind,
                >((self.spec_who(), self.spec_timestamp() as int, self.spec_nonce() as int)),
                Err(e) => e.spec_kind() == ErrorKind::EncryptionFailed && token_plain(
                    self.spec_who(),
                    self.spec_timestamp() as int,
                    self.spec_nonce() as int,
                ).len() > MAX_PLAINTEXT_LEN,
            },
    {
        let key = match &config.key {
            None => {
                return Err(Error::from(ErrorKind::NotConfigured));
            },
            Some(k) => k,
        };
        let json = emit_token_record(self.who.as_str(), self.timestamp, self.nonce);
        match Aes::encrypt(&json, key.as_str()) {
            Err(e) => Err(e),
            Ok(env) => {
                proof {
                    lemma_parse_token_plain(
                        self.spec_who(),
                        self.timestamp as int,
                        self.nonce as int,
                    );
                }
                Ok(env)
            },
        }
    }
}

/// A struct that represents a stateless access-token
pub struct AccessToken {
    inner: Token,
}

/// A struct that represents a stateless refresh-token
pub struct RefreshToken {
    inner: Token,
}

impl AccessToken {
    /// The subject this credential names.
    pub closed spec fn spec_who(&self) -> Seq<char> {
        self.inner.spec_who()
    }

    /// The instant this credential was stamped with, in Unix seconds.
    pub closed spec fn spec_timestamp(&self) -> i64 {
        self.inner.spec_timestamp()
    }

    /// The anti-collision nonce this credential carries.
    pub closed spec fn spec_nonce(&self) -> i64 {
        self.inner.spec_nonce()
    }

    /// Create an access credential for a subject at an instant.
    pub fn new(who: &str, timestamp: i64) -> (r: Self)
        ensures
            r.spec_who() == who@,
            r.spec_timestamp() == timestamp,
    {
        AccessToken { inner: Token::new(who, timestamp) }
    }

    /// Decode an access credential from an envelope.
    pub fn from(encrypted: &str, config: &TokenConfig) -> (r: Result<Self, Error>)
        ensures
            !config.is_configured() ==> (r matches Err(e) && e.spec_kind()
                == ErrorKind::NotConfigured),
            config.is_configured() ==> match r {
                Ok(t) => token_decode_spec(config.spec_key(), encrypted@) == Ok::<
                    (Seq<char>, int, int),
                    ErrorKind,
                >((t.spec_who(), t.spec_timestamp() as int, t.spec_nonce() as int)),
                Err(e) => token_decode_spec(config.spec_key(), encrypted@) == Err::<
                    (Seq<char>, int, int),
                    ErrorKind,
                >(e.spec_kind()),
            },
    {
        match Token::from(encrypted, config) {
            Err(e) => Err(e),
            Ok(t) => Ok(AccessToken { inner: t }),
        }
    }

    /// Encode this credential into an envelope.
    pub fn to_string(&self, config: &TokenConfig) -> (r: Result<String, Error>)
        ensures
            !config.is_configured() ==> (r matches Err(e) && e.spec_kind()
                == ErrorKind::NotConfigured),
            config.is_configured() ==> match r {
                Ok(env) => token_decode_spec(config.spec_key(), env@) == Ok::<
                    (Seq<char>, int, int),
                    ErrorKind,
                >((self.spec_who(), self.spec_timestamp() as int, self.spec_nonce() as int)),
                Err(e) => e.spec_kind() == ErrorKind::EncryptionFailed && token_plain(
                    self.spec_who(),
                    self.spec_timestamp() as int,
                    self.spec_nonce() as int,
                ).len() > MAX_PLAINTEXT_LEN,
            },
    {
        self.inner.to_string(config)
    }

    /// Get who has this token
    pub fn who(&self) -> (r: &str)
        ensures
            r@ == self.spec_who(),
    {
        self.inner.who.as_str()
    }

    /// Get timestamp
    pub fn timestamp(&self) -> (r: i64)
        ensures
            r == self.spec_timestamp(),
    {
        self.inner.timestamp
    }
}

impl RefreshToken {
    /// The subject this credential names.
    pub closed spec fn spec_who(&self) -> Seq<char> {
        self.inner.spec_who()
    }

    /// The instant this credential was stamped with, in Unix seconds.
    pub closed spec fn spec_timestamp(&self) -> i64 {
        self.inner.spec_timestamp()
    }

    /// The anti-collision nonce this credential carries.
    pub closed spec fn spec_nonce(&self) -> i64 {
        self.inner.spec_nonce()
    }

    /// Create a refresh credential for a subject at an instant.
    pub fn new(who: &str, timestamp: i64) -> (r: Self)
        ensures
            r.spec_who() == who@,
            r.spec_timestamp() == timestamp,
    {
        RefreshToken { inner: Token::new(who, timestamp) }
    }

    /// Decode a refresh credential from an envelope.
    pub fn from(encrypted: &str, config: &TokenConfig) -> (r: Result<Self, Error>)
        ensures
            !config.is_configured() ==> (r matches Err(e) && e.spec_kind()
                == ErrorKind::NotConfigured),
            config.is_configured() ==> match r {
                Ok(t) => token_decode_spec(config.spec_key(), encrypted@) == Ok::<
                    (Seq<char>, int, int),
                    ErrorKind,
                >((t.spec_who(), t.spec_timestamp() as int, t.spec_nonce() as int)),
                Err(e) => token_decode_spec(config.spec_key(), encrypted@) == Err::<
                    (Seq<char>, int, int),
                    ErrorKind,
                >(e.spec_kind()),
            },
    {
        match Token::from(encrypted, config) {
            Err(e) => Err(e),
            Ok(t) => Ok(RefreshToken { inner: t }),
        }
    }

    /// Encode this credential into an envelope.
    pub fn to_string(&self, config: &TokenConfig) -> (r: Result<String, Error>)
        ensures
            !config.is_configured() ==> (r matches Err(e) && e.spec_kind()
                == ErrorKind::NotConfigured),
            config.is_configured() ==> match r {
                Ok(env) => token_decode_spec(config.spec_key(), env@) == Ok::<
                    (Seq<char>, int, int),
                    ErrorKind,
                >((self.spec_who(), self.spec_timestamp() as int, self.spec_nonce() as int)),
                Err(e) => e.spec_kind() == ErrorKind::EncryptionFailed && token_plain(
                    self.spec_who(),
                    self.spec_timestamp() as int,
                    self.spec_nonce() as int,
                ).len() > MAX_PLAINTEXT_LEN,
            },
    {
        self.inner.to_string(config)
    }

    /// Get who has this token
    pub fn who(&self) -> (r: &str)
        ensures
            r@ == self.spec_who(),
    {
        self.inner.who.as_str()
    }

    /// Get timestamp
    pub fn timestamp(&self) -> (r: i64)
        ensures
            r == self.spec_timestamp(),
    {
        self.inner.timestamp
    }
}

/// The view of an optional transport field.
pub open spec fn opt_view(o: Option<&str>) -> Option<Seq<char>> {
    match o {
        None => None,
        Some(s) => Some(s@),
    }
}

/// The class on which reconstructing a session from transport data is
/// refused, or `None` where the pair is accepted: either field missing —
/// before anything else — then the unset configuration, then a credential
/// that does not decode (access first), different owners, a refresh
/// credential stamped later than its access credential (a replayed stale
/// credential), and a refresh credential older than its lifetime, in exactly
/// that order.
pub open spec fn session_reject(
    configured: bool,
    key: Seq<char>,
    access_env: Option<Seq<char>>,
    refresh_env: Option<Seq<char>>,
    now: i64,
) -> Option<ErrorKind> {
    match (access_env, refresh_env) {
        (None, _) => Some(ErrorKind::MissingCredential),
        (_, None) => Some(ErrorKind::MissingCredential),
        (Some(ae), Some(re)) => {
            if !configured {
                Some(ErrorKind::NotConfigured)
            } else {
                match token_decode_spec(key, ae) {
                    Err(k) => Some(k),
                    Ok(a) => match token_decode_spec(key, re) {
                        Err(k) => Some(k),
                        Ok(r) => {
                            if a.0 != r.0 {
                                Some(ErrorKind::OwnerMismatch)
                            } else if r.1 > a.1 {
                                Some(ErrorKind::RefreshReused)
                            } else if now - r.1 > REFRESH_LIFETIME_SECONDS {
                                Some(ErrorKind::RefreshExpired)
                            } else {
                                None
                            }
                        },
                    },
                }
            }
        },
    }
}

/// The two Set-Cookie header values that carry a session's credentials.
pub struct SessionCookies {
    /// The access credential's Set-Cookie value.
    pub access: String,
    /// The refresh credential's Set-Cookie value.
    pub refresh: String,
}

/// The Set-Cookie header value written for a credential: name, value, the
/// HttpOnly attribute always, the Secure attribute exactly when configured.
pub open spec fn cookie_str(name: Seq<char>, value: Seq<char>, secure: bool) -> Seq<char> {
    name + seq!['='] + value + "; HttpOnly"@ + if secure {
        "; Secure"@
    } else {
        Seq::empty()
    }
}

/// The transport field that carries the access credential.
pub open spec fn access_cookie_name() -> Seq<char> {
    "__HT_ACCESS_TOKEN"@
}

/// The transport field that carries the refresh credential.
pub open spec fn refresh_cookie_name() -> Seq<char> {
    "__HT_REFRESH_TOKEN"@
}

/// Relies on `cookie::CookieBuilder` and `Cookie`'s `Display`: with only
/// HttpOnly and Secure set, the header value is `name=value`, then
/// `; HttpOnly`, then `; Secure` exactly when the secure flag is true.
#[verifier::external_body]
fn cookie_header(name: &str, value: &str, secure: bool) -> (r: String)
    ensures
        r@ == cookie_str(name@, value@, secure),
{
    cookie::CookieBuilder::new(name.to_owned(), value.to_owned())
        .http_only(true)
        .secure(secure)
        .to_string()
}

/// A struct that represents a stateless session: one access credential and
/// one refresh credential, generated and revalidated together.
pub struct Session {
    access_token: AccessToken,
    refresh_token: RefreshToken,
}

impl Session {
    /// The access credential of this session.
    pub closed spec fn spec_access(&self) -> AccessToken {
        self.access_token
    }

    /// The refresh credential of this session.
    pub closed spec fn spec_refresh(&self) -> RefreshToken {
        self.refresh_token
    }

    /// A session pair is well formed: one owner, and the access credential
    /// stamped no earlier than its refresh credential.
    pub open spec fn wf(&self) -> bool {
        &&& self.spec_access().spec_who() == self.spec_refresh().spec_who()
        &&& self.spec_access().spec_timestamp() >= self.spec_refresh().spec_timestamp()
    }

    /// Get the access credential
    pub fn access(&self) -> (r: &AccessToken)
        ensures
            *r == self.spec_access(),
    {
        &self.access_token
    }

    /// Get the refresh credential
    pub fn refresh(&self) -> (r: &RefreshToken)
        ensures
            *r == self.spec_refresh(),
    {
        &self.refresh_token
    }

    /// Create new session with both credentials stamped at the given instant
    pub fn new_at(who: &str, now: i64) -> (r: Session)
        ensures
            r.spec_access().spec_who() == who@,
            r.spec_refresh().spec_who() == who@,
            r.spec_access().spec_timestamp() == now,
            r.spec_refresh().spec_timestamp() == now,
            r.wf(),
    {
        Session {
            access_token: AccessToken::new(who, now),
            refresh_token: RefreshToken::new(who, now),
        }
    }

    /// Create new session stamped at the current instant
    pub fn new(who: &str) -> (r: Session)
        ensures
            r.spec_access().spec_who() == who@,
            r.spec_refresh().spec_who() == who@,
            r.spec_access().spec_timestamp() == r.spec_refresh().spec_timestamp(),
            r.wf(),
    {
        let now = now_timestamp();
        Session::new_at(who, now)
    }

    /// Retrieve session information from the transport's two credential
    /// fields, judged at the given instant. Rejection is exactly
    /// [`session_reject`]; an accepted pair is returned unchanged, unless the
    /// access credential is older than the rotation window, in which case a
    /// fresh pair for the same owner is minted, both stamped at `now`.
    pub fn from_request_at(
        access_env: Option<&str>,
        refresh_env: Option<&str>,
        now: i64,
        config: &TokenConfig,
    ) -> (r: Result<Session, Error>)
        ensures
            match r {
                Err(e) => session_reject(
                    config.is_configured(),
                    config.spec_key(),
                    opt_view(access_env),
                    opt_view(refresh_env),
                    now,
                ) == Some(e.spec_kind()),
                Ok(s) => {
                    &&& session_reject(
                        config.is_configured(),
                        config.spec_key(),
                        opt_view(access_env),
                        opt_view(refresh_env),
                        now,
                    ) is None
                    &&& s.wf()
                    &&& match (opt_view(access_env), opt_view(refresh_env)) {
                        (Some(ae), Some(re)) => match (
                            token_decode_spec(config.spec_key(), ae),
                            token_decode_spec(config.spec_key(), re),
                        ) {
                            (Ok(a), Ok(rr)) => {
                                if now - a.1 > ACCESS_ROTATION_SECONDS {
                                    &&& s.spec_access().spec_who() == a.0
                                    &&& s.spec_refresh().spec_who() == a.0
                                    &&& s.spec_access().spec_timestamp() == now
                                    &&& s.spec_refresh().spec_timestamp() == now
                                } else {
                                    &&& s.spec_access().spec_who() == a.0
                                    &&& s.spec_access().spec_timestamp() as int == a.1
                                    &&& s.spec_access().spec_nonce() as int == a.2
                                    &&& s.spec_refresh().spec_who() == rr.0
                                    &&& s.spec_refresh().spec_timestamp() as int == rr.1
                                    &&& s.spec_refresh().spec_nonce() as int == rr.2
                                }
                            },
                            _ => false,
                        },
                        _ => false,
                    }
                },
            },
    {
        let access_str = match access_env {
            None => {
                return Err(Error::new(ErrorKind::MissingCredential, "Missing access token"));
            },
            Some(s) => s,
        };
        let refresh_str = match refresh_env {
            None => {
                return Err(Error::new(ErrorKind::MissingCredential, "Missing refresh token"));
            },
            Some(s) => s,
        };
        let mut access_token = match AccessToken::from(access_str, config) {
            Err(e) => {
                return Err(e);
            },
            Ok(t) => t,
        };
        let mut refresh_token = match RefreshToken::from(refresh_str, config) {
            Err(e) => {
                return Err(e);
            },
            Ok(t) => t,
        };
        if access_token.inner.who != refresh_token.inner.who {
            return Err(Error::from(ErrorKind::OwnerMismatch));
        }
        if refresh_token.timestamp() > access_token.timestamp() {
            return Err(Error::from(ErrorKind::RefreshReused));
        }
        if (now as i128) - (refresh_token.timestamp() as i128) > (
        REFRESH_LIFETIME_SECONDS as i128) {
            return Err(Error::from(ErrorKind::RefreshExpired));
        }
        if (now as i128) - (access_token.timestamp() as i128) > (ACCESS_ROTATION_SECONDS as i128) {
            let who = access_token.inner.who.clone();
            access_token = AccessToken::new(who.as_str(), now);
            refresh_token = RefreshToken::new(who.as_str(), now);
        }
        Ok(Session { access_token, refresh_token })
    }

    /// Retrieve session information from the transport's two credential
    /// fields, judged at the current instant.
    pub fn from_request(
        access_env: Option<&str>,
        refresh_env: Option<&str>,
        config: &TokenConfig,
    ) -> (r: Result<Session, Error>)
        ensures
            match r {
                Ok(s) => s.wf() && (exists|now: i64|
                    session_reject(
                        config.is_configured(),
                        config.spec_key(),
                        opt_view(access_env),
                        opt_view(refresh_env),
                        now,
                    ) is None),
                Err(e) => exists|now: i64|
                    session_reject(
                        config.is_configured(),
                        config.spec_key(),
                        opt_view(access_env),
                        opt_view(refresh_env),
                        now,
                    ) == Some(e.spec_kind()),
            },
    {
        let now = now_timestamp();
        let r = Session::from_request_at(access_env, refresh_env, now, config);
        proof {
            match &r {
                Ok(s) => {
                    assert(session_reject(
                        config.is_configured(),
                        config.spec_key(),
                        opt_view(access_env),
                        opt_view(refresh_env),
                        now,
                    ) is None);
                },
                Err(e) => {
                    assert(session_reject(
                        config.is_configured(),
                        config.spec_key(),
                        opt_view(access_env),
                        opt_view(refresh_env),
                        now,
                    ) == Some(e.spec_kind()));
                },
            }
        }
        r
    }

    /// Apply session information to the outbound transport: the two
    /// Set-Cookie values, HttpOnly always, Secure as configured, each
    /// carrying an envelope that decodes back to its credential's fields.
    pub fn to_response(&self, config: &TokenConfig) -> (r: Result<SessionCookies, Error>)
        ensures
            !config.is_configured() ==> (r matches Err(e) && e.spec_kind()
                == ErrorKind::NotConfigured),
            config.is_configured() && token_plain(
                self.spec_access().spec_who(),
                self.spec_access().spec_timestamp() as int,
                self.spec_access().spec_nonce() as int,
            ).len() <= MAX_PLAINTEXT_LEN && token_plain(
                self.spec_refresh().spec_who(),
                self.spec_refresh().spec_timestamp() as int,
                self.spec_refresh().spec_nonce() as int,
            ).len() <= MAX_PLAINTEXT_LEN ==> r is Ok,
            match r {
                Ok(c) => config.is_configured() && (exists|ae: Seq<char>, re: Seq<char>|
                    {
                        &&& #[trigger] token_decode_spec(config.spec_key(), ae) == Ok::<
                            (Seq<char>, int, int),
                            ErrorKind,
                        >(
                            (
                                self.spec_access().spec_who(),
                                self.spec_access().spec_timestamp() as int,
                                self.spec_access().spec_nonce() as int,
                            ),
                        )
                        &&& #[trigger] token_decode_spec(config.spec_key(), re) == Ok::<
                            (Seq<char>, int, int),
                            ErrorKind,
                        >(
                            (
                                self.spec_refresh().spec_who(),
                                self.spec_refresh().spec_timestamp() as int,
                                self.spec_refresh().spec_nonce() as int,
                            ),
                        )
                        &&& c.access@ == cookie_str(access_cookie_name(), ae, config.spec_secure())
                        &&& c.refresh@ == cookie_str(
                            refresh_cookie_name(),
                            re,
                            config.spec_secure(),
                        )
                    }),
                Err(e) => if config.is_configured() {
                    e.spec_kind() == ErrorKind::EncryptionFailed
                } else {
                    e.spec_kind() == ErrorKind::NotConfigured
                },
            },
    {
        let secure = match &config.key {
            None => {
                return Err(Error::from(ErrorKind::NotConfigured));
            },
            Some(_) => config.secure_cookie,
        };
        let access_env = match self.access_token.to_string(config) {
            Err(e) => {
                return Err(e);
            },
            Ok(s) => s,
        };
        let refresh_env = match self.refresh_token.to_string(config) {
            Err(e) => {
                return Err(e);
            },
            Ok(s) => s,
        };
        let access = cookie_header("__HT_ACCESS_TOKEN", access_env.as_str(), secure);
        let refresh = cookie_header("__HT_REFRESH_TOKEN", refresh_env.as_str(), secure);
        Ok(SessionCookies { access, refresh })
    }
}

/// Law: an envelope that opens to the canonical record of a token's fields
/// decodes to exactly those fields — the round trip of encoding, stated over
/// the cipher's model. Together with the contract of `Token::to_string`,
/// whose envelope opens to that record, a decoded token repeats the encoded
/// one's subject, timestamp and nonce.
pub proof fn lemma_token_round_trip(
    key: Seq<char>,
    env: Seq<char>,
    who: Seq<char>,
    timestamp: i64,
    nonce: i64,
)
    requires
        cipher_plain_of(key, env) == Ok::<Seq<u8>, ErrorKind>(
            token_plain(who, timestamp as int, nonce as int),
        ),
    ensures
        token_decode_spec(key, env) == Ok::<(Seq<char>, int, int), ErrorKind>(
            (who, timestamp as int, nonce as int),
        ),
{
    lemma_parse_token_plain(who, timestamp as int, nonce as int);
}

/// Law: a decodable pair whose credentials name different subjects is
/// rejected with `OwnerMismatch`, at every instant.
pub proof fn lemma_owner_mismatch(
    key: Seq<char>,
    ae: Seq<char>,
    re: Seq<char>,
    a: (Seq<char>, int, int),
    r: (Seq<char>, int, int),
    now: i64,
)
    requires
        token_decode_spec(key, ae) == Ok::<(Seq<char>, int, int), ErrorKind>(a),
        token_decode_spec(key, re) == Ok::<(Seq<char>, int, int), ErrorKind>(r),
        a.0 != r.0,
    ensures
        session_reject(true, key, Some(ae), Some(re), now) == Some(ErrorKind::OwnerMismatch),
{
}

/// Law: a decodable pair of one owner whose refresh credential is stamped
/// later than its access credential is rejected with `RefreshReused`, at
/// every instant — replaying a stale credential against a rotated pair fails.
pub proof fn lemma_replay_rejected(
    key: Seq<char>,
    ae: Seq<char>,
    re: Seq<char>,
    a: (Seq<char>, int, int),
    r: (Seq<char>, int, int),
    now: i64,
)
    requires
        token_decode_spec(key, ae) == Ok::<(Seq<char>, int, int), ErrorKind>(a),
        token_decode_spec(key, re) == Ok::<(Seq<char>, int, int), ErrorKind>(r),
        a.0 == r.0,
        r.1 > a.1,
    ensures
        session_reject(true, key, Some(ae), Some(re), now) == Some(ErrorKind::RefreshReused),
{
}

/// Law: a decodable, causally ordered pair of one owner is rejected with
/// `RefreshExpired` exactly when its refresh credential is older than the
/// refresh lifetime, and accepted otherwise.
pub proof fn lemma_refresh_expiry(
    key: Seq<char>,
    ae: Seq<char>,
    re: Seq<char>,
    a: (Seq<char>, int, int),
    r: (Seq<char>, int, int),
    now: i64,
)
    requires
        token_decode_spec(key, ae) == Ok::<(Seq<char>, int, int), ErrorKind>(a),
        token_decode_spec(key, re) == Ok::<(Seq<char>, int, int), ErrorKind>(r),
        a.0 == r.0,
        r.1 <= a.1,
    ensures
        now - r.1 > REFRESH_LIFETIME_SECONDS ==> session_reject(true, key, Some(ae), Some(re), now)
            == Some(ErrorKind::RefreshExpired),
        now - r.1 <= REFRESH_LIFETIME_SECONDS ==> session_reject(
            true,
            key,
            Some(ae),
            Some(re),
            now,
        ) is None,
{
}

} // verus!
