//! The credential subsystem end to end: round trips, tamper and wrong-key
//! rejection, envelope freshness, and the session validation rules.

use base64::Engine;
use humus_terra::encrypt::Aes;
use humus_terra::error::Error;
use humus_terra::error::ErrorKind;
use humus_terra::tokens::AccessToken;
use humus_terra::tokens::RefreshToken;
use humus_terra::tokens::Session;
use humus_terra::tokens::TokenConfig;

const DAY: i64 = 86400;
const MINUTE: i64 = 60;

fn config() -> TokenConfig {
    TokenConfig::new("a test passphrase", false)
}

#[test]
fn token_round_trip() {
    let cfg = config();
    let token = AccessToken::new("alice", 12345);
    let envelope = token.to_string(&cfg).expect("encoding succeeds");
    let back = AccessToken::from(&envelope, &cfg).expect("decoding succeeds");
    assert_eq!(back.who(), "alice");
    assert_eq!(back.timestamp(), 12345);
}

#[test]
fn token_round_trip_unicode_subject() {
    let cfg = config();
    let token = RefreshToken::new("r\u{e9}my \u{1F980}", -5);
    let envelope = token.to_string(&cfg).expect("encoding succeeds");
    let back = RefreshToken::from(&envelope, &cfg).expect("decoding succeeds");
    assert_eq!(back.who(), "r\u{e9}my \u{1F980}");
    assert_eq!(back.timestamp(), -5);
}

fn flip_byte(envelope: &str, index_from_start: Option<usize>) -> String {
    let mut blob = base64::prelude::BASE64_STANDARD
        .decode(envelope.as_bytes())
        .expect("a valid envelope is base64");
    let i = match index_from_start {
        Some(i) => i,
        None => blob.len() - 1,
    };
    blob[i] ^= 0x01;
    base64::prelude::BASE64_STANDARD.encode(&blob)
}

#[test]
fn tampered_ciphertext_rejected() {
    let cfg = config();
    let envelope = AccessToken::new("alice", 7).to_string(&cfg).unwrap();
    // Ciphertext and tag start right after the 12-byte nonce; flipping any
    // single byte of them must fail authentication.
    let blob_len = base64::prelude::BASE64_STANDARD
        .decode(envelope.as_bytes())
        .unwrap()
        .len();
    for i in 12..blob_len {
        let bent = flip_byte(&envelope, Some(i));
        let err = AccessToken::from(&bent, &cfg).err().expect("tampering is rejected");
        assert_eq!(err.kind(), ErrorKind::AuthenticationFailed);
    }
}

#[test]
fn tampered_tag_rejected() {
    let cfg = config();
    let envelope = AccessToken::new("alice", 7).to_string(&cfg).unwrap();
    let bent = flip_byte(&envelope, None);
    let err = AccessToken::from(&bent, &cfg).err().expect("tampering is rejected");
    assert_eq!(err.kind(), ErrorKind::AuthenticationFailed);
}

#[test]
fn wrong_key_rejected() {
    let cfg = config();
    let other = TokenConfig::new("another passphrase", false);
    let envelope = AccessToken::new("alice", 7).to_string(&cfg).unwrap();
    let err = AccessToken::from(&envelope, &other).err().expect("a wrong key is rejected");
    assert_eq!(err.kind(), ErrorKind::AuthenticationFailed);
}

#[test]
fn envelopes_are_fresh() {
    let plaintext = b"the same plaintext".to_vec();
    let first = Aes::encrypt(&plaintext, "the same key").unwrap();
    let second = Aes::encrypt(&plaintext, "the same key").unwrap();
    assert_ne!(first, second);
    assert_eq!(Aes::decrypt(&first, "the same key").unwrap(), plaintext);
    assert_eq!(Aes::decrypt(&second, "the same key").unwrap(), plaintext);
}

#[test]
fn malformed_base64_rejected() {
    let cfg = config();
    let err = AccessToken::from("!!! not base64 !!!", &cfg).err().unwrap();
    assert_eq!(err.kind(), ErrorKind::DecodeError);
}

#[test]
fn undersized_envelope_rejected() {
    let cfg = config();
    let short = base64::prelude::BASE64_STANDARD.encode([1u8, 2, 3, 4, 5]);
    let err = AccessToken::from(&short, &cfg).err().unwrap();
    assert_eq!(err.kind(), ErrorKind::DecodeError);
}

#[test]
fn plain_json_spelling_decodes() {
    // The record as an ordinary JSON writer spells it: raw subject, no escapes.
    let cfg = config();
    let record = format!(
        "{{\"who\":\"{}\",\"timestamp\":{},\"nonce\":{}}}",
        "r\u{e9}my", 12345, -7
    );
    let envelope = Aes::encrypt(&record.into_bytes(), "a test passphrase").unwrap();
    let back = AccessToken::from(&envelope, &cfg).expect("plain JSON spelling decodes");
    assert_eq!(back.who(), "r\u{e9}my");
    assert_eq!(back.timestamp(), 12345);
}

#[test]
fn non_record_plaintext_rejected() {
    let cfg = config();
    let envelope = Aes::encrypt(&b"not a token record".to_vec(), "a test passphrase").unwrap();
    let err = AccessToken::from(&envelope, &cfg).err().unwrap();
    assert_eq!(err.kind(), ErrorKind::EncodingError);
}

fn pair(who_access: &str, t_access: i64, who_refresh: &str, t_refresh: i64) -> (String, String) {
    let cfg = config();
    let access = AccessToken::new(who_access, t_access).to_string(&cfg).unwrap();
    let refresh = RefreshToken::new(who_refresh, t_refresh).to_string(&cfg).unwrap();
    (access, refresh)
}

#[test]
fn owner_mismatch_rejected() {
    let cfg = config();
    let now = 1_000_000_000;
    let (access, refresh) = pair("alice", now, "bob", now);
    let err = Session::from_request_at(Some(&access), Some(&refresh), now, &cfg).err().unwrap();
    assert_eq!(err.kind(), ErrorKind::OwnerMismatch);
}

#[test]
fn replayed_stale_access_rejected() {
    let cfg = config();
    let t0 = 1_000_000_000;
    let t1 = t0 + 600;
    // A stale access credential resubmitted against a rotated refresh credential.
    let (access, refresh) = pair("alice", t0, "alice", t1);
    let err = Session::from_request_at(Some(&access), Some(&refresh), t1, &cfg).err().unwrap();
    assert_eq!(err.kind(), ErrorKind::RefreshReused);
}

#[test]
fn expired_refresh_rejected() {
    let cfg = config();
    let now = 1_000_000_000;
    let stamped = now - 91 * DAY;
    let (access, refresh) = pair("alice", stamped, "alice", stamped);
    let err = Session::from_request_at(Some(&access), Some(&refresh), now, &cfg).err().unwrap();
    assert_eq!(err.kind(), ErrorKind::RefreshExpired);
}

#[test]
fn unexpired_refresh_accepted() {
    let cfg = config();
    let now = 1_000_000_000;
    let stamped = now - 89 * DAY;
    let (access, refresh) = pair("alice", stamped, "alice", stamped);
    let session =
        Session::from_request_at(Some(&access), Some(&refresh), now, &cfg).expect("accepted");
    // 89 days is far past the rotation window, so a fresh pair comes back.
    assert_eq!(session.access().who(), "alice");
    assert_eq!(session.access().timestamp(), now);
    assert_eq!(session.refresh().timestamp(), now);
}

#[test]
fn old_access_rotates_pair() {
    let cfg = config();
    let now = 1_000_000_000;
    let stamped = now - 16 * MINUTE;
    let (access, refresh) = pair("alice", stamped, "alice", stamped);
    let session =
        Session::from_request_at(Some(&access), Some(&refresh), now, &cfg).expect("accepted");
    assert_eq!(session.access().who(), "alice");
    assert_eq!(session.refresh().who(), "alice");
    assert_eq!(session.access().timestamp(), now);
    assert_eq!(session.refresh().timestamp(), now);
}

#[test]
fn young_access_kept_unchanged() {
    let cfg = config();
    let now = 1_000_000_000;
    let stamped = now - 14 * MINUTE;
    let (access, refresh) = pair("alice", stamped, "alice", stamped);
    let session =
        Session::from_request_at(Some(&access), Some(&refresh), now, &cfg).expect("accepted");
    assert_eq!(session.access().who(), "alice");
    assert_eq!(session.refresh().who(), "alice");
    assert_eq!(session.access().timestamp(), stamped);
    assert_eq!(session.refresh().timestamp(), stamped);
}

#[test]
fn missing_access_rejected() {
    let cfg = config();
    let now = 1_000_000_000;
    let (_, refresh) = pair("alice", now, "alice", now);
    let err = Session::from_request_at(None, Some(&refresh), now, &cfg).err().unwrap();
    assert_eq!(err.kind(), ErrorKind::MissingCredential);
}

#[test]
fn missing_refresh_rejected() {
    let cfg = config();
    let now = 1_000_000_000;
    let (access, _) = pair("alice", now, "alice", now);
    let err = Session::from_request_at(Some(&access), None, now, &cfg).err().unwrap();
    assert_eq!(err.kind(), ErrorKind::MissingCredential);
}

#[test]
fn missing_refresh_outranks_bad_access() {
    // Both fields' presence is checked before any decoding or configuration
    // check, so an undecodable access field beside a missing refresh field
    // still reports the missing credential.
    let cfg = config();
    let now = 1_000_000_000;
    let err = Session::from_request_at(Some("!!! not base64 !!!"), None, now, &cfg).err().unwrap();
    assert_eq!(err.kind(), ErrorKind::MissingCredential);
    let unset = TokenConfig::unset();
    let err = Session::from_request_at(Some("x"), None, now, &unset).err().unwrap();
    assert_eq!(err.kind(), ErrorKind::MissingCredential);
}

#[test]
fn unconfigured_decode_rejected() {
    let cfg = config();
    let unset = TokenConfig::unset();
    let envelope = AccessToken::new("alice", 7).to_string(&cfg).unwrap();
    let err = AccessToken::from(&envelope, &unset).err().unwrap();
    assert_eq!(err.kind(), ErrorKind::NotConfigured);
}

#[test]
fn unconfigured_encode_rejected() {
    let unset = TokenConfig::unset();
    let err = AccessToken::new("alice", 7).to_string(&unset).err().unwrap();
    assert_eq!(err.kind(), ErrorKind::NotConfigured);
    let err = RefreshToken::new("alice", 7).to_string(&unset).err().unwrap();
    assert_eq!(err.kind(), ErrorKind::NotConfigured);
}

#[test]
fn unconfigured_to_response_rejected() {
    let unset = TokenConfig::unset();
    let err = Session::new_at("alice", 7).to_response(&unset).err().unwrap();
    assert_eq!(err.kind(), ErrorKind::NotConfigured);
}

#[test]
fn unconfigured_from_request_rejected() {
    let cfg = config();
    let unset = TokenConfig::unset();
    let now = 1_000_000_000;
    let (access, refresh) = pair("alice", now, "alice", now);
    let err = Session::from_request_at(Some(&access), Some(&refresh), now, &unset).err().unwrap();
    assert_eq!(err.kind(), ErrorKind::NotConfigured);
}

#[test]
fn configuration_can_be_set() {
    let mut cfg = TokenConfig::unset();
    cfg.set(TokenConfig::new("a test passphrase", true));
    let envelope = AccessToken::new("alice", 7).to_string(&cfg).expect("configured now");
    let back = AccessToken::from(&envelope, &cfg).unwrap();
    assert_eq!(back.who(), "alice");
}

#[test]
fn fresh_session_stamps_pair_together() {
    let session = Session::new("alice");
    assert_eq!(session.access().who(), "alice");
    assert_eq!(session.refresh().who(), "alice");
    assert_eq!(session.access().timestamp(), session.refresh().timestamp());
}

#[test]
fn fresh_session_round_trips_through_transport() {
    let cfg = config();
    let session = Session::new("alice");
    let access = session.access().to_string(&cfg).unwrap();
    let refresh = session.refresh().to_string(&cfg).unwrap();
    let back = Session::from_request(Some(&access), Some(&refresh), &cfg).expect("accepted");
    assert_eq!(back.access().who(), "alice");
}

#[test]
fn to_response_writes_both_cookies() {
    let cfg = TokenConfig::new("a test passphrase", true);
    let session = Session::new_at("alice", 1_000_000_000);
    let cookies = session.to_response(&cfg).expect("configured");
    assert!(cookies.access.starts_with("__HT_ACCESS_TOKEN="));
    assert!(cookies.refresh.starts_with("__HT_REFRESH_TOKEN="));
    assert!(cookies.access.contains("; HttpOnly"));
    assert!(cookies.access.contains("; Secure"));
    assert!(cookies.refresh.contains("; HttpOnly"));
    assert!(cookies.refresh.contains("; Secure"));
}

#[test]
fn to_response_honours_insecure_flag() {
    let cfg = TokenConfig::new("a test passphrase", false);
    let session = Session::new_at("alice", 1_000_000_000);
    let cookies = session.to_response(&cfg).expect("configured");
    assert!(cookies.access.contains("; HttpOnly"));
    assert!(!cookies.access.contains("; Secure"));
}

#[test]
fn to_response_cookie_value_decodes_back() {
    let cfg = config();
    let session = Session::new_at("alice", 1_000_000_000);
    let cookies = session.to_response(&cfg).expect("configured");
    let value = cookies
        .access
        .strip_prefix("__HT_ACCESS_TOKEN=")
        .and_then(|rest| rest.split(';').next())
        .expect("the cookie holds a value");
    let back = AccessToken::from(value, &cfg).expect("the value is the envelope");
    assert_eq!(back.who(), "alice");
    assert_eq!(back.timestamp(), 1_000_000_000);
}

#[test]
fn error_carries_kind_and_message() {
    let err = Error::new(ErrorKind::OwnerMismatch, "Token owner mismatched");
    assert_eq!(err.kind(), ErrorKind::OwnerMismatch);
    assert_eq!(err.message(), "Token owner mismatched");
    let err = Error::from(ErrorKind::RefreshExpired);
    assert_eq!(err.kind(), ErrorKind::RefreshExpired);
    assert_eq!(err.message(), "Refresh token expired");
}
