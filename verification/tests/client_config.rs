//! Client settings validation, the client built from them, and the
//! classification of HTTP answers.

use gddns::config::ClientConfig;
use gddns::config::ConfigError;
use gddns::ddns::Auth;
use gddns::ddns::Client;
use gddns::ddns::DdnsResult;
use gddns::ip::IpAddr;

fn url() -> String {
    "https://update.example.net/v3/update".to_string()
}

#[test]
fn token_auth_is_accepted() {
    let c = ClientConfig::new(url(), None, None, Some("tok".to_string()), 5).unwrap();
    assert_eq!(c.token.as_deref(), Some("tok"));
    assert_eq!(c.server_backoff, 5);
}

#[test]
fn password_auth_is_accepted() {
    let c = ClientConfig::new(url(), Some("u".to_string()), Some("p".to_string()), None, 7)
        .unwrap();
    assert_eq!(c.username.as_deref(), Some("u"));
    assert_eq!(c.password.as_deref(), Some("p"));
}

#[test]
fn missing_auth_is_rejected() {
    let e = ClientConfig::new(url(), None, None, None, 5).unwrap_err();
    assert_eq!(e, ConfigError::MissingAuthentication);
}

#[test]
fn username_without_password_is_rejected() {
    let e = ClientConfig::new(url(), Some("u".to_string()), None, None, 5).unwrap_err();
    assert_eq!(e, ConfigError::MissingPassword);
}

#[test]
fn password_without_username_is_rejected() {
    let e = ClientConfig::new(url(), None, Some("p".to_string()), None, 5).unwrap_err();
    assert_eq!(e, ConfigError::MissingUsername);
}

#[test]
fn two_auth_forms_are_rejected() {
    let e = ClientConfig::new(
        url(),
        Some("u".to_string()),
        Some("p".to_string()),
        Some("tok".to_string()),
        5,
    )
    .unwrap_err();
    assert_eq!(e, ConfigError::MultipleAuthentication);
    let e = ClientConfig::new(url(), None, Some("p".to_string()), Some("tok".to_string()), 5)
        .unwrap_err();
    assert_eq!(e, ConfigError::MultipleAuthentication);
}

#[test]
fn client_carries_token_auth() {
    let c = ClientConfig::new(url(), None, None, Some("tok".to_string()), 5).unwrap();
    let client = Client::from_config(&c);
    assert_eq!(client.update_url, url());
    assert!(matches!(client.auth, Auth::Token(t) if t == "tok"));
}

#[test]
fn client_carries_password_auth() {
    let c = ClientConfig::new(url(), Some("u".to_string()), Some("p".to_string()), None, 5)
        .unwrap();
    let client = Client::from_config(&c);
    assert!(matches!(client.auth, Auth::Password(u, p) if u == "u" && p == "p"));
}

#[test]
fn success_answer_with_address_is_decoded() {
    let here = IpAddr::V4(1, 2, 3, 4);
    let r = DdnsResult::from_http(200, b"good 5.6.7.8".to_vec(), &here);
    assert!(r.value_eq(&DdnsResult::Good(IpAddr::V4(5, 6, 7, 8))));
}

#[test]
fn bare_success_answer_gets_the_sent_address() {
    // Some endpoints answer a bare `good` or `nochg` with no address.
    let here = IpAddr::V4(1, 2, 3, 4);
    let r = DdnsResult::from_http(200, b"good".to_vec(), &here);
    assert!(r.value_eq(&DdnsResult::Good(here)));
    let r = DdnsResult::from_http(200, b"nochg".to_vec(), &here);
    assert!(r.value_eq(&DdnsResult::NoChg(here)));
}

#[test]
fn success_status_with_failure_text_is_decoded() {
    let here = IpAddr::V4(1, 2, 3, 4);
    let r = DdnsResult::from_http(200, b"911 backend down".to_vec(), &here);
    assert!(r.value_eq(&DdnsResult::RetryableError(b"911".to_vec(), b"backend down".to_vec())));
}

#[test]
fn undecodable_success_body_is_a_parse_error() {
    let here = IpAddr::V4(1, 2, 3, 4);
    let r = DdnsResult::from_http(200, b"???".to_vec(), &here);
    assert!(r.value_eq(&DdnsResult::FatalError(b"parseerror".to_vec(), b"???".to_vec())));
}

#[test]
fn server_errors_and_throttling_are_retryable() {
    let here = IpAddr::V4(1, 2, 3, 4);
    for status in [500u16, 503, 599, 429] {
        let r = DdnsResult::from_http(status, b"busy".to_vec(), &here);
        assert!(r.value_eq(&DdnsResult::RetryableError(b"retryable".to_vec(), b"busy".to_vec())));
    }
}

#[test]
fn other_failure_statuses_are_fatal() {
    let here = IpAddr::V4(1, 2, 3, 4);
    for status in [400u16, 404, 418, 300, 101] {
        let r = DdnsResult::from_http(status, b"no".to_vec(), &here);
        assert!(r.value_eq(&DdnsResult::FatalError(b"clienterror".to_vec(), b"no".to_vec())));
    }
}

#[test]
fn transport_failures_are_fatal_request_errors() {
    let r = DdnsResult::request_error(b"connection refused".to_vec());
    assert!(r.value_eq(&DdnsResult::FatalError(
        b"requesterror".to_vec(),
        b"connection refused".to_vec(),
    )));
}
