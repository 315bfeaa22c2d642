//! The per-host policy, the response classification, and the batch
//! verdict.

use gddns::ddns::DdnsResult;
use gddns::ip::IpAddr;
use gddns::response_cache::CacheLookup;
use gddns::response_cache::PutAction;
use gddns::response_cache::ResponseCache;
use gddns::config::ClientConfig;
use gddns::update::BatchRun;
use gddns::update::HostDecision;
use gddns::update::UpdateError;
use gddns::update::UpdateErrors;
use gddns::update::clear_cache;
use gddns::update::collect_failures;
use gddns::update::decide_update;
use gddns::update::record_response;
use gddns::update::resolve_cache_dir;
use gddns::update::resolve_poll_interval;

fn ip(a: u8, b: u8, c: u8, d: u8) -> IpAddr {
    IpAddr::V4(a, b, c, d)
}

#[test]
fn matching_cached_address_skips_the_client() {
    let here = ip(1, 2, 3, 4);
    let cached = Some((DdnsResult::Good(here), 5));
    assert!(matches!(decide_update(&cached, 5, 1000, &here), HostDecision::AlreadyCurrent));
    let cached = Some((DdnsResult::NoChg(here), 5));
    assert!(matches!(decide_update(&cached, 5, 1000, &here), HostDecision::AlreadyCurrent));
}

#[test]
fn changed_address_calls_the_client() {
    let cached = Some((DdnsResult::Good(ip(1, 2, 3, 4)), 5));
    assert!(matches!(
        decide_update(&cached, 5, 1000, &ip(5, 6, 7, 8)),
        HostDecision::NeedClient
    ));
}

#[test]
fn absent_entry_calls_the_client() {
    assert!(matches!(decide_update(&None, 5, 1000, &ip(1, 2, 3, 4)), HostDecision::NeedClient));
}

#[test]
fn backoff_window_gates_retries() {
    let t = 10_000u64;
    let cached = Some((
        DdnsResult::RetryableError(b"911".to_vec(), b"down".to_vec()),
        t,
    ));
    // Two minutes into a five-minute window: refused, no call.
    match decide_update(&cached, 5, t + 120, &ip(1, 2, 3, 4)) {
        HostDecision::Refuse(UpdateError::Backoff { code, text, age_secs, backoff_mins }) => {
            assert_eq!(code, b"911".to_vec());
            assert_eq!(text, b"down".to_vec());
            assert_eq!(age_secs, 120);
            assert_eq!(backoff_mins, 5);
        },
        _ => panic!("within the window the attempt must be refused"),
    }
    // Six minutes in: the window has passed, the client is called.
    assert!(matches!(
        decide_update(&cached, 5, t + 360, &ip(1, 2, 3, 4)),
        HostDecision::NeedClient
    ));
}

#[test]
fn fatal_entry_blocks_until_cleared() {
    let cached = Some((
        DdnsResult::FatalError(b"badauth".to_vec(), b"wrong password".to_vec()),
        1000,
    ));
    for now in [1000u64, 2000, 1_000_000, u64::MAX] {
        match decide_update(&cached, 5, now, &ip(1, 2, 3, 4)) {
            HostDecision::Refuse(UpdateError::Fatal(code, text)) => {
                assert_eq!(code, b"badauth".to_vec());
                assert_eq!(text, b"wrong password".to_vec());
            },
            _ => panic!("a remembered fatal failure must refuse the attempt"),
        }
    }
    // Once the entry is cleared, the next attempt calls the client again.
    let mut cache = ResponseCache::new("/var/cache/gddns".to_string());
    cache.put(
        "h",
        &DdnsResult::FatalError(b"badauth".to_vec(), b"wrong password".to_vec()),
        1000,
    );
    clear_cache(&mut cache, "h");
    assert!(matches!(cache.get("h"), CacheLookup::Miss));
    assert!(matches!(decide_update(&None, 5, 9999, &ip(1, 2, 3, 4)), HostDecision::NeedClient));
}

#[test]
fn future_timestamp_is_clock_skew() {
    let cached = Some((
        DdnsResult::RetryableError(b"dnserr".to_vec(), b"x".to_vec()),
        1000,
    ));
    assert!(matches!(
        decide_update(&cached, 5, 500, &ip(1, 2, 3, 4)),
        HostDecision::Refuse(UpdateError::ClockSkew)
    ));
}

#[test]
fn first_update_writes_the_cache_file() {
    // No prior cache; the client answers `good 1.2.3.4`.
    let mut cache = ResponseCache::new("/var/cache/gddns".to_string());
    assert!(matches!(cache.get("a.example.com"), CacheLookup::Miss));
    let response = DdnsResult::Good(ip(1, 2, 3, 4));
    let (action, verdict) = record_response(&mut cache, "a.example.com", &response, 42);
    match action {
        PutAction::Write(bytes) => assert_eq!(bytes, b"good 1.2.3.4".to_vec()),
        PutAction::Skip => panic!("the first outcome must be written"),
    }
    assert_eq!(cache.entry_path("a.example.com"), "/var/cache/gddns/a.example.com");
    assert!(verdict.is_ok());
}

#[test]
fn corrupt_cache_entry_is_recovered_from() {
    // The cache file holds garbage: the lookup reports a parse error,
    // the caller proceeds as if nothing were cached, and the fresh
    // outcome overwrites the file.
    let mut cache = ResponseCache::new("/var/cache/gddns".to_string());
    let loaded = cache.load_from_disk("h", Some((b"garbage bytes".to_vec(), 10)));
    assert!(loaded.is_err());
    let entry = None;
    assert!(matches!(decide_update(&entry, 5, 1000, &ip(1, 2, 3, 4)), HostDecision::NeedClient));
    let response = DdnsResult::Good(ip(1, 2, 3, 4));
    let (action, verdict) = record_response(&mut cache, "h", &response, 1000);
    match action {
        PutAction::Write(bytes) => assert_eq!(bytes, b"good 1.2.3.4".to_vec()),
        PutAction::Skip => panic!("the fresh outcome must overwrite the file"),
    }
    assert!(verdict.is_ok());
}

#[test]
fn failed_responses_are_recorded_and_surfaced() {
    let mut cache = ResponseCache::new("/var/cache/gddns".to_string());
    let response = DdnsResult::FatalError(b"nohost".to_vec(), b"unknown host".to_vec());
    let (action, verdict) = record_response(&mut cache, "h", &response, 10);
    assert!(matches!(action, PutAction::Write(_)));
    match verdict {
        Err(UpdateError::ClientFailure(code, text)) => {
            assert_eq!(code, b"nohost".to_vec());
            assert_eq!(text, b"unknown host".to_vec());
        },
        _ => panic!("a failure outcome must surface as an error"),
    }
    // The failure is remembered for later backoff decisions.
    match cache.get("h") {
        CacheLookup::Hit(o, stamp) => {
            assert!(o.value_eq(&response));
            assert_eq!(stamp, 10);
        },
        CacheLookup::Miss => panic!("the failure must be remembered"),
    }
}

#[test]
fn batch_isolates_per_host_failures() {
    // Three hosts; the second host's client call answers a fatal error.
    // Every host is attempted and recorded; the aggregate names host 2
    // as the sole failure.
    let mut cache = ResponseCache::new("/var/cache/gddns".to_string());
    let hosts = ["one.example.com", "two.example.com", "three.example.com"];
    let answers = [
        DdnsResult::Good(ip(1, 2, 3, 4)),
        DdnsResult::FatalError(b"badauth".to_vec(), b"wrong".to_vec()),
        DdnsResult::Good(ip(1, 2, 3, 4)),
    ];
    let mut results: Vec<(String, Result<(), UpdateError>)> = Vec::new();
    for (hostname, answer) in hosts.iter().zip(answers.iter()) {
        let entry = None;
        assert!(matches!(
            decide_update(&entry, 5, 1000, &ip(1, 2, 3, 4)),
            HostDecision::NeedClient
        ));
        let (action, verdict) = record_response(&mut cache, hostname, answer, 1000);
        assert!(matches!(action, PutAction::Write(_)));
        results.push((hostname.to_string(), verdict));
    }
    // All three outcomes were persisted, the failed one included.
    for hostname in hosts {
        assert!(matches!(cache.get(hostname), CacheLookup::Hit(_, _)));
    }
    match collect_failures(&results) {
        Err(UpdateErrors { errors }) => {
            assert_eq!(errors.len(), 1);
            assert_eq!(errors[0].0, "two.example.com");
            assert!(matches!(&errors[0].1, UpdateError::ClientFailure(code, _)
                if code == &b"badauth".to_vec()));
        },
        Ok(()) => panic!("one failed host must fail the batch"),
    }
}

#[test]
fn batch_run_attempts_every_host_in_order() {
    // Drive a whole pass: the second host's client call answers a fatal
    // error, yet every host is attempted, and the aggregate names only
    // the second.
    let mut cache = ResponseCache::new("/var/cache/gddns".to_string());
    let hosts: Vec<(String, ClientConfig)> = ["one.example.com", "two.example.com", "three.example.com"]
        .iter()
        .map(|h| {
            (
                h.to_string(),
                ClientConfig::new(
                    "https://update.example.net".to_string(),
                    None,
                    None,
                    Some("tok".to_string()),
                    5,
                )
                .unwrap(),
            )
        })
        .collect();
    let mut batch = BatchRun::new(hosts);
    let mut attempted: Vec<String> = Vec::new();
    while let Some(h) = batch.current() {
        let hostname = h.0.clone();
        attempted.push(hostname.clone());
        let answer = if hostname == "two.example.com" {
            DdnsResult::FatalError(b"badauth".to_vec(), b"wrong".to_vec())
        } else {
            DdnsResult::Good(ip(1, 2, 3, 4))
        };
        let (_, verdict) = record_response(&mut cache, &hostname, &answer, 1000);
        batch.record(verdict);
    }
    assert_eq!(
        attempted,
        vec!["one.example.com", "two.example.com", "three.example.com"]
    );
    match batch.verdict() {
        Err(UpdateErrors { errors }) => {
            assert_eq!(errors.len(), 1);
            assert_eq!(errors[0].0, "two.example.com");
        }
        Ok(()) => panic!("one failed host must fail the batch"),
    }
}

#[test]
fn batch_of_successes_succeeds() {
    let results: Vec<(String, Result<(), UpdateError>)> = vec![
        ("a".to_string(), Ok(())),
        ("b".to_string(), Ok(())),
    ];
    assert!(collect_failures(&results).is_ok());
}

#[test]
fn empty_batch_succeeds() {
    let results: Vec<(String, Result<(), UpdateError>)> = Vec::new();
    assert!(collect_failures(&results).is_ok());
}

#[test]
fn cache_dir_resolution_prefers_the_command_line() {
    assert_eq!(resolve_cache_dir(Some("/a".to_string()), Some("/b".to_string())), "/a");
    assert_eq!(resolve_cache_dir(None, Some("/b".to_string())), "/b");
    assert_eq!(resolve_cache_dir(None, None), "/var/cache/gddns");
}

#[test]
fn poll_interval_resolution_prefers_the_command_line() {
    assert_eq!(resolve_poll_interval(Some(10), Some(20)), 10);
    assert_eq!(resolve_poll_interval(None, Some(20)), 20);
    assert_eq!(resolve_poll_interval(None, None), 300);
}

#[test]
fn clear_cache_names_the_file_to_delete() {
    let mut cache = ResponseCache::new("/var/cache/gddns".to_string());
    cache.put("h", &DdnsResult::Good(ip(1, 2, 3, 4)), 1);
    let path = clear_cache(&mut cache, "h");
    assert_eq!(path, "/var/cache/gddns/h");
    assert!(matches!(cache.get("h"), CacheLookup::Miss));
}
