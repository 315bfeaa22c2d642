//! The response cache's bookkeeping: reads, writes, and invalidation.

use gddns::ddns::DdnsResult;
use gddns::ip::IpAddr;
use gddns::response_cache::CacheLookup;
use gddns::response_cache::ChangeEvent;
use gddns::response_cache::PutAction;
use gddns::response_cache::ResponseCache;
use gddns::response_cache::ResponseCacheError;

fn good(a: u8, b: u8, c: u8, d: u8) -> DdnsResult {
    DdnsResult::Good(IpAddr::V4(a, b, c, d))
}

#[test]
fn put_then_get() {
    let mut cache = ResponseCache::new("/var/cache/gddns".to_string());
    let o = good(1, 2, 3, 4);
    match cache.put("a.example.com", &o, 100) {
        PutAction::Write(bytes) => assert_eq!(bytes, b"good 1.2.3.4".to_vec()),
        PutAction::Skip => panic!("first put must write"),
    }
    match cache.get("a.example.com") {
        CacheLookup::Hit(stored, stamp) => {
            assert!(stored.value_eq(&o));
            assert_eq!(stamp, 100);
        },
        CacheLookup::Miss => panic!("entry must be remembered"),
    }
}

#[test]
fn second_put_of_equal_outcome_is_a_no_op() {
    let mut cache = ResponseCache::new("/var/cache/gddns".to_string());
    let o = good(1, 2, 3, 4);
    assert!(matches!(cache.put("h", &o, 100), PutAction::Write(_)));
    let second = good(1, 2, 3, 4);
    assert!(matches!(cache.put("h", &second, 999), PutAction::Skip));
    match cache.get("h") {
        CacheLookup::Hit(_, stamp) => assert_eq!(stamp, 100),
        CacheLookup::Miss => panic!("entry must be remembered"),
    }
}

#[test]
fn put_of_changed_outcome_writes_again() {
    let mut cache = ResponseCache::new("/var/cache/gddns".to_string());
    assert!(matches!(cache.put("h", &good(1, 2, 3, 4), 100), PutAction::Write(_)));
    match cache.put("h", &good(5, 6, 7, 8), 200) {
        PutAction::Write(bytes) => assert_eq!(bytes, b"good 5.6.7.8".to_vec()),
        PutAction::Skip => panic!("a changed outcome must be written"),
    }
    match cache.get("h") {
        CacheLookup::Hit(stored, stamp) => {
            assert!(stored.value_eq(&good(5, 6, 7, 8)));
            assert_eq!(stamp, 200);
        },
        CacheLookup::Miss => panic!("entry must be remembered"),
    }
}

#[test]
fn absent_hostname_misses_and_absent_file_stays_absent() {
    let mut cache = ResponseCache::new("/var/cache/gddns".to_string());
    assert!(matches!(cache.get("h"), CacheLookup::Miss));
    match cache.load_from_disk("h", None) {
        Ok(None) => {},
        _ => panic!("a missing file is an absent entry, not an error"),
    }
    assert!(matches!(cache.get("h"), CacheLookup::Miss));
}

#[test]
fn disk_bytes_are_decoded_and_remembered() {
    let mut cache = ResponseCache::new("/var/cache/gddns".to_string());
    let loaded = cache.load_from_disk("h", Some((b"good 1.2.3.4".to_vec(), 50)));
    match loaded {
        Ok(Some((o, stamp))) => {
            assert!(o.value_eq(&good(1, 2, 3, 4)));
            assert_eq!(stamp, 50);
        },
        _ => panic!("valid bytes must decode"),
    }
    match cache.get("h") {
        CacheLookup::Hit(o, stamp) => {
            assert!(o.value_eq(&good(1, 2, 3, 4)));
            assert_eq!(stamp, 50);
        },
        CacheLookup::Miss => panic!("the loaded entry must be remembered"),
    }
}

#[test]
fn garbage_disk_bytes_are_a_parse_error() {
    let mut cache = ResponseCache::new("/var/cache/gddns".to_string());
    match cache.load_from_disk("h", Some((b"!!garbage!!".to_vec(), 7))) {
        Err(ResponseCacheError::Parse(d)) => assert_eq!(d, b"!!garbage!!".to_vec()),
        _ => panic!("garbage must be a parse error"),
    }
    assert!(matches!(cache.get("h"), CacheLookup::Miss));
}

#[test]
fn outside_change_invalidates_the_whole_memory() {
    let mut cache = ResponseCache::new("/var/cache/gddns".to_string());
    cache.put("h1", &good(1, 2, 3, 4), 100);
    cache.put("h2", &good(5, 6, 7, 8), 100);
    let events = vec![ChangeEvent::Access, ChangeEvent::Change];
    assert!(cache.check_disk_changes(&events).is_ok());
    assert!(matches!(cache.get("h1"), CacheLookup::Miss));
    assert!(matches!(cache.get("h2"), CacheLookup::Miss));
}

#[test]
fn pure_accesses_do_not_invalidate() {
    let mut cache = ResponseCache::new("/var/cache/gddns".to_string());
    cache.put("h", &good(1, 2, 3, 4), 100);
    let events = vec![ChangeEvent::Access, ChangeEvent::Access];
    assert!(cache.check_disk_changes(&events).is_ok());
    assert!(matches!(cache.get("h"), CacheLookup::Hit(_, _)));
}

#[test]
fn no_events_do_not_invalidate() {
    let mut cache = ResponseCache::new("/var/cache/gddns".to_string());
    cache.put("h", &good(1, 2, 3, 4), 100);
    assert!(cache.check_disk_changes(&Vec::new()).is_ok());
    assert!(matches!(cache.get("h"), CacheLookup::Hit(_, _)));
}

#[test]
fn watcher_fault_fails_the_drain_and_keeps_memory() {
    let mut cache = ResponseCache::new("/var/cache/gddns".to_string());
    cache.put("h", &good(1, 2, 3, 4), 100);
    let events = vec![ChangeEvent::Fault, ChangeEvent::Change];
    match cache.check_disk_changes(&events) {
        Err(ResponseCacheError::Notify) => {},
        _ => panic!("a watcher fault must fail the drain"),
    }
    assert!(matches!(cache.get("h"), CacheLookup::Hit(_, _)));
}

#[test]
fn clear_forgets_the_entry() {
    let mut cache = ResponseCache::new("/var/cache/gddns".to_string());
    cache.put("h", &good(1, 2, 3, 4), 100);
    cache.clear("h");
    assert!(matches!(cache.get("h"), CacheLookup::Miss));
}

#[test]
fn entry_path_joins_directory_and_hostname() {
    let cache = ResponseCache::new("/var/cache/gddns".to_string());
    assert_eq!(cache.entry_path("a.example.com"), "/var/cache/gddns/a.example.com");
}

#[test]
fn ip_cache_names_its_files() {
    let cache = gddns::ip_cache::IpCache::new("/var/cache/gddns".to_string());
    assert_eq!(cache.cache_file("a.example.com"), "/var/cache/gddns/a.example.com");
    assert_eq!(cache.dir, "/var/cache/gddns");
}
