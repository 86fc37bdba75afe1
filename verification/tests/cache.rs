use std::collections::hash_map::RandomState;
use std::hash::BuildHasher;

use dnser::testing::{fixtures, soa_record as testing_soa};
use dnser::{Cache, CacheKey, Message, Question, RecordType, ResourceRecord};

const ZONE: &str = "example.com";
const IP: [u8; 4] = [93, 184, 216, 34];

fn question() -> Question {
    fixtures::question(ZONE, RecordType::A)
}

fn a_record(ttl: u32) -> ResourceRecord {
    fixtures::a_record(ZONE, IP, ttl)
}

fn noerror_response(ttl: u32) -> Message {
    fixtures::noerror(question(), vec![a_record(ttl)])
}

fn servfail_response() -> Message {
    fixtures::servfail(question())
}

fn truncated_response() -> Message {
    fixtures::truncated(question(), vec![a_record(300)])
}

fn soa_record(soa_ttl: u32, minimum: u32) -> ResourceRecord {
    testing_soa(ZONE, soa_ttl, minimum)
}

fn nxdomain_response(soa_ttl: u32, minimum: u32) -> Message {
    fixtures::nxdomain(question(), soa_record(soa_ttl, minimum))
}

#[test]
fn hit_after_insert() {
    let mut cache = Cache::new(100, 3600);
    cache.insert(&noerror_response(300));
    assert!(cache.get(&question()).is_some());
}

#[test]
fn ttls_are_rewritten_on_hit() {
    let mut cache = Cache::new(100, 3600);
    cache.insert_at(&noerror_response(300), 0);
    let hit = cache.get_at(&question(), 100_000).unwrap();
    assert_eq!(hit.answers[0].ttl, 200);
}

#[test]
fn expired_entry_returns_none() {
    let mut cache = Cache::new(100, 3600);
    cache.insert_at(&noerror_response(60), 0);
    assert!(cache.get_at(&question(), 61_000).is_none());
}

#[test]
fn lookup_hash_matches_cache_key_hash() {
    let bh = RandomState::new();
    let key = CacheKey::from_question(&question());
    let lookup = CacheKey::from_question(&fixtures::question("EXAMPLE.com", RecordType::A));
    assert_eq!(bh.hash_one(&key), bh.hash_one(&lookup));
    assert_eq!(key, lookup);
}

#[test]
fn zero_ttl_not_cached() {
    let mut cache = Cache::new(100, 3600);
    cache.insert(&noerror_response(0));
    assert!(cache.is_empty());
}

#[test]
fn servfail_not_cached() {
    let mut cache = Cache::new(100, 3600);
    cache.insert(&servfail_response());
    assert!(cache.is_empty());
}

#[test]
fn truncated_not_cached() {
    let mut cache = Cache::new(100, 3600);
    cache.insert(&truncated_response());
    assert!(cache.is_empty());
}

#[test]
fn nxdomain_cached_with_soa_minimum() {
    let mut cache = Cache::new(100, 3600);
    cache.insert(&nxdomain_response(300, 60));
    assert_eq!(cache.len(), 1);
    assert_eq!(cache.stored_ttl_secs(&question()), Some(60));
}

#[test]
fn nxdomain_ttl_capped_by_max_negative_ttl() {
    let mut cache = Cache::new(100, 300);
    cache.insert(&nxdomain_response(7200, 7200));
    assert_eq!(cache.stored_ttl_secs(&question()), Some(300));
}

#[test]
fn nodata_cached_with_soa_minimum() {
    let mut cache = Cache::new(100, 3600);
    cache.insert(&fixtures::nodata(question(), soa_record(120, 60)));
    assert_eq!(cache.len(), 1);
    assert_eq!(cache.stored_ttl_secs(&question()), Some(60));
}

#[test]
fn nodata_ttl_capped_by_max_negative_ttl() {
    let mut cache = Cache::new(100, 120);
    cache.insert(&fixtures::nodata(question(), soa_record(7200, 7200)));
    assert_eq!(cache.stored_ttl_secs(&question()), Some(120));
}

#[test]
fn nxdomain_without_soa_not_cached() {
    let mut cache = Cache::new(100, 3600);
    let mut no_soa = fixtures::nxdomain(question(), soa_record(60, 60));
    no_soa.authority.clear();
    no_soa.header.ns_count = 0;
    cache.insert(&no_soa);
    assert!(cache.is_empty(), "NXDOMAIN without SOA must not be cached");
}

#[test]
fn evict_expired_clears_stale_entries() {
    let mut cache = Cache::new(100, 3600);
    cache.insert_at(&noerror_response(300), 0);
    cache.evict_expired_at(300_000);
    assert!(cache.is_empty());
}

#[test]
fn case_insensitive_lookup() {
    let mut cache = Cache::new(100, 3600);
    cache.insert(&noerror_response(300));
    let q = fixtures::question("EXAMPLE.COM", RecordType::A);
    assert!(cache.get(&q).is_some());
}

#[test]
fn capacity_enforced() {
    let mut cache = Cache::new(2, 3600);
    let base = noerror_response(300);

    cache.insert(&base);
    assert_eq!(cache.len(), 1);

    let mut r2 = base.clone();
    r2.questions[0].name = "other.com".to_string();
    r2.answers[0].name = "other.com".to_string();
    cache.insert(&r2);
    assert_eq!(cache.len(), 2);

    let mut r3 = base.clone();
    r3.questions[0].name = "third.com".to_string();
    r3.answers[0].name = "third.com".to_string();
    cache.insert(&r3);
    assert_eq!(cache.len(), 2);
}

#[test]
fn cached_response_is_returned_whole_until_expiry() {
    let mut cache = Cache::new(10, 3600);
    let response = noerror_response(300);
    cache.insert_at(&response, 5_000);
    let hit = cache.get_at(&question(), 5_999).unwrap();
    assert_eq!(hit, response);
    assert!(cache.get_at(&question(), 304_999).is_some());
    assert!(cache.get_at(&question(), 305_000).is_none());
}

#[test]
fn ttl_never_goes_below_zero() {
    let mut cache = Cache::new(10, 3600);
    let mut response = noerror_response(300);
    response.answers.push(a_record(10_000));
    response.header.an_count = 2;
    response.answers[0].ttl = 300;
    cache.insert_at(&response, 0);
    let hit = cache.get_at(&question(), 299_500).unwrap();
    assert_eq!(hit.answers[0].ttl, 1);
    assert_eq!(hit.answers[1].ttl, 10_000 - 299);
}

#[test]
fn full_cache_evicts_least_recently_used() {
    let mut cache = Cache::new(2, 3600);
    let base = noerror_response(300);
    cache.insert(&base);
    let mut r2 = base.clone();
    r2.questions[0].name = "other.com".to_string();
    r2.answers[0].name = "other.com".to_string();
    cache.insert(&r2);
    let mut r3 = base.clone();
    r3.questions[0].name = "third.com".to_string();
    r3.answers[0].name = "third.com".to_string();
    cache.insert(&r3);
    assert_eq!(cache.len(), 2);
    assert!(cache.get(&question()).is_none());
    assert!(cache.get(&fixtures::question("other.com", RecordType::A)).is_some());
    assert!(cache.get(&fixtures::question("third.com", RecordType::A)).is_some());
}

#[test]
fn a_hit_makes_an_entry_recently_used() {
    let mut cache = Cache::new(2, 3600);
    let short = noerror_response(10);
    let mut long = noerror_response(1000);
    long.questions[0].name = "long.com".to_string();
    cache.insert_at(&short, 0);
    cache.insert_at(&long, 0);
    assert!(cache.get_at(&question(), 5_000).is_some());
    let mut third = noerror_response(1000);
    third.questions[0].name = "third.com".to_string();
    cache.insert_at(&third, 6_000);
    assert_eq!(cache.len(), 2);
    assert!(cache.get_at(&question(), 6_000).is_some());
    assert!(cache.get_at(&fixtures::question("long.com", RecordType::A), 6_000).is_none());
    assert!(cache.get_at(&fixtures::question("third.com", RecordType::A), 6_000).is_some());
}

#[test]
fn repeat_query_within_ttl_hits() {
    let mut cache = Cache::new(10, 3600);
    cache.insert(&noerror_response(300));
    assert!(cache.get(&question()).is_some());
    assert!(cache.get(&question()).is_some());
}

#[test]
fn noerror_ttl_is_least_answer_ttl() {
    let mut cache = Cache::new(10, 3600);
    let response = fixtures::noerror(question(), vec![a_record(500), a_record(90), a_record(300)]);
    cache.insert(&response);
    assert_eq!(cache.stored_ttl_secs(&question()), Some(90));
}

#[test]
fn hit_ages_by_whole_seconds_and_keeps_entries() {
    let mut cache = Cache::new(100, 3600);
    let stored = noerror_response(300);
    cache.insert_at(&stored, 1_000);
    let hit = cache.get_at(&question(), 1_000 + 42_999).unwrap();
    assert_eq!(hit.answers[0].ttl, 258);
    assert_eq!(hit.header, stored.header);
    assert_eq!(hit.questions, stored.questions);
    assert_eq!(hit.answers[0].rdata, stored.answers[0].rdata);
    assert_eq!(cache.len(), 1);
    assert_eq!(cache.stored_ttl_secs(&question()), Some(300));
    let again = cache.get_at(&question(), 1_000 + 43_000).unwrap();
    assert_eq!(again.answers[0].ttl, 257);
}

#[test]
fn sweep_removes_exactly_the_expired_entries() {
    let mut cache = Cache::new(100, 3600);
    let short_q = fixtures::question("short.com", RecordType::A);
    let short = fixtures::noerror(short_q.clone(), vec![fixtures::a_record("short.com", IP, 10)]);
    cache.insert_at(&short, 0);
    cache.insert_at(&noerror_response(300), 0);
    assert_eq!(cache.len(), 2);
    cache.evict_expired_at(10_000);
    assert_eq!(cache.len(), 1);
    assert!(cache.get_at(&short_q, 10_000).is_none());
    assert!(cache.get_at(&question(), 10_000).is_some());
}
