//! TTL-aware response cache with negative caching (RFC 2308) and a bound
//! on the number of entries.
//!
//! Times are milliseconds on a monotonic clock that starts when the cache is
//! made. The `*_at` methods take the time as an argument and are exact; the
//! methods without it read the clock and then call them.

use vstd::prelude::*;

use std::time::{Duration, Instant};

use hashbrown::HashMap;

use crate::proto::message::{records_view, Message, SpecMessage};
use crate::proto::question::{Question, SpecQuestion};
use crate::proto::rcode::Rcode;
use crate::proto::rdata::{RData, SpecRData};
use crate::proto::resource_record::{ResourceRecord, SpecRecord};
use crate::proto::header::Header;

verus! {

// ---------------------------------------------------------------------------
// Outside items: the hash map of hashbrown and the monotonic clock of std.
// ---------------------------------------------------------------------------

#[verifier::external_type_specification]
#[verifier::external_body]
pub struct ExInstant(Instant);


/// The time since `epoch`: `Instant::elapsed`. It depends on the clock, so
/// nothing is said of it.
#[verifier::external_body]
fn instant_elapsed(epoch: &Instant) -> Duration {
    epoch.elapsed()
}

/// `Duration::as_millis`: the whole milliseconds in `d`. Nothing is stated,
/// since `Duration` is opaque here.
#[verifier::external_body]
fn duration_as_millis(d: &Duration) -> u128 {
    d.as_millis()
}

/// `Instant::now`: the current time of the monotonic clock.
#[verifier::external_body]
fn instant_now() -> Instant {
    Instant::now()
}

// ---------------------------------------------------------------------------
// Keys
// ---------------------------------------------------------------------------

/// `c` mapped to its ASCII lower case: 'A' to 'Z' become 'a' to 'z', every
/// other character is kept.
pub open spec fn ascii_lower_char(c: char) -> char {
    if 'A' <= c && c <= 'Z' {
        ((c as u32) + 32) as char
    } else {
        c
    }
}

/// `s` with each character mapped to its ASCII lower case.
pub open spec fn ascii_lower(s: Seq<char>) -> Seq<char> {
    s.map_values(|c: char| ascii_lower_char(c))
}

/// `str::to_ascii_lowercase`, which its documentation describes as mapping
/// each ASCII letter 'A' to 'Z' to 'a' to 'z' and keeping every other
/// character.
#[verifier::external_body]
fn to_ascii_lowercase(s: &str) -> (r: String)
    ensures
        r@ == ascii_lower(s@),
{
    s.to_ascii_lowercase()
}

/// The value of a cache key: lowercased name, type number, class number.
pub type KeyView = (Seq<char>, u16, u16);

/// The key an entry is stored under. The name is kept lowercased so that
/// lookups ignore ASCII case, as DNS names do (RFC 1035 §2.3.3).
#[derive(Debug, Clone, PartialEq, Eq, Hash)]
pub struct CacheKey {
    pub name: String,
    pub qtype: u16,
    pub qclass: u16,
}

impl View for CacheKey {
    type V = KeyView;

    open spec fn view(&self) -> KeyView {
        (self.name@, self.qtype, self.qclass)
    }
}

/// The key of the question `q`.
pub open spec fn spec_key(q: SpecQuestion) -> KeyView {
    (ascii_lower(q.name), q.qtype.spec_to_u16(), q.qclass.0)
}

impl CacheKey {
    pub fn from_question(q: &Question) -> (r: CacheKey)
        ensures
            r@ == spec_key(q@),
    {
        CacheKey {
            name: to_ascii_lowercase(q.name.as_str()),
            qtype: q.qtype.to_u16(),
            qclass: q.qclass.0,
        }
    }
}

// ---------------------------------------------------------------------------
// Entries and the table that holds them
// ---------------------------------------------------------------------------

/// A cached response with the times it was stored and expires, and the
/// use count at which it was last stored or served.
pub struct CacheEntry {
    pub response: Message,
    pub inserted_at: u64,
    pub expires_at: u64,
    pub last_used: u64,
}

/// The value of a [`CacheEntry`].
pub struct EntryView {
    pub response: SpecMessage,
    pub inserted_at: u64,
    pub expires_at: u64,
    pub last_used: u64,
}

impl View for CacheEntry {
    type V = EntryView;

    open spec fn view(&self) -> EntryView {
        EntryView {
            response: self.response@,
            inserted_at: self.inserted_at,
            expires_at: self.expires_at,
            last_used: self.last_used,
        }
    }
}

/// The entries of the cache, in a hash map of hashbrown.
#[verifier::external_body]
pub struct EntryTable {
    map: HashMap<CacheKey, CacheEntry>,
}

/// What the table holds: each key's value and the value of its entry.
pub uninterp spec fn table_entries(t: EntryTable) -> Map<KeyView, EntryView>;

/// An empty table: `HashMap::new`.
#[verifier::external_body]
fn table_new() -> (r: EntryTable)
    ensures
        table_entries(r).dom() == Set::<KeyView>::empty(),
        table_entries(r).dom().finite(),
{
    EntryTable { map: HashMap::new() }
}

/// The number of entries: `HashMap::len`.
#[verifier::external_body]
fn table_len(t: &EntryTable) -> (r: usize)
    ensures
        r == table_entries(*t).len(),
{
    t.map.len()
}

/// The entry stored under `k`: `HashMap::get`.
#[verifier::external_body]
fn table_get<'a>(t: &'a EntryTable, k: &CacheKey) -> (r: Option<&'a CacheEntry>)
    ensures
        match r {
            Some(e) => table_entries(*t).contains_key(k@) && table_entries(*t)[k@] == e@,
            None => !table_entries(*t).contains_key(k@),
        },
{
    t.map.get(k)
}

/// Stores `e` under `k`, replacing any entry there: `HashMap::insert`.
#[verifier::external_body]
fn table_insert(t: &mut EntryTable, k: CacheKey, e: CacheEntry)
    ensures
        table_entries(*final(t)) == table_entries(*old(t)).insert(k@, e@),
        table_entries(*final(t)).dom().finite(),
{
    t.map.insert(k, e);
}

/// Takes out the entry stored under `k`, if any: `HashMap::remove`.
#[verifier::external_body]
fn table_remove(t: &mut EntryTable, k: &CacheKey) -> (r: Option<CacheEntry>)
    ensures
        table_entries(*final(t)) == table_entries(*old(t)).remove(k@),
        table_entries(*final(t)).dom().finite(),
        match r {
            Some(e) => table_entries(*old(t)).contains_key(k@) && table_entries(*old(t))[k@] == e@,
            None => !table_entries(*old(t)).contains_key(k@),
        },
{
    t.map.remove(k)
}

/// Whether `e` is still live at `now`.
pub fn entry_is_live(e: &CacheEntry, now: u64) -> (r: bool)
    ensures
        r == (now < e.expires_at),
{
    now < e.expires_at
}

/// The entries of `m` that are live at `now`.
pub open spec fn live_entries(m: Map<KeyView, EntryView>, now: u64) -> Map<KeyView, EntryView> {
    m.restrict(m.dom().filter(|k: KeyView| now < m[k].expires_at))
}

/// The keys of the entries of `m` that have expired at `now`.
pub open spec fn expired_keys(m: Map<KeyView, EntryView>, now: u64) -> Set<KeyView> {
    m.dom().filter(|k: KeyView| m[k].expires_at <= now)
}

/// A sweep at `now` of finitely many entries leaves as many entries as
/// there were, less those that had expired.
proof fn lemma_sweep_count(m: Map<KeyView, EntryView>, now: u64)
    requires
        m.dom().finite(),
    ensures
        live_entries(m, now).dom().finite(),
        live_entries(m, now).len() == m.len() - expired_keys(m, now).len(),
{
    let live = m.dom().filter(|k: KeyView| now < m[k].expires_at);
    let gone = expired_keys(m, now);
    assert(live_entries(m, now).dom() =~= live);
    m.dom().lemma_len_filter(|k: KeyView| now < m[k].expires_at);
    m.dom().lemma_len_filter(|k: KeyView| m[k].expires_at <= now);
    assert(live.disjoint(gone));
    assert(live + gone =~= m.dom());
    vstd::set_lib::lemma_set_disjoint_lens(live, gone);
}

/// Keeps the entries live at `now`: `HashMap::retain` with [`entry_is_live`].
#[verifier::external_body]
fn table_retain_live(t: &mut EntryTable, now: u64)
    ensures
        table_entries(*final(t)) == live_entries(table_entries(*old(t)), now),
        table_entries(*final(t)).dom().finite(),
{
    t.map.retain(|_, e| entry_is_live(e, now));
}

/// Each key with the use count at which its entry was last used, in the
/// order `HashMap::iter` visits them.
#[verifier::external_body]
fn table_usage(t: &EntryTable) -> (r: Vec<(CacheKey, u64)>)
    ensures
        r@.len() == table_entries(*t).len(),
        forall|i: int|
            0 <= i < r@.len() ==> table_entries(*t).contains_key(#[trigger] r@[i].0@)
                && table_entries(*t)[r@[i].0@].last_used == r@[i].1,
        forall|k: KeyView|
            #[trigger] table_entries(*t).contains_key(k) ==> exists|i: int|
                0 <= i < r@.len() && #[trigger] r@[i].0@ == k,
{
    t.map.iter().map(|(k, e)| (k.clone(), e.last_used)).collect()
}

// ---------------------------------------------------------------------------
// What is cached, and for how long
// ---------------------------------------------------------------------------

/// The smallest TTL of the records `rs`.
pub open spec fn min_ttl(rs: Seq<SpecRecord>) -> u32
    decreases rs.len(),
{
    if rs.len() <= 1 {
        if rs.len() == 1 {
            rs[0].ttl
        } else {
            0
        }
    } else {
        let m = min_ttl(rs.drop_last());
        if rs.last().ttl < m {
            rs.last().ttl
        } else {
            m
        }
    }
}

/// `min(TTL, MINIMUM)` of the first SOA record of `rs` (RFC 2308 §5), if any.
pub open spec fn soa_negative_ttl(rs: Seq<SpecRecord>) -> Option<u32>
    decreases rs.len(),
{
    if rs.len() == 0 {
        None
    } else {
        match rs[0].rdata {
            SpecRData::SOA { minimum, .. } => Some(
                if rs[0].ttl < minimum {
                    rs[0].ttl
                } else {
                    minimum
                },
            ),
            _ => soa_negative_ttl(rs.drop_first()),
        }
    }
}

/// `t` clamped to at most `cap`.
pub open spec fn clamp_ttl(t: Option<u32>, cap: u32) -> Option<u32> {
    match t {
        Some(v) => Some(
            if v < cap {
                v
            } else {
                cap
            },
        ),
        None => None,
    }
}

/// The TTL that `m` is cached for, or `None` when it is not cached: it
/// must hold one question, not be truncated, and be NOERROR (TTL the least
/// answer TTL, or for NODATA the negative TTL of its SOA) or NXDOMAIN
/// (negative TTL of its SOA), negative TTLs clamped to `max_negative_ttl`;
/// a TTL of zero is not cached.
pub open spec fn cacheable_ttl(m: SpecMessage, max_negative_ttl: u32) -> Option<u32> {
    if m.questions.len() != 1 {
        None
    } else if m.header.flag(Header::TC) {
        None
    } else {
        let effective = match m.header.spec_rcode() {
            Ok(Rcode::NoError) => if m.answers.len() == 0 {
                clamp_ttl(soa_negative_ttl(m.authority), max_negative_ttl)
            } else {
                Some(min_ttl(m.answers))
            },
            Ok(Rcode::NXDomain) => clamp_ttl(soa_negative_ttl(m.authority), max_negative_ttl),
            _ => None,
        };
        match effective {
            Some(t) => if t == 0 {
                None
            } else {
                Some(t)
            },
            None => None,
        }
    }
}

/// The time `ttl` seconds after `now`, saturating at the end of the clock.
pub open spec fn expiry(now: u64, ttl: u32) -> u64 {
    if now + ttl * 1000 > u64::MAX {
        u64::MAX
    } else {
        (now + ttl * 1000) as u64
    }
}

/// The entry for `m` stored at `now` for `ttl` seconds, at use count `stamp`.
pub open spec fn new_entry(m: SpecMessage, now: u64, ttl: u32, stamp: u64) -> EntryView {
    EntryView { response: m, inserted_at: now, expires_at: expiry(now, ttl), last_used: stamp }
}

/// The use count after `tick`, saturating.
pub open spec fn bump(tick: u64) -> u64 {
    if tick == u64::MAX {
        tick
    } else {
        (tick + 1) as u64
    }
}

/// `k` is an entry of `m` used least recently.
pub open spec fn least_recently_used(m: Map<KeyView, EntryView>, k: KeyView) -> bool {
    &&& m.contains_key(k)
    &&& forall|k2: KeyView| #[trigger] m.contains_key(k2) ==> m[k].last_used <= m[k2].last_used
}

/// `after` is `before` less one of its least recently used entries.
pub open spec fn evicts_one(before: Map<KeyView, EntryView>, after: Map<KeyView, EntryView>) -> bool {
    exists|k: KeyView| #[trigger] least_recently_used(before, k) && after == before.remove(k)
}

/// What inserting `m` at `now`, at use count `stamp`, makes of the entries
/// `before`, in a cache of `capacity` entries at most whose negative TTLs
/// are clamped to `max_negative_ttl`: nothing changes unless `m` is
/// cacheable; otherwise, when the cache is full the least recently used
/// entry is evicted first, and then `m` is stored under the key of its
/// question.
pub open spec fn insert_outcome(
    before: Map<KeyView, EntryView>,
    after: Map<KeyView, EntryView>,
    m: SpecMessage,
    now: u64,
    stamp: u64,
    capacity: usize,
    max_negative_ttl: u32,
) -> bool {
    match cacheable_ttl(m, max_negative_ttl) {
        None => after == before,
        Some(ttl) => {
            let k = spec_key(m.questions[0]);
            let e = new_entry(m, now, ttl, stamp);
            &&& (before.len() < capacity || before.len() == 0) ==> after == before.insert(k, e)
            &&& (before.len() >= capacity && before.len() > 0) ==> exists|mid: Map<KeyView, EntryView>|
                evicts_one(before, mid) && after == #[trigger] mid.insert(k, e)
        },
    }
}

/// The entries after a lookup of `q` at `now` at use count `stamp`: a hit
/// marks the entry as used at `stamp`; a miss changes nothing.
pub open spec fn touched(m: Map<KeyView, EntryView>, q: SpecQuestion, now: u64, stamp: u64) -> Map<
    KeyView,
    EntryView,
> {
    let k = spec_key(q);
    if lookup(m, q, now) is Some {
        m.insert(k, EntryView { last_used: stamp, ..m[k] })
    } else {
        m
    }
}

// ---------------------------------------------------------------------------
// What a lookup gives
// ---------------------------------------------------------------------------

/// Whole seconds from `inserted_at` to `now`, at most `u32::MAX`.
pub open spec fn elapsed_secs(inserted_at: u64, now: u64) -> u32 {
    if now <= inserted_at {
        0
    } else if (now - inserted_at) / 1000 > u32::MAX {
        u32::MAX
    } else {
        ((now - inserted_at) / 1000) as u32
    }
}

/// `rr` with its TTL lowered by `secs`, not below zero.
pub open spec fn aged_record(rr: SpecRecord, secs: u32) -> SpecRecord {
    SpecRecord {
        name: rr.name,
        class: rr.class,
        ttl: if rr.ttl < secs {
            0
        } else {
            (rr.ttl - secs) as u32
        },
        rdata: rr.rdata,
    }
}

/// The records `rs` aged by `secs`.
pub open spec fn aged_records(rs: Seq<SpecRecord>, secs: u32) -> Seq<SpecRecord> {
    rs.map_values(|rr: SpecRecord| aged_record(rr, secs))
}

/// `m` with the TTLs of its three record sections aged by `secs`.
pub open spec fn aged_message(m: SpecMessage, secs: u32) -> SpecMessage {
    SpecMessage {
        header: m.header,
        questions: m.questions,
        answers: aged_records(m.answers, secs),
        authority: aged_records(m.authority, secs),
        additional: aged_records(m.additional, secs),
    }
}

/// What a lookup of `q` at `now` gives from the entries `m`: nothing on a
/// miss or once the entry has expired, else the stored response with its
/// TTLs lowered by the whole seconds it has been stored.
pub open spec fn lookup(m: Map<KeyView, EntryView>, q: SpecQuestion, now: u64) -> Option<SpecMessage> {
    let k = spec_key(q);
    if !m.contains_key(k) {
        None
    } else if now >= m[k].expires_at {
        None
    } else {
        Some(aged_message(m[k].response, elapsed_secs(m[k].inserted_at, now)))
    }
}

/// The value of an optional message.
pub open spec fn opt_view(r: Option<Message>) -> Option<SpecMessage> {
    match r {
        Some(m) => Some(m@),
        None => None,
    }
}


// ---------------------------------------------------------------------------
// Helpers that compute the specifications above
// ---------------------------------------------------------------------------

/// The least TTL of a non-empty list of records.
fn min_ttl_of(rs: &Vec<ResourceRecord>) -> (r: u32)
    requires
        rs@.len() >= 1,
    ensures
        r == min_ttl(records_view(rs@)),
{
    let ghost all = records_view(rs@);
    let mut m: u32 = rs[0].ttl;
    let mut i: usize = 1;
    assert(all.subrange(0, 1).len() == 1);
    while i < rs.len()
        invariant
            1 <= i <= rs@.len(),
            all == records_view(rs@),
            m == min_ttl(all.subrange(0, i as int)),
        decreases rs.len() - i,
    {
        assert(all.subrange(0, i + 1).drop_last() =~= all.subrange(0, i as int));
        assert(all.subrange(0, i + 1).last() == rs@[i as int]@);
        if rs[i].ttl < m {
            m = rs[i].ttl;
        }
        i = i + 1;
    }
    assert(all.subrange(0, i as int) =~= all);
    m
}

/// The negative TTL given by the first SOA record of `rs`, if any.
fn soa_negative_ttl_of(rs: &Vec<ResourceRecord>) -> (r: Option<u32>)
    ensures
        r == soa_negative_ttl(records_view(rs@)),
{
    let ghost all = records_view(rs@);
    let n = rs.len();
    let mut i: usize = 0;
    assert(all.subrange(0, n as int) =~= all);
    while i < n
        invariant
            0 <= i <= n,
            n == rs@.len(),
            all == records_view(rs@),
            soa_negative_ttl(all) == soa_negative_ttl(all.subrange(i as int, n as int)),
        decreases n - i,
    {
        let ghost rest = all.subrange(i as int, n as int);
        assert(rest[0] == rs@[i as int]@);
        match &rs[i].rdata {
            RData::SOA { minimum, .. } => {
                let t = rs[i].ttl;
                return Some(if t < *minimum { t } else { *minimum });
            },
            _ => {},
        }
        assert(rest.drop_first() =~= all.subrange(i + 1, n as int));
        i = i + 1;
    }
    assert(all.subrange(i as int, n as int).len() == 0);
    None
}

/// `t` clamped to at most `cap`.
fn clamp_ttl_of(t: Option<u32>, cap: u32) -> (r: Option<u32>)
    ensures
        r == clamp_ttl(t, cap),
{
    match t {
        Some(v) => Some(if v < cap { v } else { cap }),
        None => None,
    }
}

/// The TTL that `m` is cached for, if it is cacheable.
pub fn cacheable_ttl_of(m: &Message, max_negative_ttl: u32) -> (r: Option<u32>)
    ensures
        r == cacheable_ttl(m@, max_negative_ttl),
{
    if m.questions.len() != 1 {
        return None;
    }
    if m.header.is_truncated() {
        return None;
    }
    let effective = match m.header.rcode() {
        Ok(Rcode::NoError) => if m.answers.len() == 0 {
            clamp_ttl_of(soa_negative_ttl_of(&m.authority), max_negative_ttl)
        } else {
            Some(min_ttl_of(&m.answers))
        },
        Ok(Rcode::NXDomain) => clamp_ttl_of(soa_negative_ttl_of(&m.authority), max_negative_ttl),
        _ => None,
    };
    match effective {
        Some(t) => if t == 0 {
            None
        } else {
            Some(t)
        },
        None => None,
    }
}

/// Whole seconds from `inserted_at` to `now`, at most `u32::MAX`.
fn elapsed_secs_of(inserted_at: u64, now: u64) -> (r: u32)
    ensures
        r == elapsed_secs(inserted_at, now),
{
    if now <= inserted_at {
        0
    } else {
        let s: u64 = (now - inserted_at) / 1000;
        if s > 0xFFFF_FFFFu64 {
            0xFFFF_FFFFu32
        } else {
            s as u32
        }
    }
}

/// Copies of the records `rs` with their TTLs lowered by `secs`.
fn aged_copies(rs: &Vec<ResourceRecord>, secs: u32) -> (r: Vec<ResourceRecord>)
    ensures
        records_view(r@) == aged_records(records_view(rs@), secs),
{
    let mut out: Vec<ResourceRecord> = Vec::new();
    let mut i: usize = 0;
    while i < rs.len()
        invariant
            i <= rs@.len(),
            records_view(out@) == aged_records(records_view(rs@.subrange(0, i as int)), secs),
        decreases rs.len() - i,
    {
        let ghost prev = out@;
        let rr = ResourceRecord {
            name: rs[i].name.clone(),
            class: rs[i].class,
            ttl: rs[i].ttl.saturating_sub(secs),
            rdata: rs[i].rdata.duplicate(),
        };
        out.push(rr);
        assert(records_view(out@) =~= records_view(prev).push(aged_record(rs@[i as int]@, secs)));
        assert(aged_records(records_view(rs@.subrange(0, i + 1)), secs) =~= aged_records(
            records_view(rs@.subrange(0, i as int)),
            secs,
        ).push(aged_record(rs@[i as int]@, secs)));
        i = i + 1;
    }
    assert(rs@.subrange(0, i as int) =~= rs@);
    out
}

/// A copy of `m` with the TTLs of its record sections lowered by `secs`.
fn aged_copy(m: &Message, secs: u32) -> (r: Message)
    ensures
        r@ == aged_message(m@, secs),
{
    Message {
        header: m.header,
        questions: crate::proto::message::copy_questions(&m.questions),
        answers: aged_copies(&m.answers, secs),
        authority: aged_copies(&m.authority, secs),
        additional: aged_copies(&m.additional, secs),
    }
}

// ---------------------------------------------------------------------------
// The cache
// ---------------------------------------------------------------------------

/// Removes one of the least recently used entries of `t`. Returns false when
/// `t` is empty.
fn evict_least_recent(t: &mut EntryTable) -> (r: bool)
    requires
        table_entries(*old(t)).dom().finite(),
    ensures
        table_entries(*old(t)).len() == 0 ==> !r && table_entries(*final(t)) == table_entries(*old(t)),
        table_entries(*old(t)).len() > 0 ==> r && evicts_one(table_entries(*old(t)), table_entries(*final(t))),
        table_entries(*final(t)).dom().finite(),
{
    let list = table_usage(t);
    let ghost m = table_entries(*t);
    if list.len() == 0 {
        return false;
    }
    let n = list.len();
    let mut i: usize = 1;
    let mut idx: usize = 0;
    while i < n
        invariant
            1 <= i <= n,
            n == list@.len(),
            idx < i,
            forall|j: int| 0 <= j < i ==> list@[idx as int].1 <= (#[trigger] list@[j]).1,
        decreases n - i,
    {
        if list[i].1 < list[idx].1 {
            idx = i;
        }
        i = i + 1;
    }
    let ghost k = list@[idx as int].0@;
    assert(m.contains_key(k));
    assert forall|k2: KeyView| #[trigger] m.contains_key(k2) implies m[k].last_used <= m[k2].last_used by {
        let j = choose|j: int| 0 <= j < list@.len() && #[trigger] list@[j].0@ == k2;
        assert(list@[j].1 == m[k2].last_used);
    }
    assert(least_recently_used(m, k));
    let _ = table_remove(t, &list[idx].0);
    assert(evicts_one(m, table_entries(*t)));
    true
}

/// A bounded, TTL-aware cache of DNS responses keyed by question, evicting
/// the least recently used entry when full.
pub struct Cache {
    table: EntryTable,
    capacity: usize,
    max_negative_ttl: u32,
    epoch: Instant,
    tick: u64,
    clock_floor: u64,
}

impl Cache {
    /// A cache holds finitely many entries.
    #[verifier::type_invariant]
    closed spec fn finite_entries(&self) -> bool {
        table_entries(self.table).dom().finite()
    }

    /// The entries held, by key.
    pub closed spec fn entries(&self) -> Map<KeyView, EntryView> {
        table_entries(self.table)
    }

    /// The most entries the cache keeps.
    pub closed spec fn spec_capacity(&self) -> usize {
        self.capacity
    }

    /// The clamp on negative TTLs, in seconds.
    pub closed spec fn spec_max_negative_ttl(&self) -> u32 {
        self.max_negative_ttl
    }

    /// The use count that the next insert or lookup is stamped with.
    pub closed spec fn spec_tick(&self) -> u64 {
        self.tick
    }

    /// The latest time read from the clock; readings never go below it.
    pub closed spec fn spec_clock_floor(&self) -> u64 {
        self.clock_floor
    }

    /// An empty cache of at most `capacity` entries whose negative TTLs are
    /// clamped to `max_negative_ttl` seconds.
    pub fn new(capacity: usize, max_negative_ttl: u32) -> (r: Cache)
        ensures
            r.entries().dom() == Set::<KeyView>::empty(),
            r.entries().dom().finite(),
            r.spec_capacity() == capacity,
            r.spec_max_negative_ttl() == max_negative_ttl,
            r.spec_tick() == 0,
            r.spec_clock_floor() == 0,
    {
        let table = table_new();
        assert(table_entries(table).dom() =~= Set::<KeyView>::empty());
        Cache { table, capacity, max_negative_ttl, epoch: instant_now(), tick: 0, clock_floor: 0 }
    }

    /// The next use count.
    fn next_tick(&mut self) -> (r: u64)
        ensures
            r == old(self).spec_tick(),
            final(self).spec_tick() == bump(old(self).spec_tick()),
            final(self).entries() == old(self).entries(),
            final(self).spec_capacity() == old(self).spec_capacity(),
            final(self).spec_max_negative_ttl() == old(self).spec_max_negative_ttl(),
            final(self).spec_clock_floor() == old(self).spec_clock_floor(),
    {
        proof {
            use_type_invariant(&*self);
        }
        let t = self.tick;
        self.tick = self.tick.saturating_add(1);
        t
    }

    /// The response cached for `question`, with TTLs lowered by the time it
    /// has been stored, or `None` on a miss or once it has expired at `now`.
    /// A hit marks the entry as the most recently used.
    pub fn get_at(&mut self, question: &Question, now: u64) -> (r: Option<Message>)
        ensures
            opt_view(r) == lookup(old(self).entries(), question@, now),
            final(self).entries() == touched(old(self).entries(), question@, now, old(self).spec_tick()),
            final(self).spec_tick() == bump(old(self).spec_tick()),
            final(self).entries().dom().finite(),
            final(self).spec_capacity() == old(self).spec_capacity(),
            final(self).spec_max_negative_ttl() == old(self).spec_max_negative_ttl(),
            final(self).spec_clock_floor() == old(self).spec_clock_floor(),
    {
        let stamp = self.next_tick();
        let ghost m = self.entries();
        let key = CacheKey::from_question(question);
        let mut t = table_new();
        std::mem::swap(&mut t, &mut self.table);
        let r = match table_remove(&mut t, &key) {
            None => {
                assert(table_entries(t) =~= m);
                None
            },
            Some(entry) => {
                if now >= entry.expires_at {
                    table_insert(&mut t, key, entry);
                    assert(table_entries(t) =~= m);
                    None
                } else {
                    let secs = elapsed_secs_of(entry.inserted_at, now);
                    let reply = aged_copy(&entry.response, secs);
                    let mut used = entry;
                    used.last_used = stamp;
                    table_insert(&mut t, key, used);
                    assert(table_entries(t) =~= m.insert(
                        spec_key(question@),
                        EntryView { last_used: stamp, ..m[spec_key(question@)] },
                    ));
                    Some(reply)
                }
            },
        };
        self.table = t;
        r
    }

    /// Stores `response` at `now` if it is cacheable, evicting the least
    /// recently used entry first when the cache is full.
    pub fn insert_at(&mut self, response: &Message, now: u64)
        ensures
            insert_outcome(
                old(self).entries(),
                final(self).entries(),
                response@,
                now,
                old(self).spec_tick(),
                old(self).spec_capacity(),
                old(self).spec_max_negative_ttl(),
            ),
            final(self).spec_tick() == bump(old(self).spec_tick()),
            final(self).entries().dom().finite(),
            final(self).spec_capacity() == old(self).spec_capacity(),
            final(self).spec_max_negative_ttl() == old(self).spec_max_negative_ttl(),
            final(self).spec_clock_floor() == old(self).spec_clock_floor(),
    {
        proof {
            use_type_invariant(&*self);
        }
        let stamp = self.next_tick();
        let ttl = match cacheable_ttl_of(response, self.max_negative_ttl) {
            None => return,
            Some(t) => t,
        };
        let key = CacheKey::from_question(&response.questions[0]);
        let ttl_ms: u64 = (ttl as u64) * 1000;
        let entry = CacheEntry {
            response: response.duplicate(),
            inserted_at: now,
            expires_at: now.saturating_add(ttl_ms),
            last_used: stamp,
        };
        let ghost e = entry@;
        assert(e == new_entry(response@, now, ttl, stamp));
        let mut t = table_new();
        std::mem::swap(&mut t, &mut self.table);
        if table_len(&t) >= self.capacity {
            evict_least_recent(&mut t);
        }
        let ghost mid = table_entries(t);
        table_insert(&mut t, key, entry);
        assert(table_entries(t) == mid.insert(spec_key(response@.questions[0]), e));
        self.table = t;
    }

    /// Removes every entry that has expired at `now`.
    pub fn evict_expired_at(&mut self, now: u64)
        ensures
            final(self).entries() == live_entries(old(self).entries(), now),
            final(self).entries().dom().finite(),
            final(self).entries().len() == old(self).entries().len() - expired_keys(
                old(self).entries(),
                now,
            ).len(),
            final(self).spec_capacity() == old(self).spec_capacity(),
            final(self).spec_max_negative_ttl() == old(self).spec_max_negative_ttl(),
            final(self).spec_tick() == old(self).spec_tick(),
            final(self).spec_clock_floor() == old(self).spec_clock_floor(),
    {
        proof {
            use_type_invariant(&*self);
            lemma_sweep_count(self.entries(), now);
        }
        let mut t = table_new();
        std::mem::swap(&mut t, &mut self.table);
        table_retain_live(&mut t, now);
        self.table = t;
    }

    /// Milliseconds since the cache was made, never less than an earlier
    /// reading.
    fn now_millis(&mut self) -> (r: u64)
        ensures
            r >= old(self).spec_clock_floor(),
            final(self).spec_clock_floor() == r,
            final(self).entries() == old(self).entries(),
            final(self).spec_tick() == old(self).spec_tick(),
            final(self).spec_capacity() == old(self).spec_capacity(),
            final(self).spec_max_negative_ttl() == old(self).spec_max_negative_ttl(),
    {
        proof {
            use_type_invariant(&*self);
        }
        let d = instant_elapsed(&self.epoch);
        let ms = duration_as_millis(&d);
        let reading: u64 = if ms > 0xFFFF_FFFF_FFFF_FFFFu128 {
            0xFFFF_FFFF_FFFF_FFFFu64
        } else {
            ms as u64
        };
        let now = if reading < self.clock_floor {
            self.clock_floor
        } else {
            reading
        };
        self.clock_floor = now;
        now
    }

    /// [`Cache::get_at`] at the current time, which is no earlier than any
    /// time the cache read before.
    pub fn get(&mut self, question: &Question) -> (r: Option<Message>)
        ensures
            exists|now: u64|
                #![trigger lookup(old(self).entries(), question@, now)]
                {
                    &&& now >= old(self).spec_clock_floor()
                    &&& final(self).spec_clock_floor() == now
                    &&& opt_view(r) == lookup(old(self).entries(), question@, now)
                    &&& final(self).entries() == touched(
                        old(self).entries(),
                        question@,
                        now,
                        old(self).spec_tick(),
                    )
                },
            final(self).spec_tick() == bump(old(self).spec_tick()),
            final(self).entries().dom().finite(),
            final(self).spec_capacity() == old(self).spec_capacity(),
            final(self).spec_max_negative_ttl() == old(self).spec_max_negative_ttl(),
    {
        let now = self.now_millis();
        self.get_at(question, now)
    }

    /// [`Cache::insert_at`] at the current time, which is no earlier than
    /// any time the cache read before.
    pub fn insert(&mut self, response: &Message)
        ensures
            exists|now: u64|
                #![trigger insert_outcome(old(self).entries(), final(self).entries(), response@, now, old(self).spec_tick(), old(self).spec_capacity(), old(self).spec_max_negative_ttl())]
                {
                    &&& now >= old(self).spec_clock_floor()
                    &&& final(self).spec_clock_floor() == now
                    &&& insert_outcome(
                        old(self).entries(),
                        final(self).entries(),
                        response@,
                        now,
                        old(self).spec_tick(),
                        old(self).spec_capacity(),
                        old(self).spec_max_negative_ttl(),
                    )
                },
            final(self).spec_tick() == bump(old(self).spec_tick()),
            final(self).entries().dom().finite(),
            final(self).spec_capacity() == old(self).spec_capacity(),
            final(self).spec_max_negative_ttl() == old(self).spec_max_negative_ttl(),
    {
        let now = self.now_millis();
        self.insert_at(response, now);
    }

    /// [`Cache::evict_expired_at`] at the current time, which is no earlier
    /// than any time the cache read before.
    pub fn evict_expired(&mut self)
        ensures
            exists|now: u64|
                #![trigger live_entries(old(self).entries(), now)]
                {
                    &&& now >= old(self).spec_clock_floor()
                    &&& final(self).spec_clock_floor() == now
                    &&& final(self).entries() == live_entries(old(self).entries(), now)
                    &&& final(self).entries().len() == old(self).entries().len() - expired_keys(
                        old(self).entries(),
                        now,
                    ).len()
                },
            final(self).spec_tick() == old(self).spec_tick(),
            final(self).entries().dom().finite(),
            final(self).spec_capacity() == old(self).spec_capacity(),
            final(self).spec_max_negative_ttl() == old(self).spec_max_negative_ttl(),
    {
        let now = self.now_millis();
        self.evict_expired_at(now);
    }

    /// The number of entries held.
    pub fn len(&self) -> (r: usize)
        ensures
            r == self.entries().len(),
            self.entries().dom().finite(),
    {
        proof {
            use_type_invariant(self);
        }
        table_len(&self.table)
    }

    /// Whether no entry is held.
    pub fn is_empty(&self) -> (r: bool)
        ensures
            r == (self.entries().len() == 0),
    {
        table_len(&self.table) == 0
    }

    /// The whole seconds an entry for `question` was stored for, if there is one.
    pub fn stored_ttl_secs(&self, question: &Question) -> (r: Option<u64>)
        ensures
            self.entries().contains_key(spec_key(question@)) ==> r == Some(
                stored_secs(self.entries()[spec_key(question@)]),
            ),
            !self.entries().contains_key(spec_key(question@)) ==> r is None,
    {
        let key = CacheKey::from_question(question);
        match table_get(&self.table, &key) {
            None => None,
            Some(e) => {
                if e.expires_at >= e.inserted_at {
                    Some((e.expires_at - e.inserted_at) / 1000)
                } else {
                    Some(0)
                }
            },
        }
    }
}

/// The whole seconds from an entry's storing to its expiry.
pub open spec fn stored_secs(e: EntryView) -> u64 {
    if e.expires_at >= e.inserted_at {
        ((e.expires_at - e.inserted_at) / 1000) as u64
    } else {
        0
    }
}


// ---------------------------------------------------------------------------
// Laws
// ---------------------------------------------------------------------------

/// A cacheable response stored at `now` is what a lookup of its question
/// gives until it expires, its TTLs lowered by the whole seconds since it
/// was stored; the question may be asked in any letter case.
pub proof fn lemma_lookup_after_insert(
    before: Map<KeyView, EntryView>,
    after: Map<KeyView, EntryView>,
    m: SpecMessage,
    now: u64,
    stamp: u64,
    capacity: usize,
    max_negative_ttl: u32,
    q: SpecQuestion,
    later: u64,
)
    requires
        insert_outcome(before, after, m, now, stamp, capacity, max_negative_ttl),
        cacheable_ttl(m, max_negative_ttl) is Some,
        spec_key(q) == spec_key(m.questions[0]),
        now <= later < expiry(now, cacheable_ttl(m, max_negative_ttl)->Some_0),
    ensures
        lookup(after, q, later) == Some(aged_message(m, elapsed_secs(now, later))),
{
    let ttl = cacheable_ttl(m, max_negative_ttl)->Some_0;
    let k = spec_key(m.questions[0]);
    let e = new_entry(m, now, ttl, stamp);
    if before.len() >= capacity && before.len() > 0 {
        let mid = choose|mid: Map<KeyView, EntryView>|
            evicts_one(before, mid) && after == #[trigger] mid.insert(k, e);
        assert(after[k] == e);
    } else {
        assert(after[k] == e);
    }
}

/// A response stored by an insert at `now` is what a lookup gives `secs`
/// whole seconds later, for every `secs` below its TTL: every record TTL
/// lowered by exactly `secs` (not below zero), and the header, the
/// questions and the record data as stored. The lookup keeps every entry,
/// changing only when each was last used.
pub proof fn lemma_hit_after_whole_seconds(
    before: Map<KeyView, EntryView>,
    after: Map<KeyView, EntryView>,
    m: SpecMessage,
    now: u64,
    stamp: u64,
    capacity: usize,
    max_negative_ttl: u32,
    q: SpecQuestion,
    secs: u32,
    later: u64,
    use_stamp: u64,
)
    requires
        insert_outcome(before, after, m, now, stamp, capacity, max_negative_ttl),
        cacheable_ttl(m, max_negative_ttl) is Some,
        secs < cacheable_ttl(m, max_negative_ttl)->Some_0,
        spec_key(q) == spec_key(m.questions[0]),
        now + secs * 1000 <= later < now + (secs + 1) * 1000,
        later < u64::MAX,
    ensures
        lookup(after, q, later) == Some(aged_message(m, secs)),
        touched(after, q, later, use_stamp).dom() == after.dom(),
        forall|k: KeyView|
            #[trigger] touched(after, q, later, use_stamp).contains_key(k) ==> {
                let e = touched(after, q, later, use_stamp)[k];
                &&& e.response == after[k].response
                &&& e.inserted_at == after[k].inserted_at
                &&& e.expires_at == after[k].expires_at
            },
{
    let ttl = cacheable_ttl(m, max_negative_ttl)->Some_0;
    assert(later < expiry(now, ttl)) by (nonlinear_arith)
        requires
            later < now + (secs + 1) * 1000,
            secs < ttl,
            later < u64::MAX,
            expiry(now, ttl) == if now + ttl * 1000 > u64::MAX {
                u64::MAX
            } else {
                (now + ttl * 1000) as u64
            },
    ;
    let d = later - now;
    assert(d / 1000 == secs) by (nonlinear_arith)
        requires
            secs * 1000 <= d < (secs + 1) * 1000,
    ;
    assert(elapsed_secs(now, later) == secs);
    lemma_lookup_after_insert(before, after, m, now, stamp, capacity, max_negative_ttl, q, later);
    lemma_lookup_keeps_entries(after, q, later, use_stamp, later);
}

/// A lookup that hits leaves the response stored as it was: the same
/// question asked again, still before expiry, is answered from the same
/// entry, and no entry appears or goes.
pub proof fn lemma_lookup_keeps_entries(m: Map<KeyView, EntryView>, q: SpecQuestion, now: u64, stamp: u64, later: u64)
    ensures
        touched(m, q, now, stamp).dom() == m.dom(),
        lookup(m, q, now) is Some && now <= later ==> lookup(touched(m, q, now, stamp), q, later)
            == lookup(m, q, later),
{
    let k = spec_key(q);
    if lookup(m, q, now) is Some {
        assert(touched(m, q, now, stamp).dom() =~= m.dom());
    }
}

/// Eviction is least recently used first: of two entries, the one used more
/// recently is not the one evicted.
pub proof fn lemma_evicts_least_recent(
    before: Map<KeyView, EntryView>,
    after: Map<KeyView, EntryView>,
    k1: KeyView,
    k2: KeyView,
)
    requires
        evicts_one(before, after),
        before.contains_key(k1),
        before.contains_key(k2),
        before[k1].last_used < before[k2].last_used,
    ensures
        after.contains_key(k2),
        after[k2] == before[k2],
{
    let k = choose|k: KeyView| #[trigger] least_recently_used(before, k) && after == before.remove(k);
    assert(before[k].last_used <= before[k1].last_used);
}

/// A lookup ignores the ASCII case of the name asked for.
pub proof fn lemma_lookup_ignores_case(
    m: Map<KeyView, EntryView>,
    q1: SpecQuestion,
    q2: SpecQuestion,
    now: u64,
)
    requires
        q1.qtype == q2.qtype,
        q1.qclass == q2.qclass,
        ascii_lower(q1.name) == ascii_lower(q2.name),
    ensures
        lookup(m, q1, now) == lookup(m, q2, now),
{
}

/// An entry is never served once it has expired.
pub proof fn lemma_expired_not_served(m: Map<KeyView, EntryView>, q: SpecQuestion, now: u64)
    requires
        m.contains_key(spec_key(q)),
        m[spec_key(q)].expires_at <= now,
    ensures
        lookup(m, q, now) is None,
{
}

/// The most entries a cache of `capacity` holds: an insert into an empty
/// cache always stores its entry.
pub open spec fn entry_bound(capacity: usize) -> int {
    if capacity == 0 {
        1
    } else {
        capacity as int
    }
}

/// An insert keeps the number of entries within the bound; a lookup does
/// not change it.
pub proof fn lemma_insert_keeps_bound(
    before: Map<KeyView, EntryView>,
    after: Map<KeyView, EntryView>,
    m: SpecMessage,
    now: u64,
    stamp: u64,
    capacity: usize,
    max_negative_ttl: u32,
)
    requires
        insert_outcome(before, after, m, now, stamp, capacity, max_negative_ttl),
        before.dom().finite(),
        before.len() <= entry_bound(capacity),
    ensures
        after.dom().finite(),
        after.len() <= entry_bound(capacity),
{
    if let Some(ttl) = cacheable_ttl(m, max_negative_ttl) {
        let k = spec_key(m.questions[0]);
        let e = new_entry(m, now, ttl, stamp);
        if before.len() >= capacity && before.len() > 0 {
            let mid = choose|mid: Map<KeyView, EntryView>|
                evicts_one(before, mid) && after == #[trigger] mid.insert(k, e);
            let kk = choose|kk: KeyView| #[trigger] least_recently_used(before, kk) && mid == before.remove(kk);
            assert(mid.dom() =~= before.dom().remove(kk));
            assert(mid.dom().len() == before.dom().len() - 1);
            assert(after.dom() =~= mid.dom().insert(k));
        } else {
            assert(after.dom() =~= before.dom().insert(k));
        }
    }
}

/// After a sweep at `now` every entry left is live, and every entry that
/// was live is left as it was.
pub proof fn lemma_sweep_keeps_live(before: Map<KeyView, EntryView>, now: u64)
    ensures
        forall|k: KeyView| #[trigger] live_entries(before, now).contains_key(k) ==> now
            < live_entries(before, now)[k].expires_at,
        forall|k: KeyView|
            #[trigger] before.contains_key(k) && now < before[k].expires_at ==> live_entries(
                before,
                now,
            ).contains_key(k) && live_entries(before, now)[k] == before[k],
{
}

/// The key of a question determines its record type and class: questions
/// of different types or classes never share a cache entry.
pub proof fn lemma_key_keeps_type_and_class(q1: SpecQuestion, q2: SpecQuestion)
    requires
        spec_key(q1) == spec_key(q2),
    ensures
        q1.qtype == q2.qtype,
        q1.qclass == q2.qclass,
{
}

/// The TTL a NOERROR answer is cached for is the least TTL of its answer
/// records: no greater than any of them, and equal to one of them.
pub proof fn lemma_min_ttl_is_least(rs: Seq<SpecRecord>)
    requires
        rs.len() >= 1,
    ensures
        forall|i: int| 0 <= i < rs.len() ==> min_ttl(rs) <= #[trigger] rs[i].ttl,
        exists|i: int| 0 <= i < rs.len() && min_ttl(rs) == #[trigger] rs[i].ttl,
    decreases rs.len(),
{
    if rs.len() > 1 {
        let init = rs.drop_last();
        lemma_min_ttl_is_least(init);
        assert forall|i: int| 0 <= i < rs.len() implies min_ttl(rs) <= #[trigger] rs[i].ttl by {
            if i < rs.len() - 1 {
                assert(rs[i] == init[i]);
            }
        }
        if rs.last().ttl < min_ttl(init) {
            assert(min_ttl(rs) == rs[rs.len() - 1].ttl);
        } else {
            let j = choose|j: int| 0 <= j < init.len() && min_ttl(init) == #[trigger] init[j].ttl;
            assert(min_ttl(rs) == rs[j].ttl);
        }
    } else {
        assert(min_ttl(rs) == rs[0].ttl);
    }
}

/// The negative TTL of a response (RFC 2308 §5) comes from the first SOA
/// record of its authority section: it is the smaller of that record's TTL
/// and its MINIMUM field, so at most each of them. There is none exactly
/// when no record is an SOA record.
pub proof fn lemma_negative_ttl_from_first_soa(rs: Seq<SpecRecord>)
    ensures
        soa_negative_ttl(rs) is None <==> forall|i: int| 0 <= i < rs.len() ==> !(#[trigger] rs[i].rdata is SOA),
        soa_negative_ttl(rs) matches Some(t) ==> exists|i: int|
            #![trigger rs[i]]
            {
                &&& 0 <= i < rs.len()
                &&& rs[i].rdata is SOA
                &&& forall|j: int| 0 <= j < i ==> !(#[trigger] rs[j].rdata is SOA)
                &&& t <= rs[i].ttl
                &&& t <= rs[i].rdata->SOA_minimum
                &&& (t == rs[i].ttl || t == rs[i].rdata->SOA_minimum)
            },
    decreases rs.len(),
{
    if rs.len() > 0 {
        let rest = rs.drop_first();
        lemma_negative_ttl_from_first_soa(rest);
        if !(rs[0].rdata is SOA) {
            assert forall|i: int| 1 <= i < rs.len() implies rs[i] == rest[i - 1] by {}
            if let Some(t) = soa_negative_ttl(rs) {
                let k = choose|k: int|
                    #![trigger rest[k]]
                    {
                        &&& 0 <= k < rest.len()
                        &&& rest[k].rdata is SOA
                        &&& forall|j: int| 0 <= j < k ==> !(#[trigger] rest[j].rdata is SOA)
                        &&& t <= rest[k].ttl
                        &&& t <= rest[k].rdata->SOA_minimum
                        &&& (t == rest[k].ttl || t == rest[k].rdata->SOA_minimum)
                    };
                assert(rs[k + 1] == rest[k]);
                assert forall|j: int| 0 <= j < k + 1 implies !(#[trigger] rs[j].rdata is SOA) by {
                    if j > 0 {
                        assert(rs[j] == rest[j - 1]);
                    }
                }
            } else {
                assert forall|i: int| 0 <= i < rs.len() implies !(#[trigger] rs[i].rdata is SOA) by {
                    if i > 0 {
                        assert(rs[i] == rest[i - 1]);
                    }
                }
            }
        }
    }
}

} // verus!
