//! The cache plugin: a bounded store from query fingerprint to records, with
//! an optional window within which stored answers count as fresh.

use moka::sync::Cache as MokaCache;
use vstd::prelude::*;

use crate::plugin::{Outcome, PluginQueryResult};
use crate::record::{query_key, Query, Record};

verus! {

#[verifier::external_type_specification]
#[verifier::external_body]
#[verifier::reject_recursive_types(K)]
#[verifier::reject_recursive_types(V)]
#[verifier::reject_recursive_types(S)]
pub struct ExMokaCache<K, V, S>(MokaCache<K, V, S>);

/// The key of a stored answer: the query's name, ASCII-folded, and its type.
pub type CacheKey = (Vec<char>, u16);

/// A stored answer and when it was stored, in milliseconds since the epoch.
#[derive(Debug, Clone)]
pub struct CacheEntry {
    pub records: Vec<Record>,
    pub stored_at: i64,
}

/// The capacity of a cache whose size is not configured.
pub const DEFAULT_CAPACITY: usize = 1024;

/// Relies on `moka::sync::CacheBuilder`: a store that holds at most about
/// `capacity` entries and evicts the least recently used first.
#[verifier::external_body]
fn new_store(capacity: u64) -> MokaCache<CacheKey, CacheEntry> {
    MokaCache::builder()
        .max_capacity(capacity)
        .eviction_policy(moka::policy::EvictionPolicy::lru())
        .build()
}

/// Relies on `moka::sync::Cache::get`. The store is shared with every task
/// that serves queries and changes behind a shared reference, so nothing is
/// promised of what comes back.
#[verifier::external_body]
fn store_get(store: &MokaCache<CacheKey, CacheEntry>, key: &CacheKey) -> Option<CacheEntry> {
    store.get(key)
}

/// Relies on `moka::sync::Cache::insert`, which stores `value` under `key`,
/// replacing what was there; eviction happens in the store's own time.
#[verifier::external_body]
fn store_insert(store: &MokaCache<CacheKey, CacheEntry>, key: CacheKey, value: CacheEntry) {
    store.insert(key, value)
}

/// Relies on `std::time::SystemTime::now` and `duration_since`: the time
/// now, in milliseconds since the epoch, or `None` when the clock reads
/// before the epoch (or too far after it for an `i64`).
#[verifier::external_body]
fn now_millis() -> Option<i64> {
    let since = std::time::SystemTime::now().duration_since(std::time::UNIX_EPOCH).ok()?;
    i64::try_from(since.as_millis()).ok()
}

/// Whether an answer stored at `stored_at` is fresh at `now` (both in
/// milliseconds): always without a window, else while at most `ttl` seconds
/// have passed.
pub open spec fn is_fresh(stored_at: i64, now: i64, ttl: Option<u64>) -> bool {
    match ttl {
        None => true,
        Some(s) => now - stored_at <= s * 1000,
    }
}

/// What a cache decides on a lookup.
pub enum Decision {
    /// Answer with the stored records and stop.
    Hit(Seq<Record>),
    /// Continue with the sibling, and store the final answer.
    Miss(String),
    /// No fresh answer and no sibling to ask: answer with nothing.
    NoSibling,
}

/// The decision of a cache with window `ttl` and sibling `sibling`, when the
/// store handed back `found` at `now`.
pub open spec fn decide(ttl: Option<u64>, sibling: Option<String>, found: Option<CacheEntry>, now: i64) -> Decision {
    match found {
        Some(e) if is_fresh(e.stored_at, now, ttl) => Decision::Hit(e.records@),
        _ => match sibling {
            Some(t) => Decision::Miss(t),
            None => Decision::NoSibling,
        },
    }
}

/// Whether `o` carries out the decision `d`.
pub open spec fn carries_out(o: Outcome, d: Decision) -> bool {
    match d {
        Decision::Hit(rs) => o matches Outcome::Ran(r) && r.records@ == rs && r.next is None,
        Decision::Miss(t) => o matches Outcome::Missed(r) && r.records@.len() == 0 && r.next
            == Some(t),
        Decision::NoSibling => o matches Outcome::Ran(r) && r.records@.len() == 0 && r.next is None,
    }
}

/// The tag that follows `tag` in `children`, if any.
pub open spec fn sibling_in(children: Seq<String>, tag: String) -> Option<String> {
    if exists|i: int| 0 <= i < children.len() - 1 && #[trigger] children[i]@ == tag@ {
        let i = choose|i: int|
            0 <= i < children.len() - 1 && #[trigger] children[i]@ == tag@ && forall|j: int|
                0 <= j < i ==> children[j]@ != tag@;
        Some(children[i + 1])
    } else {
        None
    }
}

/// The tag that follows `tag` in `children`.
fn sibling_of(children: &Vec<String>, tag: &String) -> (r: Option<String>)
    ensures
        r == sibling_in(children@, *tag),
{
    let mut i: usize = 0;
    while i < children.len() && i < children.len() - 1
        invariant
            forall|j: int| 0 <= j < i ==> children@[j]@ != tag@,
            i <= children.len(),
        decreases children.len() - i,
    {
        if children[i] == *tag {
            proof {
                let k = choose|k: int|
                    0 <= k < children@.len() - 1 && #[trigger] children@[k]@ == tag@ && forall|j: int|
                        0 <= j < k ==> children@[j]@ != tag@;
                assert(k == i) by {
                    if k < i {
                        assert(children@[k]@ != tag@);
                    }
                    if k > i {
                        assert(children@[i as int]@ == tag@);
                    }
                }
            }
            return Some(children[i + 1].clone());
        }
        i = i + 1;
    }
    None
}

/// The cache plugin.
pub struct Cache {
    pub tag: String,
    pub capacity: usize,
    pub lazy_cache_ttl: Option<u64>,
    pub sibling: Option<String>,
    pub store: MokaCache<CacheKey, CacheEntry>,
}

impl Cache {
    /// A cache of `size` entries (1024 when not given), with an optional
    /// freshness window in seconds. Its sibling is the tag that follows its
    /// own in `children`.
    pub fn new(tag: String, size: Option<usize>, lazy_cache_ttl: Option<u64>, children: Vec<String>) -> (c: Cache)
        ensures
            c.tag == tag,
            c.capacity == match size {
                Some(n) => n,
                None => DEFAULT_CAPACITY,
            },
            c.lazy_cache_ttl == lazy_cache_ttl,
            c.sibling == sibling_in(children@, tag),
    {
        let capacity = match size {
            Some(s) => s,
            None => DEFAULT_CAPACITY,
        };
        let sibling = sibling_of(&children, &tag);
        Cache { tag, capacity, lazy_cache_ttl, sibling, store: new_store(capacity as u64) }
    }

    /// The outcome of a lookup that found `found` at `now`: fresh records are
    /// answered at once; otherwise the query continues with the sibling.
    pub fn lookup(&self, found: Option<CacheEntry>, now: i64) -> (o: Outcome)
        ensures
            carries_out(o, decide(self.lazy_cache_ttl, self.sibling, found, now)),
    {
        if let Some(e) = found {
            let fresh = match self.lazy_cache_ttl {
                None => true,
                Some(s) => (now as i128) - (e.stored_at as i128) <= (s as i128) * 1000,
            };
            if fresh {
                return Outcome::Ran(PluginQueryResult::return_records(e.records));
            }
        }
        match &self.sibling {
            Some(t) => Outcome::Missed(PluginQueryResult::empty().with_next(t.clone())),
            None => Outcome::Ran(PluginQueryResult::empty()),
        }
    }

    /// Looks `query` up in the store now. When the clock cannot be read,
    /// the lookup counts as a miss.
    pub fn exec(&self, query: &Query) -> (o: Outcome)
        ensures
            exists|found: Option<CacheEntry>, now: i64|
                carries_out(o, #[trigger] decide(self.lazy_cache_ttl, self.sibling, found, now)),
    {
        match now_millis() {
            Some(now) => {
                let key = query_key(query);
                let found = store_get(&self.store, &key);
                self.lookup(found, now)
            },
            None => self.lookup(None, 0),
        }
    }

    /// Stores `records` as the answer to `query`, stamped with the time now;
    /// when the clock cannot be read, nothing is stored.
    pub fn fill(&self, query: &Query, records: Vec<Record>) {
        if let Some(now) = now_millis() {
            let key = query_key(query);
            store_insert(&self.store, key, CacheEntry { records, stored_at: now });
        }
    }
}

/// Within the window, a stored answer is served as it was stored and the
/// sibling is not asked; without a window it is served for as long as the
/// store holds it.
pub proof fn lemma_fresh_entry_is_hit(ttl: Option<u64>, sibling: Option<String>, e: CacheEntry, now: i64)
    requires
        match ttl {
            Some(s) => now - e.stored_at <= s * 1000,
            None => true,
        },
    ensures
        decide(ttl, sibling, Some(e), now) == Decision::Hit(e.records@),
{
}

/// Once more than the window has passed, the sibling is asked again; the
/// miss puts the cache among those that store the chain's answer (see
/// `Execution::advance`).
pub proof fn lemma_stale_entry_asks_sibling(s: u64, sibling: String, e: CacheEntry, now: i64)
    requires
        now - e.stored_at > s * 1000,
    ensures
        decide(Some(s), Some(sibling), Some(e), now) == Decision::Miss(sibling),
{
}

} // verus!
