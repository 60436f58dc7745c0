//! Time-keyed fetch cache.
//!
//! Stores string payloads under string keys, each with an expiry instant.
//! Reads after the expiry are misses, not stale values; records are never
//! proactively evicted, only lazily ignored. The current time is an explicit
//! argument, so the behaviour is a function of its inputs.

use vstd::prelude::*;

verus! {

/// One stored payload together with the instant (seconds) at which it lapses.
pub struct CacheEntry {
    pub value: String,
    pub expiry: u64,
}

struct CacheRecord {
    key: String,
    entry: CacheEntry,
}

/// Map the stored records to their mathematical content: a map from key to
/// (payload, expiry). A later record with the same key shadows an earlier one.
spec fn map_of(records: Seq<CacheRecord>) -> Map<Seq<char>, (Seq<char>, u64)>
    decreases records.len(),
{
    if records.len() == 0 {
        Map::empty()
    } else {
        map_of(records.drop_last()).insert(
            records.last().key@,
            (records.last().entry.value@, records.last().entry.expiry),
        )
    }
}

proof fn lemma_map_of_domain(records: Seq<CacheRecord>, k: Seq<char>)
    ensures
        map_of(records).contains_key(k) <==> exists|i: int|
            0 <= i < records.len() && records[i].key@ == k,
    decreases records.len(),
{
    if records.len() > 0 {
        lemma_map_of_domain(records.drop_last(), k);
        if records.last().key@ != k && map_of(records).contains_key(k) {
            let i = choose|i: int|
                0 <= i < records.drop_last().len() && records.drop_last()[i].key@ == k;
            assert(records[i].key@ == k);
        }
        if exists|i: int| 0 <= i < records.len() && records[i].key@ == k {
            let i = choose|i: int| 0 <= i < records.len() && records[i].key@ == k;
            if i < records.len() - 1 {
                assert(records.drop_last()[i].key@ == k);
            }
        }
    }
}

/// With pairwise-distinct keys, the record at any index is the one the map holds.
proof fn lemma_map_of_index(records: Seq<CacheRecord>, i: int)
    requires
        0 <= i < records.len(),
        forall|p: int, q: int|
            0 <= p < q < records.len() ==> records[p].key@ != records[q].key@,
    ensures
        map_of(records).contains_key(records[i].key@),
        map_of(records)[records[i].key@] == (records[i].entry.value@, records[i].entry.expiry),
    decreases records.len(),
{
    if i < records.len() - 1 {
        assert(records[i].key@ != records.last().key@);
        assert(records.drop_last()[i] == records[i]);
        lemma_map_of_index(records.drop_last(), i);
    }
}

/// Deduplicating, lazily expiring store of fetched payloads.
///
/// `@` is the map from key to (payload, expiry instant); `ttl()` is the fixed
/// time-to-live given at construction. All methods need `wf()`, which every
/// constructor and mutator maintains.
pub struct Cache {
    records: Vec<CacheRecord>,
    ttl: u64,
}

impl View for Cache {
    type V = Map<Seq<char>, (Seq<char>, u64)>;

    closed spec fn view(&self) -> Map<Seq<char>, (Seq<char>, u64)> {
        map_of(self.records@)
    }
}

impl Cache {
    /// The keys held are pairwise distinct, so each key names one record.
    pub closed spec fn wf(&self) -> bool {
        forall|p: int, q: int|
            0 <= p < q < self.records@.len() ==> self.records@[p].key@ != self.records@[q].key@
    }

    /// The fixed time-to-live, in seconds.
    pub closed spec fn ttl(&self) -> u64 {
        self.ttl
    }

    /// The fixed time-to-live, for callers that must bound an expiry.
    pub fn ttl_secs(&self) -> (r: u64)
        ensures
            r == self.ttl(),
    {
        self.ttl
    }

    /// An empty cache whose records will lapse `ttl_secs` after insertion.
    pub fn new(ttl_secs: u64) -> (r: Cache)
        ensures
            r.wf(),
            r@ == Map::<Seq<char>, (Seq<char>, u64)>::empty(),
            r.ttl() == ttl_secs,
    {
        Cache { records: Vec::new(), ttl: ttl_secs }
    }

    /// Read `key` at instant `now`: the stored payload when one is present and
    /// not yet lapsed, and a miss otherwise. An expired record is reported as
    /// a miss, never returned.
    pub fn get(&self, key: &str, now: u64) -> (r: Option<String>)
        requires
            self.wf(),
        ensures
            match r {
                Some(v) => self@.contains_key(key@) && self@[key@].0 == v@
                    && self@[key@].1 > now,
                None => !self@.contains_key(key@) || self@[key@].1 <= now,
            },
    {
        let wanted: String = key.to_owned();
        let n = self.records.len();
        let mut i: usize = 0;
        while i < n
            invariant
                n == self.records@.len(),
                i <= n,
                wanted@ == key@,
                self.wf(),
                forall|j: int| 0 <= j < i ==> self.records@[j].key@ != key@,
            decreases n - i,
        {
            if self.records[i].key == wanted {
                proof {
                    lemma_map_of_index(self.records@, i as int);
                }
                if self.records[i].entry.expiry > now {
                    return Some(self.records[i].entry.value.clone());
                } else {
                    return None;
                }
            }
            i += 1;
        }
        proof {
            lemma_map_of_domain(self.records@, key@);
        }
        None
    }

    /// Store `value` under `key` at instant `now`, lapsing `ttl()` later. An
    /// existing record under the same key is overwritten; every other key is
    /// untouched.
    pub fn set(&mut self, key: String, value: String, now: u64)
        requires
            old(self).wf(),
            now + old(self).ttl() <= u64::MAX,
        ensures
            final(self).wf(),
            final(self).ttl() == old(self).ttl(),
            final(self)@ == old(self)@.insert(key@, (value@, (now + old(self).ttl()) as u64)),
    {
        let expiry: u64 = now + self.ttl;
        let n = self.records.len();
        let mut i: usize = 0;
        while i < n
            invariant
                self.records@ == old(self).records@,
                self.ttl == old(self).ttl,
                expiry == now + old(self).ttl,
                n == self.records@.len(),
                i <= n,
                self.wf(),
                forall|j: int| 0 <= j < i ==> self.records@[j].key@ != key@,
            decreases n - i,
        {
            if self.records[i].key == key {
                let ghost before = self.records@;
                let record = CacheRecord { key, entry: CacheEntry { value, expiry } };
                self.records.set(i, record);
                proof {
                    lemma_map_of_update(before, i as int, self.records@[i as int]);
                    lemma_map_of_index(before, i as int);
                }
                return ;
            }
            i += 1;
        }
        proof {
            lemma_map_of_domain(self.records@, key@);
        }
        let record = CacheRecord { key, entry: CacheEntry { value, expiry } };
        self.records.push(record);
        proof {
            assert(self.records@.drop_last() == old(self).records@);
        }
    }
}

/// The time-to-live law, over the cache's map: a payload stored at `now`
/// lapses exactly `ttl` later, so by `get`'s contract any read strictly
/// before `now + ttl` returns it unchanged and any read at or after that
/// instant is a miss.
pub proof fn lemma_cache_ttl(
    contents: Map<Seq<char>, (Seq<char>, u64)>,
    key: Seq<char>,
    value: Seq<char>,
    now: u64,
    ttl: u64,
    read_at: u64,
)
    requires
        now + ttl <= u64::MAX,
    ensures
        contents.insert(key, (value, (now + ttl) as u64)).contains_key(key),
        contents.insert(key, (value, (now + ttl) as u64))[key].0 == value,
        contents.insert(key, (value, (now + ttl) as u64))[key].1 > read_at <==> read_at < now
            + ttl,
{
}

/// Overwriting the record at `i` with one that keeps its key inserts that
/// key's new content into the map, provided keys are pairwise distinct.
proof fn lemma_map_of_update(records: Seq<CacheRecord>, i: int, record: CacheRecord)
    requires
        0 <= i < records.len(),
        forall|p: int, q: int|
            0 <= p < q < records.len() ==> records[p].key@ != records[q].key@,
        record.key@ == records[i].key@,
    ensures
        map_of(records.update(i, record)) == map_of(records).insert(
            record.key@,
            (record.entry.value@, record.entry.expiry),
        ),
    decreases records.len(),
{
    let updated = records.update(i, record);
    if i == records.len() - 1 {
        assert(updated.drop_last() == records.drop_last());
    } else {
        assert(updated.drop_last() == records.drop_last().update(i, record));
        assert(updated.last() == records.last());
        lemma_map_of_update(records.drop_last(), i, record);
        assert(records.last().key@ != record.key@);
        assert(map_of(updated) == map_of(records.drop_last()).insert(
            record.key@,
            (record.entry.value@, record.entry.expiry),
        ).insert(records.last().key@, (records.last().entry.value@, records.last().entry.expiry)));
        assert(map_of(records.update(i, record)) =~= map_of(records).insert(
            record.key@,
            (record.entry.value@, record.entry.expiry),
        ));
    }
}

} // verus!
