//! The bounded cache of fetched source images, keyed by a fingerprint of the
//! source URL and evicting the least recently used entry.
//!
//! Fetching is outside work: a caller holds the cache under one lock,
//! looks the key up with `get`, and on a miss fetches and hands the outcome
//! to `store` before releasing the lock, so that one key is fetched at most
//! once at a time.
use vstd::prelude::*;
use std::collections::hash_map::DefaultHasher;
use std::collections::hash_map::RandomState;
use std::hash::Hasher;
use vstd::std_specs::hash::DefaultHasherAdditionalSpecFns;
use vstd::string::StringSliceAdditionalSpecFns;
use lru::LruCache;

verus! {

#[verifier::external_type_specification]
#[verifier::external_body]
#[verifier::reject_recursive_types(K)]
#[verifier::reject_recursive_types(V)]
#[verifier::reject_recursive_types(S)]
pub struct ExLruCache<K, V, S>(LruCache<K, V, S>);

/// Cache entries, most recently used first.
pub type Entries = Seq<(u64, Seq<u8>)>;

/// What an lru cache holds, most recently used first.
pub uninterp spec fn lru_entries(c: LruCache<u64, Vec<u8>, RandomState>) -> Entries;

/// The capacity that an lru cache was made with.
pub uninterp spec fn lru_capacity(c: LruCache<u64, Vec<u8>, RandomState>) -> nat;

pub open spec fn has_key(e: Entries, k: u64) -> bool {
    exists|i: int| 0 <= i < e.len() && #[trigger] e[i].0 == k
}

pub open spec fn index_of(e: Entries, k: u64) -> int {
    choose|i: int| 0 <= i < e.len() && #[trigger] e[i].0 == k
}

pub open spec fn distinct_keys(e: Entries) -> bool {
    forall|i: int, j: int| 0 <= i < j < e.len() ==> #[trigger] e[i].0 != #[trigger] e[j].0
}

/// The bytes cached under `k`.
pub open spec fn lookup(e: Entries, k: u64) -> Option<Seq<u8>> {
    if has_key(e, k) {
        Some(e[index_of(e, k)].1)
    } else {
        None
    }
}

/// Entries after reading `k`: a present key becomes the most recent.
pub open spec fn after_get(e: Entries, k: u64) -> Entries {
    if has_key(e, k) {
        seq![e[index_of(e, k)]] + e.remove(index_of(e, k))
    } else {
        e
    }
}

/// Entries after writing `v` under `k`: the key becomes the most recent; a
/// new key in a full cache evicts the least recent entry.
pub open spec fn after_put(e: Entries, cap: nat, k: u64, v: Seq<u8>) -> Entries {
    if has_key(e, k) {
        seq![(k, v)] + e.remove(index_of(e, k))
    } else if e.len() == cap {
        seq![(k, v)] + e.drop_last()
    } else {
        seq![(k, v)] + e
    }
}

/// Relies on lru's `LruCache::with_hasher`: an empty cache of the given
/// capacity.
#[verifier::external_body]
fn lru_new(cap: usize) -> (r: LruCache<u64, Vec<u8>, RandomState>)
    requires
        cap > 0,
    ensures
        lru_entries(r) == Seq::<(u64, Seq<u8>)>::empty(),
        lru_capacity(r) == cap,
{
    LruCache::with_hasher(std::num::NonZeroUsize::new(cap).unwrap(), RandomState::new())
}

/// Relies on lru's `LruCache::get`: a hit moves the entry to the front.
#[verifier::external_body]
fn lru_get(c: &mut LruCache<u64, Vec<u8>, RandomState>, k: u64) -> (r: Option<Vec<u8>>)
    ensures
        lru_capacity(*final(c)) == lru_capacity(*old(c)),
        lru_entries(*final(c)) == after_get(lru_entries(*old(c)), k),
        r.is_some() == has_key(lru_entries(*old(c)), k),
        r matches Some(v) ==> lookup(lru_entries(*old(c)), k) == Some(v@),
{
    c.get(&k).cloned()
}

/// Relies on lru's `LruCache::put`: the entry goes to the front, replacing
/// the key's old value, and a new key in a full cache evicts the tail.
#[verifier::external_body]
fn lru_put(c: &mut LruCache<u64, Vec<u8>, RandomState>, k: u64, v: Vec<u8>)
    ensures
        lru_capacity(*final(c)) == lru_capacity(*old(c)),
        lru_entries(*final(c)) == after_put(lru_entries(*old(c)), lru_capacity(*old(c)), k, v@),
{
    c.put(k, v);
}

/// The 64-bit fingerprint of a URL: the standard hasher fed the way `str`
/// hashes itself (its bytes, then `0xff`).
pub open spec fn url_key(url: &str) -> u64 {
    DefaultHasher::spec_finish(seq![url.spec_bytes(), seq![0xffu8]])
}

pub fn fingerprint(url: &str) -> (r: u64)
    ensures
        r == url_key(url),
{
    let mut h = DefaultHasher::new();
    h.write(url.as_bytes());
    let mut tail: Vec<u8> = Vec::new();
    tail.push(0xffu8);
    assert(tail@ =~= seq![0xffu8]);
    h.write(tail.as_slice());
    assert(h@ =~= seq![url.spec_bytes(), seq![0xffu8]]);
    h.finish()
}

/// Why a source image could not be fetched.
#[derive(Clone, Copy, Debug, PartialEq, Eq, Structural)]
pub enum FetchError {
    /// The request could not be sent or its body not read.
    Transport,
    /// The server answered with a status outside 2xx.
    Status(u16),
}

pub struct SourceCache {
    inner: LruCache<u64, Vec<u8>, RandomState>,
}

impl SourceCache {
    pub closed spec fn entries(&self) -> Entries {
        lru_entries(self.inner)
    }

    pub closed spec fn capacity(&self) -> nat {
        lru_capacity(self.inner)
    }

    pub open spec fn wf(&self) -> bool {
        &&& distinct_keys(self.entries())
        &&& self.entries().len() <= self.capacity()
        &&& self.capacity() > 0
    }

    pub fn new(capacity: usize) -> (r: SourceCache)
        requires
            capacity > 0,
        ensures
            r.wf(),
            r.entries() == Seq::<(u64, Seq<u8>)>::empty(),
            r.capacity() == capacity,
    {
        SourceCache { inner: lru_new(capacity) }
    }

    /// The cached bytes under `key`; a hit makes the entry the most recent.
    pub fn get(&mut self, key: u64) -> (r: Option<Vec<u8>>)
        requires
            old(self).wf(),
        ensures
            final(self).wf(),
            final(self).capacity() == old(self).capacity(),
            final(self).entries() == after_get(old(self).entries(), key),
            r.is_some() == has_key(old(self).entries(), key),
            r matches Some(v) ==> lookup(old(self).entries(), key) == Some(v@),
    {
        let r = lru_get(&mut self.inner, key);
        proof {
            lemma_get_wf(old(self).entries(), key);
        }
        r
    }

    /// Caches `data` under `key` as the most recent entry.
    pub fn put(&mut self, key: u64, data: Vec<u8>)
        requires
            old(self).wf(),
        ensures
            final(self).wf(),
            final(self).capacity() == old(self).capacity(),
            final(self).entries() == after_put(old(self).entries(), old(self).capacity(), key, data@),
    {
        lru_put(&mut self.inner, key, data);
        proof {
            lemma_put_wf(old(self).entries(), old(self).capacity(), key, data@);
        }
    }

    /// Takes the outcome of a fetch made after a miss on `key`: fetched bytes
    /// are cached and handed back, a failure leaves the cache as it was.
    pub fn store(&mut self, key: u64, fetched: Result<Vec<u8>, FetchError>) -> (r: Result<
        Vec<u8>,
        FetchError,
    >)
        requires
            old(self).wf(),
        ensures
            final(self).wf(),
            final(self).capacity() == old(self).capacity(),
            match fetched {
                Ok(data) => r matches Ok(v) && v@ == data@ && final(self).entries() == after_put(
                    old(self).entries(),
                    old(self).capacity(),
                    key,
                    data@,
                ),
                Err(e) => r == Err::<Vec<u8>, FetchError>(e) && final(self).entries() == old(
                    self,
                ).entries(),
            },
    {
        match fetched {
            Err(e) => Err(e),
            Ok(data) => {
                let kept = data.clone();
                assert(kept@ =~= data@);
                self.put(key, data);
                Ok(kept)
            },
        }
    }
}

proof fn lemma_remove_keys(e: Entries, i: int)
    requires
        0 <= i < e.len(),
    ensures
        forall|j: int| 0 <= j < e.remove(i).len() ==> #[trigger] e.remove(i)[j] == (if j < i {
            e[j]
        } else {
            e[j + 1]
        }),
{
}

proof fn lemma_get_wf(e: Entries, k: u64)
    requires
        distinct_keys(e),
    ensures
        distinct_keys(after_get(e, k)),
        after_get(e, k).len() == e.len(),
{
    if has_key(e, k) {
        let i = index_of(e, k);
        lemma_remove_keys(e, i);
        let a = after_get(e, k);
        assert forall|x: int, y: int| 0 <= x < y < a.len() implies #[trigger] a[x].0 != #[trigger] a[y].0 by {
            if x == 0 {
                assert(a[y] == e.remove(i)[y - 1]);
            } else {
                assert(a[x] == e.remove(i)[x - 1]);
                assert(a[y] == e.remove(i)[y - 1]);
            }
        }
    }
}

proof fn lemma_put_wf(e: Entries, cap: nat, k: u64, v: Seq<u8>)
    requires
        distinct_keys(e),
        e.len() <= cap,
        cap > 0,
    ensures
        distinct_keys(after_put(e, cap, k, v)),
        after_put(e, cap, k, v).len() <= cap,
{
    let a = after_put(e, cap, k, v);
    if has_key(e, k) {
        let i = index_of(e, k);
        lemma_remove_keys(e, i);
        assert forall|x: int, y: int| 0 <= x < y < a.len() implies #[trigger] a[x].0 != #[trigger] a[y].0 by {
            if x == 0 {
                assert(a[y] == e.remove(i)[y - 1]);
            } else {
                assert(a[x] == e.remove(i)[x - 1]);
                assert(a[y] == e.remove(i)[y - 1]);
            }
        }
    } else {
        assert forall|x: int, y: int| 0 <= x < y < a.len() implies #[trigger] a[x].0 != #[trigger] a[y].0 by {
            if x == 0 {
                assert(a[y] == e[y - 1]);
            } else {
                assert(a[x] == e[x - 1]);
                assert(a[y] == e[y - 1]);
            }
        }
    }
}

/// Once fetched bytes are stored under their key, a later lookup of that key
/// is a hit with the same bytes and leaves the cache as it is: under the
/// cache's lock, a key is fetched only by the first requester that misses.
pub proof fn lemma_put_then_get(e: Entries, cap: nat, k: u64, v: Seq<u8>)
    requires
        distinct_keys(e),
        e.len() <= cap,
        cap > 0,
    ensures
        lookup(after_put(e, cap, k, v), k) == Some(v),
        after_get(after_put(e, cap, k, v), k) == after_put(e, cap, k, v),
{
    lemma_put_wf(e, cap, k, v);
    let a = after_put(e, cap, k, v);
    assert(a[0].0 == k);
    assert(has_key(a, k));
    let i = index_of(a, k);
    assert(i == 0);
    assert(seq![a[0]] + a.remove(0) =~= a);
}


/// In a full cache, writing a new key evicts exactly the least recently used
/// entry: the new key becomes the most recent and every other key stays.
pub proof fn lemma_evicts_least_recent(e: Entries, cap: nat, k: u64, v: Seq<u8>)
    requires
        distinct_keys(e),
        e.len() == cap,
        cap > 0,
        !has_key(e, k),
    ensures
        after_put(e, cap, k, v).len() == cap,
        after_put(e, cap, k, v)[0] == (k, v),
        !has_key(after_put(e, cap, k, v), e.last().0),
        forall|j: int| 0 <= j < e.len() - 1 ==> has_key(after_put(e, cap, k, v), #[trigger] e[j].0),
{
    let a = after_put(e, cap, k, v);
    let last = e.last().0;
    assert(e[e.len() - 1].0 == last);
    assert forall|j: int| 0 <= j < a.len() implies #[trigger] a[j].0 != last by {
        if j > 0 {
            assert(a[j] == e[j - 1]);
        }
    }
    assert forall|j: int| 0 <= j < e.len() - 1 implies has_key(a, #[trigger] e[j].0) by {
        assert(a[j + 1] == e[j]);
    }
}

/// Reading a key makes it the most recent entry, so in a full cache of
/// capacity two or more, writing a new key right after does not evict it.
pub proof fn lemma_get_refreshes(e: Entries, cap: nat, k: u64, k2: u64, v: Seq<u8>)
    requires
        distinct_keys(e),
        e.len() == cap,
        cap >= 2,
        has_key(e, k),
        !has_key(e, k2),
    ensures
        after_get(e, k)[0].0 == k,
        has_key(after_put(after_get(e, k), cap, k2, v), k),
{
    lemma_get_wf(e, k);
    let g = after_get(e, k);
    let i = index_of(e, k);
    lemma_remove_keys(e, i);
    if has_key(g, k2) {
        let j = choose|j: int| 0 <= j < g.len() && #[trigger] g[j].0 == k2;
        if j == 0 {
            assert(e[i].0 == k2);
        } else if j - 1 < i {
            assert(g[j] == e[j - 1]);
        } else {
            assert(g[j] == e[j]);
        }
    }
    let a = after_put(g, cap, k2, v);
    assert(a[1] == g[0]);
}

} // verus!
