//! The read cache for one kind of network object: bounded, with time-to-
//! live and time-to-idle limits, keyed by the owner's public key bytes.
//!
//! The cache answers exactly with the value last stored for a key, and
//! only while the entry is within both limits; a write invalidates its
//! key before and after the network call, closing the read-stale window.

use vstd::prelude::*;
use crate::keys::eq_bytes;

verus! {

/// One cached value with its bookkeeping times, in seconds.
struct CacheEntry {
    key: Vec<u8>,
    value: Vec<u8>,
    inserted_at: u64,
    last_used: u64,
}

/// Keeping every entry whose key differs from the dropped one.
spec fn drop_pred(key: Seq<u8>) -> spec_fn(CacheEntry) -> bool {
    |e: CacheEntry| e.key@ != key
}

/// The first entry for a key: its value and its two clocks.
spec fn find_in(s: Seq<CacheEntry>, key: Seq<u8>) -> Option<(Seq<u8>, u64, u64)>
    decreases s.len(),
{
    if s.len() == 0 {
        Option::None
    } else if s[0].key@ == key {
        Option::Some((s[0].value@, s[0].inserted_at, s[0].last_used))
    } else {
        find_in(s.skip(1), key)
    }
}

/// A bounded cache from addresses to opaque values.
pub struct Cache {
    entries: Vec<CacheEntry>,
    ttl: u64,
    tti: u64,
    capacity: usize,
}

/// Whether an entry inserted and last used at the given moments is still
/// servable at `now`: within the time-to-live and the time-to-idle.
pub open spec fn fresh(inserted_at: u64, last_used: u64, ttl: u64, tti: u64, now: u64) -> bool {
    !((now >= inserted_at && now - inserted_at >= ttl)
        || (now >= last_used && now - last_used >= tti))
}

impl Cache {
    /// The number of live entries.
    pub closed spec fn len_spec(&self) -> int {
        self.entries@.len() as int
    }

    /// The capacity bound.
    pub closed spec fn capacity_spec(&self) -> int {
        self.capacity as int
    }

    /// The time-to-live limit.
    pub closed spec fn ttl_spec(&self) -> u64 {
        self.ttl
    }

    /// The time-to-idle limit.
    pub closed spec fn tti_spec(&self) -> u64 {
        self.tti
    }

    /// The value and clocks stored for a key, if any.
    pub closed spec fn entry_spec(&self, key: Seq<u8>) -> Option<(Seq<u8>, u64, u64)> {
        find_in(self.entries@, key)
    }

    /// Whether some entry holds this key.
    pub open spec fn contains_spec(&self, key: Seq<u8>) -> bool {
        self.entry_spec(key) is Some
    }

    /// An empty cache with the given limits.
    pub fn new(ttl: u64, tti: u64, capacity: usize) -> (r: Self)
        ensures
            r.len_spec() == 0,
            r.capacity_spec() == capacity,
            r.ttl_spec() == ttl,
            r.tti_spec() == tti,
            forall|k: Seq<u8>| #[trigger] r.entry_spec(k) is None,
    {
        Cache { entries: Vec::new(), ttl, tti, capacity }
    }

    /// How many entries are cached.
    pub fn len(&self) -> (r: usize)
        ensures r == self.len_spec(),
    {
        self.entries.len()
    }

    /// Looks a key up at the given moment: exactly the stored value when
    /// there is one and it is within both limits, nothing otherwise.
    pub fn lookup(&self, key: &Vec<u8>, now: u64) -> (r: Option<Vec<u8>>)
        ensures
            match self.entry_spec(key@) {
                Option::Some((value, inserted_at, last_used)) => {
                    if fresh(inserted_at, last_used, self.ttl_spec(), self.tti_spec(), now) {
                        r is Some && r->Some_0@ == value
                    } else {
                        r is None
                    }
                },
                Option::None => r is None,
            },
    {
        let n = self.entries.len();
        let mut i: usize = 0;
        while i < n
            invariant
                i <= n,
                n == self.entries@.len(),
                forall|j: int| 0 <= j < i ==> (#[trigger] self.entries@[j]).key@ != key@,
            decreases n - i,
        {
            if eq_bytes(&self.entries[i].key, key) {
                proof { lemma_find_in_reaches(self.entries@, key@, i as int); }
                let inserted = self.entries[i].inserted_at;
                let used = self.entries[i].last_used;
                let expired = (now >= inserted && now - inserted >= self.ttl)
                    || (now >= used && now - used >= self.tti);
                if !expired {
                    return Some(crate::keys::clone_bytes(&self.entries[i].value));
                }
                return None;
            }
            i += 1;
        }
        proof { lemma_find_in_reaches(self.entries@, key@, n as int); }
        None
    }

    /// Removes every entry for the key, keeping the rest in order; run
    /// before and after every write.
    pub fn invalidate(&mut self, key: &Vec<u8>)
        ensures
            final(self).entry_spec(key@) is None,
            forall|k: Seq<u8>| k != key@
                ==> #[trigger] final(self).entry_spec(k) == old(self).entry_spec(k),
            final(self).capacity_spec() == old(self).capacity_spec(),
            final(self).ttl_spec() == old(self).ttl_spec(),
            final(self).tti_spec() == old(self).tti_spec(),
            final(self).len_spec() <= old(self).len_spec(),
    {
        let mut drained: Vec<CacheEntry> = Vec::new();
        core::mem::swap(&mut self.entries, &mut drained);
        let ghost orig = drained@;
        let mut kept: Vec<CacheEntry> = Vec::new();
        let mut i: usize = 0;
        let n = drained.len();
        proof {
            reveal_with_fuel(Seq::filter, 2);
            assert(orig.take(0) =~= Seq::<CacheEntry>::empty());
        }
        while i < n
            invariant
                i <= n,
                n == orig.len(),
                drained@ == orig.skip(i as int),
                self.capacity == old(self).capacity,
                self.ttl == old(self).ttl,
                self.tti == old(self).tti,
                kept@.len() <= i,
                kept@ == orig.take(i as int).filter(drop_pred(key@)),
            decreases n - i,
        {
            proof {
                reveal_with_fuel(Seq::filter, 2);
                assert(orig.skip(i as int)[0] == orig[i as int]);
                assert(orig.take(i + 1int) =~= orig.take(i as int).push(orig[i as int]));
                assert(orig.take(i + 1int).drop_last() =~= orig.take(i as int));
                assert(orig.skip(i as int).skip(1) =~= orig.skip(i + 1int));
            }
            let e = drained.remove(0);
            if !eq_bytes(&e.key, key) {
                proof { assert(drop_pred(key@)(orig[i as int])); }
                kept.push(e);
            } else {
                proof { assert(!drop_pred(key@)(orig[i as int])); }
            }
            i += 1;
        }
        proof {
            assert(orig.take(n as int) =~= orig);
        }
        self.entries = kept;
        proof {
            lemma_find_filter(orig, key@, key@);
            assert forall|k: Seq<u8>| k != key@
                implies #[trigger] find_in(self.entries@, k)
                    == find_in(orig, k) by {
                lemma_find_filter(orig, key@, k);
            }
        }
    }

    /// Stores a value for a key at the given moment, replacing any
    /// previous entry for it.  When the cache is full the oldest entry
    /// makes room, so another key's entry may fall out; a key never comes
    /// to hold anything but its own last value.
    pub fn insert(&mut self, key: Vec<u8>, value: Vec<u8>, now: u64)
        ensures
            final(self).capacity_spec() == old(self).capacity_spec(),
            final(self).ttl_spec() == old(self).ttl_spec(),
            final(self).tti_spec() == old(self).tti_spec(),
            final(self).len_spec() <= final(self).capacity_spec(),
            final(self).capacity_spec() > 0
                ==> final(self).entry_spec(key@) == Some((value@, now, now)),
            final(self).capacity_spec() == 0 ==> final(self).entry_spec(key@) is None,
    {
        self.invalidate(&key);
        let ghost mid = *self;
        if self.capacity == 0 {
            let drained: Vec<CacheEntry> = Vec::new();
            self.entries = drained;
            proof {
                assert(forall|k: Seq<u8>| #[trigger] find_in(self.entries@, k) is None);
            }
            return;
        }
        while self.entries.len() >= self.capacity
            invariant
                self.capacity == old(self).capacity,
                self.ttl == old(self).ttl,
                self.tti == old(self).tti,
                self.capacity > 0,
                find_in(self.entries@, key@) is None,
            decreases self.entries@.len(),
        {
            let ghost pre = self.entries@;
            self.entries.remove(0);
            proof {
                assert(self.entries@ =~= pre.skip(1));
                lemma_find_none_tail(pre, key@);
            }
        }
        let ghost before_push = self.entries@;
        self.entries.push(CacheEntry { key, value, inserted_at: now, last_used: now });
        proof {
            assert forall|k: Seq<u8>| k != key@
                implies #[trigger] find_in(self.entries@, k) == find_in(before_push, k)
                    || find_in(self.entries@, k) is None by {
                lemma_find_push_any(before_push, self.entries@[self.entries@.len() - 1], k);
            }
            lemma_find_push_hit(before_push, self.entries@[self.entries@.len() - 1]);
            assert(find_in(before_push, key@) is None);
        }
    }
}

/// Unfolds the first-match search at the found position (or at the end).
proof fn lemma_find_in_reaches(s: Seq<CacheEntry>, key: Seq<u8>, i: int)
    requires
        0 <= i <= s.len(),
        forall|j: int| 0 <= j < i ==> (#[trigger] s[j]).key@ != key,
    ensures
        i < s.len() && s[i].key@ == key
            ==> find_in(s, key) == Some((s[i].value@, s[i].inserted_at, s[i].last_used)),
        i == s.len() ==> find_in(s, key) is None,
    decreases i,
{
    if i > 0 {
        lemma_find_in_reaches(s.skip(1), key, i - 1);
        if i < s.len() {
            assert(s.skip(1)[i - 1] == s[i]);
        }
    }
}

/// Filtering out one key leaves every other key's first match alone.
proof fn lemma_find_filter(s: Seq<CacheEntry>, dropped: Seq<u8>, k: Seq<u8>)
    ensures
        k == dropped ==> find_in(s.filter(drop_pred(dropped)), k) is None,
        k != dropped ==> find_in(s.filter(drop_pred(dropped)), k) == find_in(s, k),
    decreases s.len(),
{
    reveal_with_fuel(Seq::filter, 2);
    if s.len() == 0 {
        assert(s.filter(drop_pred(dropped)) =~= Seq::<CacheEntry>::empty());
    } else {
        lemma_find_filter(s.drop_last(), dropped, k);
        let f = s.filter(drop_pred(dropped));
        let fl = s.drop_last().filter(drop_pred(dropped));
        lemma_find_push_any(s.drop_last(), s.last(), k);
        assert(s =~= s.drop_last().push(s.last()));
        if s.last().key@ != dropped {
            assert(drop_pred(dropped)(s.last()));
            assert(f =~= fl.push(s.last()));
            lemma_find_push_any(fl, s.last(), k);
        } else {
            assert(!drop_pred(dropped)(s.last()));
            assert(f =~= fl);
        }
    }
}

/// Appending an entry does not change an earlier key's first match, and
/// gives an absent key the new entry exactly when the keys agree.
proof fn lemma_find_push_any(s: Seq<CacheEntry>, e: CacheEntry, k: Seq<u8>)
    ensures
        find_in(s, k) is Some ==> find_in(s.push(e), k) == find_in(s, k),
        find_in(s, k) is None && e.key@ == k
            ==> find_in(s.push(e), k) == Some((e.value@, e.inserted_at, e.last_used)),
        find_in(s, k) is None && e.key@ != k ==> find_in(s.push(e), k) is None,
    decreases s.len(),
{
    if s.len() == 0 {
        let p = s.push(e);
        assert(p.len() == 1);
        assert(p[0] == e);
        assert(p.skip(1) =~= Seq::<CacheEntry>::empty());
        if e.key@ != k {
            assert(find_in(p, k) == find_in(p.skip(1), k));
        }
    } else {
        lemma_find_push_any(s.skip(1), e, k);
        let p = s.push(e);
        assert(p[0] == s[0]);
        assert(p.skip(1) =~= s.skip(1).push(e));
        if s[0].key@ == k {
        } else {
            assert(find_in(s, k) == find_in(s.skip(1), k));
            assert(find_in(p, k) == find_in(p.skip(1), k));
        }
    }
}

/// Appending an entry for an absent key makes it the key's first match.
proof fn lemma_find_push_hit(s: Seq<CacheEntry>, e: CacheEntry)
    requires find_in(s, e.key@) is None,
    ensures find_in(s.push(e), e.key@) == Some((e.value@, e.inserted_at, e.last_used)),
{
    lemma_find_push_any(s, e, e.key@);
}

/// A key absent from a list is absent from its tail.
proof fn lemma_find_none_tail(s: Seq<CacheEntry>, k: Seq<u8>)
    requires s.len() > 0, find_in(s, k) is None,
    ensures find_in(s.skip(1), k) is None,
{
}

} // verus!
