//! Comparing two association maps: which keys appeared, disappeared,
//! changed or stayed.

use vstd::prelude::*;

verus! {

/// Whether two values under one key count as changed.
#[derive(Clone, Copy, Debug, PartialEq, Eq, Structural)]
pub enum Comparison {
    /// Treat as unchanged.
    Equivalent,
    /// Treat as changed.
    Modified,
}

/// The outcome of a map comparison, as four key sets.
pub struct MapDiff {
    /// Keys only the new map holds.
    pub added: Vec<u64>,
    /// Keys only the old map holds.
    pub removed: Vec<u64>,
    /// Keys in both whose values differ.
    pub modified: Vec<u64>,
    /// Keys in both whose values agree.
    pub unchanged: Vec<u64>,
}

/// Whether an association list holds a key.
pub open spec fn has_key<V>(m: Seq<(u64, V)>, k: u64) -> bool {
    exists|i: int| 0 <= i < m.len() && (#[trigger] m[i]).0 == k
}

/// A list of keys without repetitions.
pub open spec fn nodup(s: Seq<u64>) -> bool {
    forall|i: int, j: int| 0 <= i < j < s.len() ==> #[trigger] s[i] != #[trigger] s[j]
}

/// Appending a key: membership grows by exactly that key, and a list
/// without repetitions stays without them when the key was absent.
proof fn lemma_push_contains(s: Seq<u64>, v: u64, x: u64)
    ensures
        s.push(v).contains(x) == (s.contains(x) || x == v),
        (nodup(s) && !s.contains(v)) ==> nodup(s.push(v)),
{
    if s.push(v).contains(x) {
        let w = choose|w: int| 0 <= w < s.push(v).len() && s.push(v)[w] == x;
        if w < s.len() {
            assert(s.contains(x));
        }
    }
    if s.contains(x) {
        let w = choose|w: int| 0 <= w < s.len() && s[w] == x;
        assert(s.push(v)[w] == x);
    }
    if x == v {
        assert(s.push(v)[s.len() as int] == v);
    }
    if nodup(s) && !s.contains(v) {
        assert forall|i: int, j: int| 0 <= i < j < s.push(v).len()
            implies #[trigger] s.push(v)[i] != #[trigger] s.push(v)[j] by {
            if j == s.len() {
                if s.push(v)[i] == v {
                    assert(s.contains(v));
                }
            }
        }
    }
}

/// Whether an association list holds a key.
fn contains_key<V>(m: &Vec<(u64, V)>, key: u64) -> (r: bool)
    ensures r == has_key(m@, key),
{
    let mut i: usize = 0;
    while i < m.len()
        invariant
            i <= m@.len(),
            forall|j: int| 0 <= j < i ==> (#[trigger] m@[j]).0 != key,
        decreases m@.len() - i,
    {
        if m[i].0 == key {
            proof { assert(has_key(m@, key)); }
            return true;
        }
        i += 1;
    }
    proof {
        if has_key(m@, key) {
            let w = choose|w: int| 0 <= w < m@.len() && (#[trigger] m@[w]).0 == key;
            assert(false);
        }
    }
    false
}

/// Compares two association maps keyed by identifiers and sorts every key
/// into added, removed, modified or unchanged: `added` holds exactly the
/// keys only the new map has, `removed` exactly the keys only the old map
/// has, and every common key lands in exactly one of `modified` and
/// `unchanged` (by the comparator on the first values found under it);
/// no list repeats a key.
pub fn diff_maps<V1, V2>(
    old_map: &Vec<(u64, V1)>,
    new_map: &Vec<(u64, V2)>,
    compare: impl Fn(&V1, &V2) -> Comparison,
) -> (r: MapDiff)
    requires
        forall|a: &V1, b: &V2| #[trigger] compare.requires((a, b)),
    ensures
        forall|k: u64| #[trigger] r.added@.contains(k)
            == (has_key(new_map@, k) && !has_key(old_map@, k)),
        forall|k: u64| #[trigger] r.removed@.contains(k)
            == (has_key(old_map@, k) && !has_key(new_map@, k)),
        forall|k: u64| (#[trigger] r.modified@.contains(k) || r.unchanged@.contains(k))
            == (has_key(old_map@, k) && has_key(new_map@, k)),
        forall|k: u64| !(#[trigger] r.modified@.contains(k) && r.unchanged@.contains(k)),
        nodup(r.added@) && nodup(r.removed@) && nodup(r.modified@) && nodup(r.unchanged@),
{
    let mut added: Vec<u64> = Vec::new();
    let mut removed: Vec<u64> = Vec::new();
    let mut modified: Vec<u64> = Vec::new();
    let mut unchanged: Vec<u64> = Vec::new();
    let mut i: usize = 0;
    while i < new_map.len()
        invariant
            i <= new_map@.len(),
            nodup(added@),
            forall|k: u64| #[trigger] added@.contains(k)
                ==> has_key(new_map@, k) && !has_key(old_map@, k),
            forall|j: int| 0 <= j < i && !has_key(old_map@, (#[trigger] new_map@[j]).0)
                ==> added@.contains(new_map@[j].0),
        decreases new_map@.len() - i,
    {
        let key = new_map[i].0;
        if !contains_key(old_map, key) {
            if !vec_contains(&added, key) {
                let ghost pre = added@;
                proof { assert(has_key(new_map@, key)); }
                added.push(key);
                proof {
                    assert forall|x: u64| #[trigger] added@.contains(x)
                        implies (pre.contains(x) || x == key) by {
                        lemma_push_contains(pre, key, x);
                    }
                    lemma_push_contains(pre, key, key);
                    assert forall|j: int| 0 <= j <= i
                            && !has_key(old_map@, (#[trigger] new_map@[j]).0)
                        implies added@.contains(new_map@[j].0) by {
                        lemma_push_contains(pre, key, new_map@[j].0);
                    }
                }
            } else {
                proof { assert(added@.contains(key)); }
            }
        }
        i += 1;
    }
    let mut k: usize = 0;
    while k < old_map.len()
        invariant
            k <= old_map@.len(),
            forall|a: &V1, b: &V2| #[trigger] compare.requires((a, b)),
            nodup(removed@) && nodup(modified@) && nodup(unchanged@),
            forall|x: u64| #[trigger] removed@.contains(x)
                ==> has_key(old_map@, x) && !has_key(new_map@, x),
            forall|x: u64| #[trigger] modified@.contains(x)
                ==> has_key(old_map@, x) && has_key(new_map@, x),
            forall|x: u64| #[trigger] unchanged@.contains(x)
                ==> has_key(old_map@, x) && has_key(new_map@, x),
            forall|x: u64| !(#[trigger] modified@.contains(x) && unchanged@.contains(x)),
            forall|j: int| 0 <= j < k ==> {
                let key0 = (#[trigger] old_map@[j]).0;
                if has_key(new_map@, key0) {
                    modified@.contains(key0) || unchanged@.contains(key0)
                } else {
                    removed@.contains(key0)
                }
            },
        decreases old_map@.len() - k,
    {
        let key = old_map[k].0;
        proof { assert(has_key(old_map@, key)); }
        match find_value(new_map, key) {
            None => {
                if !vec_contains(&removed, key) {
                    let ghost pre = removed@;
                    removed.push(key);
                    proof {
                        assert forall|x: u64| #[trigger] removed@.contains(x)
                            implies (pre.contains(x) || x == key) by {
                            lemma_push_contains(pre, key, x);
                        }
                        lemma_push_contains(pre, key, key);
                        assert forall|j: int| 0 <= j <= k implies {
                            let key0 = (#[trigger] old_map@[j]).0;
                            if has_key(new_map@, key0) {
                                modified@.contains(key0) || unchanged@.contains(key0)
                            } else {
                                removed@.contains(key0)
                            }
                        } by {
                            lemma_push_contains(pre, key, old_map@[j].0);
                        }
                    }
                }
            }
            Some(nv) => {
                if !vec_contains(&modified, key) && !vec_contains(&unchanged, key) {
                    match compare(&old_map[k].1, nv) {
                        Comparison::Modified => {
                            let ghost pre = modified@;
                            modified.push(key);
                            proof {
                                assert forall|x: u64| #[trigger] modified@.contains(x)
                                    implies (pre.contains(x) || x == key) by {
                                    lemma_push_contains(pre, key, x);
                                }
                                lemma_push_contains(pre, key, key);
                                assert forall|j: int| 0 <= j <= k implies {
                                    let key0 = (#[trigger] old_map@[j]).0;
                                    if has_key(new_map@, key0) {
                                        modified@.contains(key0)
                                            || unchanged@.contains(key0)
                                    } else {
                                        removed@.contains(key0)
                                    }
                                } by {
                                    lemma_push_contains(pre, key, old_map@[j].0);
                                }
                            }
                        }
                        Comparison::Equivalent => {
                            let ghost pre = unchanged@;
                            unchanged.push(key);
                            proof {
                                assert forall|x: u64| #[trigger] unchanged@.contains(x)
                                    implies (pre.contains(x) || x == key) by {
                                    lemma_push_contains(pre, key, x);
                                }
                                lemma_push_contains(pre, key, key);
                                assert forall|j: int| 0 <= j <= k implies {
                                    let key0 = (#[trigger] old_map@[j]).0;
                                    if has_key(new_map@, key0) {
                                        modified@.contains(key0)
                                            || unchanged@.contains(key0)
                                    } else {
                                        removed@.contains(key0)
                                    }
                                } by {
                                    lemma_push_contains(pre, key, old_map@[j].0);
                                }
                            }
                        }
                    }
                }
            }
        }
        k += 1;
    }
    let r = MapDiff { added, removed, modified, unchanged };
    proof {
        assert forall|x: u64| #[trigger] r.added@.contains(x)
            == (has_key(new_map@, x) && !has_key(old_map@, x)) by {
            if has_key(new_map@, x) && !has_key(old_map@, x) {
                let w = choose|w: int| 0 <= w < new_map@.len()
                    && (#[trigger] new_map@[w]).0 == x;
                assert(r.added@.contains(x));
            }
        }
        assert forall|x: u64| #[trigger] r.removed@.contains(x)
            == (has_key(old_map@, x) && !has_key(new_map@, x)) by {
            if has_key(old_map@, x) && !has_key(new_map@, x) {
                let w = choose|w: int| 0 <= w < old_map@.len()
                    && (#[trigger] old_map@[w]).0 == x;
                assert(r.removed@.contains(x));
            }
        }
        assert forall|x: u64| (#[trigger] r.modified@.contains(x) || r.unchanged@.contains(x))
            == (has_key(old_map@, x) && has_key(new_map@, x)) by {
            if has_key(old_map@, x) && has_key(new_map@, x) {
                let w = choose|w: int| 0 <= w < old_map@.len()
                    && (#[trigger] old_map@[w]).0 == x;
                assert(r.modified@.contains(x) || r.unchanged@.contains(x));
            }
        }
    }
    r
}

/// The first value under a key, if the key is present.
fn find_value<V>(m: &Vec<(u64, V)>, key: u64) -> (r: Option<&V>)
    ensures
        r is Some ==> has_key(m@, key),
        r is None ==> !has_key(m@, key),
{
    let mut i: usize = 0;
    while i < m.len()
        invariant
            i <= m@.len(),
            forall|j: int| 0 <= j < i ==> (#[trigger] m@[j]).0 != key,
        decreases m@.len() - i,
    {
        if m[i].0 == key {
            proof { assert(has_key(m@, key)); }
            return Some(&m[i].1);
        }
        i += 1;
    }
    proof {
        if has_key(m@, key) {
            let w = choose|w: int| 0 <= w < m@.len() && (#[trigger] m@[w]).0 == key;
            assert(false);
        }
    }
    None
}

/// Whether a vector holds a value.
fn vec_contains(v: &Vec<u64>, x: u64) -> (r: bool)
    ensures r == v@.contains(x),
{
    let mut i: usize = 0;
    while i < v.len()
        invariant
            i <= v@.len(),
            forall|j: int| 0 <= j < i ==> v@[j] != x,
        decreases v@.len() - i,
    {
        if v[i] == x {
            return true;
        }
        i += 1;
    }
    proof {
        if v@.contains(x) {
            let w = choose|w: int| 0 <= w < v@.len() && v@[w] == x;
            assert(false);
        }
    }
    false
}

} // verus!
