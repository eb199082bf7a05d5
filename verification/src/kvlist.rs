//! Association-list reasoning shared by the persistent maps of this crate.
//!
//! Both persistent maps (account to nonce counter, height to bucket) are kept
//! as vectors of key-value pairs with pairwise distinct keys. `lookup` is the
//! mathematical reading of such a list; the lemmas relate it to the list
//! operations the executable code performs.

use vstd::prelude::*;

verus! {

/// No key occurs twice in the list.
pub open spec fn unique_keys<V>(s: Seq<(u64, V)>) -> bool {
    forall|i: int, j: int| 0 <= i < j < s.len() ==> (#[trigger] s[i]).0 != (#[trigger] s[j]).0
}

/// The value stored under `key`, reading the list front to back.
pub open spec fn lookup<V>(s: Seq<(u64, V)>, key: u64) -> Option<V>
    decreases s.len(),
{
    if s.len() == 0 {
        None
    } else if s[0].0 == key {
        Some(s[0].1)
    } else {
        lookup(s.skip(1), key)
    }
}

/// A list without `key` looks it up to nothing.
pub proof fn lemma_lookup_absent<V>(s: Seq<(u64, V)>, key: u64)
    requires
        forall|j: int| 0 <= j < s.len() ==> (#[trigger] s[j]).0 != key,
    ensures
        lookup(s, key) is None,
    decreases s.len(),
{
    if s.len() > 0 {
        let t = s.skip(1);
        assert forall|j: int| 0 <= j < t.len() implies (#[trigger] t[j]).0 != key by {
            assert(t[j] == s[j + 1]);
        }
        lemma_lookup_absent(t, key);
    }
}

/// With unique keys, the entry at position `i` is what its key looks up to.
pub proof fn lemma_lookup_found<V>(s: Seq<(u64, V)>, i: int)
    requires
        unique_keys(s),
        0 <= i < s.len(),
    ensures
        lookup(s, s[i].0) == Some(s[i].1),
    decreases i,
{
    if i > 0 {
        let t = s.skip(1);
        assert(s[0].0 != s[i].0);
        assert forall|p: int, q: int| 0 <= p < q < t.len() implies (#[trigger] t[p]).0 != (
        #[trigger] t[q]).0 by {
            assert(t[p] == s[p + 1]);
            assert(t[q] == s[q + 1]);
        }
        assert(t[i - 1] == s[i]);
        lemma_lookup_found(t, i - 1);
    }
}

/// Appending a pair resolves lookups of its key that found nothing before,
/// and leaves every other lookup as it was.
pub proof fn lemma_lookup_push<V>(s: Seq<(u64, V)>, p: (u64, V), key: u64)
    ensures
        lookup(s.push(p), key) == if lookup(s, key) is Some {
            lookup(s, key)
        } else if p.0 == key {
            Some(p.1)
        } else {
            None
        },
    decreases s.len(),
{
    let u = s.push(p);
    if s.len() == 0 {
        assert(u[0] == p);
        if p.0 != key {
            assert forall|j: int| 0 <= j < u.skip(1).len() implies (#[trigger] u.skip(1)[j]).0
                != key by {}
            lemma_lookup_absent(u.skip(1), key);
        }
    } else {
        assert(u[0] == s[0]);
        if s[0].0 != key {
            assert(u.skip(1) =~= s.skip(1).push(p));
            lemma_lookup_push(s.skip(1), p, key);
        }
    }
}

/// Replacing the entry at position `i` with one of the same key changes the
/// lookup of that key and no other.
pub proof fn lemma_lookup_update<V>(s: Seq<(u64, V)>, i: int, p: (u64, V), key: u64)
    requires
        unique_keys(s),
        0 <= i < s.len(),
        s[i].0 == p.0,
    ensures
        lookup(s.update(i, p), key) == if key == p.0 {
            Some(p.1)
        } else {
            lookup(s, key)
        },
        unique_keys(s.update(i, p)),
    decreases s.len(),
{
    let u = s.update(i, p);
    assert forall|x: int, y: int| 0 <= x < y < u.len() implies (#[trigger] u[x]).0 != (
    #[trigger] u[y]).0 by {
        assert(u[x].0 == s[x].0);
        assert(u[y].0 == s[y].0);
    }
    if key == p.0 {
        lemma_lookup_found(u, i);
    } else if i == 0 {
        assert(u.skip(1) =~= s.skip(1));
    } else {
        assert(u[0] == s[0]);
        if s[0].0 != key {
            let t = s.skip(1);
            assert forall|x: int, y: int| 0 <= x < y < t.len() implies (#[trigger] t[x]).0 != (
            #[trigger] t[y]).0 by {
                assert(t[x] == s[x + 1]);
                assert(t[y] == s[y + 1]);
            }
            assert(u.skip(1) =~= t.update(i - 1, p));
            assert(t[i - 1] == s[i]);
            lemma_lookup_update(t, i - 1, p, key);
        }
    }
}

/// Removing the entry at position `i` empties the lookup of its key and
/// leaves every other lookup as it was.
pub proof fn lemma_lookup_remove<V>(s: Seq<(u64, V)>, i: int, key: u64)
    requires
        unique_keys(s),
        0 <= i < s.len(),
    ensures
        lookup(s.remove(i), key) == if key == s[i].0 {
            None::<V>
        } else {
            lookup(s, key)
        },
        unique_keys(s.remove(i)),
    decreases s.len(),
{
    let u = s.remove(i);
    assert forall|x: int, y: int| 0 <= x < y < u.len() implies (#[trigger] u[x]).0 != (
    #[trigger] u[y]).0 by {
        assert(u[x] == if x < i { s[x] } else { s[x + 1] });
        assert(u[y] == if y < i { s[y] } else { s[y + 1] });
    }
    if key == s[i].0 {
        assert forall|j: int| 0 <= j < u.len() implies (#[trigger] u[j]).0 != key by {
            assert(u[j] == if j < i { s[j] } else { s[j + 1] });
        }
        lemma_lookup_absent(u, key);
    } else if i == 0 {
        assert(u =~= s.skip(1));
    } else {
        assert(u[0] == s[0]);
        if s[0].0 != key {
            let t = s.skip(1);
            assert forall|x: int, y: int| 0 <= x < y < t.len() implies (#[trigger] t[x]).0 != (
            #[trigger] t[y]).0 by {
                assert(t[x] == s[x + 1]);
                assert(t[y] == s[y + 1]);
            }
            assert(u.skip(1) =~= t.remove(i - 1));
            lemma_lookup_remove(t, i - 1, key);
        }
    }
}

} // verus!
