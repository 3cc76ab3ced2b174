//! Tables keyed by byte-string names, kept as sequences with unique keys.
use vstd::prelude::*;

verus! {

/// No two entries share a key.
pub open spec fn keys_unique<T>(s: Seq<(Seq<u8>, T)>) -> bool {
    forall|i: int, j: int|
        0 <= i < s.len() && 0 <= j < s.len() && (#[trigger] s[i]).0 == (#[trigger] s[j]).0 ==> i == j
}

/// Some entry has key `k`.
pub open spec fn has_key<T>(s: Seq<(Seq<u8>, T)>, k: Seq<u8>) -> bool {
    exists|i: int| 0 <= i < s.len() && (#[trigger] s[i]).0 == k
}

/// The value stored under `k`, if any.
pub open spec fn lookup<T>(s: Seq<(Seq<u8>, T)>, k: Seq<u8>) -> Option<T> {
    if has_key(s, k) {
        Some(s[choose|i: int| 0 <= i < s.len() && (#[trigger] s[i]).0 == k].1)
    } else {
        None
    }
}

pub proof fn lemma_lookup_at<T>(s: Seq<(Seq<u8>, T)>, i: int)
    requires
        keys_unique(s),
        0 <= i < s.len(),
    ensures
        lookup(s, s[i].0) == Some(s[i].1),
{
    assert(has_key(s, s[i].0));
}

pub proof fn lemma_lookup_absent<T>(s: Seq<(Seq<u8>, T)>, k: Seq<u8>)
    requires
        forall|i: int| 0 <= i < s.len() ==> (#[trigger] s[i]).0 != k,
    ensures
        lookup(s, k) == None::<T>,
{
}

pub proof fn lemma_update<T>(s: Seq<(Seq<u8>, T)>, i: int, v: T)
    requires
        keys_unique(s),
        0 <= i < s.len(),
    ensures
        keys_unique(s.update(i, (s[i].0, v))),
        forall|k: Seq<u8>| #[trigger]
            lookup(s.update(i, (s[i].0, v)), k) == if k == s[i].0 {
                Some(v)
            } else {
                lookup(s, k)
            },
{
    let t = s.update(i, (s[i].0, v));
    assert forall|a: int, b: int|
        0 <= a < t.len() && 0 <= b < t.len() && (#[trigger] t[a]).0 == (#[trigger] t[b]).0 implies a == b by {
        assert(s[a].0 == t[a].0);
        assert(s[b].0 == t[b].0);
    }
    assert forall|k: Seq<u8>| #[trigger]
        lookup(t, k) == if k == s[i].0 {
            Some(v)
        } else {
            lookup(s, k)
        } by {
        if k == s[i].0 {
            lemma_lookup_at(t, i);
        } else if has_key(s, k) {
            let j = choose|j: int| 0 <= j < s.len() && (#[trigger] s[j]).0 == k;
            lemma_lookup_at(s, j);
            lemma_lookup_at(t, j);
        } else {
            assert forall|j: int| 0 <= j < t.len() implies (#[trigger] t[j]).0 != k by {
                assert(t[j].0 == s[j].0);
            }
        }
    }
}

pub proof fn lemma_push<T>(s: Seq<(Seq<u8>, T)>, k: Seq<u8>, v: T)
    requires
        keys_unique(s),
        !has_key(s, k),
    ensures
        keys_unique(s.push((k, v))),
        forall|m: Seq<u8>| #[trigger]
            lookup(s.push((k, v)), m) == if m == k {
                Some(v)
            } else {
                lookup(s, m)
            },
{
    let t = s.push((k, v));
    assert forall|a: int, b: int|
        0 <= a < t.len() && 0 <= b < t.len() && (#[trigger] t[a]).0 == (#[trigger] t[b]).0 implies a == b by {
        if a < s.len() {
            assert(t[a] == s[a]);
        }
        if b < s.len() {
            assert(t[b] == s[b]);
        }
    }
    assert forall|m: Seq<u8>| #[trigger]
        lookup(t, m) == if m == k {
            Some(v)
        } else {
            lookup(s, m)
        } by {
        if m == k {
            lemma_lookup_at(t, s.len() as int);
        } else if has_key(s, m) {
            let j = choose|j: int| 0 <= j < s.len() && (#[trigger] s[j]).0 == m;
            lemma_lookup_at(s, j);
            assert(t[j] == s[j]);
            lemma_lookup_at(t, j);
        } else {
            assert forall|j: int| 0 <= j < t.len() implies (#[trigger] t[j]).0 != m by {
                if j < s.len() {
                    assert(t[j] == s[j]);
                }
            }
        }
    }
}

pub proof fn lemma_remove<T>(s: Seq<(Seq<u8>, T)>, i: int)
    requires
        keys_unique(s),
        0 <= i < s.len(),
    ensures
        keys_unique(s.remove(i)),
        forall|m: Seq<u8>| #[trigger]
            lookup(s.remove(i), m) == if m == s[i].0 {
                None
            } else {
                lookup(s, m)
            },
{
    let t = s.remove(i);
    assert forall|a: int| 0 <= a < t.len() implies #[trigger] t[a] == s[if a < i { a } else { a + 1 }] by {
    }
    assert forall|a: int, b: int|
        0 <= a < t.len() && 0 <= b < t.len() && (#[trigger] t[a]).0 == (#[trigger] t[b]).0 implies a == b by {
        let sa = if a < i { a } else { a + 1 };
        let sb = if b < i { b } else { b + 1 };
        assert(t[a] == s[sa]);
        assert(t[b] == s[sb]);
    }
    assert forall|m: Seq<u8>| #[trigger]
        lookup(t, m) == if m == s[i].0 {
            None
        } else {
            lookup(s, m)
        } by {
        if m == s[i].0 {
            assert forall|j: int| 0 <= j < t.len() implies (#[trigger] t[j]).0 != m by {
                let sj = if j < i { j } else { j + 1 };
                assert(t[j] == s[sj]);
            }
        } else if has_key(s, m) {
            let j = choose|j: int| 0 <= j < s.len() && (#[trigger] s[j]).0 == m;
            lemma_lookup_at(s, j);
            let tj = if j < i { j } else { j - 1 };
            assert(t[tj] == s[j]);
            lemma_lookup_at(t, tj);
        } else {
            assert forall|j: int| 0 <= j < t.len() implies (#[trigger] t[j]).0 != m by {
                let sj = if j < i { j } else { j + 1 };
                assert(t[j] == s[sj]);
            }
        }
    }
}

} // verus!
