//! Association sequences: the mathematical model shared by every keyed
//! collection in this crate (translation stores, page counters, check
//! reports). A collection is a sequence of `(key, value)` pairs with
//! pairwise-distinct keys; `lookup` is its reading as a finite map.

use vstd::prelude::*;

verus! {

/// First-match lookup of `k` in a pair sequence.
pub open spec fn lookup<T>(s: Seq<(Seq<char>, T)>, k: Seq<char>) -> Option<T>
    decreases s.len(),
{
    if s.len() == 0 {
        None
    } else if s[0].0 == k {
        Some(s[0].1)
    } else {
        lookup(s.drop_first(), k)
    }
}

/// The keys of a pair sequence, in order.
pub open spec fn pair_keys<T>(s: Seq<(Seq<char>, T)>) -> Seq<Seq<char>> {
    s.map_values(|p: (Seq<char>, T)| p.0)
}

/// No key occurs twice.
pub open spec fn keys_distinct<T>(s: Seq<(Seq<char>, T)>) -> bool {
    forall|i: int, j: int| 0 <= i < j < s.len() ==> s[i].0 != s[j].0
}

/// If the first `i` pairs all miss `k`, the lookup is decided by the rest.
pub proof fn lemma_lookup_skip<T>(s: Seq<(Seq<char>, T)>, k: Seq<char>, i: int)
    requires
        0 <= i <= s.len(),
        forall|j: int| 0 <= j < i ==> s[j].0 != k,
    ensures
        lookup(s, k) == lookup(s.skip(i), k),
    decreases i,
{
    if i > 0 {
        lemma_lookup_skip(s.drop_first(), k, i - 1);
        assert(s.drop_first().skip(i - 1) =~= s.skip(i));
    } else {
        assert(s.skip(0) =~= s);
    }
}

/// A pair at `i` whose key is missed by everything before it is the result
/// of the lookup.
pub proof fn lemma_lookup_at<T>(s: Seq<(Seq<char>, T)>, i: int)
    requires
        0 <= i < s.len(),
        forall|j: int| 0 <= j < i ==> s[j].0 != s[i].0,
    ensures
        lookup(s, s[i].0) == Some(s[i].1),
{
    lemma_lookup_skip(s, s[i].0, i);
    assert(s.skip(i)[0] == s[i]);
}

/// A key missed by every pair looks up to `None`.
pub proof fn lemma_lookup_none<T>(s: Seq<(Seq<char>, T)>, k: Seq<char>)
    requires
        forall|j: int| 0 <= j < s.len() ==> s[j].0 != k,
    ensures
        lookup(s, k) == None::<T>,
{
    lemma_lookup_skip(s, k, s.len() as int);
    assert(s.skip(s.len() as int) =~= Seq::<(Seq<char>, T)>::empty());
}

/// Replacing the value of the first occurrence of a key changes only that
/// key's lookup.
pub proof fn lemma_lookup_update<T>(s: Seq<(Seq<char>, T)>, i: int, v: T, k: Seq<char>)
    requires
        0 <= i < s.len(),
        forall|j: int| 0 <= j < i ==> s[j].0 != s[i].0,
    ensures
        lookup(s.update(i, (s[i].0, v)), k) == if k == s[i].0 {
            Some(v)
        } else {
            lookup(s, k)
        },
    decreases i,
{
    let t = s.update(i, (s[i].0, v));
    if i == 0 {
        assert(t.drop_first() =~= s.drop_first());
    } else {
        lemma_lookup_update(s.drop_first(), i - 1, v, k);
        assert(t.drop_first() =~= s.drop_first().update(i - 1, (s[i].0, v)));
        assert(t[0] == s[0]);
    }
}

/// Appending a pair with a fresh key changes only that key's lookup.
pub proof fn lemma_lookup_push<T>(s: Seq<(Seq<char>, T)>, p: (Seq<char>, T), k: Seq<char>)
    requires
        forall|j: int| 0 <= j < s.len() ==> s[j].0 != p.0,
    ensures
        lookup(s.push(p), k) == if k == p.0 {
            Some(p.1)
        } else {
            lookup(s, k)
        },
    decreases s.len(),
{
    if s.len() == 0 {
        assert(s.push(p)[0] == p);
        if k != p.0 {
            assert(s.push(p).drop_first() =~= Seq::<(Seq<char>, T)>::empty());
            assert(lookup(s.push(p), k) == lookup(s.push(p).drop_first(), k));
            assert(lookup(s.push(p), k) == None::<T>);
            assert(lookup(s, k) == None::<T>);
        } else {
            assert(lookup(s.push(p), k) == Some(p.1));
        }
    } else {
        assert(forall|j: int|
            0 <= j < s.drop_first().len() ==> #[trigger] s.drop_first()[j].0 == s[j + 1].0);
        lemma_lookup_push(s.drop_first(), p, k);
        assert(s.push(p).drop_first() =~= s.drop_first().push(p));
        assert(s.push(p)[0] == s[0]);
        if s[0].0 == k {
            assert(lookup(s.push(p), k) == Some(s[0].1));
            assert(lookup(s, k) == Some(s[0].1));
        } else {
            assert(lookup(s.push(p), k) == lookup(s.drop_first().push(p), k));
            assert(lookup(s, k) == lookup(s.drop_first(), k));
        }
    }
}

/// Removing the only occurrence of a key erases that key's lookup and
/// leaves every other lookup unchanged.
pub proof fn lemma_lookup_remove<T>(s: Seq<(Seq<char>, T)>, i: int, k: Seq<char>)
    requires
        0 <= i < s.len(),
        keys_distinct(s),
    ensures
        lookup(s.remove(i), k) == if k == s[i].0 {
            None::<T>
        } else {
            lookup(s, k)
        },
    decreases i,
{
    let t = s.remove(i);
    if i == 0 {
        assert(t =~= s.drop_first());
        if k == s[0].0 {
            lemma_lookup_none(t, k);
        }
    } else {
        lemma_lookup_remove(s.drop_first(), i - 1, k);
        assert(t.drop_first() =~= s.drop_first().remove(i - 1));
        assert(t[0] == s[0]);
    }
}

/// The pair sequence after binding `k` to `v`: the first occurrence of `k`
/// is replaced, or the pair is appended when `k` is absent.
pub open spec fn set_key<T>(s: Seq<(Seq<char>, T)>, k: Seq<char>, v: T) -> Seq<(Seq<char>, T)>
    decreases s.len(),
{
    if s.len() == 0 {
        seq![(k, v)]
    } else if s[0].0 == k {
        seq![(k, v)] + s.drop_first()
    } else {
        seq![s[0]] + set_key(s.drop_first(), k, v)
    }
}

/// A miss of every pair means a miss of the lookup.
pub proof fn lemma_no_index_lookup_none<T>(s: Seq<(Seq<char>, T)>, k: Seq<char>)
    requires
        lookup(s, k) is None,
    ensures
        forall|j: int| 0 <= j < s.len() ==> s[j].0 != k,
    decreases s.len(),
{
    if s.len() > 0 {
        assert(s[0].0 != k);
        lemma_no_index_lookup_none(s.drop_first(), k);
        assert forall|j: int| 0 <= j < s.len() implies s[j].0 != k by {
            if j >= 1 {
                assert(s.drop_first()[j - 1] == s[j]);
            }
        }
    }
}

/// `set_key` at the first occurrence is an in-place update.
pub proof fn lemma_set_key_update<T>(s: Seq<(Seq<char>, T)>, i: int, v: T)
    requires
        0 <= i < s.len(),
        forall|j: int| 0 <= j < i ==> s[j].0 != s[i].0,
    ensures
        set_key(s, s[i].0, v) == s.update(i, (s[i].0, v)),
    decreases i,
{
    let k = s[i].0;
    if i == 0 {
        assert(set_key(s, k, v) =~= s.update(0, (k, v)));
    } else {
        assert(forall|j: int|
            0 <= j < i - 1 ==> #[trigger] s.drop_first()[j].0 == s[j + 1].0);
        assert(s.drop_first()[i - 1] == s[i]);
        lemma_set_key_update(s.drop_first(), i - 1, v);
        assert(set_key(s, k, v) =~= s.update(i, (k, v)));
    }
}

/// `set_key` of an absent key is an append.
pub proof fn lemma_set_key_push<T>(s: Seq<(Seq<char>, T)>, k: Seq<char>, v: T)
    requires
        forall|j: int| 0 <= j < s.len() ==> s[j].0 != k,
    ensures
        set_key(s, k, v) == s.push((k, v)),
    decreases s.len(),
{
    if s.len() == 0 {
        assert(set_key(s, k, v) =~= s.push((k, v)));
    } else {
        assert(forall|j: int|
            0 <= j < s.drop_first().len() ==> #[trigger] s.drop_first()[j].0 == s[j + 1].0);
        lemma_set_key_push(s.drop_first(), k, v);
        assert(set_key(s, k, v) =~= s.push((k, v)));
    }
}

/// What `set_key` does to lookups, keys and distinctness.
pub proof fn lemma_set_key_props<T>(s: Seq<(Seq<char>, T)>, k: Seq<char>, v: T)
    requires
        keys_distinct(s),
    ensures
        keys_distinct(set_key(s, k, v)),
        pair_keys(set_key(s, k, v)) == if lookup(s, k) is Some {
            pair_keys(s)
        } else {
            pair_keys(s).push(k)
        },
        forall|k2: Seq<char>|
            #[trigger] lookup(set_key(s, k, v), k2) == if k2 == k {
                Some(v)
            } else {
                lookup(s, k2)
            },
        lookup(s, k) is Some ==> set_key(s, k, v).len() == s.len(),
        lookup(s, k) is None ==> set_key(s, k, v).len() == s.len() + 1,
{
    if lookup(s, k) is Some {
        let i = lemma_lookup_some_index(s, k);
        assert(forall|j: int| 0 <= j < i ==> s[j].0 != s[i].0);
        lemma_set_key_update(s, i, v);
        let t = s.update(i, (k, v));
        assert(pair_keys(t) =~= pair_keys(s));
        assert forall|k2: Seq<char>|
            #[trigger] lookup(t, k2) == if k2 == k {
                Some(v)
            } else {
                lookup(s, k2)
            } by {
            lemma_lookup_update(s, i, v, k2);
        }
    } else {
        lemma_no_index_lookup_none(s, k);
        lemma_set_key_push(s, k, v);
        let t = s.push((k, v));
        assert(pair_keys(t) =~= pair_keys(s).push(k));
        assert forall|k2: Seq<char>|
            #[trigger] lookup(t, k2) == if k2 == k {
                Some(v)
            } else {
                lookup(s, k2)
            } by {
            lemma_lookup_push(s, (k, v), k2);
        }
    }
}

/// The pair sequence after unbinding `k`: the first occurrence of `k` is
/// dropped; an absent key leaves the sequence as it stands.
pub open spec fn remove_key<T>(s: Seq<(Seq<char>, T)>, k: Seq<char>) -> Seq<(Seq<char>, T)>
    decreases s.len(),
{
    if s.len() == 0 {
        s
    } else if s[0].0 == k {
        s.drop_first()
    } else {
        seq![s[0]] + remove_key(s.drop_first(), k)
    }
}

/// `remove_key` at the first occurrence drops exactly that pair.
pub proof fn lemma_remove_key_at<T>(s: Seq<(Seq<char>, T)>, i: int)
    requires
        0 <= i < s.len(),
        forall|j: int| 0 <= j < i ==> s[j].0 != s[i].0,
    ensures
        remove_key(s, s[i].0) == s.remove(i),
    decreases i,
{
    let k = s[i].0;
    if i == 0 {
        assert(remove_key(s, k) =~= s.remove(0));
    } else {
        assert(forall|j: int|
            0 <= j < i - 1 ==> #[trigger] s.drop_first()[j].0 == s[j + 1].0);
        assert(s.drop_first()[i - 1] == s[i]);
        lemma_remove_key_at(s.drop_first(), i - 1);
        assert(remove_key(s, k) =~= s.remove(i));
    }
}

/// `remove_key` of an absent key changes nothing.
pub proof fn lemma_remove_key_absent<T>(s: Seq<(Seq<char>, T)>, k: Seq<char>)
    requires
        forall|j: int| 0 <= j < s.len() ==> s[j].0 != k,
    ensures
        remove_key(s, k) == s,
    decreases s.len(),
{
    if s.len() > 0 {
        assert(forall|j: int|
            0 <= j < s.drop_first().len() ==> #[trigger] s.drop_first()[j].0 == s[j + 1].0);
        lemma_remove_key_absent(s.drop_first(), k);
        assert(remove_key(s, k) =~= s);
    }
}

/// What `remove_key` does to lookups, keys and distinctness.
pub proof fn lemma_remove_key_props<T>(s: Seq<(Seq<char>, T)>, k: Seq<char>)
    requires
        keys_distinct(s),
    ensures
        keys_distinct(remove_key(s, k)),
        forall|k2: Seq<char>|
            #[trigger] lookup(remove_key(s, k), k2) == if k2 == k {
                None::<T>
            } else {
                lookup(s, k2)
            },
        lookup(s, k) is Some ==> remove_key(s, k).len() == s.len() - 1,
        lookup(s, k) is None ==> remove_key(s, k) == s,
{
    if lookup(s, k) is Some {
        let i = lemma_lookup_some_index(s, k);
        assert(forall|j: int| 0 <= j < i ==> s[j].0 != s[i].0);
        lemma_remove_key_at(s, i);
        let t = s.remove(i);
        assert forall|a: int, b: int| 0 <= a < b < t.len() implies t[a].0 != t[b].0 by {
            if b < i {
                assert(t[a] == s[a] && t[b] == s[b]);
            } else if a < i {
                assert(t[a] == s[a] && t[b] == s[b + 1]);
            } else {
                assert(t[a] == s[a + 1] && t[b] == s[b + 1]);
            }
        }
        assert forall|k2: Seq<char>|
            #[trigger] lookup(t, k2) == if k2 == k {
                None::<T>
            } else {
                lookup(s, k2)
            } by {
            lemma_lookup_remove(s, i, k2);
        }
    } else {
        lemma_no_index_lookup_none(s, k);
        lemma_remove_key_absent(s, k);
    }
}

/// `remove_key` commutes with a value map.
pub proof fn lemma_remove_key_map_values<A, B>(
    s: Seq<(Seq<char>, A)>,
    f: spec_fn(A) -> B,
    k: Seq<char>,
)
    ensures
        map_entry_values(remove_key(s, k), f) == remove_key(map_entry_values(s, f), k),
    decreases s.len(),
{
    let lhs = map_entry_values(remove_key(s, k), f);
    let rhs = remove_key(map_entry_values(s, f), k);
    if s.len() == 0 {
        assert(lhs =~= rhs);
    } else if s[0].0 == k {
        assert(map_entry_values(s, f)[0].0 == k);
        assert(lhs =~= rhs);
    } else {
        lemma_remove_key_map_values(s.drop_first(), f, k);
        assert(map_entry_values(s, f)[0].0 == s[0].0);
        assert(map_entry_values(s, f).drop_first() =~= map_entry_values(s.drop_first(), f));
        assert(lhs =~= seq![map_entry_values(s, f)[0]] + map_entry_values(
            remove_key(s.drop_first(), k),
            f,
        ));
        assert(lhs =~= rhs);
    }
}

/// Mapping a function over the values of a pair sequence.
pub open spec fn map_entry_values<A, B>(
    s: Seq<(Seq<char>, A)>,
    f: spec_fn(A) -> B,
) -> Seq<(Seq<char>, B)> {
    s.map_values(|p: (Seq<char>, A)| (p.0, f(p.1)))
}

/// Value maps keep the keys and carry lookups through `f`.
pub proof fn lemma_lookup_map_values<A, B>(s: Seq<(Seq<char>, A)>, f: spec_fn(A) -> B, k: Seq<char>)
    ensures
        pair_keys(map_entry_values(s, f)) == pair_keys(s),
        lookup(map_entry_values(s, f), k) == match lookup(s, k) {
            Some(v) => Some(f(v)),
            None => None::<B>,
        },
        keys_distinct(map_entry_values(s, f)) == keys_distinct(s),
    decreases s.len(),
{
    let m = map_entry_values(s, f);
    assert(pair_keys(m) =~= pair_keys(s));
    assert(forall|i: int| 0 <= i < s.len() ==> #[trigger] m[i].0 == s[i].0);
    if keys_distinct(s) {
        assert forall|i: int, j: int| 0 <= i < j < m.len() implies m[i].0 != m[j].0 by {
            assert(s[i].0 != s[j].0);
        }
        assert(keys_distinct(m));
    } else {
        let (i, j): (int, int) = choose|i: int, j: int|
            0 <= i < j < s.len() && s[i].0 == s[j].0;
        assert(m[i].0 == m[j].0);
        assert(!keys_distinct(m));
    }
    if s.len() > 0 {
        lemma_lookup_map_values(s.drop_first(), f, k);
        assert(map_entry_values(s, f).drop_first() =~= map_entry_values(s.drop_first(), f));
        assert(map_entry_values(s, f)[0].0 == s[0].0);
    }
}

/// `set_key` commutes with a value map.
pub proof fn lemma_set_key_map_values<A, B>(
    s: Seq<(Seq<char>, A)>,
    f: spec_fn(A) -> B,
    k: Seq<char>,
    v: A,
)
    ensures
        map_entry_values(set_key(s, k, v), f) == set_key(map_entry_values(s, f), k, f(v)),
    decreases s.len(),
{
    let lhs = map_entry_values(set_key(s, k, v), f);
    let rhs = set_key(map_entry_values(s, f), k, f(v));
    if s.len() == 0 {
        assert(lhs =~= rhs);
    } else if s[0].0 == k {
        assert(map_entry_values(s, f)[0].0 == k);
        assert(lhs =~= rhs);
    } else {
        lemma_set_key_map_values(s.drop_first(), f, k, v);
        assert(map_entry_values(s, f)[0].0 == s[0].0);
        assert(map_entry_values(s, f).drop_first() =~= map_entry_values(s.drop_first(), f));
        assert(lhs =~= seq![map_entry_values(s, f)[0]] + map_entry_values(
            set_key(s.drop_first(), k, v),
            f,
        ));
        assert(lhs =~= rhs);
    }
}

/// A lookup hit names some pair of the sequence.
pub proof fn lemma_lookup_some_index<T>(s: Seq<(Seq<char>, T)>, k: Seq<char>) -> (i: int)
    requires
        lookup(s, k) is Some,
    ensures
        0 <= i < s.len(),
        s[i].0 == k,
        s[i].1 == lookup(s, k)->0,
    decreases s.len(),
{
    if s[0].0 == k {
        0
    } else {
        lemma_lookup_some_index(s.drop_first(), k) + 1
    }
}

} // verus!
