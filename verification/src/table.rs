//! Small keyed tables kept as vectors of (key, value) pairs with distinct
//! keys, seen as maps from key to value.
use vstd::prelude::*;

verus! {

/// No key occurs twice.
pub open spec fn keys_distinct<K, V>(s: Seq<(K, V)>) -> bool {
    forall|i: int, j: int| 0 <= i < j < s.len() ==> (#[trigger] s[i]).0 != (#[trigger] s[j]).0
}

/// The map from each key to the value paired with it (the later pair wins if
/// a key occurs twice).
pub open spec fn table_map<K, V>(s: Seq<(K, V)>) -> Map<K, V>
    decreases s.len(),
{
    if s.len() == 0 {
        Map::empty()
    } else {
        table_map(s.drop_last()).insert(s.last().0, s.last().1)
    }
}

/// The index of the pair with key `k`, if any.
pub open spec fn spec_position<K, V>(s: Seq<(K, V)>, k: K) -> Option<int> {
    if exists|i: int| 0 <= i < s.len() && (#[trigger] s[i]).0 == k {
        Some(choose|i: int| 0 <= i < s.len() && (#[trigger] s[i]).0 == k)
    } else {
        None
    }
}

pub proof fn lemma_table_domain<K, V>(s: Seq<(K, V)>)
    ensures
        forall|k: K|
            table_map(s).contains_key(k) <==> (exists|i: int| 0 <= i < s.len() && (#[trigger] s[i]).0 == k),
        table_map(s).dom().finite(),
    decreases s.len(),
{
    if s.len() > 0 {
        let t = s.drop_last();
        lemma_table_domain(t);
        assert forall|k: K|
            table_map(s).contains_key(k) <==> (exists|i: int| 0 <= i < s.len() && (#[trigger] s[i]).0
                == k) by {
            if table_map(s).contains_key(k) {
                if k == s.last().0 {
                    assert(s[s.len() - 1].0 == k);
                } else {
                    let i = choose|i: int| 0 <= i < t.len() && (#[trigger] t[i]).0 == k;
                    assert(s[i] == t[i]);
                }
            }
            if exists|i: int| 0 <= i < s.len() && (#[trigger] s[i]).0 == k {
                let i = choose|i: int| 0 <= i < s.len() && (#[trigger] s[i]).0 == k;
                if i < s.len() - 1 {
                    assert(t[i] == s[i]);
                }
            }
        }
    }
}

/// In a table with distinct keys, the value of the key at index `i` is the
/// value paired with it there.
pub proof fn lemma_table_value<K, V>(s: Seq<(K, V)>, i: int)
    requires
        keys_distinct(s),
        0 <= i < s.len(),
    ensures
        table_map(s).contains_key(s[i].0),
        table_map(s)[s[i].0] == s[i].1,
    decreases s.len(),
{
    let t = s.drop_last();
    if i < s.len() - 1 {
        assert(keys_distinct(t)) by {
            assert forall|a: int, b: int| 0 <= a < b < t.len() implies (#[trigger] t[a]).0 != (
            #[trigger] t[b]).0 by {
                assert(t[a] == s[a] && t[b] == s[b]);
            }
        }
        assert(t[i] == s[i]);
        lemma_table_value(t, i);
        assert(s[i].0 != s[s.len() - 1].0);
    }
}

pub proof fn lemma_table_position<K, V>(s: Seq<(K, V)>, k: K)
    requires
        keys_distinct(s),
    ensures
        spec_position(s, k) matches Some(i) ==> 0 <= i < s.len() && s[i].0 == k
            && table_map(s).contains_key(k) && table_map(s)[k] == s[i].1,
        spec_position(s, k) is None <==> !table_map(s).contains_key(k),
{
    lemma_table_domain(s);
    if let Some(i) = spec_position(s, k) {
        lemma_table_value(s, i);
    }
}

pub proof fn lemma_table_push<K, V>(s: Seq<(K, V)>, k: K, v: V)
    requires
        keys_distinct(s),
        !table_map(s).contains_key(k),
    ensures
        keys_distinct(s.push((k, v))),
        table_map(s.push((k, v))) == table_map(s).insert(k, v),
{
    lemma_table_domain(s);
    let t = s.push((k, v));
    assert(t.drop_last() =~= s);
    assert forall|a: int, b: int| 0 <= a < b < t.len() implies (#[trigger] t[a]).0 != (
    #[trigger] t[b]).0 by {
        if b == s.len() {
            assert(t[a] == s[a]);
        } else {
            assert(t[a] == s[a] && t[b] == s[b]);
        }
    }
}

pub proof fn lemma_table_remove<K, V>(s: Seq<(K, V)>, i: int)
    requires
        keys_distinct(s),
        0 <= i < s.len(),
    ensures
        keys_distinct(s.remove(i)),
        table_map(s.remove(i)) == table_map(s).remove(s[i].0),
{
    let t = s.remove(i);
    assert forall|a: int, b: int| 0 <= a < b < t.len() implies (#[trigger] t[a]).0 != (
    #[trigger] t[b]).0 by {
        let a2 = if a < i {
            a
        } else {
            a + 1
        };
        let b2 = if b < i {
            b
        } else {
            b + 1
        };
        assert(t[a] == s[a2] && t[b] == s[b2]);
    }
    lemma_table_domain(s);
    lemma_table_domain(t);
    assert forall|k: K| #[trigger] table_map(t).contains_key(k) <==> table_map(s).remove(
        s[i].0,
    ).contains_key(k) by {
        if table_map(t).contains_key(k) {
            let j = choose|j: int| 0 <= j < t.len() && (#[trigger] t[j]).0 == k;
            let j2 = if j < i {
                j
            } else {
                j + 1
            };
            assert(t[j] == s[j2]);
        }
        if table_map(s).remove(s[i].0).contains_key(k) {
            let j = choose|j: int| 0 <= j < s.len() && (#[trigger] s[j]).0 == k;
            assert(j != i);
            let j2 = if j < i {
                j
            } else {
                j - 1
            };
            assert(t[j2] == s[j]);
        }
    }
    assert forall|k: K| #[trigger] table_map(t).contains_key(k) implies table_map(t)[k]
        == table_map(s)[k] by {
        let j = choose|j: int| 0 <= j < t.len() && (#[trigger] t[j]).0 == k;
        let j2 = if j < i {
            j
        } else {
            j + 1
        };
        assert(t[j] == s[j2]);
        lemma_table_value(t, j);
        lemma_table_value(s, j2);
    }
    assert(table_map(t) =~= table_map(s).remove(s[i].0));
}

pub proof fn lemma_table_update<K, V>(s: Seq<(K, V)>, i: int, v: V)
    requires
        keys_distinct(s),
        0 <= i < s.len(),
    ensures
        keys_distinct(s.update(i, (s[i].0, v))),
        table_map(s.update(i, (s[i].0, v))) == table_map(s).insert(s[i].0, v),
{
    let t = s.update(i, (s[i].0, v));
    assert forall|a: int, b: int| 0 <= a < b < t.len() implies (#[trigger] t[a]).0 != (
    #[trigger] t[b]).0 by {
        assert(t[a].0 == s[a].0 && t[b].0 == s[b].0);
    }
    lemma_table_domain(s);
    lemma_table_domain(t);
    assert forall|k: K| #[trigger] table_map(t).contains_key(k) <==> table_map(s).insert(
        s[i].0,
        v,
    ).contains_key(k) by {
        if table_map(t).contains_key(k) {
            let j = choose|j: int| 0 <= j < t.len() && (#[trigger] t[j]).0 == k;
            assert(t[j].0 == s[j].0);
        }
        if table_map(s).contains_key(k) {
            let j = choose|j: int| 0 <= j < s.len() && (#[trigger] s[j]).0 == k;
            assert(t[j].0 == s[j].0);
        }
        assert(t[i].0 == s[i].0);
    }
    assert forall|k: K| #[trigger] table_map(t).contains_key(k) implies table_map(t)[k]
        == table_map(s).insert(s[i].0, v)[k] by {
        let j = choose|j: int| 0 <= j < t.len() && (#[trigger] t[j]).0 == k;
        lemma_table_value(t, j);
        if j != i {
            lemma_table_value(s, j);
            assert(s[j].0 != s[i].0);
        }
    }
    assert(table_map(t) =~= table_map(s).insert(s[i].0, v));
}

pub proof fn lemma_table_len<K, V>(s: Seq<(K, V)>)
    requires
        keys_distinct(s),
    ensures
        table_map(s).dom().len() == s.len(),
        table_map(s).dom().finite(),
    decreases s.len(),
{
    lemma_table_domain(s);
    if s.len() > 0 {
        let t = s.drop_last();
        assert(keys_distinct(t)) by {
            assert forall|a: int, b: int| 0 <= a < b < t.len() implies (#[trigger] t[a]).0 != (
            #[trigger] t[b]).0 by {
                assert(t[a] == s[a] && t[b] == s[b]);
            }
        }
        lemma_table_len(t);
        lemma_table_domain(t);
        if table_map(t).contains_key(s.last().0) {
            let j = choose|j: int| 0 <= j < t.len() && (#[trigger] t[j]).0 == s.last().0;
            assert(t[j] == s[j]);
            assert(false);
        }
    }
}

/// A key whose equality can be decided at run time, exactly as equality of
/// its values.
pub trait TableKey: Sized + Copy {
    fn key_eq(&self, other: &Self) -> (r: bool)
        ensures
            r == (*self == *other),
    ;
}

/// The index of the pair with key `k` in `t`, if there is one.
pub fn table_find<K: TableKey, V>(t: &Vec<(K, V)>, k: &K) -> (r: Option<usize>)
    requires
        keys_distinct(t@),
    ensures
        r matches Some(i) ==> i < t@.len() && t@[i as int].0 == *k && table_map(t@).contains_key(
            *k,
        ) && table_map(t@)[*k] == t@[i as int].1,
        r is None <==> !table_map(t@).contains_key(*k),
{
    let mut i: usize = 0;
    while i < t.len()
        invariant
            keys_distinct(t@),
            i <= t@.len(),
            forall|j: int| 0 <= j < i ==> (#[trigger] t@[j]).0 != *k,
        decreases t@.len() - i,
    {
        if t[i].0.key_eq(k) {
            proof {
                lemma_table_value(t@, i as int);
            }
            return Some(i);
        }
        i = i + 1;
    }
    proof {
        lemma_table_position(t@, *k);
    }
    None
}

/// Pairs `k` with `v` in `t`, in place of what it was paired with.
pub fn table_set<K: TableKey, V>(t: &mut Vec<(K, V)>, k: K, v: V)
    requires
        keys_distinct(old(t)@),
    ensures
        keys_distinct(final(t)@),
        table_map(final(t)@) == table_map(old(t)@).insert(k, v),
{
    match table_find(t, &k) {
        Some(i) => {
            proof {
                lemma_table_update(t@, i as int, v);
            }
            t.set(i, (k, v));
        },
        None => {
            proof {
                lemma_table_push(t@, k, v);
            }
            t.push((k, v));
        },
    }
}

/// Takes `k` and what it is paired with out of `t`.
pub fn table_take<K: TableKey, V>(t: &mut Vec<(K, V)>, k: &K) -> (r: Option<V>)
    requires
        keys_distinct(old(t)@),
    ensures
        keys_distinct(final(t)@),
        table_map(final(t)@) == table_map(old(t)@).remove(*k),
        r == if table_map(old(t)@).contains_key(*k) {
            Some(table_map(old(t)@)[*k])
        } else {
            None::<V>
        },
{
    match table_find(t, k) {
        Some(i) => {
            proof {
                lemma_table_remove(t@, i as int);
            }
            let (_, v) = t.remove(i);
            Some(v)
        },
        None => {
            assert(table_map(t@).remove(*k) =~= table_map(t@));
            None
        },
    }
}

} // verus!
