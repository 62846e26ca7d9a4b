//! Keyed tables held as vectors of entries, viewed as maps.

use vstd::prelude::*;

verus! {

/// A key of a table, compared through its view.
pub trait TableKey: Sized {
    type KeyView;

    spec fn key_view(&self) -> Self::KeyView;

    fn same_key(&self, o: &Self) -> (r: bool)
        ensures
            r == (self.key_view() == o.key_view()),
    ;
}

/// Position of the first entry with key `k`, or the entry count.
pub open spec fn index_of<K: TableKey, V>(e: Seq<(K, V)>, k: K::KeyView) -> int
    decreases e.len(),
{
    if e.len() == 0 {
        0
    } else if e[0].0.key_view() == k {
        0
    } else {
        1 + index_of(e.drop_first(), k)
    }
}

/// The table as a map from key views to values.
pub open spec fn table_view<K: TableKey, V>(e: Seq<(K, V)>) -> Map<K::KeyView, V> {
    Map::new(|k: K::KeyView| index_of(e, k) < e.len(), |k: K::KeyView| e[index_of(e, k)].1)
}

pub open spec fn keys_unique<K: TableKey, V>(e: Seq<(K, V)>) -> bool {
    forall|i: int, j: int|
        0 <= i < j < e.len() ==> #[trigger] e[i].0.key_view() != #[trigger] e[j].0.key_view()
}

pub proof fn lemma_index_of<K: TableKey, V>(e: Seq<(K, V)>, k: K::KeyView)
    ensures
        0 <= index_of(e, k) <= e.len(),
        index_of(e, k) < e.len() ==> e[index_of(e, k)].0.key_view() == k,
        forall|j: int| 0 <= j < index_of(e, k) ==> #[trigger] e[j].0.key_view() != k,
    decreases e.len(),
{
    if e.len() > 0 && e[0].0.key_view() != k {
        lemma_index_of(e.drop_first(), k);
        assert forall|j: int| 0 <= j < index_of(e, k) implies #[trigger] e[j].0.key_view() != k by {
            if j > 0 {
                assert(e[j] == e.drop_first()[j - 1]);
            }
        }
    }
}

/// The first-match position is the one its description gives.
pub proof fn lemma_index_is<K: TableKey, V>(e: Seq<(K, V)>, k: K::KeyView, i: int)
    requires
        0 <= i <= e.len(),
        i < e.len() ==> e[i].0.key_view() == k,
        forall|j: int| 0 <= j < i ==> #[trigger] e[j].0.key_view() != k,
    ensures
        index_of(e, k) == i,
{
    lemma_index_of(e, k);
    let f = index_of(e, k);
    if f < i {
        assert(e[f].0.key_view() == k);
    } else if f > i {
        assert(e[i].0.key_view() != k);
    }
}

/// Replacing the value of the first entry with a key changes that key
/// only.
pub proof fn lemma_view_update<K: TableKey, V>(e: Seq<(K, V)>, i: int, v: V)
    requires
        0 <= i < e.len(),
        index_of(e, e[i].0.key_view()) == i,
    ensures
        table_view(e.update(i, (e[i].0, v))) == table_view(e).insert(e[i].0.key_view(), v),
        keys_unique(e) ==> keys_unique(e.update(i, (e[i].0, v))),
{
    let n = e.update(i, (e[i].0, v));
    assert forall|k: K::KeyView| #[trigger] index_of(n, k) == index_of(e, k) by {
        lemma_index_of(e, k);
        assert forall|j: int| 0 <= j < n.len() implies #[trigger] n[j].0.key_view() == e[
            j
        ].0.key_view() by {}
        let f = index_of(e, k);
        lemma_index_is(n, k, f);
    }
    let ki = e[i].0.key_view();
    assert forall|k: K::KeyView| #[trigger] table_view(n).contains_key(k) implies table_view(n)[k]
        == table_view(e).insert(ki, v)[k] by {
        lemma_index_of(e, k);
        if k != ki {
            assert(index_of(e, k) != i);
        }
    }
    assert(table_view(n) =~= table_view(e).insert(ki, v));
    if keys_unique(e) {
        assert forall|a: int, b: int| 0 <= a < b < n.len() implies #[trigger] n[a].0.key_view()
            != #[trigger] n[b].0.key_view() by {
            assert(n[a].0 == e[a].0);
            assert(n[b].0 == e[b].0);
        }
    }
}

/// Adding an entry for a new key adds that key only.
pub proof fn lemma_view_push<K: TableKey, V>(e: Seq<(K, V)>, k: K, v: V)
    requires
        !table_view(e).contains_key(k.key_view()),
    ensures
        table_view(e.push((k, v))) == table_view(e).insert(k.key_view(), v),
        keys_unique(e) ==> keys_unique(e.push((k, v))),
{
    let n = e.push((k, v));
    lemma_index_of(e, k.key_view());
    assert forall|j: int| 0 <= j < e.len() implies #[trigger] n[j] == e[j] by {}
    lemma_index_is(n, k.key_view(), e.len() as int);
    assert forall|t: K::KeyView| t != k.key_view() implies (index_of(e, t) < e.len() ==> #[trigger] index_of(n, t) == index_of(e, t)) && (index_of(e, t) >= e.len() ==> index_of(n, t) == n.len()) by {
        lemma_index_of(e, t);
        let f = index_of(e, t);
        if f < e.len() {
            lemma_index_is(n, t, f);
        } else {
            lemma_index_is(n, t, n.len() as int);
        }
    }
    assert forall|t: K::KeyView| #[trigger] table_view(n).contains_key(t) implies table_view(n)[t]
        == table_view(e).insert(k.key_view(), v)[t] by {
        lemma_index_of(e, t);
        if t != k.key_view() {
            assert(index_of(n, t) == index_of(e, t));
            assert(index_of(e, t) < e.len());
        }
    }
    assert(table_view(n) =~= table_view(e).insert(k.key_view(), v));
    if keys_unique(e) {
        assert forall|i: int, j: int| 0 <= i < j < n.len() implies #[trigger] n[i].0.key_view()
            != #[trigger] n[j].0.key_view() by {
            if j == e.len() {
                assert(n[i] == e[i]);
            }
        }
    }
}

/// Adding an entry for a new key at any position adds that key only.
pub proof fn lemma_view_insert<K: TableKey, V>(e: Seq<(K, V)>, pos: int, k: K, v: V)
    requires
        0 <= pos <= e.len(),
        !table_view(e).contains_key(k.key_view()),
    ensures
        table_view(e.insert(pos, (k, v))) == table_view(e).insert(k.key_view(), v),
        keys_unique(e) ==> keys_unique(e.insert(pos, (k, v))),
{
    let n = e.insert(pos, (k, v));
    lemma_index_of(e, k.key_view());
    assert forall|j: int| 0 <= j < pos implies #[trigger] n[j] == e[j] by {}
    assert forall|j: int| pos < j < n.len() implies #[trigger] n[j] == e[j - 1] by {}
    assert forall|t: K::KeyView| t != k.key_view() implies (index_of(e, t) < e.len() ==> (
    #[trigger] index_of(n, t) == if index_of(e, t) < pos {
        index_of(e, t)
    } else {
        index_of(e, t) + 1
    })) && (index_of(e, t) >= e.len() ==> index_of(n, t) == n.len()) by {
        lemma_index_of(e, t);
        let f = index_of(e, t);
        if f < e.len() {
            if f < pos {
                lemma_index_is(n, t, f);
            } else {
                assert forall|j: int| 0 <= j < f + 1 implies #[trigger] n[j].0.key_view() != t by {
                    if j > pos {
                        assert(n[j] == e[j - 1]);
                    }
                }
                lemma_index_is(n, t, f + 1);
            }
        } else {
            assert forall|j: int| 0 <= j < n.len() implies #[trigger] n[j].0.key_view() != t by {
                if j > pos {
                    assert(n[j] == e[j - 1]);
                } else if j < pos {
                    assert(n[j] == e[j]);
                }
            }
            lemma_index_is(n, t, n.len() as int);
        }
    }
    lemma_index_is(n, k.key_view(), pos);
    assert forall|t: K::KeyView| #[trigger] table_view(n).contains_key(t) implies table_view(n)[t]
        == table_view(e).insert(k.key_view(), v)[t] by {
        lemma_index_of(e, t);
    }
    assert(table_view(n) =~= table_view(e).insert(k.key_view(), v));
    if keys_unique(e) {
        assert forall|a: int, b: int| 0 <= a < b < n.len() implies #[trigger] n[a].0.key_view()
            != #[trigger] n[b].0.key_view() by {
            if a == pos {
                assert(n[b] == e[b - 1]);
            } else if b == pos {
                assert(n[a] == e[a]);
            } else if a < pos && b > pos {
                assert(n[a] == e[a]);
                assert(n[b] == e[b - 1]);
            } else if a > pos {
                assert(n[a] == e[a - 1]);
                assert(n[b] == e[b - 1]);
            } else {
                assert(n[a] == e[a]);
                assert(n[b] == e[b]);
            }
        }
    }
}

/// Every entry that `kept` keeps is an entry of the table, and two kept
/// entries stand in the table in the same order.
pub proof fn lemma_kept_entries<K, V>(e: Seq<(K, V)>, keep: spec_fn(V) -> bool)
    ensures
        forall|i: int|
            0 <= i < kept(e, keep).len() ==> exists|j: int|
                0 <= j < e.len() && #[trigger] kept(e, keep)[i] == e[j],
        forall|a: int, b: int|
            0 <= a < b < kept(e, keep).len() ==> exists|x: int, y: int|
                0 <= x < y < e.len() && #[trigger] kept(e, keep)[a] == e[x] && #[trigger] kept(
                    e,
                    keep,
                )[b] == e[y],
    decreases e.len(),
{
    if e.len() > 0 {
        let p = e.drop_last();
        lemma_kept_entries(p, keep);
        let kp = kept(p, keep);
        assert forall|i: int| 0 <= i < kept(e, keep).len() implies exists|j: int|
            0 <= j < e.len() && #[trigger] kept(e, keep)[i] == e[j] by {
            if i < kp.len() {
                assert(kept(e, keep)[i] == kp[i]);
                let j = choose|j: int| 0 <= j < p.len() && kp[i] == p[j];
                assert(e[j] == p[j]);
            } else {
                assert(kept(e, keep)[i] == e[e.len() - 1]);
            }
        }
        assert forall|a: int, b: int| 0 <= a < b < kept(e, keep).len() implies exists|x: int, y: int|
            0 <= x < y < e.len() && #[trigger] kept(e, keep)[a] == e[x] && #[trigger] kept(
                e,
                keep,
            )[b] == e[y] by {
            if b < kp.len() {
                assert(kept(e, keep)[a] == kp[a]);
                assert(kept(e, keep)[b] == kp[b]);
                let (x, y) = choose|x: int, y: int|
                    0 <= x < y < p.len() && kp[a] == p[x] && kp[b] == p[y];
                assert(e[x] == p[x] && e[y] == p[y]);
            } else {
                assert(kept(e, keep)[a] == kp[a]);
                assert(kept(e, keep)[b] == e[e.len() - 1]);
                let x = choose|x: int| 0 <= x < p.len() && kp[a] == p[x];
                assert(e[x] == p[x]);
                assert(kept(e, keep)[a] == e[x] && kept(e, keep)[b] == e[e.len() - 1]);
            }
        }
    }
}

/// Position of the first entry whose key matches `k`.
pub fn find<K: TableKey, V>(e: &Vec<(K, V)>, k: &K) -> (r: usize)
    ensures
        r == index_of(e@, k.key_view()),
        r <= e.len(),
{
    let mut i: usize = 0;
    while i < e.len()
        invariant
            i <= e.len(),
            forall|j: int| 0 <= j < i ==> #[trigger] e@[j].0.key_view() != k.key_view(),
        decreases e.len() - i,
    {
        if e[i].0.same_key(k) {
            proof {
                lemma_index_is(e@, k.key_view(), i as int);
            }
            return i;
        }
        i = i + 1;
    }
    proof {
        lemma_index_is(e@, k.key_view(), i as int);
    }
    i
}

/// The entries of `e` whose values satisfy `keep`, in order.
pub open spec fn kept<K, V>(e: Seq<(K, V)>, keep: spec_fn(V) -> bool) -> Seq<(K, V)>
    decreases e.len(),
{
    if e.len() == 0 {
        e
    } else {
        let p = kept(e.drop_last(), keep);
        if keep(e.last().1) {
            p.push(e.last())
        } else {
            p
        }
    }
}

/// The map `m` without the keys whose values fail `keep`.
pub open spec fn map_kept<KV, V>(m: Map<KV, V>, keep: spec_fn(V) -> bool) -> Map<KV, V> {
    Map::new(|k: KV| m.contains_key(k) && keep(m[k]), |k: KV| m[k])
}

/// Keeping the entries that pass a test keeps exactly those keys.
pub proof fn lemma_view_kept<K: TableKey, V>(e: Seq<(K, V)>, keep: spec_fn(V) -> bool)
    requires
        keys_unique(e),
    ensures
        keys_unique(kept(e, keep)),
        table_view(kept(e, keep)) == map_kept(table_view(e), keep),
        forall|t: K::KeyView| #[trigger] table_view(kept(e, keep)).contains_key(t) ==> table_view(
            e,
        ).contains_key(t),
    decreases e.len(),
{
    if e.len() == 0 {
        assert(table_view(kept(e, keep)) =~= map_kept(table_view(e), keep));
    } else {
        let p = e.drop_last();
        let x = e.last();
        assert(keys_unique(p));
        lemma_view_kept(p, keep);
        assert(e == p.push(x));
        assert(!table_view(p).contains_key(x.0.key_view())) by {
            lemma_index_of(p, x.0.key_view());
            if index_of(p, x.0.key_view()) < p.len() {
                let f = index_of(p, x.0.key_view());
                assert(e[f].0.key_view() == e[e.len() - 1].0.key_view());
            }
        }
        lemma_view_push(p, x.0, x.1);
        let kp = kept(p, keep);
        assert(!table_view(kp).contains_key(x.0.key_view()));
        if keep(x.1) {
            lemma_view_push(kp, x.0, x.1);
        }
        assert(table_view(kept(e, keep)) =~= map_kept(table_view(e), keep));
    }
}

} // verus!
