//! Tables kept as vectors of (key, value) pairs in which no key occurs twice, seen as maps.
use vstd::prelude::*;

verus! {

/// No key occurs twice in the table.
pub open spec fn keys_unique<K, V>(t: Seq<(K, V)>) -> bool {
    forall|i: int, j: int| 0 <= i < t.len() && 0 <= j < t.len() && #[trigger] t[i].0 == #[trigger] t[j].0 ==> i == j
}

/// The table as a map from keys to values.
pub open spec fn assoc_map<K, V>(t: Seq<(K, V)>) -> Map<K, V> {
    Map::new(
        |k: K| exists|i: int| 0 <= i < t.len() && #[trigger] t[i].0 == k,
        |k: K| t[choose|i: int| 0 <= i < t.len() && #[trigger] t[i].0 == k].1,
    )
}

pub proof fn lemma_assoc_at<K, V>(t: Seq<(K, V)>, i: int)
    requires
        keys_unique(t),
        0 <= i < t.len(),
    ensures
        assoc_map(t).contains_key(t[i].0),
        assoc_map(t)[t[i].0] == t[i].1,
{
    let k = t[i].0;
    assert(t[i].0 == k);
    let c = choose|j: int| 0 <= j < t.len() && #[trigger] t[j].0 == k;
    assert(t[c].0 == t[i].0);
}

pub proof fn lemma_assoc_absent<K, V>(t: Seq<(K, V)>, k: K)
    requires
        forall|j: int| 0 <= j < t.len() ==> t[j].0 != k,
    ensures
        !assoc_map(t).contains_key(k),
{
    if assoc_map(t).contains_key(k) {
        let j = choose|j: int| 0 <= j < t.len() && #[trigger] t[j].0 == k;
        assert(t[j].0 != k);
    }
}

pub proof fn lemma_assoc_update<K, V>(t: Seq<(K, V)>, i: int, v: V)
    requires
        keys_unique(t),
        0 <= i < t.len(),
    ensures
        keys_unique(t.update(i, (t[i].0, v))),
        assoc_map(t.update(i, (t[i].0, v))) == assoc_map(t).insert(t[i].0, v),
{
    let u = t.update(i, (t[i].0, v));
    assert forall|a: int, b: int| 0 <= a < u.len() && 0 <= b < u.len() && #[trigger] u[a].0 == #[trigger] u[b].0 implies a == b by {
        assert(u[a].0 == t[a].0);
        assert(u[b].0 == t[b].0);
    }
    lemma_assoc_at(u, i);
    assert forall|k: K| #[trigger] assoc_map(u).contains_key(k) == assoc_map(t).insert(t[i].0, v).contains_key(k) by {
        if assoc_map(u).contains_key(k) {
            let j = choose|j: int| 0 <= j < u.len() && #[trigger] u[j].0 == k;
            assert(t[j].0 == k);
        }
        if assoc_map(t).contains_key(k) {
            let j = choose|j: int| 0 <= j < t.len() && #[trigger] t[j].0 == k;
            assert(u[j].0 == k);
        }
    }
    assert forall|k: K| #[trigger] assoc_map(u).contains_key(k) implies assoc_map(u)[k] == assoc_map(t).insert(t[i].0, v)[k] by {
        let j = choose|j: int| 0 <= j < u.len() && #[trigger] u[j].0 == k;
        lemma_assoc_at(u, j);
        if j != i {
            lemma_assoc_at(t, j);
            assert(t[j].0 != t[i].0);
        }
    }
    assert(assoc_map(u) =~= assoc_map(t).insert(t[i].0, v));
}

pub proof fn lemma_assoc_push<K, V>(t: Seq<(K, V)>, k: K, v: V)
    requires
        keys_unique(t),
        !assoc_map(t).contains_key(k),
    ensures
        keys_unique(t.push((k, v))),
        assoc_map(t.push((k, v))) == assoc_map(t).insert(k, v),
{
    let u = t.push((k, v));
    assert forall|a: int, b: int| 0 <= a < u.len() && 0 <= b < u.len() && #[trigger] u[a].0 == #[trigger] u[b].0 implies a == b by {
        if a < t.len() {
            assert(t[a].0 == u[a].0);
            if b == t.len() {
                assert(t[a].0 == k);
            }
        }
        if b < t.len() {
            assert(t[b].0 == u[b].0);
            if a == t.len() {
                assert(t[b].0 == k);
            }
        }
    }
    lemma_assoc_at(u, t.len() as int);
    assert forall|g: K| #[trigger] assoc_map(u).contains_key(g) == assoc_map(t).insert(k, v).contains_key(g) by {
        if assoc_map(u).contains_key(g) && g != k {
            let j = choose|j: int| 0 <= j < u.len() && #[trigger] u[j].0 == g;
            assert(t[j].0 == g);
        }
        if assoc_map(t).contains_key(g) {
            let j = choose|j: int| 0 <= j < t.len() && #[trigger] t[j].0 == g;
            assert(u[j].0 == g);
        }
    }
    assert forall|g: K| #[trigger] assoc_map(u).contains_key(g) implies assoc_map(u)[g] == assoc_map(t).insert(k, v)[g] by {
        let j = choose|j: int| 0 <= j < u.len() && #[trigger] u[j].0 == g;
        lemma_assoc_at(u, j);
        if j < t.len() {
            lemma_assoc_at(t, j);
        }
    }
    assert(assoc_map(u) =~= assoc_map(t).insert(k, v));
}

pub proof fn lemma_assoc_remove<K, V>(t: Seq<(K, V)>, i: int)
    requires
        keys_unique(t),
        0 <= i < t.len(),
    ensures
        keys_unique(t.remove(i)),
        assoc_map(t.remove(i)) == assoc_map(t).remove(t[i].0),
{
    let u = t.remove(i);
    assert forall|a: int, b: int| 0 <= a < u.len() && 0 <= b < u.len() && #[trigger] u[a].0 == #[trigger] u[b].0 implies a == b by {
        let a2 = if a < i { a } else { a + 1 };
        let b2 = if b < i { b } else { b + 1 };
        assert(u[a] == t[a2]);
        assert(u[b] == t[b2]);
    }
    assert forall|g: K| #[trigger] assoc_map(u).contains_key(g) == assoc_map(t).remove(t[i].0).contains_key(g) by {
        if assoc_map(u).contains_key(g) {
            let j = choose|j: int| 0 <= j < u.len() && #[trigger] u[j].0 == g;
            let j2 = if j < i { j } else { j + 1 };
            assert(u[j] == t[j2]);
            assert(t[j2].0 == g);
            assert(j2 != i);
        }
        if assoc_map(t).contains_key(g) && g != t[i].0 {
            let j = choose|j: int| 0 <= j < t.len() && #[trigger] t[j].0 == g;
            if j < i {
                assert(u[j] == t[j]);
                assert(u[j].0 == g);
            } else {
                assert(j != i);
                assert(u[j - 1] == t[j]);
                assert(u[j - 1].0 == g);
            }
        }
    }
    assert forall|g: K| #[trigger] assoc_map(u).contains_key(g) implies assoc_map(u)[g] == assoc_map(t).remove(t[i].0)[g] by {
        let j = choose|j: int| 0 <= j < u.len() && #[trigger] u[j].0 == g;
        let j2 = if j < i { j } else { j + 1 };
        assert(u[j] == t[j2]);
        lemma_assoc_at(u, j);
        lemma_assoc_at(t, j2);
    }
    assert(assoc_map(u) =~= assoc_map(t).remove(t[i].0));
}

} // verus!
