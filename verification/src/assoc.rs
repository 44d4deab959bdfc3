//! Association lists viewed as maps.
//!
//! The remote model's stores (shadow snapshots, id bindings, expected
//! transfers) are unique-key pair vectors; their contracts speak of the
//! map each vector denotes. The map takes each key to the view of the last
//! value stored under it.

use vstd::prelude::*;

verus! {

/// The map denoted by a pair sequence: later entries win.
pub open spec fn assoc_map<K, V: View>(s: Seq<(K, V)>) -> Map<K, <V as View>::V>
    decreases s.len(),
{
    if s.len() == 0 {
        Map::empty()
    } else {
        assoc_map(s.drop_last()).insert(s.last().0, (s.last().1)@)
    }
}

/// Some entry carries this key.
pub open spec fn assoc_has<K, V>(s: Seq<(K, V)>, key: K) -> bool {
    exists|k: int| 0 <= k < s.len() && (#[trigger] s[k]).0 == key
}

/// No key occurs twice.
pub open spec fn assoc_unique<K, V>(s: Seq<(K, V)>) -> bool {
    forall|i: int, j: int| 0 <= i < j < s.len() ==> (#[trigger] s[i]).0 != (#[trigger] s[j]).0
}

/// The denoted map's domain is exactly the keys present.
pub proof fn lemma_assoc_dom<K, V: View>(s: Seq<(K, V)>)
    ensures
        forall|key: K| assoc_map(s).dom().contains(key) <==> #[trigger] assoc_has(s, key),
    decreases s.len(),
{
    if s.len() > 0 {
        lemma_assoc_dom::<K, V>(s.drop_last());
        assert forall|key: K| assoc_map(s).dom().contains(key) <==> #[trigger] assoc_has(
            s,
            key,
        ) by {
            if assoc_map(s).dom().contains(key) {
                if key == s.last().0 {
                    assert((s[s.len() - 1]).0 == key);
                } else {
                    assert(assoc_has(s.drop_last(), key));
                    let k = choose|k: int|
                        0 <= k < s.drop_last().len() && (#[trigger] s.drop_last()[k]).0 == key;
                    assert((s[k]).0 == key);
                }
            }
            if assoc_has(s, key) {
                let k = choose|k: int| 0 <= k < s.len() && (#[trigger] s[k]).0 == key;
                if k < s.len() - 1 {
                    assert((s.drop_last()[k]).0 == key);
                    assert(assoc_has(s.drop_last(), key));
                }
            }
        }
    }
}

/// Under unique keys, each entry denotes its own value.
pub proof fn lemma_assoc_at<K, V: View>(s: Seq<(K, V)>, i: int)
    requires
        assoc_unique(s),
        0 <= i < s.len(),
    ensures
        assoc_map(s).dom().contains((s[i]).0),
        assoc_map(s)[(s[i]).0] == ((s[i]).1)@,
    decreases s.len(),
{
    if i == s.len() - 1 {
    } else {
        assert(assoc_unique(s.drop_last()));
        lemma_assoc_at::<K, V>(s.drop_last(), i);
        assert((s[i]).0 != (s[s.len() - 1]).0);
        assert(s.drop_last()[i] == s[i]);
    }
}

/// Replacing the entry at `i` denotes an insert of its key.
pub proof fn lemma_assoc_update<K, V: View>(s: Seq<(K, V)>, i: int, e: (K, V))
    requires
        assoc_unique(s),
        0 <= i < s.len(),
        e.0 == (s[i]).0,
    ensures
        assoc_unique(s.update(i, e)),
        assoc_map(s.update(i, e)) == assoc_map(s).insert(e.0, (e.1)@),
    decreases s.len(),
{
    let t = s.update(i, e);
    assert forall|a: int, b: int| 0 <= a < b < t.len() implies (#[trigger] t[a]).0 != (
    #[trigger] t[b]).0 by {
        assert((t[a]).0 == (s[a]).0 && (t[b]).0 == (s[b]).0);
    }
    if i == s.len() - 1 {
        assert(t.drop_last() =~= s.drop_last());
        assert(t.last() == e);
        assert(assoc_map(t) =~= assoc_map(s).insert(e.0, (e.1)@)) by {
            assert(assoc_map(t) == assoc_map(s.drop_last()).insert(e.0, (e.1)@));
            assert(assoc_map(s) == assoc_map(s.drop_last()).insert((s[i]).0, ((s[i]).1)@));
        }
    } else {
        assert(assoc_unique(s.drop_last()));
        assert(s.drop_last()[i] == s[i]);
        lemma_assoc_update::<K, V>(s.drop_last(), i, e);
        assert(t.drop_last() =~= s.drop_last().update(i, e));
        assert(t.last() == s.last());
        assert(assoc_map(t) == assoc_map(s.drop_last().update(i, e)).insert(
            s.last().0,
            (s.last().1)@,
        ));
        assert((s[i]).0 != (s[s.len() - 1]).0);
        assert(assoc_map(t) =~= assoc_map(s).insert(e.0, (e.1)@));
    }
}

/// Appending a fresh key denotes an insert.
pub proof fn lemma_assoc_push<K, V: View>(s: Seq<(K, V)>, e: (K, V))
    requires
        assoc_unique(s),
        !assoc_has(s, e.0),
    ensures
        assoc_unique(s.push(e)),
        assoc_map(s.push(e)) == assoc_map(s).insert(e.0, (e.1)@),
{
    let t = s.push(e);
    assert forall|a: int, b: int| 0 <= a < b < t.len() implies (#[trigger] t[a]).0 != (
    #[trigger] t[b]).0 by {
        if b == t.len() - 1 {
            assert((t[a]).0 == (s[a]).0);
            assert((s[a]).0 != e.0);
        } else {
            assert((t[a]).0 == (s[a]).0 && (t[b]).0 == (s[b]).0);
        }
    }
    assert(t.drop_last() =~= s);
    assert(t.last() == e);
}

/// Removing the entry at `i` denotes a remove of its key.
pub proof fn lemma_assoc_remove<K, V: View>(s: Seq<(K, V)>, i: int)
    requires
        assoc_unique(s),
        0 <= i < s.len(),
    ensures
        assoc_unique(s.remove(i)),
        assoc_map(s.remove(i)) == assoc_map(s).remove((s[i]).0),
    decreases s.len(),
{
    let t = s.remove(i);
    s.remove_ensures(i);
    assert forall|a: int, b: int| 0 <= a < b < t.len() implies (#[trigger] t[a]).0 != (
    #[trigger] t[b]).0 by {
        let pa = if a < i {
            a
        } else {
            a + 1
        };
        let pb = if b < i {
            b
        } else {
            b + 1
        };
        assert(t[a] == s[pa] && t[b] == s[pb]);
    }
    if i == s.len() - 1 {
        assert(t =~= s.drop_last());
        lemma_assoc_dom::<K, V>(t);
        if assoc_has(t, (s[i]).0) {
            let k = choose|k: int| 0 <= k < t.len() && (#[trigger] t[k]).0 == (s[i]).0;
            assert((s[k]).0 == (s[i]).0);
            assert(false);
        }
        assert(assoc_map(t) =~= assoc_map(s).remove((s[i]).0));
    } else {
        assert(assoc_unique(s.drop_last()));
        assert(s.drop_last()[i] == s[i]);
        lemma_assoc_remove::<K, V>(s.drop_last(), i);
        assert(t.drop_last() =~= s.drop_last().remove(i));
        assert(t.last() == s.last());
        assert(assoc_map(t) == assoc_map(s.drop_last().remove(i)).insert(
            s.last().0,
            (s.last().1)@,
        ));
        assert((s[i]).0 != (s[s.len() - 1]).0);
        assert(assoc_map(t) =~= assoc_map(s).remove((s[i]).0));
    }
}

} // verus!
