//! Sequences of keyed entries, in order: the model of the insertion-ordered
//! maps that the conversion builds.

use vstd::prelude::*;

verus! {

/// The keys of a sequence of entries, in order.
pub open spec fn keys<V>(e: Seq<(Seq<char>, V)>) -> Seq<Seq<char>> {
    e.map_values(|p: (Seq<char>, V)| p.0)
}

/// No key occurs twice among the entries.
pub open spec fn distinct_keys<V>(e: Seq<(Seq<char>, V)>) -> bool {
    forall|i: int, j: int| 0 <= i < e.len() && 0 <= j < e.len() && i != j ==> e[i].0 != e[j].0
}

/// The position of the first entry with key `k`.
pub open spec fn find<V>(e: Seq<(Seq<char>, V)>, k: Seq<char>) -> Option<int>
    decreases e.len(),
{
    if e.len() == 0 {
        None
    } else {
        match find(e.drop_last(), k) {
            Some(i) => Some(i),
            None => if e.last().0 == k {
                Some(e.len() - 1)
            } else {
                None
            },
        }
    }
}

/// What `find` gives: the first position with the key, or `None` where no
/// entry has it.
pub proof fn lemma_find<V>(e: Seq<(Seq<char>, V)>, k: Seq<char>)
    ensures
        find(e, k) matches Some(i) ==> 0 <= i < e.len() && e[i].0 == k && forall|j: int|
            0 <= j < i ==> e[j].0 != k,
        find(e, k) is None <==> forall|j: int| 0 <= j < e.len() ==> e[j].0 != k,
    decreases e.len(),
{
    if e.len() > 0 {
        let d = e.drop_last();
        lemma_find(d, k);
        assert(forall|j: int| 0 <= j < d.len() ==> d[j] == e[j]);
        if find(d, k) is None {
            if e.last().0 != k {
                assert forall|j: int| 0 <= j < e.len() implies e[j].0 != k by {
                    if j < d.len() {
                        assert(d[j] == e[j]);
                    }
                }
            }
        }
    }
}

/// Where keys are distinct, the entry with key `k` is the one `find` finds.
pub proof fn lemma_find_distinct<V>(e: Seq<(Seq<char>, V)>, k: Seq<char>, i: int)
    requires
        distinct_keys(e),
        0 <= i < e.len(),
        e[i].0 == k,
    ensures
        find(e, k) == Some(i),
{
    lemma_find(e, k);
}

/// `find` looks at keys only.
pub proof fn lemma_find_keys<V>(e1: Seq<(Seq<char>, V)>, e2: Seq<(Seq<char>, V)>, k: Seq<char>)
    requires
        keys(e1) == keys(e2),
    ensures
        find(e1, k) == find(e2, k),
    decreases e1.len(),
{
    assert(e1.len() == keys(e1).len());
    assert(e2.len() == keys(e2).len());
    if e1.len() > 0 {
        assert(keys(e1.drop_last()) =~= keys(e1).drop_last());
        assert(keys(e2.drop_last()) =~= keys(e2).drop_last());
        assert(e1.last().0 == keys(e1).last());
        assert(e2.last().0 == keys(e2).last());
        lemma_find_keys(e1.drop_last(), e2.drop_last(), k);
    }
}

/// Entries added after the first ones do not change where `find` finds a
/// key that the first ones hold.
pub proof fn lemma_find_prefix<V>(e: Seq<(Seq<char>, V)>, m: Seq<(Seq<char>, V)>, k: Seq<char>)
    requires
        e.len() <= m.len(),
        forall|i: int| 0 <= i < e.len() ==> m[i] == e[i],
        find(e, k) is Some,
    ensures
        find(m, k) == find(e, k),
{
    lemma_find(e, k);
    lemma_find(m, k);
    let i = find(e, k)->0;
    assert(m[i].0 == k);
    let j = find(m, k)->0;
    if j < i {
        assert(m[j] == e[j]);
    }
}

} // verus!
