//! The ordering a commit gives its chunks: ascending by the `order`
//! field, ties broken by position in the caller's list (a stable sort).
//!
//! A pair is `(chunk identifier, order)`.

use vstd::prelude::*;
use vstd::multiset::Multiset;

verus! {

/// Inserts `p` into `s` just after the last element whose order does not
/// exceed `p`'s, keeping earlier elements of equal order in front.
pub open spec fn insert_pair(s: Seq<(u32, u32)>, p: (u32, u32)) -> Seq<(u32, u32)>
    decreases s.len(),
{
    if s.len() == 0 {
        seq![p]
    } else if p.1 < s.last().1 {
        insert_pair(s.drop_last(), p).push(s.last())
    } else {
        s.push(p)
    }
}

/// The stable sort of the pairs by order, ascending.
pub open spec fn sort_pairs(s: Seq<(u32, u32)>) -> Seq<(u32, u32)>
    decreases s.len(),
{
    if s.len() == 0 {
        Seq::empty()
    } else {
        insert_pair(sort_pairs(s.drop_last()), s.last())
    }
}

/// Whether the pairs are ordered ascending by their order field.
pub open spec fn pairs_sorted(s: Seq<(u32, u32)>) -> bool {
    forall|i: int, j: int| 0 <= i < j < s.len() ==> s[i].1 <= s[j].1
}

/// Inserting keeps the length and the multiset of pairs.
pub proof fn lemma_insert_pair_multiset(s: Seq<(u32, u32)>, p: (u32, u32))
    ensures
        insert_pair(s, p).len() == s.len() + 1,
        insert_pair(s, p).to_multiset() == s.to_multiset().insert(p),
    decreases s.len(),
{
    broadcast use vstd::seq_lib::group_to_multiset_ensures;

    if s.len() == 0 {
        assert(seq![p] =~= Seq::<(u32, u32)>::empty().push(p));
        assert(Seq::<(u32, u32)>::empty().push(p).to_multiset() =~= Seq::<(
            u32,
            u32,
        )>::empty().to_multiset().insert(p));
        assert(Seq::<(u32, u32)>::empty().to_multiset() =~= Multiset::<(u32, u32)>::empty());
    } else if p.1 < s.last().1 {
        lemma_insert_pair_multiset(s.drop_last(), p);
        assert(s.drop_last().push(s.last()) =~= s);
        assert(insert_pair(s.drop_last(), p).push(s.last()).to_multiset() =~= insert_pair(
            s.drop_last(),
            p,
        ).to_multiset().insert(s.last()));
        assert(insert_pair(s, p).to_multiset() =~= s.to_multiset().insert(p));
    } else {
        assert(s.push(p).to_multiset() =~= s.to_multiset().insert(p));
    }
}

/// Sorting keeps the length and the multiset of pairs: the sorted batch
/// is a permutation of the given one.
pub proof fn lemma_sort_pairs_multiset(s: Seq<(u32, u32)>)
    ensures
        sort_pairs(s).len() == s.len(),
        sort_pairs(s).to_multiset() == s.to_multiset(),
    decreases s.len(),
{
    broadcast use vstd::seq_lib::group_to_multiset_ensures;

    if s.len() == 0 {
    } else {
        lemma_sort_pairs_multiset(s.drop_last());
        lemma_insert_pair_multiset(sort_pairs(s.drop_last()), s.last());
        assert(s.drop_last().push(s.last()) =~= s);
        assert(s.drop_last().push(s.last()).to_multiset() =~= s.drop_last().to_multiset().insert(
            s.last(),
        ));
    }
}

/// Every pair of the sorted batch comes from the given one, and the other
/// way round.
pub proof fn lemma_sort_pairs_contains(s: Seq<(u32, u32)>, p: (u32, u32))
    ensures
        sort_pairs(s).contains(p) <==> s.contains(p),
{
    broadcast use vstd::seq_lib::group_to_multiset_ensures;

    lemma_sort_pairs_multiset(s);
    assert(sort_pairs(s).to_multiset().count(p) == s.to_multiset().count(p));
    assert(sort_pairs(s).contains(p) <==> sort_pairs(s).to_multiset().count(p) > 0);
    assert(s.contains(p) <==> s.to_multiset().count(p) > 0);
}

/// Inserting into a sorted sequence keeps it sorted.
pub proof fn lemma_insert_pair_sorted(s: Seq<(u32, u32)>, p: (u32, u32))
    requires
        pairs_sorted(s),
    ensures
        pairs_sorted(insert_pair(s, p)),
    decreases s.len(),
{
    broadcast use vstd::seq_lib::group_to_multiset_ensures;

    if s.len() == 0 {
    } else if p.1 < s.last().1 {
        assert(pairs_sorted(s.drop_last()));
        lemma_insert_pair_sorted(s.drop_last(), p);
        lemma_insert_pair_multiset(s.drop_last(), p);
        let t = insert_pair(s.drop_last(), p);
        assert forall|i: int, j: int|
            0 <= i < j < t.push(s.last()).len() implies t.push(s.last())[i].1 <= t.push(
            s.last(),
        )[j].1 by {
            if j < t.len() {
            } else {
                assert(t.push(s.last())[j] == s.last());
                if i < t.len() {
                    assert(t.to_multiset().contains(t[i]));
                    assert(t.to_multiset() == s.drop_last().to_multiset().insert(p));
                    if t[i] == p {
                    } else {
                        assert(s.drop_last().to_multiset().contains(t[i]));
                        assert(s.drop_last().contains(t[i]));
                        let w = choose|w: int|
                            0 <= w < s.drop_last().len() && s.drop_last()[w] == t[i];
                        assert(s[w] == t[i]);
                        assert(s[w].1 <= s.last().1);
                    }
                }
            }
        }
    } else {
        assert forall|i: int, j: int|
            0 <= i < j < s.push(p).len() implies s.push(p)[i].1 <= s.push(p)[j].1 by {
            if j < s.len() {
            } else {
                if i < s.len() {
                    if i == s.len() - 1 {
                    } else {
                        assert(s[i].1 <= s.last().1);
                    }
                }
            }
        }
    }
}

/// The sort's result is ordered ascending.
pub proof fn lemma_sort_pairs_sorted(s: Seq<(u32, u32)>)
    ensures
        pairs_sorted(sort_pairs(s)),
    decreases s.len(),
{
    if s.len() == 0 {
    } else {
        lemma_sort_pairs_sorted(s.drop_last());
        lemma_insert_pair_sorted(sort_pairs(s.drop_last()), s.last());
    }
}

/// Where `j` splits `s` into a front whose last element's order does not
/// exceed `p`'s and a back all of whose orders do, inserting lands `p`
/// exactly at `j`.
proof fn lemma_insert_pair_split(s: Seq<(u32, u32)>, p: (u32, u32), j: int)
    requires
        0 <= j <= s.len(),
        forall|k: int| j <= k < s.len() ==> s[k].1 > p.1,
        j > 0 ==> s[j - 1].1 <= p.1,
    ensures
        insert_pair(s, p) == s.insert(j, p),
    decreases s.len(),
{
    if j == s.len() {
        if s.len() == 0 {
            assert(insert_pair(s, p) =~= s.insert(j, p));
        } else {
            assert(s.last().1 <= p.1);
            assert(insert_pair(s, p) == s.push(p));
            assert(s.push(p) =~= s.insert(j, p));
        }
    } else {
        assert(s.last().1 > p.1);
        lemma_insert_pair_split(s.drop_last(), p, j);
        assert(insert_pair(s.drop_last(), p).push(s.last()) =~= s.insert(j, p));
    }
}

/// Sorts the batch pairs, stably, ascending by order.
pub fn sort_pairs_exec(v: &Vec<(u32, u32)>) -> (r: Vec<(u32, u32)>)
    ensures
        r@ == sort_pairs(v@),
{
    let n = v.len();
    let mut out: Vec<(u32, u32)> = Vec::new();
    let mut idx: usize = 0;
    proof {
        assert(v@.subrange(0, 0) =~= Seq::<(u32, u32)>::empty());
    }
    while idx < n
        invariant
            n == v@.len(),
            idx <= n,
            out@ == sort_pairs(v@.subrange(0, idx as int)),
            out@.len() == idx,
        decreases n - idx,
    {
        let p = *vstd::slice::slice_index_get(v.as_slice(), idx);
        let mut j = out.len();
        while j > 0 && out[j - 1].1 > p.1
            invariant
                j <= out@.len(),
                forall|k: int| j <= k < out@.len() ==> out@[k].1 > p.1,
            decreases j,
        {
            j = j - 1;
        }
        proof {
            lemma_insert_pair_split(out@, p, j as int);
            crate::sort::lemma_sort_len_helper(v@, idx as int);
        }
        out.insert(j, p);
        idx = idx + 1;
    }
    proof {
        assert(v@.subrange(0, n as int) =~= v@);
    }
    out
}

/// One step of the sort's recursion, phrased over a prefix of the input.
proof fn lemma_sort_len_helper(v: Seq<(u32, u32)>, idx: int)
    requires
        0 <= idx < v.len(),
    ensures
        sort_pairs(v.subrange(0, idx + 1)) == insert_pair(sort_pairs(v.subrange(0, idx)), v[idx]),
{
    let t = v.subrange(0, idx + 1);
    assert(t.drop_last() =~= v.subrange(0, idx));
    assert(t.last() == v[idx]);
}

} // verus!
