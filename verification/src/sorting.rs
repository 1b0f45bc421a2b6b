//! Stable insertion sort by a numeric key.

use vstd::prelude::*;

verus! {

/// `x` inserted into `s` after every element whose key is not larger than
/// its own key, scanning from the back: the step of a stable insertion sort.
pub open spec fn insert_stable<T>(s: Seq<(u128, T)>, x: (u128, T)) -> Seq<(u128, T)>
    decreases s.len(),
{
    if s.len() == 0 {
        seq![x]
    } else if s.last().0 > x.0 {
        insert_stable(s.drop_last(), x).push(s.last())
    } else {
        s.push(x)
    }
}

/// `s` sorted by key; elements with equal keys keep their order.
pub open spec fn sort_stable<T>(s: Seq<(u128, T)>) -> Seq<(u128, T)>
    decreases s.len(),
{
    if s.len() == 0 {
        s
    } else {
        insert_stable(sort_stable(s.drop_last()), s.last())
    }
}

/// Keys never decrease along `s`.
pub open spec fn keys_sorted<T>(s: Seq<(u128, T)>) -> bool {
    forall|i: int, j: int| 0 <= i <= j < s.len() ==> s[i].0 <= s[j].0
}

/// Inserting at the scan position gives [`insert_stable`].
proof fn lemma_insert_at<T>(s: Seq<(u128, T)>, x: (u128, T), p: int)
    requires
        0 <= p <= s.len(),
        forall|i: int| p <= i < s.len() ==> s[i].0 > x.0,
        p == 0 || s[p - 1].0 <= x.0,
    ensures
        insert_stable(s, x) == s.take(p).push(x) + s.skip(p),
    decreases s.len(),
{
    if s.len() == 0 {
        assert(s.take(p).push(x) + s.skip(p) =~= seq![x]);
    } else if p == s.len() {
        assert(s.take(p).push(x) + s.skip(p) =~= s.push(x));
    } else {
        lemma_insert_at(s.drop_last(), x, p);
        assert(s.drop_last().take(p).push(x) + s.drop_last().skip(p) + seq![s.last()] =~= s.take(p).push(x) + s.skip(p));
        assert(insert_stable(s.drop_last(), x).push(s.last()) =~= insert_stable(s.drop_last(), x) + seq![s.last()]);
    }
}

/// Inserting into a sorted sequence keeps it sorted and keeps its elements.
pub proof fn lemma_insert_sorted<T>(s: Seq<(u128, T)>, x: (u128, T))
    requires
        keys_sorted(s),
    ensures
        keys_sorted(insert_stable(s, x)),
        insert_stable(s, x).to_multiset() == s.to_multiset().insert(x),
        insert_stable(s, x).len() == s.len() + 1,
    decreases s.len(),
{
    broadcast use vstd::seq_lib::group_to_multiset_ensures;
    if s.len() == 0 {
        assert(seq![x] =~= Seq::<(u128, T)>::empty().push(x));
    } else if s.last().0 > x.0 {
        let r = insert_stable(s.drop_last(), x);
        lemma_insert_sorted(s.drop_last(), x);
        assert(s.drop_last().push(s.last()) =~= s);
        assert forall|i: int, j: int| 0 <= i <= j < r.len() + 1 implies r.push(s.last())[i].0 <= r.push(s.last())[j].0 by {
            if j == r.len() && i < r.len() {
                assert(r.to_multiset().count(r[i]) > 0);
                assert(s.drop_last().to_multiset().insert(x).count(r[i]) > 0);
                if r[i] != x {
                    assert(s.drop_last().to_multiset().count(r[i]) > 0);
                    assert(s.drop_last().contains(r[i]));
                    let k = choose|k: int| 0 <= k < s.drop_last().len() && s.drop_last()[k] == r[i];
                    assert(s[k].0 <= s[s.len() - 1].0);
                }
            }
        }
    } else {
        assert forall|i: int, j: int| 0 <= i <= j < s.len() + 1 implies s.push(x)[i].0 <= s.push(x)[j].0 by {
            if j == s.len() && i < s.len() {
                assert(s[i].0 <= s[s.len() - 1].0);
            }
        }
    }
}

/// A stable sort yields a sorted rearrangement of its input.
pub proof fn lemma_sort_stable<T>(s: Seq<(u128, T)>)
    ensures
        keys_sorted(sort_stable(s)),
        sort_stable(s).to_multiset() == s.to_multiset(),
        sort_stable(s).len() == s.len(),
    decreases s.len(),
{
    broadcast use vstd::seq_lib::group_to_multiset_ensures;
    if s.len() > 0 {
        lemma_sort_stable(s.drop_last());
        lemma_insert_sorted(sort_stable(s.drop_last()), s.last());
        assert(s.drop_last().push(s.last()) =~= s);
    }
}

/// Sorts by key with a stable insertion sort.
pub fn stable_sort_by_key<T>(items: Vec<(u128, T)>) -> (r: Vec<(u128, T)>)
    ensures
        r@ == sort_stable(items@),
{
    let mut out: Vec<(u128, T)> = Vec::new();
    let mut rest = items;
    let ghost orig = rest@;
    let mut taken: Vec<(u128, T)> = Vec::new();
    // Move the items out in reverse, then insert them from the first one on.
    while rest.len() > 0
        invariant
            orig == rest@ + taken@.reverse(),
        decreases rest.len(),
    {
        let x = rest.pop().unwrap();
        let ghost before = taken@;
        taken.push(x);
        assert(taken@.reverse() =~= seq![x] + before.reverse());
    }
    assert(taken@.reverse() =~= orig);
    let ghost n = taken@.len();
    assert(orig.skip(0) =~= orig);
    while taken.len() > 0
        invariant
            taken@.reverse() == orig.skip(n - taken@.len()),
            out@ == sort_stable(orig.take(n - taken@.len())),
            n == orig.len(),
            taken@.len() <= n,
        decreases taken.len(),
    {
        let ghost before = taken@;
        let x = taken.pop().unwrap();
        let ghost done = n - before.len();
        assert(orig[done] == x) by {
            assert(before.reverse()[0] == before[before.len() - 1]);
            assert(orig.skip(done)[0] == orig[done]);
        }
        assert(orig.take(done + 1).drop_last() =~= orig.take(done));
        assert(orig.take(done + 1).last() == x);
        proof {
            lemma_sort_stable(orig.take(done));
        }
        let mut p = out.len();
        while p > 0 && out[p - 1].0 > x.0
            invariant
                p <= out@.len(),
                forall|i: int| p <= i < out@.len() ==> out@[i].0 > x.0,
            decreases p,
        {
            p = p - 1;
        }
        proof {
            lemma_insert_at(out@, x, p as int);
        }
        let ghost prev = out@;
        out.insert(p, x);
        assert(out@ =~= prev.take(p as int).push(x) + prev.skip(p as int));
        assert(taken@.reverse() =~= orig.skip(n - taken@.len())) by {
            assert(before =~= taken@.push(x));
            assert(before.reverse() =~= seq![x] + taken@.reverse());
            assert(orig.skip(done + 1) =~= orig.skip(done).drop_first());
            assert((seq![x] + taken@.reverse()).drop_first() =~= taken@.reverse());
        }
    }
    assert(orig.take(n as int) =~= orig);
    out
}

} // verus!
