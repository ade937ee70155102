//! Insertion sorts for the two orders the views need: score pairs for the
//! fuzzy filter and episode labels by their numeric value.  Each sort
//! returns a sequence that is sorted and carries exactly the input's
//! elements.
use vstd::prelude::*;
use vstd::relations::sorted_by;
use crate::numeric::label_le;
use crate::numeric::label_le_exec;
use crate::numeric::lemma_label_le_total;
use crate::numeric::lemma_label_le_trans;

verus! {

broadcast use vstd::seq_lib::group_to_multiset_ensures;

/// Order on (rank, original index) pairs: by rank, ties by index.
pub open spec fn pair_le(a: (u64, usize), b: (u64, usize)) -> bool {
    a.0 < b.0 || (a.0 == b.0 && a.1 <= b.1)
}

/// The pair order as a relation value.
pub open spec fn pair_leq() -> spec_fn((u64, usize), (u64, usize)) -> bool {
    |a: (u64, usize), b: (u64, usize)| pair_le(a, b)
}

/// `x` sorts strictly before `y`.
fn pair_before(x: (u64, usize), y: (u64, usize)) -> (r: bool)
    ensures
        r == !pair_le(y, x),
{
    x.0 < y.0 || (x.0 == y.0 && x.1 < y.1)
}

/// Sort (rank, index) pairs by rank, ties by index.
pub fn sort_pairs(v: &Vec<(u64, usize)>) -> (r: Vec<(u64, usize)>)
    ensures
        sorted_by(r@, pair_leq()),
        r@.to_multiset() == v@.to_multiset(),
        r@.len() == v@.len(),
{
    let mut out: Vec<(u64, usize)> = Vec::new();
    let mut i: usize = 0;
    while i < v.len()
        invariant
            0 <= i <= v@.len(),
            sorted_by(out@, pair_leq()),
            out@.to_multiset() == v@.take(i as int).to_multiset(),
        decreases v@.len() - i,
    {
        let x = v[i];
        let mut k = out.len();
        while k > 0 && pair_before(x, out[k - 1])
            invariant
                0 <= k <= out@.len(),
                sorted_by(out@, pair_leq()),
                forall|m: int| k <= m < out@.len() ==> !pair_le(#[trigger] out@[m], x),
            decreases k,
        {
            k -= 1;
        }
        let ghost prev = out@;
        out.insert(k, x);
        proof {
            assert(prev.take(k as int) =~= prev.subrange(0, k as int));
            assert forall|p: int, q: int|
                0 <= p < q < out@.len() implies pair_leq()(out@[p], out@[q]) by {
                prev.insert_ensures(k as int, x);
                if q < k {
                    assert(pair_leq()(prev[p], prev[q]));
                } else if p > k {
                    assert(pair_leq()(prev[p - 1], prev[q - 1]));
                } else if p < k && q == k {
                    assert(pair_le(prev[k - 1], x));
                    if p < k - 1 {
                        assert(pair_leq()(prev[p], prev[k - 1]));
                    }
                } else if p < k && q > k {
                    assert(pair_leq()(prev[p], prev[q - 1]));
                    assert(!pair_le(prev[q - 1], x));
                } else {
                    assert(p == k && q > k);
                    assert(!pair_le(prev[q - 1], x));
                }
            }
            assert(v@.take(i as int).push(x) =~= v@.take(i + 1));
            assert(out@.to_multiset() == v@.take(i + 1).to_multiset());
        }
        i += 1;
    }
    proof {
        assert(v@.take(v@.len() as int) =~= v@);
        assert(out@.to_multiset().len() == out@.len());
        assert(v@.to_multiset().len() == v@.len());
    }
    out
}

/// The label order as a relation value.
pub open spec fn label_leq() -> spec_fn(String, String) -> bool {
    |a: String, b: String| label_le(a@, b@)
}

/// `x` sorts strictly before `y` in the numeric label order.
fn label_before(x: &String, y: &String) -> (r: bool)
    ensures
        r == !label_le(y@, x@),
{
    !label_le_exec(y.as_str(), x.as_str())
}

/// Sort labels ascending by the numbers they denote.
pub fn sort_labels(v: &Vec<String>) -> (r: Vec<String>)
    ensures
        sorted_by(r@, label_leq()),
        r@.to_multiset() == v@.to_multiset(),
        r@.len() == v@.len(),
{
    let mut out: Vec<String> = Vec::new();
    let mut i: usize = 0;
    while i < v.len()
        invariant
            0 <= i <= v@.len(),
            sorted_by(out@, label_leq()),
            out@.to_multiset() == v@.take(i as int).to_multiset(),
        decreases v@.len() - i,
    {
        let x = v[i].clone();
        proof {
            assert(x == v@[i as int]);
        }
        let mut k = out.len();
        while k > 0 && label_before(&x, &out[k - 1])
            invariant
                0 <= k <= out@.len(),
                sorted_by(out@, label_leq()),
                forall|m: int| k <= m < out@.len() ==> !label_le(#[trigger] out@[m]@, x@),
            decreases k,
        {
            k -= 1;
        }
        let ghost prev = out@;
        out.insert(k, x);
        proof {
            assert forall|p: int, q: int|
                0 <= p < q < out@.len() implies label_leq()(out@[p], out@[q]) by {
                prev.insert_ensures(k as int, x);
                if q < k {
                    assert(label_leq()(prev[p], prev[q]));
                } else if p > k {
                    assert(label_leq()(prev[p - 1], prev[q - 1]));
                } else if p < k && q == k {
                    assert(label_le(prev[k - 1]@, x@));
                    if p < k - 1 {
                        assert(label_leq()(prev[p], prev[k - 1]));
                        lemma_label_le_trans(prev[p]@, prev[k - 1]@, x@);
                    }
                } else if p < k && q > k {
                    assert(label_leq()(prev[p], prev[q - 1]));
                } else {
                    assert(p == k && q > k);
                    assert(!label_le(prev[q - 1]@, x@));
                    lemma_label_le_total(x@, prev[q - 1]@);
                }
            }
            assert(v@.take(i as int).push(x) =~= v@.take(i + 1));
            assert(out@.to_multiset() == v@.take(i + 1).to_multiset());
        }
        i += 1;
    }
    proof {
        assert(v@.take(v@.len() as int) =~= v@);
        assert(out@.to_multiset().len() == out@.len());
        assert(v@.to_multiset().len() == v@.len());
    }
    out
}

} // verus!
