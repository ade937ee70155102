//! Live fuzzy filtering: case-insensitive subsequence matching with a
//! relevance rank, and the row-index map that orders the matching rows by
//! descending relevance, ties broken by original data order.
use vstd::prelude::*;
use vstd::relations::sorted_by;
use crate::sorting::pair_le;
use crate::sorting::pair_leq;
use crate::sorting::sort_pairs;

verus! {

broadcast use vstd::seq_lib::group_to_multiset_ensures;

/// The case-insensitive key of a character: upper-case ASCII letters fold
/// onto their lower-case forms.
pub open spec fn lower(c: char) -> int {
    if 65 <= c as u32 && c as u32 <= 90 {
        c as u32 as int + 32
    } else {
        c as u32 as int
    }
}

/// The query reads as a subsequence of the target, matched greedily and
/// case-insensitively.
pub open spec fn matches_ci(q: Seq<char>, t: Seq<char>) -> bool
    decreases q.len() + t.len(),
{
    if q.len() == 0 {
        true
    } else if t.len() == 0 {
        false
    } else if lower(q[0]) == lower(t[0]) {
        matches_ci(q.drop_first(), t.drop_first())
    } else {
        matches_ci(q, t.drop_first())
    }
}

/// How far into the target the match begins: the position of the first
/// character that folds onto the query's first character; zero for an
/// empty query.  A smaller rank is a better (earlier, more relevant)
/// match.
pub open spec fn rank_of(q: Seq<char>, t: Seq<char>) -> int
    decreases t.len(),
{
    if q.len() == 0 {
        0
    } else if t.len() == 0 {
        0
    } else if lower(q[0]) == lower(t[0]) {
        0
    } else {
        1 + rank_of(q, t.drop_first())
    }
}

/// The case-insensitive key of a character.
fn lower_char(c: char) -> (r: u32)
    ensures
        r as int == lower(c),
{
    let u = c as u32;
    if 65 <= u && u <= 90 {
        u + 32
    } else {
        u
    }
}

/// Match the query against a target; a match yields its rank.
pub fn fuzzy_rank(q: &str, t: &str) -> (r: Option<usize>)
    ensures
        r is Some <==> matches_ci(q@, t@),
        r is Some ==> r->0 == rank_of(q@, t@),
{
    let ql = q.unicode_len();
    let tl = t.unicode_len();
    if ql == 0 {
        return Some(0);
    }
    let mut qi: usize = 0;
    let mut ti: usize = 0;
    let mut first_hit: usize = 0;
    proof {
        assert(q@.skip(0) =~= q@);
        assert(t@.skip(0) =~= t@);
    }
    while ti < tl && qi < ql
        invariant
            0 <= qi <= ql,
            0 <= ti <= tl,
            ql == q@.len(),
            tl == t@.len(),
            ql >= 1,
            matches_ci(q@, t@) == matches_ci(q@.skip(qi as int), t@.skip(ti as int)),
            qi == 0 ==> rank_of(q@, t@) == ti + rank_of(q@, t@.skip(ti as int)),
            qi > 0 ==> rank_of(q@, t@) == first_hit,
        decreases tl - ti,
    {
        let cq = q.get_char(qi);
        let ct = t.get_char(ti);
        let ghost qs = q@.skip(qi as int);
        let ghost ts = t@.skip(ti as int);
        proof {
            assert(qs[0] == q@[qi as int]);
            assert(ts[0] == t@[ti as int]);
            assert(qs.drop_first() =~= q@.skip(qi + 1));
            assert(ts.drop_first() =~= t@.skip(ti + 1));
        }
        if lower_char(cq) == lower_char(ct) {
            if qi == 0 {
                first_hit = ti;
                proof {
                    assert(rank_of(qs, ts) == 0);
                }
            }
            proof {
                assert(matches_ci(qs, ts) == matches_ci(qs.drop_first(), ts.drop_first()));
            }
            qi += 1;
            ti += 1;
        } else {
            proof {
                assert(matches_ci(qs, ts) == matches_ci(qs, ts.drop_first()));
                if qi == 0 {
                    assert(rank_of(qs, ts) == 1 + rank_of(qs, ts.drop_first()));
                }
            }
            ti += 1;
        }
    }
    if qi == ql {
        proof {
            assert(matches_ci(q@.skip(ql as int), t@.skip(ti as int)));
        }
        Some(first_hit)
    } else {
        proof {
            assert(t@.skip(tl as int).len() == 0);
            assert(!matches_ci(q@.skip(qi as int), t@.skip(tl as int)));
        }
        None
    }
}

/// A match's score: higher is more relevant.  Matches are ranked by how
/// early in the target they begin.
pub fn fuzzy_score(q: &str, t: &str) -> (r: Option<u64>)
    ensures
        r is Some <==> matches_ci(q@, t@),
        r is Some ==> r->0 == u64::MAX - rank_of(q@, t@),
{
    match fuzzy_rank(q, t) {
        Some(rk) => Some(u64::MAX - (rk as u64)),
        None => None,
    }
}

/// How many of the first `upto` keys the query matches.
pub open spec fn count_matches(q: Seq<char>, keys: Seq<Seq<char>>, upto: int) -> int
    decreases upto,
{
    if upto <= 0 {
        0
    } else {
        count_matches(q, keys, upto - 1) + if matches_ci(q, keys[upto - 1]) {
            1int
        } else {
            0int
        }
    }
}

/// What the row-index map of a view is: exactly the indices of the keys
/// the query matches, ordered by ascending rank — that is, by descending
/// relevance score — with ties in the original data order.
pub open spec fn row_map_spec(q: Seq<char>, keys: Seq<Seq<char>>, r: Seq<usize>) -> bool {
    &&& forall|m: int| 0 <= m < r.len() ==> (#[trigger] r[m]) < keys.len()
    &&& forall|m: int| 0 <= m < r.len() ==> matches_ci(q, keys[(#[trigger] r[m]) as int])
    &&& forall|j: int|
        0 <= j < keys.len() && matches_ci(q, keys[j]) ==> exists|m: int|
            0 <= m < r.len() && (#[trigger] r[m]) as int == j
    &&& forall|a: int, b: int|
        0 <= a < b < r.len() ==> (rank_of(q, keys[r[a] as int]) < rank_of(q, keys[r[b] as int]) || (
        rank_of(q, keys[r[a] as int]) == rank_of(q, keys[r[b] as int]) && r[a] < r[b]))
    &&& r.len() == count_matches(q, keys, keys.len() as int)
}

/// Recompute the row-index map for the given query over the view's keys.
pub fn compute_row_map(q: &str, keys: &Vec<String>) -> (r: Vec<usize>)
    ensures
        row_map_spec(q@, keys.deep_view(), r@),
{
    let ghost kv = keys.deep_view();
    let n = keys.len();
    let mut pairs: Vec<(u64, usize)> = Vec::new();
    let mut i: usize = 0;
    proof {
        assert(kv.len() == keys@.len());
    }
    while i < n
        invariant
            0 <= i <= n,
            n == keys@.len(),
            kv == keys.deep_view(),
            kv.len() == n,
            pairs@.len() == count_matches(q@, kv, i as int),
            forall|m: int|
                0 <= m < pairs@.len() ==> {
                    &&& (#[trigger] pairs@[m]).1 < i
                    &&& matches_ci(q@, kv[pairs@[m].1 as int])
                    &&& pairs@[m].0 as int == rank_of(q@, kv[pairs@[m].1 as int])
                },
            forall|j: int|
                0 <= j < i && matches_ci(q@, kv[j]) ==> exists|m: int|
                    0 <= m < pairs@.len() && (#[trigger] pairs@[m]).1 as int == j,
            forall|a: int, b: int|
                0 <= a < b < pairs@.len() ==> (#[trigger] pairs@[a]).1 < (#[trigger] pairs@[b]).1,
        decreases n - i,
    {
        proof {
            assert(kv[i as int] == keys@[i as int]@);
        }
        match fuzzy_rank(q, keys[i].as_str()) {
            Some(rk) => {
                let ghost old_pairs = pairs@;
                pairs.push((rk as u64, i));
                proof {
                    assert(pairs@ == old_pairs.push((rk as u64, i)));
                    assert forall|j: int|
                        0 <= j < i + 1 && matches_ci(q@, kv[j]) implies exists|m: int|
                        0 <= m < pairs@.len() && (#[trigger] pairs@[m]).1 as int == j by {
                        if j < i {
                            let m = choose|m: int|
                                0 <= m < old_pairs.len() && (#[trigger] old_pairs[m]).1 as int
                                    == j;
                            assert(pairs@[m].1 as int == j);
                        } else {
                            assert(pairs@[pairs@.len() - 1].1 as int == j);
                        }
                    }
                }
            },
            None => (),
        }
        i += 1;
    }
    let sorted = sort_pairs(&pairs);
    let mut out: Vec<usize> = Vec::new();
    let mut m: usize = 0;
    let sn = sorted.len();
    proof {
        assert(sorted@.to_multiset().len() == pairs@.to_multiset().len());
        assert(sorted@.len() == pairs@.len());
    }
    while m < sn
        invariant
            0 <= m <= sn,
            sn == sorted@.len(),
            out@.len() == m,
            forall|p: int| 0 <= p < m ==> (#[trigger] out@[p]) == sorted@[p].1,
        decreases sn - m,
    {
        let idx = sorted[m].1;
        out.push(idx);
        m += 1;
    }
    proof {
        // each element of the sorted run is one of the collected pairs
        assert forall|p: int| 0 <= p < sorted@.len() implies pairs@.contains(
            #[trigger] sorted@[p],
        ) by {
            assert(sorted@.contains(sorted@[p]));
            assert(sorted@.to_multiset().count(sorted@[p]) > 0);
            assert(pairs@.to_multiset().count(sorted@[p]) > 0);
        }
        // distinct pairs: the collected pairs carry distinct indices, so no
        // pair repeats in the sorted run either
        assert(pairs@.no_duplicates()) by {
            assert forall|a: int, b: int|
                0 <= a < pairs@.len() && 0 <= b < pairs@.len() && a != b implies pairs@[a]
                != pairs@[b] by {
                if a < b {
                    assert(pairs@[a].1 < pairs@[b].1);
                } else {
                    assert(pairs@[b].1 < pairs@[a].1);
                }
            }
        }
        pairs@.lemma_multiset_has_no_duplicates();
        sorted@.lemma_multiset_has_no_duplicates_conv();
        assert(sorted@.no_duplicates());
        // the ordering of the sorted run is strict on ties
        assert forall|a: int, b: int|
            0 <= a < b < out@.len() implies (rank_of(q@, kv[out@[a] as int]) < rank_of(
            q@,
            kv[out@[b] as int],
        ) || (rank_of(q@, kv[out@[a] as int]) == rank_of(q@, kv[out@[b] as int]) && out@[a]
            < out@[b])) by {
            assert(pair_leq()(sorted@[a], sorted@[b]));
            assert(pair_le(sorted@[a], sorted@[b]));
            assert(sorted@[a] != sorted@[b]);
            assert(pairs@.contains(sorted@[a]));
            assert(pairs@.contains(sorted@[b]));
            let ma = choose|ma: int| 0 <= ma < pairs@.len() && pairs@[ma] == sorted@[a];
            let mb = choose|mb: int| 0 <= mb < pairs@.len() && pairs@[mb] == sorted@[b];
            assert(sorted@[a].0 as int == rank_of(q@, kv[sorted@[a].1 as int]));
            assert(sorted@[b].0 as int == rank_of(q@, kv[sorted@[b].1 as int]));
        }
        // membership: everything the query matches is present
        assert forall|j: int|
            0 <= j < kv.len() && matches_ci(q@, kv[j]) implies exists|m2: int|
            0 <= m2 < out@.len() && (#[trigger] out@[m2]) as int == j by {
            let mp = choose|mp: int|
                0 <= mp < pairs@.len() && (#[trigger] pairs@[mp]).1 as int == j;
            let x = pairs@[mp];
            assert(pairs@.contains(x));
            assert(pairs@.to_multiset().count(x) > 0);
            assert(sorted@.to_multiset().count(x) > 0);
            assert(sorted@.contains(x));
            let ms = choose|ms: int| 0 <= ms < sorted@.len() && sorted@[ms] == x;
            assert(out@[ms] as int == j);
        }
        // every row is a matching key's index
        assert forall|p: int| 0 <= p < out@.len() implies (#[trigger] out@[p]) < kv.len()
            && matches_ci(q@, kv[out@[p] as int]) by {
            assert(pairs@.contains(sorted@[p]));
        }
    }
    out
}

/// The query matches at most as many keys as there are.
pub proof fn lemma_count_matches_le(q: Seq<char>, keys: Seq<Seq<char>>, upto: int)
    requires
        upto >= 0,
    ensures
        0 <= count_matches(q, keys, upto) <= upto,
    decreases upto,
{
    if upto > 0 {
        lemma_count_matches_le(q, keys, upto - 1);
    }
}

/// When the query matches every key in range, it counts them all.
proof fn lemma_count_matches_full(q: Seq<char>, keys: Seq<Seq<char>>, upto: int)
    requires
        0 <= upto <= keys.len(),
        forall|j: int| 0 <= j < upto ==> matches_ci(q, #[trigger] keys[j]),
    ensures
        count_matches(q, keys, upto) == upto,
    decreases upto,
{
    if upto > 0 {
        lemma_count_matches_full(q, keys, upto - 1);
    }
}

/// A row-index map holds valid indices, no index twice, and no more rows
/// than there are records.
pub proof fn lemma_row_map_basic(q: Seq<char>, keys: Seq<Seq<char>>, r: Seq<usize>)
    requires
        row_map_spec(q, keys, r),
    ensures
        forall|m: int| 0 <= m < r.len() ==> (#[trigger] r[m]) < keys.len(),
        r.no_duplicates(),
        r.len() <= keys.len(),
{
    assert forall|i: int, j: int|
        0 <= i < r.len() && 0 <= j < r.len() && i != j implies r[i] != r[j] by {
        if i < j {
            assert(r[i] != r[j]);
        } else {
            assert(r[j] != r[i]);
        }
    }
    lemma_count_matches_le(q, keys, keys.len() as int);
}

/// A strictly increasing run grows at least as fast as its positions.
proof fn lemma_strict_inc_gap(r: Seq<usize>, i: int, j: int)
    requires
        forall|a: int, b: int| 0 <= a < b < r.len() ==> (#[trigger] r[a]) < (#[trigger] r[b]),
        0 <= i <= j < r.len(),
    ensures
        r[j] as int >= r[i] as int + (j - i),
    decreases j - i,
{
    if i < j {
        lemma_strict_inc_gap(r, i, j - 1);
    }
}

/// An empty query keeps every row in its original order: the row-index
/// map is the identity over all the records, because every key matches
/// with the same rank and ties keep the data order.
pub proof fn lemma_empty_query_keeps_order(q: Seq<char>, keys: Seq<Seq<char>>, r: Seq<usize>)
    requires
        q.len() == 0,
        row_map_spec(q, keys, r),
    ensures
        r.len() == keys.len(),
        forall|m: int| 0 <= m < r.len() ==> (#[trigger] r[m]) as int == m,
{
    assert forall|j: int| 0 <= j < keys.len() implies matches_ci(q, #[trigger] keys[j]) by {}
    lemma_count_matches_full(q, keys, keys.len() as int);
    let n = r.len() as int;
    assert forall|a: int, b: int| 0 <= a < b < n implies (#[trigger] r[a]) < (#[trigger] r[b]) by {
        assert(rank_of(q, keys[r[a] as int]) == 0);
        assert(rank_of(q, keys[r[b] as int]) == 0);
    }
    assert forall|m: int| 0 <= m < n implies (#[trigger] r[m]) as int == m by {
        lemma_strict_inc_gap(r, 0, m);
        lemma_strict_inc_gap(r, m, n - 1);
        assert(r[n - 1] < keys.len());
    }
}

} // verus!
