//! Character-level text utilities: prefix tests, substring search and
//! single-splice replacement, with exact sequence-level contracts.
use vstd::prelude::*;

verus! {

/// The pattern `pat` occurs in `s` at position `i`.
pub open spec fn match_at(s: Seq<char>, pat: Seq<char>, i: int) -> bool {
    0 <= i && i + pat.len() <= s.len() && s.subrange(i, i + pat.len() as int) == pat
}

/// The pattern `pat` occurs somewhere in `s`.
pub open spec fn contains_seq(s: Seq<char>, pat: Seq<char>) -> bool {
    exists|i: int| match_at(s, pat, i)
}

/// `s` begins with `pat`.
pub open spec fn starts_with_seq(s: Seq<char>, pat: Seq<char>) -> bool {
    match_at(s, pat, 0)
}

/// Position of the first occurrence of `pat` in `s`, or -1 if there is none.
pub open spec fn first_match(s: Seq<char>, pat: Seq<char>) -> int
    decreases s.len(),
{
    if match_at(s, pat, 0) {
        0
    } else if s.len() == 0 {
        -1
    } else {
        let r = first_match(s.drop_first(), pat);
        if r < 0 {
            -1
        } else {
            r + 1
        }
    }
}

/// Occurrences in the tail of `s` are occurrences in `s`, shifted by one.
proof fn lemma_match_shift(s: Seq<char>, pat: Seq<char>, j: int)
    requires
        s.len() >= 1,
        j >= 0,
    ensures
        match_at(s.drop_first(), pat, j) <==> match_at(s, pat, j + 1),
{
    if match_at(s.drop_first(), pat, j) {
        assert(s.subrange(j + 1, j + 1 + pat.len() as int) =~= s.drop_first().subrange(
            j,
            j + pat.len() as int,
        ));
    }
    if match_at(s, pat, j + 1) {
        assert(s.drop_first().subrange(j, j + pat.len() as int) =~= s.subrange(
            j + 1,
            j + 1 + pat.len() as int,
        ));
    }
}

/// `first_match` returns the position of the first occurrence of `pat`
/// in `s`, and -1 exactly when there is no occurrence.
pub proof fn lemma_first_match(s: Seq<char>, pat: Seq<char>)
    ensures
        first_match(s, pat) >= 0 <==> contains_seq(s, pat),
        first_match(s, pat) >= 0 ==> match_at(s, pat, first_match(s, pat)),
        forall|j: int| 0 <= j < first_match(s, pat) ==> !match_at(s, pat, j),
    decreases s.len(),
{
    if match_at(s, pat, 0) {
    } else if s.len() == 0 {
        assert forall|i: int| !match_at(s, pat, i) by {
            if 0 <= i && i + pat.len() <= s.len() {
                assert(i == 0);
            }
        }
    } else {
        lemma_first_match(s.drop_first(), pat);
        let r = first_match(s.drop_first(), pat);
        if r >= 0 {
            lemma_match_shift(s, pat, r);
            assert forall|j: int| 0 <= j < r + 1 implies !match_at(s, pat, j) by {
                if j > 0 {
                    lemma_match_shift(s, pat, j - 1);
                }
            }
        } else {
            assert forall|i: int| !match_at(s, pat, i) by {
                if i > 0 {
                    lemma_match_shift(s, pat, i - 1);
                }
            }
        }
    }
}

/// Whether `pat` occurs in `s` starting at position `i`.
fn match_at_exec(s: &str, pat: &str, i: usize, slen: usize, plen: usize) -> (r: bool)
    requires
        slen == s@.len(),
        plen == pat@.len(),
        i + plen <= slen,
    ensures
        r == match_at(s@, pat@, i as int),
{
    let mut k: usize = 0;
    while k < plen
        invariant
            0 <= k <= plen,
            slen == s@.len(),
            plen == pat@.len(),
            i + plen <= slen,
            forall|m: int| 0 <= m < k ==> s@[i + m] == pat@[m],
        decreases plen - k,
    {
        if s.get_char(i + k) != pat.get_char(k) {
            assert(!match_at(s@, pat@, i as int)) by {
                if s@.subrange(i as int, i + plen as int) == pat@ {
                    assert(s@.subrange(i as int, i + plen as int)[k as int] == pat@[k as int]);
                }
            }
            return false;
        }
        k += 1;
    }
    assert(s@.subrange(i as int, i + plen as int) =~= pat@);
    true
}

/// Position of the first occurrence of `pat` in `s`, if any.
pub fn find_sub(s: &str, pat: &str) -> (r: Option<usize>)
    ensures
        match r {
            Some(i) => i == first_match(s@, pat@) && match_at(s@, pat@, i as int),
            None => !contains_seq(s@, pat@),
        },
{
    proof {
        lemma_first_match(s@, pat@);
    }
    let slen = s.unicode_len();
    let plen = pat.unicode_len();
    if plen > slen {
        return None;
    }
    if plen == 0 {
        assert(s@.subrange(0, 0) =~= pat@);
        proof {
            lemma_first_match(s@, pat@);
            let f = first_match(s@, pat@);
            assert(!(f < 0) && !(0 < f));
        }
        return Some(0);
    }
    let mut i: usize = 0;
    while i <= slen - plen
        invariant
            slen == s@.len(),
            plen == pat@.len(),
            1 <= plen <= slen,
            0 <= i <= slen - plen + 1,
            forall|j: int| 0 <= j < i ==> !match_at(s@, pat@, j),
        decreases slen - i,
    {
        if match_at_exec(s, pat, i, slen, plen) {
            proof {
                lemma_first_match(s@, pat@);
                assert(first_match(s@, pat@) >= 0);
                let f = first_match(s@, pat@);
                assert(!(f < i) && !(i < f));
            }
            return Some(i);
        }
        i += 1;
    }
    assert forall|j: int| !match_at(s@, pat@, j) by {
        if 0 <= j && j + plen <= slen {
            assert(j < i);
        }
    }
    None
}

/// Whether `pat` occurs anywhere in `s`.
pub fn contains_sub(s: &str, pat: &str) -> (r: bool)
    ensures
        r == contains_seq(s@, pat@),
{
    match find_sub(s, pat) {
        Some(_) => true,
        None => false,
    }
}

/// Whether `s` begins with `pat`.
pub fn starts_with_lit(s: &str, pat: &str) -> (r: bool)
    ensures
        r == starts_with_seq(s@, pat@),
{
    let slen = s.unicode_len();
    let plen = pat.unicode_len();
    if plen > slen {
        return false;
    }
    match_at_exec(s, pat, 0, slen, plen)
}

/// The concatenation of two pieces of text.
pub fn concat_str(a: &str, b: &str) -> (r: String)
    ensures
        r@ == a@ + b@,
{
    let s = String::from_str(a);
    s.concat(b)
}

/// `s` with every occurrence of `pat` replaced by `rep`, left to right,
/// without rescanning the replacement text.
pub open spec fn replace_all_seq(s: Seq<char>, pat: Seq<char>, rep: Seq<char>) -> Seq<char>
    decreases s.len(),
{
    let i = first_match(s, pat);
    if pat.len() >= 1 && 0 <= i && i + pat.len() <= s.len() {
        s.subrange(0, i) + rep + replace_all_seq(s.subrange(i + pat.len(), s.len() as int), pat, rep)
    } else {
        s
    }
}

/// Replace every occurrence of `pat` in `s` by `rep`, left to right.
pub fn replace_all(s: &str, pat: &str, rep: &str) -> (r: String)
    requires
        pat@.len() >= 1,
    ensures
        r@ == replace_all_seq(s@, pat@, rep@),
{
    let mut out = String::new();
    let mut rest: &str = s;
    let plen = pat.unicode_len();
    loop
        invariant
            plen == pat@.len(),
            plen >= 1,
            replace_all_seq(s@, pat@, rep@) == out@ + replace_all_seq(rest@, pat@, rep@),
        decreases rest@.len(),
    {
        match find_sub(rest, pat) {
            Some(i) => {
                let rlen = rest.unicode_len();
                let ghost prev_rest = rest@;
                let ghost prev_out = out@;
                let prefix = rest.substring_char(0, i);
                out.append(prefix);
                out.append(rep);
                let new_rest = rest.substring_char(i + plen, rlen);
                rest = new_rest;
                proof {
                    let tail = replace_all_seq(rest@, pat@, rep@);
                    assert(replace_all_seq(prev_rest, pat@, rep@) == prev_rest.subrange(
                        0,
                        i as int,
                    ) + rep@ + tail);
                    assert(out@ == prev_out + prefix@ + rep@);
                    assert(prev_out + (prev_rest.subrange(0, i as int) + rep@ + tail) =~= (prev_out
                        + prefix@ + rep@) + tail);
                }
            },
            None => {
                proof {
                    lemma_first_match(rest@, pat@);
                    assert(replace_all_seq(rest@, pat@, rep@) == rest@);
                }
                out.append(rest);
                return out;
            },
        }
    }
}

} // verus!
