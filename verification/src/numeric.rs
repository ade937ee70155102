//! Numeric ordering of episode labels.
//!
//! A label of the form `-?digit+(.digit+)?` denotes the decimal number it
//! spells; every other label counts as zero.  Labels are ordered by that
//! value.  The value is modelled exactly, as a scaled integer together with
//! the number of fractional digits, so the order is the order of rationals.
use vstd::prelude::*;

verus! {

/// `c` is a decimal digit.
pub open spec fn is_digit(c: char) -> bool {
    48 <= c as u32 && c as u32 <= 57
}

/// The value of a digit character.
pub open spec fn digit_val(c: char) -> int {
    c as u32 - 48
}

/// Every character of `s` is a decimal digit.
pub open spec fn all_digits(s: Seq<char>) -> bool {
    forall|i: int| 0 <= i < s.len() ==> is_digit(#[trigger] s[i])
}

/// The integer spelled by a digit string, most significant digit first.
pub open spec fn digits_val(s: Seq<char>) -> int
    decreases s.len(),
{
    if s.len() == 0 {
        0
    } else {
        digits_val(s.drop_last()) * 10 + digit_val(s.last())
    }
}

/// Ten to the `n`-th power.
pub open spec fn pow10(n: nat) -> int
    decreases n,
{
    if n == 0 {
        1
    } else {
        10 * pow10((n - 1) as nat)
    }
}

pub proof fn lemma_pow10_pos(n: nat)
    ensures
        pow10(n) >= 1,
    decreases n,
{
    if n > 0 {
        lemma_pow10_pos((n - 1) as nat);
    }
}

pub proof fn lemma_pow10_mono(a: nat, b: nat)
    requires
        a <= b,
    ensures
        pow10(a) <= pow10(b),
    decreases b,
{
    if a < b {
        lemma_pow10_mono(a, (b - 1) as nat);
        lemma_pow10_pos(a);
    }
}

/// A digit string of length n spells a value in `[0, 10^n)`.
pub proof fn lemma_digits_val_bounds(s: Seq<char>)
    requires
        all_digits(s),
    ensures
        0 <= digits_val(s) < pow10(s.len()),
    decreases s.len(),
{
    if s.len() > 0 {
        assert(all_digits(s.drop_last()));
        lemma_digits_val_bounds(s.drop_last());
        assert(is_digit(s.last()));
    }
}

/// Concatenation shifts the first part by the length of the second.
pub proof fn lemma_digits_val_concat(a: Seq<char>, b: Seq<char>)
    ensures
        digits_val(a + b) == digits_val(a) * pow10(b.len()) + digits_val(b),
    decreases b.len(),
{
    if b.len() == 0 {
        assert(a + b =~= a);
    } else {
        lemma_digits_val_concat(a, b.drop_last());
        assert((a + b).drop_last() =~= a + b.drop_last());
        assert((a + b).len() > 0);
        assert((a + b).last() == b.last());
        let va = digits_val(a);
        let vb1 = digits_val(b.drop_last());
        let p1 = pow10(b.drop_last().len());
        assert(digits_val(a + b) == (va * p1 + vb1) * 10 + digit_val(b.last()));
        assert(pow10(b.len()) == 10 * p1);
        assert((va * p1 + vb1) * 10 == va * (10 * p1) + vb1 * 10) by (nonlinear_arith);
        assert(digits_val(b) == vb1 * 10 + digit_val(b.last()));
    }
}

/// A string of zero digits spells zero.
pub proof fn lemma_zeros_val(s: Seq<char>)
    requires
        forall|i: int| 0 <= i < s.len() ==> is_digit(#[trigger] s[i]) && digit_val(s[i]) == 0,
    ensures
        all_digits(s),
        digits_val(s) == 0,
    decreases s.len(),
{
    if s.len() > 0 {
        lemma_zeros_val(s.drop_last());
        assert(digit_val(s.last()) == 0);
    }
}

/// Digit strings of equal length and pointwise equal digit values spell the
/// same number.
pub proof fn lemma_pointwise_val_eq(a: Seq<char>, b: Seq<char>)
    requires
        a.len() == b.len(),
        forall|m: int| 0 <= m < a.len() ==> digit_val(#[trigger] a[m]) == digit_val(b[m]),
    ensures
        digits_val(a) == digits_val(b),
    decreases a.len(),
{
    if a.len() > 0 {
        lemma_pointwise_val_eq(a.drop_last(), b.drop_last());
        assert(digit_val(a.last()) == digit_val(b.last()));
    }
}

/// Equal-length digit strings compare lexicographically: a smaller digit at
/// the first difference means a smaller value.
pub proof fn lemma_lex_lt(a: Seq<char>, b: Seq<char>, j: int)
    requires
        all_digits(a),
        all_digits(b),
        a.len() == b.len(),
        0 <= j < a.len(),
        forall|m: int| 0 <= m < j ==> digit_val(#[trigger] a[m]) == digit_val(b[m]),
        digit_val(a[j]) < digit_val(b[j]),
    ensures
        digits_val(a) < digits_val(b),
{
    lemma_pointwise_val_eq(a.subrange(0, j), b.subrange(0, j));
    let n = a.len() as int;
    let p = pow10((n - j - 1) as nat);
    assert(a =~= a.subrange(0, j + 1) + a.subrange(j + 1, n));
    assert(b =~= b.subrange(0, j + 1) + b.subrange(j + 1, n));
    lemma_digits_val_concat(a.subrange(0, j + 1), a.subrange(j + 1, n));
    lemma_digits_val_concat(b.subrange(0, j + 1), b.subrange(j + 1, n));
    assert(a.subrange(0, j + 1).drop_last() =~= a.subrange(0, j));
    assert(b.subrange(0, j + 1).drop_last() =~= b.subrange(0, j));
    assert(a.subrange(0, j + 1).last() == a[j]);
    assert(b.subrange(0, j + 1).last() == b[j]);
    let va = digits_val(a.subrange(0, j + 1));
    let vb = digits_val(b.subrange(0, j + 1));
    assert(va == digits_val(a.subrange(0, j)) * 10 + digit_val(a[j]));
    assert(vb == digits_val(b.subrange(0, j)) * 10 + digit_val(b[j]));
    assert(va + 1 <= vb);
    assert(all_digits(a.subrange(j + 1, n)));
    assert(all_digits(b.subrange(j + 1, n)));
    lemma_digits_val_bounds(a.subrange(j + 1, n));
    lemma_digits_val_bounds(b.subrange(j + 1, n));
    lemma_pow10_pos((n - j - 1) as nat);
    assert(digits_val(a) == va * p + digits_val(a.subrange(j + 1, n)));
    assert(digits_val(b) == vb * p + digits_val(b.subrange(j + 1, n)));
    assert(va * p + p <= vb * p) by (nonlinear_arith)
        requires
            va + 1 <= vb,
            p >= 1,
    ;
}

/// A shorter digit string spells a smaller value than a longer one whose
/// leading digit is not zero.
pub proof fn lemma_len_lt(a: Seq<char>, b: Seq<char>)
    requires
        all_digits(a),
        all_digits(b),
        a.len() < b.len(),
        b.len() >= 1,
        digit_val(b[0]) >= 1,
    ensures
        digits_val(a) < digits_val(b),
{
    let n = b.len() as int;
    lemma_digits_val_bounds(a);
    assert(b =~= b.subrange(0, 1) + b.subrange(1, n));
    lemma_digits_val_concat(b.subrange(0, 1), b.subrange(1, n));
    assert(b.subrange(0, 1).drop_last() =~= Seq::<char>::empty());
    assert(b.subrange(0, 1).last() == b[0]);
    assert(digits_val(Seq::<char>::empty()) == 0);
    assert(b.subrange(0, 1).len() == 1);
    assert(digits_val(b.subrange(0, 1)) == digits_val(b.subrange(0, 1).drop_last()) * 10
        + digit_val(b.subrange(0, 1).last()));
    assert(digits_val(b.subrange(0, 1)) == digit_val(b[0]));
    assert(all_digits(b.subrange(1, n)));
    lemma_digits_val_bounds(b.subrange(1, n));
    let p = pow10((n - 1) as nat);
    assert(digits_val(b) >= 1 * p + 0) by (nonlinear_arith)
        requires
            digits_val(b) == digits_val(b.subrange(0, 1)) * p + digits_val(b.subrange(1, n)),
            digits_val(b.subrange(0, 1)) >= 1,
            digits_val(b.subrange(1, n)) >= 0,
            p >= 1,
    ;
    lemma_pow10_mono(a.len(), (n - 1) as nat);
}

/// Position of the first `'.'` in `b`, or -1 if there is none.
pub open spec fn find_dot(b: Seq<char>) -> int
    decreases b.len(),
{
    if b.len() == 0 {
        -1
    } else if b[0] == '.' {
        0
    } else {
        let r = find_dot(b.drop_first());
        if r < 0 {
            -1
        } else {
            r + 1
        }
    }
}

pub proof fn lemma_find_dot_props(b: Seq<char>)
    ensures
        find_dot(b) >= 0 ==> find_dot(b) < b.len() && b[find_dot(b)] == '.',
        forall|m: int| 0 <= m < find_dot(b) ==> b[m] != '.',
        find_dot(b) < 0 ==> forall|m: int| 0 <= m < b.len() ==> b[m] != '.',
    decreases b.len(),
{
    if b.len() == 0 {
    } else if b[0] == '.' {
    } else {
        lemma_find_dot_props(b.drop_first());
        let r = find_dot(b.drop_first());
        if r >= 0 {
            assert forall|m: int| 0 <= m < r + 1 implies b[m] != '.' by {
                if m > 0 {
                    assert(b.drop_first()[m - 1] != '.');
                }
            }
        } else {
            assert forall|m: int| 0 <= m < b.len() implies b[m] != '.' by {
                if m > 0 {
                    assert(b.drop_first()[m - 1] != '.');
                }
            }
        }
    }
}

/// The label begins with a minus sign.
pub open spec fn label_neg(s: Seq<char>) -> bool {
    s.len() >= 1 && s[0] == '-'
}

/// The label without its sign.
pub open spec fn label_body(s: Seq<char>) -> Seq<char> {
    if label_neg(s) {
        s.drop_first()
    } else {
        s
    }
}

/// The digits before the decimal point (the whole body if there is none).
pub open spec fn label_int(s: Seq<char>) -> Seq<char> {
    let b = label_body(s);
    let d = find_dot(b);
    if d < 0 {
        b
    } else {
        b.take(d)
    }
}

/// The digits after the decimal point, empty if there is none.
pub open spec fn label_frac(s: Seq<char>) -> Seq<char> {
    let b = label_body(s);
    let d = find_dot(b);
    if d < 0 {
        Seq::<char>::empty()
    } else {
        b.skip(d + 1)
    }
}

/// The label spells a decimal number: `-?digit+(.digit+)?`.
pub open spec fn is_numeric_label(s: Seq<char>) -> bool {
    let b = label_body(s);
    let d = find_dot(b);
    let i = label_int(s);
    let f = label_frac(s);
    i.len() >= 1 && all_digits(i) && all_digits(f) && (d < 0 || f.len() >= 1)
}

/// The label's value scaled by `10^label_scale`: the integer spelled by its
/// digits with the point removed, negated for a negative label.  A label
/// that is not numeric counts as zero.
pub open spec fn label_units(s: Seq<char>) -> int {
    if is_numeric_label(s) {
        if label_neg(s) {
            -digits_val(label_int(s) + label_frac(s))
        } else {
            digits_val(label_int(s) + label_frac(s))
        }
    } else {
        0
    }
}

/// How many fractional digits the label has.
pub open spec fn label_scale(s: Seq<char>) -> nat {
    if is_numeric_label(s) {
        label_frac(s).len()
    } else {
        0
    }
}

/// The label `a` denotes a number less than or equal to the one `b`
/// denotes: the exact comparison of the two scaled values.
pub open spec fn label_le(a: Seq<char>, b: Seq<char>) -> bool {
    label_units(a) * pow10(label_scale(b)) <= label_units(b) * pow10(label_scale(a))
}

/// Whether `c` is a decimal digit.
pub fn is_digit_char(c: char) -> (r: bool)
    ensures
        r == is_digit(c),
{
    let u = c as u32;
    48 <= u && u <= 57
}

/// A label split into sign, integer digits and fractional digits.
pub struct LabelParts<'a> {
    pub neg: bool,
    pub int_part: &'a str,
    pub frac_part: &'a str,
    pub numeric: bool,
}

/// A label with a character that fits neither the digit run nor a first
/// decimal point is not numeric.
proof fn lemma_bad_char(s: Seq<char>, pos: int)
    requires
        0 <= pos < label_body(s).len(),
        !is_digit(label_body(s)[pos]),
        label_body(s)[pos] != '.',
        forall|m: int| 0 <= m < pos ==> is_digit(#[trigger] label_body(s)[m]),
    ensures
        !is_numeric_label(s),
{
    let b = label_body(s);
    let d = find_dot(b);
    lemma_find_dot_props(b);
    if is_numeric_label(s) {
        if d < 0 {
            assert(label_int(s)[pos] == b[pos]);
        } else {
            assert(forall|m: int| 0 <= m <= pos ==> b[m] != '.');
            assert(d > pos);
            assert(label_int(s)[pos] == b[pos]);
        }
    }
}

/// Split a label into sign, integer digits and fractional digits,
/// recognising exactly the numeric grammar.
pub fn parse_label<'a>(s: &'a str) -> (p: LabelParts<'a>)
    ensures
        p.numeric == is_numeric_label(s@),
        p.numeric ==> p.neg == label_neg(s@) && p.int_part@ == label_int(s@) && p.frac_part@
            == label_frac(s@),
        !p.numeric ==> p.int_part@.len() == 0 && p.frac_part@.len() == 0 && !p.neg,
{
    let l = s.unicode_len();
    let empty = s.substring_char(0, 0);
    let not_numeric = LabelParts { neg: false, int_part: empty, frac_part: empty, numeric: false };
    let neg = l >= 1 && s.get_char(0) == '-';
    let start: usize = if neg {
        1
    } else {
        0
    };
    let ghost b = label_body(s@);
    proof {
        if neg {
            assert(b =~= s@.skip(start as int));
        } else {
            assert(b =~= s@.skip(start as int));
        }
        lemma_find_dot_props(b);
    }
    let mut j = start;
    while j < l && is_digit_char(s.get_char(j))
        invariant
            start <= j <= l,
            l == s@.len(),
            start <= 1,
            b == label_body(s@),
            b =~= s@.skip(start as int),
            forall|m: int| start <= m < j ==> is_digit(#[trigger] s@[m]),
        decreases l - j,
    {
        j += 1;
    }
    if j == start {
        // no leading digit: either the body is empty, starts with '.', or
        // starts with another non-digit
        proof {
            let d = find_dot(b);
            if b.len() == 0 {
                assert(label_int(s@).len() == 0);
            } else {
                assert(b[0] == s@[start as int]);
                assert(!is_digit(b[0]));
                if b[0] == '.' {
                    assert(d == 0);
                    assert(label_int(s@).len() == 0);
                } else {
                    lemma_bad_char(s@, 0);
                }
            }
        }
        return not_numeric;
    }
    if j == l {
        // digits only
        let int_part = s.substring_char(start, l);
        proof {
            assert(forall|m: int| 0 <= m < b.len() ==> is_digit(#[trigger] b[m]));
            assert(forall|m: int| 0 <= m < b.len() ==> b[m] != '.');
            let d = find_dot(b);
            if d >= 0 {
                assert(b[d] == '.');
            }
            assert(d < 0);
            assert(int_part@ =~= b);
        }
        return LabelParts { neg, int_part, frac_part: empty, numeric: true };
    }
    let c = s.get_char(j);
    if c != '.' {
        proof {
            lemma_bad_char(s@, j - start);
        }
        return not_numeric;
    }
    // a decimal point at position j - start of the body
    proof {
        let d = find_dot(b);
        assert(b[j - start] == '.');
        if d < 0 {
            assert(b[j - start] != '.');
        }
        assert(forall|m: int| 0 <= m < j - start ==> is_digit(#[trigger] b[m]) && b[m] != '.');
        if d < j - start {
            assert(b[d] == '.');
        }
        if d > j - start {
            assert(b[j - start] != '.');
        }
        assert(d == j - start);
    }
    let mut k = j + 1;
    while k < l && is_digit_char(s.get_char(k))
        invariant
            j + 1 <= k <= l,
            l == s@.len(),
            start <= 1,
            start < j < l,
            forall|m: int| j < m < k ==> is_digit(#[trigger] s@[m]),
        decreases l - k,
    {
        k += 1;
    }
    if k == l && k > j + 1 {
        let int_part = s.substring_char(start, j);
        let frac_part = s.substring_char(j + 1, l);
        proof {
            assert(int_part@ =~= label_int(s@));
            assert(frac_part@ =~= label_frac(s@));
            assert(forall|m: int|
                0 <= m < label_int(s@).len() ==> is_digit(#[trigger] label_int(s@)[m]));
            assert(forall|m: int|
                0 <= m < label_frac(s@).len() ==> is_digit(#[trigger] label_frac(s@)[m]));
        }
        return LabelParts { neg, int_part, frac_part, numeric: true };
    }
    if k == j + 1 {
        // nothing after the decimal point, or a non-digit right after it
        proof {
            if k == l {
                assert(label_frac(s@) =~= b.skip(j - start + 1));
                assert(label_frac(s@).len() == 0);
            } else {
                assert(!is_digit(s@[k as int]));
                assert(label_frac(s@)[0] == b[j - start + 1]);
                assert(b[j - start + 1] == s@[k as int]);
                assert(!all_digits(label_frac(s@)));
            }
        }
        return not_numeric;
    }
    // digits after the point, then a stray character
    proof {
        assert(k < l);
        assert(!is_digit(s@[k as int]));
        assert(label_frac(s@)[k - j - 1] == b[k - start]);
        assert(b[k - start] == s@[k as int]);
        assert(!all_digits(label_frac(s@)));
    }
    not_numeric
}

/// The order of two magnitudes.
pub enum Rel {
    Lt,
    Eq,
    Gt,
}

/// Drop the leading zero digits.
fn strip_zeros<'a>(d: &'a str) -> (r: &'a str)
    requires
        all_digits(d@),
    ensures
        all_digits(r@),
        r@.len() >= 1 ==> digit_val(r@[0]) >= 1,
        digits_val(r@) == digits_val(d@),
        r@.len() <= d@.len(),
{
    let l = d.unicode_len();
    let mut z: usize = 0;
    while z < l && d.get_char(z) as u32 == 48
        invariant
            0 <= z <= l,
            l == d@.len(),
            all_digits(d@),
            forall|m: int| 0 <= m < z ==> digit_val(#[trigger] d@[m]) == 0,
        decreases l - z,
    {
        z += 1;
    }
    let r = d.substring_char(z, l);
    proof {
        assert(d@ =~= d@.subrange(0, z as int) + r@);
        lemma_zeros_val(d@.subrange(0, z as int));
        lemma_digits_val_concat(d@.subrange(0, z as int), r@);
        if r@.len() >= 1 {
            assert(r@[0] == d@[z as int]);
            assert(is_digit(r@[0]) && digit_val(r@[0]) != 0);
        }
    }
    r
}

/// Whether a digit string spells zero.
fn digits_are_zero(d: &str) -> (r: bool)
    requires
        all_digits(d@),
    ensures
        r == (digits_val(d@) == 0),
{
    let l = d.unicode_len();
    let mut z: usize = 0;
    while z < l
        invariant
            0 <= z <= l,
            l == d@.len(),
            all_digits(d@),
            forall|m: int| 0 <= m < z ==> digit_val(#[trigger] d@[m]) == 0,
        decreases l - z,
    {
        if d.get_char(z) as u32 != 48 {
            proof {
                let i = z as int;
                let n = d@.len() as int;
                assert(digit_val(d@[i]) >= 1);
                assert(d@ =~= d@.subrange(0, i) + d@.subrange(i, n));
                lemma_digits_val_concat(d@.subrange(0, i), d@.subrange(i, n));
                assert(all_digits(d@.subrange(0, i)));
                assert(all_digits(d@.subrange(i, n)));
                lemma_digits_val_bounds(d@.subrange(0, i));
                assert(d@.subrange(i, n).len() >= 1);
                assert(digit_val(d@.subrange(i, n)[0]) >= 1);
                lemma_len_lt(Seq::<char>::empty(), d@.subrange(i, n));
                let p = pow10(d@.subrange(i, n).len());
                lemma_pow10_pos(d@.subrange(i, n).len());
                assert(digits_val(d@.subrange(0, i)) * p >= 0) by (nonlinear_arith)
                    requires
                        digits_val(d@.subrange(0, i)) >= 0,
                        p >= 1,
                ;
            }
            return false;
        }
        z += 1;
    }
    proof {
        lemma_zeros_val(d@);
    }
    true
}

/// Compare the scaled magnitudes `digits_val(ea + fa) * 10^|fb|` and
/// `digits_val(eb + fb) * 10^|fa|`, for integer parts without leading zeros.
fn cmp_mag(ea: &str, fa: &str, eb: &str, fb: &str) -> (r: Rel)
    requires
        all_digits(ea@),
        all_digits(fa@),
        all_digits(eb@),
        all_digits(fb@),
        ea@.len() >= 1 ==> digit_val(ea@[0]) >= 1,
        eb@.len() >= 1 ==> digit_val(eb@[0]) >= 1,
    ensures
        ({
            let va = digits_val(ea@ + fa@) * pow10(fb@.len());
            let vb = digits_val(eb@ + fb@) * pow10(fa@.len());
            match r {
                Rel::Lt => va < vb,
                Rel::Eq => va == vb,
                Rel::Gt => va > vb,
            }
        }),
{
    let na = ea.unicode_len();
    let nb = eb.unicode_len();
    let sa = fa.unicode_len();
    let sb = fb.unicode_len();
    let ghost za = Seq::<char>::new(sb as nat, |i: int| '0');
    let ghost zb = Seq::<char>::new(sa as nat, |i: int| '0');
    let ghost da = (ea@ + fa@) + za;
    let ghost db = (eb@ + fb@) + zb;
    proof {
        assert('0' as u32 == 48);
        lemma_zeros_val(za);
        lemma_zeros_val(zb);
        lemma_digits_val_concat(ea@ + fa@, za);
        lemma_digits_val_concat(eb@ + fb@, zb);
        assert(digits_val(da) == digits_val(ea@ + fa@) * pow10(fb@.len()));
        assert(digits_val(db) == digits_val(eb@ + fb@) * pow10(fa@.len()));
        assert(all_digits(da));
        assert(all_digits(db));
    }
    if na < nb {
        proof {
            assert(da.len() < db.len());
            assert(digit_val(db[0]) >= 1);
            lemma_len_lt(da, db);
        }
        return Rel::Lt;
    }
    if nb < na {
        proof {
            assert(db.len() < da.len());
            assert(digit_val(da[0]) >= 1);
            lemma_len_lt(db, da);
        }
        return Rel::Gt;
    }
    // same number of integer digits: the padded forms have equal length, so
    // they compare lexicographically, first the integer digits ...
    let max_s = if sa > sb {
        sa
    } else {
        sb
    };
    let mut m: usize = 0;
    while m < na
        invariant
            na == ea@.len() && nb == eb@.len() && sa == fa@.len() && sb == fb@.len(),
            na == nb,
            0 <= m <= na,
            da == (ea@ + fa@) + za,
            db == (eb@ + fb@) + zb,
            all_digits(ea@) && all_digits(fa@) && all_digits(eb@) && all_digits(fb@),
            all_digits(da) && all_digits(db),
            da.len() == db.len() == na + sa + sb,
            digits_val(da) == digits_val(ea@ + fa@) * pow10(fb@.len()),
            digits_val(db) == digits_val(eb@ + fb@) * pow10(fa@.len()),
            forall|q: int| 0 <= q < m ==> digit_val(#[trigger] da[q]) == digit_val(db[q]),
        decreases na - m,
    {
        let ca = ea.get_char(m) as u32;
        let cb = eb.get_char(m) as u32;
        proof {
            assert(da[m as int] == ea@[m as int]);
            assert(db[m as int] == eb@[m as int]);
        }
        if ca < cb {
            proof {
                lemma_lex_lt(da, db, m as int);
            }
            return Rel::Lt;
        }
        if cb < ca {
            proof {
                lemma_lex_lt(db, da, m as int);
            }
            return Rel::Gt;
        }
        m += 1;
    }
    // ... then the fractional digits, padded with zeros on the right
    let mut m2: usize = 0;
    while m2 < max_s
        invariant
            na == ea@.len() && nb == eb@.len() && sa == fa@.len() && sb == fb@.len(),
            na == nb,
            max_s == if sa > sb {
                sa
            } else {
                sb
            },
            0 <= m2 <= max_s,
            da == (ea@ + fa@) + za,
            db == (eb@ + fb@) + zb,
            za == Seq::<char>::new(sb as nat, |i: int| '0'),
            zb == Seq::<char>::new(sa as nat, |i: int| '0'),
            all_digits(ea@) && all_digits(fa@) && all_digits(eb@) && all_digits(fb@),
            all_digits(da) && all_digits(db),
            da.len() == db.len() == na + sa + sb,
            digits_val(da) == digits_val(ea@ + fa@) * pow10(fb@.len()),
            digits_val(db) == digits_val(eb@ + fb@) * pow10(fa@.len()),
            forall|q: int| 0 <= q < na + m2 ==> digit_val(#[trigger] da[q]) == digit_val(db[q]),
        decreases max_s - m2,
    {
        let va: u32 = if m2 < sa {
            fa.get_char(m2) as u32 - 48
        } else {
            0
        };
        let vb: u32 = if m2 < sb {
            fb.get_char(m2) as u32 - 48
        } else {
            0
        };
        proof {
            assert('0' as u32 == 48);
            let q = na + m2 as int;
            if m2 < sa {
                assert(da[q] == fa@[m2 as int]);
                assert(digit_val(da[q]) == va as int);
            } else {
                assert(da[q] == za[m2 - sa]);
                assert(digit_val(da[q]) == 0);
            }
            if m2 < sb {
                assert(db[q] == fb@[m2 as int]);
                assert(digit_val(db[q]) == vb as int);
            } else {
                assert(db[q] == zb[m2 - sb]);
                assert(digit_val(db[q]) == 0);
            }
        }
        if va < vb {
            proof {
                lemma_lex_lt(da, db, na + m2 as int);
            }
            return Rel::Lt;
        }
        if vb < va {
            proof {
                lemma_lex_lt(db, da, na + m2 as int);
            }
            return Rel::Gt;
        }
        m2 += 1;
    }
    proof {
        assert forall|q: int| 0 <= q < da.len() implies digit_val(#[trigger] da[q]) == digit_val(
            db[q],
        ) by {
            if q >= na + max_s {
                assert(digit_val(da[q]) == 0);
                assert(digit_val(db[q]) == 0);
            }
        }
        lemma_pointwise_val_eq(da, db);
    }
    Rel::Eq
}

/// Decide `label_le`: compare two labels by the numbers they denote.
pub fn label_le_exec(a: &str, b: &str) -> (r: bool)
    ensures
        r == label_le(a@, b@),
{
    let pa = parse_label(a);
    let pb = parse_label(b);
    let ea = strip_zeros(pa.int_part);
    let eb = strip_zeros(pb.int_part);
    let ghost mag_a = digits_val(ea@ + pa.frac_part@);
    let ghost mag_b = digits_val(eb@ + pb.frac_part@);
    proof {
        // the stripped magnitude is the label's magnitude
        lemma_digits_val_concat(ea@, pa.frac_part@);
        lemma_digits_val_concat(pa.int_part@, pa.frac_part@);
        lemma_digits_val_concat(eb@, pb.frac_part@);
        lemma_digits_val_concat(pb.int_part@, pb.frac_part@);
        lemma_digits_val_bounds(ea@ + pa.frac_part@);
        lemma_digits_val_bounds(eb@ + pb.frac_part@);
        lemma_pow10_pos(pa.frac_part@.len());
        lemma_pow10_pos(pb.frac_part@.len());
        if is_numeric_label(a@) {
            assert(label_units(a@) == if label_neg(a@) {
                -digits_val(pa.int_part@ + pa.frac_part@)
            } else {
                digits_val(pa.int_part@ + pa.frac_part@)
            });
        }
    }
    let za = ea.is_empty() && digits_are_zero(pa.frac_part);
    let zb = eb.is_empty() && digits_are_zero(pb.frac_part);
    proof {
        if ea@.len() == 0 {
            assert(ea@ + pa.frac_part@ =~= pa.frac_part@);
        } else {
            lemma_len_lt(Seq::<char>::empty(), ea@ + pa.frac_part@);
        }
        if eb@.len() == 0 {
            assert(eb@ + pb.frac_part@ =~= pb.frac_part@);
        } else {
            lemma_len_lt(Seq::<char>::empty(), eb@ + pb.frac_part@);
        }
    }
    let neg_a = pa.neg && !za;
    let neg_b = pb.neg && !zb;
    let ghost ua = label_units(a@);
    let ghost ub = label_units(b@);
    let ghost qa = pow10(label_scale(a@));
    let ghost qb = pow10(label_scale(b@));
    proof {
        assert(qa == pow10(pa.frac_part@.len()));
        assert(qb == pow10(pb.frac_part@.len()));
        assert(neg_a ==> ua == -mag_a && mag_a >= 1);
        assert(!neg_a ==> ua == mag_a || ua == 0 && mag_a == 0);
        assert(!neg_a ==> ua == mag_a);
        assert(neg_b ==> ub == -mag_b && mag_b >= 1);
        assert(!neg_b ==> ub == mag_b);
    }
    if neg_a && !neg_b {
        proof {
            assert(ua * qb < 0 <= ub * qa) by (nonlinear_arith)
                requires
                    ua <= -1,
                    ub >= 0,
                    qa >= 1,
                    qb >= 1,
            ;
        }
        true
    } else if !neg_a && neg_b {
        proof {
            assert(ub * qa < 0 <= ua * qb) by (nonlinear_arith)
                requires
                    ub <= -1,
                    ua >= 0,
                    qa >= 1,
                    qb >= 1,
            ;
        }
        false
    } else if !neg_a && !neg_b {
        let c = cmp_mag(ea, pa.frac_part, eb, pb.frac_part);
        match c {
            Rel::Lt => true,
            Rel::Eq => true,
            Rel::Gt => false,
        }
    } else {
        let c = cmp_mag(ea, pa.frac_part, eb, pb.frac_part);
        proof {
            assert((-mag_a) * qb == -(mag_a * qb)) by (nonlinear_arith);
            assert((-mag_b) * qa == -(mag_b * qa)) by (nonlinear_arith);
        }
        match c {
            Rel::Lt => false,
            Rel::Eq => true,
            Rel::Gt => true,
        }
    }
}

/// Any two labels are comparable.
pub proof fn lemma_label_le_total(a: Seq<char>, b: Seq<char>)
    ensures
        label_le(a, b) || label_le(b, a),
{
}

/// The label order is transitive.
pub proof fn lemma_label_le_trans(a: Seq<char>, b: Seq<char>, c: Seq<char>)
    requires
        label_le(a, b),
        label_le(b, c),
    ensures
        label_le(a, c),
{
    let ua = label_units(a);
    let ub = label_units(b);
    let uc = label_units(c);
    let pa = pow10(label_scale(a));
    let pb = pow10(label_scale(b));
    let pc = pow10(label_scale(c));
    lemma_pow10_pos(label_scale(a));
    lemma_pow10_pos(label_scale(b));
    lemma_pow10_pos(label_scale(c));
    assert(ua * pc <= uc * pa) by (nonlinear_arith)
        requires
            ua * pb <= ub * pa,
            ub * pc <= uc * pb,
            pa >= 1,
            pb >= 1,
            pc >= 1,
    ;
}

} // verus!
