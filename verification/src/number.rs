//! Exact comparison of decimal number texts.
use vstd::prelude::*;

use crate::json::JsonNumber;

verus! {

/// `10^n`.
pub open spec fn pow10(n: nat) -> nat
    decreases n,
{
    if n == 0 {
        1
    } else {
        10 * pow10((n - 1) as nat)
    }
}

/// The value of a decimal digit character.
pub open spec fn digit_value(c: char) -> nat {
    if '0' <= c && c <= '9' {
        (c as u32 - '0' as u32) as nat
    } else {
        0
    }
}

/// The natural number that a string of decimal digits spells.
pub open spec fn nat_of(ds: Seq<char>) -> nat
    decreases ds.len(),
{
    if ds.len() == 0 {
        0
    } else {
        nat_of(ds.drop_last()) * 10 + digit_value(ds.last())
    }
}

/// `n` zeros.
pub open spec fn zeros(n: nat) -> Seq<char> {
    Seq::new(n, |i: int| '0')
}

/// Whether every character is a decimal digit.
pub open spec fn all_digits(ds: Seq<char>) -> bool {
    forall|i: int| 0 <= i < ds.len() ==> '0' <= #[trigger] ds[i] && ds[i] <= '9'
}

/// Whether `d` splits a number body into digits, an optional dot and
/// fraction digits, with at least one digit in all.
pub open spec fn number_split(body: Seq<char>, d: int) -> bool {
    0 <= d <= body.len() && all_digits(body.take(d)) && (d == body.len() || (body[d] == '.'
        && all_digits(body.skip(d + 1)))) && body.len() - (if d < body.len() {
        1int
    } else {
        0int
    }) > 0
}

/// Whether a text is a decimal number: an optional minus sign, digits, and
/// optionally a dot followed by digits, with at least one digit in all.
pub open spec fn is_number_text(t: Seq<char>) -> bool {
    exists|d: int| #[trigger] number_split(body_of(t), d)
}

/// Whether a number text has a minus sign.
pub open spec fn is_negative(t: Seq<char>) -> bool {
    t.len() > 0 && t[0] == '-'
}

/// The text after the sign.
pub open spec fn body_of(t: Seq<char>) -> Seq<char> {
    if is_negative(t) {
        t.skip(1)
    } else {
        t
    }
}

/// The index of the first dot at or after `i`, or the length.
pub open spec fn dot_index(s: Seq<char>, i: int) -> int
    decreases s.len() - i,
{
    if 0 <= i < s.len() && s[i] != '.' {
        dot_index(s, i + 1)
    } else {
        i
    }
}

/// The digits before the dot.
pub open spec fn int_part(t: Seq<char>) -> Seq<char> {
    body_of(t).take(dot_index(body_of(t), 0))
}

/// The digits after the dot.
pub open spec fn frac_part(t: Seq<char>) -> Seq<char> {
    let b = body_of(t);
    let d = dot_index(b, 0);
    if d < b.len() {
        b.skip(d + 1)
    } else {
        Seq::empty()
    }
}

/// The value of a number text times `10^f`, for `f` at least its number of
/// fraction digits.
pub open spec fn scaled(t: Seq<char>, f: nat) -> int {
    let m = nat_of(int_part(t) + frac_part(t) + zeros((f - frac_part(t).len()) as nat));
    if is_negative(t) {
        -m
    } else {
        m as int
    }
}

/// The larger of two fraction lengths.
pub open spec fn common_scale(a: Seq<char>, b: Seq<char>) -> nat {
    if frac_part(a).len() >= frac_part(b).len() {
        frac_part(a).len()
    } else {
        frac_part(b).len()
    }
}

/// Whether two number texts have the same value.
pub open spec fn number_eq(a: Seq<char>, b: Seq<char>) -> bool {
    scaled(a, common_scale(a, b)) == scaled(b, common_scale(a, b))
}

/// Whether number text `a` has a smaller value than `b`.
pub open spec fn number_lt(a: Seq<char>, b: Seq<char>) -> bool {
    scaled(a, common_scale(a, b)) < scaled(b, common_scale(a, b))
}

// ------------------------------------------------------------------ lemmas

proof fn lemma_nat_of_zeros_prefix(k: nat, s: Seq<char>)
    ensures
        nat_of(zeros(k) + s) == nat_of(s) + 0,
        nat_of(zeros(k)) == 0,
    decreases s.len() + k,
{
    if s.len() > 0 {
        assert((zeros(k) + s).drop_last() =~= zeros(k) + s.drop_last());
        lemma_nat_of_zeros_prefix(k, s.drop_last());
    } else {
        assert(zeros(k) + s =~= zeros(k));
        if k > 0 {
            assert(zeros(k).drop_last() =~= zeros((k - 1) as nat));
            lemma_nat_of_zeros_prefix((k - 1) as nat, s);
        }
    }
}

proof fn lemma_nat_of_bound(s: Seq<char>)
    ensures
        nat_of(s) < pow10(s.len()),
    decreases s.len(),
{
    if s.len() > 0 {
        lemma_nat_of_bound(s.drop_last());
        let p = pow10((s.len() - 1) as nat);
        let n = nat_of(s.drop_last());
        let d = digit_value(s.last());
        assert(n * 10 + d < p * 10) by (nonlinear_arith)
            requires
                n < p,
                d < 10,
        ;
    }
}

proof fn lemma_nat_of_append(p: Seq<char>, q: Seq<char>)
    ensures
        nat_of(p + q) == nat_of(p) * pow10(q.len()) + nat_of(q),
    decreases q.len(),
{
    if q.len() == 0 {
        assert(p + q =~= p);
        assert(nat_of(p) * 1 == nat_of(p));
    } else {
        assert((p + q).drop_last() =~= p + q.drop_last());
        assert((p + q).last() == q.last());
        lemma_nat_of_append(p, q.drop_last());
        assert(pow10(q.len()) == 10 * pow10((q.len() - 1) as nat));
        let a = nat_of(p);
        let b = pow10((q.len() - 1) as nat);
        let c = nat_of(q.drop_last());
        let d = digit_value(q.last());
        assert((a * b + c) * 10 + d == a * (10 * b) + (c * 10 + d)) by (nonlinear_arith);
        assert(nat_of(p + q) == nat_of((p + q).drop_last()) * 10 + digit_value((p + q).last()));
        assert(nat_of(q) == nat_of(q.drop_last()) * 10 + digit_value(q.last()));
    }
}

/// Of two digit strings of one length, the first that differs at the first
/// differing place is smaller exactly when its digit there is smaller.
proof fn lemma_nat_of_lex(x: Seq<char>, y: Seq<char>, j: int)
    requires
        x.len() == y.len(),
        0 <= j < x.len(),
        forall|t: int| 0 <= t < j ==> x[t] == y[t],
        digit_value(x[j]) < digit_value(y[j]),
    ensures
        nat_of(x) < nat_of(y),
{
    let p = x.take(j);
    assert(y.take(j) =~= p);
    let qx = x.skip(j + 1);
    let qy = y.skip(j + 1);
    assert(x =~= (p + seq![x[j]]) + qx);
    assert(y =~= (p + seq![y[j]]) + qy);
    lemma_nat_of_append(p + seq![x[j]], qx);
    lemma_nat_of_append(p + seq![y[j]], qy);
    assert((p + seq![x[j]]).drop_last() =~= p);
    assert((p + seq![y[j]]).drop_last() =~= p);
    lemma_nat_of_bound(qx);
    let m = pow10(qx.len());
    let np = nat_of(p);
    let dx = digit_value(x[j]);
    let dy = digit_value(y[j]);
    let rx = nat_of(qx);
    let ry = nat_of(qy);
    assert((np * 10 + dx) * m + rx < (np * 10 + dy) * m + ry) by (nonlinear_arith)
        requires
            dx < dy,
            rx < m,
    ;
}

// ------------------------------------------------------------------ exec

/// Where the parts of a number text lie: sign, end of the integer digits,
/// start of the fraction digits.
struct Parts {
    neg: bool,
    int_start: usize,
    int_end: usize,
    frac_start: usize,
}

fn parts_of(t: &Vec<char>) -> (p: Parts)
    ensures
        p.neg == is_negative(t@),
        p.int_start <= p.int_end <= p.frac_start <= t@.len(),
        t@.subrange(p.int_start as int, p.int_end as int) == int_part(t@),
        t@.subrange(p.frac_start as int, t@.len() as int) == frac_part(t@),
{
    let neg = t.len() > 0 && t[0] == '-';
    let start: usize = if neg {
        1
    } else {
        0
    };
    let ghost b = body_of(t@);
    assert(b =~= t@.skip(start as int));
    let mut i = start;
    loop
        invariant
            start <= i <= t@.len(),
            b == t@.skip(start as int),
            dot_index(b, (i - start) as int) == dot_index(b, 0),
        ensures
            start <= i <= t@.len(),
            i == t@.len() || t@[i as int] == '.',
            dot_index(b, (i - start) as int) == dot_index(b, 0),
        decreases t@.len() - i,
    {
        if i >= t.len() || t[i] == '.' {
            break ;
        }
        i = i + 1;
    }
    proof {
        if i < t.len() {
            assert(b[(i - start) as int] == '.');
        }
        assert(dot_index(b, (i - start) as int) == (i - start) as int);
        assert(t@.subrange(start as int, i as int) =~= b.take((i - start) as int));
    }
    let frac_start = if i < t.len() {
        i + 1
    } else {
        i
    };
    proof {
        if i < t.len() {
            assert(t@.subrange(frac_start as int, t@.len() as int) =~= b.skip((i - start) + 1));
        } else {
            assert(t@.subrange(frac_start as int, t@.len() as int) =~= Seq::<char>::empty());
        }
    }
    Parts { neg, int_start: start, int_end: i, frac_start }
}

/// `zeros(lead) + t[a..b] + t[c..] + zeros(trail)`, as digits.
fn padded(t: &Vec<char>, lead: usize, a: usize, b: usize, c: usize, trail: usize) -> (r: Vec<char>)
    requires
        a <= b <= t@.len(),
        c <= t@.len(),
    ensures
        r@ == zeros(lead as nat) + t@.subrange(a as int, b as int) + t@.subrange(
            c as int,
            t@.len() as int,
        ) + zeros(trail as nat),
{
    let mut r: Vec<char> = Vec::new();
    let mut i: usize = 0;
    while i < lead
        invariant
            i <= lead,
            r@ == zeros(i as nat),
        decreases lead - i,
    {
        r.push('0');
        i = i + 1;
        assert(r@ =~= zeros(i as nat));
    }
    let ghost r0 = r@;
    let mut j: usize = a;
    while j < b
        invariant
            a <= j <= b <= t@.len(),
            r@ == r0 + t@.subrange(a as int, j as int),
        decreases b - j,
    {
        r.push(t[j]);
        j = j + 1;
        assert(r@ =~= r0 + t@.subrange(a as int, j as int));
    }
    let ghost r1 = r@;
    let mut k: usize = c;
    while k < t.len()
        invariant
            c <= k <= t@.len(),
            r@ == r1 + t@.subrange(c as int, k as int),
        decreases t@.len() - k,
    {
        r.push(t[k]);
        k = k + 1;
        assert(r@ =~= r1 + t@.subrange(c as int, k as int));
    }
    let ghost r2 = r@;
    let mut z: usize = 0;
    while z < trail
        invariant
            z <= trail,
            r@ == r2 + zeros(z as nat),
        decreases trail - z,
    {
        r.push('0');
        z = z + 1;
        assert(r@ =~= r2 + zeros(z as nat));
    }
    r
}

/// -1, 0 or 1 as `nat_of(x)` is below, equal to or above `nat_of(y)`, for
/// digit strings of one length.
fn compare_digits(x: &Vec<char>, y: &Vec<char>) -> (r: i8)
    requires
        x@.len() == y@.len(),
        all_digits(x@),
        all_digits(y@),
    ensures
        r == -1 ==> nat_of(x@) < nat_of(y@),
        r == 0 ==> nat_of(x@) == nat_of(y@),
        r == 1 ==> nat_of(x@) > nat_of(y@),
        r == -1 || r == 0 || r == 1,
{
    let mut i: usize = 0;
    while i < x.len()
        invariant
            0 <= i <= x@.len(),
            x@.len() == y@.len(),
            all_digits(x@),
            all_digits(y@),
            forall|t: int| 0 <= t < i ==> x@[t] == y@[t],
        decreases x@.len() - i,
    {
        if x[i] != y[i] {
            proof {
                assert('0' <= x@[i as int] <= '9');
                assert('0' <= y@[i as int] <= '9');
            }
            if x[i] < y[i] {
                proof {
                    lemma_nat_of_lex(x@, y@, i as int);
                }
                return -1;
            } else {
                proof {
                    assert forall|t: int| 0 <= t < i implies y@[t] == x@[t] by {}
                    lemma_nat_of_lex(y@, x@, i as int);
                }
                return 1;
            }
        }
        i = i + 1;
    }
    assert(x@ =~= y@);
    0
}

fn is_all_zero(x: &Vec<char>) -> (r: bool)
    requires
        all_digits(x@),
    ensures
        r == (nat_of(x@) == 0),
{
    let mut i: usize = 0;
    while i < x.len()
        invariant
            0 <= i <= x@.len(),
            all_digits(x@),
            forall|t: int| 0 <= t < i ==> x@[t] == '0',
        decreases x@.len() - i,
    {
        if x[i] != '0' {
            proof {
                let z = zeros(i as nat);
                assert(x@.take(i as int) =~= z);
                let nz = seq![x@[i as int]];
                let rest = x@.skip(i + 1);
                assert(x@ =~= (z + nz) + rest);
                lemma_nat_of_append(z + nz, rest);
                assert((z + nz).drop_last() =~= z);
                lemma_nat_of_zeros_prefix(i as nat, Seq::empty());
                assert(z + Seq::<char>::empty() =~= z);
                assert(pow10(rest.len()) >= 1) by {
                    lemma_pow10_positive(rest.len());
                }
                let m = pow10(rest.len());
                let d = digit_value(x@[i as int]);
                assert(d * m + nat_of(rest) > 0) by (nonlinear_arith)
                    requires
                        d >= 1,
                        m >= 1,
                ;
            }
            return false;
        }
        i = i + 1;
    }
    proof {
        assert(x@ =~= zeros(x@.len()) + Seq::<char>::empty());
        lemma_nat_of_zeros_prefix(x@.len(), Seq::empty());
    }
    true
}

proof fn lemma_pow10_positive(n: nat)
    ensures
        pow10(n) >= 1,
    decreases n,
{
    if n > 0 {
        lemma_pow10_positive((n - 1) as nat);
    }
}

/// Compares two number texts by value: -1, 0 or 1.
pub fn compare_numbers(a: &str, b: &str) -> (r: i8)
    requires
        is_number_text(a@),
        is_number_text(b@),
    ensures
        r == -1 <==> number_lt(a@, b@),
        r == 0 <==> number_eq(a@, b@),
        r == 1 <==> number_lt(b@, a@),
{
    let x = crate::text::chars_of(a);
    let y = crate::text::chars_of(b);
    let pa = parts_of(&x);
    let pb = parts_of(&y);
    let ia = pa.int_end - pa.int_start;
    let ib = pb.int_end - pb.int_start;
    let fa = x.len() - pa.frac_start;
    let fb = y.len() - pb.frac_start;
    let l = if ia >= ib {
        ia
    } else {
        ib
    };
    let f = if fa >= fb {
        fa
    } else {
        fb
    };
    let da = padded(&x, l - ia, pa.int_start, pa.int_end, pa.frac_start, f - fa);
    let db = padded(&y, l - ib, pb.int_start, pb.int_end, pb.frac_start, f - fb);
    proof {
        lemma_padded_value(a@, da@, (l - ia) as nat, f as nat);
        lemma_padded_value(b@, db@, (l - ib) as nat, f as nat);
    }
    assert(common_scale(a@, b@) == f as nat);
    let c = compare_digits(&da, &db);
    let za = is_all_zero(&da);
    let zb = is_all_zero(&db);
    // Signed comparison of (neg_a ? -A : A) with (neg_b ? -B : B).
    let na = pa.neg && !za;
    let nb = pb.neg && !zb;
    if za && zb {
        0
    } else if na && !nb {
        -1
    } else if !na && nb {
        1
    } else if !na {
        c
    } else {
        -c
    }
}

/// A digit string of a number text padded on both sides with zeros spells
/// the number's magnitude times `10^f`.
proof fn lemma_padded_value(t: Seq<char>, d: Seq<char>, lead: nat, f: nat)
    requires
        is_number_text(t),
        f >= frac_part(t).len(),
        d == zeros(lead) + int_part(t) + frac_part(t) + zeros((f - frac_part(t).len()) as nat),
    ensures
        all_digits(d),
        scaled(t, f) == (if is_negative(t) {
            -nat_of(d)
        } else {
            nat_of(d) as int
        }),
{
    lemma_number_digits(t);
    let s = int_part(t) + frac_part(t) + zeros((f - frac_part(t).len()) as nat);
    assert(d =~= zeros(lead) + s);
    lemma_nat_of_zeros_prefix(lead, s);
}

/// The parts of a number text are digit strings.
proof fn lemma_number_digits(t: Seq<char>)
    requires
        is_number_text(t),
    ensures
        all_digits(int_part(t)),
        all_digits(frac_part(t)),
{
    let body = body_of(t);
    let d = choose|d: int| number_split(body, d);
    assert forall|t: int| 0 <= t < d implies body[t] != '.' by {
        assert(body.take(d)[t] == body[t]);
    }
    lemma_dot_index(body, 0, d);
    assert(int_part(t) =~= body.take(d));
    if d < body.len() {
        assert(frac_part(t) =~= body.skip(d + 1));
    } else {
        assert(frac_part(t) =~= Seq::<char>::empty());
    }
}

proof fn lemma_dot_index(s: Seq<char>, i: int, d: int)
    requires
        0 <= i <= d <= s.len(),
        forall|t: int| i <= t < d ==> s[t] != '.',
        d == s.len() || s[d] == '.',
    ensures
        dot_index(s, i) == d,
    decreases d - i,
{
    if i < d {
        lemma_dot_index(s, i + 1, d);
    }
}


/// Whether a text is a decimal number, as `is_number_text` defines it.
pub fn check_number_text(s: &str) -> (r: bool)
    ensures
        r == is_number_text(s@),
{
    let v = crate::text::chars_of(s);
    let ghost t = s@;
    let start: usize = if v.len() > 0 && v[0] == '-' {
        1
    } else {
        0
    };
    let ghost body = if t.len() > 0 && t[0] == '-' {
        t.skip(1)
    } else {
        t
    };
    assert(body =~= t.skip(start as int));
    assert(body == body_of(t));
    let mut d: usize = start;
    while d < v.len() && '0' <= v[d] && v[d] <= '9'
        invariant
            v@ == t,
            start <= d <= v@.len(),
            body == t.skip(start as int),
            all_digits(body.take(d - start)),
        decreases v@.len() - d,
    {
        assert(body.take(d + 1 - start) =~= body.take(d - start).push(v@[d as int]));
        d = d + 1;
    }
    let dd: usize = d - start;
    let blen: usize = v.len() - start;
    if d == v.len() {
        if blen > 0 {
            assert(all_digits(body.take(dd as int)));
            assert(number_split(body, dd as int));
            return true;
        } else {
            assert forall|e: int| 0 <= e <= body.len() implies !number_split(body, e) by {}
            proof {
                assert(!is_number_text(t));
            }
            return false;
        }
    }
    // Here body[dd] is not a digit.
    if v[d] != '.' {
        assert forall|e: int| 0 <= e <= body.len() implies !number_split(body, e) by {
            if all_digits(body.take(e)) {
                if e > dd {
                    assert(body.take(e)[dd as int] == body[dd as int]);
                } else if e < dd {
                    assert(body.take(dd as int)[e] == body[e]);
                }
            }
        }
        proof {
            assert(!is_number_text(t));
        }
        return false;
    }
    let mut k: usize = d + 1;
    while k < v.len()
        invariant
            v@ == t,
            start <= d < k <= v@.len(),
            body == t.skip(start as int),
            forall|i: int| d + 1 <= i < k ==> '0' <= #[trigger] t[i] && t[i] <= '9',
            all_digits(body.take(d - start)),
            body == body_of(t),
            t == s@,
            t[d as int] == '.',
            dd == d - start,
            blen == v@.len() - start,
        decreases v@.len() - k,
    {
        if !('0' <= v[k] && v[k] <= '9') {
            assert forall|e: int| 0 <= e <= body.len() implies !number_split(body, e) by {
                if all_digits(body.take(e)) {
                    if e > dd {
                        assert(body.take(e)[dd as int] == body[dd as int]);
                    } else if e < dd {
                        assert(body.take(dd as int)[e] == body[e]);
                    } else {
                        assert(body.skip(e + 1)[k - d - 1] == t[k as int]);
                    }
                }
            }
            proof {
                assert(!is_number_text(t));
            }
            return false;
        }
        k = k + 1;
    }
    assert(all_digits(body.skip(dd + 1))) by {
        assert forall|i: int| 0 <= i < body.skip(dd + 1).len() implies '0' <= #[trigger] body.skip(dd + 1)[i]
            && body.skip(dd + 1)[i] <= '9' by {
            assert(body.skip(dd + 1)[i] == t[d + 1 + i]);
        }
    }
    if blen > 1 {
        assert(all_digits(body.take(dd as int)));
        assert(body[dd as int] == '.');
        assert(number_split(body, dd as int));
        true
    } else {
        assert forall|e: int| 0 <= e <= body.len() implies !number_split(body, e) by {
            if e == 1 {
                assert(body.take(1)[0] == body[0]);
            }
        }
        proof {
            assert(!is_number_text(t));
        }
        false
    }
}

// ------------------------------------------------------------------ exponents

/// The index of the first `e` or `E` at or after `i`, or the length.
pub open spec fn exp_index(s: Seq<char>, i: int) -> int
    decreases s.len() - i,
{
    if 0 <= i < s.len() && s[i] != 'e' && s[i] != 'E' {
        exp_index(s, i + 1)
    } else {
        i
    }
}

/// The digits of an exponent, after its sign.
pub open spec fn exp_digits(x: Seq<char>) -> Seq<char> {
    if x.len() > 0 && (x[0] == '+' || x[0] == '-') {
        x.skip(1)
    } else {
        x
    }
}

/// Whether an exponent is an optional sign and one to four digits.
pub open spec fn exponent_ok(x: Seq<char>) -> bool {
    1 <= exp_digits(x).len() <= 4 && all_digits(exp_digits(x))
}

/// The value of an exponent.
pub open spec fn exp_value(x: Seq<char>) -> int {
    if x.len() > 0 && x[0] == '-' {
        -(nat_of(exp_digits(x)) as int)
    } else {
        nat_of(exp_digits(x)) as int
    }
}

/// A decimal number text times `10^e`, written as a decimal number text:
/// its digits with the dot moved `e` places (right for a positive `e`),
/// zeros filled in where the dot moves past them.
pub open spec fn shifted(m: Seq<char>, e: int) -> Seq<char> {
    let sign = if is_negative(m) {
        seq!['-']
    } else {
        Seq::empty()
    };
    let d = int_part(m) + frac_part(m);
    let pos = int_part(m).len() + e;
    if pos >= d.len() {
        sign + d + zeros((pos - d.len()) as nat)
    } else if pos > 0 {
        sign + d.take(pos) + seq!['.'] + d.skip(pos)
    } else {
        sign + seq!['0', '.'] + zeros((-pos) as nat) + d
    }
}

/// A number text written without an exponent: a decimal mantissa followed
/// by `e` or `E` and an exponent of at most four digits becomes the decimal
/// text of its value; any other text stays as it is.
pub open spec fn decimal_form(t: Seq<char>) -> Seq<char> {
    let k = exp_index(t, 0);
    if k < t.len() && is_number_text(t.take(k)) && exponent_ok(t.skip(k + 1)) {
        shifted(t.take(k), exp_value(t.skip(k + 1)))
    } else {
        t
    }
}

/// Reads an exponent: whether it is well formed, and its value.
fn read_exponent(x: &Vec<char>) -> (r: (bool, i64))
    ensures
        r.0 == exponent_ok(x@),
        r.0 ==> r.1 == exp_value(x@),
        r.0 ==> -10000 < r.1 < 10000,
{
    let signed = x.len() > 0 && (x[0] == '+' || x[0] == '-');
    let start: usize = if signed {
        1
    } else {
        0
    };
    let ghost d = exp_digits(x@);
    assert(d =~= x@.skip(start as int));
    let n = x.len() - start;
    assert(d.len() == n);
    if n < 1 || n > 4 {
        return (false, 0);
    }
    let mut v: i64 = 0;
    let mut i: usize = 0;
    while i < n
        invariant
            0 <= i <= n <= 4,
            start <= 1,
            d == exp_digits(x@),
            n == d.len(),
            d == x@.skip(start as int),
            start + n == x@.len(),
            all_digits(d.take(i as int)),
            v == nat_of(d.take(i as int)),
            v < pow10(i as nat),
        decreases n - i,
    {
        let c = x[start + i];
        assert(c == d[i as int]);
        if !('0' <= c && c <= '9') {
            assert(!all_digits(d));
            assert(!exponent_ok(x@));
            return (false, 0);
        }
        assert(d.take(i + 1).drop_last() =~= d.take(i as int));
        assert(d.take(i + 1) =~= d.take(i as int).push(c));
        assert(pow10((i + 1) as nat) == 10 * pow10(i as nat));
        assert(v * 10 + 9 < 10 * pow10(i as nat)) by (nonlinear_arith)
            requires
                v < pow10(i as nat),
        ;
        proof {
            reveal_with_fuel(pow10, 5);
            assert(pow10(4) == 10000);
            lemma_pow10_mono(i as nat + 1, 4);
        }
        v = v * 10 + ((c as u32 - '0' as u32) as i64);
        i = i + 1;
    }
    assert(d.take(n as int) =~= d);
    proof {
        reveal_with_fuel(pow10, 5);
        lemma_pow10_mono(n as nat, 4);
    }
    if x.len() > 0 && x[0] == '-' {
        (true, -v)
    } else {
        (true, v)
    }
}

proof fn lemma_pow10_mono(a: nat, b: nat)
    requires
        a <= b,
    ensures
        pow10(a) <= pow10(b),
    decreases b,
{
    if a < b {
        lemma_pow10_mono(a, (b - 1) as nat);
    }
}

fn push_chars(out: &mut Vec<char>, v: &Vec<char>, from: usize, to: usize)
    requires
        from <= to <= v@.len(),
    ensures
        final(out)@ == old(out)@ + v@.subrange(from as int, to as int),
{
    let mut i = from;
    while i < to
        invariant
            from <= i <= to <= v@.len(),
            out@ == old(out)@ + v@.subrange(from as int, i as int),
        decreases to - i,
    {
        out.push(v[i]);
        i = i + 1;
        assert(v@.subrange(from as int, i as int) =~= v@.subrange(from as int, i - 1 as int).push(v@[i - 1]));
    }
}

fn push_zeros(out: &mut Vec<char>, n: usize)
    ensures
        final(out)@ == old(out)@ + zeros(n as nat),
{
    let mut i: usize = 0;
    while i < n
        invariant
            0 <= i <= n,
            out@ == old(out)@ + zeros(i as nat),
        decreases n - i,
    {
        out.push('0');
        i = i + 1;
        assert(zeros(i as nat) =~= zeros((i - 1) as nat).push('0'));
    }
}

/// The decimal form of a number text (see `decimal_form`).
pub fn decimal_form_of(s: &str) -> (r: String)
    ensures
        r@ == decimal_form(s@),
{
    let cs = crate::text::chars_of(s);
    let ghost t = s@;
    let mut k: usize = 0;
    while k < cs.len() && cs[k] != 'e' && cs[k] != 'E'
        invariant
            0 <= k <= cs@.len(),
            cs@ == t,
            exp_index(t, k as int) == exp_index(t, 0),
        decreases cs@.len() - k,
    {
        k = k + 1;
    }
    assert(exp_index(t, k as int) == k);
    if k >= cs.len() {
        return crate::text::string_of(s);
    }
    let m = crate::text::string_from_chars(&cs, 0, k);
    assert(m@ =~= t.take(k as int));
    if !check_number_text(m.as_str()) {
        return crate::text::string_of(s);
    }
    let xs: Vec<char> = {
        let mut v: Vec<char> = Vec::new();
        push_chars(&mut v, &cs, k + 1, cs.len());
        v
    };
    assert(xs@ =~= t.skip(k + 1));
    let (ok, e) = read_exponent(&xs);
    if !ok {
        return crate::text::string_of(s);
    }
    let mv = crate::text::chars_of(m.as_str());
    let parts = parts_of(&mv);
    let ghost mm = t.take(k as int);
    let mut d: Vec<char> = Vec::new();
    push_chars(&mut d, &mv, parts.int_start, parts.int_end);
    push_chars(&mut d, &mv, parts.frac_start, mv.len());
    assert(d@ =~= int_part(mm) + frac_part(mm));
    assert(mv@ == mm);
    assert(d@.len() <= mm.len());
    let ilen: i128 = (parts.int_end - parts.int_start) as i128;
    assert(ilen == int_part(mm).len());
    let pos: i128 = ilen + e as i128;
    let dl: i128 = d.len() as i128;
    assert(dl == d@.len());
    let mut out: Vec<char> = Vec::new();
    if parts.neg {
        out.push('-');
    }
    let ghost sign = if is_negative(mm) {
        seq!['-']
    } else {
        Seq::<char>::empty()
    };
    assert(out@ =~= sign);
    if pos >= dl {
        push_chars(&mut out, &d, 0, d.len());
        let z: usize = (pos - dl) as usize;
        assert(z == pos - dl);
        push_zeros(&mut out, z);
        assert(d@.subrange(0, d@.len() as int) =~= d@);
    } else if pos > 0 {
        push_chars(&mut out, &d, 0, pos as usize);
        out.push('.');
        push_chars(&mut out, &d, pos as usize, d.len());
        assert(d@.subrange(0, pos as int) =~= d@.take(pos as int));
        assert(d@.subrange(pos as int, d@.len() as int) =~= d@.skip(pos as int));
    } else {
        out.push('0');
        out.push('.');
        let z: usize = (-pos) as usize;
        assert(z == -pos);
        push_zeros(&mut out, z);
        push_chars(&mut out, &d, 0, d.len());
        assert(d@.subrange(0, d@.len() as int) =~= d@);
    }
    let r = crate::text::string_from_chars(&out, 0, out.len());
    assert(out@.subrange(0, out@.len() as int) =~= out@);
    assert(exp_index(t, 0) == k);
    assert(is_number_text(t.take(k as int)));
    assert(exponent_ok(t.skip(k + 1)));
    assert(e == exp_value(t.skip(k + 1)));
    assert(out@ =~= shifted(mm, e as int));
    assert(r@ =~= decimal_form(t));
    r
}

/// Whether two numbers are equal: the same text, or equal by value as
/// decimal number texts once written without an exponent.
pub fn number_is_equal(lhs: &JsonNumber, rhs: &JsonNumber) -> (r: bool)
    ensures
        r == (lhs@ == rhs@ || (is_number_text(decimal_form(lhs@)) && is_number_text(decimal_form(rhs@))
            && number_eq(decimal_form(lhs@), decimal_form(rhs@)))),
{
    if crate::text::text_eq(lhs.as_str(), rhs.as_str()) {
        return true;
    }
    let a = decimal_form_of(lhs.as_str());
    let b = decimal_form_of(rhs.as_str());
    if check_number_text(a.as_str()) && check_number_text(b.as_str()) {
        compare_numbers(a.as_str(), b.as_str()) == 0
    } else {
        false
    }
}

/// Whether `lhs` is smaller than `rhs` by value, both written without an
/// exponent; `false` where either is not a decimal number text then.
pub fn number_less_than(lhs: &JsonNumber, rhs: &JsonNumber) -> (r: bool)
    ensures
        r == (is_number_text(decimal_form(lhs@)) && is_number_text(decimal_form(rhs@)) && number_lt(
            decimal_form(lhs@),
            decimal_form(rhs@),
        )),
{
    let a = decimal_form_of(lhs.as_str());
    let b = decimal_form_of(rhs.as_str());
    if check_number_text(a.as_str()) && check_number_text(b.as_str()) {
        compare_numbers(a.as_str(), b.as_str()) == -1
    } else {
        false
    }
}

// ------------------------------------------------------------------ display

/// The index just past the zeros of `d` that start at `i`.
pub open spec fn zeros_end(d: Seq<char>, i: int) -> int
    decreases d.len() - i,
{
    if 0 <= i < d.len() && d[i] == '0' {
        zeros_end(d, i + 1)
    } else {
        i
    }
}

/// The index where the zeros of `d` that end just before `j` start.
pub open spec fn zeros_start(d: Seq<char>, j: int) -> int
    decreases j,
{
    if 0 < j <= d.len() && d[j - 1] == '0' {
        zeros_start(d, j - 1)
    } else {
        j
    }
}

/// A decimal number text written the shortest way: the sign kept, no zeros
/// before the first digit of the integer part (a single `0` where none is
/// left), no zeros after the last digit of the fraction, and no dot where no
/// fraction digit is left.
pub open spec fn shortest_decimal(t: Seq<char>) -> Seq<char> {
    let i = int_part(t);
    let f = frac_part(t);
    let whole = i.skip(zeros_end(i, 0));
    let frac = f.take(zeros_start(f, f.len() as int));
    (if is_negative(t) {
        seq!['-']
    } else {
        Seq::empty()
    }) + (if whole.len() == 0 {
        seq!['0']
    } else {
        whole
    }) + (if frac.len() == 0 {
        Seq::empty()
    } else {
        seq!['.'] + frac
    })
}

/// How a number is displayed: the shortest decimal text of its value, with
/// no exponent; a text that is no number stays as it is.
#[verifier::opaque]
pub open spec fn number_display(t: Seq<char>) -> Seq<char> {
    if is_number_text(decimal_form(t)) {
        shortest_decimal(decimal_form(t))
    } else {
        t
    }
}

/// The text of a number as it is displayed (see `number_display`).
pub fn number_display_of(s: &str) -> (r: String)
    ensures
        r@ == number_display(s@),
{
    reveal(number_display);
    let d = decimal_form_of(s);
    if !check_number_text(d.as_str()) {
        return crate::text::string_of(s);
    }
    let t = crate::text::chars_of(d.as_str());
    let p = parts_of(&t);
    let ghost ip = int_part(t@);
    let ghost fp = frac_part(t@);
    let mut a = p.int_start;
    while a < p.int_end && t[a] == '0'
        invariant
            p.int_start <= a <= p.int_end <= t@.len(),
            t@.subrange(p.int_start as int, p.int_end as int) == ip,
            zeros_end(ip, a - p.int_start) == zeros_end(ip, 0),
        decreases p.int_end - a,
    {
        assert(ip[a - p.int_start] == t@[a as int]);
        a = a + 1;
    }
    proof {
        if a < p.int_end {
            assert(ip[a - p.int_start] == t@[a as int]);
        }
        assert(zeros_end(ip, a - p.int_start) == a - p.int_start);
    }
    let mut b = t.len();
    while b > p.frac_start && t[b - 1] == '0'
        invariant
            p.frac_start <= b <= t@.len(),
            t@.subrange(p.frac_start as int, t@.len() as int) == fp,
            zeros_start(fp, b - p.frac_start) == zeros_start(fp, fp.len() as int),
        decreases b,
    {
        assert(fp[b - 1 - p.frac_start] == t@[b - 1]);
        b = b - 1;
    }
    proof {
        if b > p.frac_start {
            assert(fp[b - 1 - p.frac_start] == t@[b - 1]);
        }
        assert(zeros_start(fp, b - p.frac_start) == b - p.frac_start);
    }
    let ghost whole = ip.skip(zeros_end(ip, 0));
    let ghost frac = fp.take(zeros_start(fp, fp.len() as int));
    assert(whole =~= t@.subrange(a as int, p.int_end as int));
    assert(frac =~= t@.subrange(p.frac_start as int, b as int));
    let mut r = String::new();
    if p.neg {
        r.push('-');
    }
    let ghost sign = r@;
    if a == p.int_end {
        r.push('0');
    } else {
        crate::text::push_text(&mut r, crate::text::string_from_chars(&t, a, p.int_end).as_str());
    }
    if b > p.frac_start {
        r.push('.');
        crate::text::push_text(&mut r, crate::text::string_from_chars(&t, p.frac_start, b).as_str());
    }
    proof {
        if p.neg {
            assert(sign =~= seq!['-']);
        } else {
            assert(sign =~= Seq::<char>::empty());
        }
    }
    assert(r@ =~= shortest_decimal(t@));
    r
}

} // verus!
