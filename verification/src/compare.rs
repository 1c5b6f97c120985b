//! Comparing an output with the expected value: strings, arrays and objects
//! as the options say, numbers by a comparison the caller hands in.
use vstd::prelude::*;

use crate::json::{find_member, json_eq, key_index, lemma_key_index, obj_view, Json, JsonNumber};
use crate::regression::{join_words, normalize_whitespace, words_from};
use crate::text::text_eq;

verus! {

/// How outputs are compared with the expected values.
#[derive(Clone, Copy, Debug, PartialEq, Eq, Structural)]
pub struct MatchOptions {
    /// Count entries where both the baseline and the policies fail.
    pub include_baseline_failures: bool,
    /// Compare strings with runs of white space collapsed.
    pub ignore_whitespace: bool,
    /// Compare arrays without regard to order.
    pub ignore_array_order: bool,
}

/// Whether a call of `same` on `a` and `b` answers `true`.
pub open spec fn numbers_agree<F: Fn(&JsonNumber, &JsonNumber) -> bool>(same: F, a: JsonNumber, b: JsonNumber) -> bool {
    same.ensures((&a, &b), true)
}

/// Whether `same` gives one answer for each pair of numbers.
pub open spec fn answers_once<F: Fn(&JsonNumber, &JsonNumber) -> bool>(same: F) -> bool {
    forall|a: &JsonNumber, b: &JsonNumber, r: bool| #[trigger] same.ensures((a, b), r) ==> r == same.ensures((a, b), true)
}

/// Whether `actual` matches `expected`: numbers as `same` says, strings
/// exactly or with white space collapsed, arrays element by element (in any
/// order, each element of `expected` used once, when the options say so),
/// objects member by member, and `null` and booleans by equality.
pub open spec fn values_agree<F: Fn(&JsonNumber, &JsonNumber) -> bool>(same: F, actual: Json, expected: Json, o: MatchOptions) -> bool
    decreases actual, 0int, 0int,
{
    match actual {
        Json::Number(a) => match expected {
            Json::Number(b) => numbers_agree(same, a, b),
            _ => false,
        },
        Json::String(a) => match expected {
            Json::String(b) => if o.ignore_whitespace {
                join_words(words_from(a@, 0)) == join_words(words_from(b@, 0))
            } else {
                a@ == b@
            },
            _ => false,
        },
        Json::Array(a) => match expected {
            Json::Array(b) => a@.len() == b@.len() && if o.ignore_array_order {
                assignable(same, a@, b@, o, 0, Seq::new(b@.len(), |j: int| false))
            } else {
                pairs_agree(same, a@, b@, o, a@.len() as int)
            },
            _ => false,
        },
        Json::Object(a) => match expected {
            Json::Object(b) => a@.len() == b@.len() && members_agree(same, a@, b@, o, a@.len() as int),
            _ => false,
        },
        Json::Null => expected is Null,
        Json::Bool(x) => expected matches Json::Bool(y) && x == y,
    }
}

/// Whether the first `n` elements of `a` match those of `b` at the same places.
pub open spec fn pairs_agree<F: Fn(&JsonNumber, &JsonNumber) -> bool>(
    same: F,
    a: Seq<Json>,
    b: Seq<Json>,
    o: MatchOptions,
    n: int,
) -> bool
    decreases a, n, 0int,
{
    if 0 < n <= a.len() && n <= b.len() {
        pairs_agree(same, a, b, o, n - 1) && values_agree(same, a[n - 1], b[n - 1], o)
    } else {
        true
    }
}

/// Whether each of the first `n` members of `a` has a member of the same
/// name in `b` (the first such) that it matches.
pub open spec fn members_agree<F: Fn(&JsonNumber, &JsonNumber) -> bool>(
    same: F,
    a: Seq<(String, Json)>,
    b: Seq<(String, Json)>,
    o: MatchOptions,
    n: int,
) -> bool
    decreases a, n, 0int,
{
    if 0 < n <= a.len() {
        let k = key_index(obj_view(b), a[n - 1].0@);
        members_agree(same, a, b, o, n - 1) && 0 <= k < b.len() && values_agree(same, a[n - 1].1, b[k].1, o)
    } else {
        true
    }
}

/// Whether the elements of `a` from `i` on can each be paired with its own
/// element of `b`, not among those `used`, that it matches: with `i` at 0
/// and nothing used, whether some reordering of `a` matches `b` place by place.
pub open spec fn assignable<F: Fn(&JsonNumber, &JsonNumber) -> bool>(
    same: F,
    a: Seq<Json>,
    b: Seq<Json>,
    o: MatchOptions,
    i: int,
    used: Seq<bool>,
) -> bool
    decreases a, a.len() - i, b.len() + 2,
{
    if 0 <= i < a.len() {
        some_partner(same, a, b, o, i, used, 0)
    } else {
        true
    }
}

/// Whether element `i` of `a` matches some element of `b` from index `j` on,
/// not among those `used`, such that the elements after `i` can then be
/// paired with the rest.
pub open spec fn some_partner<F: Fn(&JsonNumber, &JsonNumber) -> bool>(
    same: F,
    a: Seq<Json>,
    b: Seq<Json>,
    o: MatchOptions,
    i: int,
    used: Seq<bool>,
    j: int,
) -> bool
    decreases a, a.len() - i, b.len() - j + 1,
{
    if 0 <= i < a.len() && 0 <= j < b.len() && j < used.len() {
        (!used[j] && values_agree(same, a[i], b[j], o) && assignable(same, a, b, o, i + 1, used.update(j, true)))
            || some_partner(same, a, b, o, i, used, j + 1)
    } else {
        false
    }
}

proof fn lemma_pairs_prefix<F: Fn(&JsonNumber, &JsonNumber) -> bool>(
    same: F,
    a: Seq<Json>,
    b: Seq<Json>,
    o: MatchOptions,
    m: int,
    n: int,
)
    requires
        0 <= m <= n <= a.len(),
        n <= b.len(),
        pairs_agree(same, a, b, o, n),
    ensures
        pairs_agree(same, a, b, o, m),
    decreases n - m,
{
    if m < n {
        lemma_pairs_prefix(same, a, b, o, m, n - 1);
    }
}

proof fn lemma_members_prefix<F: Fn(&JsonNumber, &JsonNumber) -> bool>(
    same: F,
    a: Seq<(String, Json)>,
    b: Seq<(String, Json)>,
    o: MatchOptions,
    m: int,
    n: int,
)
    requires
        0 <= m <= n <= a.len(),
        members_agree(same, a, b, o, n),
    ensures
        members_agree(same, a, b, o, m),
    decreases n - m,
{
    if m < n {
        lemma_members_prefix(same, a, b, o, m, n - 1);
    }
}

/// Whether `actual` matches `expected`: numbers as `same` says, strings
/// exactly or with white space collapsed, arrays element by element or (as
/// the options say) each element finding the first unused element of
/// `expected` it matches, objects member by member, and `null` and booleans
/// by equality.
pub fn values_match_with<F: Fn(&JsonNumber, &JsonNumber) -> bool>(
    actual: &Json,
    expected: &Json,
    options: MatchOptions,
    same: &F,
) -> (r: bool)
    requires
        forall|a: &JsonNumber, b: &JsonNumber| same.requires((a, b)),
        answers_once(*same),
    ensures
        r == values_agree(*same, *actual, *expected, options),
    decreases actual, 0int,
{
    match actual {
        Json::Number(a) => match expected {
            Json::Number(b) => {
                let r = same(a, b);
                assert(same.ensures((a, b), r));
                r
            },
            _ => false,
        },
        Json::String(a) => match expected {
            Json::String(b) => {
                if options.ignore_whitespace {
                    let x = normalize_whitespace(a.as_str());
                    let y = normalize_whitespace(b.as_str());
                    text_eq(x.as_str(), y.as_str())
                } else {
                    text_eq(a.as_str(), b.as_str())
                }
            },
            _ => false,
        },
        Json::Array(a) => match expected {
            Json::Array(b) => {
                if a.len() != b.len() {
                    return false;
                }
                proof {
                    assert forall|j: int| 0 <= j < a@.len() implies decreases_to!(*actual => #[trigger] a@[j]) by {
                        assert(decreases_to!(actual => a));
                        assert(decreases_to!(a => a@));
                        assert(decreases_to!(a@ => a@[j]));
                    }
                }
                if options.ignore_array_order {
                    let mut used: Vec<bool> = Vec::new();
                    let mut k: usize = 0;
                    while k < b.len()
                        invariant
                            0 <= k <= b@.len(),
                            used@.len() == k,
                            forall|j: int| 0 <= j < k ==> used@[j] == false,
                        decreases b@.len() - k,
                    {
                        used.push(false);
                        k = k + 1;
                    }
                    assert(used@ =~= Seq::new(b@.len(), |j: int| false));
                    assert(decreases_to!(actual => a));
                    assert(decreases_to!(a => a@));
                    assign_from(a, b, options, same, 0, &used)
                } else {
                    let mut i: usize = 0;
                    while i < a.len()
                        invariant
                            0 <= i <= a@.len(),
                            a@.len() == b@.len(),
                            pairs_agree(*same, a@, b@, options, i as int),
                            *actual == Json::Array(*a),
                            *expected == Json::Array(*b),
                            !options.ignore_array_order,
                            forall|j: int| 0 <= j < a@.len() ==> decreases_to!(*actual => #[trigger] a@[j]),
                            forall|x: &JsonNumber, y: &JsonNumber| same.requires((x, y)),
                            answers_once(*same),
                        decreases a@.len() - i,
                    {
                        let m = values_match_with(&a[i], &b[i], options, same);
                        if !m {
                            proof {
                                if pairs_agree(*same, a@, b@, options, a@.len() as int) {
                                    lemma_pairs_prefix(*same, a@, b@, options, i + 1, a@.len() as int);
                                }
                            }
                            return false;
                        }
                        i = i + 1;
                    }
                    true
                }
            },
            _ => false,
        },
        Json::Object(a) => match expected {
            Json::Object(b) => {
                if a.len() != b.len() {
                    return false;
                }
                proof {
                    assert forall|j: int| 0 <= j < a@.len() implies decreases_to!(*actual => #[trigger] a@[j].1) by {
                        assert(decreases_to!(actual => a));
                        assert(decreases_to!(a => a@));
                        assert(decreases_to!(a@ => a@[j]));
                        assert(decreases_to!(a@[j] => a@[j].1));
                    }
                }
                let mut i: usize = 0;
                while i < a.len()
                    invariant
                        0 <= i <= a@.len(),
                        members_agree(*same, a@, b@, options, i as int),
                        a@.len() == b@.len(),
                        *actual == Json::Object(*a),
                        *expected == Json::Object(*b),
                        forall|j: int| 0 <= j < a@.len() ==> decreases_to!(*actual => #[trigger] a@[j].1),
                        forall|x: &JsonNumber, y: &JsonNumber| same.requires((x, y)),
                        answers_once(*same),
                    decreases a@.len() - i,
                {
                    proof {
                        lemma_key_index(obj_view(b@), a@[i as int].0@);
                    }
                    let found = find_member(b, a[i].0.as_str());
                    let ok = match found {
                        Some(k) => values_match_with(&a[i].1, &b[k].1, options, same),
                        None => false,
                    };
                    if !ok {
                        proof {
                            if members_agree(*same, a@, b@, options, a@.len() as int) {
                                lemma_members_prefix(*same, a@, b@, options, i + 1, a@.len() as int);
                            }
                        }
                        return false;
                    }
                    i = i + 1;
                }
                true
            },
            _ => false,
        },
        Json::Null => match expected {
            Json::Null => true,
            _ => false,
        },
        Json::Bool(x) => match expected {
            Json::Bool(y) => *x == *y,
            _ => false,
        },
    }
}

/// Whether the policies' output regressed against the baseline: the
/// baseline matches the expected value and the output does not, or, where
/// the options count baseline failures, neither does.  Without an expected
/// value or a baseline there is no regression.
pub open spec fn regressed<F: Fn(&JsonNumber, &JsonNumber) -> bool>(
    same: F,
    output: Json,
    expected: Option<Json>,
    baseline: Option<Json>,
    o: MatchOptions,
) -> bool {
    match (expected, baseline) {
        (Some(e), Some(b)) => {
            let policies_pass = values_agree(same, output, e, o);
            let baseline_passes = values_agree(same, b, e, o);
            (baseline_passes && !policies_pass) || (o.include_baseline_failures && !baseline_passes && !policies_pass)
        },
        _ => false,
    }
}

/// Whether the policies' output regressed against the baseline (see
/// `regressed`).
pub fn is_regression<F: Fn(&JsonNumber, &JsonNumber) -> bool>(
    output: &Json,
    expected: Option<&Json>,
    baseline: Option<&Json>,
    options: MatchOptions,
    same: &F,
) -> (r: bool)
    requires
        forall|a: &JsonNumber, b: &JsonNumber| same.requires((a, b)),
        answers_once(*same),
    ensures
        r == regressed(
            *same,
            *output,
            match expected {
                Some(e) => Some(*e),
                None => None,
            },
            match baseline {
                Some(b) => Some(*b),
                None => None,
            },
            options,
        ),
{
    match (expected, baseline) {
        (Some(e), Some(b)) => {
            let policies_pass = values_match_with(output, e, options, same);
            let baseline_passes = values_match_with(b, e, options, same);
            (baseline_passes && !policies_pass) || (options.include_baseline_failures && !baseline_passes
                && !policies_pass)
        },
        _ => false,
    }
}

// ------------------------------------------------------------------ field counts

/// Whether an output value matches the expected one: equal, or both numbers
/// that `same` (given the expected number first) says agree.
pub open spec fn field_value_agrees<F: Fn(&JsonNumber, &JsonNumber) -> bool>(same: F, expected: Json, actual: Json) -> bool {
    expected@ == actual@ || (expected matches Json::Number(e) && actual matches Json::Number(a) && numbers_agree(same, e, a))
}

/// Whether an output value matches the expected one (see `field_value_agrees`).
pub fn values_match<F: Fn(&JsonNumber, &JsonNumber) -> bool>(expected: &Json, actual: &Json, same: &F) -> (r: bool)
    requires
        forall|a: &JsonNumber, b: &JsonNumber| same.requires((a, b)),
        answers_once(*same),
    ensures
        r == field_value_agrees(*same, *expected, *actual),
{
    if json_eq(expected, actual) {
        true
    } else {
        match (expected, actual) {
            (Json::Number(e), Json::Number(a)) => {
                let r = same(e, a);
                assert(same.ensures((e, a), r));
                r
            },
            _ => false,
        }
    }
}

/// The value of member `k` of an output, where the output is an object that has one.
pub open spec fn output_member(actual: Json, k: Seq<char>) -> Option<Json> {
    match actual {
        Json::Object(m) => {
            let i = key_index(obj_view(m@), k);
            if 0 <= i < m@.len() {
                Some(m@[i].1)
            } else {
                None
            }
        },
        _ => None,
    }
}

/// Matched, wrong and missing fields among the first `n` expected members:
/// a field is matched where the output has it with an agreeing value, wrong
/// where the output has it with another value, missing where it has none.
pub open spec fn expected_counts<F: Fn(&JsonNumber, &JsonNumber) -> bool>(
    same: F,
    expected: Seq<(String, Json)>,
    actual: Json,
    n: int,
) -> (nat, nat, nat)
    decreases n,
{
    if 0 < n <= expected.len() {
        let (m, w, g) = expected_counts(same, expected, actual, n - 1);
        match output_member(actual, expected[n - 1].0@) {
            Some(v) => if field_value_agrees(same, expected[n - 1].1, v) {
                (m + 1, w, g)
            } else {
                (m, w + 1, g)
            },
            None => (m, w, g + 1),
        }
    } else {
        (0, 0, 0)
    }
}

/// The number of the first `n` members of an output that are neither
/// expected nor `__rule_numbers__`.
pub open spec fn extra_count(expected: Seq<(String, Json)>, out: Seq<(String, Json)>, n: int) -> nat
    decreases n,
{
    if 0 < n <= out.len() {
        let k = out[n - 1].0@;
        extra_count(expected, out, n - 1) + if k != "__rule_numbers__"@ && key_index(obj_view(expected), k) < 0 {
            1nat
        } else {
            0nat
        }
    } else {
        0
    }
}

/// The field counts of an output against the expected members: matched,
/// wrong value, missing, and extra (members of an object output that are
/// not expected, `__rule_numbers__` aside).
pub open spec fn field_counts<F: Fn(&JsonNumber, &JsonNumber) -> bool>(
    same: F,
    expected: Seq<(String, Json)>,
    actual: Json,
) -> (nat, nat, nat, nat) {
    let (m, w, g) = expected_counts(same, expected, actual, expected.len() as int);
    let x = match actual {
        Json::Object(out) => extra_count(expected, out@, out@.len() as int),
        _ => 0,
    };
    (m, w, g, x)
}

proof fn lemma_expected_counts_bound<F: Fn(&JsonNumber, &JsonNumber) -> bool>(
    same: F,
    expected: Seq<(String, Json)>,
    actual: Json,
    n: int,
)
    requires
        0 <= n <= expected.len(),
    ensures
        ({
            let (m, w, g) = expected_counts(same, expected, actual, n);
            m + w + g == n
        }),
    decreases n,
{
    if n > 0 {
        lemma_expected_counts_bound(same, expected, actual, n - 1);
    }
}

proof fn lemma_extra_count_bound(expected: Seq<(String, Json)>, out: Seq<(String, Json)>, n: int)
    requires
        0 <= n <= out.len(),
    ensures
        extra_count(expected, out, n) <= n,
    decreases n,
{
    if n > 0 {
        lemma_extra_count_bound(expected, out, n - 1);
    }
}

/// Counts the fields of an output against the expected members (see
/// `field_counts`); numbers that differ are handed to `same`, the expected
/// number first.
pub fn calculate_field_metrics<F: Fn(&JsonNumber, &JsonNumber) -> bool>(
    expected: &Vec<(String, Json)>,
    actual: &Json,
    same: &F,
) -> (r: (usize, usize, usize, usize))
    requires
        forall|a: &JsonNumber, b: &JsonNumber| same.requires((a, b)),
        answers_once(*same),
    ensures
        ({
            let (m, w, g, x) = field_counts(*same, expected@, *actual);
            r.0 == m && r.1 == w && r.2 == g && r.3 == x
        }),
{
    let mut matched: usize = 0;
    let mut wrong_value: usize = 0;
    let mut missing: usize = 0;
    let mut i: usize = 0;
    while i < expected.len()
        invariant
            0 <= i <= expected@.len(),
            ({
                let (m, w, g) = expected_counts(*same, expected@, *actual, i as int);
                matched == m && wrong_value == w && missing == g
            }),
            forall|a: &JsonNumber, b: &JsonNumber| same.requires((a, b)),
            answers_once(*same),
        decreases expected@.len() - i,
    {
        proof {
            lemma_expected_counts_bound(*same, expected@, *actual, i as int);
        }
        let key = expected[i].0.as_str();
        let value = &expected[i].1;
        let found: Option<&Json> = match actual {
            Json::Object(m) => {
                proof {
                    lemma_key_index(obj_view(m@), key@);
                }
                match find_member(m, key) {
                    Some(k) => Some(&m[k].1),
                    None => None,
                }
            },
            _ => None,
        };
        match found {
            Some(v) => {
                let agrees = values_match(value, v, same);
                if agrees {
                    matched = matched + 1;
                } else {
                    wrong_value = wrong_value + 1;
                }
            },
            None => {
                missing = missing + 1;
            },
        }
        i = i + 1;
    }
    let mut extra: usize = 0;
    match actual {
        Json::Object(out) => {
            let mut j: usize = 0;
            while j < out.len()
                invariant
                    0 <= j <= out@.len(),
                    extra == extra_count(expected@, out@, j as int),
                decreases out@.len() - j,
            {
                proof {
                    lemma_extra_count_bound(expected@, out@, j as int);
                    lemma_key_index(obj_view(expected@), out@[j as int].0@);
                }
                let key = out[j].0.as_str();
                if !text_eq(key, "__rule_numbers__") && find_member(expected, key).is_none() {
                    extra = extra + 1;
                }
                j = j + 1;
            }
        },
        _ => {},
    }
    (matched, wrong_value, missing, extra)
}

/// `used` with element `j` marked.
fn mark_used(used: &Vec<bool>, j: usize) -> (r: Vec<bool>)
    requires
        j < used@.len(),
    ensures
        r@ == used@.update(j as int, true),
{
    let mut r: Vec<bool> = Vec::new();
    let mut k: usize = 0;
    while k < used.len()
        invariant
            0 <= k <= used@.len(),
            j < used@.len(),
            r@ =~= used@.update(j as int, true).take(k as int),
        decreases used@.len() - k,
    {
        if k == j {
            r.push(true);
        } else {
            r.push(used[k]);
        }
        k = k + 1;
    }
    r
}

/// Pairs the elements of `a` from `i` on with elements of `b` not `used`,
/// trying each candidate in turn and going back where the rest cannot be
/// paired (see `assignable`).
fn assign_from<F: Fn(&JsonNumber, &JsonNumber) -> bool>(
    a: &Vec<Json>,
    b: &Vec<Json>,
    options: MatchOptions,
    same: &F,
    i: usize,
    used: &Vec<bool>,
) -> (r: bool)
    requires
        i <= a@.len(),
        used@.len() == b@.len(),
        forall|x: &JsonNumber, y: &JsonNumber| same.requires((x, y)),
        answers_once(*same),
    ensures
        r == assignable(*same, a@, b@, options, i as int, used@),
    decreases a@, a@.len() - i,
{
    if i >= a.len() {
        return true;
    }
    proof {
        assert(decreases_to!(a@ => a@[i as int]));
    }
    let after = i + 1;
    let mut j: usize = 0;
    while j < b.len()
        invariant
            i < a@.len(),
            after == i + 1,
            0 <= j <= b@.len(),
            used@.len() == b@.len(),
            some_partner(*same, a@, b@, options, i as int, used@, 0) == some_partner(*same, a@, b@, options, i as int, used@, j as int),
            decreases_to!(a@ => a@[i as int]),
            forall|x: &JsonNumber, y: &JsonNumber| same.requires((x, y)),
            answers_once(*same),
        decreases b@.len() - j,
    {
        if !used[j] {
            let m = values_match_with(&a[i], &b[j], options, same);
            if m {
                let next = mark_used(used, j);
                if assign_from(a, b, options, same, after, &next) {
                    return true;
                }
            }
        }
        j = j + 1;
    }
    false
}

// ------------------------------------------------------------------ reorderings

/// Whether `p` pairs each element `i` of `a` from `i0` on with its own
/// element `p[i]` of `b`, not among those `used`, that it matches.
pub open spec fn pairs_by<F: Fn(&JsonNumber, &JsonNumber) -> bool>(
    same: F,
    a: Seq<Json>,
    b: Seq<Json>,
    o: MatchOptions,
    i0: int,
    used: Seq<bool>,
    p: Seq<int>,
) -> bool {
    &&& p.len() == a.len()
    &&& forall|i: int| i0 <= i < a.len() ==> 0 <= #[trigger] p[i] < b.len() && p[i] < used.len() && !used[p[i]]
        && values_agree(same, a[i], b[p[i]], o)
    &&& forall|i: int, j: int| i0 <= i < j < a.len() ==> #[trigger] p[i] != #[trigger] p[j]
}

/// Whether `p` reorders `a` to match `b`: element `i` of `a` matches element
/// `p[i]` of `b`, and no element of `b` is used twice.
pub open spec fn reorders_to_match<F: Fn(&JsonNumber, &JsonNumber) -> bool>(
    same: F,
    a: Seq<Json>,
    b: Seq<Json>,
    o: MatchOptions,
    p: Seq<int>,
) -> bool {
    &&& p.len() == a.len()
    &&& forall|i: int| 0 <= i < a.len() ==> 0 <= #[trigger] p[i] < b.len() && values_agree(same, a[i], b[p[i]], o)
    &&& forall|i: int, j: int| 0 <= i < j < a.len() ==> #[trigger] p[i] != #[trigger] p[j]
}

proof fn lemma_partner_witness<F: Fn(&JsonNumber, &JsonNumber) -> bool>(
    same: F,
    a: Seq<Json>,
    b: Seq<Json>,
    o: MatchOptions,
    i: int,
    used: Seq<bool>,
    j0: int,
) -> (j: int)
    requires
        some_partner(same, a, b, o, i, used, j0),
    ensures
        j0 <= j < b.len(),
        0 <= i < a.len(),
        0 <= j < used.len(),
        !used[j],
        values_agree(same, a[i], b[j], o),
        assignable(same, a, b, o, i + 1, used.update(j, true)),
    decreases b.len() - j0,
{
    if !used[j0] && values_agree(same, a[i], b[j0], o) && assignable(same, a, b, o, i + 1, used.update(j0, true)) {
        j0
    } else {
        lemma_partner_witness(same, a, b, o, i, used, j0 + 1)
    }
}

proof fn lemma_partner_from<F: Fn(&JsonNumber, &JsonNumber) -> bool>(
    same: F,
    a: Seq<Json>,
    b: Seq<Json>,
    o: MatchOptions,
    i: int,
    used: Seq<bool>,
    j0: int,
    j: int,
)
    requires
        0 <= i < a.len(),
        0 <= j0 <= j < b.len(),
        j < used.len(),
        !used[j],
        values_agree(same, a[i], b[j], o),
        assignable(same, a, b, o, i + 1, used.update(j, true)),
    ensures
        some_partner(same, a, b, o, i, used, j0),
    decreases j - j0,
{
    if j0 < j {
        lemma_partner_from(same, a, b, o, i, used, j0 + 1, j);
    }
}

proof fn lemma_assignable_iff<F: Fn(&JsonNumber, &JsonNumber) -> bool>(
    same: F,
    a: Seq<Json>,
    b: Seq<Json>,
    o: MatchOptions,
    i0: int,
    used: Seq<bool>,
)
    requires
        0 <= i0 <= a.len(),
        used.len() == b.len(),
    ensures
        assignable(same, a, b, o, i0, used) <==> exists|p: Seq<int>| #[trigger] pairs_by(same, a, b, o, i0, used, p),
    decreases a.len() - i0,
{
    if i0 == a.len() {
        let p = Seq::new(a.len(), |i: int| 0int);
        assert(pairs_by(same, a, b, o, i0, used, p));
    } else {
        if assignable(same, a, b, o, i0, used) {
            let j = lemma_partner_witness(same, a, b, o, i0, used, 0);
            let u2 = used.update(j, true);
            lemma_assignable_iff(same, a, b, o, i0 + 1, u2);
            let q = choose|q: Seq<int>| #[trigger] pairs_by(same, a, b, o, i0 + 1, u2, q);
            let p = q.update(i0, j);
            assert forall|i: int| i0 <= i < a.len() implies 0 <= #[trigger] p[i] < b.len() && p[i] < used.len()
                && !used[p[i]] && values_agree(same, a[i], b[p[i]], o) by {
                if i > i0 {
                    assert(p[i] == q[i]);
                    assert(!u2[q[i]]);
                }
            }
            assert forall|i: int, k: int| i0 <= i < k < a.len() implies #[trigger] p[i] != #[trigger] p[k] by {
                if i > i0 {
                    assert(p[i] == q[i] && p[k] == q[k]);
                } else {
                    assert(p[k] == q[k]);
                    assert(!u2[q[k]]);
                }
            }
            assert(pairs_by(same, a, b, o, i0, used, p));
        }
        if exists|p: Seq<int>| #[trigger] pairs_by(same, a, b, o, i0, used, p) {
            let p = choose|p: Seq<int>| #[trigger] pairs_by(same, a, b, o, i0, used, p);
            let j = p[i0];
            let u2 = used.update(j, true);
            assert forall|i: int| i0 + 1 <= i < a.len() implies 0 <= #[trigger] p[i] < b.len() && p[i] < u2.len()
                && !u2[p[i]] && values_agree(same, a[i], b[p[i]], o) by {
                assert(p[i0] != p[i]);
            }
            assert(pairs_by(same, a, b, o, i0 + 1, u2, p));
            lemma_assignable_iff(same, a, b, o, i0 + 1, u2);
            lemma_partner_from(same, a, b, o, i0, used, 0, j);
        }
    }
}

/// Comparing arrays without regard to order asks for some reordering of the
/// output array that matches the expected array place by place: element `i`
/// of the output matches element `p[i]` of the expected array, with no
/// element of the expected array used twice.
pub proof fn law_unordered_is_some_reordering<F: Fn(&JsonNumber, &JsonNumber) -> bool>(
    same: F,
    a: Vec<Json>,
    b: Vec<Json>,
    o: MatchOptions,
)
    requires
        o.ignore_array_order,
    ensures
        values_agree(same, Json::Array(a), Json::Array(b), o) <==> (a@.len() == b@.len() && exists|p: Seq<int>|
            #[trigger] reorders_to_match(same, a@, b@, o, p)),
{
    let used = Seq::new(b@.len(), |j: int| false);
    lemma_assignable_iff(same, a@, b@, o, 0, used);
    if exists|p: Seq<int>| #[trigger] pairs_by(same, a@, b@, o, 0, used, p) {
        let p = choose|p: Seq<int>| #[trigger] pairs_by(same, a@, b@, o, 0, used, p);
        assert(reorders_to_match(same, a@, b@, o, p));
    }
    if a@.len() == b@.len() && exists|p: Seq<int>| #[trigger] reorders_to_match(same, a@, b@, o, p) {
        let p = choose|p: Seq<int>| #[trigger] reorders_to_match(same, a@, b@, o, p);
        assert(pairs_by(same, a@, b@, o, 0, used, p));
    }
}

} // verus!
