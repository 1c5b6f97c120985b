//! The result of applying policies: values, defaults, conflicts, errors and statistics.
use vstd::prelude::*;

use crate::errors::{conflicts_view, errors_view, Conflict, ConflictV, PolicyError, PolicyErrorV};
use crate::json::{json_get, json_pretty, json_pretty_text, key_index, lemma_key_index, lemma_obj_set_get, obj_get, obj_set, obj_view, Json, JsonNumber, JsonV};
use crate::number::{decimal_form, is_number_text, number_eq, number_lt};
use crate::on_conflict::OnConflict;
use crate::text::{decimal, push_decimal, push_text, string_of, text_eq};

verus! {

// ------------------------------------------------------------ field statistics

/// The mathematical value of the statistics of one field.
pub struct FieldStatsV {
    pub count: nat,
    pub distribution: Seq<(Seq<char>, nat)>,
}

/// The sum of the counts of a histogram.
pub open spec fn total(d: Seq<(Seq<char>, nat)>) -> nat
    decreases d.len(),
{
    if d.len() == 0 {
        0
    } else {
        total(d.drop_last()) + d.last().1
    }
}

/// Whether no key occurs twice.
pub open spec fn distinct_keys<V>(d: Seq<(Seq<char>, V)>) -> bool {
    forall|i: int, j: int| 0 <= i < j < d.len() ==> (#[trigger] d[i]).0 != (#[trigger] d[j]).0
}

/// A histogram with one more occurrence of `k`.
pub open spec fn dist_add(d: Seq<(Seq<char>, nat)>, k: Seq<char>) -> Seq<(Seq<char>, nat)> {
    let i = key_index(d, k);
    if i >= 0 {
        d.update(i, (k, d[i].1 + 1))
    } else {
        d.push((k, 1nat))
    }
}

/// The count of `k` in a histogram.
pub open spec fn dist_get(d: Seq<(Seq<char>, nat)>, k: Seq<char>) -> nat {
    let i = key_index(d, k);
    if i >= 0 {
        d[i].1
    } else {
        0
    }
}

/// Statistics well formed: distinct keys, and the count is the total of the histogram.
pub open spec fn stats_wf(s: FieldStatsV) -> bool {
    distinct_keys(s.distribution) && s.count == total(s.distribution)
}

/// The statistics after recording one more value under key `k`.
pub open spec fn stats_add(s: FieldStatsV, k: Seq<char>) -> FieldStatsV {
    FieldStatsV { count: s.count + 1, distribution: dist_add(s.distribution, k) }
}

/// The histogram key of a value: its text for scalars, `[n]` or `{n}` for
/// arrays and objects of `n` elements.
pub open spec fn stats_key(v: JsonV) -> Seq<char> {
    match v {
        JsonV::Null => "null"@,
        JsonV::Bool(b) => if b {
            "true"@
        } else {
            "false"@
        },
        JsonV::Number(n) => n,
        JsonV::String(s) => s,
        JsonV::Array(a) => "["@ + decimal(a.len()) + "]"@,
        JsonV::Object(o) => "{"@ + decimal(o.len()) + "}"@,
    }
}

proof fn lemma_total_update(d: Seq<(Seq<char>, nat)>, i: int, x: (Seq<char>, nat))
    requires
        0 <= i < d.len(),
    ensures
        total(d.update(i, x)) + d[i].1 == total(d) + x.1,
    decreases d.len(),
{
    if i == d.len() - 1 {
        assert(d.update(i, x).drop_last() =~= d.drop_last());
    } else {
        lemma_total_update(d.drop_last(), i, x);
        assert(d.update(i, x).drop_last() =~= d.drop_last().update(i, x));
    }
}

proof fn lemma_total_bound(d: Seq<(Seq<char>, nat)>, i: int)
    requires
        0 <= i < d.len(),
    ensures
        d[i].1 <= total(d),
    decreases d.len(),
{
    if i < d.len() - 1 {
        lemma_total_bound(d.drop_last(), i);
    }
}

/// Recording keeps the statistics well formed and adds one to the count of its key.
pub proof fn lemma_stats_add(s: FieldStatsV, k: Seq<char>)
    requires
        stats_wf(s),
    ensures
        stats_wf(stats_add(s, k)),
        dist_get(stats_add(s, k).distribution, k) == dist_get(s.distribution, k) + 1,
        forall|o: Seq<char>| o != k ==> dist_get(stats_add(s, k).distribution, o) == dist_get(s.distribution, o),
{
    let d = s.distribution;
    let d2 = dist_add(d, k);
    lemma_key_index(d, k);
    let i = key_index(d, k);
    if i >= 0 {
        lemma_total_update(d, i, (k, d[i].1 + 1));
        assert forall|o: Seq<char>| o != k implies dist_get(d2, o) == dist_get(d, o) by {
            lemma_key_index(d, o);
            lemma_key_index(d2, o);
            let j = key_index(d, o);
            let j2 = key_index(d2, o);
            if j >= 0 {
                assert(d2[j].0 == o);
                if j2 < j {
                    assert(d[j2].0 == o);
                }
            } else {
                if j2 >= 0 {
                    assert(d[j2].0 == o);
                }
            }
        }
        lemma_key_index(d2, k);
        let i2 = key_index(d2, k);
        if i2 != i {
            assert(d2[i].0 == k);
            assert(d[i2].0 == d2[i2].0);
        }
    } else {
        assert(d2.drop_last() =~= d);
        assert forall|o: Seq<char>| o != k implies dist_get(d2, o) == dist_get(d, o) by {
            lemma_key_index(d, o);
            lemma_key_index(d2, o);
            let j = key_index(d, o);
            let j2 = key_index(d2, o);
            if j >= 0 {
                assert(d2[j].0 == o);
                if j2 < j {
                    assert(d[j2].0 == o);
                }
            } else if j2 >= 0 {
                assert(j2 < d.len());
                assert(d[j2].0 == o);
            }
        }
        lemma_key_index(d2, k);
        let i2 = key_index(d2, k);
        assert(d2[d.len() as int].0 == k);
        if i2 != d.len() {
            assert(d[i2].0 == k);
        }
    }
}

/// Statistics for a single field in a report: how many times it was set,
/// and how often each value was reported.
#[derive(Debug)]
pub struct FieldStats {
    /// The number of times this field was set.
    pub count: usize,
    /// Distribution of values as a histogram (value, count), in first-seen order.
    pub distribution: Vec<(String, usize)>,
}

impl View for FieldStats {
    type V = FieldStatsV;

    open spec fn view(&self) -> FieldStatsV {
        FieldStatsV {
            count: self.count as nat,
            distribution: Seq::new(
                self.distribution@.len(),
                |i: int| (self.distribution@[i].0@, self.distribution@[i].1 as nat),
            ),
        }
    }
}

impl Default for FieldStats {
    fn default() -> (r: FieldStats)
        ensures
            r@.count == 0,
            r@.distribution == Seq::<(Seq<char>, nat)>::empty(),
    {
        let r = FieldStats { count: 0, distribution: Vec::new() };
        assert(r@.distribution =~= Seq::<(Seq<char>, nat)>::empty());
        r
    }
}

impl FieldStats {
    /// Whether the statistics are well formed.
    pub open spec fn wf(&self) -> bool {
        stats_wf(self@)
    }

    /// The number of times `value` was recorded.
    pub fn count_of(&self, value: &str) -> (r: usize)
        ensures
            r == dist_get(self@.distribution, value@),
    {
        let ghost d = self@.distribution;
        proof {
            lemma_key_index(d, value@);
        }
        let mut i: usize = 0;
        while i < self.distribution.len()
            invariant
                0 <= i <= self.distribution@.len(),
                d == self@.distribution,
                forall|j: int| 0 <= j < i ==> (#[trigger] d[j]).0 != value@,
                -1 <= key_index(d, value@) < d.len(),
                key_index(d, value@) >= 0 ==> d[key_index(d, value@)].0 == value@,
                key_index(d, value@) >= 0 ==> forall|j: int| 0 <= j < key_index(d, value@) ==> (#[trigger] d[j]).0 != value@,
                key_index(d, value@) < 0 ==> forall|j: int| 0 <= j < d.len() ==> (#[trigger] d[j]).0 != value@,
            decreases self.distribution@.len() - i,
        {
            if text_eq(self.distribution[i].0.as_str(), value) {
                assert(d[i as int].0 == value@);
                return self.distribution[i].1;
            }
            i = i + 1;
        }
        0
    }

    /// Adds one occurrence of `key`.
    fn add(&mut self, key: String)
        requires
            old(self).wf(),
            old(self).count < usize::MAX,
        ensures
            final(self)@ == stats_add(old(self)@, key@),
            final(self).wf(),
    {
        let ghost d = self@.distribution;
        proof {
            lemma_key_index(d, key@);
            lemma_stats_add(self@, key@);
        }
        let mut i: usize = 0;
        while i < self.distribution.len()
            invariant
                0 <= i <= self.distribution@.len(),
                d == self@.distribution,
                self@ == old(self)@,
                self.count == old(self).count,
                self.count < usize::MAX,
                stats_wf(self@),
                stats_wf(stats_add(self@, key@)),
                forall|j: int| 0 <= j < i ==> (#[trigger] d[j]).0 != key@,
            decreases self.distribution@.len() - i,
        {
            if text_eq(self.distribution[i].0.as_str(), key.as_str()) {
                proof {
                    assert(d[i as int].0 == key@);
                    lemma_key_index(d, key@);
                    assert(key_index(d, key@) == i);
                    lemma_total_bound(d, i as int);
                }
                let c = self.distribution[i].1;
                self.distribution.set(i, (key, c + 1));
                self.count = self.count + 1;
                assert(self@.distribution =~= dist_add(d, key@));
                return;
            }
            i = i + 1;
        }
        proof {
            lemma_key_index(d, key@);
        }
        self.distribution.push((key, 1));
        self.count = self.count + 1;
        assert(self@.distribution =~= dist_add(d, key@));
    }

    /// Records a value being set for this field.
    pub fn record(&mut self, value: &Json)
        requires
            old(self).wf(),
            old(self).count < usize::MAX,
        ensures
            final(self)@ == stats_add(old(self)@, stats_key(value@)),
            final(self).wf(),
    {
        let key = stats_key_of(value);
        self.add(key);
    }

    /// Records an array element being added to this field.
    pub fn record_array_element(&mut self, value: &str)
        requires
            old(self).wf(),
            old(self).count < usize::MAX,
        ensures
            final(self)@ == stats_add(old(self)@, value@),
            final(self).wf(),
    {
        self.add(string_of(value));
    }
}

/// The histogram key of a value.
pub fn stats_key_of(value: &Json) -> (r: String)
    ensures
        r@ == stats_key(value@),
{
    match value {
        Json::Null => string_of("null"),
        Json::Bool(b) => if *b {
            string_of("true")
        } else {
            string_of("false")
        },
        Json::Number(n) => string_of(n.as_str()),
        Json::String(s) => string_of(s.as_str()),
        Json::Array(a) => {
            let mut r = string_of("[");
            push_decimal(&mut r, a.len());
            push_text(&mut r, "]");
            proof {
                if let JsonV::Array(av) = value@ {
                    assert(av.len() == a@.len());
                }
            }
            r
        },
        Json::Object(o) => {
            let mut r = string_of("{");
            push_decimal(&mut r, o.len());
            push_text(&mut r, "}");
            proof {
                if let JsonV::Object(ov) = value@ {
                    assert(ov.len() == o@.len());
                }
            }
            r
        },
    }
}


// ------------------------------------------------------------------ report

/// The file named in the invariant violations that a report records.
pub open spec fn report_file() -> Seq<char> {
    "src/report.rs"@
}

/// The line at which `report_bool` records an invariant violation.
pub const BOOL_VIOLATION_LINE: u32 = 867;

/// The line at which `report_number` records an invariant violation.
pub const NUMBER_VIOLATION_LINE: u32 = 898;

/// The line at which `report_string` records an invariant violation.
pub const STRING_VIOLATION_LINE: u32 = 929;

/// The line at which `report_string_enum` records an invariant violation.
pub const ENUM_VIOLATION_LINE: u32 = 960;

/// What reporting a value does to the field's current value.
pub enum OutcomeV {
    /// The current value stays.
    Keep,
    /// The field takes this value.
    Assign(JsonV),
    /// The current value stays and this conflict is recorded.
    Conflict(ConflictV),
    /// The current value stays and an invariant violation is recorded.
    Violation(Seq<char>, u32),
}

/// The executable form of an outcome.
pub enum Outcome {
    Keep,
    Assign(Json),
    Conflict(Conflict),
    Violation(&'static str, u32),
}

impl View for Outcome {
    type V = OutcomeV;

    open spec fn view(&self) -> OutcomeV {
        match self {
            Outcome::Keep => OutcomeV::Keep,
            Outcome::Assign(v) => OutcomeV::Assign(v@),
            Outcome::Conflict(c) => OutcomeV::Conflict(c@),
            Outcome::Violation(m, l) => OutcomeV::Violation(m@, *l),
        }
    }
}

/// The state after policy `idx` is recorded as matched.
pub open spec fn index_step(s: ReportV, idx: usize) -> ReportV {
    ReportV { rules_matched: s.rules_matched.push(idx), ..s }
}

/// The state after an invariant violation is recorded.
pub open spec fn violation_step(s: ReportV, file: Seq<char>, line: u32, message: Seq<char>) -> ReportV {
    ReportV { errors: s.errors.push(PolicyErrorV::InvariantViolation { file, line, message }), ..s }
}

/// The state after a type check failure is recorded.
pub open spec fn type_check_step(s: ReportV, file: Seq<char>, line: u32, message: Seq<char>) -> ReportV {
    ReportV {
        errors: s.errors.push(
            PolicyErrorV::TypeCheckFailure {
                file,
                line,
                message,
                expected: "valid JSON matching policy type"@,
                actual: "invalid or mismatched JSON"@,
            },
        ),
        ..s
    }
}

/// The state after a conflict is recorded.
pub open spec fn conflict_step(s: ReportV, c: ConflictV) -> ReportV {
    ReportV { conflicts: s.conflicts.push(c), ..s }
}

/// The members of an optional object value.
pub open spec fn members_of(o: Option<JsonV>) -> Seq<(Seq<char>, JsonV)> {
    match o {
        Some(JsonV::Object(m)) => m,
        _ => Seq::empty(),
    }
}

/// Whether an optional value is absent or an object.
pub open spec fn none_or_object(o: Option<JsonV>) -> bool {
    match o {
        None => true,
        Some(JsonV::Object(_)) => true,
        _ => false,
    }
}

/// The mathematical state of a report that its operations change.
pub struct ReportV {
    /// The values reported so far.
    pub value: Option<JsonV>,
    /// The defaults reported so far.
    pub default: Option<JsonV>,
    pub errors: Seq<PolicyErrorV>,
    pub conflicts: Seq<ConflictV>,
    pub stats: Seq<(Seq<char>, FieldStatsV)>,
    pub rules_matched: Seq<usize>,
}

/// The statistics with one more value recorded for `field` under key `k`.
pub open spec fn stats_record(
    st: Seq<(Seq<char>, FieldStatsV)>,
    field: Seq<char>,
    k: Seq<char>,
) -> Seq<(Seq<char>, FieldStatsV)> {
    let i = key_index(st, field);
    if i >= 0 {
        st.update(i, (field, stats_add(st[i].1, k)))
    } else {
        st.push((field, FieldStatsV { count: 1, distribution: seq![(k, 1nat)] }))
    }
}

/// The statistics of a field, if any were recorded.
pub open spec fn stats_get(st: Seq<(Seq<char>, FieldStatsV)>, field: Seq<char>) -> Option<FieldStatsV> {
    let i = key_index(st, field);
    if i >= 0 {
        Some(st[i].1)
    } else {
        None
    }
}

/// An invariant violation as a report records it.
pub open spec fn violation(message: Seq<char>, line: u32) -> PolicyErrorV {
    PolicyErrorV::InvariantViolation { file: report_file(), line, message }
}

/// The state after an outcome for `field`, reported by policy `idx`.
pub open spec fn apply_outcome(s: ReportV, idx: usize, field: Seq<char>, o: OutcomeV) -> ReportV {
    let m = members_of(s.value);
    ReportV {
        value: Some(
            JsonV::Object(
                match o {
                    OutcomeV::Assign(v) => obj_set(m, field, v),
                    _ => m,
                },
            ),
        ),
        default: s.default,
        errors: match o {
            OutcomeV::Violation(msg, line) => s.errors.push(violation(msg, line)),
            _ => s.errors,
        },
        conflicts: match o {
            OutcomeV::Conflict(c) => s.conflicts.push(c),
            _ => s.conflicts,
        },
        stats: s.stats,
        rules_matched: s.rules_matched.push(idx),
    }
}

/// `apply_outcome`, with the value's key also recorded in the field's statistics.
pub open spec fn report_step(s: ReportV, idx: usize, field: Seq<char>, key: Seq<char>, o: OutcomeV) -> ReportV {
    let r = apply_outcome(s, idx, field, o);
    ReportV { stats: stats_record(s.stats, field, key), ..r }
}

/// The current value of `field`.
pub open spec fn current(s: ReportV, field: Seq<char>) -> Option<JsonV> {
    obj_get(members_of(s.value), field)
}

/// What reporting boolean `value` for `field` does.
pub open spec fn bool_outcome(cur: Option<JsonV>, field: Seq<char>, value: bool, oc: OnConflict) -> OutcomeV {
    match cur {
        None => OutcomeV::Assign(JsonV::Bool(value)),
        Some(JsonV::Null) => OutcomeV::Assign(JsonV::Bool(value)),
        Some(JsonV::Bool(b)) => if b == value {
            OutcomeV::Keep
        } else {
            match oc {
                OnConflict::Default => OutcomeV::Assign(JsonV::Bool(value)),
                OnConflict::Agreement => OutcomeV::Conflict(
                    ConflictV::BoolConflict { field, val1: b, val2: value },
                ),
                OnConflict::LargestValue => if value {
                    OutcomeV::Assign(JsonV::Bool(true))
                } else {
                    OutcomeV::Keep
                },
            }
        },
        Some(JsonV::Number(_)) => OutcomeV::Violation("number found in place of bool"@, BOOL_VIOLATION_LINE),
        Some(JsonV::String(_)) => OutcomeV::Violation("string found in place of bool"@, BOOL_VIOLATION_LINE),
        Some(JsonV::Array(_)) => OutcomeV::Violation("array found in place of bool"@, BOOL_VIOLATION_LINE),
        Some(JsonV::Object(_)) => OutcomeV::Violation("found an object"@, BOOL_VIOLATION_LINE),
    }
}

/// Whether two number texts are the same text or equal by value as decimals.
pub open spec fn numbers_equal(a: Seq<char>, b: Seq<char>) -> bool {
    a == b || (is_number_text(decimal_form(a)) && is_number_text(decimal_form(b)) && number_eq(decimal_form(a), decimal_form(b)))
}

/// Whether `a` is smaller than `b` by value (`false` where either is not a number).
pub open spec fn number_smaller(a: Seq<char>, b: Seq<char>) -> bool {
    is_number_text(decimal_form(a)) && is_number_text(decimal_form(b)) && number_lt(decimal_form(a), decimal_form(b))
}

/// What reporting number `value` for `field` does.
pub open spec fn number_outcome(cur: Option<JsonV>, field: Seq<char>, value: Seq<char>, oc: OnConflict) -> OutcomeV {
    match cur {
        None => OutcomeV::Assign(JsonV::Number(value)),
        Some(JsonV::Null) => OutcomeV::Assign(JsonV::Number(value)),
        Some(JsonV::Number(n)) => if numbers_equal(n, value) {
            OutcomeV::Keep
        } else {
            match oc {
                OnConflict::Default => OutcomeV::Assign(JsonV::Number(value)),
                OnConflict::Agreement => OutcomeV::Conflict(
                    ConflictV::NumberConflict { field, val1: n, val2: value },
                ),
                OnConflict::LargestValue => if number_smaller(n, value) {
                    OutcomeV::Assign(JsonV::Number(value))
                } else {
                    OutcomeV::Keep
                },
            }
        },
        Some(JsonV::Bool(_)) => OutcomeV::Violation("bool found in place of number"@, NUMBER_VIOLATION_LINE),
        Some(JsonV::String(_)) => OutcomeV::Violation("string found in place of number"@, NUMBER_VIOLATION_LINE),
        Some(JsonV::Array(_)) => OutcomeV::Violation("array found in place of number"@, NUMBER_VIOLATION_LINE),
        Some(JsonV::Object(_)) => OutcomeV::Violation("found an object"@, NUMBER_VIOLATION_LINE),
    }
}

/// The length of a text in UTF-8 bytes, as `str::len` counts it.
pub open spec fn byte_len(s: Seq<char>) -> usize {
    vstd::utf8::encode_utf8(s).len() as usize
}

/// What reporting string `value` for `field` does.
pub open spec fn string_outcome(cur: Option<JsonV>, field: Seq<char>, value: Seq<char>, oc: OnConflict) -> OutcomeV {
    match cur {
        None => OutcomeV::Assign(JsonV::String(value)),
        Some(JsonV::Null) => OutcomeV::Assign(JsonV::String(value)),
        Some(JsonV::String(s)) => if s == value {
            OutcomeV::Keep
        } else {
            match oc {
                OnConflict::Default => OutcomeV::Assign(JsonV::String(value)),
                OnConflict::Agreement => OutcomeV::Conflict(
                    ConflictV::StringConflict { field, val1: s, val2: value },
                ),
                OnConflict::LargestValue => if byte_len(value) > byte_len(s) {
                    OutcomeV::Assign(JsonV::String(value))
                } else {
                    OutcomeV::Keep
                },
            }
        },
        Some(JsonV::Bool(_)) => OutcomeV::Violation("bool found in place of string"@, STRING_VIOLATION_LINE),
        Some(JsonV::Number(_)) => OutcomeV::Violation("number found in place of string"@, STRING_VIOLATION_LINE),
        Some(JsonV::Array(_)) => OutcomeV::Violation("array found in place of string"@, STRING_VIOLATION_LINE),
        Some(JsonV::Object(_)) => OutcomeV::Violation("found an object"@, STRING_VIOLATION_LINE),
    }
}

/// The index of the first occurrence of `x`, or -1.
pub open spec fn position(values: Seq<Seq<char>>, x: Seq<char>) -> int
    decreases values.len(),
{
    if values.len() == 0 {
        -1
    } else {
        let r = position(values.drop_last(), x);
        if r >= 0 {
            r
        } else if values.last() == x {
            values.len() - 1
        } else {
            -1
        }
    }
}

/// Whether `new` comes after `existing` among the declared values.
pub open spec fn enum_greater(existing: Seq<char>, new: Seq<char>, values: Seq<Seq<char>>) -> bool {
    position(values, existing) >= 0 && position(values, new) >= 0 && position(values, new) > position(values, existing)
}

/// What reporting enum value `value` for `field` does.
pub open spec fn enum_outcome(
    cur: Option<JsonV>,
    field: Seq<char>,
    value: Seq<char>,
    values: Seq<Seq<char>>,
    oc: OnConflict,
) -> OutcomeV {
    match cur {
        None => OutcomeV::Assign(JsonV::String(value)),
        Some(JsonV::Null) => OutcomeV::Assign(JsonV::String(value)),
        Some(JsonV::String(s)) => if s == value {
            OutcomeV::Keep
        } else {
            match oc {
                OnConflict::Default => OutcomeV::Assign(JsonV::String(value)),
                OnConflict::Agreement => OutcomeV::Conflict(
                    ConflictV::StringConflict { field, val1: s, val2: value },
                ),
                OnConflict::LargestValue => if enum_greater(s, value, values) {
                    OutcomeV::Assign(JsonV::String(value))
                } else {
                    OutcomeV::Keep
                },
            }
        },
        Some(JsonV::Bool(_)) => OutcomeV::Violation("bool found in place of string enum"@, ENUM_VIOLATION_LINE),
        Some(JsonV::Number(_)) => OutcomeV::Violation("number found in place of string enum"@, ENUM_VIOLATION_LINE),
        Some(JsonV::Array(_)) => OutcomeV::Violation("array found in place of string enum"@, ENUM_VIOLATION_LINE),
        Some(JsonV::Object(_)) => OutcomeV::Violation("found an object"@, ENUM_VIOLATION_LINE),
    }
}

/// What reporting array element `value` for `field` does: appended when
/// absent, and a fresh one-element array where the field holds no array.
pub open spec fn array_outcome(cur: Option<JsonV>, value: Seq<char>) -> OutcomeV {
    match cur {
        Some(JsonV::Array(a)) => if a.contains(JsonV::String(value)) {
            OutcomeV::Keep
        } else {
            OutcomeV::Assign(JsonV::Array(a.push(JsonV::String(value))))
        },
        _ => OutcomeV::Assign(JsonV::Array(seq![JsonV::String(value)])),
    }
}

/// What initialising an empty array for `field` does.
pub open spec fn empty_array_outcome(cur: Option<JsonV>) -> OutcomeV {
    match cur {
        None => OutcomeV::Assign(JsonV::Array(Seq::empty())),
        Some(_) => OutcomeV::Keep,
    }
}

/// The suggestion that comes with a default conflict.
pub open spec fn default_suggestion() -> Seq<char> {
    "Ensure all policies use the same default value for this field"@
}

/// The state after reporting default `new` for `field`: the first default
/// stays, and a different one is an error.
pub open spec fn default_step(s: ReportV, field: Seq<char>, new: JsonV) -> ReportV {
    let d = members_of(s.default);
    match obj_get(d, field) {
        Some(existing) => ReportV {
            default: Some(JsonV::Object(d)),
            errors: if existing == new {
                s.errors
            } else {
                s.errors.push(
                    PolicyErrorV::DefaultConflict {
                        field,
                        existing,
                        new,
                        suggestion: default_suggestion(),
                    },
                )
            },
            ..s
        },
        None => ReportV { default: Some(JsonV::Object(obj_set(d, field, new))), ..s },
    }
}

/// `base` with every member of `m` set in order.
pub open spec fn fold_set(base: Seq<(Seq<char>, JsonV)>, m: Seq<(Seq<char>, JsonV)>) -> Seq<(Seq<char>, JsonV)>
    decreases m.len(),
{
    if m.len() == 0 {
        base
    } else {
        obj_set(fold_set(base, m.drop_last()), m.last().0, m.last().1)
    }
}

/// The final output: the defaults with every reported value set over them.
pub open spec fn output(s: ReportV) -> JsonV {
    JsonV::Object(fold_set(members_of(s.default), members_of(s.value)))
}

/// The result of applying policies to unstructured data: which rules
/// matched, the values extracted, and the conflicts and errors met.
#[derive(Debug)]
pub struct Report {
    /// Messages that were used in the conversation with the model.
    pub messages: Vec<crate::message::Message>,
    /// Boolean field masks that were applied.
    pub bool_masks: Vec<crate::masks::BoolMask>,
    /// Numeric field masks that were applied.
    pub number_masks: Vec<crate::masks::NumberMask>,
    /// String field masks that were applied.
    pub string_masks: Vec<crate::masks::StringMask>,
    /// String array field masks that were applied.
    pub string_array_masks: Vec<crate::masks::StringArrayMask>,
    /// String enum field masks that were applied.
    pub string_enum_masks: Vec<crate::masks::StringEnumMask>,
    /// For each policy, the masked names of its fields.
    pub masks_by_index: Vec<Vec<String>>,
    /// Indices of the policies whose values were reported, in order.
    pub rules_matched: Vec<usize>,
    /// The intermediate representation received from the model.
    pub ir: Option<Json>,
    /// Default values for the fields.
    pub default: Option<Json>,
    value: Option<Json>,
    errors: Vec<PolicyError>,
    conflicts: Vec<Conflict>,
    field_stats: Vec<(String, FieldStats)>,
}

/// The view of an optional JSON value.
pub open spec fn opt_json(o: Option<Json>) -> Option<JsonV> {
    match o {
        Some(j) => Some(j@),
        None => None,
    }
}

impl Report {
    /// The state that the report's operations change.
    pub closed spec fn state(&self) -> ReportV {
        ReportV {
            value: opt_json(self.value),
            default: opt_json(self.default),
            errors: errors_view(self.errors@),
            conflicts: conflicts_view(self.conflicts@),
            stats: stats_view(self.field_stats@),
            rules_matched: self.rules_matched@,
        }
    }

    /// Well formed: the value and the defaults are objects once set, the
    /// statistics are keyed by distinct fields, each well formed, and no
    /// field was counted more often than values were reported.
    pub closed spec fn wf(&self) -> bool {
        &&& none_or_object(self.state().value)
        &&& distinct_keys(members_of(self.state().value))
        &&& none_or_object(self.state().default)
        &&& distinct_keys(self.state().stats)
        &&& forall|i: int| 0 <= i < self.field_stats@.len() ==> (#[trigger] self.field_stats@[i]).1.wf()
        &&& forall|i: int| 0 <= i < self.field_stats@.len() ==> (#[trigger] self.field_stats@[i]).1.count <= self.rules_matched@.len()
    }

    /// The fields that the report's operations leave alone are those of `other`.
    pub closed spec fn same_setup(&self, other: &Report) -> bool {
        &&& self.messages == other.messages
        &&& self.bool_masks == other.bool_masks
        &&& self.number_masks == other.number_masks
        &&& self.string_masks == other.string_masks
        &&& self.string_array_masks == other.string_array_masks
        &&& self.string_enum_masks == other.string_enum_masks
        &&& self.masks_by_index == other.masks_by_index
        &&& self.ir == other.ir
    }
}


/// The view of an optional reference to a JSON value.
pub open spec fn opt_json_ref(o: Option<&Json>) -> Option<JsonV> {
    match o {
        Some(j) => Some(j@),
        None => None,
    }
}

fn bool_outcome_of(cur: Option<&Json>, field: &str, value: bool, oc: OnConflict) -> (r: Outcome)
    ensures
        r@ == bool_outcome(opt_json_ref(cur), field@, value, oc),
{
    match cur {
        None => Outcome::Assign(Json::Bool(value)),
        Some(Json::Null) => Outcome::Assign(Json::Bool(value)),
        Some(Json::Bool(b)) => {
            if *b == value {
                Outcome::Keep
            } else {
                match oc {
                    OnConflict::Default => Outcome::Assign(Json::Bool(value)),
                    OnConflict::Agreement => Outcome::Conflict(
                        Conflict::BoolConflict { field: string_of(field), val1: *b, val2: value },
                    ),
                    OnConflict::LargestValue => if value {
                        Outcome::Assign(Json::Bool(true))
                    } else {
                        Outcome::Keep
                    },
                }
            }
        },
        Some(Json::Number(_)) => Outcome::Violation("number found in place of bool", BOOL_VIOLATION_LINE),
        Some(Json::String(_)) => Outcome::Violation("string found in place of bool", BOOL_VIOLATION_LINE),
        Some(Json::Array(_)) => Outcome::Violation("array found in place of bool", BOOL_VIOLATION_LINE),
        Some(Json::Object(_)) => Outcome::Violation("found an object", BOOL_VIOLATION_LINE),
    }
}

fn number_outcome_of(cur: Option<&Json>, field: &str, value: &JsonNumber, oc: OnConflict) -> (r: Outcome)
    ensures
        r@ == number_outcome(opt_json_ref(cur), field@, value@, oc),
{
    match cur {
        None => Outcome::Assign(Json::Number(value.copy())),
        Some(Json::Null) => Outcome::Assign(Json::Number(value.copy())),
        Some(Json::Number(n)) => {
            if crate::number::number_is_equal(n, value) {
                Outcome::Keep
            } else {
                match oc {
                    OnConflict::Default => Outcome::Assign(Json::Number(value.copy())),
                    OnConflict::Agreement => Outcome::Conflict(
                        Conflict::NumberConflict { field: string_of(field), val1: n.copy(), val2: value.copy() },
                    ),
                    OnConflict::LargestValue => if crate::number::number_less_than(n, value) {
                        Outcome::Assign(Json::Number(value.copy()))
                    } else {
                        Outcome::Keep
                    },
                }
            }
        },
        Some(Json::Bool(_)) => Outcome::Violation("bool found in place of number", NUMBER_VIOLATION_LINE),
        Some(Json::String(_)) => Outcome::Violation("string found in place of number", NUMBER_VIOLATION_LINE),
        Some(Json::Array(_)) => Outcome::Violation("array found in place of number", NUMBER_VIOLATION_LINE),
        Some(Json::Object(_)) => Outcome::Violation("found an object", NUMBER_VIOLATION_LINE),
    }
}

fn string_outcome_of(cur: Option<&Json>, field: &str, value: &str, oc: OnConflict) -> (r: Outcome)
    ensures
        r@ == string_outcome(opt_json_ref(cur), field@, value@, oc),
{
    match cur {
        None => Outcome::Assign(Json::String(string_of(value))),
        Some(Json::Null) => Outcome::Assign(Json::String(string_of(value))),
        Some(Json::String(s)) => {
            if text_eq(s.as_str(), value) {
                Outcome::Keep
            } else {
                match oc {
                    OnConflict::Default => Outcome::Assign(Json::String(string_of(value))),
                    OnConflict::Agreement => Outcome::Conflict(
                        Conflict::StringConflict { field: string_of(field), val1: s.clone(), val2: string_of(value) },
                    ),
                    OnConflict::LargestValue => if value.len() > s.as_str().len() {
                        Outcome::Assign(Json::String(string_of(value)))
                    } else {
                        Outcome::Keep
                    },
                }
            }
        },
        Some(Json::Bool(_)) => Outcome::Violation("bool found in place of string", STRING_VIOLATION_LINE),
        Some(Json::Number(_)) => Outcome::Violation("number found in place of string", STRING_VIOLATION_LINE),
        Some(Json::Array(_)) => Outcome::Violation("array found in place of string", STRING_VIOLATION_LINE),
        Some(Json::Object(_)) => Outcome::Violation("found an object", STRING_VIOLATION_LINE),
    }
}

fn enum_outcome_of(cur: Option<&Json>, field: &str, value: &str, values: &Vec<String>, oc: OnConflict) -> (r: Outcome)
    ensures
        r@ == enum_outcome(opt_json_ref(cur), field@, value@, values.deep_view(), oc),
{
    match cur {
        None => Outcome::Assign(Json::String(string_of(value))),
        Some(Json::Null) => Outcome::Assign(Json::String(string_of(value))),
        Some(Json::String(s)) => {
            if text_eq(s.as_str(), value) {
                Outcome::Keep
            } else {
                match oc {
                    OnConflict::Default => Outcome::Assign(Json::String(string_of(value))),
                    OnConflict::Agreement => Outcome::Conflict(
                        Conflict::StringConflict { field: string_of(field), val1: s.clone(), val2: string_of(value) },
                    ),
                    OnConflict::LargestValue => if enum_value_is_greater(s.as_str(), value, values) {
                        Outcome::Assign(Json::String(string_of(value)))
                    } else {
                        Outcome::Keep
                    },
                }
            }
        },
        Some(Json::Bool(_)) => Outcome::Violation("bool found in place of string enum", ENUM_VIOLATION_LINE),
        Some(Json::Number(_)) => Outcome::Violation("number found in place of string enum", ENUM_VIOLATION_LINE),
        Some(Json::Array(_)) => Outcome::Violation("array found in place of string enum", ENUM_VIOLATION_LINE),
        Some(Json::Object(_)) => Outcome::Violation("found an object", ENUM_VIOLATION_LINE),
    }
}

/// The index of the first occurrence of `x` in `values`.
fn position_of(values: &Vec<String>, x: &str) -> (r: Option<usize>)
    ensures
        match r {
            Some(i) => position(values.deep_view(), x@) == i as int,
            None => position(values.deep_view(), x@) < 0,
        },
{
    let ghost vs = values.deep_view();
    let mut i: usize = 0;
    while i < values.len()
        invariant
            0 <= i <= values@.len(),
            vs == values.deep_view(),
            vs.len() == values@.len(),
            position(vs.take(i as int), x@) < 0,
        decreases values@.len() - i,
    {
        assert(vs.take(i + 1).drop_last() =~= vs.take(i as int));
        if text_eq(values[i].as_str(), x) {
            proof {
                lemma_position_prefix(vs, i as int + 1, x@);
            }
            return Some(i);
        }
        i = i + 1;
    }
    assert(vs.take(i as int) =~= vs);
    None
}

proof fn lemma_position_prefix(vs: Seq<Seq<char>>, n: int, x: Seq<char>)
    requires
        0 <= n <= vs.len(),
        position(vs.take(n), x) >= 0,
    ensures
        position(vs, x) == position(vs.take(n), x),
    decreases vs.len() - n,
{
    if n < vs.len() {
        assert(vs.take(n + 1).drop_last() =~= vs.take(n));
        lemma_position_prefix(vs, n + 1, x);
    } else {
        assert(vs.take(n) =~= vs);
    }
}

/// Whether `new` comes after `existing` among the declared `values`; `false`
/// where either is not declared.
pub fn enum_value_is_greater(existing: &str, new: &str, values: &Vec<String>) -> (r: bool)
    ensures
        r == enum_greater(existing@, new@, values.deep_view()),
{
    match (position_of(values, existing), position_of(values, new)) {
        (Some(e), Some(n)) => n > e,
        _ => false,
    }
}

/// Whether an array holds the string `value`.
fn array_has_string(a: &Vec<Json>, value: &str) -> (r: bool)
    ensures
        r == Seq::new(a@.len(), |j: int| a@[j]@).contains(JsonV::String(value@)),
{
    let ghost av = Seq::new(a@.len(), |j: int| a@[j]@);
    let mut i: usize = 0;
    while i < a.len()
        invariant
            0 <= i <= a@.len(),
            av == Seq::new(a@.len(), |j: int| a@[j]@),
            forall|j: int| 0 <= j < i ==> av[j] != JsonV::String(value@),
        decreases a@.len() - i,
    {
        let hit = match &a[i] {
            Json::String(s) => text_eq(s.as_str(), value),
            _ => false,
        };
        if hit {
            assert(av[i as int] == JsonV::String(value@));
            return true;
        }
        i = i + 1;
    }
    false
}

impl Report {
    /// The fields that the report's operations leave alone.
    pub closed spec fn setup(&self) -> (
        Vec<crate::message::Message>,
        Vec<crate::masks::BoolMask>,
        Vec<crate::masks::NumberMask>,
        Vec<crate::masks::StringMask>,
        Vec<crate::masks::StringArrayMask>,
        Vec<crate::masks::StringEnumMask>,
        Vec<Vec<String>>,
        Option<Json>,
    ) {
        (
            self.messages,
            self.bool_masks,
            self.number_masks,
            self.string_masks,
            self.string_array_masks,
            self.string_enum_masks,
            self.masks_by_index,
            self.ir,
        )
    }

    /// A report with the given masks and messages, and nothing reported yet.
    pub fn new(
        messages: Vec<crate::message::Message>,
        bool_masks: Vec<crate::masks::BoolMask>,
        number_masks: Vec<crate::masks::NumberMask>,
        string_masks: Vec<crate::masks::StringMask>,
        string_array_masks: Vec<crate::masks::StringArrayMask>,
        string_enum_masks: Vec<crate::masks::StringEnumMask>,
        masks_by_index: Vec<Vec<String>>,
    ) -> (r: Report)
        ensures
            r.wf(),
            r.state() == (ReportV {
                value: None,
                default: None,
                errors: Seq::empty(),
                conflicts: Seq::empty(),
                stats: Seq::empty(),
                rules_matched: Seq::empty(),
            }),
            r.setup() == (
                messages,
                bool_masks,
                number_masks,
                string_masks,
                string_array_masks,
                string_enum_masks,
                masks_by_index,
                None::<Json>,
            ),
    {
        let r = Report {
            messages,
            bool_masks,
            number_masks,
            string_masks,
            string_array_masks,
            string_enum_masks,
            masks_by_index,
            rules_matched: Vec::new(),
            ir: None,
            default: None,
            value: None,
            errors: Vec::new(),
            conflicts: Vec::new(),
            field_stats: Vec::new(),
        };
        assert(r.state().errors =~= Seq::empty());
        assert(r.state().conflicts =~= Seq::empty());
        assert(r.state().stats =~= Seq::empty());
        r
    }

    /// The current value of `field`.
    fn lookup(&self, field: &str) -> (r: Option<&Json>)
        requires
            self.wf(),
        ensures
            opt_json_ref(r) == current(self.state(), field@),
    {
        match &self.value {
            Some(v) => v.get(field),
            None => None,
        }
    }

    /// Applies an outcome for `field` reported by policy `idx`.
    fn commit(&mut self, idx: usize, field: &str, o: Outcome)
        requires
            old(self).wf(),
        ensures
            final(self).state() == apply_outcome(old(self).state(), idx, field@, o@),
            final(self).setup() == old(self).setup(),
            final(self).wf(),
            final(self).field_stats == old(self).field_stats,
            final(self).rules_matched@ == old(self).rules_matched@.push(idx),
    {
        let ghost s = self.state();
        let ghost ov = o@;
        let mut m: Vec<(String, Json)> = match self.value.take() {
            Some(Json::Object(m)) => m,
            _ => Vec::new(),
        };
        proof {
            let mv = members_of(s.value);
            assert(obj_view(m@) =~= mv);
        }
        match o {
            Outcome::Assign(v) => {
                crate::json::object_set(&mut m, field, v);
            },
            Outcome::Keep => {},
            Outcome::Conflict(c) => {
                self.conflicts.push(c);
            },
            Outcome::Violation(msg, line) => {
                self.errors.push(
                    PolicyError::InvariantViolation {
                        file: string_of("src/report.rs"),
                        line,
                        message: string_of(msg),
                    },
                );
            },
        }
        let ghost mm = obj_view(m@);
        proof {
            if let OutcomeV::Assign(v) = ov {
                lemma_obj_set_distinct(members_of(s.value), field@, v);
            }
        }
        self.value = Some(Json::Object(m));
        self.rules_matched.push(idx);
        proof {
            if let Some(JsonV::Object(a)) = self.state().value {
                assert(a =~= mm);
            }
            let r = apply_outcome(s, idx, field@, ov);
            assert(self.state().errors =~= r.errors);
            assert(self.state().conflicts =~= r.conflicts);
            assert(self.state().stats =~= r.stats);
        }
    }

    /// Records one more value under `key` for `field`.
    fn record_stats(&mut self, field: &str, key: String)
        requires
            old(self).wf(),
            forall|i: int| 0 <= i < old(self).field_stats@.len() ==> (#[trigger] old(self).field_stats@[i]).1.count < old(self).rules_matched@.len(),
            0 < old(self).rules_matched@.len() <= usize::MAX,
        ensures
            final(self).state() == (ReportV { stats: stats_record(old(self).state().stats, field@, key@), ..old(self).state() }),
            final(self).setup() == old(self).setup(),
            final(self).wf(),
    {
        let ghost s = self.state();
        let ghost st = s.stats;
        proof {
            lemma_key_index(st, field@);
        }
        let mut i: usize = 0;
        while i < self.field_stats.len()
            invariant
                0 <= i <= self.field_stats@.len(),
                self == old(self),
                self.wf(),
                s == self.state(),
                0 < self.rules_matched@.len() <= usize::MAX,
                forall|j: int| 0 <= j < self.field_stats@.len() ==> (#[trigger] self.field_stats@[j]).1.count < self.rules_matched@.len(),
                st == self.state().stats,
                forall|j: int| 0 <= j < i ==> (#[trigger] st[j]).0 != field@,
            decreases self.field_stats@.len() - i,
        {
            if text_eq(self.field_stats[i].0.as_str(), field) {
                proof {
                    lemma_key_index(st, field@);
                    assert(st[i as int].0 == field@);
                    assert(key_index(st, field@) == i);
                    assert(self.field_stats@[i as int].1.wf());
                    lemma_stats_add(st[i as int].1, key@);
                }
                let mut e = self.field_stats.remove(i);
                e.1.add(key);
                self.field_stats.insert(i, e);
                proof {
                    let r = stats_record(st, field@, key@);
                    assert(self.state().stats =~= r);
                    assert(self.state().errors =~= s.errors);
                    assert(self.state().conflicts =~= s.conflicts);
                    assert forall|a: int, b: int| 0 <= a < b < self.state().stats.len() implies (#[trigger] self.state().stats[a]).0 != (#[trigger] self.state().stats[b]).0 by {
                        assert(self.state().stats[a].0 == st[a].0);
                        assert(self.state().stats[b].0 == st[b].0);
                    }
                }
                return;
            }
            i = i + 1;
        }
        proof {
            lemma_key_index(st, field@);
            lemma_stats_add(FieldStatsV { count: 0, distribution: Seq::empty() }, key@);
        }
        let mut fs = FieldStats::default();
        fs.add(key);
        let ghost old_fs = self.field_stats@;
        self.field_stats.push((string_of(field), fs));
        proof {
            assert forall|j: int| 0 <= j < self.field_stats@.len() implies (#[trigger] self.field_stats@[j]).1.wf()
                && self.field_stats@[j].1.count <= self.rules_matched@.len() by {
                if j < old_fs.len() {
                    assert(self.field_stats@[j] == old_fs[j]);
                }
            }
            let r = stats_record(st, field@, key@);
            assert(dist_add(Seq::<(Seq<char>, nat)>::empty(), key@) =~= seq![(key@, 1nat)]);
            assert(self.state().stats =~= r);
            assert(self.state().errors =~= s.errors);
            assert(self.state().conflicts =~= s.conflicts);
            assert forall|a: int, b: int| 0 <= a < b < self.state().stats.len() implies (#[trigger] self.state().stats[a]).0 != (#[trigger] self.state().stats[b]).0 by {
                if b < st.len() {
                    assert(self.state().stats[a].0 == st[a].0);
                    assert(self.state().stats[b].0 == st[b].0);
                } else {
                    assert(self.state().stats[a].0 == st[a].0);
                }
            }
        }
    }
}


fn array_outcome_of(cur: Option<&Json>, value: &str) -> (r: Outcome)
    ensures
        r@ == array_outcome(opt_json_ref(cur), value@),
{
    match cur {
        Some(Json::Array(a)) => {
            let ghost av = opt_json_ref(cur)->0->Array_0;
            assert(Seq::new(a@.len(), |j: int| a@[j]@) =~= av);
            if array_has_string(a, value) {
                Outcome::Keep
            } else {
                let mut b: Vec<Json> = Vec::new();
                let mut i: usize = 0;
                while i < a.len()
                    invariant
                        0 <= i <= a@.len(),
                        b@.len() == i,
                        forall|j: int| 0 <= j < i ==> (#[trigger] b@[j])@ == a@[j]@,
                    decreases a@.len() - i,
                {
                    b.push(a[i].copy());
                    i = i + 1;
                }
                let item = Json::String(string_of(value));
                assert(item@ == JsonV::String(value@));
                b.push(item);
                let r = Json::Array(b);
                proof {
                    let want = av.push(JsonV::String(value@));
                    assert(r@->Array_0.len() == want.len());
                    assert forall|j: int| 0 <= j < want.len() implies r@->Array_0[j] == want[j] by {
                        if j < a@.len() {
                            assert(b@[j]@ == a@[j]@);
                        } else {
                            assert(b@[j]@ == JsonV::String(value@));
                        }
                    }
                    assert(r@->Array_0 =~= want);
                }
                Outcome::Assign(r)
            }
        },
        _ => {
            let mut b: Vec<Json> = Vec::new();
            let item = Json::String(string_of(value));
            assert(item@ == JsonV::String(value@));
            b.push(item);
            assert(b@[0]@ == JsonV::String(value@));
            let r = Json::Array(b);
            assert(r@->Array_0.len() == 1);
            assert(r@->Array_0[0] == JsonV::String(value@));
            assert(r@->Array_0 =~= seq![JsonV::String(value@)]);
            Outcome::Assign(r)
        },
    }
}

impl Report {
    /// Records that a policy matched.
    pub fn report_policy_index(&mut self, policy_index: usize)
        requires
            old(self).wf(),
        ensures
            final(self).wf(),
            final(self).setup() == old(self).setup(),
            final(self).state() == index_step(old(self).state(), policy_index),
    {
        self.rules_matched.push(policy_index);
    }

    /// Reports a boolean value from a policy.
    pub fn report_bool(&mut self, policy_index: usize, field: &str, value: bool, on_conflict: OnConflict)
        requires
            old(self).wf(),
            old(self).state().rules_matched.len() < usize::MAX,
        ensures
            final(self).wf(),
            final(self).setup() == old(self).setup(),
            final(self).state() == report_step(
                old(self).state(),
                policy_index,
                field@,
                stats_key(JsonV::Bool(value)),
                bool_outcome(current(old(self).state(), field@), field@, value, on_conflict),
            ),
    {
        let o = bool_outcome_of(self.lookup(field), field, value, on_conflict);
        let key = stats_key_of(&Json::Bool(value));
        self.commit(policy_index, field, o);
        self.record_stats(field, key);
    }

    /// Reports a numeric value from a policy.
    pub fn report_number(&mut self, policy_index: usize, field: &str, value: JsonNumber, on_conflict: OnConflict)
        requires
            old(self).wf(),
            old(self).state().rules_matched.len() < usize::MAX,
        ensures
            final(self).wf(),
            final(self).setup() == old(self).setup(),
            final(self).state() == report_step(
                old(self).state(),
                policy_index,
                field@,
                stats_key(JsonV::Number(value@)),
                number_outcome(current(old(self).state(), field@), field@, value@, on_conflict),
            ),
    {
        let o = number_outcome_of(self.lookup(field), field, &value, on_conflict);
        let key = stats_key_of(&Json::Number(value));
        self.commit(policy_index, field, o);
        self.record_stats(field, key);
    }

    /// Reports a string value from a policy.
    pub fn report_string(&mut self, policy_index: usize, field: &str, value: String, on_conflict: OnConflict)
        requires
            old(self).wf(),
            old(self).state().rules_matched.len() < usize::MAX,
        ensures
            final(self).wf(),
            final(self).setup() == old(self).setup(),
            final(self).state() == report_step(
                old(self).state(),
                policy_index,
                field@,
                stats_key(JsonV::String(value@)),
                string_outcome(current(old(self).state(), field@), field@, value@, on_conflict),
            ),
    {
        let o = string_outcome_of(self.lookup(field), field, value.as_str(), on_conflict);
        let key = stats_key_of(&Json::String(value));
        self.commit(policy_index, field, o);
        self.record_stats(field, key);
    }

    /// Reports a string enum value from a policy; `values` gives the declared order.
    pub fn report_string_enum(
        &mut self,
        policy_index: usize,
        field: &str,
        value: String,
        values: &Vec<String>,
        on_conflict: OnConflict,
    )
        requires
            old(self).wf(),
            old(self).state().rules_matched.len() < usize::MAX,
        ensures
            final(self).wf(),
            final(self).setup() == old(self).setup(),
            final(self).state() == report_step(
                old(self).state(),
                policy_index,
                field@,
                stats_key(JsonV::String(value@)),
                enum_outcome(current(old(self).state(), field@), field@, value@, values.deep_view(), on_conflict),
            ),
    {
        let o = enum_outcome_of(self.lookup(field), field, value.as_str(), values, on_conflict);
        let key = stats_key_of(&Json::String(value));
        self.commit(policy_index, field, o);
        self.record_stats(field, key);
    }

    /// Adds a string to an array field; a string already there is not added again.
    pub fn report_string_array(&mut self, policy_index: usize, field: &str, value: String)
        requires
            old(self).wf(),
            old(self).state().rules_matched.len() < usize::MAX,
        ensures
            final(self).wf(),
            final(self).setup() == old(self).setup(),
            final(self).state() == report_step(
                old(self).state(),
                policy_index,
                field@,
                value@,
                array_outcome(current(old(self).state(), field@), value@),
            ),
    {
        let o = array_outcome_of(self.lookup(field), value.as_str());
        self.commit(policy_index, field, o);
        self.record_stats(field, value);
    }

    /// Makes `field` an empty array unless it already has a value.
    pub fn init_empty_string_array(&mut self, policy_index: usize, field: &str)
        requires
            old(self).wf(),
        ensures
            final(self).wf(),
            final(self).setup() == old(self).setup(),
            final(self).state() == apply_outcome(
                old(self).state(),
                policy_index,
                field@,
                empty_array_outcome(current(old(self).state(), field@)),
            ),
    {
        let o = match self.lookup(field) {
            None => {
                let r = Json::Array(Vec::new());
                assert(r@->Array_0 =~= Seq::<JsonV>::empty());
                Outcome::Assign(r)
            },
            Some(_) => Outcome::Keep,
        };
        self.commit(policy_index, field, o);
    }

    /// Records an invariant violation.
    pub fn report_invariant_violation(&mut self, file: &str, line: u32, message: &str)
        requires
            old(self).wf(),
        ensures
            final(self).wf(),
            final(self).setup() == old(self).setup(),
            final(self).state() == violation_step(old(self).state(), file@, line, message@),
    {
        let ghost s = self.state();
        self.errors.push(
            PolicyError::InvariantViolation { file: string_of(file), line, message: string_of(message) },
        );
        assert(self.state().errors =~= s.errors.push(
            PolicyErrorV::InvariantViolation { file: file@, line, message: message@ },
        ));
    }

    /// Records that the model's output did not have the expected type.
    pub fn report_type_check_failure(&mut self, file: &str, line: u32, message: &str)
        requires
            old(self).wf(),
        ensures
            final(self).wf(),
            final(self).setup() == old(self).setup(),
            final(self).state() == type_check_step(old(self).state(), file@, line, message@),
    {
        let ghost s = self.state();
        let e = PolicyError::TypeCheckFailure {
            file: string_of(file),
            line,
            message: string_of(message),
            expected: string_of("valid JSON matching policy type"),
            actual: string_of("invalid or mismatched JSON"),
        };
        let ghost ev = e@;
        self.errors.push(e);
        assert(self.state().errors =~= s.errors.push(ev));
    }

    fn push_conflict(&mut self, c: Conflict)
        requires
            old(self).wf(),
        ensures
            final(self).wf(),
            final(self).setup() == old(self).setup(),
            final(self).state() == (ReportV { conflicts: old(self).state().conflicts.push(c@), ..old(self).state() }),
    {
        let ghost s = self.state();
        let ghost cv = c@;
        self.conflicts.push(c);
        assert(self.state().conflicts =~= s.conflicts.push(cv));
    }

    /// Records two different numbers reported for one field.
    pub fn report_number_conflict(&mut self, field: &str, val1: JsonNumber, val2: JsonNumber)
        requires
            old(self).wf(),
        ensures
            final(self).wf(),
            final(self).setup() == old(self).setup(),
            final(self).state() == conflict_step(
                old(self).state(),
                ConflictV::NumberConflict { field: field@, val1: val1@, val2: val2@ },
            ),
    {
        self.push_conflict(Conflict::NumberConflict { field: string_of(field), val1, val2 });
    }

    /// Records two different strings reported for one field.
    pub fn report_string_conflict(&mut self, field: &str, val1: String, val2: String)
        requires
            old(self).wf(),
        ensures
            final(self).wf(),
            final(self).setup() == old(self).setup(),
            final(self).state() == conflict_step(
                old(self).state(),
                ConflictV::StringConflict { field: field@, val1: val1@, val2: val2@ },
            ),
    {
        self.push_conflict(Conflict::StringConflict { field: string_of(field), val1, val2 });
    }

    /// Records an enum flag that conflicts with the value it stands for.
    pub fn report_string_enum_conflict(&mut self, field: &str, val1: String, val2: String)
        requires
            old(self).wf(),
        ensures
            final(self).wf(),
            final(self).setup() == old(self).setup(),
            final(self).state() == conflict_step(
                old(self).state(),
                ConflictV::StringConflict { field: field@, val1: val1@, val2: val2@ },
            ),
    {
        self.push_conflict(Conflict::StringConflict { field: string_of(field), val1, val2 });
    }

    /// Records default `new` for `field`.
    fn commit_default(&mut self, field: &str, new: Json)
        requires
            old(self).wf(),
        ensures
            final(self).wf(),
            final(self).setup() == old(self).setup(),
            final(self).state() == default_step(old(self).state(), field@, new@),
    {
        let ghost s = self.state();
        let ghost nv = new@;
        let mut d: Vec<(String, Json)> = match self.default.take() {
            Some(Json::Object(m)) => m,
            _ => Vec::new(),
        };
        assert(obj_view(d@) =~= members_of(s.default));
        match crate::json::find_member(&d, field) {
            Some(i) => {
                proof {
                    lemma_key_index(obj_view(d@), field@);
                }
                if !crate::json::json_eq(&d[i].1, &new) {
                    let existing = d[i].1.copy();
                    let e = PolicyError::DefaultConflict {
                        field: string_of(field),
                        existing,
                        new,
                        suggestion: string_of("Ensure all policies use the same default value for this field"),
                    };
                    let ghost ev = e@;
                    self.errors.push(e);
                    assert(self.state().errors =~= s.errors.push(ev));
                }
            },
            None => {
                crate::json::object_set(&mut d, field, new);
            },
        }
        let ghost dv = obj_view(d@);
        self.default = Some(Json::Object(d));
        proof {
            if let Some(JsonV::Object(a)) = self.state().default {
                assert(a =~= dv);
            }
            assert(self.state().errors =~= default_step(s, field@, nv).errors);
            assert(self.state().conflicts =~= s.conflicts);
            assert(self.state().stats =~= s.stats);
        }
    }

    /// Reports a default boolean value; a different earlier default is an error.
    pub fn report_bool_default(&mut self, field: &str, default: bool)
        requires
            old(self).wf(),
        ensures
            final(self).wf(),
            final(self).setup() == old(self).setup(),
            final(self).state() == default_step(old(self).state(), field@, JsonV::Bool(default)),
    {
        self.commit_default(field, Json::Bool(default));
    }

    /// Reports a default numeric value; a different earlier default is an error.
    pub fn report_number_default(&mut self, field: &str, default: JsonNumber)
        requires
            old(self).wf(),
        ensures
            final(self).wf(),
            final(self).setup() == old(self).setup(),
            final(self).state() == default_step(old(self).state(), field@, JsonV::Number(default@)),
    {
        self.commit_default(field, Json::Number(default));
    }

    /// Reports a default string value; a different earlier default is an error.
    pub fn report_string_default(&mut self, field: &str, default: &str)
        requires
            old(self).wf(),
        ensures
            final(self).wf(),
            final(self).setup() == old(self).setup(),
            final(self).state() == default_step(old(self).state(), field@, JsonV::String(default@)),
    {
        self.commit_default(field, Json::String(string_of(default)));
    }
}


/// The views of the statistics of the fields.
pub open spec fn stats_view(v: Seq<(String, FieldStats)>) -> Seq<(Seq<char>, FieldStatsV)> {
    Seq::new(v.len(), |i: int| (v[i].0@, v[i].1@))
}

impl Report {
    /// The final output: the defaults with the reported values set over them.
    pub fn value(&self) -> (r: Json)
        requires
            self.wf(),
        ensures
            r@ == output(self.state()),
    {
        let ghost base = members_of(self.state().default);
        let ghost mv = members_of(self.state().value);
        let mut out: Vec<(String, Json)> = match &self.default {
            Some(Json::Object(d)) => {
                assert(obj_view(d@) =~= base);
                crate::json::copy_members(d)
            },
            _ => {
                let c: Vec<(String, Json)> = Vec::new();
                assert(obj_view(c@) =~= base);
                c
            },
        };
        match &self.value {
            Some(Json::Object(m)) => {
                assert(obj_view(m@) =~= mv);
                let mut i: usize = 0;
                while i < m.len()
                    invariant
                        0 <= i <= m@.len(),
                        mv == obj_view(m@),
                        obj_view(out@) == fold_set(base, mv.take(i as int)),
                    decreases m@.len() - i,
                {
                    assert(mv.take(i + 1).drop_last() =~= mv.take(i as int));
                    crate::json::object_set(&mut out, m[i].0.as_str(), m[i].1.copy());
                    i = i + 1;
                }
                assert(mv.take(i as int) =~= mv);
            },
            _ => {
                assert(mv =~= Seq::<(Seq<char>, JsonV)>::empty());
            },
        }
        let ghost ov = obj_view(out@);
        let r = Json::Object(out);
        assert(r@->Object_0 =~= ov);
        r
    }

    /// The errors recorded, in order.
    pub fn errors(&self) -> (r: &Vec<PolicyError>)
        ensures
            errors_view(r@) == self.state().errors,
    {
        &self.errors
    }

    /// The conflicts recorded, in order.
    pub fn conflicts(&self) -> (r: &Vec<Conflict>)
        ensures
            conflicts_view(r@) == self.state().conflicts,
    {
        &self.conflicts
    }

    /// The statistics of `field`, if any value was reported for it.
    pub fn field_stats(&self, field: &str) -> (r: Option<&FieldStats>)
        requires
            self.wf(),
        ensures
            match stats_get(self.state().stats, field@) {
                Some(fs) => r matches Some(x) && x@ == fs && x.wf(),
                None => r is None,
            },
    {
        let ghost st = self.state().stats;
        proof {
            lemma_key_index(st, field@);
        }
        let mut i: usize = 0;
        while i < self.field_stats.len()
            invariant
                0 <= i <= self.field_stats@.len(),
                st == self.state().stats,
                self.wf(),
                forall|j: int| 0 <= j < i ==> (#[trigger] st[j]).0 != field@,
            decreases self.field_stats@.len() - i,
        {
            if text_eq(self.field_stats[i].0.as_str(), field) {
                proof {
                    lemma_key_index(st, field@);
                    assert(st[i as int].0 == field@);
                    assert(self.field_stats@[i as int].1.wf());
                }
                return Some(&self.field_stats[i].1);
            }
            i = i + 1;
        }
        proof {
            lemma_key_index(st, field@);
        }
        None
    }

    /// The statistics of every field, in the order the fields were first reported.
    pub fn all_field_stats(&self) -> (r: &Vec<(String, FieldStats)>)
        ensures
            stats_view(r@) == self.state().stats,
    {
        &self.field_stats
    }

    /// The masked field names of each rule, in rule order.
    pub fn masks_by_index(&self) -> (r: &Vec<Vec<String>>)
        ensures
            *r == self.setup().6,
    {
        &self.masks_by_index
    }

    /// The rules whose values were reported, in the order they were reported.
    pub fn rules_matched(&self) -> (r: &Vec<usize>)
        ensures
            r@ == self.state().rules_matched,
    {
        &self.rules_matched
    }

    /// Whether any error or conflict was recorded.
    pub fn has_errors(&self) -> (r: bool)
        ensures
            r == (self.state().errors.len() > 0 || self.state().conflicts.len() > 0),
    {
        !self.errors.is_empty() || !self.conflicts.is_empty()
    }

    /// This report with its masks replaced; what was reported stays.
    pub(crate) fn with_masks(
        self,
        bool_masks: Vec<crate::masks::BoolMask>,
        number_masks: Vec<crate::masks::NumberMask>,
        string_masks: Vec<crate::masks::StringMask>,
        string_array_masks: Vec<crate::masks::StringArrayMask>,
        string_enum_masks: Vec<crate::masks::StringEnumMask>,
    ) -> (r: Report)
        requires
            self.wf(),
        ensures
            r.wf(),
            r.state() == self.state(),
            r.setup() == (
                self.setup().0,
                bool_masks,
                number_masks,
                string_masks,
                string_array_masks,
                string_enum_masks,
                self.setup().6,
                self.setup().7,
            ),
    {
        Report { bool_masks, number_masks, string_masks, string_array_masks, string_enum_masks, ..self }
    }
}


// ------------------------------------------------------------------ laws

/// Setting a member keeps the keys of an object distinct.
pub proof fn lemma_obj_set_distinct(m: Seq<(Seq<char>, JsonV)>, k: Seq<char>, v: JsonV)
    requires
        distinct_keys(m),
    ensures
        distinct_keys(obj_set(m, k, v)),
{
    lemma_key_index(m, k);
    let m2 = obj_set(m, k, v);
    let i = key_index(m, k);
    assert forall|a: int, b: int| 0 <= a < b < m2.len() implies (#[trigger] m2[a]).0 != (#[trigger] m2[b]).0 by {
        if i >= 0 {
            assert(m2[a].0 == m[a].0 && m2[b].0 == m[b].0);
        } else if b < m.len() {
            assert(m2[a] == m[a] && m2[b] == m[b]);
        } else {
            assert(m2[a] == m[a]);
        }
    }
}

impl Report {
    /// The reported values of a well-formed report have distinct keys.
    pub proof fn law_distinct_keys(&self)
        requires
            self.wf(),
        ensures
            distinct_keys(members_of(self.state().value)),
            none_or_object(self.state().value),
            none_or_object(self.state().default),
    {
    }
}

/// The current value of `field` after an outcome: the value assigned, or the
/// one it had.
pub proof fn lemma_current_after(s: ReportV, idx: usize, field: Seq<char>, key: Seq<char>, o: OutcomeV)
    ensures
        current(report_step(s, idx, field, key, o), field) == match o {
            OutcomeV::Assign(v) => Some(v),
            _ => current(s, field),
        },
        current(apply_outcome(s, idx, field, o), field) == match o {
            OutcomeV::Assign(v) => Some(v),
            _ => current(s, field),
        },
{
    if let OutcomeV::Assign(v) = o {
        lemma_obj_set_get(members_of(s.value), field, v, field);
    }
}

proof fn lemma_number_lt_asym(a: Seq<char>, b: Seq<char>)
    ensures
        number_lt(a, b) ==> !number_lt(b, a),
        !number_lt(a, a),
{
    assert(common_scale_sym(a, b));
}

spec fn common_scale_sym(a: Seq<char>, b: Seq<char>) -> bool {
    crate::number::common_scale(a, b) == crate::number::common_scale(b, a)
}

/// Under `LargestValue`, reporting a number over a number records no
/// conflict or error, and the field ends with the larger of the two, which is
/// smaller than neither.
pub proof fn law_largest_value_number(s: ReportV, idx: usize, field: Seq<char>, n: Seq<char>, value: Seq<char>)
    requires
        current(s, field) == Some(JsonV::Number(n)),
        is_number_text(decimal_form(n)),
        is_number_text(decimal_form(value)),
    ensures
        ({
            let t = report_step(
                s,
                idx,
                field,
                stats_key(JsonV::Number(value)),
                number_outcome(current(s, field), field, value, OnConflict::LargestValue),
            );
            let larger = if number_lt(decimal_form(n), decimal_form(value)) {
                value
            } else {
                n
            };
            &&& t.conflicts == s.conflicts
            &&& t.errors == s.errors
            &&& current(t, field) == Some(JsonV::Number(larger))
            &&& !number_lt(decimal_form(larger), decimal_form(n))
            &&& !number_lt(decimal_form(larger), decimal_form(value))
        }),
{
    let o = number_outcome(current(s, field), field, value, OnConflict::LargestValue);
    lemma_current_after(s, idx, field, stats_key(JsonV::Number(value)), o);
    lemma_number_lt_asym(decimal_form(n), decimal_form(value));
    lemma_number_lt_asym(decimal_form(value), decimal_form(n));
}

/// Under `LargestValue`, `true` wins over `false`: reporting a boolean over a
/// boolean records no conflict and leaves their disjunction.
pub proof fn law_largest_value_bool(s: ReportV, idx: usize, field: Seq<char>, b: bool, value: bool)
    requires
        current(s, field) == Some(JsonV::Bool(b)),
    ensures
        ({
            let t = report_step(
                s,
                idx,
                field,
                stats_key(JsonV::Bool(value)),
                bool_outcome(current(s, field), field, value, OnConflict::LargestValue),
            );
            &&& t.conflicts == s.conflicts
            &&& t.errors == s.errors
            &&& current(t, field) == Some(JsonV::Bool(b || value))
        }),
{
    let o = bool_outcome(current(s, field), field, value, OnConflict::LargestValue);
    lemma_current_after(s, idx, field, stats_key(JsonV::Bool(value)), o);
}

/// Under `LargestValue`, the longer string (in bytes) wins and no conflict is recorded.
pub proof fn law_largest_value_string(s: ReportV, idx: usize, field: Seq<char>, a: Seq<char>, value: Seq<char>)
    requires
        current(s, field) == Some(JsonV::String(a)),
    ensures
        ({
            let t = report_step(
                s,
                idx,
                field,
                stats_key(JsonV::String(value)),
                string_outcome(current(s, field), field, value, OnConflict::LargestValue),
            );
            &&& t.conflicts == s.conflicts
            &&& t.errors == s.errors
            &&& current(t, field) == Some(JsonV::String(if byte_len(value) > byte_len(a) {
                value
            } else {
                a
            }))
        }),
{
    let o = string_outcome(current(s, field), field, value, OnConflict::LargestValue);
    lemma_current_after(s, idx, field, stats_key(JsonV::String(value)), o);
}

/// Under `LargestValue`, an enum field moves only to a value declared later,
/// and no conflict is recorded.
pub proof fn law_largest_value_enum(
    s: ReportV,
    idx: usize,
    field: Seq<char>,
    a: Seq<char>,
    value: Seq<char>,
    values: Seq<Seq<char>>,
)
    requires
        current(s, field) == Some(JsonV::String(a)),
    ensures
        ({
            let t = report_step(
                s,
                idx,
                field,
                stats_key(JsonV::String(value)),
                enum_outcome(current(s, field), field, value, values, OnConflict::LargestValue),
            );
            &&& t.conflicts == s.conflicts
            &&& t.errors == s.errors
            &&& current(t, field) == Some(JsonV::String(if enum_greater(a, value, values) {
                value
            } else {
                a
            }))
        }),
{
    let o = enum_outcome(current(s, field), field, value, values, OnConflict::LargestValue);
    lemma_current_after(s, idx, field, stats_key(JsonV::String(value)), o);
}

/// Under `Agreement`, the first value stays, and a conflict naming both
/// values is recorded exactly when the new value differs.
pub proof fn law_agreement(s: ReportV, idx: usize, field: Seq<char>, cur: JsonV, new: JsonV)
    requires
        current(s, field) == Some(cur),
        (cur is Bool && new is Bool) || (cur is Number && new is Number) || (cur is String && new is String),
    ensures
        ({
            let o = match new {
                JsonV::Bool(v) => bool_outcome(Some(cur), field, v, OnConflict::Agreement),
                JsonV::Number(v) => number_outcome(Some(cur), field, v, OnConflict::Agreement),
                _ => string_outcome(Some(cur), field, new->String_0, OnConflict::Agreement),
            };
            let t = report_step(s, idx, field, stats_key(new), o);
            let differs = match (cur, new) {
                (JsonV::Number(a), JsonV::Number(b)) => !numbers_equal(a, b),
                _ => cur != new,
            };
            &&& current(t, field) == Some(cur)
            &&& t.errors == s.errors
            &&& (differs ==> t.conflicts == s.conflicts.push(
                match (cur, new) {
                    (JsonV::Bool(a), JsonV::Bool(b)) => ConflictV::BoolConflict { field, val1: a, val2: b },
                    (JsonV::Number(a), JsonV::Number(b)) => ConflictV::NumberConflict { field, val1: a, val2: b },
                    _ => ConflictV::StringConflict { field, val1: cur->String_0, val2: new->String_0 },
                },
            ))
            &&& (!differs ==> t.conflicts == s.conflicts)
        }),
{
    let o = match new {
        JsonV::Bool(v) => bool_outcome(Some(cur), field, v, OnConflict::Agreement),
        JsonV::Number(v) => number_outcome(Some(cur), field, v, OnConflict::Agreement),
        _ => string_outcome(Some(cur), field, new->String_0, OnConflict::Agreement),
    };
    lemma_current_after(s, idx, field, stats_key(new), o);
}

/// Under `Default`, the last value reported wins and nothing is recorded: a
/// field takes each new value that differs from its current one (a number
/// equal by value leaves the current text as it is).
pub proof fn law_default_last_wins(s: ReportV, idx: usize, field: Seq<char>, cur: JsonV, new: JsonV)
    requires
        current(s, field) == Some(cur),
        (cur is Bool && new is Bool) || (cur is Number && new is Number) || (cur is String && new is String),
    ensures
        ({
            let o = match new {
                JsonV::Bool(v) => bool_outcome(Some(cur), field, v, OnConflict::Default),
                JsonV::Number(v) => number_outcome(Some(cur), field, v, OnConflict::Default),
                _ => string_outcome(Some(cur), field, new->String_0, OnConflict::Default),
            };
            let t = report_step(s, idx, field, stats_key(new), o);
            &&& current(t, field) == (if cur is Number && numbers_equal(cur->Number_0, new->Number_0) {
                Some(cur)
            } else {
                Some(new)
            })
            &&& t.errors == s.errors
            &&& t.conflicts == s.conflicts
        }),
{
    let o = match new {
        JsonV::Bool(v) => bool_outcome(Some(cur), field, v, OnConflict::Default),
        JsonV::Number(v) => number_outcome(Some(cur), field, v, OnConflict::Default),
        _ => string_outcome(Some(cur), field, new->String_0, OnConflict::Default),
    };
    lemma_current_after(s, idx, field, stats_key(new), o);
}

/// Whether no element occurs twice.
pub open spec fn no_duplicates(a: Seq<JsonV>) -> bool {
    forall|i: int, j: int| 0 <= i < j < a.len() ==> a[i] != a[j]
}

/// Array fields hold each reported string once: after reporting `value`,
/// the field is an array without duplicates that holds `value` and every
/// string it held before.
pub proof fn law_string_array_no_duplicates(s: ReportV, idx: usize, field: Seq<char>, value: Seq<char>)
    requires
        match current(s, field) {
            Some(JsonV::Array(a)) => no_duplicates(a),
            _ => true,
        },
    ensures
        ({
            let t = report_step(s, idx, field, value, array_outcome(current(s, field), value));
            &&& current(t, field) matches Some(JsonV::Array(b))
            &&& no_duplicates(b)
            &&& b.contains(JsonV::String(value))
            &&& (current(s, field) matches Some(JsonV::Array(a)) ==> forall|i: int| 0 <= i < a.len() ==> b.contains(#[trigger] a[i]))
        }),
{
    let o = array_outcome(current(s, field), value);
    lemma_current_after(s, idx, field, value, o);
    match current(s, field) {
        Some(JsonV::Array(a)) => {
            if a.contains(JsonV::String(value)) {
                assert forall|i: int| 0 <= i < a.len() implies a.contains(#[trigger] a[i]) by {}
            } else {
                let b = a.push(JsonV::String(value));
                assert(b[a.len() as int] == JsonV::String(value));
                assert forall|i: int| 0 <= i < a.len() implies b.contains(#[trigger] a[i]) by {
                    assert(b[i] == a[i]);
                }
                assert forall|i: int, j: int| 0 <= i < j < b.len() implies b[i] != b[j] by {
                    if j == a.len() {
                        assert(b[i] == a[i]);
                    } else {
                        assert(b[i] == a[i] && b[j] == a[j]);
                    }
                }
            }
        },
        _ => {
            let b = seq![JsonV::String(value)];
            assert(b[0] == JsonV::String(value));
        },
    }
}

proof fn lemma_fold_set_get(base: Seq<(Seq<char>, JsonV)>, m: Seq<(Seq<char>, JsonV)>, k: Seq<char>)
    requires
        distinct_keys(m),
    ensures
        obj_get(fold_set(base, m), k) == match obj_get(m, k) {
            Some(v) => Some(v),
            None => obj_get(base, k),
        },
    decreases m.len(),
{
    if m.len() > 0 {
        let d = m.drop_last();
        assert(distinct_keys(d)) by {
            assert forall|i: int, j: int| 0 <= i < j < d.len() implies (#[trigger] d[i]).0 != (#[trigger] d[j]).0 by {
                assert(d[i] == m[i] && d[j] == m[j]);
            }
        }
        lemma_fold_set_get(base, d, k);
        lemma_obj_set_get(fold_set(base, d), m.last().0, m.last().1, k);
        lemma_key_index(d, k);
        if m.last().0 == k {
            if key_index(d, k) >= 0 {
                let i = key_index(d, k);
                assert(m[i] == d[i]);
                assert(m[i].0 != m[m.len() - 1].0);
            }
        }
    }
}

/// The output holds every reported value, and the default of each field for
/// which no value was reported.
pub proof fn law_output_prefers_reported(s: ReportV, k: Seq<char>)
    requires
        distinct_keys(members_of(s.value)),
    ensures
        json_get(output(s), k) == match current(s, k) {
            Some(v) => Some(v),
            None => obj_get(members_of(s.default), k),
        },
{
    lemma_fold_set_get(members_of(s.default), members_of(s.value), k);
}

/// The first default reported for a field stays; a different later default
/// is recorded as a default conflict, an equal one changes nothing.
pub proof fn law_first_default_stays(s: ReportV, field: Seq<char>, first: JsonV, new: JsonV)
    requires
        obj_get(members_of(s.default), field) == Some(first),
    ensures
        ({
            let t = default_step(s, field, new);
            &&& obj_get(members_of(t.default), field) == Some(first)
            &&& t.value == s.value
            &&& t.conflicts == s.conflicts
            &&& t.errors == if first == new {
                s.errors
            } else {
                s.errors.push(
                    PolicyErrorV::DefaultConflict { field, existing: first, new, suggestion: default_suggestion() },
                )
            }
        }),
{
}

/// The indented text of a JSON value that may be missing: that of `{}` in
/// its place.
pub open spec fn pretty_or_empty(o: Option<JsonV>) -> Seq<char> {
    json_pretty(
        match o {
            Some(v) => v,
            None => JsonV::Object(Seq::empty()),
        },
    )
}

fn pretty_text(o: &Option<Json>) -> (r: String)
    ensures
        r@ == pretty_or_empty(opt_json(*o)),
{
    match o {
        Some(j) => json_pretty_text(j),
        None => json_pretty_text(&Json::object()),
    }
}

impl Report {
    /// The report's text: the model's answer and the values set, each as
    /// indented JSON, and `{}` for either that is missing.
    pub fn to_text(&self) -> (r: String)
        ensures
            r@ == "ir: "@ + pretty_or_empty(opt_json(self.setup().7)) + "\nso: "@ + pretty_or_empty(self.state().value) + "\n"@,
    {
        let mut r = String::new();
        push_text(&mut r, "ir: ");
        let a = pretty_text(&self.ir);
        push_text(&mut r, a.as_str());
        push_text(&mut r, "\nso: ");
        let b = pretty_text(&self.value);
        push_text(&mut r, b.as_str());
        push_text(&mut r, "\n");
        r
    }
}

} // verus!
