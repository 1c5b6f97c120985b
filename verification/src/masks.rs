//! Field masks: how one policy's field is read back from the model's output.
use vstd::prelude::*;

use crate::field::{opt_number_view, opt_view};
use crate::json::{json_get, Json, JsonNumber, JsonV};
use crate::number::is_number_text;
use crate::on_conflict::OnConflict;
use crate::report::{
    array_outcome, bool_outcome, conflict_step, current, default_step, empty_array_outcome,
    enum_outcome, index_step, lemma_current_after, number_outcome, numbers_equal, report_step, string_outcome, apply_outcome,
    type_check_step, violation_step, Report, ReportV,
};
use crate::errors::ConflictV;
use crate::text::{push_text, string_of, text_eq};

verus! {

/// A boolean field of one policy, under its masked name.
#[derive(Debug)]
pub struct BoolMask {
    /// Index of the policy this mask belongs to.
    pub policy_index: usize,
    /// The field name from the policy definition.
    pub name: String,
    /// Masked field name unlikely to be in a model's training data.
    pub mask: String,
    /// Default value when the field is not present.
    pub default: Option<bool>,
    /// Strategy for resolving conflicts when policies set different values.
    pub on_conflict: OnConflict,
}

/// A numeric field of one policy, under its masked name.
#[derive(Debug)]
pub struct NumberMask {
    pub policy_index: usize,
    pub name: String,
    pub mask: String,
    /// Default value when the field is not present.
    pub default: Option<JsonNumber>,
    /// The value this policy's action sets.
    pub value: Option<JsonNumber>,
    pub on_conflict: OnConflict,
}

/// A string field of one policy, under its masked name.
#[derive(Debug)]
pub struct StringMask {
    pub policy_index: usize,
    pub name: String,
    pub mask: String,
    pub default: Option<String>,
    /// The value this policy's action sets.
    pub value: Option<String>,
    pub on_conflict: OnConflict,
}

/// A string array field of one policy, under its masked name.
#[derive(Debug)]
pub struct StringArrayMask {
    pub policy_index: usize,
    pub name: String,
    pub mask: String,
}

/// One value of a string enum field, as a boolean flag under a masked name.
#[derive(Debug)]
pub struct StringEnumMask {
    pub policy_index: usize,
    pub name: String,
    pub mask: String,
    /// The enum value this flag stands for.
    pub value: Option<String>,
    pub default: Option<String>,
    pub on_conflict: OnConflict,
}

/// The mathematical value of a boolean mask.
pub struct BoolMaskV {
    pub policy_index: usize,
    pub name: Seq<char>,
    pub mask: Seq<char>,
    pub default: Option<bool>,
    pub on_conflict: OnConflict,
}

/// The mathematical value of a numeric mask.
pub struct NumberMaskV {
    pub policy_index: usize,
    pub name: Seq<char>,
    pub mask: Seq<char>,
    pub default: Option<Seq<char>>,
    pub value: Option<Seq<char>>,
    pub on_conflict: OnConflict,
}

/// The mathematical value of a string mask.
pub struct StringMaskV {
    pub policy_index: usize,
    pub name: Seq<char>,
    pub mask: Seq<char>,
    pub default: Option<Seq<char>>,
    pub value: Option<Seq<char>>,
    pub on_conflict: OnConflict,
}

/// The mathematical value of a string array mask.
pub struct StringArrayMaskV {
    pub policy_index: usize,
    pub name: Seq<char>,
    pub mask: Seq<char>,
}

/// The mathematical value of a string enum mask.
pub struct StringEnumMaskV {
    pub policy_index: usize,
    pub name: Seq<char>,
    pub mask: Seq<char>,
    pub value: Option<Seq<char>>,
    pub default: Option<Seq<char>>,
    pub on_conflict: OnConflict,
}

impl View for BoolMask {
    type V = BoolMaskV;

    open spec fn view(&self) -> BoolMaskV {
        BoolMaskV {
            policy_index: self.policy_index,
            name: self.name@,
            mask: self.mask@,
            default: self.default,
            on_conflict: self.on_conflict,
        }
    }
}

impl View for NumberMask {
    type V = NumberMaskV;

    open spec fn view(&self) -> NumberMaskV {
        NumberMaskV {
            policy_index: self.policy_index,
            name: self.name@,
            mask: self.mask@,
            default: opt_number_view(self.default),
            value: opt_number_view(self.value),
            on_conflict: self.on_conflict,
        }
    }
}

impl View for StringMask {
    type V = StringMaskV;

    open spec fn view(&self) -> StringMaskV {
        StringMaskV {
            policy_index: self.policy_index,
            name: self.name@,
            mask: self.mask@,
            default: opt_view(self.default),
            value: opt_view(self.value),
            on_conflict: self.on_conflict,
        }
    }
}

impl View for StringArrayMask {
    type V = StringArrayMaskV;

    open spec fn view(&self) -> StringArrayMaskV {
        StringArrayMaskV { policy_index: self.policy_index, name: self.name@, mask: self.mask@ }
    }
}

impl View for StringEnumMask {
    type V = StringEnumMaskV;

    open spec fn view(&self) -> StringEnumMaskV {
        StringEnumMaskV {
            policy_index: self.policy_index,
            name: self.name@,
            mask: self.mask@,
            value: opt_view(self.value),
            default: opt_view(self.default),
            on_conflict: self.on_conflict,
        }
    }
}

impl BoolMask {
    /// A boolean mask from its parts.
    pub fn new(
        policy_index: usize,
        name: String,
        mask: String,
        default: Option<bool>,
        on_conflict: OnConflict,
    ) -> (r: BoolMask)
        ensures
            r == (BoolMask { policy_index, name, mask, default, on_conflict }),
    {
        BoolMask { policy_index, name, mask, default, on_conflict }
    }
}

impl NumberMask {
    /// A numeric mask from its parts.
    pub fn new(
        policy_index: usize,
        name: String,
        mask: String,
        default: Option<JsonNumber>,
        value: Option<JsonNumber>,
        on_conflict: OnConflict,
    ) -> (r: NumberMask)
        ensures
            r == (NumberMask { policy_index, name, mask, default, value, on_conflict }),
    {
        NumberMask { policy_index, name, mask, default, value, on_conflict }
    }
}

impl StringMask {
    /// A string mask from its parts.
    pub fn new(
        policy_index: usize,
        name: String,
        mask: String,
        default: Option<String>,
        value: Option<String>,
        on_conflict: OnConflict,
    ) -> (r: StringMask)
        ensures
            r == (StringMask { policy_index, name, mask, default, value, on_conflict }),
    {
        StringMask { policy_index, name, mask, default, value, on_conflict }
    }
}

impl StringArrayMask {
    /// A string array mask; the action's values are not kept.
    pub fn new(policy_index: usize, name: String, mask: String, value: Vec<String>) -> (r:
        StringArrayMask)
        ensures
            r == (StringArrayMask { policy_index, name, mask }),
    {
        StringArrayMask { policy_index, name, mask }
    }
}

impl StringEnumMask {
    /// A string enum mask from its parts.
    pub fn new(
        policy_index: usize,
        name: String,
        mask: String,
        value: Option<String>,
        default: Option<String>,
        on_conflict: OnConflict,
    ) -> (r: StringEnumMask)
        ensures
            r == (StringEnumMask { policy_index, name, mask, value, default, on_conflict }),
    {
        StringEnumMask { policy_index, name, mask, value, default, on_conflict }
    }
}


/// The file named in the type check failures that masks record.
pub open spec fn masks_file() -> Seq<char> {
    "src/masks.rs"@
}

/// The line at which a boolean mask records a type check failure.
pub const BOOL_TYPE_LINE: u32 = 834;

/// The line at which a numeric mask records a type check failure.
pub const NUMBER_TYPE_LINE: u32 = 875;

/// The line at which a numeric mask records a default it cannot use.
pub const NUMBER_DEFAULT_LINE: u32 = 882;

/// The line at which a string mask records a type check failure.
pub const STRING_TYPE_LINE: u32 = 920;

/// The line at which a string array mask records a type check failure.
pub const ARRAY_TYPE_LINE: u32 = 1031;

/// The line at which a string enum mask records a type check failure.
pub const ENUM_TYPE_LINE: u32 = 969;

/// `prefix` followed by `name`.
fn message(prefix: &str, name: &str) -> (r: String)
    ensures
        r@ == prefix@ + name@,
{
    let mut r = string_of(prefix);
    push_text(&mut r, name);
    r
}

/// What a boolean mask does to a report, given the model's output `ir`.
pub open spec fn bool_mask_step(s: ReportV, m: BoolMaskV, ir: JsonV) -> ReportV {
    match json_get(ir, m.mask) {
        Some(JsonV::Bool(b)) => report_step(
            s,
            m.policy_index,
            m.name,
            crate::report::stats_key(JsonV::Bool(b)),
            bool_outcome(current(s, m.name), m.name, b, m.on_conflict),
        ),
        Some(_) => type_check_step(s, masks_file(), BOOL_TYPE_LINE, "expected boolean for "@ + m.name),
        None => match m.default {
            Some(v) => default_step(s, m.name, JsonV::Bool(v)),
            None => s,
        },
    }
}

/// What a numeric mask does to a report, given the model's output `ir`.
pub open spec fn number_mask_step(s: ReportV, m: NumberMaskV, ir: JsonV) -> ReportV {
    match json_get(ir, m.mask) {
        Some(JsonV::Number(v)) => match m.value {
            Some(expected) => if numbers_equal(v, expected) {
                report_step(
                    s,
                    m.policy_index,
                    m.name,
                    crate::report::stats_key(JsonV::Number(v)),
                    number_outcome(current(s, m.name), m.name, v, m.on_conflict),
                )
            } else {
                conflict_step(
                    index_step(s, m.policy_index),
                    ConflictV::NumberConflict { field: m.name, val1: v, val2: expected },
                )
            },
            None => report_step(
                s,
                m.policy_index,
                m.name,
                crate::report::stats_key(JsonV::Number(v)),
                number_outcome(current(s, m.name), m.name, v, m.on_conflict),
            ),
        },
        Some(_) => type_check_step(s, masks_file(), NUMBER_TYPE_LINE, "expected number for "@ + m.name),
        None => match m.default {
            Some(d) => if is_number_text(d) {
                default_step(s, m.name, JsonV::Number(d))
            } else {
                violation_step(s, masks_file(), NUMBER_DEFAULT_LINE, "cannot cast to number"@)
            },
            None => s,
        },
    }
}

/// What a string mask does to a report, given the model's output `ir`.
pub open spec fn string_mask_step(s: ReportV, m: StringMaskV, ir: JsonV) -> ReportV {
    match json_get(ir, m.mask) {
        Some(JsonV::String(v)) => match m.value {
            Some(expected) => if v == expected {
                report_step(
                    s,
                    m.policy_index,
                    m.name,
                    v,
                    string_outcome(current(s, m.name), m.name, v, m.on_conflict),
                )
            } else {
                conflict_step(
                    index_step(s, m.policy_index),
                    ConflictV::StringConflict { field: m.name, val1: v, val2: expected },
                )
            },
            None => report_step(
                s,
                m.policy_index,
                m.name,
                v,
                string_outcome(current(s, m.name), m.name, v, m.on_conflict),
            ),
        },
        Some(_) => type_check_step(s, masks_file(), STRING_TYPE_LINE, "expected string for "@ + m.name),
        None => match m.default {
            Some(d) => default_step(s, m.name, JsonV::String(d)),
            None => s,
        },
    }
}

/// What a string enum mask does to a report, given the model's output `ir`:
/// a true flag reports the value it stands for.
pub open spec fn enum_mask_step(s: ReportV, m: StringEnumMaskV, ir: JsonV) -> ReportV {
    match json_get(ir, m.mask) {
        Some(JsonV::Bool(b)) => if b {
            match m.value {
                Some(v) => report_step(
                    s,
                    m.policy_index,
                    m.name,
                    v,
                    enum_outcome(current(s, m.name), m.name, v, Seq::empty(), m.on_conflict),
                ),
                None => conflict_step(
                    index_step(s, m.policy_index),
                    ConflictV::StringConflict { field: m.name, val1: "true"@, val2: "null"@ },
                ),
            }
        } else {
            match m.default {
                Some(d) => default_step(s, m.name, JsonV::String(d)),
                None => s,
            }
        },
        Some(_) => type_check_step(s, masks_file(), ENUM_TYPE_LINE, "expected string for "@ + m.name),
        None => match m.default {
            Some(d) => default_step(s, m.name, JsonV::String(d)),
            None => s,
        },
    }
}

/// The strings of a value: the value itself for a string, those of its
/// elements in order for an array, nested at most `depth` deep; nothing for
/// any other value.
pub open spec fn extract_strings(v: JsonV, depth: nat) -> Option<Seq<Seq<char>>>
    decreases depth, 0nat,
{
    if depth == 0 {
        None
    } else {
        match v {
            JsonV::String(s) => Some(seq![s]),
            JsonV::Array(a) => extract_all(a, (depth - 1) as nat),
            _ => None,
        }
    }
}

/// The strings of each element of `a`, concatenated.
pub open spec fn extract_all(a: Seq<JsonV>, depth: nat) -> Option<Seq<Seq<char>>>
    decreases depth, a.len(),
{
    if a.len() == 0 {
        Some(Seq::empty())
    } else {
        match extract_all(a.drop_last(), depth) {
            Some(x) => match extract_strings(a.last(), depth) {
                Some(y) => Some(x + y),
                None => None,
            },
            None => None,
        }
    }
}

/// Reports each string of `strs` to an array field, in order.
pub open spec fn array_reports(s: ReportV, idx: usize, field: Seq<char>, strs: Seq<Seq<char>>) -> ReportV
    decreases strs.len(),
{
    if strs.len() == 0 {
        s
    } else {
        let p = array_reports(s, idx, field, strs.drop_last());
        report_step(p, idx, field, strs.last(), array_outcome(current(p, field), strs.last()))
    }
}

/// What a string array mask does to a report, given the model's output `ir`.
pub open spec fn array_mask_step(s: ReportV, m: StringArrayMaskV, ir: JsonV) -> ReportV {
    match json_get(ir, m.mask) {
        Some(v) => match extract_strings(v, 128) {
            Some(strs) => if strs.len() == 0 {
                apply_outcome(s, m.policy_index, m.name, empty_array_outcome(current(s, m.name)))
            } else {
                array_reports(s, m.policy_index, m.name, strs)
            },
            None => type_check_step(s, masks_file(), ARRAY_TYPE_LINE, "expected [string] for "@ + m.name),
        },
        None => s,
    }
}

/// The number of strings in a value, counting those nested in arrays and
/// held by the members of objects.
pub open spec fn string_count(v: JsonV) -> nat
    decreases v,
{
    match v {
        JsonV::String(_) => 1,
        JsonV::Array(a) => string_count_all(a),
        JsonV::Object(m) => string_count_members(m),
        _ => 0,
    }
}

/// The number of strings in the values of the members `m`.
pub open spec fn string_count_members(m: Seq<(Seq<char>, JsonV)>) -> nat
    decreases m,
{
    if m.len() == 0 {
        0
    } else {
        proof {
            assert(decreases_to!(m => m[m.len() - 1]));
            assert(decreases_to!(m[m.len() - 1] => m[m.len() - 1].1));
        }
        string_count_members(m.drop_last()) + string_count(m[m.len() - 1].1)
    }
}

proof fn lemma_member_count(m: Seq<(Seq<char>, JsonV)>, k: Seq<char>)
    ensures
        crate::json::obj_get(m, k) matches Some(v) ==> string_count(v) <= string_count_members(m),
    decreases m.len(),
{
    if m.len() > 0 {
        lemma_member_count(m.drop_last(), k);
        crate::json::lemma_key_index(m, k);
        crate::json::lemma_key_index(m.drop_last(), k);
        if crate::json::key_index(m.drop_last(), k) >= 0 {
            let i = crate::json::key_index(m.drop_last(), k);
            assert(m[i] == m.drop_last()[i]);
        }
    }
}

/// A member of an object holds no more strings than the object.
pub proof fn lemma_get_count(ir: JsonV, k: Seq<char>)
    ensures
        json_get(ir, k) matches Some(v) ==> string_count(v) <= string_count(ir),
{
    if let JsonV::Object(m) = ir {
        lemma_member_count(m, k);
    }
}

/// The number of strings in the elements of `a`.
pub open spec fn string_count_all(a: Seq<JsonV>) -> nat
    decreases a,
{
    if a.len() == 0 {
        0
    } else {
        proof {
            assert(decreases_to!(a => a[a.len() - 1]));
        }
        string_count_all(a.drop_last()) + string_count(a[a.len() - 1])
    }
}

proof fn lemma_extract_count(v: JsonV, depth: nat)
    ensures
        extract_strings(v, depth) matches Some(ss) ==> ss.len() <= string_count(v),
    decreases depth, 0nat,
{
    if depth > 0 {
        if let JsonV::Array(a) = v {
            lemma_extract_all_count(a, (depth - 1) as nat);
        }
    }
}

proof fn lemma_extract_all_count(a: Seq<JsonV>, depth: nat)
    ensures
        extract_all(a, depth) matches Some(ss) ==> ss.len() <= string_count_all(a),
    decreases depth, a.len(),
{
    if a.len() > 0 {
        lemma_extract_all_count(a.drop_last(), depth);
        lemma_extract_count(a.last(), depth);
    }
}


proof fn lemma_extract_all_none(a: Seq<JsonV>, depth: nat, j: int)
    requires
        0 <= j <= a.len(),
        extract_all(a.take(j), depth) is None,
    ensures
        extract_all(a, depth) is None,
    decreases a.len() - j,
{
    if j < a.len() {
        assert(a.take(j + 1).drop_last() =~= a.take(j));
        lemma_extract_all_none(a, depth, j + 1);
    } else {
        assert(a.take(j) =~= a);
    }
}

/// The number of strings a value holds, where it fits in a `usize`.
pub fn count_strings(v: &Json) -> (r: Option<usize>)
    ensures
        match r {
            Some(n) => n == string_count(v@),
            None => string_count(v@) > usize::MAX,
        },
    decreases v,
{
    match v {
        Json::String(_) => Some(1),
        Json::Array(a) => {
            let ghost av = v@->Array_0;
            proof {
                assert forall|j: int| 0 <= j < a@.len() implies decreases_to!(*v => #[trigger] a@[j]) by {
                    assert(decreases_to!(v => a));
                    assert(decreases_to!(a => a@));
                    assert(decreases_to!(a@ => a@[j]));
                }
            }
            let mut total: usize = 0;
            let mut i: usize = 0;
            while i < a.len()
                invariant
                    forall|j: int| 0 <= j < a@.len() ==> decreases_to!(*v => #[trigger] a@[j]),
                    0 <= i <= a@.len(),
                    v@ == JsonV::Array(av),
                    av.len() == a@.len(),
                    forall|j: int| 0 <= j < a@.len() ==> av[j] == (#[trigger] a@[j])@,
                    total == string_count_all(av.take(i as int)),
                decreases a@.len() - i,
            {
                assert(av.take(i + 1).drop_last() =~= av.take(i as int));
                let c = count_strings(&a[i]);
                match c {
                    Some(n) => match total.checked_add(n) {
                        Some(t) => {
                            total = t;
                        },
                        None => {
                            proof {
                                assert(av.take(i + 1).last() == av[i as int]);
                                lemma_count_all_prefix(av, i as int + 1);
                            }
                            return None;
                        },
                    },
                    None => {
                        proof {
                            assert(av.take(i + 1).last() == av[i as int]);
                            lemma_count_all_prefix(av, i as int + 1);
                        }
                        return None;
                    },
                }
                i = i + 1;
            }
            assert(av.take(i as int) =~= av);
            Some(total)
        },
        Json::Object(m) => {
            let ghost mv = v@->Object_0;
            proof {
                assert forall|j: int| 0 <= j < m@.len() implies decreases_to!(*v => #[trigger] m@[j].1) by {
                    assert(decreases_to!(v => m));
                    assert(decreases_to!(m => m@));
                    assert(decreases_to!(m@ => m@[j]));
                    assert(decreases_to!(m@[j] => m@[j].1));
                }
            }
            let mut total: usize = 0;
            let mut i: usize = 0;
            while i < m.len()
                invariant
                    forall|j: int| 0 <= j < m@.len() ==> decreases_to!(*v => #[trigger] m@[j].1),
                    0 <= i <= m@.len(),
                    v@ == JsonV::Object(mv),
                    mv.len() == m@.len(),
                    forall|j: int| 0 <= j < m@.len() ==> mv[j].1 == (#[trigger] m@[j]).1@,
                    total == string_count_members(mv.take(i as int)),
                decreases m@.len() - i,
            {
                assert(mv.take(i + 1).drop_last() =~= mv.take(i as int));
                let c = count_strings(&m[i].1);
                match c {
                    Some(n) => match total.checked_add(n) {
                        Some(t) => {
                            total = t;
                        },
                        None => {
                            proof {
                                assert(mv.take(i + 1).last() == mv[i as int]);
                                lemma_count_members_prefix(mv, i as int + 1);
                            }
                            return None;
                        },
                    },
                    None => {
                        proof {
                            assert(mv.take(i + 1).last() == mv[i as int]);
                            lemma_count_members_prefix(mv, i as int + 1);
                        }
                        return None;
                    },
                }
                i = i + 1;
            }
            assert(mv.take(i as int) =~= mv);
            Some(total)
        },
        _ => Some(0),
    }
}

proof fn lemma_count_all_prefix(a: Seq<JsonV>, j: int)
    requires
        0 <= j <= a.len(),
    ensures
        string_count_all(a.take(j)) <= string_count_all(a),
    decreases a.len() - j,
{
    if j < a.len() {
        lemma_count_all_prefix(a, j + 1);
        assert(a.take(j + 1).drop_last() =~= a.take(j));
    } else {
        assert(a.take(j) =~= a);
    }
}

proof fn lemma_count_members_prefix(m: Seq<(Seq<char>, JsonV)>, j: int)
    requires
        0 <= j <= m.len(),
    ensures
        string_count_members(m.take(j)) <= string_count_members(m),
    decreases m.len() - j,
{
    if j < m.len() {
        lemma_count_members_prefix(m, j + 1);
        assert(m.take(j + 1).drop_last() =~= m.take(j));
    } else {
        assert(m.take(j) =~= m);
    }
}

/// The strings of a value, as `extract_strings` defines them.
fn extract_strings_of(value: &Json, depth: usize) -> (r: Option<Vec<String>>)
    ensures
        match extract_strings(value@, depth as nat) {
            Some(ss) => r matches Some(v) && v.deep_view() == ss,
            None => r is None,
        },
    decreases depth,
{
    if depth == 0 {
        return None;
    }
    match value {
        Json::String(s) => {
            let mut v: Vec<String> = Vec::new();
            v.push(s.clone());
            assert(v.deep_view() =~= seq![s@]);
            Some(v)
        },
        Json::Array(a) => {
            let ghost av = value@->Array_0;
            assert(av.len() == a@.len());
            assert(forall|j: int| 0 <= j < a@.len() ==> av[j] == (#[trigger] a@[j])@);
            let mut all: Vec<String> = Vec::new();
            let mut i: usize = 0;
            assert(av.take(0) =~= Seq::<JsonV>::empty());
            while i < a.len()
                invariant
                    0 <= i <= a@.len(),
                    depth > 0,
                    value@ == JsonV::Array(av),
                    av.len() == a@.len(),
                    forall|j: int| 0 <= j < a@.len() ==> av[j] == (#[trigger] a@[j])@,
                    extract_all(av.take(i as int), (depth - 1) as nat) == Some(all.deep_view()),
                decreases a@.len() - i,
            {
                assert(av.take(i + 1).drop_last() =~= av.take(i as int));
                assert(av.take(i + 1).last() == a@[i as int]@);
                match extract_strings_of(&a[i], depth - 1) {
                    Some(more) => {
                        let ghost before = all.deep_view();
                        let mut k: usize = 0;
                        while k < more.len()
                            invariant
                                0 <= k <= more@.len(),
                                all.deep_view() == before + more.deep_view().take(k as int),
                            decreases more@.len() - k,
                        {
                            let ghost prev = all.deep_view();
                            let item = more[k].clone();
                            assert(item@ == more.deep_view()[k as int]);
                            all.push(item);
                            assert(all.deep_view() =~= prev.push(item@));
                            assert(more.deep_view().take(k + 1) =~= more.deep_view().take(k as int).push(more.deep_view()[k as int]));
                            assert(all.deep_view() =~= before + more.deep_view().take(k + 1));
                            k = k + 1;
                        }
                        assert(more.deep_view().take(k as int) =~= more.deep_view());
                    },
                    None => {
                        proof {
                            assert(extract_strings(a@[i as int]@, (depth - 1) as nat) is None);
                            assert(extract_all(av.take(i + 1), (depth - 1) as nat) is None);
                            lemma_extract_all_none(av, (depth - 1) as nat, i as int + 1);
                            assert(value@ == JsonV::Array(av));
                            assert(extract_strings(value@, depth as nat) == extract_all(av, (depth - 1) as nat));
                        }
                        return None;
                    },
                }
                i = i + 1;
            }
            assert(av.take(i as int) =~= av);
            Some(all)
        },
        _ => None,
    }
}

impl BoolMask {
    /// Reads this mask's field from the model's output into a report.
    pub fn apply_to(&self, ir: &Json, report: &mut Report)
        requires
            old(report).wf(),
            old(report).state().rules_matched.len() < usize::MAX,
        ensures
            final(report).wf(),
            final(report).setup() == old(report).setup(),
            final(report).state() == bool_mask_step(old(report).state(), self@, ir@),
    {
        match ir.get(self.mask.as_str()) {
            Some(Json::Bool(ret)) => {
                report.report_bool(self.policy_index, self.name.as_str(), *ret, self.on_conflict);
            },
            Some(_) => {
                let m = message("expected boolean for ", self.name.as_str());
                report.report_type_check_failure("src/masks.rs", BOOL_TYPE_LINE, m.as_str());
            },
            None => {
                if let Some(v) = self.default {
                    report.report_bool_default(self.name.as_str(), v);
                }
            },
        }
    }
}

impl NumberMask {
    /// Reads this mask's field from the model's output into a report; a
    /// number other than the one the policy sets is a conflict.
    pub fn apply_to(&self, ir: &Json, report: &mut Report)
        requires
            old(report).wf(),
            old(report).state().rules_matched.len() < usize::MAX,
        ensures
            final(report).wf(),
            final(report).setup() == old(report).setup(),
            final(report).state() == number_mask_step(old(report).state(), self@, ir@),
    {
        match ir.get(self.mask.as_str()) {
            Some(Json::Number(value)) => {
                match &self.value {
                    Some(expected) => {
                        if crate::number::number_is_equal(value, expected) {
                            report.report_number(self.policy_index, self.name.as_str(), value.copy(), self.on_conflict);
                        } else {
                            report.report_policy_index(self.policy_index);
                            report.report_number_conflict(self.name.as_str(), value.copy(), expected.copy());
                        }
                    },
                    None => {
                        report.report_number(self.policy_index, self.name.as_str(), value.copy(), self.on_conflict);
                    },
                }
            },
            Some(_) => {
                let m = message("expected number for ", self.name.as_str());
                report.report_type_check_failure("src/masks.rs", NUMBER_TYPE_LINE, m.as_str());
            },
            None => {
                if let Some(default) = &self.default {
                    if crate::number::check_number_text(default.as_str()) {
                        report.report_number_default(self.name.as_str(), default.copy());
                    } else {
                        report.report_invariant_violation("src/masks.rs", NUMBER_DEFAULT_LINE, "cannot cast to number");
                    }
                }
            },
        }
    }
}

impl StringMask {
    /// Reads this mask's field from the model's output into a report; a
    /// string other than the one the policy sets is a conflict.
    pub fn apply_to(&self, ir: &Json, report: &mut Report)
        requires
            old(report).wf(),
            old(report).state().rules_matched.len() < usize::MAX,
        ensures
            final(report).wf(),
            final(report).setup() == old(report).setup(),
            final(report).state() == string_mask_step(old(report).state(), self@, ir@),
    {
        match ir.get(self.mask.as_str()) {
            Some(Json::String(value)) => {
                match &self.value {
                    Some(expected) => {
                        if text_eq(value.as_str(), expected.as_str()) {
                            report.report_string(self.policy_index, self.name.as_str(), value.clone(), self.on_conflict);
                        } else {
                            report.report_policy_index(self.policy_index);
                            report.report_string_conflict(self.name.as_str(), value.clone(), expected.clone());
                        }
                    },
                    None => {
                        report.report_string(self.policy_index, self.name.as_str(), value.clone(), self.on_conflict);
                    },
                }
            },
            Some(_) => {
                let m = message("expected string for ", self.name.as_str());
                report.report_type_check_failure("src/masks.rs", STRING_TYPE_LINE, m.as_str());
            },
            None => {
                if let Some(default) = &self.default {
                    report.report_string_default(self.name.as_str(), default.as_str());
                }
            },
        }
    }
}

impl StringEnumMask {
    /// Reads this mask's flag from the model's output into a report: a true
    /// flag reports the enum value it stands for.
    pub fn apply_to(&self, ir: &Json, report: &mut Report)
        requires
            old(report).wf(),
            old(report).state().rules_matched.len() < usize::MAX,
        ensures
            final(report).wf(),
            final(report).setup() == old(report).setup(),
            final(report).state() == enum_mask_step(old(report).state(), self@, ir@),
    {
        match ir.get(self.mask.as_str()) {
            Some(Json::Bool(value)) => {
                if *value {
                    match &self.value {
                        Some(enum_value) => {
                            let no_values: Vec<String> = Vec::new();
                            assert(no_values.deep_view() =~= Seq::<Seq<char>>::empty());
                            report.report_string_enum(
                                self.policy_index,
                                self.name.as_str(),
                                enum_value.clone(),
                                &no_values,
                                self.on_conflict,
                            );
                        },
                        None => {
                            report.report_policy_index(self.policy_index);
                            report.report_string_enum_conflict(self.name.as_str(), string_of("true"), string_of("null"));
                        },
                    }
                } else if let Some(default) = &self.default {
                    report.report_string_default(self.name.as_str(), default.as_str());
                }
            },
            Some(_) => {
                let m = message("expected string for ", self.name.as_str());
                report.report_type_check_failure("src/masks.rs", ENUM_TYPE_LINE, m.as_str());
            },
            None => {
                if let Some(default) = &self.default {
                    report.report_string_default(self.name.as_str(), default.as_str());
                }
            },
        }
    }
}

impl StringArrayMask {
    /// Reads this mask's strings from the model's output into a report,
    /// each once; an empty list makes the field an empty array.
    pub fn apply_to(&self, ir: &Json, report: &mut Report)
        requires
            old(report).wf(),
            old(report).state().rules_matched.len() + string_count(ir@) < usize::MAX,
        ensures
            final(report).wf(),
            final(report).setup() == old(report).setup(),
            final(report).state() == array_mask_step(old(report).state(), self@, ir@),
            final(report).state().rules_matched.len() <= old(report).state().rules_matched.len() + 1
                + string_count(ir@),
    {
        proof {
            lemma_get_count(ir@, self.mask@);
        }
        if let Some(reported) = ir.get(self.mask.as_str()) {
            proof {
                lemma_extract_count(reported@, 128);
            }
            match extract_strings_of(reported, 128) {
                Some(strings) => {
                    if strings.len() == 0 {
                        report.init_empty_string_array(self.policy_index, self.name.as_str());
                    } else {
                        let ghost s0 = report.state();
                        let ghost ss = strings.deep_view();
                        let mut i: usize = 0;
                        assert(ss.take(0) =~= Seq::<Seq<char>>::empty());
                        while i < strings.len()
                            invariant
                                0 <= i <= strings@.len(),
                                ss == strings.deep_view(),
                                ss.len() <= string_count(ir@),
                                s0.rules_matched.len() + string_count(ir@) < usize::MAX,
                                report.wf(),
                                report.setup() == old(report).setup(),
                                report.state() == array_reports(s0, self.policy_index, self.name@, ss.take(i as int)),
                                report.state().rules_matched.len() == s0.rules_matched.len() + i,
                            decreases strings@.len() - i,
                        {
                            assert(ss.take(i + 1).drop_last() =~= ss.take(i as int));
                            report.report_string_array(self.policy_index, self.name.as_str(), strings[i].clone());
                            i = i + 1;
                        }
                        assert(ss.take(i as int) =~= ss);
                    }
                },
                None => {
                    let m = message("expected [string] for ", self.name.as_str());
                    report.report_type_check_failure("src/masks.rs", ARRAY_TYPE_LINE, m.as_str());
                },
            }
        }
    }
}

// ------------------------------------------------------------------ laws

proof fn lemma_extract_flat(ss: Seq<Seq<char>>, depth: nat)
    requires
        depth >= 1,
    ensures
        extract_all(Seq::new(ss.len(), |i: int| JsonV::String(ss[i])), depth) == Some(ss),
    decreases ss.len(),
{
    let a = Seq::new(ss.len(), |i: int| JsonV::String(ss[i]));
    if ss.len() > 0 {
        let prev = ss.drop_last();
        lemma_extract_flat(prev, depth);
        assert(a.drop_last() =~= Seq::new(prev.len(), |i: int| JsonV::String(prev[i])));
        assert(extract_strings(a.last(), depth) == Some(seq![ss.last()]));
        assert(prev + seq![ss.last()] =~= ss);
    } else {
        assert(ss =~= Seq::<Seq<char>>::empty());
    }
}

proof fn lemma_array_reports(s: ReportV, idx: usize, field: Seq<char>, strs: Seq<Seq<char>>)
    requires
        strs.len() > 0,
    ensures
        ({
            let t = array_reports(s, idx, field, strs);
            &&& current(t, field) matches Some(JsonV::Array(a)) && forall|i: int|
                0 <= i < strs.len() ==> a.contains(JsonV::String(#[trigger] strs[i]))
            &&& t.errors == s.errors
            &&& t.conflicts == s.conflicts
        }),
    decreases strs.len(),
{
    let prev = strs.drop_last();
    let p = array_reports(s, idx, field, prev);
    let x = strs.last();
    let o = array_outcome(current(p, field), x);
    lemma_current_after(p, idx, field, x, o);
    if prev.len() > 0 {
        lemma_array_reports(s, idx, field, prev);
        let a = current(p, field)->Some_0->Array_0;
        if !a.contains(JsonV::String(x)) {
            let b = a.push(JsonV::String(x));
            assert forall|i: int| 0 <= i < strs.len() implies b.contains(JsonV::String(#[trigger] strs[i])) by {
                if i < prev.len() {
                    assert(prev[i] == strs[i]);
                    assert(a.contains(JsonV::String(prev[i])));
                    let j = choose|j: int| 0 <= j < a.len() && a[j] == JsonV::String(prev[i]);
                    assert(b[j] == a[j]);
                } else {
                    assert(b[a.len() as int] == JsonV::String(x));
                }
            }
        } else {
            assert forall|i: int| 0 <= i < strs.len() implies a.contains(JsonV::String(#[trigger] strs[i])) by {
                if i < prev.len() {
                    assert(prev[i] == strs[i]);
                }
            }
        }
    } else {
        match current(p, field) {
            Some(JsonV::Array(a)) => {
                if !a.contains(JsonV::String(x)) {
                    assert(a.push(JsonV::String(x))[a.len() as int] == JsonV::String(x));
                }
            },
            _ => {
                assert(seq![JsonV::String(x)][0] == JsonV::String(x));
            },
        }
    }
}

/// A string array mask keeps every string of the answer: when the answer
/// gives the mask a non-empty array of strings, the field ends up an array
/// that holds each of them, and no error or conflict is recorded.
pub proof fn law_array_mask_keeps_every_string(s: ReportV, m: StringArrayMaskV, ir: JsonV, ss: Seq<Seq<char>>)
    requires
        ss.len() > 0,
        json_get(ir, m.mask) == Some(JsonV::Array(Seq::new(ss.len(), |i: int| JsonV::String(ss[i])))),
    ensures
        ({
            let t = array_mask_step(s, m, ir);
            &&& current(t, m.name) matches Some(JsonV::Array(a)) && forall|i: int|
                0 <= i < ss.len() ==> a.contains(JsonV::String(#[trigger] ss[i]))
            &&& t.errors == s.errors
            &&& t.conflicts == s.conflicts
        }),
{
    lemma_extract_flat(ss, 127);
    lemma_array_reports(s, m.policy_index, m.name, ss);
}

/// A string mask resolves a value that differs from the field's current
/// string by its own strategy: under `Agreement` the current string stays
/// and the conflict between the two is recorded; under `Default` the new
/// string is taken; under `LargestValue` the longer one (in UTF-8 bytes)
/// stays.  Either way the policy is recorded as matched.
pub proof fn law_string_mask_resolves_by_its_strategy(s: ReportV, m: StringMaskV, ir: JsonV, a: Seq<char>, v: Seq<char>)
    requires
        json_get(ir, m.mask) == Some(JsonV::String(v)),
        m.value is None || m.value == Some(v),
        current(s, m.name) == Some(JsonV::String(a)),
        a != v,
    ensures
        ({
            let t = string_mask_step(s, m, ir);
            &&& t.rules_matched == s.rules_matched.push(m.policy_index)
            &&& t.errors == s.errors
            &&& m.on_conflict == OnConflict::Agreement ==> current(t, m.name) == Some(JsonV::String(a))
                && t.conflicts == s.conflicts.push(ConflictV::StringConflict { field: m.name, val1: a, val2: v })
            &&& m.on_conflict == OnConflict::Default ==> current(t, m.name) == Some(JsonV::String(v))
                && t.conflicts == s.conflicts
            &&& m.on_conflict == OnConflict::LargestValue ==> t.conflicts == s.conflicts && current(t, m.name)
                == Some(JsonV::String(if crate::report::byte_len(v) > crate::report::byte_len(a) { v } else { a }))
        }),
{
    let o = string_outcome(current(s, m.name), m.name, v, m.on_conflict);
    lemma_current_after(s, m.policy_index, m.name, v, o);
}

/// A string mask whose expected value differs from the answer records the
/// conflict between them and matches the policy, and leaves the field as it is.
pub proof fn law_string_mask_mismatch(s: ReportV, m: StringMaskV, ir: JsonV, v: Seq<char>, expected: Seq<char>)
    requires
        json_get(ir, m.mask) == Some(JsonV::String(v)),
        m.value == Some(expected),
        v != expected,
    ensures
        ({
            let t = string_mask_step(s, m, ir);
            &&& t.rules_matched == s.rules_matched.push(m.policy_index)
            &&& t.conflicts == s.conflicts.push(ConflictV::StringConflict { field: m.name, val1: v, val2: expected })
            &&& current(t, m.name) == current(s, m.name)
            &&& t.errors == s.errors
        }),
{
}

/// A string enum mask reads its flag: a true flag reports the value the mask
/// stands for, so a field with no value, or with that value, holds it
/// afterwards, and under `Default` the field takes it whatever string it
/// held; a false flag never reports it: the field's value and the matched
/// rules stay as they are.
pub proof fn law_enum_mask_flag(s: ReportV, m: StringEnumMaskV, ir: JsonV, b: bool, v: Seq<char>)
    requires
        json_get(ir, m.mask) == Some(JsonV::Bool(b)),
        m.value == Some(v),
    ensures
        ({
            let t = enum_mask_step(s, m, ir);
            &&& b ==> t.rules_matched == s.rules_matched.push(m.policy_index)
            &&& b && (current(s, m.name) is None || current(s, m.name) == Some(JsonV::Null) || current(s, m.name)
                == Some(JsonV::String(v))) ==> current(t, m.name) == Some(JsonV::String(v))
            &&& b && m.on_conflict == OnConflict::Default && (current(s, m.name) matches Some(JsonV::String(_)))
                ==> current(t, m.name) == Some(JsonV::String(v))
            &&& !b ==> t.rules_matched == s.rules_matched && current(t, m.name) == current(s, m.name)
                && t.conflicts == s.conflicts
        }),
{
    if b {
        let o = enum_outcome(current(s, m.name), m.name, v, Seq::empty(), m.on_conflict);
        lemma_current_after(s, m.policy_index, m.name, v, o);
    }
}

/// A boolean mask resolves an answer that differs from the field's current
/// value by its own strategy: under `Agreement` the current value stays and
/// the conflict is recorded; under `Default` the answer is taken; under
/// `LargestValue` the field becomes `true`.  A field with no value takes the
/// answer.  Either way the policy is recorded as matched.
pub proof fn law_bool_mask_resolves_by_its_strategy(s: ReportV, m: BoolMaskV, ir: JsonV, v: bool)
    requires
        json_get(ir, m.mask) == Some(JsonV::Bool(v)),
    ensures
        ({
            let t = bool_mask_step(s, m, ir);
            &&& t.rules_matched == s.rules_matched.push(m.policy_index)
            &&& (current(s, m.name) is None || current(s, m.name) matches Some(JsonV::Bool(_))) ==> t.errors == s.errors
            &&& current(s, m.name) is None ==> current(t, m.name) == Some(JsonV::Bool(v)) && t.conflicts == s.conflicts
            &&& current(s, m.name) == Some(JsonV::Bool(!v)) ==> {
                &&& m.on_conflict == OnConflict::Agreement ==> current(t, m.name) == Some(JsonV::Bool(!v))
                    && t.conflicts == s.conflicts.push(ConflictV::BoolConflict { field: m.name, val1: !v, val2: v })
                &&& m.on_conflict == OnConflict::Default ==> current(t, m.name) == Some(JsonV::Bool(v))
                    && t.conflicts == s.conflicts
                &&& m.on_conflict == OnConflict::LargestValue ==> current(t, m.name) == Some(JsonV::Bool(true))
                    && t.conflicts == s.conflicts
            }
        }),
{
    let o = bool_outcome(current(s, m.name), m.name, v, m.on_conflict);
    lemma_current_after(s, m.policy_index, m.name, crate::report::stats_key(JsonV::Bool(v)), o);
}

/// A numeric mask resolves an answer that agrees with its expected value
/// but differs by value from the field's current number by its own
/// strategy: under `Agreement` the current number stays and the conflict is
/// recorded; under `Default` the answer is taken; under `LargestValue` the
/// larger stays.  A field with no value takes the answer.  An answer that
/// differs from the expected value records that conflict and leaves the
/// field as it is.  The policy is recorded as matched in every case.
pub proof fn law_number_mask_resolves_by_its_strategy(s: ReportV, m: NumberMaskV, ir: JsonV, v: Seq<char>)
    requires
        json_get(ir, m.mask) == Some(JsonV::Number(v)),
    ensures
        ({
            let t = number_mask_step(s, m, ir);
            let agrees = m.value matches Some(e) ==> numbers_equal(v, e);
            &&& t.rules_matched == s.rules_matched.push(m.policy_index)
            &&& (current(s, m.name) is None || current(s, m.name) matches Some(JsonV::Number(_))) ==> t.errors == s.errors
            &&& (m.value matches Some(e) && !numbers_equal(v, e)) ==> current(t, m.name) == current(s, m.name)
                && t.conflicts == s.conflicts.push(ConflictV::NumberConflict { field: m.name, val1: v, val2: m.value->Some_0 })
            &&& agrees && current(s, m.name) is None ==> current(t, m.name) == Some(JsonV::Number(v))
                && t.conflicts == s.conflicts
            &&& agrees && (current(s, m.name) matches Some(JsonV::Number(a)) && !numbers_equal(a, v)) ==> {
                let a = current(s, m.name)->Some_0->Number_0;
                &&& m.on_conflict == OnConflict::Agreement ==> current(t, m.name) == current(s, m.name)
                    && t.conflicts == s.conflicts.push(ConflictV::NumberConflict { field: m.name, val1: a, val2: v })
                &&& m.on_conflict == OnConflict::Default ==> current(t, m.name) == Some(JsonV::Number(v))
                    && t.conflicts == s.conflicts
                &&& m.on_conflict == OnConflict::LargestValue ==> t.conflicts == s.conflicts && current(t, m.name)
                    == Some(JsonV::Number(if crate::report::number_smaller(a, v) { v } else { a }))
            }
        }),
{
    let o = number_outcome(current(s, m.name), m.name, v, m.on_conflict);
    lemma_current_after(s, m.policy_index, m.name, crate::report::stats_key(JsonV::Number(v)), o);
}

/// A string mask fills a field with no value with the answer.
pub proof fn law_string_mask_fills_empty_field(s: ReportV, m: StringMaskV, ir: JsonV, v: Seq<char>)
    requires
        json_get(ir, m.mask) == Some(JsonV::String(v)),
        m.value is None || m.value == Some(v),
        current(s, m.name) is None,
    ensures
        current(string_mask_step(s, m, ir), m.name) == Some(JsonV::String(v)),
        string_mask_step(s, m, ir).rules_matched == s.rules_matched.push(m.policy_index),
        string_mask_step(s, m, ir).conflicts == s.conflicts,
{
    let o = string_outcome(current(s, m.name), m.name, v, m.on_conflict);
    lemma_current_after(s, m.policy_index, m.name, v, o);
}

/// An answer that leaves a mask out reports nothing for it: the fields'
/// values, the matched rules and the conflicts stay as they are, and where
/// the mask has a default and the field none yet, the field's default
/// becomes the mask's.
pub proof fn law_absent_mask_reports_default(
    s: ReportV,
    ir: JsonV,
    bm: BoolMaskV,
    sm: StringMaskV,
    em: StringEnumMaskV,
)
    requires
        json_get(ir, bm.mask) is None,
        json_get(ir, sm.mask) is None,
        json_get(ir, em.mask) is None,
        crate::json::obj_get(crate::report::members_of(s.default), bm.name) is None,
        crate::json::obj_get(crate::report::members_of(s.default), sm.name) is None,
        crate::json::obj_get(crate::report::members_of(s.default), em.name) is None,
    ensures
        ({
            let t = bool_mask_step(s, bm, ir);
            &&& t.value == s.value && t.rules_matched == s.rules_matched && t.conflicts == s.conflicts
            &&& bm.default matches Some(d) ==> crate::json::obj_get(crate::report::members_of(t.default), bm.name)
                == Some(JsonV::Bool(d))
        }),
        ({
            let t = string_mask_step(s, sm, ir);
            &&& t.value == s.value && t.rules_matched == s.rules_matched && t.conflicts == s.conflicts
            &&& sm.default matches Some(d) ==> crate::json::obj_get(crate::report::members_of(t.default), sm.name)
                == Some(JsonV::String(d))
        }),
        ({
            let t = enum_mask_step(s, em, ir);
            &&& t.value == s.value && t.rules_matched == s.rules_matched && t.conflicts == s.conflicts
            &&& em.default matches Some(d) ==> crate::json::obj_get(crate::report::members_of(t.default), em.name)
                == Some(JsonV::String(d))
        }),
{
    let d = crate::report::members_of(s.default);
    if let Some(x) = bm.default {
        crate::json::lemma_obj_set_get(d, bm.name, JsonV::Bool(x), bm.name);
    }
    if let Some(x) = sm.default {
        crate::json::lemma_obj_set_get(d, sm.name, JsonV::String(x), sm.name);
    }
    if let Some(x) = em.default {
        crate::json::lemma_obj_set_get(d, em.name, JsonV::String(x), em.name);
    }
}

/// A string array mask that reads an empty array gives a field with no value
/// the empty array, leaves a field with a value as it is, and records the
/// policy as matched.
pub proof fn law_array_mask_empty_answer(s: ReportV, m: StringArrayMaskV, ir: JsonV)
    requires
        json_get(ir, m.mask) == Some(JsonV::Array(Seq::empty())),
    ensures
        ({
            let t = array_mask_step(s, m, ir);
            &&& t.rules_matched == s.rules_matched.push(m.policy_index)
            &&& current(s, m.name) is None ==> current(t, m.name) == Some(JsonV::Array(Seq::empty()))
            &&& current(s, m.name) is Some ==> current(t, m.name) == current(s, m.name)
            &&& t.errors == s.errors
            &&& t.conflicts == s.conflicts
        }),
{
    assert(extract_strings(JsonV::Array(Seq::empty()), 128) == Some(Seq::<Seq<char>>::empty()));
    let o = empty_array_outcome(current(s, m.name));
    lemma_current_after(s, m.policy_index, m.name, Seq::empty(), o);
}

} // verus!
