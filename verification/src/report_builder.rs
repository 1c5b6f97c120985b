//! Builds the request for a set of policies and reads the model's output back.
use vstd::prelude::*;

use crate::errors::{json_type_name, ApplyError, PolicyError, PolicyErrorV};
use crate::field::{field_name, Field, FieldV};
use crate::json::{json_get, obj_set, obj_view, Json, JsonNumber, JsonV};
use crate::masking::{mask_text, next_position, MaskGenerator};
use crate::masks::{
    array_mask_step, bool_mask_step, enum_mask_step, number_mask_step, string_count, string_mask_step,
    BoolMask, BoolMaskV, NumberMask, NumberMaskV, StringArrayMask, StringArrayMaskV, StringEnumMask,
    StringEnumMaskV, StringMask, StringMaskV,
};
use crate::message::{messages_view, push_or_merge, push_or_merge_message, Message, MessageRole, MessageV};
use crate::policy::{Policy, PolicyV};
use crate::report::{fold_set, Report, ReportV};
use crate::text::{debug_quoted, debug_string, decimal, push_decimal, push_text, replace_all, str_replace, string_of};

verus! {

// ------------------------------------------------------------------ schemas

/// The schema `{"type": t}`.
pub open spec fn type_schema(t: Seq<char>) -> JsonV {
    JsonV::Object(seq![("type"@, JsonV::String(t))])
}

/// The schema of an array whose items have schema `items`.
pub open spec fn array_schema(items: JsonV) -> JsonV {
    JsonV::Object(seq![("type"@, JsonV::String("array"@)), ("items"@, items)])
}

/// The schema `{"type": t}`.
pub(crate) fn type_schema_of(t: &str) -> (r: Json)
    ensures
        r@ == type_schema(t@),
{
    let mut m: Vec<(String, Json)> = Vec::new();
    let k = string_of("type");
    let v = Json::String(string_of(t));
    assert(v@ == JsonV::String(t@));
    m.push((k, v));
    let r = Json::Object(m);
    assert(r@->Object_0[0] == (m@[0].0@, m@[0].1@));
    assert(r@->Object_0 =~= seq![("type"@, JsonV::String(t@))]);
    r
}

/// The schema of an array whose items have schema `items`.
pub(crate) fn array_schema_of(items: Json) -> (r: Json)
    ensures
        r@ == array_schema(items@),
{
    let ghost iv = items@;
    let mut m: Vec<(String, Json)> = Vec::new();
    let v = Json::String(string_of("array"));
    assert(v@ == JsonV::String("array"@));
    m.push((string_of("type"), v));
    m.push((string_of("items"), items));
    let r = Json::Object(m);
    assert(r@->Object_0[0] == (m@[0].0@, m@[0].1@));
    assert(r@->Object_0[1] == (m@[1].0@, m@[1].1@));
    assert(r@->Object_0 =~= seq![("type"@, JsonV::String("array"@)), ("items"@, iv)]);
    r
}

// ------------------------------------------------------------------ model

/// The mathematical state of a report builder.
pub struct BuilderV {
    pub mask_index: usize,
    pub position: u128,
    pub bool_masks: Seq<BoolMaskV>,
    pub number_masks: Seq<NumberMaskV>,
    pub string_masks: Seq<StringMaskV>,
    pub string_array_masks: Seq<StringArrayMaskV>,
    pub string_enum_masks: Seq<StringEnumMaskV>,
    pub masks_by_index: Seq<Seq<Seq<char>>>,
    pub default_return: Seq<(Seq<char>, JsonV)>,
    pub messages: Seq<MessageV>,
    pub policy_index: usize,
    pub required: Seq<Seq<char>>,
    pub properties: Seq<(Seq<char>, JsonV)>,
}

/// What one rule has collected so far.
pub struct RuleAcc {
    pub position: u128,
    pub content: Seq<char>,
    pub default_return: Seq<(Seq<char>, JsonV)>,
    pub bool_masks: Seq<BoolMaskV>,
    pub number_masks: Seq<NumberMaskV>,
    pub string_masks: Seq<StringMaskV>,
    pub string_array_masks: Seq<StringArrayMaskV>,
    pub string_enum_masks: Seq<StringEnumMaskV>,
    pub required: Seq<Seq<char>>,
    pub properties: Seq<(Seq<char>, JsonV)>,
    pub masks: Seq<Seq<char>>,
}

/// `content` with the quoted field name replaced by the quoted mask.
pub open spec fn masked_content(content: Seq<char>, name: Seq<char>, mask: Seq<char>) -> Seq<char> {
    replace_all(content, debug_quoted(name), debug_quoted(mask))
}

/// The first declared value equal to the action's value.
pub open spec fn enum_match(values: Seq<Seq<char>>, v: JsonV) -> Option<Seq<char>>
    decreases values.len(),
{
    if values.len() == 0 {
        None
    } else {
        match enum_match(values.drop_last(), v) {
            Some(x) => Some(x),
            None => if v == JsonV::String(values.last()) {
                Some(values.last())
            } else {
                None
            },
        }
    }
}

/// The first element of an array that is not a string.
pub open spec fn first_non_string(a: Seq<JsonV>) -> Option<JsonV>
    decreases a.len(),
{
    if a.len() == 0 {
        None
    } else {
        match first_non_string(a.drop_last()) {
            Some(x) => Some(x),
            None => if a.last() is String {
                None
            } else {
                Some(a.last())
            },
        }
    }
}

/// The masks taken so far with one more mask generated.
pub open spec fn with_mask(acc: RuleAcc, mask: Seq<char>, name: Seq<char>, dr: JsonV) -> RuleAcc {
    RuleAcc {
        position: next_position(acc.position),
        content: masked_content(acc.content, name, mask),
        default_return: obj_set(acc.default_return, mask, dr),
        masks: acc.masks.push(mask),
        ..acc
    }
}

/// What the field `f` of policy `idx` adds to a rule, or the error it raises.
pub open spec fn field_step(acc: RuleAcc, idx: usize, f: FieldV, action: JsonV) -> Result<RuleAcc, PolicyErrorV> {
    let mask = mask_text(acc.position);
    match json_get(action, field_name(f)) {
        None => Ok(acc),
        Some(v) => match f {
            FieldV::Bool { name, default, on_conflict } => match v {
                JsonV::Bool(b) => {
                    let a = with_mask(acc, mask, name, JsonV::Bool(!b));
                    Ok(
                        RuleAcc {
                            bool_masks: a.bool_masks.push(
                                BoolMaskV { policy_index: idx, name, mask, default: Some(default), on_conflict },
                            ),
                            required: a.required.push(mask),
                            properties: obj_set(a.properties, mask, type_schema("boolean"@)),
                            ..a
                        },
                    )
                },
                _ => Err(PolicyErrorV::ExpectedBool { field_name: name, actual_type: json_type_name(v) }),
            },
            FieldV::Number { name, default, on_conflict } => match v {
                JsonV::Number(n) => {
                    let a = with_mask(acc, mask, name, JsonV::Number(n));
                    Ok(
                        RuleAcc {
                            number_masks: a.number_masks.push(
                                NumberMaskV { policy_index: idx, name, mask, default, value: Some(n), on_conflict },
                            ),
                            required: if default is Some {
                                a.required.push(mask)
                            } else {
                                a.required
                            },
                            properties: obj_set(a.properties, mask, type_schema("number"@)),
                            ..a
                        },
                    )
                },
                _ => Err(PolicyErrorV::ExpectedNumber { field_name: name, actual_type: json_type_name(v) }),
            },
            FieldV::String { name, default, on_conflict } => match v {
                JsonV::String(t) => {
                    let a = with_mask(acc, mask, name, JsonV::String(t));
                    Ok(
                        RuleAcc {
                            string_masks: a.string_masks.push(
                                StringMaskV { policy_index: idx, name, mask, default, value: Some(t), on_conflict },
                            ),
                            required: if default is Some {
                                a.required.push(mask)
                            } else {
                                a.required
                            },
                            properties: obj_set(a.properties, mask, type_schema("string"@)),
                            ..a
                        },
                    )
                },
                _ => Err(PolicyErrorV::ExpectedString { field_name: name, actual_type: json_type_name(v) }),
            },
            FieldV::StringArray { name } => match v {
                JsonV::Array(items) => match first_non_string(items) {
                    Some(bad) => Err(
                        PolicyErrorV::ExpectedString { field_name: name, actual_type: json_type_name(bad) },
                    ),
                    None => {
                        let a = with_mask(acc, mask, name, JsonV::Array(Seq::empty()));
                        Ok(
                            RuleAcc {
                                string_array_masks: a.string_array_masks.push(
                                    StringArrayMaskV { policy_index: idx, name, mask },
                                ),
                                properties: obj_set(a.properties, mask, array_schema(type_schema("string"@))),
                                ..a
                            },
                        )
                    },
                },
                _ => Err(PolicyErrorV::ExpectedString { field_name: name, actual_type: json_type_name(v) }),
            },
            FieldV::StringEnum { name, values, default, on_conflict } => match enum_match(values, v) {
                Some(x) => {
                    let a = with_mask(acc, mask, name, JsonV::Bool(false));
                    Ok(
                        RuleAcc {
                            content: replace_all(a.content, debug_quoted(x), "true"@),
                            string_enum_masks: a.string_enum_masks.push(
                                StringEnumMaskV { policy_index: idx, name, mask, value: Some(x), default, on_conflict },
                            ),
                            required: if default is Some {
                                a.required.push(mask)
                            } else {
                                a.required
                            },
                            properties: obj_set(a.properties, mask, type_schema("boolean"@)),
                            ..a
                        },
                    )
                },
                None => Err(PolicyErrorV::ExpectedString { field_name: name, actual_type: json_type_name(v) }),
            },
        },
    }
}

/// The fields `fs` of policy `idx` in order: what they add to a rule, or the
/// first error together with what was collected before it.
pub open spec fn fields_step(acc: RuleAcc, idx: usize, fs: Seq<FieldV>, action: JsonV) -> Result<RuleAcc, (RuleAcc, PolicyErrorV)>
    decreases fs.len(),
{
    if fs.len() == 0 {
        Ok(acc)
    } else {
        match fields_step(acc, idx, fs.drop_last(), action) {
            Ok(a) => match field_step(a, idx, fs.last(), action) {
                Ok(b) => Ok(b),
                Err(e) => Err((a, e)),
            },
            Err(x) => Err(x),
        }
    }
}

/// The text a rule starts with.
pub open spec fn rule_header(idx: usize, prompt: Seq<char>) -> Seq<char> {
    "Rule #"@ + decimal(idx as nat) + ":\nCriteria: "@ + prompt
}

/// A rule before any field is added.
pub open spec fn rule_start(b: BuilderV, p: PolicyV) -> RuleAcc {
    RuleAcc {
        position: b.position,
        content: rule_header(b.policy_index, p.prompt),
        default_return: b.default_return,
        bool_masks: Seq::empty(),
        number_masks: Seq::empty(),
        string_masks: Seq::empty(),
        string_array_masks: Seq::empty(),
        string_enum_masks: Seq::empty(),
        required: Seq::empty(),
        properties: Seq::empty(),
        masks: Seq::empty(),
    }
}

/// The builder after adding policy `p`, and the error if one was raised.
/// On an error, the masks generated and the default return values set
/// before it stay; nothing else of the rule is kept.
pub open spec fn add_policy_step(b: BuilderV, p: PolicyV) -> (BuilderV, Result<(), PolicyErrorV>) {
    match fields_step(rule_start(b, p), b.policy_index, p.policy_type.fields, p.action) {
        Ok(a) => (
            BuilderV {
                mask_index: (b.mask_index + 1) as usize,
                position: a.position,
                bool_masks: b.bool_masks + a.bool_masks,
                number_masks: b.number_masks + a.number_masks,
                string_masks: b.string_masks + a.string_masks,
                string_array_masks: b.string_array_masks + a.string_array_masks,
                string_enum_masks: b.string_enum_masks + a.string_enum_masks,
                masks_by_index: b.masks_by_index.push(a.masks),
                default_return: a.default_return,
                messages: push_or_merge(
                    b.messages,
                    MessageV { role: MessageRole::User, content: "<rule>"@ + a.content + "</rule>"@ },
                ),
                policy_index: (b.policy_index + 1) as usize,
                required: b.required + a.required,
                properties: fold_set(b.properties, a.properties),
            },
            Ok(()),
        ),
        Err((a, e)) => (
            BuilderV {
                mask_index: (b.mask_index + 1) as usize,
                position: a.position,
                default_return: a.default_return,
                ..b
            },
            Err(e),
        ),
    }
}


// ------------------------------------------------------------------ builder

/// The views of boolean masks.
pub open spec fn bool_masks_view(v: Seq<BoolMask>) -> Seq<BoolMaskV> {
    Seq::new(v.len(), |i: int| v[i]@)
}

/// The views of numeric masks.
pub open spec fn number_masks_view(v: Seq<NumberMask>) -> Seq<NumberMaskV> {
    Seq::new(v.len(), |i: int| v[i]@)
}

/// The views of string masks.
pub open spec fn string_masks_view(v: Seq<StringMask>) -> Seq<StringMaskV> {
    Seq::new(v.len(), |i: int| v[i]@)
}

/// The views of string array masks.
pub open spec fn array_masks_view(v: Seq<StringArrayMask>) -> Seq<StringArrayMaskV> {
    Seq::new(v.len(), |i: int| v[i]@)
}

/// The views of string enum masks.
pub open spec fn enum_masks_view(v: Seq<StringEnumMask>) -> Seq<StringEnumMaskV> {
    Seq::new(v.len(), |i: int| v[i]@)
}

/// Collects the masks of the policies of a request, the rules shown to the
/// model, the schema of its output and the output to assume by default.
#[derive(Debug)]
pub struct ReportBuilder {
    mask_index: usize,
    mask_gen: MaskGenerator,
    bool_masks: Vec<BoolMask>,
    number_masks: Vec<NumberMask>,
    string_masks: Vec<StringMask>,
    string_array_masks: Vec<StringArrayMask>,
    string_enum_masks: Vec<StringEnumMask>,
    masks_by_index: Vec<Vec<String>>,
    default_return: Vec<(String, Json)>,
    messages: Vec<Message>,
    policy_index: usize,
    required: Vec<String>,
    properties: Vec<(String, Json)>,
}

impl View for ReportBuilder {
    type V = BuilderV;

    closed spec fn view(&self) -> BuilderV {
        BuilderV {
            mask_index: self.mask_index,
            position: self.mask_gen.position(),
            bool_masks: bool_masks_view(self.bool_masks@),
            number_masks: number_masks_view(self.number_masks@),
            string_masks: string_masks_view(self.string_masks@),
            string_array_masks: array_masks_view(self.string_array_masks@),
            string_enum_masks: enum_masks_view(self.string_enum_masks@),
            masks_by_index: self.masks_by_index.deep_view(),
            default_return: obj_view(self.default_return@),
            messages: messages_view(self.messages@),
            policy_index: self.policy_index,
            required: self.required.deep_view(),
            properties: obj_view(self.properties@),
        }
    }
}

/// The name of the member that lists the rule numbers the model says matched.
pub open spec fn rule_numbers_name() -> Seq<char> {
    "__rule_numbers__"@
}

impl ReportBuilder {
    /// The state of a new builder: rule numbering from one, and the rule
    /// numbers member required, as an array of numbers.
    pub open spec fn default_view() -> BuilderV {
        BuilderV {
            mask_index: 1,
            position: crate::masking::SEED,
            bool_masks: Seq::empty(),
            number_masks: Seq::empty(),
            string_masks: Seq::empty(),
            string_array_masks: Seq::empty(),
            string_enum_masks: Seq::empty(),
            masks_by_index: Seq::empty(),
            default_return: Seq::empty(),
            messages: Seq::empty(),
            policy_index: 1,
            required: seq![rule_numbers_name()],
            properties: seq![(rule_numbers_name(), array_schema(type_schema("number"@)))],
        }
    }
}

impl Default for ReportBuilder {
    fn default() -> (r: ReportBuilder)
        ensures
            r@ == ReportBuilder::default_view(),
            r@ == (BuilderV {
                mask_index: 1,
                position: crate::masking::SEED,
                bool_masks: Seq::empty(),
                number_masks: Seq::empty(),
                string_masks: Seq::empty(),
                string_array_masks: Seq::empty(),
                string_enum_masks: Seq::empty(),
                masks_by_index: Seq::empty(),
                default_return: Seq::empty(),
                messages: Seq::empty(),
                policy_index: 1,
                required: seq![rule_numbers_name()],
                properties: seq![(rule_numbers_name(), array_schema(type_schema("number"@)))],
            }),
    {
        let mut required: Vec<String> = Vec::new();
        required.push(string_of("__rule_numbers__"));
        let mut properties: Vec<(String, Json)> = Vec::new();
        let schema = array_schema_of(type_schema_of("number"));
        properties.push((string_of("__rule_numbers__"), schema));
        let r = ReportBuilder {
            mask_index: 1,
            mask_gen: MaskGenerator::new(),
            bool_masks: Vec::new(),
            number_masks: Vec::new(),
            string_masks: Vec::new(),
            string_array_masks: Vec::new(),
            string_enum_masks: Vec::new(),
            masks_by_index: Vec::new(),
            default_return: Vec::new(),
            messages: Vec::new(),
            policy_index: 1,
            required,
            properties,
        };
        proof {
            assert(r@.bool_masks =~= Seq::<BoolMaskV>::empty());
            assert(r@.number_masks =~= Seq::<NumberMaskV>::empty());
            assert(r@.string_masks =~= Seq::<StringMaskV>::empty());
            assert(r@.string_array_masks =~= Seq::<StringArrayMaskV>::empty());
            assert(r@.string_enum_masks =~= Seq::<StringEnumMaskV>::empty());
            assert(r@.masks_by_index =~= Seq::<Seq<Seq<char>>>::empty());
            assert(r@.default_return =~= Seq::<(Seq<char>, JsonV)>::empty());
            assert(r@.messages =~= Seq::<MessageV>::empty());
            assert(r@.required =~= seq![rule_numbers_name()]);
            assert(r@.properties =~= seq![(rule_numbers_name(), array_schema(type_schema("number"@)))]);
        }
        r
    }
}

/// What one rule collects while its fields are read.
struct RuleParts {
    content: String,
    bool_masks: Vec<BoolMask>,
    number_masks: Vec<NumberMask>,
    string_masks: Vec<StringMask>,
    string_array_masks: Vec<StringArrayMask>,
    string_enum_masks: Vec<StringEnumMask>,
    required: Vec<String>,
    properties: Vec<(String, Json)>,
    masks: Vec<String>,
}

/// The rule collected so far: the builder's mask position and default
/// return values, and the parts.
spec fn acc_of(b: BuilderV, p: RuleParts) -> RuleAcc {
    RuleAcc {
        position: b.position,
        content: p.content@,
        default_return: b.default_return,
        bool_masks: bool_masks_view(p.bool_masks@),
        number_masks: number_masks_view(p.number_masks@),
        string_masks: string_masks_view(p.string_masks@),
        string_array_masks: array_masks_view(p.string_array_masks@),
        string_enum_masks: enum_masks_view(p.string_enum_masks@),
        required: p.required.deep_view(),
        properties: obj_view(p.properties@),
        masks: p.masks.deep_view(),
    }
}

/// The first declared value equal to `v`.
fn enum_match_of<'a>(values: &'a Vec<String>, v: &Json) -> (r: Option<&'a String>)
    ensures
        match enum_match(values.deep_view(), v@) {
            Some(x) => r matches Some(y) && y@ == x,
            None => r is None,
        },
{
    let ghost vs = values.deep_view();
    let mut i: usize = 0;
    while i < values.len()
        invariant
            0 <= i <= values@.len(),
            vs == values.deep_view(),
            enum_match(vs.take(i as int), v@) is None,
        decreases values@.len() - i,
    {
        assert(vs.take(i + 1).drop_last() =~= vs.take(i as int));
        let hit = match v {
            Json::String(s) => crate::text::text_eq(s.as_str(), values[i].as_str()),
            _ => false,
        };
        if hit {
            proof {
                lemma_enum_match_prefix(vs, i as int + 1, v@);
            }
            return Some(&values[i]);
        }
        i = i + 1;
    }
    assert(vs.take(i as int) =~= vs);
    None
}

proof fn lemma_enum_match_prefix(vs: Seq<Seq<char>>, n: int, v: JsonV)
    requires
        0 <= n <= vs.len(),
        enum_match(vs.take(n), v) is Some,
    ensures
        enum_match(vs, v) == enum_match(vs.take(n), v),
    decreases vs.len() - n,
{
    if n < vs.len() {
        assert(vs.take(n + 1).drop_last() =~= vs.take(n));
        lemma_enum_match_prefix(vs, n + 1, v);
    } else {
        assert(vs.take(n) =~= vs);
    }
}

/// The first element of an array that is not a string.
fn first_non_string_of(a: &Vec<Json>) -> (r: Option<&Json>)
    ensures
        match first_non_string(Seq::new(a@.len(), |j: int| a@[j]@)) {
            Some(x) => r matches Some(y) && y@ == x,
            None => r is None,
        },
{
    let ghost av = Seq::new(a@.len(), |j: int| a@[j]@);
    let mut i: usize = 0;
    while i < a.len()
        invariant
            0 <= i <= a@.len(),
            av == Seq::new(a@.len(), |j: int| a@[j]@),
            first_non_string(av.take(i as int)) is None,
        decreases a@.len() - i,
    {
        assert(av.take(i + 1).drop_last() =~= av.take(i as int));
        let is_string = match &a[i] {
            Json::String(_) => true,
            _ => false,
        };
        if !is_string {
            proof {
                lemma_first_non_string_prefix(av, i as int + 1);
            }
            return Some(&a[i]);
        }
        i = i + 1;
    }
    assert(av.take(i as int) =~= av);
    None
}

proof fn lemma_first_non_string_prefix(a: Seq<JsonV>, n: int)
    requires
        0 <= n <= a.len(),
        first_non_string(a.take(n)) is Some,
    ensures
        first_non_string(a) == first_non_string(a.take(n)),
    decreases a.len() - n,
{
    if n < a.len() {
        assert(a.take(n + 1).drop_last() =~= a.take(n));
        lemma_first_non_string_prefix(a, n + 1);
    } else {
        assert(a.take(n) =~= a);
    }
}


impl ReportBuilder {
    /// Takes the next mask, records it with its default return value, and
    /// masks the field's name in the rule's text.
    fn take_mask(&mut self, parts: &mut RuleParts, name: &str, dr: Json) -> (mask: String)
        ensures
            mask@ == mask_text(old(self)@.position),
            acc_of(final(self)@, *final(parts)) == with_mask(acc_of(old(self)@, *old(parts)), mask@, name@, dr@),
            final(self)@ == (BuilderV {
                position: final(self)@.position,
                default_return: final(self)@.default_return,
                ..old(self)@
            }),
            final(parts).bool_masks == old(parts).bool_masks,
            final(parts).number_masks == old(parts).number_masks,
            final(parts).string_masks == old(parts).string_masks,
            final(parts).string_array_masks == old(parts).string_array_masks,
            final(parts).string_enum_masks == old(parts).string_enum_masks,
            final(parts).required == old(parts).required,
            final(parts).properties == old(parts).properties,
    {
        let ghost drv = dr@;
        let mask = self.mask_gen.generate();
        let ghost old_masks = parts.masks.deep_view();
        parts.masks.push(mask.clone());
        assert(parts.masks.deep_view() =~= old_masks.push(mask@));
        crate::json::object_set(&mut self.default_return, mask.as_str(), dr);
        let from = debug_string(name);
        let to = debug_string(mask.as_str());
        let replaced = str_replace(parts.content.as_str(), from.as_str(), to.as_str());
        parts.content = replaced;
        mask
    }

    /// Reads field `f` of the action into the rule being built.
    fn add_field(&mut self, parts: &mut RuleParts, f: &Field, action: &Json) -> (r: Result<(), PolicyError>)
        ensures
            match field_step(acc_of(old(self)@, *old(parts)), old(self)@.policy_index, f@, action@) {
                Ok(a) => r is Ok && acc_of(final(self)@, *final(parts)) == a,
                Err(e) => r matches Err(x) && x@ == e && acc_of(final(self)@, *final(parts)) == acc_of(old(self)@, *old(parts)),
            },
            final(self)@ == (BuilderV {
                position: final(self)@.position,
                default_return: final(self)@.default_return,
                ..old(self)@
            }),
    {
        let ghost acc0 = acc_of(self@, *parts);
        let idx = self.policy_index;
        let value = match action.get(f.name()) {
            Some(v) => v,
            None => {
                return Ok(());
            },
        };
        match f {
            Field::Bool { name, default, on_conflict } => {
                match value {
                    Json::Bool(b) => {
                        let mask = self.take_mask(parts, name.as_str(), Json::Bool(!*b));
                        let ghost old_bm = parts.bool_masks@;
                        parts.bool_masks.push(BoolMask::new(idx, name.clone(), mask.clone(), Some(*default), *on_conflict));
                        assert(bool_masks_view(parts.bool_masks@) =~= bool_masks_view(old_bm).push(parts.bool_masks@.last()@));
                        let ghost old_req = parts.required.deep_view();
                        parts.required.push(mask.clone());
                        assert(parts.required.deep_view() =~= old_req.push(mask@));
                        crate::json::object_set(&mut parts.properties, mask.as_str(), type_schema_of("boolean"));
                        Ok(())
                    },
                    _ => Err(PolicyError::expected_bool(name.clone(), value)),
                }
            },
            Field::Number { name, default, on_conflict } => {
                match value {
                    Json::Number(n) => {
                        let mask = self.take_mask(parts, name.as_str(), Json::Number(n.copy()));
                        let d = match default {
                            Some(x) => Some(x.copy()),
                            None => None,
                        };
                        let ghost old_nm = parts.number_masks@;
                        parts.number_masks.push(NumberMask::new(idx, name.clone(), mask.clone(), d, Some(n.copy()), *on_conflict));
                        assert(number_masks_view(parts.number_masks@) =~= number_masks_view(old_nm).push(parts.number_masks@.last()@));
                        if default.is_some() {
                            let ghost old_req = parts.required.deep_view();
                            parts.required.push(mask.clone());
                            assert(parts.required.deep_view() =~= old_req.push(mask@));
                        }
                        crate::json::object_set(&mut parts.properties, mask.as_str(), type_schema_of("number"));
                        Ok(())
                    },
                    _ => Err(PolicyError::expected_number(name.clone(), value)),
                }
            },
            Field::String { name, default, on_conflict } => {
                match value {
                    Json::String(t) => {
                        let mask = self.take_mask(parts, name.as_str(), Json::String(t.clone()));
                        let ghost old_sm = parts.string_masks@;
                        parts.string_masks.push(StringMask::new(idx, name.clone(), mask.clone(), default.clone(), Some(t.clone()), *on_conflict));
                        assert(string_masks_view(parts.string_masks@) =~= string_masks_view(old_sm).push(parts.string_masks@.last()@));
                        if default.is_some() {
                            let ghost old_req = parts.required.deep_view();
                            parts.required.push(mask.clone());
                            assert(parts.required.deep_view() =~= old_req.push(mask@));
                        }
                        crate::json::object_set(&mut parts.properties, mask.as_str(), type_schema_of("string"));
                        Ok(())
                    },
                    _ => Err(PolicyError::expected_string(name.clone(), value)),
                }
            },
            Field::StringArray { name } => {
                match value {
                    Json::Array(items) => {
                        proof {
                            assert(Seq::new(items@.len(), |j: int| items@[j]@) =~= value@->Array_0);
                        }
                        match first_non_string_of(items) {
                            Some(bad) => Err(PolicyError::expected_string(name.clone(), bad)),
                            None => {
                                let mut strings: Vec<String> = Vec::new();
                                let mut k: usize = 0;
                                while k < items.len()
                                    invariant
                                        0 <= k <= items@.len(),
                                    decreases items@.len() - k,
                                {
                                    if let Json::String(t) = &items[k] {
                                        strings.push(t.clone());
                                    }
                                    k = k + 1;
                                }
                                let empty = Json::Array(Vec::new());
                                assert(empty@->Array_0 =~= Seq::<JsonV>::empty());
                                let mask = self.take_mask(parts, name.as_str(), empty);
                                let ghost old_am = parts.string_array_masks@;
                                parts.string_array_masks.push(StringArrayMask::new(idx, name.clone(), mask.clone(), strings));
                                assert(array_masks_view(parts.string_array_masks@) =~= array_masks_view(old_am).push(parts.string_array_masks@.last()@));
                                crate::json::object_set(&mut parts.properties, mask.as_str(), array_schema_of(type_schema_of("string")));
                                Ok(())
                            },
                        }
                    },
                    _ => Err(PolicyError::expected_string(name.clone(), value)),
                }
            },
            Field::StringEnum { name, values, default, on_conflict } => {
                match enum_match_of(values, value) {
                    Some(v) => {
                        let mask = self.take_mask(parts, name.as_str(), Json::Bool(false));
                        let from = debug_string(v.as_str());
                        let replaced = str_replace(parts.content.as_str(), from.as_str(), "true");
                        parts.content = replaced;
                        let ghost old_em = parts.string_enum_masks@;
                        parts.string_enum_masks.push(
                            StringEnumMask::new(idx, name.clone(), mask.clone(), Some(v.clone()), default.clone(), *on_conflict),
                        );
                        assert(enum_masks_view(parts.string_enum_masks@) =~= enum_masks_view(old_em).push(parts.string_enum_masks@.last()@));
                        if default.is_some() {
                            let ghost old_req = parts.required.deep_view();
                            parts.required.push(mask.clone());
                            assert(parts.required.deep_view() =~= old_req.push(mask@));
                        }
                        crate::json::object_set(&mut parts.properties, mask.as_str(), type_schema_of("boolean"));
                        Ok(())
                    },
                    None => Err(PolicyError::expected_string(name.clone(), value)),
                }
            },
        }
    }
}


/// The report state after the boolean masks `ms` read `ir`, in order.
pub open spec fn bool_masks_fold(s: ReportV, ms: Seq<BoolMaskV>, ir: JsonV) -> ReportV
    decreases ms.len(),
{
    if ms.len() == 0 {
        s
    } else {
        bool_mask_step(bool_masks_fold(s, ms.drop_last(), ir), ms.last(), ir)
    }
}

/// The report state after the numeric masks `ms` read `ir`, in order.
pub open spec fn number_masks_fold(s: ReportV, ms: Seq<NumberMaskV>, ir: JsonV) -> ReportV
    decreases ms.len(),
{
    if ms.len() == 0 {
        s
    } else {
        number_mask_step(number_masks_fold(s, ms.drop_last(), ir), ms.last(), ir)
    }
}

/// The report state after the string masks `ms` read `ir`, in order.
pub open spec fn string_masks_fold(s: ReportV, ms: Seq<StringMaskV>, ir: JsonV) -> ReportV
    decreases ms.len(),
{
    if ms.len() == 0 {
        s
    } else {
        string_mask_step(string_masks_fold(s, ms.drop_last(), ir), ms.last(), ir)
    }
}

/// The report state after the string array masks `ms` read `ir`, in order.
pub open spec fn array_masks_fold(s: ReportV, ms: Seq<StringArrayMaskV>, ir: JsonV) -> ReportV
    decreases ms.len(),
{
    if ms.len() == 0 {
        s
    } else {
        array_mask_step(array_masks_fold(s, ms.drop_last(), ir), ms.last(), ir)
    }
}

/// The report state after the string enum masks `ms` read `ir`, in order.
pub open spec fn enum_masks_fold(s: ReportV, ms: Seq<StringEnumMaskV>, ir: JsonV) -> ReportV
    decreases ms.len(),
{
    if ms.len() == 0 {
        s
    } else {
        enum_mask_step(enum_masks_fold(s, ms.drop_last(), ir), ms.last(), ir)
    }
}

/// The state of a fresh report.
pub open spec fn empty_report() -> ReportV {
    ReportV {
        value: None,
        default: None,
        errors: Seq::empty(),
        conflicts: Seq::empty(),
        stats: Seq::empty(),
        rules_matched: Seq::empty(),
    }
}

/// The report state after every mask of a builder read `ir`: the boolean,
/// numeric, string, string array and string enum masks, in that order.
pub open spec fn consume_state(b: BuilderV, ir: JsonV) -> ReportV {
    enum_masks_fold(
        array_masks_fold(
            string_masks_fold(
                number_masks_fold(bool_masks_fold(empty_report(), b.bool_masks, ir), b.number_masks, ir),
                b.string_masks,
                ir,
            ),
            b.string_array_masks,
            ir,
        ),
        b.string_enum_masks,
        ir,
    )
}

/// The schema of the model's output: an object with the required members
/// and the properties collected.
pub open spec fn schema_of(b: BuilderV) -> JsonV {
    JsonV::Object(
        seq![
            ("type"@, JsonV::String("object"@)),
            ("required"@, JsonV::Array(Seq::new(b.required.len(), |i: int| JsonV::String(b.required[i])))),
            ("properties"@, JsonV::Object(b.properties)),
        ],
    )
}

impl ReportBuilder {
    /// Adds a policy as the next rule: a mask for each field its action
    /// sets, the rule's text with the field names masked, and the schema and
    /// default return value of each mask.
    #[verifier::loop_isolation(false)]
    pub fn add_policy(&mut self, policy: &Policy) -> (r: Result<(), PolicyError>)
        requires
            old(self)@.mask_index < usize::MAX,
            old(self)@.policy_index < usize::MAX,
        ensures
            final(self)@ == add_policy_step(old(self)@, policy@).0,
            match add_policy_step(old(self)@, policy@).1 {
                Ok(_) => r is Ok,
                Err(e) => r matches Err(x) && x@ == e,
            },
    {
        let ghost b0 = self@;
        let ghost pv = policy@;
        self.mask_index = self.mask_index + 1;
        let mut content = string_of("Rule #");
        push_decimal(&mut content, self.policy_index);
        push_text(&mut content, ":\nCriteria: ");
        push_text(&mut content, policy.prompt.as_str());
        let mut parts = RuleParts {
            content,
            bool_masks: Vec::new(),
            number_masks: Vec::new(),
            string_masks: Vec::new(),
            string_array_masks: Vec::new(),
            string_enum_masks: Vec::new(),
            required: Vec::new(),
            properties: Vec::new(),
            masks: Vec::new(),
        };
        let ghost fs = pv.policy_type.fields;
        let fields = &policy.policy_type.fields;
        proof {
            assert(acc_of(self@, parts) == rule_start(b0, pv)) by {
                assert(acc_of(self@, parts).bool_masks =~= Seq::<BoolMaskV>::empty());
                assert(acc_of(self@, parts).number_masks =~= Seq::<NumberMaskV>::empty());
                assert(acc_of(self@, parts).string_masks =~= Seq::<StringMaskV>::empty());
                assert(acc_of(self@, parts).string_array_masks =~= Seq::<StringArrayMaskV>::empty());
                assert(acc_of(self@, parts).string_enum_masks =~= Seq::<StringEnumMaskV>::empty());
                assert(acc_of(self@, parts).required =~= Seq::<Seq<char>>::empty());
                assert(acc_of(self@, parts).properties =~= Seq::<(Seq<char>, JsonV)>::empty());
                assert(acc_of(self@, parts).masks =~= Seq::<Seq<char>>::empty());
            }
            assert(fs.take(0) =~= Seq::<FieldV>::empty());
        }
        let mut i: usize = 0;
        while i < fields.len()
            invariant
                0 <= i <= fields@.len(),
                fs == pv.policy_type.fields,
                b0 == old(self)@,
                b0.policy_index < usize::MAX,
                b0.mask_index < usize::MAX,
                fs.len() == fields@.len(),
                forall|j: int| 0 <= j < fields@.len() ==> fs[j] == (#[trigger] fields@[j])@,
                pv == policy@,
                fields@ == policy.policy_type.fields@,
                fields_step(rule_start(b0, pv), b0.policy_index, fs.take(i as int), pv.action) == Ok::<RuleAcc, (RuleAcc, PolicyErrorV)>(acc_of(self@, parts)),
                self@ == (BuilderV {
                    mask_index: (b0.mask_index + 1) as usize,
                    position: self@.position,
                    default_return: self@.default_return,
                    ..b0
                }),
            decreases fields@.len() - i,
        {
            assert(fs.take(i + 1).drop_last() =~= fs.take(i as int));
            assert(fs.take(i + 1).last() == fields@[i as int]@);
            match self.add_field(&mut parts, &fields[i], &policy.action) {
                Ok(()) => {},
                Err(e) => {
                    proof {
                        lemma_fields_error(rule_start(b0, pv), b0.policy_index, fs, pv.action, i as int + 1);
                    }
                    return Err(e);
                },
            }
            i = i + 1;
        }
        assert(fs.take(i as int) =~= fs);
        let ghost a = acc_of(self@, parts);
        let mut text = string_of("<rule>");
        push_text(&mut text, parts.content.as_str());
        push_text(&mut text, "</rule>");
        push_or_merge_message(&mut self.messages, Message::user(text));
        let mut required: Vec<String> = Vec::new();
        std::mem::swap(&mut required, &mut self.required);
        let ghost old_req = required.deep_view();
        let mut k: usize = 0;
        while k < parts.required.len()
            invariant
                0 <= k <= parts.required@.len(),
                required.deep_view() == old_req + parts.required.deep_view().take(k as int),
            decreases parts.required@.len() - k,
        {
            let ghost before = required.deep_view();
            required.push(parts.required[k].clone());
            assert(required.deep_view() =~= before.push(parts.required.deep_view()[k as int]));
            assert(parts.required.deep_view().take(k + 1) =~= parts.required.deep_view().take(k as int).push(parts.required.deep_view()[k as int]));
            k = k + 1;
        }
        assert(parts.required.deep_view().take(k as int) =~= parts.required.deep_view());
        self.required = required;
        let mut properties: Vec<(String, Json)> = Vec::new();
        std::mem::swap(&mut properties, &mut self.properties);
        let ghost old_props = obj_view(properties@);
        let ghost np = obj_view(parts.properties@);
        let mut k: usize = 0;
        assert(np.take(0) =~= Seq::<(Seq<char>, JsonV)>::empty());
        while k < parts.properties.len()
            invariant
                0 <= k <= parts.properties@.len(),
                np == obj_view(parts.properties@),
                obj_view(properties@) == fold_set(old_props, np.take(k as int)),
            decreases parts.properties@.len() - k,
        {
            assert(np.take(k + 1).drop_last() =~= np.take(k as int));
            crate::json::object_set(&mut properties, parts.properties[k].0.as_str(), parts.properties[k].1.copy());
            k = k + 1;
        }
        assert(np.take(k as int) =~= np);
        self.properties = properties;
        let ghost ob = bool_masks_view(self.bool_masks@);
        let ghost on = number_masks_view(self.number_masks@);
        let ghost os = string_masks_view(self.string_masks@);
        let ghost oa = array_masks_view(self.string_array_masks@);
        let ghost oe = enum_masks_view(self.string_enum_masks@);
        let ghost omi = self.masks_by_index.deep_view();
        self.bool_masks.append(&mut parts.bool_masks);
        self.number_masks.append(&mut parts.number_masks);
        self.string_masks.append(&mut parts.string_masks);
        self.string_array_masks.append(&mut parts.string_array_masks);
        self.string_enum_masks.append(&mut parts.string_enum_masks);
        let ghost pm = parts.masks.deep_view();
        self.masks_by_index.push(parts.masks);
        self.policy_index = self.policy_index + 1;
        proof {
            assert(bool_masks_view(self.bool_masks@) =~= ob + a.bool_masks);
            assert(number_masks_view(self.number_masks@) =~= on + a.number_masks);
            assert(string_masks_view(self.string_masks@) =~= os + a.string_masks);
            assert(array_masks_view(self.string_array_masks@) =~= oa + a.string_array_masks);
            assert(enum_masks_view(self.string_enum_masks@) =~= oe + a.string_enum_masks);
            assert(self.masks_by_index.deep_view() =~= omi.push(pm));
        }
        Ok(())
    }

    /// Reads the model's output `ir` through every mask into a new report.
    pub fn consume_ir(self, ir: Json) -> (r: Result<Report, ApplyError>)
        requires
            self@.bool_masks.len() + self@.number_masks.len() + self@.string_masks.len()
                + self@.string_enum_masks.len() + self@.string_array_masks.len() * (1 + string_count(ir@))
                < usize::MAX,
        ensures
            r matches Ok(rep) && rep.wf() && rep.state() == consume_state(self@, ir@)
                && messages_view(rep.setup().0@) == self@.messages
                && bool_masks_view(rep.setup().1@) == self@.bool_masks
                && number_masks_view(rep.setup().2@) == self@.number_masks
                && string_masks_view(rep.setup().3@) == self@.string_masks
                && array_masks_view(rep.setup().4@) == self@.string_array_masks
                && enum_masks_view(rep.setup().5@) == self@.string_enum_masks
                && rep.setup().6.deep_view() == self@.masks_by_index
                && rep.setup().7 is None,
    {
        let ghost b = self@;
        let ghost irv = ir@;
        let ghost k = string_count(ir@);
        let ReportBuilder {
            messages,
            bool_masks,
            number_masks,
            string_masks,
            string_array_masks,
            string_enum_masks,
            masks_by_index,
            ..
        } = self;
        let mut report = Report::new(messages, Vec::new(), Vec::new(), Vec::new(), Vec::new(), Vec::new(), masks_by_index);
        let ghost setup0 = report.setup();
        let ghost nb = bool_masks@.len();
        let ghost nn = number_masks@.len();
        let ghost ns = string_masks@.len();
        let ghost na = string_array_masks@.len();
        let ghost ne = string_enum_masks@.len();
        let mut i: usize = 0;
        assert(b.bool_masks.take(0) =~= Seq::<BoolMaskV>::empty());
        while i < bool_masks.len()
            invariant
                0 <= i <= bool_masks@.len(),
                b.bool_masks == bool_masks_view(bool_masks@),
                ir@ == irv,
                report.wf(),
                report.setup() == setup0,
                report.state() == bool_masks_fold(empty_report(), b.bool_masks.take(i as int), irv),
                report.state().rules_matched.len() <= i,
                nb + nn + ns + ne + na * (1 + k) < usize::MAX,
                nb == bool_masks@.len(),
            decreases bool_masks@.len() - i,
        {
            assert(b.bool_masks.take(i + 1).drop_last() =~= b.bool_masks.take(i as int));
            bool_masks[i].apply_to(&ir, &mut report);
            i = i + 1;
        }
        assert(b.bool_masks.take(i as int) =~= b.bool_masks);
        let ghost s1 = report.state();
        let mut i: usize = 0;
        assert(b.number_masks.take(0) =~= Seq::<NumberMaskV>::empty());
        while i < number_masks.len()
            invariant
                0 <= i <= number_masks@.len(),
                b.number_masks == number_masks_view(number_masks@),
                ir@ == irv,
                report.wf(),
                report.setup() == setup0,
                report.state() == number_masks_fold(s1, b.number_masks.take(i as int), irv),
                report.state().rules_matched.len() <= nb + i,
                nb + nn + ns + ne + na * (1 + k) < usize::MAX,
                nn == number_masks@.len(),
            decreases number_masks@.len() - i,
        {
            assert(b.number_masks.take(i + 1).drop_last() =~= b.number_masks.take(i as int));
            number_masks[i].apply_to(&ir, &mut report);
            i = i + 1;
        }
        assert(b.number_masks.take(i as int) =~= b.number_masks);
        let ghost s2 = report.state();
        let mut i: usize = 0;
        assert(b.string_masks.take(0) =~= Seq::<StringMaskV>::empty());
        while i < string_masks.len()
            invariant
                0 <= i <= string_masks@.len(),
                b.string_masks == string_masks_view(string_masks@),
                ir@ == irv,
                report.wf(),
                report.setup() == setup0,
                report.state() == string_masks_fold(s2, b.string_masks.take(i as int), irv),
                report.state().rules_matched.len() <= nb + nn + i,
                nb + nn + ns + ne + na * (1 + k) < usize::MAX,
                ns == string_masks@.len(),
            decreases string_masks@.len() - i,
        {
            assert(b.string_masks.take(i + 1).drop_last() =~= b.string_masks.take(i as int));
            string_masks[i].apply_to(&ir, &mut report);
            i = i + 1;
        }
        assert(b.string_masks.take(i as int) =~= b.string_masks);
        let ghost s3 = report.state();
        let mut i: usize = 0;
        assert(b.string_array_masks.take(0) =~= Seq::<StringArrayMaskV>::empty());
        while i < string_array_masks.len()
            invariant
                0 <= i <= string_array_masks@.len(),
                b.string_array_masks == array_masks_view(string_array_masks@),
                ir@ == irv,
                k == string_count(irv),
                report.wf(),
                report.setup() == setup0,
                report.state() == array_masks_fold(s3, b.string_array_masks.take(i as int), irv),
                report.state().rules_matched.len() <= nb + nn + ns + i * (1 + k),
                nb + nn + ns + ne + na * (1 + k) < usize::MAX,
                na == string_array_masks@.len(),
            decreases string_array_masks@.len() - i,
        {
            assert(b.string_array_masks.take(i + 1).drop_last() =~= b.string_array_masks.take(i as int));
            assert((i + 1) * (1 + k) <= na * (1 + k)) by (nonlinear_arith)
                requires
                    i + 1 <= na,
            ;
            assert((i + 1) * (1 + k) == i * (1 + k) + 1 + k) by (nonlinear_arith);
            string_array_masks[i].apply_to(&ir, &mut report);
            i = i + 1;
        }
        assert(b.string_array_masks.take(i as int) =~= b.string_array_masks);
        let ghost s4 = report.state();
        let mut i: usize = 0;
        assert(b.string_enum_masks.take(0) =~= Seq::<StringEnumMaskV>::empty());
        while i < string_enum_masks.len()
            invariant
                0 <= i <= string_enum_masks@.len(),
                b.string_enum_masks == enum_masks_view(string_enum_masks@),
                ir@ == irv,
                report.wf(),
                report.setup() == setup0,
                report.state() == enum_masks_fold(s4, b.string_enum_masks.take(i as int), irv),
                report.state().rules_matched.len() <= nb + nn + ns + na * (1 + k) + i,
                nb + nn + ns + ne + na * (1 + k) < usize::MAX,
                ne == string_enum_masks@.len(),
            decreases string_enum_masks@.len() - i,
        {
            assert(b.string_enum_masks.take(i + 1).drop_last() =~= b.string_enum_masks.take(i as int));
            string_enum_masks[i].apply_to(&ir, &mut report);
            i = i + 1;
        }
        assert(b.string_enum_masks.take(i as int) =~= b.string_enum_masks);
        let report = report.with_masks(bool_masks, number_masks, string_masks, string_array_masks, string_enum_masks);
        Ok(report)
    }

    /// The output the model should give where no rule applies.
    pub fn default_return(&self) -> (r: Json)
        ensures
            r@ == JsonV::Object(self@.default_return),
    {
        let m = crate::json::copy_members(&self.default_return);
        let ghost mv = obj_view(m@);
        let r = Json::Object(m);
        assert(r@->Object_0 =~= mv);
        r
    }

    /// The messages holding the rules.
    pub fn messages(&self) -> (r: Vec<Message>)
        ensures
            messages_view(r@) == self@.messages,
    {
        let mut r: Vec<Message> = Vec::new();
        let mut i: usize = 0;
        while i < self.messages.len()
            invariant
                0 <= i <= self.messages@.len(),
                r@.len() == i,
                forall|j: int| 0 <= j < i ==> (#[trigger] r@[j])@ == self.messages@[j]@,
            decreases self.messages@.len() - i,
        {
            r.push(self.messages[i].copy());
            i = i + 1;
        }
        assert(messages_view(r@) =~= self@.messages);
        r
    }

    /// The schema of the model's output.
    pub fn schema(&self) -> (r: Json)
        ensures
            r@ == schema_of(self@),
    {
        let mut req: Vec<Json> = Vec::new();
        let mut i: usize = 0;
        while i < self.required.len()
            invariant
                0 <= i <= self.required@.len(),
                req@.len() == i,
                forall|j: int| 0 <= j < i ==> (#[trigger] req@[j])@ == JsonV::String(self.required@[j]@),
            decreases self.required@.len() - i,
        {
            let item = Json::String(self.required[i].clone());
            assert(item@ == JsonV::String(self.required@[i as int]@));
            req.push(item);
            i = i + 1;
        }
        let mut m: Vec<(String, Json)> = Vec::new();
        let t = Json::String(string_of("object"));
        assert(t@ == JsonV::String("object"@));
        m.push((string_of("type"), t));
        let required = Json::Array(req);
        assert(required@->Array_0 =~= Seq::new(self@.required.len(), |i: int| JsonV::String(self@.required[i])));
        m.push((string_of("required"), required));
        let props = Json::Object(crate::json::copy_members(&self.properties));
        assert(props@->Object_0 =~= self@.properties);
        m.push((string_of("properties"), props));
        let r = Json::Object(m);
        assert(r@->Object_0[0] == (m@[0].0@, m@[0].1@));
        assert(r@->Object_0[1] == (m@[1].0@, m@[1].1@));
        assert(r@->Object_0[2] == (m@[2].0@, m@[2].1@));
        assert(r@->Object_0 =~= schema_of(self@)->Object_0);
        r
    }
}

proof fn lemma_fields_error(acc: RuleAcc, idx: usize, fs: Seq<FieldV>, action: JsonV, n: int)
    requires
        0 <= n <= fs.len(),
        fields_step(acc, idx, fs.take(n), action) is Err,
    ensures
        fields_step(acc, idx, fs, action) == fields_step(acc, idx, fs.take(n), action),
    decreases fs.len() - n,
{
    if n < fs.len() {
        assert(fs.take(n + 1).drop_last() =~= fs.take(n));
        lemma_fields_error(acc, idx, fs, action, n + 1);
    } else {
        assert(fs.take(n) =~= fs);
    }
}


// ------------------------------------------------------------------ one attempt

/// What one answer of the model comes to.
#[derive(Debug)]
pub enum Attempt {
    /// The answer does not list its rule numbers as an array of numbers:
    /// the request is made again as it was.
    Unreadable,
    /// The rules the answer lists are the rules whose fields it set: the
    /// report is final.
    Matched(Report),
    /// They differ: what to tell the model, and the error to keep.
    Mismatch { content: String, last_error: String },
}

/// Whether the output `ir` can be read through the masks of `b` without the
/// count of reads overflowing.
pub open spec fn consume_fits(b: BuilderV, ir: JsonV) -> bool {
    b.bool_masks.len() + b.number_masks.len() + b.string_masks.len() + b.string_enum_masks.len()
        + b.string_array_masks.len() * (1 + string_count(ir)) < usize::MAX
}

impl ReportBuilder {
    /// Judges one answer `ir` of the model: whether it lists its rule
    /// numbers, and whether they are the rules whose fields it set, each
    /// sorted without repeats.
    pub fn judge(self, ir: Json, attempt: usize, max_attempts: usize) -> (r: Result<Attempt, ApplyError>)
        ensures
            match crate::manager::reported_rules(ir@) {
                None => r matches Ok(Attempt::Unreadable),
                Some(p) => if consume_fits(self@, ir@) {
                    let st = consume_state(self@, ir@);
                    let e = crate::manager::sorted_distinct(st.rules_matched);
                    let q = crate::manager::sorted_distinct(p);
                    if e == q {
                        r matches Ok(Attempt::Matched(rep)) && rep.wf() && rep.state() == st
                            && messages_view(rep.setup().0@) == self@.messages
                            && bool_masks_view(rep.setup().1@) == self@.bool_masks
                            && number_masks_view(rep.setup().2@) == self@.number_masks
                            && string_masks_view(rep.setup().3@) == self@.string_masks
                            && array_masks_view(rep.setup().4@) == self@.string_array_masks
                            && enum_masks_view(rep.setup().5@) == self@.string_enum_masks
                            && rep.setup().6.deep_view() == self@.masks_by_index
                            && rep.setup().7 is None
                    } else {
                        let (c, l) = crate::manager::mismatch_feedback(self@.masks_by_index, e, q, attempt, max_attempts);
                        r matches Ok(Attempt::Mismatch { content, last_error }) && content@ == c && last_error@ == l
                    }
                } else {
                    r matches Err(ApplyError::InvalidResponse { .. })
                },
            },
    {
        let reported = match crate::manager::reported_rule_numbers(&ir) {
            Some(v) => v,
            None => return Ok(Attempt::Unreadable),
        };
        let arrays = self.string_array_masks.len() as u128;
        let others = self.bool_masks.len() as u128 + self.number_masks.len() as u128
            + self.string_masks.len() as u128 + self.string_enum_masks.len() as u128;
        let limit = usize::MAX as u128;
        let fits = if others >= limit {
            false
        } else {
            match crate::masks::count_strings(&ir) {
                Some(c) => {
                    let per: u128 = 1 + c as u128;
                    assert(arrays * per <= 0xffff_ffff_ffff_ffffu128 * 0x1_0000_0000_0000_0000u128) by (nonlinear_arith)
                        requires
                            arrays <= 0xffff_ffff_ffff_ffffu128,
                            per <= 0x1_0000_0000_0000_0000u128,
                    ;
                    arrays * per < limit - others
                },
                None => {
                    assert(arrays > 0 ==> arrays * (1 + string_count(ir@)) > limit) by (nonlinear_arith)
                        requires
                            string_count(ir@) > limit,
                    ;
                    arrays == 0
                },
            }
        };
        if !fits {
            assert(!consume_fits(self@, ir@));
            return Err(
                ApplyError::invalid_response(
                    string_of("the output holds more strings than can be counted"),
                    string_of("ask for a shorter output"),
                ),
            );
        }
        let report = match self.consume_ir(ir) {
            Ok(rep) => rep,
            Err(e) => return Err(e),
        };
        match crate::manager::check_rule_numbers(report.masks_by_index(), report.rules_matched(), &reported, attempt, max_attempts) {
            crate::manager::RuleCheck::Consistent => Ok(Attempt::Matched(report)),
            crate::manager::RuleCheck::Inconsistent { content, last_error } => Ok(Attempt::Mismatch { content, last_error }),
        }
    }
}

// ------------------------------------------------------------------ retries

/// The most answers asked of the model before applying policies gives up:
/// the first, and up to three more where an answer is inconsistent.
pub const MAX_ATTEMPTS: usize = 4;

/// What applying policies does after an answer was judged.
#[derive(Debug)]
pub enum Next {
    /// The answer's report is final.
    Finish(Report),
    /// Ask again: with this feedback on the answer, or, where there is none,
    /// with the request as it was.
    AskAgain { feedback: Option<String> },
    /// Give up with this error.
    GiveUp(ApplyError),
}

/// The state of asking the model: how many answers were judged, and the
/// error kept from the last answer whose rules did not match.
pub struct Retries {
    pub answered: usize,
    pub last_error: String,
}

impl Retries {
    /// Nothing asked yet.
    pub fn new() -> (r: Retries)
        ensures
            r.answered == 0,
            r.last_error@ == Seq::<char>::empty(),
    {
        Retries { answered: 0, last_error: String::new() }
    }

    /// Whether another answer may be asked for: fewer than `MAX_ATTEMPTS`
    /// were judged.
    pub fn may_ask(&self) -> (r: bool)
        ensures
            r == (self.answered < MAX_ATTEMPTS),
    {
        self.answered < MAX_ATTEMPTS
    }

    /// Takes in the judgment of one more answer: a matched answer finishes;
    /// any other asks again (with the feedback on a mismatch) until
    /// `MAX_ATTEMPTS` answers were judged, and then gives up with the error
    /// of the last mismatch.
    pub fn after(&mut self, judged: Attempt) -> (r: Next)
        requires
            old(self).answered < MAX_ATTEMPTS,
        ensures
            final(self).answered == old(self).answered + 1,
            match judged {
                Attempt::Matched(rep) => final(self).last_error@ == old(self).last_error@ && (r matches Next::Finish(x) && x == rep),
                Attempt::Unreadable => final(self).last_error@ == old(self).last_error@,
                Attempt::Mismatch { content, last_error } => final(self).last_error@ == last_error@,
            },
            !(judged is Matched) ==> if final(self).answered < MAX_ATTEMPTS {
                match judged {
                    Attempt::Mismatch { content, last_error } => r matches Next::AskAgain { feedback: Some(f) } && f@ == content@,
                    _ => r matches Next::AskAgain { feedback: None },
                }
            } else {
                r matches Next::GiveUp(ApplyError::TooManyIterations { attempts, last_error })
                    && attempts == MAX_ATTEMPTS && last_error@ == final(self).last_error@
            },
    {
        self.answered = self.answered + 1;
        let feedback = match judged {
            Attempt::Matched(rep) => return Next::Finish(rep),
            Attempt::Unreadable => None,
            Attempt::Mismatch { content, last_error } => {
                self.last_error = last_error;
                Some(content)
            },
        };
        if self.answered < MAX_ATTEMPTS {
            Next::AskAgain { feedback }
        } else {
            Next::GiveUp(ApplyError::too_many_iterations(MAX_ATTEMPTS, self.last_error.clone()))
        }
    }
}

// ------------------------------------------------------------------ laws

/// The default answer of a boolean rule does not fire it: a boolean field
/// whose action sets `b` gets a fresh mask whose default return value is
/// `!b`, and reading that default answer back through the new mask reports
/// `!b`, not the action's value, for a field not reported before.
pub proof fn law_bool_default_return_is_negated(acc: RuleAcc, idx: usize, f: FieldV, action: JsonV, b: bool, s: ReportV)
    requires
        f is Bool,
        json_get(action, field_name(f)) == Some(JsonV::Bool(b)),
        crate::report::current(s, field_name(f)) is None,
    ensures
        field_step(acc, idx, f, action) matches Ok(a) && {
            let mask = mask_text(acc.position);
            &&& crate::json::obj_get(a.default_return, mask) == Some(JsonV::Bool(!b))
            &&& a.bool_masks.last().mask == mask
            &&& a.bool_masks.last().name == field_name(f)
            &&& crate::report::current(
                crate::masks::bool_mask_step(s, a.bool_masks.last(), JsonV::Object(a.default_return)),
                field_name(f),
            ) == Some(JsonV::Bool(!b))
        },
{
    let mask = mask_text(acc.position);
    crate::json::lemma_obj_set_get(acc.default_return, mask, JsonV::Bool(!b), mask);
    let a = field_step(acc, idx, f, action)->Ok_0;
    let m = a.bool_masks.last();
    let o = crate::report::bool_outcome(None, field_name(f), !b, m.on_conflict);
    crate::report::lemma_current_after(s, m.policy_index, m.name, crate::report::stats_key(JsonV::Bool(!b)), o);
}

proof fn lemma_enum_match_contains(values: Seq<Seq<char>>, t: Seq<char>)
    requires
        values.contains(t),
    ensures
        enum_match(values, JsonV::String(t)) == Some(t),
    decreases values.len(),
{
    let j = choose|j: int| 0 <= j < values.len() && values[j] == t;
    let prev = values.drop_last();
    if j < values.len() - 1 {
        assert(prev[j] == t);
        lemma_enum_match_contains(prev, t);
    } else {
        match enum_match(prev, JsonV::String(t)) {
            Some(x) => lemma_enum_match_is_value(prev, JsonV::String(t)),
            None => {},
        }
    }
}

proof fn lemma_enum_match_is_value(values: Seq<Seq<char>>, v: JsonV)
    ensures
        enum_match(values, v) matches Some(x) ==> v == JsonV::String(x),
    decreases values.len(),
{
    if values.len() > 0 {
        lemma_enum_match_is_value(values.drop_last(), v);
    }
}

/// Every other field of a policy's action gets a fresh mask that carries the
/// action's value, with the default answer the original rule expects: a
/// number or a string is answered by default with the action's own value, an
/// array of strings with the empty array, and a declared enum value with a
/// false flag for the mask that stands for that value.
pub proof fn law_field_masks_carry_the_action(acc: RuleAcc, idx: usize, f: FieldV, action: JsonV, v: JsonV)
    requires
        !(f is Bool),
        json_get(action, field_name(f)) == Some(v),
        f is Number ==> v is Number,
        f is String ==> v is String,
        f is StringArray ==> (v matches JsonV::Array(items) && first_non_string(items) is None),
        f is StringEnum ==> (v matches JsonV::String(t) && f->StringEnum_values.contains(t)),
    ensures
        field_step(acc, idx, f, action) matches Ok(a) && {
            let mask = mask_text(acc.position);
            &&& a.masks == acc.masks.push(mask)
            &&& a.position == next_position(acc.position)
            &&& f is Number ==> crate::json::obj_get(a.default_return, mask) == Some(v) && a.number_masks.last().mask
                == mask && a.number_masks.last().value == Some(v->Number_0)
            &&& f is String ==> crate::json::obj_get(a.default_return, mask) == Some(v) && a.string_masks.last().mask
                == mask && a.string_masks.last().value == Some(v->String_0)
            &&& f is StringArray ==> crate::json::obj_get(a.default_return, mask) == Some(JsonV::Array(Seq::empty()))
                && a.string_array_masks.last().mask == mask
            &&& f is StringEnum ==> crate::json::obj_get(a.default_return, mask) == Some(JsonV::Bool(false))
                && a.string_enum_masks.last().mask == mask && a.string_enum_masks.last().value == Some(v->String_0)
        },
{
    let mask = mask_text(acc.position);
    let dr = match f {
        FieldV::Number { .. } => v,
        FieldV::String { .. } => v,
        FieldV::StringArray { .. } => JsonV::Array(Seq::empty()),
        _ => JsonV::Bool(false),
    };
    crate::json::lemma_obj_set_get(acc.default_return, mask, dr, mask);
    if let FieldV::StringEnum { values, .. } = f {
        lemma_enum_match_contains(values, v->String_0);
    }
}

} // verus!
