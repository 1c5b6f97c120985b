//! Defaults of a policy type, and the steps that turn a semantic injection
//! into a policy: masking the field names of the injection, building the
//! schema of the model's answer, and unmasking and cleaning the action.
use vstd::prelude::*;

use crate::field::{field_name, opt_number_view, opt_view, Field, FieldV};
use crate::json::{json_get, json_text_value, parse_json_text, key_index, lemma_key_index, obj_get, obj_set, obj_view, Json, JsonNumber, JsonV};
use crate::masking::ascii_lower;
use crate::number::is_number_text;
use crate::policy::{Policy, PolicyV};
use crate::policy_type::{trim_chars, trimmed, PolicyType, PolicyTypeV};
use crate::report_builder::{array_schema, type_schema};
use crate::text::{chars_of, debug_quoted, debug_string, push_text, replace_all, str_replace, string_from_chars, string_of, text_eq};

verus! {

// ------------------------------------------------------------------ defaults

/// The default value of a field: its default, `null` where it has none, and
/// an empty array for an array field.
pub open spec fn field_default(f: FieldV) -> JsonV {
    match f {
        FieldV::Bool { default, .. } => JsonV::Bool(default),
        FieldV::Number { default, .. } => match default {
            Some(n) => JsonV::Number(n),
            None => JsonV::Null,
        },
        FieldV::String { default, .. } => match default {
            Some(s) => JsonV::String(s),
            None => JsonV::Null,
        },
        FieldV::StringEnum { default, .. } => match default {
            Some(s) => JsonV::String(s),
            None => JsonV::Null,
        },
        FieldV::StringArray { .. } => JsonV::Array(Seq::empty()),
    }
}

/// Whether a default is kept in a policy type's defaults: booleans and
/// numbers always, strings, arrays and objects when not empty, `null` never.
pub open spec fn kept_default(v: JsonV) -> bool {
    match v {
        JsonV::Bool(_) => true,
        JsonV::Number(_) => true,
        JsonV::String(s) => s.len() > 0,
        JsonV::Array(a) => a.len() > 0,
        JsonV::Object(o) => o.len() > 0,
        JsonV::Null => false,
    }
}

/// The defaults of the fields `fs`, in order, keyed by field name.
pub open spec fn defaults_of(fs: Seq<FieldV>) -> Seq<(Seq<char>, JsonV)>
    decreases fs.len(),
{
    if fs.len() == 0 {
        Seq::empty()
    } else {
        let acc = defaults_of(fs.drop_last());
        let v = field_default(fs.last());
        if kept_default(v) {
            obj_set(acc, field_name(fs.last()), v)
        } else {
            acc
        }
    }
}

impl Field {
    /// The default value of this field.
    pub fn default_value(&self) -> (r: Json)
        ensures
            r@ == field_default(self@),
    {
        match self {
            Field::Bool { default, .. } => Json::Bool(*default),
            Field::Number { default, .. } => match default {
                Some(n) => Json::Number(n.copy()),
                None => Json::Null,
            },
            Field::String { default, .. } => match default {
                Some(s) => Json::String(s.clone()),
                None => Json::Null,
            },
            Field::StringEnum { default, .. } => match default {
                Some(s) => Json::String(s.clone()),
                None => Json::Null,
            },
            Field::StringArray { .. } => {
                let r = Json::Array(Vec::new());
                assert(r@->Array_0 =~= Seq::<JsonV>::empty());
                r
            },
        }
    }
}

fn is_kept(v: &Json) -> (r: bool)
    ensures
        r == kept_default(v@),
{
    match v {
        Json::Bool(_) => true,
        Json::Number(_) => true,
        Json::String(s) => !s.as_str().is_empty(),
        Json::Array(a) => a.len() > 0,
        Json::Object(o) => o.len() > 0,
        Json::Null => false,
    }
}

impl PolicyType {
    /// The defaults of this policy type, keyed by field name.
    pub fn default_value(&self) -> (r: Json)
        ensures
            r@ == JsonV::Object(defaults_of(self@.fields)),
    {
        let ghost fs = self@.fields;
        let mut m: Vec<(String, Json)> = Vec::new();
        let mut i: usize = 0;
        assert(obj_view(m@) =~= defaults_of(fs.take(0)));
        while i < self.fields.len()
            invariant
                0 <= i <= self.fields@.len(),
                fs == self@.fields,
                obj_view(m@) == defaults_of(fs.take(i as int)),
            decreases self.fields@.len() - i,
        {
            assert(fs.take(i + 1).drop_last() =~= fs.take(i as int));
            assert(fs.take(i + 1).last() == self.fields@[i as int]@);
            let v = self.fields[i].default_value();
            if is_kept(&v) {
                crate::json::object_set(&mut m, self.fields[i].name(), v);
            }
            i = i + 1;
        }
        assert(fs.take(i as int) =~= fs);
        let ghost mv = obj_view(m@);
        let r = Json::Object(m);
        assert(r@->Object_0 =~= mv);
        r
    }
}


// ------------------------------------------------------------------ the action clause

/// The index of the first `c` at or after `i`, or the length.
pub open spec fn index_of(s: Seq<char>, c: char, i: int) -> int
    decreases s.len() - i,
{
    if 0 <= i < s.len() && s[i] != c {
        index_of(s, c, i + 1)
    } else {
        i
    }
}

/// Whether `t` starts with the lowercase `p`, ignoring ASCII case.
pub open spec fn starts_ignoring_case(t: Seq<char>, p: Seq<char>) -> bool {
    t.len() >= p.len() && forall|i: int| 0 <= i < p.len() ==> ascii_lower(#[trigger] t[i]) == p[i]
}

/// The action part of a semantic injection: what follows the first colon,
/// or, after a leading "if " or "when ", what follows the first comma;
/// otherwise the whole injection; trimmed of white space.
pub open spec fn action_clause(injection: Seq<char>) -> Seq<char> {
    let t = trimmed(injection);
    let c = index_of(t, ':', 0);
    if c < t.len() {
        trimmed(t.skip(c + 1))
    } else if starts_ignoring_case(t, seq!['i', 'f', ' ']) || starts_ignoring_case(t, seq!['w', 'h', 'e', 'n', ' ']) {
        let k = index_of(t, ',', 0);
        if k < t.len() {
            trimmed(t.skip(k + 1))
        } else {
            t
        }
    } else {
        t
    }
}

proof fn lemma_index_of(s: Seq<char>, c: char, i: int)
    requires
        0 <= i <= s.len(),
    ensures
        i <= index_of(s, c, i) <= s.len(),
        index_of(s, c, i) < s.len() ==> s[index_of(s, c, i)] == c,
    decreases s.len() - i,
{
    if i < s.len() && s[i] != c {
        lemma_index_of(s, c, i + 1);
    }
}

fn find_char(v: &Vec<char>, c: char) -> (r: usize)
    ensures
        r as int == index_of(v@, c, 0),
        r <= v@.len(),
{
    let mut i: usize = 0;
    while i < v.len() && v[i] != c
        invariant
            0 <= i <= v@.len(),
            index_of(v@, c, i as int) == index_of(v@, c, 0),
        decreases v@.len() - i,
    {
        i = i + 1;
    }
    i
}

fn starts_ic(t: &Vec<char>, p: &Vec<char>) -> (r: bool)
    requires
        forall|i: int| 0 <= i < p@.len() ==> 'a' <= #[trigger] p@[i] <= 'z' || p@[i] == ' ',
    ensures
        r == starts_ignoring_case(t@, p@),
{
    if t.len() < p.len() {
        return false;
    }
    let mut i: usize = 0;
    while i < p.len()
        invariant
            0 <= i <= p@.len() <= t@.len(),
            forall|j: int| 0 <= j < i ==> ascii_lower(#[trigger] t@[j]) == p@[j],
        decreases p@.len() - i,
    {
        let c = crate::masking::to_ascii_lowercase(t[i]);
        if c != p[i] {
            return false;
        }
        i = i + 1;
    }
    true
}

fn chars_from(v: &Vec<char>, from: usize) -> (r: Vec<char>)
    requires
        from <= v@.len(),
    ensures
        r@ == v@.skip(from as int),
{
    let mut r: Vec<char> = Vec::new();
    let mut i: usize = from;
    while i < v.len()
        invariant
            from <= i <= v@.len(),
            r@ == v@.subrange(from as int, i as int),
        decreases v@.len() - i,
    {
        r.push(v[i]);
        i = i + 1;
        assert(r@ =~= v@.subrange(from as int, i as int));
    }
    assert(r@ =~= v@.skip(from as int));
    r
}

/// The action part of a semantic injection, trimmed.
pub fn semantic_action_clause(injection: &str) -> (r: String)
    ensures
        r@ == action_clause(injection@),
{
    let cs = chars_of(injection);
    let t = trim_chars(&cs);
    let c = find_char(&t, ':');
    let out = if c < t.len() {
        let rest = chars_from(&t, c + 1);
        trim_chars(&rest)
    } else {
        let if_prefix = vec!['i', 'f', ' '];
        let when_prefix = vec!['w', 'h', 'e', 'n', ' '];
        if starts_ic(&t, &if_prefix) || starts_ic(&t, &when_prefix) {
            let k = find_char(&t, ',');
            if k < t.len() {
                let rest = chars_from(&t, k + 1);
                trim_chars(&rest)
            } else {
                t
            }
        } else {
            t
        }
    };
    let r = string_from_chars(&out, 0, out.len());
    assert(out@.subrange(0, out@.len() as int) =~= out@);
    r
}

// ------------------------------------------------------------------ tokens

/// Characters of a token: ASCII letters and digits, and the underscore.
pub open spec fn token_char(c: char) -> bool {
    ('a' <= c && c <= 'z') || ('A' <= c && c <= 'Z') || ('0' <= c && c <= '9') || c == '_'
}

/// The index past the token that starts at `i`.
pub open spec fn token_end(s: Seq<char>, i: int) -> int
    decreases s.len() - i,
{
    if 0 <= i < s.len() && token_char(s[i]) {
        token_end(s, i + 1)
    } else {
        i
    }
}

/// Whether two texts are equal ignoring ASCII case.
pub open spec fn eq_ignoring_case(a: Seq<char>, b: Seq<char>) -> bool {
    a.len() == b.len() && forall|i: int| 0 <= i < a.len() ==> ascii_lower(#[trigger] a[i]) == ascii_lower(b[i])
}

/// A found token, or the replacement where it equals `token` ignoring ASCII case.
pub open spec fn replaced_token(found: Seq<char>, token: Seq<char>, replacement: Seq<char>) -> Seq<char> {
    if eq_ignoring_case(found, token) {
        replacement
    } else {
        found
    }
}

/// `s` from index `i` with every whole token equal to `token`, ignoring
/// ASCII case, replaced.
pub open spec fn replace_tokens(s: Seq<char>, i: int, token: Seq<char>, replacement: Seq<char>) -> Seq<char>
    decreases s.len() - i,
{
    if i < 0 || i >= s.len() {
        Seq::empty()
    } else if token_char(s[i]) {
        let e = token_end(s, i);
        if e <= i || e > s.len() {
            Seq::empty()
        } else {
            replaced_token(s.subrange(i, e), token, replacement) + replace_tokens(s, e, token, replacement)
        }
    } else {
        seq![s[i]] + replace_tokens(s, i + 1, token, replacement)
    }
}

proof fn lemma_token_end(s: Seq<char>, i: int)
    requires
        0 <= i <= s.len(),
    ensures
        i <= token_end(s, i) <= s.len(),
        token_end(s, i) < s.len() ==> !token_char(s[token_end(s, i)]),
    decreases s.len() - i,
{
    if i < s.len() && token_char(s[i]) {
        lemma_token_end(s, i + 1);
    }
}

fn eq_ic(a: &Vec<char>, b: &Vec<char>) -> (r: bool)
    ensures
        r == eq_ignoring_case(a@, b@),
{
    if a.len() != b.len() {
        return false;
    }
    let mut i: usize = 0;
    while i < a.len()
        invariant
            0 <= i <= a@.len(),
            a@.len() == b@.len(),
            forall|j: int| 0 <= j < i ==> ascii_lower(#[trigger] a@[j]) == ascii_lower(b@[j]),
        decreases a@.len() - i,
    {
        if crate::masking::to_ascii_lowercase(a[i]) != crate::masking::to_ascii_lowercase(b[i]) {
            return false;
        }
        i = i + 1;
    }
    true
}

/// Appends `input[start..end]`, or `replacement` where that equals `token`
/// ignoring ASCII case.
pub fn push_replaced_token(input: &Vec<char>, start: usize, end: usize, token: &Vec<char>, replacement: &str, output: &mut String)
    requires
        start <= end <= input@.len(),
    ensures
        final(output)@ == old(output)@ + replaced_token(input@.subrange(start as int, end as int), token@, replacement@),
{
    let mut found: Vec<char> = Vec::new();
    let mut i: usize = start;
    while i < end
        invariant
            start <= i <= end <= input@.len(),
            found@ == input@.subrange(start as int, i as int),
        decreases end - i,
    {
        found.push(input[i]);
        i = i + 1;
        assert(found@ =~= input@.subrange(start as int, i as int));
    }
    if eq_ic(&found, token) {
        push_text(output, replacement);
    } else {
        let f = string_from_chars(&found, 0, found.len());
        assert(found@.subrange(0, found@.len() as int) =~= found@);
        push_text(output, f.as_str());
    }
}

/// `input` with every whole token equal to `token`, ignoring ASCII case,
/// replaced by `replacement`.
pub fn replace_token(input: &str, token: &str, replacement: &str) -> (r: String)
    ensures
        r@ == replace_tokens(input@, 0, token@, replacement@),
{
    let cs = chars_of(input);
    let tk = chars_of(token);
    let ghost s = cs@;
    let mut out = String::new();
    let mut i: usize = 0;
    while i < cs.len()
        invariant
            0 <= i <= cs@.len(),
            s == cs@,
            s == input@,
            tk@ == token@,
            out@ + replace_tokens(s, i as int, token@, replacement@) == replace_tokens(s, 0, token@, replacement@),
        decreases cs@.len() - i,
    {
        let ghost before = out@;
        if token_char_of(cs[i]) {
            let mut e = i;
            while e < cs.len() && token_char_of(cs[e])
                invariant
                    i <= e <= cs@.len(),
                    s == cs@,
                    token_end(s, e as int) == token_end(s, i as int),
                decreases cs@.len() - e,
            {
                e = e + 1;
            }
            proof {
                lemma_token_end(s, i as int);
            }
            push_replaced_token(&cs, i, e, &tk, replacement, &mut out);
            assert(before + replace_tokens(s, i as int, token@, replacement@) =~= out@ + replace_tokens(s, e as int, token@, replacement@));
            i = e;
        } else {
            out.push(cs[i]);
            assert(before + replace_tokens(s, i as int, token@, replacement@) =~= out@ + replace_tokens(s, i + 1, token@, replacement@));
            i = i + 1;
        }
    }
    assert(replace_tokens(s, i as int, token@, replacement@) =~= Seq::<char>::empty());
    assert(out@ + Seq::<char>::empty() =~= out@);
    out
}

fn token_char_of(c: char) -> (r: bool)
    ensures
        r == token_char(c),
{
    ('a' <= c && c <= 'z') || ('A' <= c && c <= 'Z') || ('0' <= c && c <= '9') || c == '_'
}


// ------------------------------------------------------------------ cleaning the action

/// A value of the action coerced to field `f`, or nothing where it cannot
/// be: the strings "true" and "false" become booleans, a string holding a
/// decimal number becomes that number.
pub open spec fn coerced(f: FieldV, v: JsonV) -> Option<JsonV> {
    match f {
        FieldV::Bool { .. } => match v {
            JsonV::Bool(_) => Some(v),
            JsonV::String(s) => if s == seq!['t', 'r', 'u', 'e'] {
                Some(JsonV::Bool(true))
            } else if s == seq!['f', 'a', 'l', 's', 'e'] {
                Some(JsonV::Bool(false))
            } else {
                None
            },
            _ => None,
        },
        FieldV::Number { .. } => match v {
            JsonV::Number(_) => Some(v),
            JsonV::String(s) => if is_number_text(s) {
                Some(JsonV::Number(s))
            } else {
                None
            },
            _ => None,
        },
        FieldV::String { .. } => if v is String {
            Some(v)
        } else {
            None
        },
        FieldV::StringEnum { values, .. } => match v {
            JsonV::String(s) => if values.contains(s) {
                Some(v)
            } else {
                None
            },
            _ => None,
        },
        FieldV::StringArray { .. } => match v {
            JsonV::Array(a) => if crate::compiler::all_strings(a) {
                Some(v)
            } else {
                None
            },
            _ => None,
        },
    }
}

/// Coerces a value of the action to `field`; whether it fits.
pub fn coerce_action_value(field: &Field, value: &mut Json) -> (r: bool)
    ensures
        r == coerced(field@, old(value)@) is Some,
        r ==> Some(final(value)@) == coerced(field@, old(value)@),
{
    match field {
        Field::Bool { .. } => {
            let new = match &*value {
                Json::Bool(_) => {
                    return true;
                },
                Json::String(s) => {
                    proof {
                        reveal_strlit("true");
                        reveal_strlit("false");
                        assert("true"@ =~= seq!['t', 'r', 'u', 'e']);
                        assert("false"@ =~= seq!['f', 'a', 'l', 's', 'e']);
                    }
                    if text_eq(s.as_str(), "true") {
                        Json::Bool(true)
                    } else if text_eq(s.as_str(), "false") {
                        Json::Bool(false)
                    } else {
                        return false;
                    }
                },
                _ => {
                    return false;
                },
            };
            *value = new;
            true
        },
        Field::Number { .. } => {
            let new = match &*value {
                Json::Number(_) => {
                    return true;
                },
                Json::String(s) => {
                    if crate::number::check_number_text(s.as_str()) {
                        Json::Number(JsonNumber::from_literal(s.clone()))
                    } else {
                        return false;
                    }
                },
                _ => {
                    return false;
                },
            };
            *value = new;
            true
        },
        Field::String { .. } => match &*value {
            Json::String(_) => true,
            _ => false,
        },
        Field::StringEnum { values, .. } => match &*value {
            Json::String(s) => crate::compiler::contains_string(values, s.as_str()),
            _ => false,
        },
        Field::StringArray { .. } => match &*value {
            Json::Array(a) => {
                assert(Seq::new(a@.len(), |j: int| a@[j]@) =~= value@->Array_0);
                crate::compiler::all_strings_of(a)
            },
            _ => false,
        },
    }
}

/// The index of the first field named `name`, or -1.
pub open spec fn field_position(fs: Seq<FieldV>, name: Seq<char>) -> int {
    crate::compiler::field_index(fs, name)
}

/// The members of an action kept after cleaning: those naming a field of
/// the type, coerced to it; the others are dropped.
pub open spec fn sanitized(fs: Seq<FieldV>, m: Seq<(Seq<char>, JsonV)>) -> Seq<(Seq<char>, JsonV)>
    decreases m.len(),
{
    if m.len() == 0 {
        Seq::empty()
    } else {
        let rest = sanitized(fs, m.drop_last());
        let (name, value) = m.last();
        let i = field_position(fs, name);
        if i < 0 {
            rest
        } else {
            match coerced(fs[i], value) {
                Some(v) => rest.push((name, v)),
                None => rest,
            }
        }
    }
}

impl PolicyType {
    /// Keeps the members of an object action that name a field of this type
    /// and can be coerced to it; an action that is not an object stays.
    pub fn sanitize_semantic_action(&self, action: &mut Json)
        ensures
            match old(action)@ {
                JsonV::Object(m) => final(action)@ == JsonV::Object(sanitized(self@.fields, m)),
                _ => final(action)@ == old(action)@,
            },
    {
        let ghost fs = self@.fields;
        let mut old_action = Json::Null;
        std::mem::swap(&mut old_action, action);
        let ghost av = old_action@;
        let m = match old_action {
            Json::Object(m) => m,
            other => {
                *action = other;
                return;
            },
        };
        assert(obj_view(m@) =~= av->Object_0);
        let ghost mv = obj_view(m@);
        let mut kept: Vec<(String, Json)> = Vec::new();
        let mut i: usize = 0;
        assert(mv.take(0) =~= Seq::<(Seq<char>, JsonV)>::empty());
        for item in it: m
            invariant
                it.seq() == m@,
                mv == obj_view(m@),
                fs == self@.fields,
                obj_view(kept@) == sanitized(fs, mv.take(it.index() as int)),
        {
            let ghost k = it.index();
            assert(mv.take(k + 1).drop_last() =~= mv.take(k as int));
            assert(mv.take(k + 1).last() == (item.0@, item.1@));
            let (name, mut value) = item;
            match crate::compiler::find_field(&self.fields, name.as_str()) {
                Some(field) => {
                    if coerce_action_value(field, &mut value) {
                        let ghost before = obj_view(kept@);
                        let ghost nv = (name@, value@);
                        kept.push((name, value));
                        assert(obj_view(kept@) =~= before.push(nv));
                    }
                },
                None => {},
            }
        }
        assert(mv.take(m@.len() as int) =~= mv);
        let ghost kv = obj_view(kept@);
        *action = Json::Object(kept);
        assert(action@->Object_0 =~= kv);
    }
}


// ------------------------------------------------------------------ masking the injection

/// A field of a policy type under a mask, for asking the model for an action.
#[derive(Debug)]
pub struct SemanticActionMask {
    /// The field's name.
    pub name: String,
    /// The field's mask.
    pub mask: String,
    /// For an enum field, each declared value with its mask.
    pub enum_values: Vec<(String, String)>,
    /// The schema of the field's value, with enum values masked.
    pub schema: Json,
}

/// The mathematical value of a field under a mask.
pub struct SemanticMaskV {
    pub name: Seq<char>,
    pub mask: Seq<char>,
    pub enum_values: Seq<(Seq<char>, Seq<char>)>,
    pub schema: JsonV,
}

impl View for SemanticActionMask {
    type V = SemanticMaskV;

    open spec fn view(&self) -> SemanticMaskV {
        SemanticMaskV {
            name: self.name@,
            mask: self.mask@,
            enum_values: Seq::new(self.enum_values@.len(), |i: int| (self.enum_values@[i].0@, self.enum_values@[i].1@)),
            schema: self.schema@,
        }
    }
}

/// The views of a sequence of masked fields.
pub open spec fn semantic_masks_view(v: Seq<SemanticActionMask>) -> Seq<SemanticMaskV> {
    Seq::new(v.len(), |i: int| v[i]@)
}

/// The schema of a field's value; an enum's values appear as their masks.
pub open spec fn field_schema(f: FieldV, enum_masks: Seq<Seq<char>>) -> JsonV {
    match f {
        FieldV::Bool { .. } => type_schema("boolean"@),
        FieldV::Number { .. } => type_schema("number"@),
        FieldV::String { .. } => type_schema("string"@),
        FieldV::StringEnum { .. } => JsonV::Object(
            seq![
                ("type"@, JsonV::String("string"@)),
                ("enum"@, JsonV::Array(Seq::new(enum_masks.len(), |i: int| JsonV::String(enum_masks[i])))),
            ],
        ),
        FieldV::StringArray { .. } => array_schema(type_schema("string"@)),
    }
}

/// Field `f` under mask `mask`, its enum values under `enum_masks`.
pub open spec fn mask_of(f: FieldV, mask: Seq<char>, enum_masks: Seq<Seq<char>>) -> SemanticMaskV {
    SemanticMaskV {
        name: field_name(f),
        mask,
        enum_values: match f {
            FieldV::StringEnum { values, .. } => Seq::new(values.len(), |i: int| (values[i], enum_masks[i])),
            _ => Seq::empty(),
        },
        schema: field_schema(f, enum_masks),
    }
}

/// What a fresh mask looks like: the 36 characters of a hyphenated UUID.
pub open spec fn uuid_shaped(s: Seq<char>) -> bool {
    s.len() == 36 && forall|i: int| 0 <= i < 36 ==> (('0' <= #[trigger] s[i] && s[i] <= '9') || ('a' <= s[i] && s[i] <= 'f') || s[i] == '-')
}

/// Calls `Uuid::new_v4().to_string()`: a random version 4 UUID, written in
/// its hyphenated form of 36 lowercase hexadecimal digits and hyphens.
#[verifier::external_body]
fn new_uuid() -> (r: String)
    ensures
        uuid_shaped(r@),
{
    uuid::Uuid::new_v4().to_string()
}

pub(crate) fn schema_of_field(f: &Field, enum_masks: &Vec<String>) -> (r: Json)
    ensures
        r@ == field_schema(f@, enum_masks.deep_view()),
{
    match f {
        Field::Bool { .. } => crate::report_builder::type_schema_of("boolean"),
        Field::Number { .. } => crate::report_builder::type_schema_of("number"),
        Field::String { .. } => crate::report_builder::type_schema_of("string"),
        Field::StringEnum { .. } => {
            let mut items: Vec<Json> = Vec::new();
            let mut i: usize = 0;
            while i < enum_masks.len()
                invariant
                    0 <= i <= enum_masks@.len(),
                    items@.len() == i,
                    forall|j: int| 0 <= j < i ==> (#[trigger] items@[j])@ == JsonV::String(enum_masks@[j]@),
                decreases enum_masks@.len() - i,
            {
                let item = Json::String(enum_masks[i].clone());
                assert(item@ == JsonV::String(enum_masks@[i as int]@));
                items.push(item);
                i = i + 1;
            }
            let mut m: Vec<(String, Json)> = Vec::new();
            let t = Json::String(string_of("string"));
            assert(t@ == JsonV::String("string"@));
            m.push((string_of("type"), t));
            let arr = Json::Array(items);
            assert(arr@->Array_0 =~= Seq::new(enum_masks.deep_view().len(), |i: int| JsonV::String(enum_masks.deep_view()[i])));
            m.push((string_of("enum"), arr));
            let r = Json::Object(m);
            assert(r@->Object_0[0] == (m@[0].0@, m@[0].1@));
            assert(r@->Object_0[1] == (m@[1].0@, m@[1].1@));
            assert(r@->Object_0 =~= field_schema(f@, enum_masks.deep_view())->Object_0);
            r
        },
        Field::StringArray { .. } => crate::report_builder::array_schema_of(crate::report_builder::type_schema_of("string")),
    }
}

impl PolicyType {
    /// Each field under a fresh random mask, each enum value too, with the
    /// schema of the field's value.
    pub fn semantic_masks(&self) -> (r: Vec<SemanticActionMask>)
        ensures
            r@.len() == self.fields@.len(),
            forall|i: int| 0 <= i < r@.len() ==> {
                let m = (#[trigger] r@[i])@;
                &&& m == mask_of(self.fields@[i]@, m.mask, Seq::new(m.enum_values.len(), |j: int| m.enum_values[j].1))
                &&& uuid_shaped(m.mask)
                &&& forall|j: int| 0 <= j < m.enum_values.len() ==> uuid_shaped(#[trigger] m.enum_values[j].1)
            },
    {
        let mut out: Vec<SemanticActionMask> = Vec::new();
        let mut i: usize = 0;
        while i < self.fields.len()
            invariant
                0 <= i <= self.fields@.len(),
                out@.len() == i,
                forall|k: int| 0 <= k < i ==> {
                    let m = (#[trigger] out@[k])@;
                    &&& m == mask_of(self.fields@[k]@, m.mask, Seq::new(m.enum_values.len(), |j: int| m.enum_values[j].1))
                    &&& uuid_shaped(m.mask)
                    &&& forall|j: int| 0 <= j < m.enum_values.len() ==> uuid_shaped(#[trigger] m.enum_values[j].1)
                },
            decreases self.fields@.len() - i,
        {
            let f = &self.fields[i];
            let field_mask = new_uuid();
            let mut enum_masks: Vec<String> = Vec::new();
            let mut enum_values: Vec<(String, String)> = Vec::new();
            match f {
                Field::StringEnum { values, .. } => {
                    let mut k: usize = 0;
                    while k < values.len()
                        invariant
                            0 <= k <= values@.len(),
                            enum_masks@.len() == k,
                            enum_values@.len() == k,
                            forall|j: int| 0 <= j < k ==> (#[trigger] enum_values@[j]).0@ == values@[j]@
                                && enum_values@[j].1@ == enum_masks@[j]@ && uuid_shaped(enum_masks@[j]@),
                        decreases values@.len() - k,
                    {
                        let m = new_uuid();
                        enum_values.push((values[k].clone(), m.clone()));
                        enum_masks.push(m);
                        k = k + 1;
                    }
                },
                _ => {},
            }
            let schema = schema_of_field(f, &enum_masks);
            let sm = SemanticActionMask { name: string_of(f.name()), mask: field_mask, enum_values, schema };
            proof {
                let m = sm@;
                let em = Seq::new(m.enum_values.len(), |j: int| m.enum_values[j].1);
                assert(em =~= enum_masks.deep_view());
                match f@ {
                    FieldV::StringEnum { values: vs, .. } => {
                        assert(m.enum_values =~= Seq::new(vs.len(), |j: int| (vs[j], em[j])));
                    },
                    _ => {
                        assert(m.enum_values =~= Seq::<(Seq<char>, Seq<char>)>::empty());
                    },
                }
            }
            out.push(sm);
            i = i + 1;
        }
        out
    }
}

/// Masks the quoted enum values of `enum_values` in `t`.
pub open spec fn mask_enum_values(t: Seq<char>, enum_values: Seq<(Seq<char>, Seq<char>)>) -> Seq<char>
    decreases enum_values.len(),
{
    if enum_values.len() == 0 {
        t
    } else {
        let (v, m) = enum_values.last();
        replace_all(mask_enum_values(t, enum_values.drop_last()), debug_quoted(v), debug_quoted(m))
    }
}

/// Masks one field in `t`: its name as a token, the name without a final
/// `s` as a token, and its quoted enum values.
pub open spec fn mask_field(t: Seq<char>, m: SemanticMaskV) -> Seq<char> {
    let t1 = replace_tokens(t, 0, m.name, m.mask);
    let t2 = if m.name.len() > 0 && m.name.last() == 's' {
        replace_tokens(t1, 0, m.name.drop_last(), m.mask)
    } else {
        t1
    };
    mask_enum_values(t2, m.enum_values)
}

/// Masks every field in `t`, in order.
pub open spec fn mask_fields(t: Seq<char>, ms: Seq<SemanticMaskV>) -> Seq<char>
    decreases ms.len(),
{
    if ms.len() == 0 {
        t
    } else {
        mask_field(mask_fields(t, ms.drop_last()), ms.last())
    }
}

/// The action part of an injection with every field masked.
pub fn masked_injection(injection: &str, masks: &Vec<SemanticActionMask>) -> (r: String)
    ensures
        r@ == mask_fields(action_clause(injection@), semantic_masks_view(masks@)),
{
    let ghost ms = semantic_masks_view(masks@);
    let mut text = semantic_action_clause(injection);
    let mut i: usize = 0;
    assert(ms.take(0) =~= Seq::<SemanticMaskV>::empty());
    while i < masks.len()
        invariant
            0 <= i <= masks@.len(),
            ms == semantic_masks_view(masks@),
            text@ == mask_fields(action_clause(injection@), ms.take(i as int)),
        decreases masks@.len() - i,
    {
        assert(ms.take(i + 1).drop_last() =~= ms.take(i as int));
        let m = &masks[i];
        let ghost t0 = text@;
        text = replace_token(text.as_str(), m.name.as_str(), m.mask.as_str());
        let name = chars_of(m.name.as_str());
        let n = name.len();
        if n > 0 && name[n - 1] == 's' {
            let singular = string_from_chars(&name, 0, n - 1);
            assert(name@.subrange(0, n - 1) =~= m.name@.drop_last());
            text = replace_token(text.as_str(), singular.as_str(), m.mask.as_str());
        }
        let ghost t2 = text@;
        let ghost ev = m@.enum_values;
        let mut k: usize = 0;
        assert(ev.take(0) =~= Seq::<(Seq<char>, Seq<char>)>::empty());
        while k < m.enum_values.len()
            invariant
                0 <= k <= m.enum_values@.len(),
                ev == m@.enum_values,
                text@ == mask_enum_values(t2, ev.take(k as int)),
            decreases m.enum_values@.len() - k,
        {
            assert(ev.take(k + 1).drop_last() =~= ev.take(k as int));
            let from = debug_string(m.enum_values[k].0.as_str());
            let to = debug_string(m.enum_values[k].1.as_str());
            text = str_replace(text.as_str(), from.as_str(), to.as_str());
            k = k + 1;
        }
        assert(ev.take(k as int) =~= ev);
        assert(ms.take(i + 1).last() == m@);
        i = i + 1;
    }
    assert(ms.take(i as int) =~= ms);
    text
}

/// Whether `m` occurs in `s`.
pub open spec fn occurs(s: Seq<char>, m: Seq<char>) -> bool {
    exists|i: int| 0 <= i && i + m.len() <= s.len() && #[trigger] s.subrange(i, i + m.len()) == m
}

fn occurs_in(s: &Vec<char>, m: &Vec<char>) -> (r: bool)
    ensures
        r == occurs(s@, m@),
{
    let n = s.len();
    if m.len() > n {
        return false;
    }
    let limit = n - m.len();
    let mut i: usize = 0;
    loop
        invariant
            0 <= i <= limit,
            n == s@.len(),
            limit + m@.len() == n,
            forall|j: int| 0 <= j < i ==> #[trigger] s@.subrange(j, j + m@.len()) != m@,
        decreases limit - i,
    {
        let mut k: usize = 0;
        let mut same = true;
        while k < m.len()
            invariant
                0 <= k <= m@.len(),
                i <= limit,
                n == s@.len(),
                limit + m@.len() == n,
                same == forall|j: int| 0 <= j < k ==> s@[i + j] == m@[j],
            decreases m@.len() - k,
        {
            if s[i + k] != m[k] {
                same = false;
            }
            k = k + 1;
        }
        if same {
            assert(s@.subrange(i as int, i + m@.len()) =~= m@);
            return true;
        }
        assert(s@.subrange(i as int, i + m@.len()) != m@) by {
            let j = choose|j: int| 0 <= j < m@.len() && s@[i + j] != m@[j];
            assert(s@.subrange(i as int, i + m@.len())[j] == s@[i + j]);
        }
        if i == limit {
            assert forall|j: int| 0 <= j && j + m@.len() <= s@.len() implies #[trigger] s@.subrange(j, j + m@.len()) != m@ by {
                assert(j <= i);
            }
            return false;
        }
        i = i + 1;
    }
}

/// The members of the schema's properties and its required masks: those of
/// the fields whose mask occurs in the masked injection.
pub open spec fn schema_parts(text: Seq<char>, ms: Seq<SemanticMaskV>) -> (Seq<(Seq<char>, JsonV)>, Seq<Seq<char>>)
    decreases ms.len(),
{
    if ms.len() == 0 {
        (Seq::empty(), Seq::empty())
    } else {
        let (props, req) = schema_parts(text, ms.drop_last());
        let m = ms.last();
        if occurs(text, m.mask) {
            (obj_set(props, m.mask, m.schema), req.push(m.mask))
        } else {
            (props, req)
        }
    }
}

/// The schema of the model's answer: an object of the masked fields that
/// occur in the masked injection, all required, and no others.
pub open spec fn semantic_schema_of(text: Seq<char>, ms: Seq<SemanticMaskV>) -> JsonV {
    let (props, req) = schema_parts(text, ms);
    JsonV::Object(
        seq![
            ("required"@, JsonV::Array(Seq::new(req.len(), |i: int| JsonV::String(req[i])))),
            ("type"@, JsonV::String("object"@)),
            ("properties"@, JsonV::Object(props)),
            ("additionalProperties"@, JsonV::Bool(false)),
        ],
    )
}

/// The schema of the model's answer to a masked injection.
pub fn semantic_schema(masked: &str, masks: &Vec<SemanticActionMask>) -> (r: Json)
    ensures
        r@ == semantic_schema_of(masked@, semantic_masks_view(masks@)),
{
    let ghost ms = semantic_masks_view(masks@);
    let text = chars_of(masked);
    let mut props: Vec<(String, Json)> = Vec::new();
    let mut req: Vec<String> = Vec::new();
    let mut i: usize = 0;
    assert(ms.take(0) =~= Seq::<SemanticMaskV>::empty());
    assert(obj_view(props@) =~= Seq::<(Seq<char>, JsonV)>::empty());
    assert(req.deep_view() =~= Seq::<Seq<char>>::empty());
    while i < masks.len()
        invariant
            0 <= i <= masks@.len(),
            ms == semantic_masks_view(masks@),
            text@ == masked@,
            (obj_view(props@), req.deep_view()) == schema_parts(masked@, ms.take(i as int)),
        decreases masks@.len() - i,
    {
        assert(ms.take(i + 1).drop_last() =~= ms.take(i as int));
        assert(ms.take(i + 1).last() == masks@[i as int]@);
        let m = &masks[i];
        let mc = chars_of(m.mask.as_str());
        if occurs_in(&text, &mc) {
            crate::json::object_set(&mut props, m.mask.as_str(), m.schema.copy());
            let ghost before = req.deep_view();
            req.push(m.mask.clone());
            assert(req.deep_view() =~= before.push(m.mask@));
        }
        i = i + 1;
    }
    assert(ms.take(i as int) =~= ms);
    let mut items: Vec<Json> = Vec::new();
    let mut k: usize = 0;
    while k < req.len()
        invariant
            0 <= k <= req@.len(),
            items@.len() == k,
            forall|j: int| 0 <= j < k ==> (#[trigger] items@[j])@ == JsonV::String(req@[j]@),
        decreases req@.len() - k,
    {
        let item = Json::String(req[k].clone());
        assert(item@ == JsonV::String(req@[k as int]@));
        items.push(item);
        k = k + 1;
    }
    let ghost pv = obj_view(props@);
    let ghost rv = req.deep_view();
    let mut m: Vec<(String, Json)> = Vec::new();
    let arr = Json::Array(items);
    assert(arr@->Array_0 =~= Seq::new(rv.len(), |i: int| JsonV::String(rv[i])));
    m.push((string_of("required"), arr));
    let t = Json::String(string_of("object"));
    assert(t@ == JsonV::String("object"@));
    m.push((string_of("type"), t));
    let p = Json::Object(props);
    assert(p@->Object_0 =~= pv);
    m.push((string_of("properties"), p));
    m.push((string_of("additionalProperties"), Json::Bool(false)));
    let r = Json::Object(m);
    assert(r@->Object_0[0] == (m@[0].0@, m@[0].1@));
    assert(r@->Object_0[1] == (m@[1].0@, m@[1].1@));
    assert(r@->Object_0[2] == (m@[2].0@, m@[2].1@));
    assert(r@->Object_0[3] == (m@[3].0@, m@[3].1@));
    assert(r@->Object_0 =~= semantic_schema_of(masked@, ms)->Object_0);
    r
}


// ------------------------------------------------------------------ unmasking the answer

/// The enum value whose mask is `s`, the first such.
pub open spec fn enum_value_for(enum_values: Seq<(Seq<char>, Seq<char>)>, s: Seq<char>) -> Option<Seq<char>>
    decreases enum_values.len(),
{
    if enum_values.len() == 0 {
        None
    } else {
        match enum_value_for(enum_values.drop_last(), s) {
            Some(v) => Some(v),
            None => if enum_values.last().1 == s {
                Some(enum_values.last().0)
            } else {
                None
            },
        }
    }
}

/// A value of the answer with an enum mask replaced by its value.
pub open spec fn unmasked_value(m: SemanticMaskV, v: JsonV) -> JsonV {
    match v {
        JsonV::String(s) => match enum_value_for(m.enum_values, s) {
            Some(e) => JsonV::String(e),
            None => v,
        },
        _ => v,
    }
}

/// The answer's members taken out under their masks and put under the
/// fields' names, mask by mask; returns what remains and what was built.
pub open spec fn unmask_members(ms: Seq<SemanticMaskV>, m: Seq<(Seq<char>, JsonV)>) -> (Seq<(Seq<char>, JsonV)>, Seq<(Seq<char>, JsonV)>)
    decreases ms.len(),
{
    if ms.len() == 0 {
        (m, Seq::empty())
    } else {
        let (rest, out) = unmask_members(ms.drop_last(), m);
        let mk = ms.last();
        let i = key_index(rest, mk.mask);
        if i < 0 {
            (rest, out)
        } else {
            (rest.remove(i), obj_set(out, mk.name, unmasked_value(mk, rest[i].1)))
        }
    }
}

fn enum_value_of(enum_values: &Vec<(String, String)>, s: &str) -> (r: Option<String>)
    ensures
        opt_view(r) == enum_value_for(Seq::new(enum_values@.len(), |i: int| (enum_values@[i].0@, enum_values@[i].1@)), s@),
{
    let ghost ev = Seq::new(enum_values@.len(), |i: int| (enum_values@[i].0@, enum_values@[i].1@));
    let mut i: usize = 0;
    assert(ev.take(0) =~= Seq::<(Seq<char>, Seq<char>)>::empty());
    while i < enum_values.len()
        invariant
            0 <= i <= enum_values@.len(),
            ev == Seq::new(enum_values@.len(), |i: int| (enum_values@[i].0@, enum_values@[i].1@)),
            enum_value_for(ev.take(i as int), s@) is None,
        decreases enum_values@.len() - i,
    {
        assert(ev.take(i + 1).drop_last() =~= ev.take(i as int));
        if text_eq(enum_values[i].1.as_str(), s) {
            proof {
                lemma_enum_value_prefix(ev, i as int + 1, s@);
            }
            return Some(enum_values[i].0.clone());
        }
        i = i + 1;
    }
    assert(ev.take(i as int) =~= ev);
    None
}

proof fn lemma_enum_value_prefix(ev: Seq<(Seq<char>, Seq<char>)>, n: int, s: Seq<char>)
    requires
        0 <= n <= ev.len(),
        enum_value_for(ev.take(n), s) is Some,
    ensures
        enum_value_for(ev, s) == enum_value_for(ev.take(n), s),
    decreases ev.len() - n,
{
    if n < ev.len() {
        assert(ev.take(n + 1).drop_last() =~= ev.take(n));
        lemma_enum_value_prefix(ev, n + 1, s);
    } else {
        assert(ev.take(n) =~= ev);
    }
}

/// Puts the answer's values back under the fields' names, enum masks
/// replaced by their values; an answer that is not an object stays.
pub fn unmask_semantic_action(masks: &Vec<SemanticActionMask>, action: &mut Json)
    ensures
        match old(action)@ {
            JsonV::Object(m) => final(action)@ == JsonV::Object(unmask_members(semantic_masks_view(masks@), m).1),
            _ => final(action)@ == old(action)@,
        },
{
    let ghost ms = semantic_masks_view(masks@);
    let mut old_action = Json::Null;
    std::mem::swap(&mut old_action, action);
    let ghost av = old_action@;
    let mut object = match old_action {
        Json::Object(m) => m,
        other => {
            *action = other;
            return;
        },
    };
    assert(obj_view(object@) =~= av->Object_0);
    let mut unmasked: Vec<(String, Json)> = Vec::new();
    let mut i: usize = 0;
    assert(ms.take(0) =~= Seq::<SemanticMaskV>::empty());
    assert(obj_view(unmasked@) =~= Seq::<(Seq<char>, JsonV)>::empty());
    while i < masks.len()
        invariant
            0 <= i <= masks@.len(),
            ms == semantic_masks_view(masks@),
            (obj_view(object@), obj_view(unmasked@)) == unmask_members(ms.take(i as int), av->Object_0),
        decreases masks@.len() - i,
    {
        assert(ms.take(i + 1).drop_last() =~= ms.take(i as int));
        assert(ms.take(i + 1).last() == masks@[i as int]@);
        let mk = &masks[i];
        let ghost rest = obj_view(object@);
        match crate::json::find_member(&object, mk.mask.as_str()) {
            Some(k) => {
                proof {
                    lemma_key_index(rest, mk.mask@);
                }
                let (_, value) = object.remove(k);
                assert(obj_view(object@) =~= rest.remove(k as int));
                let v = match &value {
                    Json::String(s) => match enum_value_of(&mk.enum_values, s.as_str()) {
                        Some(e) => Json::String(e),
                        None => value,
                    },
                    _ => value,
                };
                crate::json::object_set(&mut unmasked, mk.name.as_str(), v);
            },
            None => {},
        }
        i = i + 1;
    }
    assert(ms.take(i as int) =~= ms);
    let ghost uv = obj_view(unmasked@);
    *action = Json::Object(unmasked);
    assert(action@->Object_0 =~= uv);
}

// ------------------------------------------------------------------ the answer's text

/// The index of the first occurrence of `p` in `s` at or after `i`, or -1.
pub open spec fn find_from(s: Seq<char>, p: Seq<char>, i: int) -> int
    decreases s.len() + 1 - i,
{
    if i < 0 || i + p.len() > s.len() {
        -1
    } else if s.subrange(i, i + p.len()) == p {
        i
    } else {
        find_from(s, p, i + 1)
    }
}

/// The index of the last `c` in `s`, or -1.
pub open spec fn last_index_of(s: Seq<char>, c: char) -> int
    decreases s.len(),
{
    if s.len() == 0 {
        -1
    } else if s.last() == c {
        s.len() - 1
    } else {
        last_index_of(s.drop_last(), c)
    }
}


/// The text "```json" that opens a JSON code block.
pub open spec fn json_fence() -> Seq<char> {
    seq!['`', '`', '`', 'j', 's', 'o', 'n']
}

/// The text "```" that closes a code block.
pub open spec fn fence() -> Seq<char> {
    seq!['`', '`', '`']
}

/// Whether the answer's text can be cut as `json_content` cuts it: where
/// there is no JSON code block and there is a `{`, a `}` does not come
/// only before it.
pub open spec fn json_content_cuttable(raw: Seq<char>) -> bool {
    find_from(raw, json_fence(), 0) >= 0 || index_of(raw, '{', 0) >= raw.len() || last_index_of(raw, '}') < 0
        || last_index_of(raw, '}') >= index_of(raw, '{', 0)
}

/// The JSON in the model's answer: the inside of the first JSON code block,
/// else everything from the first `{` to the last `}`, else the whole
/// answer; trimmed except in the middle case.
pub open spec fn json_content(raw: Seq<char>) -> Seq<char> {
    let start = find_from(raw, json_fence(), 0);
    if start >= 0 {
        let after = raw.skip(start + 7);
        let end = find_from(after, fence(), 0);
        if end >= 0 {
            trimmed(after.take(end))
        } else {
            trimmed(raw)
        }
    } else {
        let b = index_of(raw, '{', 0);
        if b < raw.len() {
            let e = last_index_of(raw, '}');
            if e >= 0 {
                raw.subrange(b, e + 1)
            } else {
                trimmed(raw)
            }
        } else {
            trimmed(raw)
        }
    }
}

proof fn lemma_find_from(s: Seq<char>, p: Seq<char>, i: int)
    requires
        0 <= i,
    ensures
        find_from(s, p, i) == -1 || (i <= find_from(s, p, i) && find_from(s, p, i) + p.len() <= s.len()),
    decreases s.len() + 1 - i,
{
    if i + p.len() <= s.len() && s.subrange(i, i + p.len()) != p {
        lemma_find_from(s, p, i + 1);
    }
}

proof fn lemma_last_index(s: Seq<char>, c: char)
    ensures
        -1 <= last_index_of(s, c) < s.len(),
    decreases s.len(),
{
    if s.len() > 0 && s.last() != c {
        lemma_last_index(s.drop_last(), c);
    }
}

fn find_text_from(s: &Vec<char>, p: &Vec<char>) -> (r: Option<usize>)
    ensures
        match r {
            Some(i) => find_from(s@, p@, 0) == i as int,
            None => find_from(s@, p@, 0) == -1,
        },
{
    let n = s.len();
    if p.len() > n {
        return None;
    }
    let limit = n - p.len();
    let mut i: usize = 0;
    loop
        invariant
            0 <= i <= limit,
            n == s@.len(),
            limit + p@.len() == n,
            find_from(s@, p@, i as int) == find_from(s@, p@, 0),
        decreases limit - i,
    {
        let mut k: usize = 0;
        let mut same = true;
        while k < p.len()
            invariant
                0 <= k <= p@.len(),
                i <= limit,
                n == s@.len(),
                limit + p@.len() == n,
                same == forall|j: int| 0 <= j < k ==> s@[i + j] == p@[j],
            decreases p@.len() - k,
        {
            if s[i + k] != p[k] {
                same = false;
            }
            k = k + 1;
        }
        if same {
            assert(s@.subrange(i as int, i + p@.len()) =~= p@);
            return Some(i);
        }
        assert(s@.subrange(i as int, i + p@.len()) != p@) by {
            let j = choose|j: int| 0 <= j < p@.len() && s@[i + j] != p@[j];
            assert(s@.subrange(i as int, i + p@.len())[j] == s@[i + j]);
        }
        if i == limit {
            assert(find_from(s@, p@, i + 1) == -1);
            return None;
        }
        i = i + 1;
    }
}

fn last_index(s: &Vec<char>, c: char) -> (r: Option<usize>)
    ensures
        match r {
            Some(i) => last_index_of(s@, c) == i as int,
            None => last_index_of(s@, c) == -1,
        },
{
    let mut i: usize = s.len();
    assert(s@.take(s@.len() as int) =~= s@);
    while i > 0
        invariant
            0 <= i <= s@.len(),
            last_index_of(s@, c) == last_index_of(s@.take(i as int), c),
        decreases i,
    {
        assert(s@.take(i as int).drop_last() =~= s@.take(i - 1));
        if s[i - 1] == c {
            return Some(i - 1);
        }
        i = i - 1;
    }
    None
}

/// Whether the answer's text can be cut (see `json_content_cuttable`).
pub fn json_content_is_cuttable(raw: &str) -> (r: bool)
    ensures
        r == json_content_cuttable(raw@),
{
    let cs = chars_of(raw);
    let fence_json = vec!['`', '`', '`', 'j', 's', 'o', 'n'];
    assert(fence_json@ =~= json_fence());
    if find_text_from(&cs, &fence_json).is_some() {
        return true;
    }
    let b = find_char(&cs, '{');
    if b >= cs.len() {
        return true;
    }
    match last_index(&cs, '}') {
        Some(e) => e >= b,
        None => true,
    }
}

/// The JSON in the model's answer.
pub fn extract_json_content(raw: &str) -> (r: String)
    requires
        json_content_cuttable(raw@),
    ensures
        r@ == json_content(raw@),
{
    let cs = chars_of(raw);
    let fence_json = vec!['`', '`', '`', 'j', 's', 'o', 'n'];
    let fence_end = vec!['`', '`', '`'];
    assert(fence_json@ =~= json_fence());
    assert(fence_end@ =~= fence());
    let out: Vec<char> = match find_text_from(&cs, &fence_json) {
        Some(start) => {
            proof {
                lemma_find_from(cs@, json_fence(), 0);
                assert(json_fence().len() == 7);
            }
            assert(start + 7 <= cs.len());
            let after = chars_from(&cs, start + 7);
            match find_text_from(&after, &fence_end) {
                Some(end) => {
                    proof {
                        lemma_find_from(after@, fence(), 0);
                    }
                    let mut inside: Vec<char> = Vec::new();
                    let mut k: usize = 0;
                    while k < end
                        invariant
                            0 <= k <= end <= after@.len(),
                            inside@ == after@.take(k as int),
                        decreases end - k,
                    {
                        inside.push(after[k]);
                        k = k + 1;
                        assert(inside@ =~= after@.take(k as int));
                    }
                    trim_chars(&inside)
                },
                None => trim_chars(&cs),
            }
        },
        None => {
            let b = find_char(&cs, '{');
            if b < cs.len() {
                match last_index(&cs, '}') {
                    Some(e) => {
                        proof {
                            lemma_last_index(cs@, '}');
                        }
                        let mut piece: Vec<char> = Vec::new();
                        let mut k: usize = b;
                        while k <= e
                            invariant
                                b <= k <= e + 1,
                                e < cs.len(),
                                piece@ == cs@.subrange(b as int, k as int),
                            decreases e + 1 - k,
                        {
                            piece.push(cs[k]);
                            k = k + 1;
                            assert(piece@ =~= cs@.subrange(b as int, k as int));
                        }
                        piece
                    },
                    None => trim_chars(&cs),
                }
            } else {
                trim_chars(&cs)
            }
        },
    };
    let r = string_from_chars(&out, 0, out.len());
    assert(out@.subrange(0, out@.len() as int) =~= out@);
    r
}

/// The action a policy type makes of an answer: the answer's values put back
/// under the fields' names and cleaned.
pub open spec fn semantic_action(t: PolicyTypeV, masks: Seq<SemanticMaskV>, answer: JsonV) -> JsonV {
    match answer {
        JsonV::Object(m) => JsonV::Object(sanitized(t.fields, unmask_members(masks, m).1)),
        _ => answer,
    }
}

impl PolicyType {
    /// The policy the text of an answer makes for this type: the JSON in the
    /// text, read; nothing where that JSON cannot be read.
    pub fn semantic_policy_from_text(&self, injection: &str, masks: &Vec<SemanticActionMask>, raw: &str) -> (r: Option<Policy>)
        requires
            json_content_cuttable(raw@),
        ensures
            match json_text_value(json_content(raw@)) {
                None => r is None,
                Some(a) => r matches Some(p) && p@.policy_type == self@ && p@.prompt == injection@
                    && p@.action == semantic_action(self@, semantic_masks_view(masks@), a),
            },
    {
        let content = extract_json_content(raw);
        match parse_json_text(content.as_str()) {
            Ok(answer) => Some(self.semantic_policy(injection, masks, answer)),
            Err(_) => None,
        }
    }

    /// The policy an answer makes for this type: the answer's values put
    /// back under the fields' names and cleaned, with the injection as prompt.
    pub fn semantic_policy(&self, injection: &str, masks: &Vec<SemanticActionMask>, answer: Json) -> (r: Policy)
        ensures
            r@.policy_type == self@,
            r@.prompt == injection@,
            r@.action == semantic_action(self@, semantic_masks_view(masks@), answer@),
    {
        let mut action = answer;
        unmask_semantic_action(masks, &mut action);
        self.sanitize_semantic_action(&mut action);
        Policy { policy_type: self.copy(), prompt: string_of(injection), action }
    }
}

} // verus!
