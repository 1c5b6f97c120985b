//! Compiles line-oriented policy declarations: each line is a semantic
//! injection followed by a JSON action, such as
//! `If the message is urgent {"priority": "high"}`.
use vstd::prelude::*;

use crate::errors::json_type_name;
use crate::field::{field_name, Field, FieldV};
use crate::json::{json_text_value, parse_json_text, Json, JsonV};
use crate::policy::{Policy, PolicyV};
use crate::policy_type::{trim_chars, trim_end, trim_end_chars, trimmed, PolicyType, PolicyTypeV};
use crate::field::{push_quoted_list, quoted_list};
use crate::text::{chars_of, debug_quoted, debug_string, decimal, push_decimal, push_text, string_from_chars, string_of, text_eq};

verus! {

// ------------------------------------------------------------------ errors

/// The specific reason compilation failed.
#[derive(Debug)]
pub enum CompileErrorKind {
    /// The line is empty or contains only white space.
    EmptyLine,
    /// No valid JSON value could be found at the end of the line.
    NoValidJson,
    /// The action must be a JSON object keyed by field name.
    ActionNotObject { actual: String },
    /// The action names a field that the policy type does not declare.
    UnknownField { field: String },
    /// A field value has the wrong JSON type.
    InvalidFieldValue { field: String, expected: String, actual: String },
    /// A string enum field was given a string outside its declared values.
    InvalidEnumValue { field: String, value: String, allowed: Vec<String> },
    /// The action could not be read as the caller's type.
    InvalidActionType { rust_type: String, error: String },
}

/// The mathematical value of an error kind.
pub enum CompileErrorKindV {
    EmptyLine,
    NoValidJson,
    ActionNotObject { actual: Seq<char> },
    UnknownField { field: Seq<char> },
    InvalidFieldValue { field: Seq<char>, expected: Seq<char>, actual: Seq<char> },
    InvalidEnumValue { field: Seq<char>, value: Seq<char>, allowed: Seq<Seq<char>> },
    InvalidActionType { rust_type: Seq<char>, error: Seq<char> },
}

impl View for CompileErrorKind {
    type V = CompileErrorKindV;

    open spec fn view(&self) -> CompileErrorKindV {
        match self {
            CompileErrorKind::EmptyLine => CompileErrorKindV::EmptyLine,
            CompileErrorKind::NoValidJson => CompileErrorKindV::NoValidJson,
            CompileErrorKind::ActionNotObject { actual } => CompileErrorKindV::ActionNotObject { actual: actual@ },
            CompileErrorKind::UnknownField { field } => CompileErrorKindV::UnknownField { field: field@ },
            CompileErrorKind::InvalidFieldValue { field, expected, actual } => CompileErrorKindV::InvalidFieldValue {
                field: field@,
                expected: expected@,
                actual: actual@,
            },
            CompileErrorKind::InvalidEnumValue { field, value, allowed } => CompileErrorKindV::InvalidEnumValue {
                field: field@,
                value: value@,
                allowed: allowed.deep_view(),
            },
            CompileErrorKind::InvalidActionType { rust_type, error } => CompileErrorKindV::InvalidActionType {
                rust_type: rust_type@,
                error: error@,
            },
        }
    }
}

/// A compiler error, with the one-based line it came from where there is one.
#[derive(Debug)]
pub struct CompileError {
    line: Option<usize>,
    kind: CompileErrorKind,
}

/// The mathematical value of a compiler error.
pub struct CompileErrorV {
    pub line: Option<usize>,
    pub kind: CompileErrorKindV,
}

impl View for CompileError {
    type V = CompileErrorV;

    closed spec fn view(&self) -> CompileErrorV {
        CompileErrorV { line: self.line, kind: self.kind@ }
    }
}

impl CompileError {
    /// An error without line context.
    pub fn new(kind: CompileErrorKind) -> (r: CompileError)
        ensures
            r@ == (CompileErrorV { line: None, kind: kind@ }),
    {
        CompileError { line: None, kind }
    }

    /// An error from a one-based line.
    pub fn with_line(line: usize, kind: CompileErrorKind) -> (r: CompileError)
        ensures
            r@ == (CompileErrorV { line: Some(line), kind: kind@ }),
    {
        CompileError { line: Some(line), kind }
    }

    /// The one-based line number, if the error came from multi-line input.
    pub fn line(&self) -> (r: Option<usize>)
        ensures
            r == self@.line,
    {
        self.line
    }

    /// The underlying error kind.
    pub fn kind(&self) -> (r: &CompileErrorKind)
        ensures
            r@ == self@.kind,
    {
        &self.kind
    }
}

/// The message of an error kind.
pub open spec fn kind_text(k: CompileErrorKindV) -> Seq<char> {
    match k {
        CompileErrorKindV::EmptyLine => "empty line cannot be parsed"@,
        CompileErrorKindV::NoValidJson => "no valid JSON found at end of line"@,
        CompileErrorKindV::ActionNotObject { actual } => "policy action must be a JSON object, got "@ + actual,
        CompileErrorKindV::UnknownField { field } => "unknown policy field "@ + debug_quoted(field),
        CompileErrorKindV::InvalidFieldValue { field, expected, actual } => "invalid value for field "@ + debug_quoted(
            field,
        ) + ": expected "@ + expected + ", got "@ + actual,
        CompileErrorKindV::InvalidEnumValue { field, value, allowed } => "invalid enum value for field "@
            + debug_quoted(field) + ": got "@ + debug_quoted(value) + ", expected one of "@ + quoted_list(allowed),
        CompileErrorKindV::InvalidActionType { rust_type, error } => "action does not deserialize as "@ + rust_type
            + ": "@ + error,
    }
}

/// The message of an error: `line N: ` before the kind's message where the
/// error has a line.
pub open spec fn compile_error_text(e: CompileErrorV) -> Seq<char> {
    match e.line {
        Some(n) => "line "@ + decimal(n as nat) + ": "@ + kind_text(e.kind),
        None => kind_text(e.kind),
    }
}

impl CompileError {
    /// The error's message, as it is displayed.
    pub fn to_text(&self) -> (r: String)
        ensures
            r@ == compile_error_text(self@),
    {
        let mut r = String::new();
        if let Some(n) = self.line {
            push_text(&mut r, "line ");
            push_decimal(&mut r, n);
            push_text(&mut r, ": ");
        }
        let ghost pre = r@;
        match &self.kind {
            CompileErrorKind::EmptyLine => push_text(&mut r, "empty line cannot be parsed"),
            CompileErrorKind::NoValidJson => push_text(&mut r, "no valid JSON found at end of line"),
            CompileErrorKind::ActionNotObject { actual } => {
                push_text(&mut r, "policy action must be a JSON object, got ");
                push_text(&mut r, actual.as_str());
            },
            CompileErrorKind::UnknownField { field } => {
                push_text(&mut r, "unknown policy field ");
                let q = debug_string(field.as_str());
                push_text(&mut r, q.as_str());
            },
            CompileErrorKind::InvalidFieldValue { field, expected, actual } => {
                push_text(&mut r, "invalid value for field ");
                let q = debug_string(field.as_str());
                push_text(&mut r, q.as_str());
                push_text(&mut r, ": expected ");
                push_text(&mut r, expected.as_str());
                push_text(&mut r, ", got ");
                push_text(&mut r, actual.as_str());
            },
            CompileErrorKind::InvalidEnumValue { field, value, allowed } => {
                push_text(&mut r, "invalid enum value for field ");
                let q = debug_string(field.as_str());
                push_text(&mut r, q.as_str());
                push_text(&mut r, ": got ");
                let v = debug_string(value.as_str());
                push_text(&mut r, v.as_str());
                push_text(&mut r, ", expected one of ");
                push_quoted_list(&mut r, allowed);
            },
            CompileErrorKind::InvalidActionType { rust_type, error } => {
                push_text(&mut r, "action does not deserialize as ");
                push_text(&mut r, rust_type.as_str());
                push_text(&mut r, ": ");
                push_text(&mut r, error.as_str());
            },
        }
        assert(r@ =~= compile_error_text(self@));
        r
    }
}

/// An error, with its line where there is one.
pub fn error(line_number: Option<usize>, kind: CompileErrorKind) -> (r: CompileError)
    ensures
        r@ == (CompileErrorV { line: line_number, kind: kind@ }),
{
    match line_number {
        Some(line) => CompileError::with_line(line, kind),
        None => CompileError::new(kind),
    }
}

/// An `InvalidFieldValue` error.
pub fn invalid_field_value(line_number: Option<usize>, field: &str, expected: &str, actual: &str) -> (r: CompileError)
    ensures
        r@ == (CompileErrorV {
            line: line_number,
            kind: CompileErrorKindV::InvalidFieldValue { field: field@, expected: expected@, actual: actual@ },
        }),
{
    error(
        line_number,
        CompileErrorKind::InvalidFieldValue {
            field: string_of(field),
            expected: string_of(expected),
            actual: string_of(actual),
        },
    )
}

/// The name of the JSON type of a value.
fn json_type(value: &Json) -> (r: &'static str)
    ensures
        r@ == json_type_name(value@),
{
    crate::errors::json_type_of(value)
}

// ------------------------------------------------------------------ validation

/// Whether every element is a string.
pub open spec fn all_strings(a: Seq<JsonV>) -> bool {
    forall|i: int| 0 <= i < a.len() ==> (#[trigger] a[i]) is String
}

/// Why `value` does not fit field `f`, if it does not.
pub open spec fn field_value_error(f: FieldV, value: JsonV) -> Option<CompileErrorKindV> {
    match f {
        FieldV::Bool { name, .. } => if value is Bool {
            None
        } else {
            Some(CompileErrorKindV::InvalidFieldValue { field: name, expected: "bool"@, actual: json_type_name(value) })
        },
        FieldV::Number { name, .. } => if value is Number || value is Null {
            None
        } else {
            Some(
                CompileErrorKindV::InvalidFieldValue {
                    field: name,
                    expected: "number or null"@,
                    actual: json_type_name(value),
                },
            )
        },
        FieldV::String { name, .. } => if value is String || value is Null {
            None
        } else {
            Some(
                CompileErrorKindV::InvalidFieldValue {
                    field: name,
                    expected: "string or null"@,
                    actual: json_type_name(value),
                },
            )
        },
        FieldV::StringEnum { name, values, .. } => match value {
            JsonV::Null => None,
            JsonV::String(s) => if values.contains(s) {
                None
            } else {
                Some(CompileErrorKindV::InvalidEnumValue { field: name, value: s, allowed: values })
            },
            _ => Some(
                CompileErrorKindV::InvalidFieldValue {
                    field: name,
                    expected: "one of the declared enum strings or null"@,
                    actual: json_type_name(value),
                },
            ),
        },
        FieldV::StringArray { name } => match value {
            JsonV::Array(a) => if all_strings(a) {
                None
            } else {
                Some(
                    CompileErrorKindV::InvalidFieldValue {
                        field: name,
                        expected: "array of strings"@,
                        actual: json_type_name(value),
                    },
                )
            },
            _ => Some(
                CompileErrorKindV::InvalidFieldValue {
                    field: name,
                    expected: "array of strings"@,
                    actual: json_type_name(value),
                },
            ),
        },
    }
}

/// The index of the first field named `name`, or -1.
pub open spec fn field_index(fs: Seq<FieldV>, name: Seq<char>) -> int
    decreases fs.len(),
{
    if fs.len() == 0 {
        -1
    } else {
        let r = field_index(fs.drop_last(), name);
        if r >= 0 {
            r
        } else if field_name(fs.last()) == name {
            fs.len() - 1
        } else {
            -1
        }
    }
}

/// The first error among the members `m` of an action, in order.
pub open spec fn members_error(fs: Seq<FieldV>, m: Seq<(Seq<char>, JsonV)>) -> Option<CompileErrorKindV>
    decreases m.len(),
{
    if m.len() == 0 {
        None
    } else {
        match members_error(fs, m.drop_last()) {
            Some(e) => Some(e),
            None => {
                let (name, value) = m.last();
                let i = field_index(fs, name);
                if i < 0 {
                    Some(CompileErrorKindV::UnknownField { field: name })
                } else {
                    field_value_error(fs[i], value)
                }
            },
        }
    }
}

/// Why an action does not fit a policy type, if it does not: it must be an
/// object whose members each name a declared field and fit it.
pub open spec fn action_error(fs: Seq<FieldV>, action: JsonV) -> Option<CompileErrorKindV> {
    match action {
        JsonV::Object(m) => members_error(fs, m),
        _ => Some(CompileErrorKindV::ActionNotObject { actual: json_type_name(action) }),
    }
}

pub(crate) fn all_strings_of(a: &Vec<Json>) -> (r: bool)
    ensures
        r == all_strings(Seq::new(a@.len(), |j: int| a@[j]@)),
{
    let ghost av = Seq::new(a@.len(), |j: int| a@[j]@);
    let mut i: usize = 0;
    while i < a.len()
        invariant
            0 <= i <= a@.len(),
            av == Seq::new(a@.len(), |j: int| a@[j]@),
            forall|j: int| 0 <= j < i ==> (#[trigger] av[j]) is String,
        decreases a@.len() - i,
    {
        let ok = match &a[i] {
            Json::String(_) => true,
            _ => false,
        };
        if !ok {
            assert(!(av[i as int] is String));
            return false;
        }
        i = i + 1;
    }
    true
}

pub(crate) fn contains_string(values: &Vec<String>, s: &str) -> (r: bool)
    ensures
        r == values.deep_view().contains(s@),
{
    let mut i: usize = 0;
    while i < values.len()
        invariant
            0 <= i <= values@.len(),
            forall|j: int| 0 <= j < i ==> values.deep_view()[j] != s@,
        decreases values@.len() - i,
    {
        if text_eq(values[i].as_str(), s) {
            assert(values.deep_view()[i as int] == s@);
            return true;
        }
        i = i + 1;
    }
    false
}

/// Checks that `value` fits field `field`.
pub fn validate_field_value(field: &Field, value: &Json, line_number: Option<usize>) -> (r: Result<(), CompileError>)
    ensures
        match field_value_error(field@, value@) {
            None => r is Ok,
            Some(k) => r matches Err(e) && e@ == (CompileErrorV { line: line_number, kind: k }),
        },
{
    match field {
        Field::Bool { name, .. } => match value {
            Json::Bool(_) => Ok(()),
            _ => Err(invalid_field_value(line_number, name.as_str(), "bool", json_type(value))),
        },
        Field::Number { name, .. } => match value {
            Json::Number(_) | Json::Null => Ok(()),
            _ => Err(invalid_field_value(line_number, name.as_str(), "number or null", json_type(value))),
        },
        Field::String { name, .. } => match value {
            Json::String(_) | Json::Null => Ok(()),
            _ => Err(invalid_field_value(line_number, name.as_str(), "string or null", json_type(value))),
        },
        Field::StringEnum { name, values, .. } => match value {
            Json::Null => Ok(()),
            Json::String(s) => {
                if contains_string(values, s.as_str()) {
                    Ok(())
                } else {
                    Err(
                        error(
                            line_number,
                            CompileErrorKind::InvalidEnumValue {
                                field: name.clone(),
                                value: s.clone(),
                                allowed: crate::field::copy_strings(values),
                            },
                        ),
                    )
                }
            },
            _ => Err(
                invalid_field_value(
                    line_number,
                    name.as_str(),
                    "one of the declared enum strings or null",
                    json_type(value),
                ),
            ),
        },
        Field::StringArray { name } => {
            let ok = match value {
                Json::Array(a) => {
                    assert(Seq::new(a@.len(), |j: int| a@[j]@) =~= value@->Array_0);
                    all_strings_of(a)
                },
                _ => false,
            };
            if ok {
                Ok(())
            } else {
                Err(invalid_field_value(line_number, name.as_str(), "array of strings", json_type(value)))
            }
        },
    }
}

/// The first field named `name`.
pub(crate) fn find_field<'a>(fields: &'a Vec<Field>, name: &str) -> (r: Option<&'a Field>)
    ensures
        ({
            let fs = fields@.map_values(|f: Field| f@);
            let i = field_index(fs, name@);
            if i >= 0 {
                r matches Some(f) && f@ == fs[i]
            } else {
                r is None
            }
        }),
{
    let ghost fs = fields@.map_values(|f: Field| f@);
    let mut i: usize = 0;
    while i < fields.len()
        invariant
            0 <= i <= fields@.len(),
            fs == fields@.map_values(|f: Field| f@),
            field_index(fs.take(i as int), name@) < 0,
        decreases fields@.len() - i,
    {
        assert(fs.take(i + 1).drop_last() =~= fs.take(i as int));
        if text_eq(fields[i].name(), name) {
            proof {
                lemma_field_index_prefix(fs, i as int + 1, name@);
            }
            return Some(&fields[i]);
        }
        i = i + 1;
    }
    assert(fs.take(i as int) =~= fs);
    None
}

proof fn lemma_field_index_prefix(fs: Seq<FieldV>, n: int, name: Seq<char>)
    requires
        0 <= n <= fs.len(),
        field_index(fs.take(n), name) >= 0,
    ensures
        field_index(fs, name) == field_index(fs.take(n), name),
        field_index(fs, name) < n,
    decreases fs.len() - n,
{
    if n < fs.len() {
        assert(fs.take(n + 1).drop_last() =~= fs.take(n));
        lemma_field_index_prefix(fs, n + 1, name);
    } else {
        assert(fs.take(n) =~= fs);
    }
    lemma_field_index_bound(fs.take(n), name);
}

proof fn lemma_field_index_bound(fs: Seq<FieldV>, name: Seq<char>)
    ensures
        field_index(fs, name) < fs.len(),
    decreases fs.len(),
{
    if fs.len() > 0 {
        lemma_field_index_bound(fs.drop_last(), name);
    }
}

/// Checks an action against a policy type.
pub fn validate_action(type_: &PolicyType, action: &Json, line_number: Option<usize>) -> (r: Result<(), CompileError>)
    ensures
        match action_error(type_@.fields, action@) {
            None => r is Ok,
            Some(k) => r matches Err(e) && e@ == (CompileErrorV { line: line_number, kind: k }),
        },
{
    let ghost fs = type_@.fields;
    match action {
        Json::Object(m) => {
            let ghost mv = action@->Object_0;
            assert(mv.len() == m@.len());
            assert(forall|j: int| 0 <= j < m@.len() ==> mv[j] == ((#[trigger] m@[j]).0@, m@[j].1@));
            let mut i: usize = 0;
            assert(mv.take(0) =~= Seq::<(Seq<char>, JsonV)>::empty());
            while i < m.len()
                invariant
                    0 <= i <= m@.len(),
                    fs == type_@.fields,
                    action@ == JsonV::Object(mv),
                    mv.len() == m@.len(),
                    forall|j: int| 0 <= j < m@.len() ==> mv[j] == ((#[trigger] m@[j]).0@, m@[j].1@),
                    members_error(fs, mv.take(i as int)) is None,
                decreases m@.len() - i,
            {
                assert(mv.take(i + 1).drop_last() =~= mv.take(i as int));
                assert(mv.take(i + 1).last() == mv[i as int]);
                match find_field(&type_.fields, m[i].0.as_str()) {
                    None => {
                        proof {
                            lemma_members_error_prefix(fs, mv, i as int + 1);
                        }
                        return Err(error(line_number, CompileErrorKind::UnknownField { field: m[i].0.clone() }));
                    },
                    Some(field) => {
                        match validate_field_value(field, &m[i].1, line_number) {
                            Ok(()) => {},
                            Err(e) => {
                                proof {
                                    lemma_members_error_prefix(fs, mv, i as int + 1);
                                }
                                return Err(e);
                            },
                        }
                    },
                }
                i = i + 1;
            }
            assert(mv.take(i as int) =~= mv);
            Ok(())
        },
        _ => Err(error(line_number, CompileErrorKind::ActionNotObject { actual: string_of(json_type(action)) })),
    }
}

proof fn lemma_members_error_prefix(fs: Seq<FieldV>, m: Seq<(Seq<char>, JsonV)>, n: int)
    requires
        0 <= n <= m.len(),
        members_error(fs, m.take(n)) is Some,
    ensures
        members_error(fs, m) == members_error(fs, m.take(n)),
    decreases m.len() - n,
{
    if n < m.len() {
        assert(m.take(n + 1).drop_last() =~= m.take(n));
        lemma_members_error_prefix(fs, m, n + 1);
    } else {
        assert(m.take(n) =~= m);
    }
}


// ------------------------------------------------------------------ lines

/// The index of the first line feed at or after `i`, or the length.
pub open spec fn newline_index(s: Seq<char>, i: int) -> int
    decreases s.len() - i,
{
    if 0 <= i < s.len() && s[i] != '\n' {
        newline_index(s, i + 1)
    } else {
        i
    }
}

/// A line without the carriage return that ended it.
pub open spec fn strip_cr(l: Seq<char>) -> Seq<char> {
    if l.len() > 0 && l.last() == '\r' {
        l.drop_last()
    } else {
        l
    }
}

/// The lines of `s` from index `i`, as `str::lines` splits them: at each
/// line feed, a carriage return just before it dropped, and no empty line
/// after a final line feed.
pub open spec fn lines_from(s: Seq<char>, i: int) -> Seq<Seq<char>>
    decreases s.len() - i,
{
    if i < 0 || i >= s.len() {
        Seq::empty()
    } else {
        let j = newline_index(s, i);
        if j >= s.len() {
            seq![s.subrange(i, s.len() as int)]
        } else {
            proof {
                lemma_newline_index(s, i);
            }
            seq![strip_cr(s.subrange(i, j))] + lines_from(s, j + 1)
        }
    }
}

pub proof fn lemma_newline_index(s: Seq<char>, i: int)
    requires
        0 <= i <= s.len(),
    ensures
        i <= newline_index(s, i) <= s.len(),
        newline_index(s, i) < s.len() ==> s[newline_index(s, i)] == '\n',
        forall|k: int| i <= k < newline_index(s, i) ==> s[k] != '\n',
    decreases s.len() - i,
{
    if i < s.len() && s[i] != '\n' {
        lemma_newline_index(s, i + 1);
    }
}

/// The lines of a text.
fn lines_of(cs: &Vec<char>) -> (r: Vec<Vec<char>>)
    requires
        cs@.len() < usize::MAX,
    ensures
        r.deep_view() == lines_from(cs@, 0),
        r@.len() <= cs@.len(),
{
    let ghost s = cs@;
    let mut out: Vec<Vec<char>> = Vec::new();
    let mut i: usize = 0;
    while i < cs.len()
        invariant
            0 <= i <= cs@.len(),
            cs@.len() < usize::MAX,
            s == cs@,
            out@.len() <= i,
            out.deep_view() + lines_from(s, i as int) == lines_from(s, 0),
        decreases cs@.len() - i,
    {
        let mut j: usize = i;
        while j < cs.len() && cs[j] != '\n'
            invariant
                i <= j <= cs@.len(),
                s == cs@,
                newline_index(s, j as int) == newline_index(s, i as int),
            decreases cs@.len() - j,
        {
            j = j + 1;
        }
        proof {
            lemma_newline_index(s, i as int);
        }
        let end = if j < cs.len() && j > i && cs[j - 1] == '\r' {
            j - 1
        } else {
            j
        };
        let mut line: Vec<char> = Vec::new();
        let mut k: usize = i;
        while k < end
            invariant
                i <= k <= end <= cs@.len(),
                s == cs@,
                line@ == s.subrange(i as int, k as int),
            decreases end - k,
        {
            line.push(cs[k]);
            k = k + 1;
            assert(line@ =~= s.subrange(i as int, k as int));
        }
        let ghost before = out.deep_view();
        assert(line.deep_view() =~= line@);
        out.push(line);
        proof {
            if j < cs.len() {
                assert(strip_cr(s.subrange(i as int, j as int)) =~= s.subrange(i as int, end as int));
                assert(out.deep_view() =~= before.push(s.subrange(i as int, end as int)));
                assert(lines_from(s, i as int) == seq![strip_cr(s.subrange(i as int, j as int))] + lines_from(s, j + 1));
                assert(out.deep_view() + lines_from(s, j + 1) =~= before + lines_from(s, i as int));
            } else {
                assert(out.deep_view() =~= before.push(s.subrange(i as int, s.len() as int)));
                assert(lines_from(s, (j + 1) as int) =~= Seq::<Seq<char>>::empty());
                assert(out.deep_view() + lines_from(s, j + 1) =~= before + lines_from(s, i as int));
            }
        }
        i = j + 1;
        if i > cs.len() {
            i = cs.len();
        }
    }
    assert(lines_from(s, i as int) =~= Seq::<Seq<char>>::empty());
    assert(out.deep_view() =~= lines_from(s, 0));
    out
}

// ------------------------------------------------------------------ lines to actions

/// A semantic injection and the JSON action it triggers.
#[derive(Debug)]
pub struct InjectionAction {
    /// The natural-language condition or instruction.
    pub injection: String,
    /// The action to take where the injection matches.
    pub action: Json,
}

/// The mathematical value of an injection and its action.
pub struct InjectionActionV {
    pub injection: Seq<char>,
    pub action: JsonV,
}

impl View for InjectionAction {
    type V = InjectionActionV;

    open spec fn view(&self) -> InjectionActionV {
        InjectionActionV { injection: self.injection@, action: self.action@ }
    }
}

/// The views of a sequence of injections and actions.
pub open spec fn injections_view(v: Seq<InjectionAction>) -> Seq<InjectionActionV> {
    Seq::new(v.len(), |i: int| v[i]@)
}

impl InjectionAction {
    /// A pair from its parts.
    pub fn new(injection: String, action: Json) -> (r: InjectionAction)
        ensures
            r@ == (InjectionActionV { injection: injection@, action: action@ }),
    {
        InjectionAction { injection, action }
    }

    /// The policy this pair makes for a policy type.
    pub fn into_policy(self, policy_type: PolicyType) -> (r: Policy)
        ensures
            r@ == (PolicyV { policy_type: policy_type@, prompt: self@.injection, action: self@.action }),
    {
        Policy { policy_type, prompt: self.injection, action: self.action }
    }

    /// The policy a copy of this pair makes for a policy type.
    pub fn to_policy(&self, policy_type: PolicyType) -> (r: Policy)
        ensures
            r@ == (PolicyV { policy_type: policy_type@, prompt: self@.injection, action: self@.action }),
    {
        Policy { policy_type, prompt: self.injection.clone(), action: self.action.copy() }
    }
}

/// The first `k` at or after `k0` whose suffix `t[k..]` holds a JSON value,
/// with that value.
pub open spec fn first_json_from(t: Seq<char>, k: int) -> Option<(int, JsonV)>
    decreases t.len() - k,
{
    if k < 0 || k >= t.len() {
        None
    } else {
        match json_text_value(t.skip(k)) {
            Some(v) => Some((k, v)),
            None => first_json_from(t, k + 1),
        }
    }
}

/// A line as an injection and an action: the longest suffix of the trimmed
/// line that holds a JSON value is the action, and what comes before it,
/// without trailing white space, the injection.
pub open spec fn injection_action_spec(line: Seq<char>) -> Result<InjectionActionV, CompileErrorKindV> {
    let t = trimmed(line);
    if t.len() == 0 {
        Err(CompileErrorKindV::EmptyLine)
    } else {
        match first_json_from(t, 0) {
            Some((k, v)) => Ok(InjectionActionV { injection: t.take(trim_end(t, k)), action: v }),
            None => Err(CompileErrorKindV::NoValidJson),
        }
    }
}

proof fn lemma_trim_end_bound(s: Seq<char>, j: int)
    requires
        0 <= j <= s.len(),
    ensures
        0 <= trim_end(s, j) <= j,
    decreases j,
{
    if 0 < j && crate::text::is_white_space(s[j - 1]) {
        lemma_trim_end_bound(s, j - 1);
    }
}

/// Reads one line as an injection and an action.
fn parse_line(line: &Vec<char>, line_number: Option<usize>) -> (r: Result<InjectionAction, CompileError>)
    ensures
        match injection_action_spec(line@) {
            Ok(ia) => r matches Ok(x) && x@ == ia,
            Err(k) => r matches Err(e) && e@ == (CompileErrorV { line: line_number, kind: k }),
        },
{
    let t = trim_chars(line);
    if t.len() == 0 {
        return Err(error(line_number, CompileErrorKind::EmptyLine));
    }
    let ghost tv = t@;
    let mut k: usize = 0;
    while k < t.len()
        invariant
            0 <= k <= t@.len(),
            tv == t@,
            tv == trimmed(line@),
            first_json_from(tv, k as int) == first_json_from(tv, 0),
        decreases t@.len() - k,
    {
        let candidate = string_from_chars(&t, k, t.len());
        assert(candidate@ =~= tv.skip(k as int));
        match parse_json_text(candidate.as_str()) {
            Ok(action) => {
                proof {
                    lemma_trim_end_bound(tv, k as int);
                }
                let injection = trim_end_chars(&t, k);
                let s = string_from_chars(&injection, 0, injection.len());
                assert(injection@.subrange(0, injection@.len() as int) =~= injection@);
                return Ok(InjectionAction { injection: s, action });
            },
            Err(_) => {},
        }
        k = k + 1;
    }
    Err(error(line_number, CompileErrorKind::NoValidJson))
}

/// Reads one declaration `injection JSON`: the longest JSON suffix is the
/// action, the text before it the injection.
pub fn parse_injection_action(line: &str) -> (r: Result<InjectionAction, CompileError>)
    ensures
        match injection_action_spec(line@) {
            Ok(ia) => r matches Ok(x) && x@ == ia,
            Err(k) => r matches Err(e) && e@ == (CompileErrorV { line: None, kind: k }),
        },
{
    let cs = chars_of(line);
    parse_line(&cs, None)
}

/// Whether a line holds only white space.
pub open spec fn blank(l: Seq<char>) -> bool {
    trimmed(l).len() == 0
}

/// The declarations of the first `n` lines, each checked against `fs` where
/// `fs` is given; blank lines are skipped, and errors carry their one-based
/// line number.
pub open spec fn declarations(lines: Seq<Seq<char>>, n: int, fs: Option<Seq<FieldV>>) -> Result<Seq<InjectionActionV>, CompileErrorV>
    decreases n,
{
    if n <= 0 {
        Ok(Seq::empty())
    } else {
        match declarations(lines, n - 1, fs) {
            Err(e) => Err(e),
            Ok(acc) => {
                let l = lines[n - 1];
                if blank(l) {
                    Ok(acc)
                } else {
                    match injection_action_spec(l) {
                        Err(k) => Err(CompileErrorV { line: Some(n as usize), kind: k }),
                        Ok(ia) => match fs {
                            Some(f) => match action_error(f, ia.action) {
                                Some(k) => Err(CompileErrorV { line: Some(n as usize), kind: k }),
                                None => Ok(acc.push(ia)),
                            },
                            None => Ok(acc.push(ia)),
                        },
                    }
                }
            },
        }
    }
}

fn is_blank(line: &Vec<char>) -> (r: bool)
    ensures
        r == blank(line@),
{
    let t = trim_chars(line);
    t.len() == 0
}

/// Reads every line of `input`, checking each action against `type_` where it is given.
fn declarations_of(input: &str, type_: Option<&PolicyType>) -> (r: Result<Vec<InjectionAction>, CompileError>)
    requires
        input@.len() < usize::MAX,
    ensures
        ({
            let lines = lines_from(input@, 0);
            let fs = match type_ {
                Some(t) => Some(t@.fields),
                None => None::<Seq<FieldV>>,
            };
            match declarations(lines, lines.len() as int, fs) {
                Ok(v) => r matches Ok(x) && injections_view(x@) == v,
                Err(e) => r matches Err(x) && x@ == e,
            }
        }),
{
    let cs = chars_of(input);
    let lines = lines_of(&cs);
    let ghost lv = lines.deep_view();
    let ghost fs = match type_ {
        Some(t) => Some(t@.fields),
        None => None::<Seq<FieldV>>,
    };
    let mut out: Vec<InjectionAction> = Vec::new();
    let mut i: usize = 0;
    assert(injections_view(out@) =~= Seq::<InjectionActionV>::empty());
    while i < lines.len()
        invariant
            0 <= i <= lines@.len(),
            lines@.len() < usize::MAX,
            lv == lines_from(input@, 0),
            lv == lines.deep_view(),
            declarations(lv, i as int, fs) == Ok::<Seq<InjectionActionV>, CompileErrorV>(injections_view(out@)),
            fs == match type_ {
                Some(t) => Some(t@.fields),
                None => None::<Seq<FieldV>>,
            },
        decreases lines@.len() - i,
    {
        let line_number = i + 1;
        assert(lines@[i as int].deep_view() =~= lines@[i as int]@);
        assert(lv[i as int] == lines@[i as int]@);
        if !is_blank(&lines[i]) {
            let ia = match parse_line(&lines[i], Some(line_number)) {
                Ok(ia) => ia,
                Err(e) => {
                    proof {
                        lemma_declarations_error(lv, i as int + 1, fs);
                    }
                    return Err(e);
                },
            };
            match type_ {
                Some(t) => {
                    match validate_action(t, &ia.action, Some(line_number)) {
                        Ok(()) => {},
                        Err(e) => {
                            proof {
                                lemma_declarations_error(lv, i as int + 1, fs);
                            }
                            return Err(e);
                        },
                    }
                },
                None => {},
            }
            let ghost before = injections_view(out@);
            let ghost iav = ia@;
            out.push(ia);
            assert(injections_view(out@) =~= before.push(iav));
        }
        i = i + 1;
    }
    Ok(out)
}

proof fn lemma_declarations_error(lines: Seq<Seq<char>>, n: int, fs: Option<Seq<FieldV>>)
    requires
        0 <= n <= lines.len(),
        declarations(lines, n, fs) is Err,
    ensures
        declarations(lines, lines.len() as int, fs) == declarations(lines, n, fs),
    decreases lines.len() - n,
{
    if n < lines.len() {
        lemma_declarations_error(lines, n + 1, fs);
    }
}

/// Reads every non-blank line of `input` as an injection and an action;
/// errors carry their one-based line number.
pub fn parse_injection_actions(input: &str) -> (r: Result<Vec<InjectionAction>, CompileError>)
    requires
        input@.len() < usize::MAX,
    ensures
        ({
            let lines = lines_from(input@, 0);
            match declarations(lines, lines.len() as int, None) {
                Ok(v) => r matches Ok(x) && injections_view(x@) == v,
                Err(e) => r matches Err(x) && x@ == e,
            }
        }),
{
    declarations_of(input, None)
}

// ------------------------------------------------------------------ compiled sets

/// Validated declarations bound to one policy type.
#[derive(Debug)]
pub struct CompiledPolicySet {
    /// The policy type of every compiled policy.
    pub policy_type: PolicyType,
    /// The injections and their actions, in order.
    pub injections: Vec<InjectionAction>,
}

/// The first error among the actions of `v`, checked against `fs`.
pub open spec fn injections_error(fs: Seq<FieldV>, v: Seq<InjectionActionV>) -> Option<CompileErrorKindV>
    decreases v.len(),
{
    if v.len() == 0 {
        None
    } else {
        match injections_error(fs, v.drop_last()) {
            Some(k) => Some(k),
            None => action_error(fs, v.last().action),
        }
    }
}

/// Whether `e` is the error of the declaration at `m` when those before it
/// checked fine: checking its action against `fs` failed with `e`, or that
/// check passed and a call of `check` on its action answered `e`.
pub open spec fn fails_among<F: Fn(&Json, Option<usize>) -> Result<(), CompileError>>(
    check: F,
    fs: Seq<FieldV>,
    injections: Seq<InjectionAction>,
    m: int,
    e: CompileError,
) -> bool {
    let v = injections_view(injections);
    &&& 0 <= m < v.len()
    &&& injections_error(fs, v.take(m)) is None
    &&& forall|j: int| 0 <= j < m ==> #[trigger] check_answers(check, injections[j].action, None, Ok(()))
    &&& (action_error(fs, v[m].action) is Some && e@ == (CompileErrorV { line: None, kind: action_error(fs, v[m].action)->Some_0 })
        || action_error(fs, v[m].action) is None && check_answers(check, injections[m].action, None, Err(e)))
}

impl CompiledPolicySet {
    /// A set from declarations read already, each action checked against the type.
    pub fn new(type_: PolicyType, injections: Vec<InjectionAction>) -> (r: Result<CompiledPolicySet, CompileError>)
        ensures
            match injections_error(type_@.fields, injections_view(injections@)) {
                None => r matches Ok(x) && x.policy_type@ == type_@ && injections_view(x.injections@) == injections_view(injections@),
                Some(k) => r matches Err(e) && e@ == (CompileErrorV { line: None, kind: k }),
            },
    {
        let ghost v = injections_view(injections@);
        let mut i: usize = 0;
        while i < injections.len()
            invariant
                0 <= i <= injections@.len(),
                v == injections_view(injections@),
                injections_error(type_@.fields, v.take(i as int)) is None,
            decreases injections@.len() - i,
        {
            assert(v.take(i + 1).drop_last() =~= v.take(i as int));
            match validate_action(&type_, &injections[i].action, None) {
                Ok(()) => {},
                Err(e) => {
                    proof {
                        lemma_injections_error(type_@.fields, v, i as int + 1);
                    }
                    return Err(e);
                },
            }
            i = i + 1;
        }
        assert(v.take(i as int) =~= v);
        Ok(CompiledPolicySet { policy_type: type_, injections })
    }

    /// Reads and checks declarations for a policy type; blank lines are skipped.
    pub fn parse(type_: PolicyType, input: &str) -> (r: Result<CompiledPolicySet, CompileError>)
        requires
            input@.len() < usize::MAX,
        ensures
            ({
                let lines = lines_from(input@, 0);
                match declarations(lines, lines.len() as int, Some(type_@.fields)) {
                    Ok(v) => r matches Ok(x) && x.policy_type@ == type_@ && injections_view(x.injections@) == v,
                    Err(e) => r matches Err(x) && x@ == e,
                }
            }),
    {
        compile(type_, input)
    }

    /// The number of declarations.
    pub fn len(&self) -> (r: usize)
        ensures
            r == self.injections@.len(),
    {
        self.injections.len()
    }

    /// Whether there are no declarations.
    pub fn is_empty(&self) -> (r: bool)
        ensures
            r == (self.injections@.len() == 0),
    {
        self.injections.len() == 0
    }

    /// The declarations, in order.
    pub fn iter(&self) -> (r: &[InjectionAction])
        ensures
            r@ == self.injections@,
    {
        self.injections.as_slice()
    }

    /// The declarations as policies, copied.
    pub fn policies(&self) -> (r: Vec<Policy>)
        ensures
            r@.len() == self.injections@.len(),
            forall|i: int| 0 <= i < r@.len() ==> (#[trigger] r@[i])@ == (PolicyV {
                policy_type: self.policy_type@,
                prompt: self.injections@[i]@.injection,
                action: self.injections@[i]@.action,
            }),
    {
        let mut out: Vec<Policy> = Vec::new();
        let mut i: usize = 0;
        while i < self.injections.len()
            invariant
                0 <= i <= self.injections@.len(),
                out@.len() == i,
                forall|j: int| 0 <= j < i ==> (#[trigger] out@[j])@ == (PolicyV {
                    policy_type: self.policy_type@,
                    prompt: self.injections@[j]@.injection,
                    action: self.injections@[j]@.action,
                }),
            decreases self.injections@.len() - i,
        {
            out.push(self.injections[i].to_policy(self.policy_type.copy()));
            i = i + 1;
        }
        out
    }

    /// The declarations as policies.
    pub fn into_policies(self) -> (r: Vec<Policy>)
        ensures
            r@.len() == self.injections@.len(),
            forall|i: int| 0 <= i < r@.len() ==> (#[trigger] r@[i])@ == (PolicyV {
                policy_type: self.policy_type@,
                prompt: self.injections@[i]@.injection,
                action: self.injections@[i]@.action,
            }),
    {
        self.policies()
    }

    /// Adds the policies to a manager, stopping at the first that does not fit.
    pub fn extend_manager(&self, manager: &mut crate::manager::Manager) -> (r: Result<(), crate::errors::PolicyError>)
        ensures
            r is Ok ==> final(manager)@.policies.len() == old(manager)@.policies.len() + self.injections@.len(),
            r is Ok ==> forall|i: int| 0 <= i < self.injections@.len() ==> (#[trigger] final(manager)@.policies[old(manager)@.policies.len() + i]) == (PolicyV {
                policy_type: self.policy_type@,
                prompt: self.injections@[i]@.injection,
                action: self.injections@[i]@.action,
            }),
            r is Ok <==> (self.injections@.len() == 0 || crate::manager::type_fits(old(manager)@.policies, self.policy_type@)),
    {
        let policies = self.policies();
        let ghost n0 = manager@.policies.len();
        let ghost old_ps = manager@.policies;
        for p in it: policies
            invariant
                it.seq() == policies@,
                policies@.len() == self.injections@.len(),
                forall|j: int| 0 <= j < policies@.len() ==> (#[trigger] policies@[j])@ == (PolicyV {
                    policy_type: self.policy_type@,
                    prompt: self.injections@[j]@.injection,
                    action: self.injections@[j]@.action,
                }),
                n0 == old(manager)@.policies.len(),
                old_ps == old(manager)@.policies,
                manager@.policies.len() == n0 + it.index(),
                manager@.policies.take(n0 as int) == old_ps,
                forall|j: int| 0 <= j < it.index() ==> (#[trigger] manager@.policies[n0 + j]) == policies@[j]@,
                it.index() == 0 ==> manager@.policies == old_ps,
                it.index() > 0 ==> crate::manager::type_fits(old_ps, self.policy_type@),
                it.index() > 0 ==> manager@.policies.last().policy_type == self.policy_type@,
        {
            let ghost i = it.index();
            let ghost before = manager@.policies;
            let ghost pv = p@;
            match manager.try_add(p) {
                Ok(()) => {},
                Err(e) => {
                    return Err(e);
                },
            }
            proof {
                assert(manager@.policies == before.push(pv));
                assert(manager@.policies.take(n0 as int) =~= before.take(n0 as int));
                assert forall|j: int| 0 <= j < i + 1 implies (#[trigger] manager@.policies[n0 + j]) == policies@[j]@ by {
                    if j < i {
                        assert(manager@.policies[n0 + j] == before[n0 + j]);
                    }
                }
            }
        }
        Ok(())
    }
}

impl CompiledPolicySet {
    /// A manager holding every compiled policy; they share one type, so
    /// none is refused.
    pub fn into_manager(self) -> (r: crate::manager::Manager)
        ensures
            r@.policies.len() == self.injections@.len(),
            forall|i: int| 0 <= i < r@.policies.len() ==> (#[trigger] r@.policies[i]) == (PolicyV {
                policy_type: self.policy_type@,
                prompt: self.injections@[i]@.injection,
                action: self.injections@[i]@.action,
            }),
            r@.inference_config == crate::manager::InferenceConfig::ToolUse,
    {
        let policies = self.policies();
        let mut manager = crate::manager::Manager::default();
        for p in it: policies
            invariant
                it.seq() == policies@,
                policies@.len() == self.injections@.len(),
                forall|j: int| 0 <= j < policies@.len() ==> (#[trigger] policies@[j])@ == (PolicyV {
                    policy_type: self.policy_type@,
                    prompt: self.injections@[j]@.injection,
                    action: self.injections@[j]@.action,
                }),
                manager@.policies.len() == it.index(),
                manager@.inference_config == crate::manager::InferenceConfig::ToolUse,
                forall|j: int| 0 <= j < it.index() ==> (#[trigger] manager@.policies[j]) == policies@[j]@,
        {
            let ghost i = it.index();
            let ghost before = manager@.policies;
            manager.add(p);
            assert forall|j: int| 0 <= j < i + 1 implies (#[trigger] manager@.policies[j]) == policies@[j]@ by {
                if j < i {
                    assert(manager@.policies[j] == before[j]);
                }
            }
        }
        manager
    }
}

/// Reads and checks declarations straight into a manager.
pub fn compile_manager(type_: PolicyType, input: &str) -> (r: Result<crate::manager::Manager, CompileError>)
    requires
        input@.len() < usize::MAX,
    ensures
        ({
            let lines = lines_from(input@, 0);
            match declarations(lines, lines.len() as int, Some(type_@.fields)) {
                Ok(v) => r matches Ok(m) && m@.policies.len() == v.len() && forall|i: int| 0 <= i < v.len() ==> (#[trigger] m@.policies[i]) == (PolicyV {
                    policy_type: type_@,
                    prompt: v[i].injection,
                    action: v[i].action,
                }),
                Err(e) => r matches Err(x) && x@ == e,
            }
        }),
{
    match compile(type_, input) {
        Ok(c) => {
            let ghost v = injections_view(c.injections@);
            assert(forall|i: int| 0 <= i < v.len() ==> v[i] == (#[trigger] c.injections@[i])@);
            Ok(c.into_manager())
        },
        Err(e) => Err(e),
    }
}

proof fn lemma_injections_error(fs: Seq<FieldV>, v: Seq<InjectionActionV>, n: int)
    requires
        0 <= n <= v.len(),
        injections_error(fs, v.take(n)) is Some,
    ensures
        injections_error(fs, v) == injections_error(fs, v.take(n)),
    decreases v.len() - n,
{
    if n < v.len() {
        assert(v.take(n + 1).drop_last() =~= v.take(n));
        lemma_injections_error(fs, v, n + 1);
    } else {
        assert(v.take(n) =~= v);
    }
}

/// Reads and checks declarations for a policy type: the main entry point for
/// text such as `injection {"action": "to_take"}`; blank lines are skipped.
pub fn compile(type_: PolicyType, input: &str) -> (r: Result<CompiledPolicySet, CompileError>)
    requires
        input@.len() < usize::MAX,
    ensures
        ({
            let lines = lines_from(input@, 0);
            match declarations(lines, lines.len() as int, Some(type_@.fields)) {
                Ok(v) => r matches Ok(x) && x.policy_type@ == type_@ && injections_view(x.injections@) == v,
                Err(e) => r matches Err(x) && x@ == e,
            }
        }),
{
    match declarations_of(input, Some(&type_)) {
        Ok(injections) => Ok(CompiledPolicySet { policy_type: type_, injections }),
        Err(e) => Err(e),
    }
}

/// Reads and checks declarations straight into policies.
pub fn compile_policies(type_: PolicyType, input: &str) -> (r: Result<Vec<Policy>, CompileError>)
    requires
        input@.len() < usize::MAX,
    ensures
        ({
            let lines = lines_from(input@, 0);
            match declarations(lines, lines.len() as int, Some(type_@.fields)) {
                Ok(v) => r matches Ok(x) && x@.len() == v.len() && forall|i: int| 0 <= i < v.len() ==> (#[trigger] x@[i])@ == (PolicyV {
                    policy_type: type_@,
                    prompt: v[i].injection,
                    action: v[i].action,
                }),
                Err(e) => r matches Err(x) && x@ == e,
            }
        }),
{
    let ghost t = type_@;
    match compile(type_, input) {
        Ok(c) => {
            let ghost v = injections_view(c.injections@);
            let ps = c.into_policies();
            assert(forall|i: int| 0 <= i < v.len() ==> v[i] == (#[trigger] c.injections@[i])@);
            Ok(ps)
        },
        Err(e) => Err(e),
    }
}

// ------------------------------------------------------------------ extra checks

/// The one-based numbers of the lines among the first `n` that are not blank:
/// the lines that the declarations come from, in order.
pub open spec fn declared_lines(lines: Seq<Seq<char>>, n: int) -> Seq<usize>
    decreases n,
{
    if n <= 0 {
        Seq::empty()
    } else if blank(lines[n - 1]) {
        declared_lines(lines, n - 1)
    } else {
        declared_lines(lines, n - 1).push(n as usize)
    }
}

/// Whether a call of `check` on the action `a`, given the line `l`, answers `r`.
pub open spec fn check_answers<F: Fn(&Json, Option<usize>) -> Result<(), CompileError>>(
    check: F,
    a: Json,
    l: Option<usize>,
    r: Result<(), CompileError>,
) -> bool {
    check.ensures((&a, l), r)
}

/// Whether a call of `check` answered `Ok` for each action of `acts`, given
/// the line of the same place in `ls`.
pub open spec fn passed_checks<F: Fn(&Json, Option<usize>) -> Result<(), CompileError>>(
    check: F,
    acts: Seq<Json>,
    ls: Seq<usize>,
) -> bool {
    forall|j: int| 0 <= j < acts.len() ==> #[trigger] check_answers(check, acts[j], Some(ls[j]), Ok(()))
}

/// The views of a sequence of JSON values.
pub open spec fn json_views(acts: Seq<Json>) -> Seq<JsonV> {
    Seq::new(acts.len(), |j: int| acts[j]@)
}

/// The actions of a sequence of declarations.
pub open spec fn actions_of(v: Seq<InjectionActionV>) -> Seq<JsonV> {
    Seq::new(v.len(), |j: int| v[j].action)
}

/// Whether `e` is the error of line `m` when the lines before it read and
/// checked fine: reading or checking the line against the type failed with
/// `e`, or it read and checked fine and a call of `check` on its action
/// answered `e`.
pub open spec fn fails_at<F: Fn(&Json, Option<usize>) -> Result<(), CompileError>>(
    check: F,
    lines: Seq<Seq<char>>,
    fs: Option<Seq<FieldV>>,
    m: int,
    e: CompileError,
) -> bool {
    &&& 1 <= m <= lines.len()
    &&& !blank(lines[m - 1])
    &&& declarations(lines, m - 1, fs) is Ok
    &&& exists|acts: Seq<Json>| json_views(acts) == actions_of(declarations(lines, m - 1, fs)->Ok_0)
        && #[trigger] passed_checks(check, acts, declared_lines(lines, m - 1))
    &&& (declarations(lines, m, fs) == Err::<Seq<InjectionActionV>, CompileErrorV>(e@) || (declarations(lines, m, fs) is Ok
        && exists|a: Json| a@ == injection_action_spec(lines[m - 1])->Ok_0.action
            && #[trigger] check_answers(check, a, Some(m as usize), Err(e))))
}


impl CompiledPolicySet {
    /// A set from declarations read already, each action checked against the
    /// type and then with `check` (given no line), one declaration after the
    /// other; the first error ends the checking.
    pub fn new_with_validator<F: Fn(&Json, Option<usize>) -> Result<(), CompileError>>(
        type_: PolicyType,
        injections: Vec<InjectionAction>,
        check: F,
    ) -> (r: Result<CompiledPolicySet, CompileError>)
        requires
            forall|a: &Json, l: Option<usize>| check.requires((a, l)),
        ensures
            ({
                let fs = type_@.fields;
                let v = injections_view(injections@);
                match r {
                    Ok(x) => {
                        &&& x.policy_type@ == type_@
                        &&& x.injections@ == injections@
                        &&& injections_error(fs, v) is None
                        &&& forall|j: int| 0 <= j < injections@.len() ==> #[trigger] check_answers(check, injections@[j].action, None, Ok(()))
                    },
                    Err(e) => exists|m: int| #[trigger] fails_among(check, fs, injections@, m, e),
                }
            }),
    {
        let ghost v = injections_view(injections@);
        let ghost fs = type_@.fields;
        let mut i: usize = 0;
        while i < injections.len()
            invariant
                0 <= i <= injections@.len(),
                v == injections_view(injections@),
                fs == type_@.fields,
                injections_error(fs, v.take(i as int)) is None,
                forall|j: int| 0 <= j < i ==> #[trigger] check_answers(check, injections@[j].action, None, Ok(())),
                forall|a: &Json, l: Option<usize>| check.requires((a, l)),
            decreases injections@.len() - i,
        {
            assert(v.take(i + 1).drop_last() =~= v.take(i as int));
            assert(v[i as int].action == injections@[i as int].action@);
            match validate_action(&type_, &injections[i].action, None) {
                Ok(()) => {},
                Err(e) => {
                    assert(fails_among(check, fs, injections@, i as int, e));
                    return Err(e);
                },
            }
            let verdict = check(&injections[i].action, None);
            match verdict {
                Ok(()) => {},
                Err(e) => {
                    assert(check_answers(check, injections@[i as int].action, None, Err(e)));
                    assert(fails_among(check, fs, injections@, i as int, e));
                    return Err(e);
                },
            }
            proof {
                assert(verdict->Ok_0 == ());
                assert(check_answers(check, injections@[i as int].action, None, Ok(())));
            }
            i = i + 1;
        }
        assert(v.take(i as int) =~= v);
        Ok(CompiledPolicySet { policy_type: type_, injections })
    }
}

/// Reads and checks declarations for a policy type, and checks each action
/// further with `check`, line by line: a line's action is handed to `check`,
/// with the line's number, once it has read and checked fine, and the first
/// error ends the reading.
pub fn compile_with_validator<F: Fn(&Json, Option<usize>) -> Result<(), CompileError>>(
    type_: PolicyType,
    input: &str,
    check: F,
) -> (r: Result<CompiledPolicySet, CompileError>)
    requires
        input@.len() < usize::MAX,
        forall|a: &Json, l: Option<usize>| check.requires((a, l)),
    ensures
        ({
            let lines = lines_from(input@, 0);
            let fs = Some(type_@.fields);
            match r {
                Ok(x) => {
                    &&& x.policy_type@ == type_@
                    &&& declarations(lines, lines.len() as int, fs) == Ok::<Seq<InjectionActionV>, CompileErrorV>(injections_view(x.injections@))
                    &&& forall|j: int| 0 <= j < x.injections@.len() ==> check.ensures(
                        (&(#[trigger] x.injections@[j]).action, Some(declared_lines(lines, lines.len() as int)[j])),
                        Ok(()),
                    )
                },
                Err(e) => exists|m: int| #[trigger] fails_at(check, lines, fs, m, e),
            }
        }),
{
    let cs = chars_of(input);
    let lines = lines_of(&cs);
    let ghost lv = lines.deep_view();
    let ghost fs = Some(type_@.fields);
    let mut out: Vec<InjectionAction> = Vec::new();
    let ghost mut ls: Seq<usize> = Seq::empty();
    let mut i: usize = 0;
    assert(injections_view(out@) =~= Seq::<InjectionActionV>::empty());
    while i < lines.len()
        invariant
            0 <= i <= lines@.len(),
            lines@.len() < usize::MAX,
            lv == lines_from(input@, 0),
            lv == lines.deep_view(),
            fs == Some(type_@.fields),
            declarations(lv, i as int, fs) == Ok::<Seq<InjectionActionV>, CompileErrorV>(injections_view(out@)),
            ls == declared_lines(lv, i as int),
            ls.len() == out@.len(),
            forall|j: int| 0 <= j < out@.len() ==> check.ensures((&(#[trigger] out@[j]).action, Some(ls[j])), Ok(())),
            forall|a: &Json, l: Option<usize>| check.requires((a, l)),
        decreases lines@.len() - i,
    {
        let line_number = i + 1;
        assert(lines@[i as int].deep_view() =~= lines@[i as int]@);
        assert(lv[i as int] == lines@[i as int]@);
        proof {
            let v = injections_view(out@);
            let acts = Seq::new(out@.len(), |j: int| out@[j].action);
            assert(json_views(acts) =~= actions_of(v));
            assert forall|j: int| 0 <= j < acts.len() implies #[trigger] check_answers(check, acts[j], Some(ls[j]), Ok(())) by {
                assert(check.ensures((&out@[j].action, Some(ls[j])), Ok(())));
            }
            assert(passed_checks(check, acts, ls));
        }
        if !is_blank(&lines[i]) {
            let ia = match parse_line(&lines[i], Some(line_number)) {
                Ok(ia) => ia,
                Err(e) => {
                    assert(fails_at(check, lv, fs, i + 1, e));
                    return Err(e);
                },
            };
            match validate_action(&type_, &ia.action, Some(line_number)) {
                Ok(()) => {},
                Err(e) => {
                    assert(fails_at(check, lv, fs, i + 1, e));
                    return Err(e);
                },
            }
            let verdict = check(&ia.action, Some(line_number));
            match verdict {
                Ok(()) => {},
                Err(e) => {
                    proof {
                        let a = ia.action;
                        assert(a@ == injection_action_spec(lv[i as int])->Ok_0.action);
                        assert(check_answers(check, a, Some(line_number), Err(e)));
                    }
                    assert(fails_at(check, lv, fs, i + 1, e));
                    return Err(e);
                },
            }
            let ghost before = injections_view(out@);
            let ghost iav = ia@;
            let ghost old_out = out@;
            let ghost iag = ia;
            out.push(ia);
            assert(injections_view(out@) =~= before.push(iav));
            proof {
                let old_ls = ls;
                ls = ls.push(line_number);
                assert(verdict->Ok_0 == ());
                assert(check.ensures((&iag.action, Some(line_number)), Ok::<(), CompileError>(())));
                assert forall|j: int| 0 <= j < out@.len() implies check.ensures((&(#[trigger] out@[j]).action, Some(ls[j])), Ok(())) by {
                    if j < old_out.len() {
                        assert(out@[j] == old_out[j]);
                        assert(ls[j] == old_ls[j]);
                        assert(check.ensures((&old_out[j].action, Some(old_ls[j])), Ok(())));
                    } else {
                        assert(out@[j] == iag);
                        assert(ls[j] == line_number);
                    }
                }
            }
        }
        i = i + 1;
    }
    Ok(CompiledPolicySet { policy_type: type_, injections: out })
}

} // verus!
