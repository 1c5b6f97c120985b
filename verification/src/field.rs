//! Typed fields of a policy type.
use vstd::prelude::*;

use crate::json::JsonNumber;
use crate::number::{number_display, number_display_of};
use crate::on_conflict::OnConflict;
use crate::text::{debug_quoted, debug_string, push_text};

verus! {

/// Represents a field in a PolicyType with its type, default value, and
/// conflict resolution strategy.
#[derive(Debug)]
pub enum Field {
    /// A boolean field that can be either true or false.
    Bool {
        /// The name of this field.
        name: String,
        /// The default boolean value when no policy sets this field.
        default: bool,
        /// Strategy for resolving conflicts when multiple policies set this field.
        on_conflict: OnConflict,
    },
    /// A free-form string field.
    String {
        /// The name of this field.
        name: String,
        /// The default string value when no policy sets this field.
        default: Option<String>,
        /// Strategy for resolving conflicts when multiple policies set this field.
        on_conflict: OnConflict,
    },
    /// A string field constrained to a specific set of allowed values.
    StringEnum {
        /// The name of this field.
        name: String,
        /// The allowed values for this field.
        values: Vec<String>,
        /// The default value when no policy sets this field.
        default: Option<String>,
        /// Strategy for resolving conflicts when multiple policies set this field.
        on_conflict: OnConflict,
    },
    /// An array of strings that policies can append to.
    StringArray {
        /// The name of this field.
        name: String,
    },
    /// A numeric field.
    Number {
        /// The name of this field.
        name: String,
        /// The default numeric value when no policy sets this field.
        default: Option<JsonNumber>,
        /// Strategy for resolving conflicts when multiple policies set this field.
        on_conflict: OnConflict,
    },
}

/// The mathematical value of a field.
pub enum FieldV {
    Bool { name: Seq<char>, default: bool, on_conflict: OnConflict },
    String { name: Seq<char>, default: Option<Seq<char>>, on_conflict: OnConflict },
    StringEnum {
        name: Seq<char>,
        values: Seq<Seq<char>>,
        default: Option<Seq<char>>,
        on_conflict: OnConflict,
    },
    StringArray { name: Seq<char> },
    Number { name: Seq<char>, default: Option<Seq<char>>, on_conflict: OnConflict },
}

/// The view of an optional string.
pub open spec fn opt_view(o: Option<String>) -> Option<Seq<char>> {
    match o {
        Some(s) => Some(s@),
        None => None,
    }
}

/// The view of an optional number.
pub open spec fn opt_number_view(o: Option<JsonNumber>) -> Option<Seq<char>> {
    match o {
        Some(n) => Some(n@),
        None => None,
    }
}

impl View for Field {
    type V = FieldV;

    open spec fn view(&self) -> FieldV {
        match self {
            Field::Bool { name, default, on_conflict } => FieldV::Bool {
                name: name@,
                default: *default,
                on_conflict: *on_conflict,
            },
            Field::String { name, default, on_conflict } => FieldV::String {
                name: name@,
                default: opt_view(*default),
                on_conflict: *on_conflict,
            },
            Field::StringEnum { name, values, default, on_conflict } => FieldV::StringEnum {
                name: name@,
                values: values.deep_view(),
                default: opt_view(*default),
                on_conflict: *on_conflict,
            },
            Field::StringArray { name } => FieldV::StringArray { name: name@ },
            Field::Number { name, default, on_conflict } => FieldV::Number {
                name: name@,
                default: opt_number_view(*default),
                on_conflict: *on_conflict,
            },
        }
    }
}

/// The name of a field.
pub open spec fn field_name(f: FieldV) -> Seq<char> {
    match f {
        FieldV::Bool { name, .. } => name,
        FieldV::String { name, .. } => name,
        FieldV::StringEnum { name, .. } => name,
        FieldV::StringArray { name } => name,
        FieldV::Number { name, .. } => name,
    }
}

impl Field {
    /// Get the name of this field.
    pub fn name(&self) -> (r: &str)
        ensures
            r@ == field_name(self@),
    {
        match self {
            Field::Bool { name, .. } => name.as_str(),
            Field::Number { name, .. } => name.as_str(),
            Field::String { name, .. } => name.as_str(),
            Field::StringEnum { name, .. } => name.as_str(),
            Field::StringArray { name } => name.as_str(),
        }
    }
}

/// ` @ agreement` and the like: how a field's display names its strategy.
pub open spec fn conflict_suffix(oc: OnConflict, largest: Seq<char>) -> Seq<char> {
    match oc {
        OnConflict::Default => Seq::empty(),
        OnConflict::Agreement => " @ agreement"@,
        OnConflict::LargestValue => " @ "@ + largest,
    }
}

/// The quoted values of an enum, separated by `, `.
pub open spec fn quoted_list(vs: Seq<Seq<char>>) -> Seq<char>
    decreases vs.len(),
{
    if vs.len() == 0 {
        Seq::empty()
    } else if vs.len() == 1 {
        debug_quoted(vs[0])
    } else {
        quoted_list(vs.drop_last()) + ", "@ + debug_quoted(vs.last())
    }
}

/// ` = "default"` for a string default, or nothing.
pub open spec fn string_default_text(d: Option<Seq<char>>) -> Seq<char> {
    match d {
        Some(v) => " = "@ + debug_quoted(v),
        None => Seq::empty(),
    }
}

/// The text of a field in the policy type language.
pub open spec fn field_text(f: FieldV) -> Seq<char> {
    match f {
        FieldV::Bool { name, default, on_conflict } => name + ": bool"@ + conflict_suffix(
            on_conflict,
            "sticky"@,
        ) + if default {
            " = true"@
        } else {
            Seq::empty()
        },
        FieldV::String { name, default, on_conflict } => name + ": string"@ + conflict_suffix(
            on_conflict,
            "last wins"@,
        ) + string_default_text(default),
        FieldV::StringEnum { name, values, default, on_conflict } => name + ": ["@ + quoted_list(
            values,
        ) + "]"@ + conflict_suffix(on_conflict, "highest wins"@) + string_default_text(default),
        FieldV::StringArray { name } => name + ": [string]"@,
        FieldV::Number { name, default, on_conflict } => name + ": number"@ + conflict_suffix(
            on_conflict,
            "last wins"@,
        ) + match default {
            Some(n) => " = "@ + number_display(n),
            None => Seq::empty(),
        },
    }
}

fn push_conflict_suffix(dst: &mut String, oc: OnConflict, largest: &str)
    ensures
        final(dst)@ == old(dst)@ + conflict_suffix(oc, largest@),
{
    match oc {
        OnConflict::Default => {
            assert(old(dst)@ + Seq::<char>::empty() =~= old(dst)@);
        },
        OnConflict::Agreement => push_text(dst, " @ agreement"),
        OnConflict::LargestValue => {
            push_text(dst, " @ ");
            push_text(dst, largest);
            assert(final(dst)@ =~= old(dst)@ + (" @ "@ + largest@));
        },
    }
}

fn push_string_default(dst: &mut String, d: &Option<String>)
    ensures
        final(dst)@ == old(dst)@ + string_default_text(opt_view(*d)),
{
    match d {
        Some(v) => {
            push_text(dst, " = ");
            let q = debug_string(v.as_str());
            push_text(dst, q.as_str());
            assert(final(dst)@ =~= old(dst)@ + (" = "@ + debug_quoted(v@)));
        },
        None => {
            assert(old(dst)@ + Seq::<char>::empty() =~= old(dst)@);
        },
    }
}

/// Appends the values quoted and separated by `, `.
pub(crate) fn push_quoted_list(r: &mut String, values: &Vec<String>)
    ensures
        final(r)@ == old(r)@ + quoted_list(values.deep_view()),
{
    let ghost pre = r@;
    let ghost vs = values.deep_view();
    let mut i: usize = 0;
    while i < values.len()
        invariant
            0 <= i <= values@.len(),
            vs == values.deep_view(),
            r@ == pre + quoted_list(vs.take(i as int)),
        decreases values@.len() - i,
    {
        if i > 0 {
            push_text(r, ", ");
        }
        let q = debug_string(values[i].as_str());
        push_text(r, q.as_str());
        proof {
            let t = vs.take(i + 1);
            assert(t.drop_last() =~= vs.take(i as int));
            assert(t.last() == vs[i as int]);
            if i == 0 {
                assert(quoted_list(vs.take(0)) =~= Seq::<char>::empty());
            }
            assert(r@ =~= pre + quoted_list(t));
        }
        i = i + 1;
    }
    assert(vs.take(values@.len() as int) =~= vs);
}

impl Field {
    /// The text of this field in the policy type language, as it is displayed.
    pub fn to_text(&self) -> (r: String)
        ensures
            r@ == field_text(self@),
    {
        let mut r = String::new();
        match self {
            Field::Bool { name, default, on_conflict } => {
                push_text(&mut r, name.as_str());
                push_text(&mut r, ": bool");
                push_conflict_suffix(&mut r, *on_conflict, "sticky");
                if *default {
                    push_text(&mut r, " = true");
                }
            },
            Field::String { name, default, on_conflict } => {
                push_text(&mut r, name.as_str());
                push_text(&mut r, ": string");
                push_conflict_suffix(&mut r, *on_conflict, "last wins");
                push_string_default(&mut r, default);
            },
            Field::StringEnum { name, values, default, on_conflict } => {
                push_text(&mut r, name.as_str());
                push_text(&mut r, ": [");
                push_quoted_list(&mut r, values);
                push_text(&mut r, "]");
                push_conflict_suffix(&mut r, *on_conflict, "highest wins");
                push_string_default(&mut r, default);
            },
            Field::StringArray { name } => {
                push_text(&mut r, name.as_str());
                push_text(&mut r, ": [string]");
            },
            Field::Number { name, default, on_conflict } => {
                push_text(&mut r, name.as_str());
                push_text(&mut r, ": number");
                push_conflict_suffix(&mut r, *on_conflict, "last wins");
                match default {
                    Some(n) => {
                        push_text(&mut r, " = ");
                        push_text(&mut r, number_display_of(n.as_str()).as_str());
                    },
                    None => {},
                }
            },
        }
        assert(r@ =~= field_text(self@));
        r
    }
}


/// A copy of a list of strings.
pub fn copy_strings(v: &Vec<String>) -> (r: Vec<String>)
    ensures
        r.deep_view() == v.deep_view(),
{
    let mut r: Vec<String> = Vec::new();
    let mut i: usize = 0;
    while i < v.len()
        invariant
            0 <= i <= v@.len(),
            r.deep_view() == v.deep_view().take(i as int),
        decreases v@.len() - i,
    {
        let ghost before = r.deep_view();
        let x = v[i].clone();
        r.push(x);
        assert(r.deep_view() =~= before.push(v.deep_view()[i as int]));
        assert(v.deep_view().take(i + 1) =~= v.deep_view().take(i as int).push(v.deep_view()[i as int]));
        i = i + 1;
    }
    assert(v.deep_view().take(i as int) =~= v.deep_view());
    r
}

/// Whether two lists of strings are equal.
pub fn strings_eq(a: &Vec<String>, b: &Vec<String>) -> (r: bool)
    ensures
        r == (a.deep_view() == b.deep_view()),
{
    if a.len() != b.len() {
        assert(a.deep_view().len() != b.deep_view().len());
        return false;
    }
    let mut i: usize = 0;
    while i < a.len()
        invariant
            0 <= i <= a@.len(),
            a@.len() == b@.len(),
            forall|j: int| 0 <= j < i ==> a.deep_view()[j] == b.deep_view()[j],
        decreases a@.len() - i,
    {
        if !crate::text::text_eq(a[i].as_str(), b[i].as_str()) {
            assert(a.deep_view()[i as int] != b.deep_view()[i as int]);
            return false;
        }
        i = i + 1;
    }
    assert(a.deep_view() =~= b.deep_view());
    true
}

fn opt_string_copy(o: &Option<String>) -> (r: Option<String>)
    ensures
        opt_view(r) == opt_view(*o),
{
    match o {
        Some(s) => Some(s.clone()),
        None => None,
    }
}

fn opt_string_eq(a: &Option<String>, b: &Option<String>) -> (r: bool)
    ensures
        r == (opt_view(*a) == opt_view(*b)),
{
    match (a, b) {
        (Some(x), Some(y)) => crate::text::text_eq(x.as_str(), y.as_str()),
        (None, None) => true,
        _ => false,
    }
}

fn opt_number_eq(a: &Option<JsonNumber>, b: &Option<JsonNumber>) -> (r: bool)
    ensures
        r == (opt_number_view(*a) == opt_number_view(*b)),
{
    match (a, b) {
        (Some(x), Some(y)) => crate::text::text_eq(x.as_str(), y.as_str()),
        (None, None) => true,
        _ => false,
    }
}

impl Field {
    /// A copy of this field.
    pub fn copy(&self) -> (r: Field)
        ensures
            r@ == self@,
    {
        match self {
            Field::Bool { name, default, on_conflict } => Field::Bool {
                name: name.clone(),
                default: *default,
                on_conflict: *on_conflict,
            },
            Field::String { name, default, on_conflict } => Field::String {
                name: name.clone(),
                default: opt_string_copy(default),
                on_conflict: *on_conflict,
            },
            Field::StringEnum { name, values, default, on_conflict } => Field::StringEnum {
                name: name.clone(),
                values: copy_strings(values),
                default: opt_string_copy(default),
                on_conflict: *on_conflict,
            },
            Field::StringArray { name } => Field::StringArray { name: name.clone() },
            Field::Number { name, default, on_conflict } => Field::Number {
                name: name.clone(),
                default: match default {
                    Some(n) => Some(n.copy()),
                    None => None,
                },
                on_conflict: *on_conflict,
            },
        }
    }

    /// Whether two fields are the same field.
    pub fn same(&self, other: &Field) -> (r: bool)
        ensures
            r == (self@ == other@),
    {
        match (self, other) {
            (Field::Bool { name: a, default: b, on_conflict: c }, Field::Bool { name: x, default: y, on_conflict: z }) => {
                crate::text::text_eq(a.as_str(), x.as_str()) && *b == *y && *c == *z
            },
            (Field::String { name: a, default: b, on_conflict: c }, Field::String { name: x, default: y, on_conflict: z }) => {
                crate::text::text_eq(a.as_str(), x.as_str()) && opt_string_eq(b, y) && *c == *z
            },
            (
                Field::StringEnum { name: a, values: v, default: b, on_conflict: c },
                Field::StringEnum { name: x, values: w, default: y, on_conflict: z },
            ) => {
                crate::text::text_eq(a.as_str(), x.as_str()) && strings_eq(v, w) && opt_string_eq(b, y) && *c == *z
            },
            (Field::StringArray { name: a }, Field::StringArray { name: x }) => crate::text::text_eq(a.as_str(), x.as_str()),
            (Field::Number { name: a, default: b, on_conflict: c }, Field::Number { name: x, default: y, on_conflict: z }) => {
                crate::text::text_eq(a.as_str(), x.as_str()) && opt_number_eq(b, y) && *c == *z
            },
            _ => false,
        }
    }
}

} // verus!
