//! Errors and conflicts reported while building and applying policies.
use vstd::prelude::*;

use crate::field::{Field, FieldV};
use crate::field::field_text;
use crate::json::{json_debug, json_debug_text, json_display, json_display_text, Json, JsonNumber, JsonV};
use crate::text::{debug_quoted, debug_string, decimal, push_decimal, push_text};
use crate::policy_type::{PolicyType, PolicyTypeV};

verus! {

/// `claudius::Error`, carried through unchanged.
#[verifier::external_type_specification]
#[verifier::external_body]
pub struct ExClaudiusError(claudius::Error);

/// Errors that can occur when working with policies.
#[derive(Debug)]
pub enum PolicyError {
    /// Field configuration is inconsistent with policy requirements.
    Inconsistent { field: Field },
    /// Expected a boolean value but got something else.
    ExpectedBool { field_name: String, actual_type: String },
    /// Expected a numeric value but got something else.
    ExpectedNumber { field_name: String, actual_type: String },
    /// Expected a string value but got something else.
    ExpectedString { field_name: String, actual_type: String },
    /// Default values conflict between policies.
    DefaultConflict { field: String, existing: Json, new: Json, suggestion: String },
    /// Internal invariant was violated.
    InvariantViolation { file: String, line: u32, message: String },
    /// Type checking failed.
    TypeCheckFailure {
        file: String,
        line: u32,
        message: String,
        expected: String,
        actual: String,
    },
    /// A policy was added next to policies of another type.
    PolicyTypeMismatch { expected: PolicyType, actual: PolicyType },
}

/// The mathematical value of a policy error.
pub enum PolicyErrorV {
    Inconsistent { field: FieldV },
    ExpectedBool { field_name: Seq<char>, actual_type: Seq<char> },
    ExpectedNumber { field_name: Seq<char>, actual_type: Seq<char> },
    ExpectedString { field_name: Seq<char>, actual_type: Seq<char> },
    DefaultConflict { field: Seq<char>, existing: JsonV, new: JsonV, suggestion: Seq<char> },
    InvariantViolation { file: Seq<char>, line: u32, message: Seq<char> },
    TypeCheckFailure {
        file: Seq<char>,
        line: u32,
        message: Seq<char>,
        expected: Seq<char>,
        actual: Seq<char>,
    },
    PolicyTypeMismatch { expected: PolicyTypeV, actual: PolicyTypeV },
}

impl View for PolicyError {
    type V = PolicyErrorV;

    open spec fn view(&self) -> PolicyErrorV {
        match self {
            PolicyError::Inconsistent { field } => PolicyErrorV::Inconsistent { field: field@ },
            PolicyError::ExpectedBool { field_name, actual_type } => PolicyErrorV::ExpectedBool {
                field_name: field_name@,
                actual_type: actual_type@,
            },
            PolicyError::ExpectedNumber { field_name, actual_type } => PolicyErrorV::ExpectedNumber {
                field_name: field_name@,
                actual_type: actual_type@,
            },
            PolicyError::ExpectedString { field_name, actual_type } => PolicyErrorV::ExpectedString {
                field_name: field_name@,
                actual_type: actual_type@,
            },
            PolicyError::DefaultConflict { field, existing, new, suggestion } => {
                PolicyErrorV::DefaultConflict {
                    field: field@,
                    existing: existing@,
                    new: new@,
                    suggestion: suggestion@,
                }
            },
            PolicyError::InvariantViolation { file, line, message } => {
                PolicyErrorV::InvariantViolation { file: file@, line: *line, message: message@ }
            },
            PolicyError::TypeCheckFailure { file, line, message, expected, actual } => {
                PolicyErrorV::TypeCheckFailure {
                    file: file@,
                    line: *line,
                    message: message@,
                    expected: expected@,
                    actual: actual@,
                }
            },
            PolicyError::PolicyTypeMismatch { expected, actual } => {
                PolicyErrorV::PolicyTypeMismatch { expected: expected@, actual: actual@ }
            },
        }
    }
}

/// The name of the JSON type of a value.
pub open spec fn json_type_name(v: JsonV) -> Seq<char> {
    match v {
        JsonV::Null => "null"@,
        JsonV::Bool(_) => "bool"@,
        JsonV::Number(_) => "number"@,
        JsonV::String(_) => "string"@,
        JsonV::Array(_) => "array"@,
        JsonV::Object(_) => "object"@,
    }
}

/// The name of the JSON type of a value.
pub fn json_type_of(v: &Json) -> (r: &'static str)
    ensures
        r@ == json_type_name(v@),
{
    match v {
        Json::Null => "null",
        Json::Bool(_) => "bool",
        Json::Number(_) => "number",
        Json::String(_) => "string",
        Json::Array(_) => "array",
        Json::Object(_) => "object",
    }
}

impl PolicyError {
    /// An `ExpectedBool` error naming the type of the value found.
    pub fn expected_bool(field_name: String, actual_value: &Json) -> (r: PolicyError)
        ensures
            r@ == (PolicyErrorV::ExpectedBool {
                field_name: field_name@,
                actual_type: json_type_name(actual_value@),
            }),
    {
        PolicyError::ExpectedBool {
            field_name,
            actual_type: crate::text::string_of(json_type_of(actual_value)),
        }
    }

    /// An `ExpectedNumber` error naming the type of the value found.
    pub fn expected_number(field_name: String, actual_value: &Json) -> (r: PolicyError)
        ensures
            r@ == (PolicyErrorV::ExpectedNumber {
                field_name: field_name@,
                actual_type: json_type_name(actual_value@),
            }),
    {
        PolicyError::ExpectedNumber {
            field_name,
            actual_type: crate::text::string_of(json_type_of(actual_value)),
        }
    }

    /// An `ExpectedString` error naming the type of the value found.
    pub fn expected_string(field_name: String, actual_value: &Json) -> (r: PolicyError)
        ensures
            r@ == (PolicyErrorV::ExpectedString {
                field_name: field_name@,
                actual_type: json_type_name(actual_value@),
            }),
    {
        PolicyError::ExpectedString {
            field_name,
            actual_type: crate::text::string_of(json_type_of(actual_value)),
        }
    }
}

/// Two policies that set one field to different values.
#[derive(Debug)]
pub enum Conflict {
    BoolConflict { field: String, val1: bool, val2: bool },
    NumberConflict { field: String, val1: JsonNumber, val2: JsonNumber },
    StringConflict { field: String, val1: String, val2: String },
    Disagree { name: String, value1: Json, value2: Json },
}

/// The mathematical value of a conflict.
pub enum ConflictV {
    BoolConflict { field: Seq<char>, val1: bool, val2: bool },
    NumberConflict { field: Seq<char>, val1: Seq<char>, val2: Seq<char> },
    StringConflict { field: Seq<char>, val1: Seq<char>, val2: Seq<char> },
    Disagree { name: Seq<char>, value1: JsonV, value2: JsonV },
}

impl View for Conflict {
    type V = ConflictV;

    open spec fn view(&self) -> ConflictV {
        match self {
            Conflict::BoolConflict { field, val1, val2 } => ConflictV::BoolConflict {
                field: field@,
                val1: *val1,
                val2: *val2,
            },
            Conflict::NumberConflict { field, val1, val2 } => ConflictV::NumberConflict {
                field: field@,
                val1: val1@,
                val2: val2@,
            },
            Conflict::StringConflict { field, val1, val2 } => ConflictV::StringConflict {
                field: field@,
                val1: val1@,
                val2: val2@,
            },
            Conflict::Disagree { name, value1, value2 } => ConflictV::Disagree {
                name: name@,
                value1: value1@,
                value2: value2@,
            },
        }
    }
}

/// Errors that can occur when applying policies to unstructured data.
#[derive(Debug)]
pub enum ApplyError {
    /// A policy-specific error occurred.
    Policy(PolicyError),
    /// An error occurred while communicating with the model.
    Claudius(claudius::Error),
    /// Policies have conflicting values that cannot be resolved.
    Conflict(Conflict),
    /// Too many retry attempts were made to resolve inconsistencies.
    TooManyIterations { attempts: usize, last_error: String },
    /// The model's response was invalid or unexpected.
    InvalidResponse { message: String, suggestion: String },
}

impl ApplyError {
    /// A `TooManyIterations` error with its context.
    pub fn too_many_iterations(attempts: usize, last_error: String) -> (r: ApplyError)
        ensures
            r matches ApplyError::TooManyIterations { attempts: a, last_error: e } && a == attempts
                && e@ == last_error@,
    {
        ApplyError::TooManyIterations { attempts, last_error }
    }

    /// An `InvalidResponse` error with a suggestion.
    pub fn invalid_response(message: String, suggestion: String) -> (r: ApplyError)
        ensures
            r matches ApplyError::InvalidResponse { message: m, suggestion: s } && m@ == message@
                && s@ == suggestion@,
    {
        ApplyError::InvalidResponse { message, suggestion }
    }
}


/// The message of a policy error, as it is displayed.
pub open spec fn policy_error_text(e: PolicyErrorV) -> Seq<char> {
    match e {
        PolicyErrorV::Inconsistent { field } => "Inconsistent field configuration: "@ + field_text(field)
            + "\nSuggestion: Check that the field type and conflict resolution strategy are compatible"@,
        PolicyErrorV::ExpectedBool { field_name, actual_type } => "Type mismatch for field '"@ + field_name
            + "': expected boolean value but got "@ + actual_type
            + "\nSuggestion: Ensure the policy action provides a boolean value for this field"@,
        PolicyErrorV::ExpectedNumber { field_name, actual_type } => "Type mismatch for field '"@ + field_name
            + "': expected numeric value but got "@ + actual_type
            + "\nSuggestion: Ensure the policy action provides a number for this field"@,
        PolicyErrorV::ExpectedString { field_name, actual_type } => "Type mismatch for field '"@ + field_name
            + "': expected string value but got "@ + actual_type
            + "\nSuggestion: Ensure the policy action provides a string for this field"@,
        PolicyErrorV::DefaultConflict { field, existing, new, suggestion } => "Default value conflict for field '"@
            + field + "':\n  Existing: "@ + json_display(existing) + "\n  New: "@ + json_display(new)
            + "\nSuggestion: "@ + suggestion,
        PolicyErrorV::InvariantViolation { file, line, message } => "Internal error at "@ + file + ":"@ + decimal(
            line as nat,
        ) + ": "@ + message
            + "\nThis is likely a bug in PolicyAI. Please report it at https://github.com/rescrv/policyai/issues"@,
        PolicyErrorV::TypeCheckFailure { file, line, message, expected, actual } => "Type check failure at "@ + file
            + ":"@ + decimal(line as nat) + ": "@ + message + "\n  Expected: "@ + expected + "\n  Actual: "@ + actual
            + "\nSuggestion: Verify that your policy actions match the policy type definition"@,
        PolicyErrorV::PolicyTypeMismatch { expected, actual } => "Policy type mismatch: expected '"@ + expected.name
            + "' but got '"@ + actual.name + "'"@,
    }
}

impl PolicyError {
    /// The message of this error, as it is displayed.
    pub fn to_text(&self) -> (r: String)
        ensures
            r@ == policy_error_text(self@),
    {
        let mut r = String::new();
        match self {
            PolicyError::Inconsistent { field } => {
                push_text(&mut r, "Inconsistent field configuration: ");
                let t = field.to_text();
                push_text(&mut r, t.as_str());
                push_text(&mut r, "\nSuggestion: Check that the field type and conflict resolution strategy are compatible");
            },
            PolicyError::ExpectedBool { field_name, actual_type } => {
                push_text(&mut r, "Type mismatch for field '");
                push_text(&mut r, field_name.as_str());
                push_text(&mut r, "': expected boolean value but got ");
                push_text(&mut r, actual_type.as_str());
                push_text(&mut r, "\nSuggestion: Ensure the policy action provides a boolean value for this field");
            },
            PolicyError::ExpectedNumber { field_name, actual_type } => {
                push_text(&mut r, "Type mismatch for field '");
                push_text(&mut r, field_name.as_str());
                push_text(&mut r, "': expected numeric value but got ");
                push_text(&mut r, actual_type.as_str());
                push_text(&mut r, "\nSuggestion: Ensure the policy action provides a number for this field");
            },
            PolicyError::ExpectedString { field_name, actual_type } => {
                push_text(&mut r, "Type mismatch for field '");
                push_text(&mut r, field_name.as_str());
                push_text(&mut r, "': expected string value but got ");
                push_text(&mut r, actual_type.as_str());
                push_text(&mut r, "\nSuggestion: Ensure the policy action provides a string for this field");
            },
            PolicyError::DefaultConflict { field, existing, new, suggestion } => {
                push_text(&mut r, "Default value conflict for field '");
                push_text(&mut r, field.as_str());
                push_text(&mut r, "':\n  Existing: ");
                let a = json_display_text(existing);
                push_text(&mut r, a.as_str());
                push_text(&mut r, "\n  New: ");
                let b = json_display_text(new);
                push_text(&mut r, b.as_str());
                push_text(&mut r, "\nSuggestion: ");
                push_text(&mut r, suggestion.as_str());
            },
            PolicyError::InvariantViolation { file, line, message } => {
                push_text(&mut r, "Internal error at ");
                push_text(&mut r, file.as_str());
                push_text(&mut r, ":");
                push_decimal(&mut r, *line as usize);
                push_text(&mut r, ": ");
                push_text(&mut r, message.as_str());
                push_text(&mut r, "\nThis is likely a bug in PolicyAI. Please report it at https://github.com/rescrv/policyai/issues");
            },
            PolicyError::TypeCheckFailure { file, line, message, expected, actual } => {
                push_text(&mut r, "Type check failure at ");
                push_text(&mut r, file.as_str());
                push_text(&mut r, ":");
                push_decimal(&mut r, *line as usize);
                push_text(&mut r, ": ");
                push_text(&mut r, message.as_str());
                push_text(&mut r, "\n  Expected: ");
                push_text(&mut r, expected.as_str());
                push_text(&mut r, "\n  Actual: ");
                push_text(&mut r, actual.as_str());
                push_text(&mut r, "\nSuggestion: Verify that your policy actions match the policy type definition");
            },
            PolicyError::PolicyTypeMismatch { expected, actual } => {
                push_text(&mut r, "Policy type mismatch: expected '");
                push_text(&mut r, expected.name.as_str());
                push_text(&mut r, "' but got '");
                push_text(&mut r, actual.name.as_str());
                push_text(&mut r, "'");
            },
        }
        assert(r@ =~= policy_error_text(self@));
        r
    }
}

/// The views of a sequence of errors.
pub open spec fn errors_view(v: Seq<PolicyError>) -> Seq<PolicyErrorV> {
    Seq::new(v.len(), |i: int| v[i]@)
}

/// The views of a sequence of conflicts.
pub open spec fn conflicts_view(v: Seq<Conflict>) -> Seq<ConflictV> {
    Seq::new(v.len(), |i: int| v[i]@)
}

/// The text of a boolean.
pub open spec fn bool_text(b: bool) -> Seq<char> {
    if b { "true"@ } else { "false"@ }
}

/// What `Debug` writes for a conflict: the variant and its fields, each
/// string quoted and each JSON value as `serde_json` debugs it.
pub open spec fn conflict_debug(c: ConflictV) -> Seq<char> {
    match c {
        ConflictV::BoolConflict { field, val1, val2 } => "BoolConflict { field: "@ + debug_quoted(field) + ", val1: "@
            + bool_text(val1) + ", val2: "@ + bool_text(val2) + " }"@,
        ConflictV::NumberConflict { field, val1, val2 } => "NumberConflict { field: "@ + debug_quoted(field)
            + ", val1: "@ + json_debug(JsonV::Number(val1)) + ", val2: "@ + json_debug(JsonV::Number(val2)) + " }"@,
        ConflictV::StringConflict { field, val1, val2 } => "StringConflict { field: "@ + debug_quoted(field)
            + ", val1: "@ + debug_quoted(val1) + ", val2: "@ + debug_quoted(val2) + " }"@,
        ConflictV::Disagree { name, value1, value2 } => "Disagree { name: "@ + debug_quoted(name) + ", value1: "@
            + json_debug(value1) + ", value2: "@ + json_debug(value2) + " }"@,
    }
}

fn push_bool(dst: &mut String, b: bool)
    ensures
        final(dst)@ == old(dst)@ + bool_text(b),
{
    if b {
        push_text(dst, "true");
    } else {
        push_text(dst, "false");
    }
}

fn push_quoted(dst: &mut String, s: &str)
    ensures
        final(dst)@ == old(dst)@ + debug_quoted(s@),
{
    let q = debug_string(s);
    push_text(dst, q.as_str());
}

impl Conflict {
    /// The conflict's `Debug` text.
    pub fn debug_text(&self) -> (r: String)
        ensures
            r@ == conflict_debug(self@),
    {
        let mut r = String::new();
        match self {
            Conflict::BoolConflict { field, val1, val2 } => {
                push_text(&mut r, "BoolConflict { field: ");
                push_quoted(&mut r, field.as_str());
                push_text(&mut r, ", val1: ");
                push_bool(&mut r, *val1);
                push_text(&mut r, ", val2: ");
                push_bool(&mut r, *val2);
                push_text(&mut r, " }");
            },
            Conflict::NumberConflict { field, val1, val2 } => {
                push_text(&mut r, "NumberConflict { field: ");
                push_quoted(&mut r, field.as_str());
                push_text(&mut r, ", val1: ");
                let a = json_debug_text(&Json::Number(val1.copy()));
                push_text(&mut r, a.as_str());
                push_text(&mut r, ", val2: ");
                let b = json_debug_text(&Json::Number(val2.copy()));
                push_text(&mut r, b.as_str());
                push_text(&mut r, " }");
            },
            Conflict::StringConflict { field, val1, val2 } => {
                push_text(&mut r, "StringConflict { field: ");
                push_quoted(&mut r, field.as_str());
                push_text(&mut r, ", val1: ");
                push_quoted(&mut r, val1.as_str());
                push_text(&mut r, ", val2: ");
                push_quoted(&mut r, val2.as_str());
                push_text(&mut r, " }");
            },
            Conflict::Disagree { name, value1, value2 } => {
                push_text(&mut r, "Disagree { name: ");
                push_quoted(&mut r, name.as_str());
                push_text(&mut r, ", value1: ");
                let a = json_debug_text(value1);
                push_text(&mut r, a.as_str());
                push_text(&mut r, ", value2: ");
                let b = json_debug_text(value2);
                push_text(&mut r, b.as_str());
                push_text(&mut r, " }");
            },
        }
        assert(r@ =~= conflict_debug(self@));
        r
    }
}

/// Calls `to_string` (`Display`) on a `claudius::Error`.  The error is
/// opaque here, so nothing is stated of the text.
#[verifier::external_body]
fn claudius_error_text(e: &claudius::Error) -> String {
    e.to_string()
}

impl ApplyError {
    /// The message of this error, as it is displayed.  For an error of the
    /// model's client only the words before the client's own message are
    /// stated.
    pub fn to_text(&self) -> (r: String)
        ensures
            match self {
                ApplyError::Policy(e) => r@ == "Policy error: "@ + policy_error_text(e@),
                ApplyError::Claudius(_) => r@.len() >= 25 && r@.take(25) == "LLM communication error: "@,
                ApplyError::Conflict(c) => r@ == "Policy conflict: "@ + conflict_debug(c@)
                    + "\nSuggestion: Review your policies for conflicting rules and adjust their conflict resolution strategies"@,
                ApplyError::TooManyIterations { attempts, last_error } => r@ == "Failed to apply policies after "@
                    + decimal(*attempts as nat) + " attempts\nLast error: "@ + last_error@
                    + "\nSuggestion: Simplify your policies or check for contradictory rules"@,
                ApplyError::InvalidResponse { message, suggestion } => r@ == "Invalid LLM response: "@ + message@
                    + "\nSuggestion: "@ + suggestion@,
            },
    {
        let mut r = String::new();
        match self {
            ApplyError::Policy(e) => {
                push_text(&mut r, "Policy error: ");
                let t = e.to_text();
                push_text(&mut r, t.as_str());
            },
            ApplyError::Claudius(e) => {
                push_text(&mut r, "LLM communication error: ");
                proof {
                    reveal_strlit("LLM communication error: ");
                }
                let ghost head = r@;
                let t = claudius_error_text(e);
                push_text(&mut r, t.as_str());
                assert(r@.take(25) =~= head);
            },
            ApplyError::Conflict(c) => {
                push_text(&mut r, "Policy conflict: ");
                let t = c.debug_text();
                push_text(&mut r, t.as_str());
                push_text(&mut r, "\nSuggestion: Review your policies for conflicting rules and adjust their conflict resolution strategies");
            },
            ApplyError::TooManyIterations { attempts, last_error } => {
                push_text(&mut r, "Failed to apply policies after ");
                push_decimal(&mut r, *attempts);
                push_text(&mut r, " attempts\nLast error: ");
                push_text(&mut r, last_error.as_str());
                push_text(&mut r, "\nSuggestion: Simplify your policies or check for contradictory rules");
            },
            ApplyError::InvalidResponse { message, suggestion } => {
                push_text(&mut r, "Invalid LLM response: ");
                push_text(&mut r, message.as_str());
                push_text(&mut r, "\nSuggestion: ");
                push_text(&mut r, suggestion.as_str());
            },
        }
        r
    }
}

} // verus!
