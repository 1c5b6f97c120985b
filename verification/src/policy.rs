//! A policy: a policy type, a prompt, and the action it takes.
use vstd::prelude::*;

use crate::json::{Json, JsonV};
use crate::policy_type::{PolicyType, PolicyTypeV};

verus! {

/// A policy: the type that shapes it, the prompt that says when it applies,
/// and the action, a JSON object keyed by field name.
#[derive(Debug)]
pub struct Policy {
    /// The type definition that gives the fields their types and strategies.
    pub policy_type: PolicyType,
    /// When and how this policy applies, in natural language.
    pub prompt: String,
    /// The values this policy sets, keyed by field name.
    pub action: Json,
}

/// The mathematical value of a policy.
pub struct PolicyV {
    pub policy_type: PolicyTypeV,
    pub prompt: Seq<char>,
    pub action: JsonV,
}

impl View for Policy {
    type V = PolicyV;

    open spec fn view(&self) -> PolicyV {
        PolicyV { policy_type: self.policy_type@, prompt: self.prompt@, action: self.action@ }
    }
}

} // verus!
