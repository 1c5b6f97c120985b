//! How a field resolves two policies that set it differently.
use vstd::prelude::*;

verus! {

/// Defines how to resolve conflicts when multiple policies set the same field.
///
/// - `Default`: the last value reported wins (arrays append).
/// - `Agreement`: all policies must agree on the value, or a conflict is reported.
/// - `LargestValue`: the largest value wins (true over false, the larger
///   number, the longer string, the enum value declared later).
#[derive(Clone, Copy, Debug, PartialEq, Eq, Structural)]
pub enum OnConflict {
    /// The last value reported wins.
    Default,
    /// All policies must agree on the value.
    Agreement,
    /// The largest value wins.
    LargestValue,
}

impl Default for OnConflict {
    fn default() -> (r: Self)
        ensures
            r == OnConflict::Default,
    {
        OnConflict::Default
    }
}

} // verus!
