//! Usage of the model by one application of policies.
use vstd::prelude::*;

verus! {

/// The token counts that the model's API reports for its calls, as
/// `claudius::Usage` holds them: input and output tokens, the optional cache
/// counts, the optional count of thinking tokens among the output tokens, and
/// the optional count of web search requests.
#[derive(Clone, Copy, Debug, PartialEq, Eq, Structural)]
pub struct TokenUsage {
    pub cache_creation_input_tokens: Option<i32>,
    pub cache_read_input_tokens: Option<i32>,
    pub input_tokens: i32,
    pub output_tokens: i32,
    pub thinking_tokens: Option<i32>,
    pub web_search_requests: Option<i32>,
}

/// Whether an `i32` holds `n`.
pub open spec fn fits_i32(n: int) -> bool {
    i32::MIN <= n <= i32::MAX
}

/// Whether the sum of two optional counts fits, where both are present.
pub open spec fn option_sum_fits(a: Option<i32>, b: Option<i32>) -> bool {
    match (a, b) {
        (Some(x), Some(y)) => fits_i32(x + y),
        _ => true,
    }
}

/// Two optional counts added: the sum where both are present, else the one present.
pub open spec fn option_sum(a: Option<i32>, b: Option<i32>) -> Option<i32> {
    match (a, b) {
        (Some(x), Some(y)) => Some((x + y) as i32),
        (Some(x), None) => Some(x),
        (None, Some(y)) => Some(y),
        (None, None) => None,
    }
}

/// Whether each count of the sum of `a` and `b` fits in an `i32`.
pub open spec fn usage_sum_fits(a: TokenUsage, b: TokenUsage) -> bool {
    &&& option_sum_fits(a.cache_creation_input_tokens, b.cache_creation_input_tokens)
    &&& option_sum_fits(a.cache_read_input_tokens, b.cache_read_input_tokens)
    &&& fits_i32(a.input_tokens + b.input_tokens)
    &&& fits_i32(a.output_tokens + b.output_tokens)
    &&& option_sum_fits(a.thinking_tokens, b.thinking_tokens)
    &&& option_sum_fits(a.web_search_requests, b.web_search_requests)
}

/// The field-by-field sum of two usages, as `claudius::Usage` adds them.
pub open spec fn usage_sum(a: TokenUsage, b: TokenUsage) -> TokenUsage {
    TokenUsage {
        cache_creation_input_tokens: option_sum(a.cache_creation_input_tokens, b.cache_creation_input_tokens),
        cache_read_input_tokens: option_sum(a.cache_read_input_tokens, b.cache_read_input_tokens),
        input_tokens: (a.input_tokens + b.input_tokens) as i32,
        output_tokens: (a.output_tokens + b.output_tokens) as i32,
        thinking_tokens: option_sum(a.thinking_tokens, b.thinking_tokens),
        web_search_requests: option_sum(a.web_search_requests, b.web_search_requests),
    }
}

fn add_option_counts(a: Option<i32>, b: Option<i32>) -> (r: Option<i32>)
    requires
        option_sum_fits(a, b),
    ensures
        r == option_sum(a, b),
{
    match (a, b) {
        (Some(x), Some(y)) => Some(x + y),
        (Some(x), None) => Some(x),
        (None, Some(y)) => Some(y),
        (None, None) => None,
    }
}

impl TokenUsage {
    /// The field-by-field sum of two usages.
    pub fn add(self, other: TokenUsage) -> (r: TokenUsage)
        requires
            usage_sum_fits(self, other),
        ensures
            r == usage_sum(self, other),
    {
        TokenUsage {
            cache_creation_input_tokens: add_option_counts(self.cache_creation_input_tokens, other.cache_creation_input_tokens),
            cache_read_input_tokens: add_option_counts(self.cache_read_input_tokens, other.cache_read_input_tokens),
            input_tokens: self.input_tokens + other.input_tokens,
            output_tokens: self.output_tokens + other.output_tokens,
            thinking_tokens: add_option_counts(self.thinking_tokens, other.thinking_tokens),
            web_search_requests: add_option_counts(self.web_search_requests, other.web_search_requests),
        }
    }
}

/// Calls `Duration::default`, the zero duration.
#[verifier::external_body]
fn zero_duration() -> std::time::Duration {
    std::time::Duration::default()
}

/// Usage metrics: token usage summed over calls, wall clock time, and the
/// number of iterations.
#[derive(Debug)]
pub struct Usage {
    /// Total token usage across all calls.
    pub claudius_usage: Option<TokenUsage>,
    /// Wall clock time of the operation.
    pub wall_clock_time: std::time::Duration,
    /// Number of iterations needed.
    pub iterations: usize,
}

impl Default for Usage {
    fn default() -> (r: Usage)
        ensures
            r.claudius_usage is None,
            r.iterations == 0,
    {
        Usage { claudius_usage: None, wall_clock_time: zero_duration(), iterations: 0 }
    }
}

impl Usage {
    /// Empty usage.
    pub fn new() -> (r: Usage)
        ensures
            r.claudius_usage is None,
            r.iterations == 0,
    {
        Usage::default()
    }

    /// Adds the usage of one call to the total, field by field.
    pub fn add_claudius_usage(&mut self, usage: TokenUsage)
        requires
            old(self).claudius_usage matches Some(e) ==> usage_sum_fits(e, usage),
        ensures
            final(self).claudius_usage == Some(match old(self).claudius_usage {
                Some(e) => usage_sum(e, usage),
                None => usage,
            }),
            final(self).iterations == old(self).iterations,
            final(self).wall_clock_time == old(self).wall_clock_time,
    {
        let total = match self.claudius_usage {
            Some(existing) => existing.add(usage),
            None => usage,
        };
        self.claudius_usage = Some(total);
    }

    /// Counts one more iteration.
    pub fn increment_iterations(&mut self)
        requires
            old(self).iterations < usize::MAX,
        ensures
            final(self).iterations == old(self).iterations + 1,
            final(self).claudius_usage == old(self).claudius_usage,
            final(self).wall_clock_time == old(self).wall_clock_time,
    {
        self.iterations = self.iterations + 1;
    }

    /// Sets the wall clock time.
    pub fn set_wall_clock_time(&mut self, duration: std::time::Duration)
        ensures
            final(self).wall_clock_time == duration,
            final(self).claudius_usage == old(self).claudius_usage,
            final(self).iterations == old(self).iterations,
    {
        self.wall_clock_time = duration;
    }
}

} // verus!
