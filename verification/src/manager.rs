//! A set of policies of one type, and the decisions taken while applying them.
use vstd::prelude::*;

use crate::errors::{ApplyError, PolicyError, PolicyErrorV};
use crate::json::{json_get, json_text_reading, parse_json_text, Json, JsonV};
use crate::number::{all_digits, nat_of};
use crate::policy_type::{trim_chars, trimmed};
use crate::text::{chars_of, decimal, push_decimal, push_text, string_from_chars, string_of};
use crate::policy::{Policy, PolicyV};
use crate::policy_type::PolicyTypeV;
use crate::report_builder::{add_policy_step, BuilderV, ReportBuilder};

verus! {

/// How structured output is requested from the model.
#[derive(Clone, Copy, Debug, PartialEq, Eq, Structural)]
pub enum InferenceConfig {
    /// The `output_json` tool, without strict validation.
    ToolUse,
    /// The `output_json` tool with strict validation.
    StrictToolUse,
    /// A JSON schema output format instead of a tool.
    OutputFormatJsonSchema,
}

impl Default for InferenceConfig {
    fn default() -> (r: InferenceConfig)
        ensures
            r == InferenceConfig::ToolUse,
    {
        InferenceConfig::ToolUse
    }
}

impl InferenceConfig {
    /// Whether this configuration asks for output through a tool.
    pub fn uses_tools(self) -> (r: bool)
        ensures
            r == (self == InferenceConfig::ToolUse || self == InferenceConfig::StrictToolUse),
    {
        match self {
            InferenceConfig::ToolUse | InferenceConfig::StrictToolUse => true,
            InferenceConfig::OutputFormatJsonSchema => false,
        }
    }
}

/// Holds policies that all share one policy type.
#[derive(Debug)]
pub struct Manager {
    policies: Vec<Policy>,
    inference_config: InferenceConfig,
}

/// The mathematical value of a manager.
pub struct ManagerV {
    pub policies: Seq<PolicyV>,
    pub inference_config: InferenceConfig,
}

impl View for Manager {
    type V = ManagerV;

    closed spec fn view(&self) -> ManagerV {
        ManagerV {
            policies: self.policies@.map_values(|p: Policy| p@),
            inference_config: self.inference_config,
        }
    }
}

/// Whether a policy of type `t` may join the policies `ps`: they are empty
/// or the last has the same type.
pub open spec fn type_fits(ps: Seq<PolicyV>, t: PolicyTypeV) -> bool {
    ps.len() == 0 || ps.last().policy_type == t
}

/// Whether every policy of `ps` has the same type.
pub open spec fn one_type(ps: Seq<PolicyV>) -> bool {
    forall|i: int, j: int| 0 <= i < j < ps.len() ==> ps[i].policy_type == ps[j].policy_type
}

/// A manager only ever holds policies of one type: adding a policy that
/// `try_add` accepts keeps every policy of the same type.
pub proof fn law_one_policy_type(ps: Seq<PolicyV>, p: PolicyV)
    requires
        one_type(ps),
        type_fits(ps, p.policy_type),
    ensures
        one_type(ps.push(p)),
{
    let q = ps.push(p);
    assert forall|i: int, j: int| 0 <= i < j < q.len() implies q[i].policy_type == q[j].policy_type by {
        if j == ps.len() {
            assert(q[i] == ps[i]);
            if i < ps.len() - 1 {
                assert(ps[i].policy_type == ps[ps.len() - 1].policy_type);
            }
        }
    }
}

/// The builder after adding the policies `ps` in order, or the first error.
pub open spec fn build_step(b: BuilderV, ps: Seq<PolicyV>) -> Result<BuilderV, PolicyErrorV>
    decreases ps.len(),
{
    if ps.len() == 0 {
        Ok(b)
    } else {
        match build_step(b, ps.drop_last()) {
            Ok(b2) => {
                let (b3, r) = add_policy_step(b2, ps.last());
                match r {
                    Ok(_) => Ok(b3),
                    Err(e) => Err(e),
                }
            },
            Err(e) => Err(e),
        }
    }
}

impl Default for Manager {
    fn default() -> (r: Manager)
        ensures
            r@.policies == Seq::<PolicyV>::empty(),
            r@.inference_config == InferenceConfig::ToolUse,
    {
        let r = Manager { policies: Vec::new(), inference_config: InferenceConfig::ToolUse };
        assert(r@.policies =~= Seq::<PolicyV>::empty());
        r
    }
}

impl Manager {
    /// This manager with another inference configuration.
    pub fn with_inference_config(self, inference_config: InferenceConfig) -> (r: Manager)
        ensures
            r@ == (ManagerV { inference_config, ..self@ }),
    {
        Manager { inference_config, ..self }
    }

    /// Sets the inference configuration.
    pub fn set_inference_config(&mut self, inference_config: InferenceConfig)
        ensures
            final(self)@ == (ManagerV { inference_config, ..old(self)@ }),
    {
        self.inference_config = inference_config;
    }

    /// The inference configuration.
    pub fn inference_config(&self) -> (r: InferenceConfig)
        ensures
            r == self@.inference_config,
    {
        self.inference_config
    }

    /// Adds a policy, unless its type differs from that of the policies
    /// already held: that is a `PolicyTypeMismatch` naming both types.
    pub fn try_add(&mut self, policy: Policy) -> (r: Result<(), PolicyError>)
        ensures
            type_fits(old(self)@.policies, policy@.policy_type) ==> (r is Ok && final(self)@ == (ManagerV {
                policies: old(self)@.policies.push(policy@),
                ..old(self)@
            })),
            !type_fits(old(self)@.policies, policy@.policy_type) ==> final(self)@ == old(self)@ && (r matches Err(e)
                && e@ == (PolicyErrorV::PolicyTypeMismatch {
                expected: old(self)@.policies.last().policy_type,
                actual: policy@.policy_type,
            })),
    {
        let n = self.policies.len();
        if n > 0 {
            if !self.policies[n - 1].policy_type.same(&policy.policy_type) {
                let expected = self.policies[n - 1].policy_type.copy();
                return Err(PolicyError::PolicyTypeMismatch { expected, actual: policy.policy_type });
            }
        }
        let ghost old_ps = self@.policies;
        let ghost pv = policy@;
        self.policies.push(policy);
        assert(self@.policies =~= old_ps.push(pv));
        Ok(())
    }

    /// Adds a policy whose type is that of the policies already held.
    pub fn add(&mut self, policy: Policy)
        requires
            type_fits(old(self)@.policies, policy@.policy_type),
        ensures
            final(self)@ == (ManagerV { policies: old(self)@.policies.push(policy@), ..old(self)@ }),
    {
        let r = self.try_add(policy);
    }

    /// The number of policies.
    pub fn len(&self) -> (r: usize)
        ensures
            r == self@.policies.len(),
    {
        self.policies.len()
    }

    /// Whether there are no policies.
    pub fn is_empty(&self) -> (r: bool)
        ensures
            r == (self@.policies.len() == 0),
    {
        self.policies.len() == 0
    }

    /// The policies, in the order they were added.
    pub fn policies(&self) -> (r: &Vec<Policy>)
        ensures
            r@.map_values(|p: Policy| p@) == self@.policies,
    {
        &self.policies
    }

    /// A report builder holding every policy as a rule, in order: the first
    /// part of preparing a request.
    pub fn report_builder(&self) -> (r: Result<ReportBuilder, PolicyError>)
        requires
            self@.policies.len() < usize::MAX - 1,
        ensures
            match build_step(ReportBuilder::default_view(), self@.policies) {
                Ok(b) => r matches Ok(x) && x@ == b,
                Err(e) => r matches Err(x) && x@ == e,
            },
    {
        let mut report = ReportBuilder::default();
        let ghost ps = self@.policies;
        let mut i: usize = 0;
        assert(ps.take(0) =~= Seq::<PolicyV>::empty());
        while i < self.policies.len()
            invariant
                0 <= i <= self.policies@.len(),
                ps == self@.policies,
                ps.len() < usize::MAX - 1,
                build_step(ReportBuilder::default_view(), ps.take(i as int)) == Ok::<BuilderV, PolicyErrorV>(report@),
                report@.mask_index == i + 1,
                report@.policy_index == i + 1,
            decreases self.policies@.len() - i,
        {
            assert(ps.take(i + 1).drop_last() =~= ps.take(i as int));
            assert(ps.take(i + 1).last() == self.policies@[i as int]@);
            match report.add_policy(&self.policies[i]) {
                Ok(()) => {},
                Err(e) => {
                    proof {
                        lemma_build_error(ReportBuilder::default_view(), ps, i as int + 1);
                    }
                    return Err(e);
                },
            }
            i = i + 1;
        }
        assert(ps.take(i as int) =~= ps);
        Ok(report)
    }
}

proof fn lemma_build_error(b: BuilderV, ps: Seq<PolicyV>, n: int)
    requires
        0 <= n <= ps.len(),
        build_step(b, ps.take(n)) is Err,
    ensures
        build_step(b, ps) == build_step(b, ps.take(n)),
    decreases ps.len() - n,
{
    if n < ps.len() {
        assert(ps.take(n + 1).drop_last() =~= ps.take(n));
        lemma_build_error(b, ps, n + 1);
    } else {
        assert(ps.take(n) =~= ps);
    }
}


// ------------------------------------------------------------------ rule numbers

/// The rule number a number text spells: decimal digits only, no larger than
/// `usize::MAX`.
pub open spec fn rule_number(t: Seq<char>) -> Option<usize> {
    if t.len() > 0 && all_digits(t) && nat_of(t) <= usize::MAX {
        Some(nat_of(t) as usize)
    } else {
        None
    }
}

/// The rule numbers of the elements of `a`, if each is one.
pub open spec fn rule_numbers(a: Seq<JsonV>) -> Option<Seq<usize>>
    decreases a.len(),
{
    if a.len() == 0 {
        Some(Seq::empty())
    } else {
        match rule_numbers(a.drop_last()) {
            Some(rs) => match a.last() {
                JsonV::Number(t) => match rule_number(t) {
                    Some(r) => Some(rs.push(r)),
                    None => None,
                },
                _ => None,
            },
            None => None,
        }
    }
}

/// The rule numbers the model's output says matched: its
/// `__rule_numbers__` member, an array of rule numbers.
pub open spec fn reported_rules(ir: JsonV) -> Option<Seq<usize>> {
    match json_get(ir, "__rule_numbers__"@) {
        Some(JsonV::Array(a)) => rule_numbers(a),
        _ => None,
    }
}

proof fn lemma_nat_of_push(t: Seq<char>, c: char)
    ensures
        nat_of(t.push(c)) == nat_of(t) * 10 + crate::number::digit_value(c),
{
    assert(t.push(c).drop_last() =~= t);
}

/// The rule number a number text spells.
fn rule_number_of(t: &str) -> (r: Option<usize>)
    ensures
        r == rule_number(t@),
{
    let cs = crate::text::chars_of(t);
    if cs.len() == 0 {
        return None;
    }
    let mut n: usize = 0;
    let mut i: usize = 0;
    while i < cs.len()
        invariant
            0 <= i <= cs@.len(),
            cs@ == t@,
            cs@.len() > 0,
            all_digits(cs@.take(i as int)),
            n == nat_of(cs@.take(i as int)),
        decreases cs@.len() - i,
    {
        let c = cs[i];
        assert(cs@.take(i + 1) =~= cs@.take(i as int).push(c));
        proof {
            lemma_nat_of_push(cs@.take(i as int), c);
        }
        if !('0' <= c && c <= '9') {
            assert(!all_digits(cs@)) by {
                assert(cs@[i as int] == c);
            }
            return None;
        }
        let d = (c as u32 - '0' as u32) as usize;
        assert(d == crate::number::digit_value(c));
        if n > (usize::MAX - d) / 10 {
            proof {
                assert(nat_of(cs@.take(i + 1)) > usize::MAX) by (nonlinear_arith)
                    requires
                        nat_of(cs@.take(i + 1)) == n * 10 + d,
                        n > (usize::MAX - d) / 10,
                        d < 10,
                ;
                if all_digits(cs@) {
                    lemma_nat_of_prefix_bound(cs@, i as int + 1);
                }
            }
            return None;
        }
        assert(n * 10 + d <= usize::MAX) by (nonlinear_arith)
            requires
                n <= (usize::MAX - d) / 10,
                d < 10,
        ;
        n = n * 10 + d;
        i = i + 1;
    }
    assert(cs@.take(i as int) =~= cs@);
    Some(n)
}

proof fn lemma_nat_of_prefix_bound(t: Seq<char>, k: int)
    requires
        0 <= k <= t.len(),
        all_digits(t),
    ensures
        nat_of(t.take(k)) <= nat_of(t),
    decreases t.len() - k,
{
    if k < t.len() {
        lemma_nat_of_prefix_bound(t, k + 1);
        assert(t.take(k + 1) =~= t.take(k).push(t[k]));
        lemma_nat_of_push(t.take(k), t[k]);
    } else {
        assert(t.take(k) =~= t);
    }
}

/// The rule numbers the model's output says matched, if it says so in the
/// expected form.
pub fn reported_rule_numbers(ir: &Json) -> (r: Option<Vec<usize>>)
    ensures
        match reported_rules(ir@) {
            Some(rs) => r matches Some(v) && v@ == rs,
            None => r is None,
        },
{
    let got = ir.get("__rule_numbers__");
    match got {
        Some(Json::Array(a)) => {
            let ghost av = got->0@->Array_0;
            assert(av.len() == a@.len());
            assert(forall|j: int| 0 <= j < a@.len() ==> av[j] == (#[trigger] a@[j])@);
            assert(reported_rules(ir@) == rule_numbers(av));
            let mut out: Vec<usize> = Vec::new();
            let mut i: usize = 0;
            assert(av.take(0) =~= Seq::<JsonV>::empty());
            while i < a.len()
                invariant
                    0 <= i <= a@.len(),
                    av.len() == a@.len(),
                    forall|j: int| 0 <= j < a@.len() ==> av[j] == (#[trigger] a@[j])@,
                    rule_numbers(av.take(i as int)) == Some(out@),
                    reported_rules(ir@) == rule_numbers(av),
                decreases a@.len() - i,
            {
                assert(av.take(i + 1).drop_last() =~= av.take(i as int));
                assert(av.take(i + 1).last() == a@[i as int]@);
                let n = match &a[i] {
                    Json::Number(t) => rule_number_of(t.as_str()),
                    _ => None,
                };
                match n {
                    Some(x) => {
                        out.push(x);
                    },
                    None => {
                        proof {
                            lemma_rule_numbers_none(av, i as int + 1);
                        }
                        return None;
                    },
                }
                i = i + 1;
            }
            assert(av.take(i as int) =~= av);
            Some(out)
        },
        _ => None,
    }
}

proof fn lemma_rule_numbers_none(a: Seq<JsonV>, n: int)
    requires
        0 <= n <= a.len(),
        rule_numbers(a.take(n)) is None,
    ensures
        rule_numbers(a) is None,
    decreases a.len() - n,
{
    if n < a.len() {
        assert(a.take(n + 1).drop_last() =~= a.take(n));
        lemma_rule_numbers_none(a, n + 1);
    } else {
        assert(a.take(n) =~= a);
    }
}


proof fn lemma_decimal_digits(n: nat)
    ensures
        decimal(n).len() > 0,
        all_digits(decimal(n)),
        nat_of(decimal(n)) == n,
    decreases n,
{
    if n >= 10 {
        lemma_decimal_digits(n / 10);
        let c = crate::text::digit_char(n % 10);
        lemma_nat_of_push(decimal(n / 10), c);
        assert(crate::number::digit_value(c) == n % 10);
        let d = decimal(n);
        assert(d.drop_last() == decimal(n / 10));
        assert forall|i: int| 0 <= i < d.len() implies '0' <= #[trigger] d[i] && d[i] <= '9' by {
            if i < d.len() - 1 {
                assert(d[i] == decimal(n / 10)[i]);
            }
        }
    } else {
        let c = crate::text::digit_char(n);
        assert(decimal(n) =~= Seq::<char>::empty().push(c));
        lemma_nat_of_push(Seq::<char>::empty(), c);
    }
}

/// A rule number reads back as written: the decimal text of `n` reads as `n`.
pub proof fn law_rule_number_reads_back(n: usize)
    ensures
        rule_number(decimal(n as nat)) == Some(n),
{
    lemma_decimal_digits(n as nat);
}

/// An output that lists the decimal texts of rule numbers `ns`, in order,
/// under `__rule_numbers__` reports exactly `ns`.
pub proof fn law_reported_rules_read_back(ns: Seq<usize>, ir: JsonV)
    requires
        json_get(ir, "__rule_numbers__"@) == Some(
            JsonV::Array(Seq::new(ns.len(), |i: int| JsonV::Number(decimal(ns[i] as nat)))),
        ),
    ensures
        reported_rules(ir) == Some(ns),
{
    lemma_rule_numbers_written(ns);
}

proof fn lemma_rule_numbers_written(ns: Seq<usize>)
    ensures
        rule_numbers(Seq::new(ns.len(), |i: int| JsonV::Number(decimal(ns[i] as nat)))) == Some(ns),
    decreases ns.len(),
{
    let a = Seq::new(ns.len(), |i: int| JsonV::Number(decimal(ns[i] as nat)));
    if ns.len() > 0 {
        let prev = ns.drop_last();
        lemma_rule_numbers_written(prev);
        assert(a.drop_last() =~= Seq::new(prev.len(), |i: int| JsonV::Number(decimal(prev[i] as nat))));
        law_rule_number_reads_back(ns.last());
        assert(prev.push(ns.last()) =~= ns);
    } else {
        assert(ns =~= Seq::<usize>::empty());
    }
}


// ------------------------------------------------------------------ rule checks

/// `s` with `x` inserted in order, unless it is there already.
pub open spec fn insert_sorted(s: Seq<usize>, x: usize) -> Seq<usize>
    decreases s.len(),
{
    if s.len() == 0 {
        seq![x]
    } else if s[0] == x {
        s
    } else if x < s[0] {
        seq![x] + s
    } else {
        seq![s[0]] + insert_sorted(s.skip(1), x)
    }
}

/// The distinct elements of `v` in increasing order, as sorting and then
/// removing repeats gives them.
pub open spec fn sorted_distinct(v: Seq<usize>) -> Seq<usize>
    decreases v.len(),
{
    if v.len() == 0 {
        Seq::empty()
    } else {
        insert_sorted(sorted_distinct(v.drop_last()), v.last())
    }
}

/// Whether `s` is strictly increasing.
pub open spec fn strictly_increasing(s: Seq<usize>) -> bool {
    forall|i: int, j: int| 0 <= i < j < s.len() ==> s[i] < s[j]
}

proof fn lemma_insert_sorted(s: Seq<usize>, x: usize)
    requires
        strictly_increasing(s),
    ensures
        strictly_increasing(insert_sorted(s, x)),
        forall|y: usize| #[trigger] insert_sorted(s, x).contains(y) <==> (s.contains(y) || y == x),
    decreases s.len(),
{
    let r = insert_sorted(s, x);
    if s.len() == 0 {
        assert(r =~= seq![x]);
        assert forall|y: usize| r.contains(y) <==> (s.contains(y) || y == x) by {
            if r.contains(y) {
                let k = choose|k: int| 0 <= k < r.len() && r[k] == y;
                assert(k == 0);
            }
            if y == x {
                assert(r[0] == y);
            }
        }
    } else if s[0] == x {
    } else if x < s[0] {
        assert forall|y: usize| r.contains(y) <==> (s.contains(y) || y == x) by {
            if r.contains(y) {
                let k = choose|k: int| 0 <= k < r.len() && r[k] == y;
                if k > 0 {
                    assert(s[k - 1] == y);
                }
            }
            if s.contains(y) {
                let k = choose|k: int| 0 <= k < s.len() && s[k] == y;
                assert(r[k + 1] == y);
            }
            if y == x {
                assert(r[0] == y);
            }
        }
    } else {
        let t = s.skip(1);
        assert(strictly_increasing(t));
        lemma_insert_sorted(t, x);
        let u = insert_sorted(t, x);
        assert(r =~= seq![s[0]] + u);
        assert forall|y: usize| r.contains(y) <==> (s.contains(y) || y == x) by {
            if r.contains(y) {
                let k = choose|k: int| 0 <= k < r.len() && r[k] == y;
                if k > 0 {
                    assert(u[k - 1] == y);
                    assert(u.contains(y));
                    if t.contains(y) {
                        let m = choose|m: int| 0 <= m < t.len() && t[m] == y;
                        assert(s[m + 1] == y);
                    }
                } else {
                    assert(s[0] == y);
                }
            }
            if s.contains(y) {
                let k = choose|k: int| 0 <= k < s.len() && s[k] == y;
                if k == 0 {
                    assert(r[0] == y);
                } else {
                    assert(t[k - 1] == y);
                    assert(t.contains(y));
                    assert(insert_sorted(t, x).contains(y));
                    let m = choose|m: int| 0 <= m < u.len() && u[m] == y;
                    assert(r[m + 1] == y);
                }
            }
            if y == x {
                assert(insert_sorted(t, x).contains(x));
                let m = choose|m: int| 0 <= m < u.len() && u[m] == y;
                assert(r[m + 1] == y);
            }
        }
        assert forall|i: int, j: int| 0 <= i < j < r.len() implies r[i] < r[j] by {
            if i == 0 {
                assert(u.contains(r[j]));
                assert(t.contains(r[j]) || r[j] == x);
                if t.contains(r[j]) {
                    let m = choose|m: int| 0 <= m < t.len() && t[m] == r[j];
                    assert(s[m + 1] == r[j]);
                }
            } else {
                assert(r[i] == u[i - 1] && r[j] == u[j - 1]);
            }
        }
    }
}

/// What `sorted_distinct` gives: a strictly increasing sequence holding the
/// elements of `v` and no others.
pub proof fn lemma_sorted_distinct(v: Seq<usize>)
    ensures
        strictly_increasing(sorted_distinct(v)),
        forall|y: usize| #[trigger] sorted_distinct(v).contains(y) <==> v.contains(y),
    decreases v.len(),
{
    if v.len() > 0 {
        lemma_sorted_distinct(v.drop_last());
        lemma_insert_sorted(sorted_distinct(v.drop_last()), v.last());
        assert forall|y: usize| sorted_distinct(v).contains(y) <==> v.contains(y) by {
            if v.drop_last().contains(y) {
                let k = choose|k: int| 0 <= k < v.len() - 1 && v.drop_last()[k] == y;
                assert(v[k] == y);
            }
            if v.contains(y) {
                let k = choose|k: int| 0 <= k < v.len() && v[k] == y;
                if k < v.len() - 1 {
                    assert(v.drop_last()[k] == y);
                }
            }
        }
    }
}

proof fn lemma_increasing_unique(s: Seq<usize>, t: Seq<usize>)
    requires
        strictly_increasing(s),
        strictly_increasing(t),
        forall|y: usize| s.contains(y) <==> t.contains(y),
    ensures
        s == t,
    decreases s.len(),
{
    if s.len() == 0 {
        if t.len() > 0 {
            assert(t.contains(t[0]));
        }
        assert(s =~= t);
    } else {
        assert(s.contains(s[0]));
        assert(t.len() > 0);
        assert(t.contains(t[0]));
        let i = choose|i: int| 0 <= i < t.len() && t[i] == s[0];
        let j = choose|j: int| 0 <= j < s.len() && s[j] == t[0];
        assert(s[0] == t[0]) by {
            if i > 0 {
                assert(t[0] < t[i]);
                assert(s[0] <= s[j]);
            }
        }
        let s1 = s.skip(1);
        let t1 = t.skip(1);
        assert forall|y: usize| s1.contains(y) <==> t1.contains(y) by {
            if s1.contains(y) {
                let k = choose|k: int| 0 <= k < s1.len() && s1[k] == y;
                assert(s[k + 1] == y && s[0] < y);
                assert(t.contains(y));
                let m = choose|m: int| 0 <= m < t.len() && t[m] == y;
                assert(m > 0);
                assert(t1[m - 1] == y);
            }
            if t1.contains(y) {
                let k = choose|k: int| 0 <= k < t1.len() && t1[k] == y;
                assert(t[k + 1] == y && t[0] < y);
                assert(s.contains(y));
                let m = choose|m: int| 0 <= m < s.len() && s[m] == y;
                assert(m > 0);
                assert(s1[m - 1] == y);
            }
        }
        lemma_increasing_unique(s1, t1);
        assert(s =~= seq![s[0]] + s1);
        assert(t =~= seq![t[0]] + t1);
    }
}

/// The rule numbers the model reports agree with the rules whose fields it
/// set exactly when both name the same set of rules, whatever their order
/// and repeats.
pub proof fn law_rule_numbers_agree_as_sets(empirical: Seq<usize>, reported: Seq<usize>)
    ensures
        (sorted_distinct(empirical) == sorted_distinct(reported)) <==> (empirical.to_set() == reported.to_set()),
{
    lemma_sorted_distinct(empirical);
    lemma_sorted_distinct(reported);
    if empirical.to_set() == reported.to_set() {
        assert forall|y: usize| sorted_distinct(empirical).contains(y) <==> sorted_distinct(reported).contains(y) by {
            assert(empirical.to_set().contains(y) == reported.to_set().contains(y));
        }
        lemma_increasing_unique(sorted_distinct(empirical), sorted_distinct(reported));
    }
    if sorted_distinct(empirical) == sorted_distinct(reported) {
        assert forall|y: usize| empirical.to_set().contains(y) <==> reported.to_set().contains(y) by {
            assert(sorted_distinct(empirical).contains(y) == sorted_distinct(reported).contains(y));
        }
        assert(empirical.to_set() =~= reported.to_set());
    }
}

/// The elements of `a` that are not in `b`, in order.
pub open spec fn missing_from(a: Seq<usize>, b: Seq<usize>) -> Seq<usize>
    decreases a.len(),
{
    if a.len() == 0 {
        Seq::empty()
    } else if b.contains(a.last()) {
        missing_from(a.drop_last(), b)
    } else {
        missing_from(a.drop_last(), b).push(a.last())
    }
}

/// `[1, 2, 3]`: a list as `{:?}` writes it.
pub open spec fn list_text(v: Seq<usize>) -> Seq<char> {
    "["@ + list_items(v) + "]"@
}

/// The elements of a list, separated by `, `.
pub open spec fn list_items(v: Seq<usize>) -> Seq<char>
    decreases v.len(),
{
    if v.len() == 0 {
        Seq::empty()
    } else if v.len() == 1 {
        decimal(v[0] as nat)
    } else {
        list_items(v.drop_last()) + ", "@ + decimal(v.last() as nat)
    }
}

/// The feedback for one mask of rule `r`: set but not reported, or reported
/// but not set.
pub open spec fn mask_feedback(r: usize, mask: Seq<char>, was_set: bool) -> Seq<char> {
    if was_set {
        "<inconsistency>"@ + decimal(r as nat) + " was not present in rule numbers, but \""@ + mask
            + "\" was set.<resolution>Unset \""@ + mask + "\" if the context doesn't match or add "@
            + decimal(r as nat) + " to \"__rule_numbers__\" if the rule matches.</resolution></inconsistency>"@
    } else {
        "<inconsistency>"@ + decimal(r as nat) + " was present in rule numbers, but \""@ + mask
            + "\" was not set.<resolution>Set \""@ + mask + "\" if the context matches or remove "@
            + decimal(r as nat) + " from \"__rule_numbers__\" if the rule does not match.</resolution></inconsistency>"@
    }
}

/// The feedback for each mask in `masks`.
pub open spec fn masks_feedback(r: usize, masks: Seq<Seq<char>>, was_set: bool) -> Seq<char>
    decreases masks.len(),
{
    if masks.len() == 0 {
        Seq::empty()
    } else {
        masks_feedback(r, masks.drop_last(), was_set) + mask_feedback(r, masks.last(), was_set)
    }
}

/// The feedback for rule `r`: one entry per mask of the rule, or a note
/// that no such rule was given.
pub open spec fn rule_feedback(masks_by_index: Seq<Seq<Seq<char>>>, r: usize, was_set: bool) -> Seq<char> {
    if 0 < r && r <= masks_by_index.len() {
        masks_feedback(r, masks_by_index[r - 1], was_set)
    } else {
        "<inconsistency>Rule number "@ + decimal(r as nat)
            + " present in __rule_numbers__, but it doesn't exist in the reported rules.</inconsistency>"@
    }
}

/// The feedback for each rule in `rs`.
pub open spec fn rules_feedback(masks_by_index: Seq<Seq<Seq<char>>>, rs: Seq<usize>, was_set: bool) -> Seq<char>
    decreases rs.len(),
{
    if rs.len() == 0 {
        Seq::empty()
    } else {
        rules_feedback(masks_by_index, rs.drop_last(), was_set) + rule_feedback(masks_by_index, rs.last(), was_set)
    }
}

/// What to tell the model when the rules it reports differ from the rules
/// whose fields it set, and the error to keep in case it never agrees.
pub open spec fn mismatch_feedback(
    masks_by_index: Seq<Seq<Seq<char>>>,
    empirical: Seq<usize>,
    reported: Seq<usize>,
    attempt: usize,
    max_attempts: usize,
) -> (Seq<char>, Seq<char>) {
    let set_not_reported = missing_from(empirical, reported);
    let reported_not_set = missing_from(reported, empirical);
    let head = "<instruction>The reported rule numbers do not match the fields that were output.  Re-evaluate your output to resolve the following inconsistencies.</instruction>"@;
    let first = rules_feedback(masks_by_index, set_not_reported, true);
    let second = if reported_not_set.len() == 0 {
        Seq::empty()
    } else {
        "\n\nYou reported the following rules but did not output their JSON:\n"@
            + rules_feedback(masks_by_index, reported_not_set, false)
    };
    let last_error = "Attempt "@ + decimal(attempt as nat) + "/"@ + decimal(max_attempts as nat)
        + ": Rule mismatch - empirically matched "@ + list_text(empirical) + " but reportedly matched "@
        + list_text(reported);
    (head + first + second, last_error)
}

/// The outcome of checking the reported rule numbers.
#[derive(Debug)]
pub enum RuleCheck {
    /// The rules reported are the rules whose fields were set.
    Consistent,
    /// They differ: what to tell the model, and the error to keep.
    Inconsistent { content: String, last_error: String },
}

/// Compares the rules whose fields were set with the rules the model
/// reported, each sorted without repeats; where they differ, says which
/// masks to set or unset.
pub fn check_rule_numbers(
    masks_by_index: &Vec<Vec<String>>,
    rules_matched: &Vec<usize>,
    reported: &Vec<usize>,
    attempt: usize,
    max_attempts: usize,
) -> (r: RuleCheck)
    ensures
        ({
            let e = sorted_distinct(rules_matched@);
            let p = sorted_distinct(reported@);
            if e == p {
                r is Consistent
            } else {
                let (c, l) = mismatch_feedback(masks_by_index.deep_view(), e, p, attempt, max_attempts);
                r matches RuleCheck::Inconsistent { content, last_error } && content@ == c && last_error@ == l
            }
        }),
{
    let e = sort_distinct(rules_matched);
    let p = sort_distinct(reported);
    if usize_seq_eq(&e, &p) {
        return RuleCheck::Consistent;
    }
    let ghost mbi = masks_by_index.deep_view();
    let set_not_reported = missing(&e, &p);
    let reported_not_set = missing(&p, &e);
    let mut content = string_of("<instruction>The reported rule numbers do not match the fields that were output.  Re-evaluate your output to resolve the following inconsistencies.</instruction>");
    push_rules_feedback(&mut content, masks_by_index, &set_not_reported, true);
    if reported_not_set.len() > 0 {
        push_text(&mut content, "\n\nYou reported the following rules but did not output their JSON:\n");
        push_rules_feedback(&mut content, masks_by_index, &reported_not_set, false);
    }
    let mut last_error = string_of("Attempt ");
    push_decimal(&mut last_error, attempt);
    push_text(&mut last_error, "/");
    push_decimal(&mut last_error, max_attempts);
    push_text(&mut last_error, ": Rule mismatch - empirically matched ");
    push_list(&mut last_error, &e);
    push_text(&mut last_error, " but reportedly matched ");
    push_list(&mut last_error, &p);
    proof {
        let (c, l) = mismatch_feedback(mbi, e@, p@, attempt, max_attempts);
        assert(content@ =~= c);
        assert(last_error@ =~= l);
    }
    RuleCheck::Inconsistent { content, last_error }
}

fn usize_seq_eq(a: &Vec<usize>, b: &Vec<usize>) -> (r: bool)
    ensures
        r == (a@ == b@),
{
    if a.len() != b.len() {
        return false;
    }
    let mut i: usize = 0;
    while i < a.len()
        invariant
            0 <= i <= a@.len(),
            a@.len() == b@.len(),
            forall|j: int| 0 <= j < i ==> a@[j] == b@[j],
        decreases a@.len() - i,
    {
        if a[i] != b[i] {
            return false;
        }
        i = i + 1;
    }
    assert(a@ =~= b@);
    true
}

fn insert_in_order(s: &Vec<usize>, x: usize) -> (r: Vec<usize>)
    ensures
        r@ == insert_sorted(s@, x),
{
    let mut r: Vec<usize> = Vec::new();
    let mut i: usize = 0;
    assert(s@.skip(0) =~= s@);
    assert(s@.take(0) + insert_sorted(s@, x) =~= insert_sorted(s@, x));
    while i < s.len()
        invariant
            0 <= i <= s@.len(),
            r@ == s@.take(i as int),
            insert_sorted(s@, x) == s@.take(i as int) + insert_sorted(s@.skip(i as int), x),
        decreases s@.len() - i,
    {
        let y = s[i];
        if y == x {
            proof {
                assert(insert_sorted(s@.skip(i as int), x) == s@.skip(i as int));
            }
            let mut k: usize = i;
            while k < s.len()
                invariant
                    i <= k <= s@.len(),
                    r@ == s@.take(k as int),
                decreases s@.len() - k,
            {
                r.push(s[k]);
                k = k + 1;
                assert(r@ =~= s@.take(k as int));
            }
            assert(s@.take(i as int) + s@.skip(i as int) =~= s@);
            assert(s@.take(k as int) =~= s@);
            return r;
        }
        if x < y {
            r.push(x);
            let ghost pre = r@;
            let mut k: usize = i;
            while k < s.len()
                invariant
                    i <= k <= s@.len(),
                    r@ == pre + s@.subrange(i as int, k as int),
                decreases s@.len() - k,
            {
                r.push(s[k]);
                k = k + 1;
                assert(r@ =~= pre + s@.subrange(i as int, k as int));
            }
            assert(insert_sorted(s@.skip(i as int), x) == seq![x] + s@.skip(i as int));
            assert(s@.subrange(i as int, k as int) =~= s@.skip(i as int));
            assert(r@ =~= insert_sorted(s@, x));
            return r;
        }
        r.push(y);
        proof {
            assert(insert_sorted(s@.skip(i as int), x) == seq![y] + insert_sorted(s@.skip(i as int).skip(1), x));
            assert(s@.skip(i as int).skip(1) =~= s@.skip(i + 1));
            assert(s@.take(i + 1) =~= s@.take(i as int).push(y));
            assert(s@.take(i as int) + (seq![y] + insert_sorted(s@.skip(i + 1), x)) =~= s@.take(i + 1) + insert_sorted(s@.skip(i + 1), x));
        }
        i = i + 1;
    }
    r.push(x);
    proof {
        assert(s@.skip(i as int) =~= Seq::<usize>::empty());
        assert(s@.take(i as int) =~= s@);
    }
    r
}

/// The distinct elements in increasing order.
fn sort_distinct(v: &Vec<usize>) -> (r: Vec<usize>)
    ensures
        r@ == sorted_distinct(v@),
{
    let mut r: Vec<usize> = Vec::new();
    let mut i: usize = 0;
    while i < v.len()
        invariant
            0 <= i <= v@.len(),
            r@ == sorted_distinct(v@.take(i as int)),
        decreases v@.len() - i,
    {
        assert(v@.take(i + 1).drop_last() =~= v@.take(i as int));
        r = insert_in_order(&r, v[i]);
        i = i + 1;
    }
    assert(v@.take(i as int) =~= v@);
    r
}

/// The elements of `a` that are not in `b`.
fn missing(a: &Vec<usize>, b: &Vec<usize>) -> (r: Vec<usize>)
    ensures
        r@ == missing_from(a@, b@),
{
    let mut r: Vec<usize> = Vec::new();
    let mut i: usize = 0;
    while i < a.len()
        invariant
            0 <= i <= a@.len(),
            r@ == missing_from(a@.take(i as int), b@),
        decreases a@.len() - i,
    {
        assert(a@.take(i + 1).drop_last() =~= a@.take(i as int));
        let x = a[i];
        let mut found = false;
        let mut k: usize = 0;
        while k < b.len()
            invariant
                0 <= k <= b@.len(),
                found == exists|j: int| 0 <= j < k && b@[j] == x,
            decreases b@.len() - k,
        {
            if b[k] == x {
                found = true;
            }
            k = k + 1;
        }
        if !found {
            r.push(x);
        }
        i = i + 1;
    }
    assert(a@.take(i as int) =~= a@);
    r
}

/// Appends a list as `{:?}` writes it.
fn push_list(dst: &mut String, v: &Vec<usize>)
    ensures
        final(dst)@ == old(dst)@ + list_text(v@),
{
    let ghost start = dst@;
    push_text(dst, "[");
    let mut i: usize = 0;
    while i < v.len()
        invariant
            0 <= i <= v@.len(),
            dst@ == start + "["@ + list_items(v@.take(i as int)),
        decreases v@.len() - i,
    {
        let ghost before = dst@;
        if i > 0 {
            push_text(dst, ", ");
        }
        push_decimal(dst, v[i]);
        proof {
            let t = v@.take(i + 1);
            assert(t.drop_last() =~= v@.take(i as int));
            if i == 0 {
                assert(list_items(v@.take(0)) =~= Seq::<char>::empty());
                assert(list_items(t) == decimal(t[0] as nat));
            }
            assert(dst@ =~= start + "["@ + list_items(t));
        }
        i = i + 1;
    }
    push_text(dst, "]");
    assert(v@.take(i as int) =~= v@);
    assert(dst@ =~= start + list_text(v@));
}

fn push_rules_feedback(dst: &mut String, masks_by_index: &Vec<Vec<String>>, rs: &Vec<usize>, was_set: bool)
    ensures
        final(dst)@ == old(dst)@ + rules_feedback(masks_by_index.deep_view(), rs@, was_set),
{
    let ghost start = dst@;
    let ghost mbi = masks_by_index.deep_view();
    let mut i: usize = 0;
    while i < rs.len()
        invariant
            0 <= i <= rs@.len(),
            mbi == masks_by_index.deep_view(),
            dst@ == start + rules_feedback(mbi, rs@.take(i as int), was_set),
        decreases rs@.len() - i,
    {
        let r = rs[i];
        let ghost before = dst@;
        if r > 0 && r <= masks_by_index.len() {
            let masks = &masks_by_index[r - 1];
            assert(mbi[r - 1] == masks.deep_view());
            let mut k: usize = 0;
            while k < masks.len()
                invariant
                    0 <= k <= masks@.len(),
                    dst@ == before + masks_feedback(r, masks.deep_view().take(k as int), was_set),
                decreases masks@.len() - k,
            {
                let ghost b2 = dst@;
                let m = masks[k].as_str();
                if was_set {
                    push_text(dst, "<inconsistency>");
                    push_decimal(dst, r);
                    push_text(dst, " was not present in rule numbers, but \"");
                    push_text(dst, m);
                    push_text(dst, "\" was set.<resolution>Unset \"");
                    push_text(dst, m);
                    push_text(dst, "\" if the context doesn't match or add ");
                    push_decimal(dst, r);
                    push_text(dst, " to \"__rule_numbers__\" if the rule matches.</resolution></inconsistency>");
                } else {
                    push_text(dst, "<inconsistency>");
                    push_decimal(dst, r);
                    push_text(dst, " was present in rule numbers, but \"");
                    push_text(dst, m);
                    push_text(dst, "\" was not set.<resolution>Set \"");
                    push_text(dst, m);
                    push_text(dst, "\" if the context matches or remove ");
                    push_decimal(dst, r);
                    push_text(dst, " from \"__rule_numbers__\" if the rule does not match.</resolution></inconsistency>");
                }
                proof {
                    let t = masks.deep_view().take(k + 1);
                    assert(t.drop_last() =~= masks.deep_view().take(k as int));
                    assert(t.last() == m@);
                    assert(dst@ =~= b2 + mask_feedback(r, m@, was_set));
                    assert(dst@ =~= before + masks_feedback(r, t, was_set));
                }
                k = k + 1;
            }
            assert(masks.deep_view().take(k as int) =~= masks.deep_view());
        } else {
            push_text(dst, "<inconsistency>Rule number ");
            push_decimal(dst, r);
            push_text(dst, " present in __rule_numbers__, but it doesn't exist in the reported rules.</inconsistency>");
        }
        proof {
            let t = rs@.take(i + 1);
            assert(t.drop_last() =~= rs@.take(i as int));
            assert(dst@ =~= before + rule_feedback(mbi, r, was_set));
            assert(dst@ =~= start + rules_feedback(mbi, t, was_set));
        }
        i = i + 1;
    }
    assert(rs@.take(i as int) =~= rs@);
}

// ------------------------------------------------------------------ answers

/// A block of the model's answer, as far as applying policies reads it.
pub enum ReplyBlock {
    /// A call of a tool: the call's id and its input.
    ToolUse { id: String, input: Json },
    /// Text.
    Text { text: String },
    /// Any other kind of block.
    Other,
}

/// Where feedback on an answer goes: to the tool call it answered, or as text.
#[derive(Debug)]
pub enum FeedbackTarget {
    Tool { tool_use_id: String },
    Text,
}

/// The structured output read from an answer, and where feedback on it goes.
pub struct ExtractedIr {
    pub ir: Json,
    pub feedback: FeedbackTarget,
}

/// Whether `r` is an invalid-response error with message `m` and suggestion `s`.
pub open spec fn invalid_response_with(r: Result<ExtractedIr, ApplyError>, m: Seq<char>, s: Seq<char>) -> bool {
    r matches Err(ApplyError::InvalidResponse { message, suggestion }) && message@ == m && suggestion@ == s
}

/// Reads the structured output of an answer: the input of its one tool call
/// where the configuration asks for a tool, else the JSON of its one text,
/// trimmed.  An answer of another shape, or text that is no JSON, is an
/// invalid response.
pub fn extract_ir(content: &Vec<ReplyBlock>, inference_config: InferenceConfig) -> (r: Result<ExtractedIr, ApplyError>)
    ensures
        content@.len() != 1 ==> invalid_response_with(
            r,
            "Expected exactly 1 content block, got "@ + decimal(content@.len()),
            "Check that the LLM is configured correctly for the selected inference config"@,
        ),
        content@.len() == 1 && inference_config != InferenceConfig::OutputFormatJsonSchema ==> match content@[0] {
            ReplyBlock::ToolUse { id, input } => r matches Ok(x) && x.ir@ == input@
                && (x.feedback matches FeedbackTarget::Tool { tool_use_id } && tool_use_id@ == id@),
            _ => invalid_response_with(
                r,
                "Expected ToolUse content block"@,
                "The LLM should be using the output_json tool to provide structured output"@,
            ),
        },
        content@.len() == 1 && inference_config == InferenceConfig::OutputFormatJsonSchema ==> match content@[0] {
            ReplyBlock::Text { text } => match json_text_reading(trimmed(text@)) {
                Ok(v) => r matches Ok(x) && x.ir@ == v && x.feedback is Text,
                Err(e) => invalid_response_with(
                    r,
                    "Could not parse JSON response: "@ + e,
                    "Check that the model response is valid JSON for the configured schema"@,
                ),
            },
            _ => invalid_response_with(
                r,
                "Expected Text content block"@,
                "The LLM should return JSON text when OutputFormatJsonSchema is selected"@,
            ),
        },
{
    if content.len() != 1 {
        let mut m = string_of("Expected exactly 1 content block, got ");
        push_decimal(&mut m, content.len());
        return Err(ApplyError::invalid_response(
            m,
            string_of("Check that the LLM is configured correctly for the selected inference config"),
        ));
    }
    if inference_config.uses_tools() {
        match &content[0] {
            ReplyBlock::ToolUse { id, input } => Ok(ExtractedIr {
                ir: input.copy(),
                feedback: FeedbackTarget::Tool { tool_use_id: id.clone() },
            }),
            _ => Err(ApplyError::invalid_response(
                string_of("Expected ToolUse content block"),
                string_of("The LLM should be using the output_json tool to provide structured output"),
            )),
        }
    } else {
        match &content[0] {
            ReplyBlock::Text { text } => {
                let cs = chars_of(text.as_str());
                let t = trim_chars(&cs);
                let s = string_from_chars(&t, 0, t.len());
                assert(t@.subrange(0, t@.len() as int) =~= t@);
                match parse_json_text(s.as_str()) {
                    Ok(ir) => Ok(ExtractedIr { ir, feedback: FeedbackTarget::Text }),
                    Err(e) => {
                        let mut m = string_of("Could not parse JSON response: ");
                        push_text(&mut m, e.as_str());
                        Err(ApplyError::invalid_response(
                            m,
                            string_of("Check that the model response is valid JSON for the configured schema"),
                        ))
                    },
                }
            },
            _ => Err(ApplyError::invalid_response(
                string_of("Expected Text content block"),
                string_of("The LLM should return JSON text when OutputFormatJsonSchema is selected"),
            )),
        }
    }
}

} // verus!
