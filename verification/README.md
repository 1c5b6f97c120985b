# policyai

Composable, conflict-aware policies that turn unstructured text into
structured values, with the logic verified by Verus.

A `PolicyType` declares typed fields and how each resolves conflicting
values (`default`, `agreement`, `largest`).  Policies of one type pair a
natural-language condition with an action (a JSON object).  A `Manager` turns
its policies into masked rules for a model, reads the model's answer back
through the masks into a `Report`, and checks that the rules the model says
matched are the rules whose fields it set.

## Layout

- `src/` — the verified library.
  - `text.rs`, `number.rs`, `json.rs`: characters, decimal number texts
    compared exactly, and a JSON value model.
  - `field.rs`, `on_conflict.rs`, `policy_type.rs`, `policy.rs`: the types of
    policies and their text in the policy type language.
  - `parser.rs`: the lexer and parser of that language, specified by
    `lex` and `p_policy_type`; `roundtrip.rs` proves that a displayed policy
    type parses back to itself.
  - `report.rs`, `masks.rs`, `report_builder.rs`, `manager.rs`: conflict
    resolution, reading the model's answer through masks, building requests,
    and checking reported rules; the laws of conflict resolution stand in
    `report.rs`.
  - `compiler.rs`: reading `injection {json}` declarations and checking
    actions against a policy type, and line by line with a caller's check.
  - `semantic.rs`: masking a semantic injection and reading the model's
    answer back into a policy.
  - `baseline.rs`: the unmasked request that the policies are compared
    with: one rule per policy, the text, and a schema of the fields.
  - `compare.rs`: comparing an output with the expected value, strings,
    arrays (in order, or by some reordering) and objects, numbers by a
    comparison the caller hands in; regressions and field counts.
  - `masking.rs`, `message.rs`, `errors.rs`, `usage.rs`, `data.rs`,
    `analysis.rs`, `regression.rs`: masks, messages, errors, usage,
    evaluation records, their counts, and regression records written as
    prompt examples.
- `tests/` — tests run against the compiled library.
- `app/` — requests to the model (with `claudius`), serde forms of the
  library's types, floating-point rates, and the check that an action reads
  as a caller's `Deserialize` type, handed to the library's compiler.
