//! The baseline request: every policy's rule and the text, with a schema
//! that names the fields themselves, without masks, to compare with.
use vstd::prelude::*;

use crate::field::{field_name, Field, FieldV};
use crate::json::{obj_set, obj_view, Json, JsonV};
use crate::message::{Message, MessageRole, MessageV};
use crate::policy::{Policy, PolicyV};
use crate::semantic::field_schema;
use crate::text::{push_text, string_of};

verus! {

/// The schema of a field's own value; an enum's values are listed as they are.
pub open spec fn plain_field_schema(f: FieldV) -> JsonV {
    match f {
        FieldV::StringEnum { values, .. } => field_schema(f, values),
        _ => field_schema(f, Seq::empty()),
    }
}

/// The properties `props` with each field of `fs` set, in order, to its schema.
pub open spec fn fields_properties(props: Seq<(Seq<char>, JsonV)>, fs: Seq<FieldV>) -> Seq<(Seq<char>, JsonV)>
    decreases fs.len(),
{
    if fs.len() == 0 {
        props
    } else {
        obj_set(fields_properties(props, fs.drop_last()), field_name(fs.last()), plain_field_schema(fs.last()))
    }
}

/// The properties of the baseline schema: every field of every policy, in
/// order, a later field of the same name taking the place of an earlier one.
pub open spec fn baseline_properties(ps: Seq<PolicyV>) -> Seq<(Seq<char>, JsonV)>
    decreases ps.len(),
{
    if ps.len() == 0 {
        Seq::empty()
    } else {
        fields_properties(baseline_properties(ps.drop_last()), ps.last().policy_type.fields)
    }
}

/// The baseline schema: an object that requires nothing and whose
/// properties are the fields with their schemas.
pub open spec fn baseline_schema(ps: Seq<PolicyV>) -> JsonV {
    JsonV::Object(
        seq![
            ("type"@, JsonV::String("object"@)),
            ("required"@, JsonV::Array(Seq::empty())),
            ("properties"@, JsonV::Object(baseline_properties(ps))),
        ],
    )
}

/// The baseline messages: one user message `<rule>prompt</rule>` for each
/// policy, in order, then the user message `<text>text</text>`.
pub open spec fn baseline_messages(ps: Seq<PolicyV>, text: Seq<char>) -> Seq<MessageV> {
    Seq::new(
        ps.len(),
        |i: int| MessageV { role: MessageRole::User, content: "<rule>"@ + ps[i].prompt + "</rule>"@ },
    ).push(MessageV { role: MessageRole::User, content: "<text>"@ + text + "</text>"@ })
}

fn plain_schema_of(f: &Field) -> (r: Json)
    ensures
        r@ == plain_field_schema(f@),
{
    match f {
        Field::StringEnum { values, .. } => crate::semantic::schema_of_field(f, &crate::field::copy_strings(values)),
        _ => {
            let none: Vec<String> = Vec::new();
            assert(none.deep_view() =~= Seq::<Seq<char>>::empty());
            crate::semantic::schema_of_field(f, &none)
        },
    }
}

fn tagged(open: &str, body: &str, close: &str) -> (r: Message)
    ensures
        r@ == (MessageV { role: MessageRole::User, content: open@ + body@ + close@ }),
{
    let mut content = string_of(open);
    push_text(&mut content, body);
    push_text(&mut content, close);
    Message::user(content)
}

/// The baseline request for `text` under `policies`: the messages to send,
/// one `<rule>` per policy and then the `<text>`, and the schema of the
/// answer, whose properties are the fields under their own names.
pub fn baseline_request(policies: &Vec<Policy>, text: &str) -> (r: (Vec<Message>, Json))
    ensures
        crate::message::messages_view(r.0@) == baseline_messages(policies@.map_values(|p: Policy| p@), text@),
        r.1@ == baseline_schema(policies@.map_values(|p: Policy| p@)),
{
    let ghost ps = policies@.map_values(|p: Policy| p@);
    let mut messages: Vec<Message> = Vec::new();
    let mut props: Vec<(String, Json)> = Vec::new();
    let mut i: usize = 0;
    while i < policies.len()
        invariant
            0 <= i <= policies@.len(),
            ps == policies@.map_values(|p: Policy| p@),
            messages@.len() == i,
            forall|k: int| 0 <= k < i ==> (#[trigger] messages@[k])@ == baseline_messages(ps, text@)[k],
            obj_view(props@) == baseline_properties(ps.take(i as int)),
        decreases policies@.len() - i,
    {
        let policy = &policies[i];
        let fields = &policy.policy_type.fields;
        let ghost fs = ps[i as int].policy_type.fields;
        let ghost before = obj_view(props@);
        let mut j: usize = 0;
        while j < fields.len()
            invariant
                0 <= j <= fields@.len(),
                fs == fields@.map_values(|f: Field| f@),
                obj_view(props@) == fields_properties(before, fs.take(j as int)),
            decreases fields@.len() - j,
        {
            let schema = plain_schema_of(&fields[j]);
            crate::json::object_set(&mut props, fields[j].name(), schema);
            proof {
                assert(fs.take(j + 1).drop_last() =~= fs.take(j as int));
            }
            j = j + 1;
        }
        proof {
            assert(fs.take(fields@.len() as int) =~= fs);
            assert(ps.take(i + 1).drop_last() =~= ps.take(i as int));
        }
        messages.push(tagged("<rule>", policy.prompt.as_str(), "</rule>"));
        i = i + 1;
    }
    messages.push(tagged("<text>", text, "</text>"));
    assert(ps.take(policies@.len() as int) =~= ps);
    assert(crate::message::messages_view(messages@) =~= baseline_messages(ps, text@));
    let mut m: Vec<(String, Json)> = Vec::new();
    let t = Json::String(string_of("object"));
    assert(t@ == JsonV::String("object"@));
    m.push((string_of("type"), t));
    let req = Json::Array(Vec::new());
    assert(req@->Array_0 =~= Seq::<JsonV>::empty());
    m.push((string_of("required"), req));
    let p = Json::Object(props);
    assert(p@->Object_0 =~= baseline_properties(ps));
    m.push((string_of("properties"), p));
    let schema = Json::Object(m);
    assert(schema@->Object_0[0] == (m@[0].0@, m@[0].1@));
    assert(schema@->Object_0[1] == (m@[1].0@, m@[1].1@));
    assert(schema@->Object_0[2] == (m@[2].0@, m@[2].1@));
    assert(schema@->Object_0 =~= baseline_schema(ps)->Object_0);
    (messages, schema)
}

} // verus!
