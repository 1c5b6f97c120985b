//! Policy types: a name and typed fields.
use vstd::prelude::*;

use crate::field::{field_text, Field, FieldV};
use crate::parser::{parse_chars, parse_spec, skip_ws, ParseError, ParseErrorV};
use crate::text::{char_is_whitespace, chars_of, is_white_space, push_text};

verus! {

/// Represents a policy type definition with a name and a set of typed fields.
#[derive(Debug)]
pub struct PolicyType {
    /// The name of this policy type (e.g., "policyai::EmailPolicy")
    pub name: String,
    /// The fields that make up this policy type
    pub fields: Vec<Field>,
}

/// The mathematical value of a policy type.
pub struct PolicyTypeV {
    pub name: Seq<char>,
    pub fields: Seq<FieldV>,
}

impl View for PolicyType {
    type V = PolicyTypeV;

    open spec fn view(&self) -> PolicyTypeV {
        PolicyTypeV { name: self.name@, fields: self.fields@.map_values(|f: Field| f@) }
    }
}

/// The lines `    field,` of a policy type's display.
pub open spec fn fields_text(fs: Seq<FieldV>) -> Seq<char>
    decreases fs.len(),
{
    if fs.len() == 0 {
        Seq::empty()
    } else {
        fields_text(fs.drop_last()) + "    "@ + field_text(fs.last()) + ",\n"@
    }
}

/// The text of a policy type in the policy type language.
pub open spec fn policy_type_text(pt: PolicyTypeV) -> Seq<char> {
    "type "@ + pt.name + " {\n"@ + fields_text(pt.fields) + "}"@
}

/// The index just past the last character of `s[..j]` that is not white space.
pub open spec fn trim_end(s: Seq<char>, j: int) -> int
    decreases j,
{
    if 0 < j <= s.len() && is_white_space(s[j - 1]) {
        trim_end(s, j - 1)
    } else {
        j
    }
}

/// `s` without leading and trailing white space.
pub open spec fn trimmed(s: Seq<char>) -> Seq<char> {
    let a = skip_ws(s, 0);
    if a >= s.len() {
        Seq::empty()
    } else {
        s.subrange(a, trim_end(s, s.len() as int))
    }
}

proof fn lemma_trim_end(s: Seq<char>, j: int, a: int)
    requires
        0 <= a < j <= s.len(),
        !is_white_space(s[a]),
    ensures
        a < trim_end(s, j) <= j,
    decreases j,
{
    if 0 < j <= s.len() && is_white_space(s[j - 1]) {
        lemma_trim_end(s, j - 1, a);
    }
}

proof fn lemma_skip_ws_range(s: Seq<char>, i: int)
    requires
        0 <= i <= s.len(),
    ensures
        i <= skip_ws(s, i) <= s.len(),
        skip_ws(s, i) < s.len() ==> !is_white_space(s[skip_ws(s, i)]),
    decreases s.len() - i,
{
    if i < s.len() && is_white_space(s[i]) {
        lemma_skip_ws_range(s, i + 1);
    }
}

/// The characters of `cs` without leading and trailing white space.
pub fn trim_chars(cs: &Vec<char>) -> (r: Vec<char>)
    ensures
        r@ == trimmed(cs@),
        r@.len() <= cs@.len(),
{
        let ghost s = cs@;
        let mut a: usize = 0;
        loop
            invariant
                0 <= a <= cs@.len(),
                s == cs@,
                skip_ws(s, a as int) == skip_ws(s, 0),
            ensures
                0 <= a <= cs@.len(),
                a as int == skip_ws(s, 0),
            decreases cs@.len() - a,
        {
            if a >= cs.len() || !char_is_whitespace(cs[a]) {
                break ;
            }
            a = a + 1;
        }
        proof {
            lemma_skip_ws_range(s, a as int);
        }
        let mut trimmed_chars: Vec<char> = Vec::new();
        if a < cs.len() {
            let mut b: usize = cs.len();
            loop
                invariant
                    0 <= b <= cs@.len(),
                    s == cs@,
                    a < cs@.len(),
                    skip_ws(s, 0) == a,
                    trim_end(s, b as int) == trim_end(s, s.len() as int),
                ensures
                    0 <= b <= cs@.len(),
                    b as int == trim_end(s, s.len() as int),
                decreases b,
            {
                if b == 0 || !char_is_whitespace(cs[b - 1]) {
                    break ;
                }
                b = b - 1;
            }
            proof {
                lemma_trim_end(s, s.len() as int, a as int);
            }
            let mut i: usize = a;
            while i < b
                invariant
                    a <= i <= b <= cs@.len(),
                    s == cs@,
                    trimmed_chars@ == s.subrange(a as int, i as int),
                decreases b - i,
            {
                trimmed_chars.push(cs[i]);
                i = i + 1;
                assert(trimmed_chars@ =~= s.subrange(a as int, i as int));
            }
        }
        assert(trimmed_chars@ =~= trimmed(s));
        trimmed_chars
}

/// `s[..j]` without trailing white space.
pub fn trim_end_chars(cs: &Vec<char>, j: usize) -> (r: Vec<char>)
    requires
        j <= cs@.len(),
    ensures
        r@ == cs@.take(trim_end(cs@, j as int)),
{
    let ghost s = cs@;
    let mut b: usize = j;
    loop
        invariant
            0 <= b <= j <= cs@.len(),
            s == cs@,
            trim_end(s, b as int) == trim_end(s, j as int),
        ensures
            0 <= b <= j,
            b as int == trim_end(s, j as int),
        decreases b,
    {
        if b == 0 || !char_is_whitespace(cs[b - 1]) {
            break ;
        }
        b = b - 1;
    }
    let mut r: Vec<char> = Vec::new();
    let mut i: usize = 0;
    while i < b
        invariant
            0 <= i <= b <= cs@.len(),
            s == cs@,
            r@ == s.take(i as int),
        decreases b - i,
    {
        r.push(cs[i]);
        i = i + 1;
        assert(r@ =~= s.take(i as int));
    }
    r
}

impl PolicyType {
    /// Parse a PolicyType from its textual representation, after trimming
    /// white space from both ends.
    pub fn parse(input: &str) -> (r: Result<PolicyType, ParseError>)
        requires
            input@.len() < usize::MAX,
        ensures
            match parse_spec(trimmed(input@)) {
                Ok(pt) => r matches Ok(x) && x@ == pt,
                Err(e) => r matches Err(x) && x@ == e,
            },
    {
        let cs = chars_of(input);
        let trimmed_chars = trim_chars(&cs);
        parse_chars(trimmed_chars)
    }

    /// The text of this policy type in the policy type language, as it is displayed.
    pub fn to_text(&self) -> (r: String)
        ensures
            r@ == policy_type_text(self@),
    {
        let mut r = String::new();
        push_text(&mut r, "type ");
        push_text(&mut r, self.name.as_str());
        push_text(&mut r, " {\n");
        let ghost pre = r@;
        let ghost fs = self@.fields;
        let mut i: usize = 0;
        while i < self.fields.len()
            invariant
                0 <= i <= self.fields@.len(),
                fs == self@.fields,
                r@ == pre + fields_text(fs.take(i as int)),
            decreases self.fields@.len() - i,
        {
            push_text(&mut r, "    ");
            let f = self.fields[i].to_text();
            push_text(&mut r, f.as_str());
            push_text(&mut r, ",\n");
            proof {
                let t = fs.take(i + 1);
                assert(t.drop_last() =~= fs.take(i as int));
                assert(t.last() == fs[i as int]);
                assert(r@ =~= pre + fields_text(t));
            }
            i = i + 1;
        }
        assert(fs.take(self.fields@.len() as int) =~= fs);
        push_text(&mut r, "}");
        assert(r@ =~= policy_type_text(self@));
        r
    }
}


impl PolicyType {
    /// A copy of this policy type.
    pub fn copy(&self) -> (r: PolicyType)
        ensures
            r@ == self@,
    {
        let mut fields: Vec<Field> = Vec::new();
        let mut i: usize = 0;
        while i < self.fields.len()
            invariant
                0 <= i <= self.fields@.len(),
                fields@.len() == i,
                forall|j: int| 0 <= j < i ==> (#[trigger] fields@[j])@ == self.fields@[j]@,
            decreases self.fields@.len() - i,
        {
            fields.push(self.fields[i].copy());
            i = i + 1;
        }
        let r = PolicyType { name: self.name.clone(), fields };
        assert(r@.fields =~= self@.fields);
        r
    }

    /// Whether two policy types are the same: same name, same fields in order.
    pub fn same(&self, other: &PolicyType) -> (r: bool)
        ensures
            r == (self@ == other@),
    {
        if !crate::text::text_eq(self.name.as_str(), other.name.as_str()) || self.fields.len() != other.fields.len() {
            proof {
                if self.fields@.len() != other.fields@.len() {
                    assert(self@.fields.len() != other@.fields.len());
                }
            }
            return false;
        }
        let mut i: usize = 0;
        while i < self.fields.len()
            invariant
                0 <= i <= self.fields@.len(),
                self.fields@.len() == other.fields@.len(),
                forall|j: int| 0 <= j < i ==> self@.fields[j] == other@.fields[j],
            decreases self.fields@.len() - i,
        {
            if !self.fields[i].same(&other.fields[i]) {
                assert(self@.fields[i as int] != other@.fields[i as int]);
                return false;
            }
            i = i + 1;
        }
        assert(self@.fields =~= other@.fields);
        true
    }
}

} // verus!
