//! A JSON value model.
use vstd::prelude::*;

verus! {

/// A JSON number, held as its decimal text.
#[derive(Debug, PartialEq, Eq)]
pub struct JsonNumber {
    text: String,
}

/// A JSON value.
#[derive(Debug)]
pub enum Json {
    /// `null`
    Null,
    /// `true` or `false`
    Bool(bool),
    /// A number.
    Number(JsonNumber),
    /// A string.
    String(String),
    /// An array.
    Array(Vec<Json>),
    /// An object, its members in insertion order.
    Object(Vec<(String, Json)>),
}

/// The mathematical value of a JSON value.
pub enum JsonV {
    Null,
    Bool(bool),
    Number(Seq<char>),
    String(Seq<char>),
    Array(Seq<JsonV>),
    Object(Seq<(Seq<char>, JsonV)>),
}

impl View for JsonNumber {
    type V = Seq<char>;

    closed spec fn view(&self) -> Seq<char> {
        self.text@
    }
}

impl JsonNumber {
    /// A number from the text of a number literal.
    pub fn from_literal(text: String) -> (n: JsonNumber)
        ensures
            n@ == text@,
    {
        JsonNumber { text }
    }

    /// A copy of this number.
    pub fn copy(&self) -> (r: JsonNumber)
        ensures
            r@ == self@,
    {
        JsonNumber { text: self.text.clone() }
    }

    /// The text of this number.
    pub fn as_str(&self) -> (r: &str)
        ensures
            r@ == self@,
    {
        self.text.as_str()
    }
}

impl Json {
    pub open spec fn spec_view(&self) -> JsonV
        decreases self,
    {
        match self {
            Json::Null => JsonV::Null,
            Json::Bool(b) => JsonV::Bool(*b),
            Json::Number(n) => JsonV::Number(n@),
            Json::String(s) => JsonV::String(s@),
            Json::Array(v) => JsonV::Array(
                Seq::new(v@.len(), |i: int| if 0 <= i < v@.len() { v@[i].spec_view() } else { JsonV::Null }),
            ),
            Json::Object(m) => JsonV::Object(
                Seq::new(m@.len(), |i: int| if 0 <= i < m@.len() { (m@[i].0@, m@[i].1.spec_view()) } else { (Seq::empty(), JsonV::Null) }),
            ),
        }
    }
}

impl View for Json {
    type V = JsonV;

    open spec fn view(&self) -> JsonV {
        self.spec_view()
    }
}

/// The view of the members of an object.
pub open spec fn obj_view(m: Seq<(String, Json)>) -> Seq<(Seq<char>, JsonV)> {
    Seq::new(m.len(), |i: int| (m[i].0@, m[i].1@))
}

/// The index of the first member named `k`, or -1.
pub open spec fn key_index<V>(m: Seq<(Seq<char>, V)>, k: Seq<char>) -> int
    decreases m.len(),
{
    if m.len() == 0 {
        -1
    } else {
        let r = key_index(m.drop_last(), k);
        if r >= 0 {
            r
        } else if m.last().0 == k {
            m.len() - 1
        } else {
            -1
        }
    }
}

/// The value of member `k` of an object, if it has one.
pub open spec fn obj_get(m: Seq<(Seq<char>, JsonV)>, k: Seq<char>) -> Option<JsonV> {
    let i = key_index(m, k);
    if i >= 0 {
        Some(m[i].1)
    } else {
        None
    }
}

/// `v[k]` for a JSON value: a member of an object, nothing for any other value.
pub open spec fn json_get(v: JsonV, k: Seq<char>) -> Option<JsonV> {
    match v {
        JsonV::Object(m) => obj_get(m, k),
        _ => None,
    }
}

/// The object with member `k` set to `v`: in place where it exists, else appended.
pub open spec fn obj_set(m: Seq<(Seq<char>, JsonV)>, k: Seq<char>, v: JsonV) -> Seq<(Seq<char>, JsonV)> {
    let i = key_index(m, k);
    if i >= 0 {
        m.update(i, (k, v))
    } else {
        m.push((k, v))
    }
}

/// The first member named `k` is the first whose name is `k`.
pub proof fn lemma_key_index<V>(m: Seq<(Seq<char>, V)>, k: Seq<char>)
    ensures
        -1 <= key_index(m, k) < m.len(),
        key_index(m, k) >= 0 ==> m[key_index(m, k)].0 == k,
        key_index(m, k) >= 0 ==> forall|j: int| 0 <= j < key_index(m, k) ==> (#[trigger] m[j]).0 != k,
        key_index(m, k) < 0 ==> forall|j: int| 0 <= j < m.len() ==> (#[trigger] m[j]).0 != k,
    decreases m.len(),
{
    if m.len() > 0 {
        lemma_key_index(m.drop_last(), k);
        let r = key_index(m.drop_last(), k);
        assert forall|j: int| 0 <= j < m.len() - 1 implies (#[trigger] m[j]) == m.drop_last()[j] by {}
    }
}

impl Json {
    /// An empty object.
    pub fn object() -> (r: Json)
        ensures
            r@ == JsonV::Object(Seq::empty()),
    {
        let r = Json::Object(Vec::new());
        proof {
            if let JsonV::Object(a) = r@ {
                assert(a =~= Seq::empty());
            }
        }
        r
    }

    /// A deep copy.
    pub fn copy(&self) -> (r: Json)
        ensures
            r@ == self@,
        decreases self,
    {
        match self {
            Json::Null => Json::Null,
            Json::Bool(b) => Json::Bool(*b),
            Json::Number(n) => Json::Number(n.copy()),
            Json::String(s) => Json::String(s.clone()),
            Json::Array(v) => {
                let mut out: Vec<Json> = Vec::new();
                let mut i: usize = 0;
                proof {
                    assert forall|j: int| 0 <= j < v@.len() implies decreases_to!(*self => #[trigger] v@[j]) by {
                        assert(decreases_to!(self => v));
                        assert(decreases_to!(v => v@));
                        assert(decreases_to!(v@ => v@[j]));
                    }
                }
                while i < v.len()
                    invariant
                        forall|j: int| 0 <= j < v@.len() ==> decreases_to!(*self => #[trigger] v@[j]),
                        0 <= i <= v@.len(),
                        out@.len() == i,
                        forall|j: int| 0 <= j < i ==> (#[trigger] out@[j])@ == v@[j]@,
                    decreases v@.len() - i,
                {
                    let c = v[i].copy();
                    out.push(c);
                    i = i + 1;
                }
                let r = Json::Array(out);
                assert(r@ =~= self@) by {
                    if let JsonV::Array(a) = r@ {
                        if let JsonV::Array(b) = self@ {
                            assert(a =~= b);
                        }
                    }
                }
                r
            },
            Json::Object(m) => {
                let mut out: Vec<(String, Json)> = Vec::new();
                let mut i: usize = 0;
                proof {
                    assert forall|j: int| 0 <= j < m@.len() implies decreases_to!(*self => #[trigger] m@[j].1) by {
                        assert(decreases_to!(self => m));
                        assert(decreases_to!(m => m@));
                        assert(decreases_to!(m@ => m@[j]));
                        assert(decreases_to!(m@[j] => m@[j].1));
                    }
                }
                while i < m.len()
                    invariant
                        forall|j: int| 0 <= j < m@.len() ==> decreases_to!(*self => #[trigger] m@[j].1),
                        0 <= i <= m@.len(),
                        out@.len() == i,
                        forall|j: int| 0 <= j < i ==> (#[trigger] out@[j]).0@ == m@[j].0@ && out@[j].1@ == m@[j].1@,
                    decreases m@.len() - i,
                {
                    let c = m[i].1.copy();
                    out.push((m[i].0.clone(), c));
                    i = i + 1;
                }
                let r = Json::Object(out);
                assert(r@ =~= self@) by {
                    if let JsonV::Object(a) = r@ {
                        if let JsonV::Object(b) = self@ {
                            assert(a =~= b);
                        }
                    }
                }
                r
            },
        }
    }

    /// The member `key` of an object; nothing for any other value.
    pub fn get(&self, key: &str) -> (r: Option<&Json>)
        ensures
            match json_get(self@, key@) {
                Some(v) => r matches Some(x) && x@ == v,
                None => r is None,
            },
    {
        match self {
            Json::Object(m) => {
                let ghost mv = obj_view(m@);
                proof {
                    assert(self@ == JsonV::Object(mv)) by {
                        if let JsonV::Object(a) = self@ {
                            assert(a =~= mv);
                        }
                    }
                }
                proof {
                    lemma_key_index(mv, key@);
                }
                match find_member(m, key) {
                    Some(i) => {
                        assert(mv[i as int].1 == m@[i as int].1@);
                        Some(&m[i].1)
                    },
                    None => None,
                }
            },
            _ => None,
        }
    }
}

/// The index of the first member named `key`.
pub fn find_member(m: &Vec<(String, Json)>, key: &str) -> (r: Option<usize>)
    ensures
        match r {
            Some(i) => key_index(obj_view(m@), key@) == i as int,
            None => key_index(obj_view(m@), key@) < 0,
        },
{
    let ghost mv = obj_view(m@);
    proof {
        lemma_key_index(mv, key@);
    }
    let mut i: usize = 0;
    while i < m.len()
        invariant
            0 <= i <= m@.len(),
            mv == obj_view(m@),
            -1 <= key_index(mv, key@) < mv.len(),
            key_index(mv, key@) >= 0 ==> mv[key_index(mv, key@)].0 == key@,
            key_index(mv, key@) >= 0 ==> forall|j: int| 0 <= j < key_index(mv, key@) ==> (#[trigger] mv[j]).0 != key@,
            key_index(mv, key@) < 0 ==> forall|j: int| 0 <= j < mv.len() ==> (#[trigger] mv[j]).0 != key@,
            forall|j: int| 0 <= j < i ==> (#[trigger] mv[j]).0 != key@,
        decreases m@.len() - i,
    {
        if crate::text::text_eq(m[i].0.as_str(), key) {
            assert(mv[i as int].0 == key@);
            return Some(i);
        }
        i = i + 1;
    }
    None
}

/// Sets member `key` of an object: in place where it exists, else appended.
pub fn object_set(m: &mut Vec<(String, Json)>, key: &str, v: Json)
    ensures
        obj_view(final(m)@) == obj_set(obj_view(old(m)@), key@, v@),
{
    let ghost mv = obj_view(m@);
    let ghost vv = v@;
    proof {
        lemma_key_index(mv, key@);
    }
    match find_member(m, key) {
        Some(i) => {
            m.set(i, (crate::text::string_of(key), v));
            assert(obj_view(m@) =~= mv.update(i as int, (key@, vv)));
        },
        None => {
            m.push((crate::text::string_of(key), v));
            assert(obj_view(m@) =~= mv.push((key@, vv)));
        },
    }
}


/// Whether two JSON values are the same value: equal scalars, arrays of equal
/// elements, objects with equal members in the same order.
pub fn json_eq(a: &Json, b: &Json) -> (r: bool)
    ensures
        r == (a@ == b@),
    decreases a,
{
    match a {
        Json::Null => match b {
            Json::Null => true,
            _ => false,
        },
        Json::Bool(x) => match b {
            Json::Bool(y) => *x == *y,
            _ => false,
        },
        Json::Number(x) => match b {
            Json::Number(y) => crate::text::text_eq(x.as_str(), y.as_str()),
            _ => false,
        },
        Json::String(x) => match b {
            Json::String(y) => crate::text::text_eq(x.as_str(), y.as_str()),
            _ => false,
        },
        Json::Array(x) => match b { Json::Array(y) => {
            let ghost xv = a@;
            let ghost yv = b@;
            if x.len() != y.len() {
                proof {
                    if let (JsonV::Array(p), JsonV::Array(q)) = (xv, yv) {
                        assert(p.len() != q.len());
                    }
                }
                return false;
            }
            proof {
                assert forall|j: int| 0 <= j < x@.len() implies decreases_to!(*a => #[trigger] x@[j]) by {
                    assert(decreases_to!(a => x));
                    assert(decreases_to!(x => x@));
                    assert(decreases_to!(x@ => x@[j]));
                }
            }
            let mut i: usize = 0;
            while i < x.len()
                invariant
                    forall|j: int| 0 <= j < x@.len() ==> decreases_to!(*a => #[trigger] x@[j]),
                    x@.len() == y@.len(),
                    0 <= i <= x@.len(),
                    a@ is Array,
                    b@ is Array,
                    a@->Array_0.len() == x@.len(),
                    b@->Array_0.len() == y@.len(),
                    forall|j: int| 0 <= j < x@.len() ==> a@->Array_0[j] == (#[trigger] x@[j])@,
                    forall|j: int| 0 <= j < y@.len() ==> b@->Array_0[j] == (#[trigger] y@[j])@,
                    forall|j: int| 0 <= j < i ==> (#[trigger] x@[j])@ == y@[j]@,
                decreases x@.len() - i,
            {
                if !json_eq(&x[i], &y[i]) {
                    assert(a@->Array_0[i as int] != b@->Array_0[i as int]);
                    return false;
                }
                i = i + 1;
            }
            assert(a@->Array_0 =~= b@->Array_0);
            true
        }, _ => false },
        Json::Object(x) => match b { Json::Object(y) => {
            if x.len() != y.len() {
                proof {
                    if let (JsonV::Object(p), JsonV::Object(q)) = (a@, b@) {
                        assert(p.len() != q.len());
                    }
                }
                return false;
            }
            proof {
                assert forall|j: int| 0 <= j < x@.len() implies decreases_to!(*a => #[trigger] x@[j].1) by {
                    assert(decreases_to!(a => x));
                    assert(decreases_to!(x => x@));
                    assert(decreases_to!(x@ => x@[j]));
                    assert(decreases_to!(x@[j] => x@[j].1));
                }
            }
            let mut i: usize = 0;
            while i < x.len()
                invariant
                    forall|j: int| 0 <= j < x@.len() ==> decreases_to!(*a => #[trigger] x@[j].1),
                    x@.len() == y@.len(),
                    0 <= i <= x@.len(),
                    a@ is Object,
                    b@ is Object,
                    a@->Object_0.len() == x@.len(),
                    b@->Object_0.len() == y@.len(),
                    forall|j: int| 0 <= j < x@.len() ==> a@->Object_0[j] == ((#[trigger] x@[j]).0@, x@[j].1@),
                    forall|j: int| 0 <= j < y@.len() ==> b@->Object_0[j] == ((#[trigger] y@[j]).0@, y@[j].1@),
                    forall|j: int| 0 <= j < i ==> (#[trigger] x@[j]).0@ == y@[j].0@ && x@[j].1@ == y@[j].1@,
                decreases x@.len() - i,
            {
                if !crate::text::text_eq(x[i].0.as_str(), y[i].0.as_str()) || !json_eq(&x[i].1, &y[i].1) {
                    assert(a@->Object_0[i as int] != b@->Object_0[i as int]);
                    return false;
                }
                i = i + 1;
            }
            assert(a@->Object_0 =~= b@->Object_0);
            true
        }, _ => false },
    }
}


/// Setting member `k` makes `k` read back the value set and leaves every
/// other member as it was.
pub proof fn lemma_obj_set_get(m: Seq<(Seq<char>, JsonV)>, k: Seq<char>, v: JsonV, k2: Seq<char>)
    ensures
        obj_get(obj_set(m, k, v), k) == Some(v),
        k2 != k ==> obj_get(obj_set(m, k, v), k2) == obj_get(m, k2),
{
    let m2 = obj_set(m, k, v);
    lemma_key_index(m, k);
    lemma_key_index(m2, k);
    lemma_key_index(m, k2);
    lemma_key_index(m2, k2);
    let i = key_index(m, k);
    let i2 = key_index(m2, k);
    if i >= 0 {
        assert(m2[i].0 == k);
        if i2 >= 0 && i2 < i {
            assert(m[i2].0 == k);
        }
        if i2 < 0 {
            assert(m2[i].0 == k);
        }
    } else {
        assert(m2[m.len() as int].0 == k);
        if i2 >= 0 && i2 < m.len() {
            assert(m[i2].0 == m2[i2].0);
        }
    }
    if k2 != k {
        let j = key_index(m, k2);
        let j2 = key_index(m2, k2);
        if j >= 0 {
            assert(m2[j].0 == k2);
            if j2 >= 0 && j2 < j {
                assert(m[j2].0 == m2[j2].0);
            }
        }
        if j2 >= 0 {
            if j2 < m.len() {
                assert(m[j2].0 == m2[j2].0);
            }
        }
    }
}

/// A copy of the members of an object.
pub fn copy_members(m: &Vec<(String, Json)>) -> (r: Vec<(String, Json)>)
    ensures
        obj_view(r@) == obj_view(m@),
{
    let mut r: Vec<(String, Json)> = Vec::new();
    let mut i: usize = 0;
    while i < m.len()
        invariant
            0 <= i <= m@.len(),
            r@.len() == i,
            forall|j: int| 0 <= j < i ==> (#[trigger] r@[j]).0@ == m@[j].0@ && r@[j].1@ == m@[j].1@,
        decreases m@.len() - i,
    {
        r.push((m[i].0.clone(), m[i].1.copy()));
        i = i + 1;
    }
    assert(obj_view(r@) =~= obj_view(m@));
    r
}


/// `serde_json::Value`, carried from the parser to the conversion below.
#[verifier::external_type_specification]
#[verifier::external_body]
pub struct ExSerdeValue(serde_json::Value);

/// `serde_json`'s reading of the text `t`: the JSON value it holds, each
/// number kept as the text `serde_json` writes for it, or the message of
/// `serde_json`'s error where the text is not one JSON value.
pub uninterp spec fn json_text_reading(t: Seq<char>) -> Result<JsonV, Seq<char>>;

/// The JSON value that the text `t` holds; nothing where the text is not one
/// JSON value.
pub open spec fn json_text_value(t: Seq<char>) -> Option<JsonV> {
    match json_text_reading(t) {
        Ok(v) => Some(v),
        Err(_) => None,
    }
}

/// Converts a `serde_json::Value` into a `Json`, variant for variant: each
/// number becomes the text `serde_json` writes for it, and object members
/// keep their order.
#[verifier::external_body]
fn json_from_serde(v: serde_json::Value) -> Json {
    match v {
        serde_json::Value::Null => Json::Null,
        serde_json::Value::Bool(b) => Json::Bool(b),
        serde_json::Value::Number(n) => Json::Number(JsonNumber { text: n.to_string() }),
        serde_json::Value::String(s) => Json::String(s),
        serde_json::Value::Array(a) => Json::Array(a.into_iter().map(json_from_serde).collect()),
        serde_json::Value::Object(o) => Json::Object(o.into_iter().map(|(k, v)| (k, json_from_serde(v))).collect()),
    }
}

/// Calls `serde_json::from_str::<serde_json::Value>` on `text`: the value
/// the text holds, or the message of the error where it does not hold
/// exactly one JSON value.  The result depends on the text alone and is only
/// named.
#[verifier::external_body]
pub(crate) fn parse_json_text(text: &str) -> (r: Result<Json, String>)
    ensures
        match r {
            Ok(j) => json_text_reading(text@) == Ok::<JsonV, Seq<char>>(j@),
            Err(m) => json_text_reading(text@) == Err::<JsonV, Seq<char>>(m@),
        },
{
    match serde_json::from_str::<serde_json::Value>(text) {
        Ok(v) => Ok(json_from_serde(v)),
        Err(e) => Err(e.to_string()),
    }
}

/// The compact text `serde_json` writes for a JSON value.
pub uninterp spec fn json_display(v: JsonV) -> Seq<char>;

/// The `serde_json::Value` of a value, variant for variant; a number whose
/// text `serde_json` cannot read becomes `null`.
#[verifier::external_body]
fn json_to_serde(v: &Json) -> serde_json::Value {
    match v {
        Json::Null => serde_json::Value::Null,
        Json::Bool(b) => serde_json::Value::Bool(*b),
        Json::Number(n) => n.text.parse::<serde_json::Number>().map(serde_json::Value::Number).unwrap_or(serde_json::Value::Null),
        Json::String(s) => serde_json::Value::String(s.clone()),
        Json::Array(a) => serde_json::Value::Array(a.iter().map(json_to_serde).collect()),
        Json::Object(m) => serde_json::Value::Object(m.iter().map(|(k, v)| (k.clone(), json_to_serde(v))).collect()),
    }
}

/// Calls `to_string` (`Display`) on the `serde_json::Value` of `v`: its
/// compact JSON text.  The text depends on the value alone and is only named.
#[verifier::external_body]
pub(crate) fn json_display_text(v: &Json) -> (r: String)
    ensures
        r@ == json_display(v@),
{
    json_to_serde(v).to_string()
}

/// What `Debug` for `serde_json::Value` writes for a JSON value.
pub uninterp spec fn json_debug(v: JsonV) -> Seq<char>;

/// Calls `format!("{:?}", ..)` on the `serde_json::Value` of `v`: the
/// value's `Debug` text, such as `Number(1)` or `String("a")`.  The text
/// depends on the value alone and is only named.
#[verifier::external_body]
pub(crate) fn json_debug_text(v: &Json) -> (r: String)
    ensures
        r@ == json_debug(v@),
{
    format!("{:?}", json_to_serde(v))
}

/// The indented text `serde_json` writes for a JSON value.
pub uninterp spec fn json_pretty(v: JsonV) -> Seq<char>;

/// Calls `serde_json::to_string_pretty` on the `serde_json::Value` of `v`:
/// its JSON text, indented by two spaces, one member or element to a line.
/// Writing a `serde_json::Value` does not fail, its keys being strings; the
/// text depends on the value alone and is only named.
#[verifier::external_body]
pub(crate) fn json_pretty_text(v: &Json) -> (r: String)
    ensures
        r@ == json_pretty(v@),
{
    serde_json::to_string_pretty(&json_to_serde(v)).unwrap_or_default()
}

} // verus!
