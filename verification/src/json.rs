//! JSON values as the library holds them, and their mathematical model.

use vstd::prelude::*;

verus! {

/// A JSON number, split the way `serde_json` splits it: a non-negative
/// integer, a negative integer, or a finite floating-point number.
///
/// A floating-point number is held as its shortest decimal rendering
/// (what `f64`'s `Display` prints), so that the library never touches a
/// float itself.
#[derive(Debug)]
pub enum JsonNumber {
    PosInt(u64),
    NegInt(i64),
    Float(String),
}

/// A JSON value. Object members are kept as a list of `(key, value)` pairs
/// in the order in which they were read.
#[derive(Debug)]
pub enum JsonValue {
    Null,
    Bool(bool),
    Number(JsonNumber),
    String(String),
    Array(Vec<JsonValue>),
    Object(Vec<(String, JsonValue)>),
}

/// The model of a [`JsonNumber`].
pub enum JsonNum {
    PosInt(u64),
    NegInt(i64),
    Float(Seq<char>),
}

/// The model of a [`JsonValue`]: strings become character sequences,
/// arrays and objects become sequences.
pub enum Json {
    Null,
    Bool(bool),
    Number(JsonNum),
    Str(Seq<char>),
    Array(Seq<Json>),
    Object(Seq<(Seq<char>, Json)>),
}

impl View for JsonNumber {
    type V = JsonNum;

    open spec fn view(&self) -> JsonNum {
        match self {
            JsonNumber::PosInt(n) => JsonNum::PosInt(*n),
            JsonNumber::NegInt(n) => JsonNum::NegInt(*n),
            JsonNumber::Float(s) => JsonNum::Float(s@),
        }
    }
}

/// The model of a value.
pub open spec fn json_model(v: JsonValue) -> Json
    decreases v,
{
    match v {
        JsonValue::Null => Json::Null,
        JsonValue::Bool(b) => Json::Bool(b),
        JsonValue::Number(n) => Json::Number(n@),
        JsonValue::String(s) => Json::Str(s@),
        JsonValue::Array(items) => Json::Array(json_models(items@)),
        JsonValue::Object(members) => Json::Object(member_models(members@)),
    }
}

/// The models of a sequence of values, element by element.
pub open spec fn json_models(s: Seq<JsonValue>) -> Seq<Json>
    decreases s,
{
    if s.len() == 0 {
        Seq::empty()
    } else {
        json_models(s.subrange(0, s.len() - 1)).push(json_model(s[s.len() - 1]))
    }
}

/// The models of a sequence of object members, member by member.
pub open spec fn member_models(s: Seq<(String, JsonValue)>) -> Seq<(Seq<char>, Json)>
    decreases s,
{
    if s.len() == 0 {
        Seq::empty()
    } else {
        member_models(s.subrange(0, s.len() - 1)).push(
            (s[s.len() - 1].0@, json_model(s[s.len() - 1].1)),
        )
    }
}

impl View for JsonValue {
    type V = Json;

    open spec fn view(&self) -> Json {
        json_model(*self)
    }
}

/// `json_models` keeps the length and maps each element to its model.
pub proof fn lemma_json_models(s: Seq<JsonValue>)
    ensures
        json_models(s).len() == s.len(),
        forall|i: int| 0 <= i < s.len() ==> #[trigger] json_models(s)[i] == json_model(s[i]),
    decreases s.len(),
{
    if s.len() > 0 {
        lemma_json_models(s.subrange(0, s.len() - 1));
    }
}

/// `member_models` keeps the length and maps each member to its model.
pub proof fn lemma_member_models(s: Seq<(String, JsonValue)>)
    ensures
        member_models(s).len() == s.len(),
        forall|i: int|
            0 <= i < s.len() ==> #[trigger] member_models(s)[i] == (s[i].0@, json_model(s[i].1)),
    decreases s.len(),
{
    if s.len() > 0 {
        lemma_member_models(s.subrange(0, s.len() - 1));
    }
}

impl JsonValue {
    /// A copy of the value, with the same model.
    pub fn duplicate(&self) -> (r: JsonValue)
        ensures
            r@ == self@,
        decreases self,
    {
        match self {
            JsonValue::Null => JsonValue::Null,
            JsonValue::Bool(b) => JsonValue::Bool(*b),
            JsonValue::Number(n) => JsonValue::Number(
                match n {
                    JsonNumber::PosInt(k) => JsonNumber::PosInt(*k),
                    JsonNumber::NegInt(k) => JsonNumber::NegInt(*k),
                    JsonNumber::Float(s) => JsonNumber::Float(s.clone()),
                },
            ),
            JsonValue::String(s) => JsonValue::String(s.clone()),
            JsonValue::Array(items) => {
                let mut out: Vec<JsonValue> = Vec::new();
                let mut k: usize = 0;
                while k < items.len()
                    invariant
                        *self == JsonValue::Array(*items),
                        k <= items.len(),
                        out@.len() == k,
                        forall|j: int| 0 <= j < k ==> #[trigger] json_model(out@[j]) == json_model(items@[j]),
                    decreases items.len() - k,
                {
                    assert(decreases_to!(*self => (*self)->Array_0));
                    assert(decreases_to!(self => items@[k as int]));
                    let c = items[k].duplicate();
                    out.push(c);
                    k = k + 1;
                }
                proof {
                    lemma_json_models(out@);
                    lemma_json_models(items@);
                    assert(json_models(out@) =~= json_models(items@));
                }
                JsonValue::Array(out)
            },
            JsonValue::Object(members) => {
                let mut out: Vec<(String, JsonValue)> = Vec::new();
                let mut k: usize = 0;
                while k < members.len()
                    invariant
                        *self == JsonValue::Object(*members),
                        k <= members.len(),
                        out@.len() == k,
                        forall|j: int|
                            0 <= j < k ==> #[trigger] out@[j].0@ == members@[j].0@ && json_model(
                                out@[j].1,
                            ) == json_model(members@[j].1),
                    decreases members.len() - k,
                {
                    assert(decreases_to!(*self => (*self)->Object_0));
                    assert(decreases_to!(self => members@[k as int].1));
                    let v = members[k].1.duplicate();
                    out.push((members[k].0.clone(), v));
                    k = k + 1;
                }
                proof {
                    lemma_member_models(out@);
                    lemma_member_models(members@);
                    assert(member_models(out@) =~= member_models(members@));
                }
                JsonValue::Object(out)
            },
        }
    }
}

impl JsonNumber {
    /// Whether the two numbers are the same.
    pub fn equals(&self, other: &JsonNumber) -> (r: bool)
        ensures
            r == (self@ == other@),
    {
        match (self, other) {
            (JsonNumber::PosInt(a), JsonNumber::PosInt(b)) => *a == *b,
            (JsonNumber::NegInt(a), JsonNumber::NegInt(b)) => *a == *b,
            (JsonNumber::Float(a), JsonNumber::Float(b)) => *a == *b,
            _ => false,
        }
    }
}

impl JsonValue {
    /// Whether the two values are the same.
    pub fn equals(&self, other: &JsonValue) -> (r: bool)
        ensures
            r == (self@ == other@),
        decreases self,
    {
        match (self, other) {
            (JsonValue::Null, JsonValue::Null) => true,
            (JsonValue::Bool(a), JsonValue::Bool(b)) => *a == *b,
            (JsonValue::Number(a), JsonValue::Number(b)) => a.equals(b),
            (JsonValue::String(a), JsonValue::String(b)) => *a == *b,
            (JsonValue::Array(a), JsonValue::Array(b)) => {
                proof {
                    lemma_json_models(a@);
                    lemma_json_models(b@);
                }
                if a.len() != b.len() {
                    return false;
                }
                let mut k: usize = 0;
                while k < a.len()
                    invariant
                        *self == JsonValue::Array(*a),
                        *other == JsonValue::Array(*b),
                        a@.len() == b@.len(),
                        k <= a@.len(),
                        forall|j: int| 0 <= j < k ==> json_model(#[trigger] a@[j]) == json_model(b@[j]),
                    decreases a.len() - k,
                {
                    assert(decreases_to!(*self => (*self)->Array_0));
                    if !a[k].equals(&b[k]) {
                        proof {
                            lemma_json_models(a@);
                            lemma_json_models(b@);
                        }
                        assert(json_models(a@)[k as int] != json_models(b@)[k as int]);
                        return false;
                    }
                    k = k + 1;
                }
                assert(json_models(a@) =~= json_models(b@));
                true
            },
            (JsonValue::Object(a), JsonValue::Object(b)) => {
                proof {
                    lemma_member_models(a@);
                    lemma_member_models(b@);
                }
                if a.len() != b.len() {
                    return false;
                }
                let mut k: usize = 0;
                while k < a.len()
                    invariant
                        *self == JsonValue::Object(*a),
                        *other == JsonValue::Object(*b),
                        a@.len() == b@.len(),
                        k <= a@.len(),
                        forall|j: int|
                            #![trigger a@[j]]
                            0 <= j < k ==> a@[j].0@ == b@[j].0@ && json_model(a@[j].1) == json_model(
                                b@[j].1,
                            ),
                    decreases a.len() - k,
                {
                    assert(decreases_to!(*self => (*self)->Object_0));
                    assert(decreases_to!(self => a@[k as int].1));
                    let same_key = a[k].0 == b[k].0;
                    if !same_key || !a[k].1.equals(&b[k].1) {
                        proof {
                            lemma_member_models(a@);
                            lemma_member_models(b@);
                        }
                        assert(member_models(a@)[k as int] != member_models(b@)[k as int]);
                        return false;
                    }
                    assert(a@[k as int].0@ == b@[k as int].0@);
                    assert(json_model(a@[k as int].1) == json_model(b@[k as int].1));
                    k = k + 1;
                }
                assert(member_models(a@) =~= member_models(b@));
                true
            },
            _ => false,
        }
    }
}

} // verus!
