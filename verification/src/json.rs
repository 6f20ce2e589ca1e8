//! JSON values as plain data.
//!
//! The wire protocol carries JSON objects. This module gives the crate its
//! own JSON value type, so that the codec and the dispatch logic can be
//! reasoned about: `JsonValue` is the executable form, and `Json` is its
//! mathematical model. Numbers are kept as their decimal rendering, since
//! the core never computes with them, only routes them.
//!
//! Parsing text into a `JsonValue` and rendering a `JsonValue` back to text
//! are done by serde_json behind the trusted items at the end of the module.

use vstd::prelude::*;

verus! {

broadcast use vstd::std_specs::vec::group_vec_axioms;

/// The mathematical model of a JSON value.
#[verifier::ext_equal]
pub enum Json {
    Null,
    Bool(bool),
    /// The decimal rendering of the number.
    Num(Seq<char>),
    Str(Seq<char>),
    Arr(Seq<Json>),
    Obj(Seq<(Seq<char>, Json)>),
}

/// A JSON value, as the codec and the emission primitives carry it.
#[derive(Debug, PartialEq, Eq)]
pub enum JsonValue {
    Null,
    Bool(bool),
    /// The decimal rendering of the number.
    Num(String),
    Str(String),
    Arr(Vec<JsonValue>),
    Obj(Vec<(String, JsonValue)>),
}

impl JsonValue {
    /// The mathematical value this JSON value stands for.
    ///
    /// The range guards on the element closures keep the recursion
    /// well-founded: out of range there is nothing to recurse into.
    pub open spec fn model(&self) -> Json
        decreases self,
    {
        match self {
            JsonValue::Null => Json::Null,
            JsonValue::Bool(b) => Json::Bool(*b),
            JsonValue::Num(n) => Json::Num(n@),
            JsonValue::Str(s) => Json::Str(s@),
            JsonValue::Arr(v) => Json::Arr(
                Seq::new(
                    v@.len(),
                    |i: int| if 0 <= i < v@.len() { v[i].model() } else { Json::Null },
                ),
            ),
            JsonValue::Obj(v) => Json::Obj(
                Seq::new(
                    v@.len(),
                    |i: int|
                        if 0 <= i < v@.len() {
                            (v[i].0@, v[i].1.model())
                        } else {
                            (Seq::empty(), Json::Null)
                        },
                ),
            ),
        }
    }
}

impl View for JsonValue {
    type V = Json;

    open spec fn view(&self) -> Json {
        self.model()
    }
}

/// The first value bound to `key` in an object's field list, if any.
pub open spec fn lookup(fields: Seq<(Seq<char>, Json)>, key: Seq<char>) -> Option<Json>
    decreases fields.len(),
{
    if fields.len() == 0 {
        None
    } else if fields[0].0 == key {
        Some(fields[0].1)
    } else {
        lookup(fields.drop_first(), key)
    }
}

/// The value of field `key`, for objects that have it.
pub open spec fn get_field(j: Json, key: Seq<char>) -> Option<Json> {
    match j {
        Json::Obj(fields) => lookup(fields, key),
        _ => None,
    }
}

/// The value of field `key`, with absent fields (and non-objects) read as
/// `null`, the way serde_json's index operator reads them.
pub open spec fn index_field(j: Json, key: Seq<char>) -> Json {
    match get_field(j, key) {
        Some(v) => v,
        None => Json::Null,
    }
}

impl JsonValue {
    /// Looks up `key` in an object, returning the first binding.
    #[verifier::loop_isolation(false)]
    pub fn get<'a>(&'a self, key: &str) -> (r: Option<&'a JsonValue>)
        ensures
            match r {
                Some(v) => get_field(self@, key@) == Some(v@),
                None => get_field(self@, key@) is None,
            },
    {
        match self {
            JsonValue::Obj(fields) => {
                let ghost m = self@->Obj_0;
                let n = fields.len();
                proof {
                    assert(self@ is Obj);
                    assert(m.len() == n as int);
                    assert(forall|k: int|
                        0 <= k < m.len() ==> m[k] == (fields@[k].0@, fields@[k].1@));
                    assert(m.skip(0) =~= m);
                }
                let mut i: usize = 0;
                while i < n
                    invariant
                        i <= n,
                        lookup(m, key@) == lookup(m.skip(i as int), key@),
                    decreases n - i,
                {
                    proof {
                        assert(m.skip(i as int).drop_first() =~= m.skip(i + 1));
                    }
                    if str_eq(fields[i].0.as_str(), key) {
                        return Some(&fields[i].1);
                    }
                    i = i + 1;
                }
                proof {
                    assert(m.skip(n as int) =~= Seq::<(Seq<char>, Json)>::empty());
                }
                None
            },
            _ => None,
        }
    }

    /// A deep copy; the fan-out paths hand an own copy of the payload to
    /// each target.
    #[verifier::loop_isolation(false)]
    pub fn duplicate(&self) -> (r: JsonValue)
        ensures
            r@ == self@,
        decreases self,
    {
        match self {
            JsonValue::Null => JsonValue::Null,
            JsonValue::Bool(b) => JsonValue::Bool(*b),
            JsonValue::Num(n) => JsonValue::Num(n.clone()),
            JsonValue::Str(s) => JsonValue::Str(s.clone()),
            JsonValue::Arr(v) => {
                let n = v.len();
                let mut out: Vec<JsonValue> = Vec::new();
                let mut i: usize = 0;
                while i < n
                    invariant
                        n == v@.len(),
                        i <= n,
                        out@.len() == i as int,
                        forall|k: int| 0 <= k < i ==> out@[k]@ == v@[k]@,
                    decreases n - i,
                {
                    let e = v[i].duplicate();
                    out.push(e);
                    i = i + 1;
                }
                let r = JsonValue::Arr(out);
                proof {
                    assert(self@ is Arr);
                    assert(r@ is Arr);
                    assert(r@->Arr_0 =~= self@->Arr_0);
                    assert(r@ =~= self@);
                }
                r
            },
            JsonValue::Obj(v) => {
                let n = v.len();
                let mut out: Vec<(String, JsonValue)> = Vec::new();
                let mut i: usize = 0;
                while i < n
                    invariant
                        n == v@.len(),
                        i <= n,
                        out@.len() == i as int,
                        forall|k: int|
                            0 <= k < i ==> out@[k].0@ == v@[k].0@ && out@[k].1@ == v@[k].1@,
                    decreases n - i,
                {
                    let key = v[i].0.clone();
                    let val = v[i].1.duplicate();
                    out.push((key, val));
                    i = i + 1;
                }
                let r = JsonValue::Obj(out);
                proof {
                    assert(self@ is Obj);
                    assert(r@ is Obj);
                    assert(r@->Obj_0 =~= self@->Obj_0);
                    assert(r@ =~= self@);
                }
                r
            },
        }
    }

    /// Renders this value as JSON text.
    pub fn render(&self) -> (r: String)
        ensures
            r@ == rendered(self@),
    {
        render_json(self)
    }

    /// Parses JSON text; `None` when the text is not JSON.
    pub fn parse(text: &str) -> (r: Option<JsonValue>)
        ensures
            match r {
                Some(v) => parsed(text@) == Some(v@),
                None => parsed(text@) is None,
            },
    {
        parse_json(text)
    }
}

/// What serde_json parses the given text into, as a model value: `None`
/// exactly when the text is rejected. The result depends on the text alone.
pub uninterp spec fn parsed(text: Seq<char>) -> Option<Json>;

/// The text serde_json renders the given value as. The result depends on
/// the value alone.
pub uninterp spec fn rendered(j: Json) -> Seq<char>;

/// Relies on `str`'s `PartialEq`: two string slices are equal exactly when
/// their character sequences are equal.
#[verifier::external_body]
pub(crate) fn str_eq(a: &str, b: &str) -> (r: bool)
    ensures
        r == (a@ == b@),
{
    a == b
}

#[verifier::external_type_specification]
#[verifier::external_body]
pub struct ExValue(serde_json::Value);

/// Relies on `serde_json::from_str`: it accepts exactly the JSON texts, and
/// what it parses a text into depends on the text alone. The parsed value is
/// carried over variant by variant; object fields keep the order of
/// serde_json's map, and numbers keep their decimal rendering.
#[verifier::external_body]
fn parse_json(text: &str) -> (r: Option<JsonValue>)
    ensures
        match r {
            Some(v) => parsed(text@) == Some(v@),
            None => parsed(text@) is None,
        },
{
    match serde_json::from_str::<serde_json::Value>(text) {
        Ok(v) => Some(value_to_json(&v)),
        Err(_) => None,
    }
}

/// Carries a serde_json value over into the crate's own form, variant by
/// variant; numbers become their decimal rendering.
#[verifier::external_body]
fn value_to_json(v: &serde_json::Value) -> JsonValue {
    match v {
        serde_json::Value::Null => JsonValue::Null,
        serde_json::Value::Bool(b) => JsonValue::Bool(*b),
        serde_json::Value::Number(n) => JsonValue::Num(n.to_string()),
        serde_json::Value::String(s) => JsonValue::Str(s.clone()),
        serde_json::Value::Array(items) => JsonValue::Arr(
            items.iter().map(value_to_json).collect(),
        ),
        serde_json::Value::Object(fields) => JsonValue::Obj(
            fields.iter().map(|(k, e)| (k.clone(), value_to_json(e))).collect(),
        ),
    }
}

/// Carries one of the crate's values over into serde_json's form, variant by
/// variant. A `Num` whose text serde_json does not read back as a number
/// becomes `null`.
#[verifier::external_body]
fn json_to_value(j: &JsonValue) -> serde_json::Value {
    match j {
        JsonValue::Null => serde_json::Value::Null,
        JsonValue::Bool(b) => serde_json::Value::Bool(*b),
        JsonValue::Num(n) => match serde_json::from_str::<serde_json::Number>(n) {
            Ok(num) => serde_json::Value::Number(num),
            Err(_) => serde_json::Value::Null,
        },
        JsonValue::Str(s) => serde_json::Value::String(s.clone()),
        JsonValue::Arr(items) => serde_json::Value::Array(
            items.iter().map(json_to_value).collect(),
        ),
        JsonValue::Obj(fields) => serde_json::Value::Object(
            fields.iter().map(|(k, e)| (k.clone(), json_to_value(e))).collect(),
        ),
    }
}

/// Relies on `serde_json::to_string`: what it renders a value as depends on
/// the value alone, and rendering a JSON value cannot fail.
#[verifier::external_body]
fn render_json(j: &JsonValue) -> (r: String)
    ensures
        r@ == rendered(j@),
{
    match serde_json::to_string(&json_to_value(j)) {
        Ok(s) => s,
        Err(_) => String::new(),
    }
}

} // verus!
