//! A JSON value model for the messages the bridge inspects and synthesises.
//!
//! [`Json`] mirrors `serde_json::Value`: numbers keep the three shapes that serde
//! distinguishes (non-negative integer, negative integer, float; a float is kept as
//! its decimal text), and an object is a list of `(key, value)` fields, in which a
//! key is looked up at its first occurrence.  [`JsonV`] is the mathematical view
//! used in specifications.

use vstd::prelude::*;

verus! {

/// A JSON number.
#[derive(Debug)]
pub enum Number {
    /// A non-negative integer.
    PosInt(u64),
    /// A negative integer.
    NegInt(i64),
    /// Any other number, as its decimal text.
    Float(String),
}

/// A JSON value.
#[derive(Debug)]
pub enum Json {
    Null,
    Bool(bool),
    Num(Number),
    Str(String),
    Array(Vec<Json>),
    Object(Vec<(String, Json)>),
}

/// The view of a [`Number`].
pub enum NumV {
    PosInt(u64),
    NegInt(i64),
    Float(Seq<char>),
}

/// The view of a [`Json`] value.
pub enum JsonV {
    Null,
    Bool(bool),
    Num(NumV),
    Str(Seq<char>),
    Array(Seq<JsonV>),
    Object(Seq<(Seq<char>, JsonV)>),
}

impl Json {
    /// The mathematical value of this JSON value.
    pub open spec fn jv(self) -> JsonV
        decreases self,
    {
        match self {
            Json::Null => JsonV::Null,
            Json::Bool(b) => JsonV::Bool(b),
            Json::Num(Number::PosInt(u)) => JsonV::Num(NumV::PosInt(u)),
            Json::Num(Number::NegInt(u)) => JsonV::Num(NumV::NegInt(u)),
            Json::Num(Number::Float(s)) => JsonV::Num(NumV::Float(s@)),
            Json::Str(s) => JsonV::Str(s@),
            Json::Array(v) => JsonV::Array(
                Seq::new(
                    v@.len(),
                    |i: int|
                        if 0 <= i < v@.len() {
                            v@[i].jv()
                        } else {
                            JsonV::Null
                        },
                ),
            ),
            Json::Object(v) => JsonV::Object(
                Seq::new(
                    v@.len(),
                    |i: int|
                        if 0 <= i < v@.len() {
                            (v@[i].0@, v@[i].1.jv())
                        } else {
                            (Seq::empty(), JsonV::Null)
                        },
                ),
            ),
        }
    }
}

/// The index of the first field named `key` at or after `i`.
pub open spec fn field_index_from(f: Seq<(Seq<char>, JsonV)>, key: Seq<char>, i: int) -> Option<int>
    decreases f.len() - i,
{
    if i < 0 || i >= f.len() {
        None
    } else if f[i].0 == key {
        Some(i)
    } else {
        field_index_from(f, key, i + 1)
    }
}

/// The member `key` of an object (`Value::get`); `None` for a missing key or a
/// value that is not an object.
pub open spec fn jget(v: JsonV, key: Seq<char>) -> Option<JsonV> {
    match v {
        JsonV::Object(f) => match field_index_from(f, key, 0) {
            Some(i) => Some(f[i].1),
            None => None,
        },
        _ => None,
    }
}

/// The member `key` of an object, or `null` (`value[key]`).
pub open spec fn jindex(v: JsonV, key: Seq<char>) -> JsonV {
    match jget(v, key) {
        Some(x) => x,
        None => JsonV::Null,
    }
}

/// The string a value holds (`Value::as_str`).
pub open spec fn jstr(v: JsonV) -> Option<Seq<char>> {
    match v {
        JsonV::Str(s) => Some(s),
        _ => None,
    }
}

/// The value as an `i64`, when it is an integer in range (`Value::as_i64`).
pub open spec fn ji64(v: JsonV) -> Option<i64> {
    match v {
        JsonV::Num(NumV::PosInt(u)) => if u <= i64::MAX {
            Some(u as i64)
        } else {
            None
        },
        JsonV::Num(NumV::NegInt(i)) => Some(i),
        _ => None,
    }
}

/// The elements of an array (`Value::as_array`).
pub open spec fn jarray(v: JsonV) -> Option<Seq<JsonV>> {
    match v {
        JsonV::Array(a) => Some(a),
        _ => None,
    }
}

impl Json {
    /// The member `key` of an object (`Value::get`).
    pub fn get(&self, key: &str) -> (r: Option<&Json>)
        ensures
            match r {
                Some(x) => jget(self.jv(), key@) == Some(x.jv()) && decreases_to!(*self => *x),
                None => jget(self.jv(), key@) is None,
            },
    {
        match self {
            Json::Object(fields) => {
                let k = key.to_owned();
                let ghost f = self.jv()->Object_0;
                let mut i: usize = 0;
                while i < fields.len()
                    invariant
                        i <= fields@.len(),
                        k@ == key@,
                        *self == Json::Object(*fields),
                        f == self.jv()->Object_0,
                        f.len() == fields@.len(),
                        forall|j: int|
                            0 <= j < fields@.len() ==> #[trigger] f[j] == (
                                fields@[j].0@,
                                fields@[j].1.jv(),
                            ),
                        field_index_from(f, key@, i as int) == field_index_from(f, key@, 0),
                    decreases fields.len() - i,
                {
                    if fields[i].0 == k {
                        proof {
                            assert(decreases_to!(*self => (*self)->Object_0));
                            assert(decreases_to!(*fields => fields@));
                            assert(decreases_to!(fields@ => fields@[i as int]));
                            assert(decreases_to!(fields@[i as int] => fields@[i as int].1));
                        }
                        return Some(&fields[i].1);
                    }
                    i = i + 1;
                }
                None
            },
            _ => None,
        }
    }

    /// The string this value holds (`Value::as_str`).
    pub fn as_str(&self) -> (r: Option<&str>)
        ensures
            match r {
                Some(s) => jstr(self.jv()) == Some(s@),
                None => jstr(self.jv()) is None,
            },
    {
        match self {
            Json::Str(s) => Some(s.as_str()),
            _ => None,
        }
    }

    /// This value as an `i64`, when it is an integer in range (`Value::as_i64`).
    pub fn as_i64(&self) -> (r: Option<i64>)
        ensures
            r == ji64(self.jv()),
    {
        match self {
            Json::Num(Number::PosInt(u)) => if *u <= 0x7fff_ffff_ffff_ffffu64 {
                Some(*u as i64)
            } else {
                None
            },
            Json::Num(Number::NegInt(i)) => Some(*i),
            _ => None,
        }
    }

    /// The elements of an array (`Value::as_array`).
    pub fn as_array(&self) -> (r: Option<&Vec<Json>>)
        ensures
            match r {
                Some(a) => jarray(self.jv()) == Some(
                    Seq::new(a@.len(), |i: int| a@[i].jv()),
                ),
                None => jarray(self.jv()) is None,
            },
    {
        match self {
            Json::Array(a) => {
                assert(self.jv()->Array_0 =~= Seq::new(a@.len(), |i: int| a@[i].jv()));
                Some(a)
            },
            _ => None,
        }
    }

    /// Whether this value is `null`.
    pub fn is_null(&self) -> (r: bool)
        ensures
            r == (self.jv() is Null),
    {
        match self {
            Json::Null => true,
            _ => false,
        }
    }

    /// A copy of this value.
    pub fn deep_clone(&self) -> (r: Json)
        ensures
            r.jv() == self.jv(),
        decreases self,
    {
        match self {
            Json::Null => Json::Null,
            Json::Bool(b) => Json::Bool(*b),
            Json::Num(Number::PosInt(u)) => Json::Num(Number::PosInt(*u)),
            Json::Num(Number::NegInt(i)) => Json::Num(Number::NegInt(*i)),
            Json::Num(Number::Float(s)) => Json::Num(Number::Float(s.clone())),
            Json::Str(s) => Json::Str(s.clone()),
            Json::Array(a) => {
                let mut out: Vec<Json> = Vec::new();
                let mut i: usize = 0;
                while i < a.len()
                    invariant
                        i <= a@.len(),
                        *self == Json::Array(*a),
                        out@.len() == i,
                        forall|j: int| 0 <= j < i ==> #[trigger] out@[j].jv() == a@[j].jv(),
                    decreases a.len() - i,
                {
                    proof {
                        assert(decreases_to!(*self => (*self)->Array_0));
                        assert(decreases_to!(*a => a@));
                        assert(decreases_to!(a@ => a@[i as int]));
                        assert(decreases_to!(*self => a@[i as int]));
                    }
                    let x = a[i].deep_clone();
                    out.push(x);
                    i = i + 1;
                }
                let ghost outv = out@;
                let r = Json::Array(out);
                assert(r.jv()->Array_0 =~= Seq::new(outv.len(), |k: int| outv[k].jv()));
                assert(self.jv()->Array_0 =~= Seq::new(a@.len(), |k: int| a@[k].jv()));
                assert(r.jv()->Array_0 =~= self.jv()->Array_0);
                r
            },
            Json::Object(f) => {
                let mut out: Vec<(String, Json)> = Vec::new();
                let mut i: usize = 0;
                while i < f.len()
                    invariant
                        i <= f@.len(),
                        *self == Json::Object(*f),
                        out@.len() == i,
                        forall|j: int|
                            0 <= j < i ==> #[trigger] out@[j].0@ == f@[j].0@ && out@[j].1.jv()
                                == f@[j].1.jv(),
                    decreases f.len() - i,
                {
                    let k = f[i].0.clone();
                    proof {
                        assert(decreases_to!(*self => (*self)->Object_0));
                        assert(decreases_to!(*f => f@));
                        assert(decreases_to!(f@ => f@[i as int]));
                        assert(decreases_to!(f@[i as int] => f@[i as int].1));
                        assert(decreases_to!(*self => f@[i as int].1));
                    }
                    let x = f[i].1.deep_clone();
                    out.push((k, x));
                    i = i + 1;
                }
                let r = Json::Object(out);
                assert(r.jv()->Object_0 =~= self.jv()->Object_0);
                r
            },
        }
    }

    /// A JSON string holding `s`.
    pub fn string(s: &str) -> (r: Json)
        ensures
            r.jv() == JsonV::Str(s@),
    {
        Json::Str(s.to_owned())
    }

    /// A JSON integer.
    pub fn integer(i: i64) -> (r: Json)
        ensures
            r.jv() == int_jv(i as int),
    {
        if i >= 0 {
            Json::Num(Number::PosInt(i as u64))
        } else {
            Json::Num(Number::NegInt(i))
        }
    }
}

/// The view of the JSON integer `i` (which must fit in an `i64` or a `u64`).
pub open spec fn int_jv(i: int) -> JsonV {
    if i >= 0 {
        JsonV::Num(NumV::PosInt(i as u64))
    } else {
        JsonV::Num(NumV::NegInt(i as i64))
    }
}

/// The views of a list of JSON values.
pub open spec fn jvs(v: Seq<Json>) -> Seq<JsonV> {
    Seq::new(v.len(), |i: int| v[i].jv())
}

/// The views of a list of object fields.
pub open spec fn fields_jv(f: Seq<(String, Json)>) -> Seq<(Seq<char>, JsonV)> {
    Seq::new(f.len(), |i: int| (f[i].0@, f[i].1.jv()))
}

/// A JSON object with the given fields.
pub fn object(fields: Vec<(String, Json)>) -> (r: Json)
    ensures
        r.jv() == JsonV::Object(fields_jv(fields@)),
{
    let ghost f = fields@;
    let r = Json::Object(fields);
    assert(r.jv()->Object_0 =~= fields_jv(f));
    r
}

/// A JSON array with the given elements.
pub fn array(elems: Vec<Json>) -> (r: Json)
    ensures
        r.jv() == JsonV::Array(jvs(elems@)),
{
    let ghost e = elems@;
    let r = Json::Array(elems);
    assert(r.jv()->Array_0 =~= jvs(e));
    r
}

/// An empty JSON array.
pub fn empty_array() -> (r: Json)
    ensures
        r.jv() == JsonV::Array(Seq::empty()),
{
    let r = array(Vec::new());
    assert(jvs(Seq::<Json>::empty()) =~= Seq::<JsonV>::empty());
    r
}

/// The elements of an array value, with their views.
pub proof fn lemma_array_jv(a: &Vec<Json>)
    ensures
        Json::Array(*a).jv() == JsonV::Array(jvs(a@)),
{
    assert(Json::Array(*a).jv()->Array_0 =~= jvs(a@));
}

/// The position of a field found by [`field_index_from`] is inside the object.
pub proof fn lemma_field_index(f: Seq<(Seq<char>, JsonV)>, key: Seq<char>, i: int)
    ensures
        field_index_from(f, key, i) matches Some(j) ==> i <= j < f.len() && f[j].0 == key,
    decreases f.len() - i,
{
    if 0 <= i < f.len() && f[i].0 != key {
        lemma_field_index(f, key, i + 1);
    }
}

/// A member of an object is a part of it.
pub proof fn lemma_jget_decreases(v: JsonV, key: Seq<char>)
    ensures
        jget(v, key) matches Some(x) ==> decreases_to!(v => x),
{
    if let JsonV::Object(f) = v {
        lemma_field_index(f, key, 0);
        if let Some(j) = field_index_from(f, key, 0) {
            assert(decreases_to!(v => v->Object_0));
            assert(decreases_to!(f => f[j]));
            assert(decreases_to!(f[j] => f[j].1));
        }
    }
}

} // verus!
