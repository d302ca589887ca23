//! JSON values: what language servers send and what the daemon answers with.

use crate::text::{str_eq, views};
use vstd::prelude::*;

verus! {

/// A JSON value.
///
/// A number that is no integer of 64 bits is kept as its text. The order of an object's entries
/// has no meaning, and no key stands in it twice.
#[derive(Debug, PartialEq)]
pub enum JsonValue {
    Null,
    Bool(bool),
    UInt(u64),
    NegInt(i64),
    Float(String),
    String(String),
    Array(Vec<JsonValue>),
    Object(Vec<(String, JsonValue)>),
}

/// The mathematical value of a [`JsonValue`].
#[verifier::ext_equal]
pub enum Json {
    Null,
    Bool(bool),
    Int(int),
    Float(Seq<char>),
    Str(Seq<char>),
    Arr(Seq<Json>),
    Obj(Seq<(Seq<char>, Json)>),
}

/// Position of the first entry for `key`, or the number of entries where there is none.
pub open spec fn key_index(entries: Seq<(Seq<char>, Json)>, key: Seq<char>) -> int
    decreases entries.len(),
{
    if entries.len() == 0 {
        0
    } else if entries[0].0 == key {
        0
    } else {
        1 + key_index(entries.drop_first(), key)
    }
}

impl Json {
    /// The entry of an object for `key`.
    pub open spec fn get(self, key: Seq<char>) -> Option<Json> {
        match self {
            Json::Obj(entries) => {
                let i = key_index(entries, key);
                if 0 <= i < entries.len() {
                    Some(entries[i].1)
                } else {
                    None
                }
            },
            _ => None,
        }
    }

    /// The entry reached by `a` and then `b`.
    pub open spec fn get2(self, a: Seq<char>, b: Seq<char>) -> Option<Json> {
        match self.get(a) {
            Some(x) => x.get(b),
            None => None,
        }
    }

    /// The entry reached by `a`, `b` and then `c`.
    pub open spec fn get3(self, a: Seq<char>, b: Seq<char>, c: Seq<char>) -> Option<Json> {
        match self.get2(a, b) {
            Some(x) => x.get(c),
            None => None,
        }
    }

    /// The number, where it is an integer from 0 to the greatest `u64`.
    pub open spec fn as_u64(self) -> Option<u64> {
        match self {
            Json::Int(n) => if 0 <= n <= u64::MAX {
                Some(n as u64)
            } else {
                None
            },
            _ => None,
        }
    }

    /// The number, where it is an integer that an `i64` holds.
    pub open spec fn as_i64(self) -> Option<i64> {
        match self {
            Json::Int(n) => if i64::MIN <= n <= i64::MAX {
                Some(n as i64)
            } else {
                None
            },
            _ => None,
        }
    }

    pub open spec fn as_str(self) -> Option<Seq<char>> {
        match self {
            Json::Str(s) => Some(s),
            _ => None,
        }
    }

    pub open spec fn as_bool(self) -> Option<bool> {
        match self {
            Json::Bool(b) => Some(b),
            _ => None,
        }
    }

    pub open spec fn as_array(self) -> Option<Seq<Json>> {
        match self {
            Json::Arr(a) => Some(a),
            _ => None,
        }
    }

    pub open spec fn as_object(self) -> Option<Seq<(Seq<char>, Json)>> {
        match self {
            Json::Obj(o) => Some(o),
            _ => None,
        }
    }

    /// The items of the array under `key`.
    pub open spec fn get_array(self, key: Seq<char>) -> Option<Seq<Json>> {
        match self.get(key) {
            Some(v) => v.as_array(),
            None => None,
        }
    }

    /// The string under `key`, or `default` where there is none.
    pub open spec fn str_or(self, key: Seq<char>, default: Seq<char>) -> Seq<char> {
        match self.get(key) {
            Some(Json::Str(s)) => s,
            _ => default,
        }
    }

    /// The number under `key`, or `default` where there is none.
    pub open spec fn u64_or(self, key: Seq<char>, default: u64) -> u64 {
        match self.get(key) {
            Some(v) => match v.as_u64() {
                Some(n) => n,
                None => default,
            },
            None => default,
        }
    }

    /// Whether `true` stands under `key`.
    pub open spec fn is_true(self, key: Seq<char>) -> bool {
        self.get(key) == Some(Json::Bool(true))
    }
}

/// An entry of an object.
pub fn field(key: &str, value: JsonValue) -> (r: (String, JsonValue))
    ensures
        r.0@ == key@,
        r.1@ == value@,
{
    (key.to_string(), value)
}

/// The mathematical values of a list of values.
pub open spec fn jsons(v: Seq<JsonValue>) -> Seq<Json> {
    Seq::new(v.len(), |i: int| v[i]@)
}

/// The mathematical values of the entries of an object.
pub open spec fn entries_view(v: Seq<(String, JsonValue)>) -> Seq<(Seq<char>, Json)> {
    Seq::new(v.len(), |i: int| (v[i].0@, v[i].1@))
}

impl View for JsonValue {
    type V = Json;

    open spec fn view(&self) -> Json {
        self.json()
    }
}

impl JsonValue {
    /// The mathematical value.
    pub open spec fn json(self) -> Json
        decreases self,
    {
        match self {
            JsonValue::Null => Json::Null,
            JsonValue::Bool(b) => Json::Bool(b),
            JsonValue::UInt(n) => Json::Int(n as int),
            JsonValue::NegInt(n) => Json::Int(n as int),
            JsonValue::Float(s) => Json::Float(s@),
            JsonValue::String(s) => Json::Str(s@),
            JsonValue::Array(v) => Json::Arr(
                Seq::new(
                    v@.len(),
                    |i: int|
                        if 0 <= i < v@.len() {
                            v@[i].json()
                        } else {
                            Json::Null
                        },
                ),
            ),
            JsonValue::Object(v) => Json::Obj(
                Seq::new(
                    v@.len(),
                    |i: int|
                        if 0 <= i < v@.len() {
                            (v@[i].0@, v@[i].1.json())
                        } else {
                            (Seq::empty(), Json::Null)
                        },
                ),
            ),
        }
    }

    /// An array's value is the list of its items' values.
    pub proof fn array_view(v: Vec<JsonValue>)
        ensures
            JsonValue::Array(v)@ == Json::Arr(jsons(v@)),
    {
        assert(JsonValue::Array(v)@->Arr_0 =~= jsons(v@));
    }

    /// An object's value is the list of its entries' keys and values.
    pub proof fn object_view(v: Vec<(String, JsonValue)>)
        ensures
            JsonValue::Object(v)@ == Json::Obj(entries_view(v@)),
    {
        assert(JsonValue::Object(v)@->Obj_0 =~= entries_view(v@));
    }

    /// An object with the given entries.
    pub fn object(fields: Vec<(String, JsonValue)>) -> (r: JsonValue)
        ensures
            r@ == Json::Obj(entries_view(fields@)),
    {
        proof {
            JsonValue::object_view(fields);
        }
        JsonValue::Object(fields)
    }

    /// An array with the given items.
    pub fn array(items: Vec<JsonValue>) -> (r: JsonValue)
        ensures
            r@ == Json::Arr(jsons(items@)),
    {
        proof {
            JsonValue::array_view(items);
        }
        JsonValue::Array(items)
    }

    /// A string value.
    pub fn str(s: &str) -> (r: JsonValue)
        ensures
            r@ == Json::Str(s@),
    {
        JsonValue::String(s.to_string())
    }

    /// A number that counts or places something.
    pub fn number(n: usize) -> (r: JsonValue)
        ensures
            r@ == Json::Int(n as int),
    {
        JsonValue::UInt(n as u64)
    }

    /// An array of strings.
    pub fn strings(v: &Vec<String>) -> (r: JsonValue)
        ensures
            r@ == Json::Arr(Seq::new(v@.len(), |i: int| Json::Str(views(v@)[i]))),
    {
        let mut out: Vec<JsonValue> = Vec::new();
        let mut i: usize = 0;
        while i < v.len()
            invariant
                0 <= i <= v@.len(),
                out@.len() == i,
                forall|k: int| 0 <= k < i ==> (#[trigger] out@[k])@ == Json::Str(v@[k]@),
            decreases v@.len() - i,
        {
            out.push(JsonValue::String(v[i].clone()));
            i = i + 1;
        }
        proof {
            JsonValue::array_view(out);
            assert(jsons(out@) =~= Seq::new(v@.len(), |i: int| Json::Str(views(v@)[i])));
        }
        JsonValue::Array(out)
    }

    /// A copy of the value.
    pub fn copy(&self) -> (r: JsonValue)
        ensures
            r@ == self@,
        decreases self,
    {
        match self {
            JsonValue::Null => JsonValue::Null,
            JsonValue::Bool(b) => JsonValue::Bool(*b),
            JsonValue::UInt(n) => JsonValue::UInt(*n),
            JsonValue::NegInt(n) => JsonValue::NegInt(*n),
            JsonValue::Float(s) => JsonValue::Float(s.clone()),
            JsonValue::String(s) => JsonValue::String(s.clone()),
            JsonValue::Array(v) => {
                let mut out: Vec<JsonValue> = Vec::new();
                let mut i: usize = 0;
                while i < v.len()
                    invariant
                        0 <= i <= v@.len(),
                        *self == JsonValue::Array(*v),
                        out@.len() == i,
                        forall|k: int| 0 <= k < i ==> (#[trigger] out@[k])@ == v@[k]@,
                    decreases v@.len() - i,
                {
                    assert(decreases_to!(*self => self->Array_0));
                    assert(decreases_to!(v => v@[i as int]));
                    out.push(v[i].copy());
                    i = i + 1;
                }
                proof {
                    JsonValue::array_view(*v);
                    JsonValue::array_view(out);
                    assert(jsons(out@) =~= jsons(v@));
                }
                JsonValue::Array(out)
            },
            JsonValue::Object(v) => {
                let mut out: Vec<(String, JsonValue)> = Vec::new();
                let mut i: usize = 0;
                while i < v.len()
                    invariant
                        0 <= i <= v@.len(),
                        *self == JsonValue::Object(*v),
                        out@.len() == i,
                        forall|k: int|
                            0 <= k < i ==> (#[trigger] out@[k]).0@ == v@[k].0@ && out@[k].1@ == v@[k].1@,
                    decreases v@.len() - i,
                {
                    let entry = &v[i];
                    assert(decreases_to!(*self => self->Object_0));
                    assert(decreases_to!(v => v@[i as int]));
                    assert(decreases_to!(v@[i as int] => v@[i as int].1));
                    let value = entry.1.copy();
                    out.push((entry.0.clone(), value));
                    i = i + 1;
                }
                proof {
                    JsonValue::object_view(*v);
                    JsonValue::object_view(out);
                    assert(entries_view(out@) =~= entries_view(v@));
                }
                JsonValue::Object(out)
            },
        }
    }

    /// The entry of an object for `key`.
    pub fn get(&self, key: &str) -> (r: Option<&JsonValue>)
        ensures
            match r {
                Some(v) => self@.get(key@) == Some(v@),
                None => self@.get(key@) is None,
            },
    {
        match self {
            JsonValue::Object(entries) => {
                proof {
                    JsonValue::object_view(*entries);
                }
                let ghost all = entries_view(entries@);
                let mut i: usize = 0;
                assert(all.skip(0) =~= all);
                while i < entries.len()
                    invariant
                        0 <= i <= entries@.len(),
                        all == entries_view(entries@),
                        self@ == Json::Obj(all),
                        key_index(all, key@) == i + key_index(all.skip(i as int), key@),
                    decreases entries@.len() - i,
                {
                    if str_eq(entries[i].0.as_str(), key) {
                        assert(all.skip(i as int)[0].0 == key@);
                        return Some(&entries[i].1);
                    }
                    assert(all.skip(i as int).drop_first() =~= all.skip(i + 1));
                    i = i + 1;
                }
                None
            },
            _ => None,
        }
    }

    /// The entry reached by `a` and then `b`.
    pub fn get2(&self, a: &str, b: &str) -> (r: Option<&JsonValue>)
        ensures
            match r {
                Some(v) => self@.get2(a@, b@) == Some(v@),
                None => self@.get2(a@, b@) is None,
            },
    {
        match self.get(a) {
            Some(v) => v.get(b),
            None => None,
        }
    }

    /// The entry reached by `a`, `b` and then `c`.
    pub fn get3(&self, a: &str, b: &str, c: &str) -> (r: Option<&JsonValue>)
        ensures
            match r {
                Some(v) => self@.get3(a@, b@, c@) == Some(v@),
                None => self@.get3(a@, b@, c@) is None,
            },
    {
        match self.get2(a, b) {
            Some(v) => v.get(c),
            None => None,
        }
    }

    /// The string, where this is one.
    pub fn as_str(&self) -> (r: Option<&str>)
        ensures
            match r {
                Some(s) => self@ == Json::Str(s@),
                None => self@.as_str() is None,
            },
    {
        match self {
            JsonValue::String(s) => Some(s.as_str()),
            _ => None,
        }
    }

    /// The number, where this is an integer that is not negative.
    pub fn as_u64(&self) -> (r: Option<u64>)
        ensures
            r == self@.as_u64(),
    {
        match self {
            JsonValue::UInt(n) => Some(*n),
            JsonValue::NegInt(n) => if *n >= 0 {
                Some(*n as u64)
            } else {
                None
            },
            _ => None,
        }
    }

    /// The number, where this is an integer that an `i64` holds.
    pub fn as_i64(&self) -> (r: Option<i64>)
        ensures
            r == self@.as_i64(),
    {
        match self {
            JsonValue::UInt(n) => if *n <= 0x7fff_ffff_ffff_ffff {
                Some(*n as i64)
            } else {
                None
            },
            JsonValue::NegInt(n) => Some(*n),
            _ => None,
        }
    }

    /// The truth value, where this is one.
    pub fn as_bool(&self) -> (r: Option<bool>)
        ensures
            r == self@.as_bool(),
    {
        match self {
            JsonValue::Bool(b) => Some(*b),
            _ => None,
        }
    }

    /// The items, where this is an array.
    pub fn as_array(&self) -> (r: Option<&Vec<JsonValue>>)
        ensures
            match r {
                Some(v) => *self == JsonValue::Array(*v) && self@ == Json::Arr(jsons(v@)),
                None => self@.as_array() is None,
            },
    {
        match self {
            JsonValue::Array(v) => {
                proof {
                    JsonValue::array_view(*v);
                }
                Some(v)
            },
            _ => None,
        }
    }

    /// The entries, where this is an object.
    pub fn as_object(&self) -> (r: Option<&Vec<(String, JsonValue)>>)
        ensures
            match r {
                Some(v) => *self == JsonValue::Object(*v) && self@ == Json::Obj(entries_view(v@)),
                None => self@.as_object() is None,
            },
    {
        match self {
            JsonValue::Object(v) => {
                proof {
                    JsonValue::object_view(*v);
                }
                Some(v)
            },
            _ => None,
        }
    }

    /// The items of the array under `key`.
    pub fn get_array(&self, key: &str) -> (r: Option<&Vec<JsonValue>>)
        ensures
            match r {
                Some(v) => self@.get_array(key@) == Some(jsons(v@)),
                None => self@.get_array(key@) is None,
            },
    {
        match self.get(key) {
            Some(v) => v.as_array(),
            None => None,
        }
    }

    /// Whether this is `null`.
    pub fn is_null(&self) -> (r: bool)
        ensures
            r == (self@ == Json::Null),
    {
        match self {
            JsonValue::Null => true,
            _ => false,
        }
    }

    /// Whether an object has an entry for `key`.
    pub fn has(&self, key: &str) -> (r: bool)
        ensures
            r == self@.get(key@) is Some,
    {
        self.get(key).is_some()
    }

    /// The string under `key`, or `default` where there is none.
    pub fn str_or(&self, key: &str, default: &str) -> (r: String)
        ensures
            r@ == self@.str_or(key@, default@),
    {
        match self.get(key) {
            Some(v) => match v.as_str() {
                Some(s) => s.to_string(),
                None => default.to_string(),
            },
            None => default.to_string(),
        }
    }

    /// The number under `key`, or `default` where there is none.
    pub fn u64_or(&self, key: &str, default: u64) -> (r: u64)
        ensures
            r == self@.u64_or(key@, default),
    {
        match self.get(key) {
            Some(v) => match v.as_u64() {
                Some(n) => n,
                None => default,
            },
            None => default,
        }
    }

    /// Whether `true` stands under `key`.
    pub fn is_true(&self, key: &str) -> (r: bool)
        ensures
            r == self@.is_true(key@),
    {
        match self.get(key) {
            Some(v) => match v.as_bool() {
                Some(b) => b,
                None => false,
            },
            None => false,
        }
    }
}

/// An object gives for a key the value of the first entry with that key, and nothing where none has it.
pub proof fn first_entry_is_read(entries: Seq<(Seq<char>, Json)>, key: Seq<char>, i: int)
    requires
        0 <= i <= entries.len(),
        forall|k: int| 0 <= k < i ==> (#[trigger] entries[k]).0 != key,
        i < entries.len() ==> entries[i].0 == key,
    ensures
        i < entries.len() ==> Json::Obj(entries).get(key) == Some(entries[i].1),
        i == entries.len() ==> Json::Obj(entries).get(key) is None,
        key_index(entries, key) == i,
    decreases i,
{
    if i > 0 {
        let rest = entries.drop_first();
        assert forall|k: int| 0 <= k < i - 1 implies (#[trigger] rest[k]).0 != key by {
            assert(rest[k] == entries[k + 1]);
        }
        if i < entries.len() {
            assert(rest[i - 1] == entries[i]);
        }
        first_entry_is_read(rest, key, i - 1);
        assert(entries[0].0 != key);
    }
}

} // verus!
