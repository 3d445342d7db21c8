//! A JSON value as the runtime reads it: tool arguments and structured tool results.

use vstd::prelude::*;

use crate::text::{chars_eq, chars_of};

verus! {

/// A JSON number: an unsigned or negative integer, or the decimal text of any other number.
#[derive(Debug, Clone, PartialEq, Eq)]
pub enum JsonNumber {
    Unsigned(u64),
    Negative(i64),
    Decimal(String),
}

/// A JSON document.
///
/// The keys of an object are distinct; `get` returns the value of the first entry
/// with the key.
#[derive(Debug, PartialEq, Eq)]
pub enum JsonValue {
    Null,
    Bool(bool),
    Number(JsonNumber),
    String(String),
    Array(Vec<JsonValue>),
    Object(Vec<(String, JsonValue)>),
}

/// The mathematical value of a [`JsonNumber`].
pub enum JsonNumberView {
    Unsigned(u64),
    Negative(i64),
    Decimal(Seq<char>),
}

/// The mathematical value of a [`JsonValue`].
pub enum JsonView {
    Null,
    Bool(bool),
    Number(JsonNumberView),
    String(Seq<char>),
    Array(Seq<JsonView>),
    Object(Seq<(Seq<char>, JsonView)>),
}

/// The value of a number.
pub open spec fn number_view(n: JsonNumber) -> JsonNumberView {
    match n {
        JsonNumber::Unsigned(u) => JsonNumberView::Unsigned(u),
        JsonNumber::Negative(i) => JsonNumberView::Negative(i),
        JsonNumber::Decimal(s) => JsonNumberView::Decimal(s@),
    }
}

/// The value of a document.
pub open spec fn json_view(v: JsonValue) -> JsonView
    decreases v,
{
    match v {
        JsonValue::Null => JsonView::Null,
        JsonValue::Bool(b) => JsonView::Bool(b),
        JsonValue::Number(n) => JsonView::Number(number_view(n)),
        JsonValue::String(s) => JsonView::String(s@),
        JsonValue::Array(items) => JsonView::Array(
            Seq::new(
                items@.len(),
                |i: int|
                    if 0 <= i < items@.len() {
                        json_view(items@[i])
                    } else {
                        JsonView::Null
                    },
            ),
        ),
        JsonValue::Object(entries) => JsonView::Object(
            Seq::new(
                entries@.len(),
                |i: int|
                    if 0 <= i < entries@.len() {
                        (entries@[i].0@, json_view(entries@[i].1))
                    } else {
                        (Seq::empty(), JsonView::Null)
                    },
            ),
        ),
    }
}

impl View for JsonValue {
    type V = JsonView;

    open spec fn view(&self) -> JsonView {
        json_view(*self)
    }
}

/// The value of the first entry of `entries` whose key is `key`.
pub open spec fn entries_get(entries: Seq<(Seq<char>, JsonView)>, key: Seq<char>) -> Option<JsonView>
    decreases entries.len(),
{
    if entries.len() == 0 {
        None
    } else if entries[0].0 == key {
        Some(entries[0].1)
    } else {
        entries_get(entries.drop_first(), key)
    }
}

/// The value that `v.get(key)` returns: the field `key` of an object, `None` otherwise.
pub open spec fn json_get(v: JsonView, key: Seq<char>) -> Option<JsonView> {
    match v {
        JsonView::Object(entries) => entries_get(entries, key),
        _ => None,
    }
}

/// The text of a string field of an object, as `v.get(key).and_then(Value::as_str)` gives it.
pub open spec fn json_str_field(v: JsonView, key: Seq<char>) -> Option<Seq<char>> {
    match json_get(v, key) {
        Some(JsonView::String(s)) => Some(s),
        _ => None,
    }
}

/// An unsigned integer field of an object, as `v.get(key).and_then(Value::as_u64)` gives it.
pub open spec fn json_u64_field(v: JsonView, key: Seq<char>) -> Option<u64> {
    match json_get(v, key) {
        Some(JsonView::Number(JsonNumberView::Unsigned(n))) => Some(n),
        _ => None,
    }
}

/// Whether `v` is a JSON object.
pub open spec fn json_is_object(v: JsonView) -> bool {
    v is Object
}

impl JsonNumber {
    /// A copy of this number.
    pub fn duplicate(&self) -> (r: JsonNumber)
        ensures
            number_view(r) == number_view(*self),
    {
        match self {
            JsonNumber::Unsigned(n) => JsonNumber::Unsigned(*n),
            JsonNumber::Negative(n) => JsonNumber::Negative(*n),
            JsonNumber::Decimal(s) => JsonNumber::Decimal(s.clone()),
        }
    }
}

impl JsonValue {
    /// An object without fields.
    pub fn empty_object() -> (r: JsonValue)
        ensures
            r@ == JsonView::Object(Seq::empty()),
    {
        let r = JsonValue::Object(Vec::new());
        assert(r@->Object_0 =~= Seq::<(Seq<char>, JsonView)>::empty());
        r
    }

    /// Whether this value is an object.
    pub fn is_object(&self) -> (b: bool)
        ensures
            b == json_is_object(self@),
    {
        match self {
            JsonValue::Object(_) => true,
            _ => false,
        }
    }

    /// A copy of this value.
    pub fn duplicate(&self) -> (r: JsonValue)
        ensures
            r@ == self@,
        decreases self,
    {
        match self {
            JsonValue::Null => JsonValue::Null,
            JsonValue::Bool(b) => JsonValue::Bool(*b),
            JsonValue::Number(n) => JsonValue::Number(n.duplicate()),
            JsonValue::String(s) => JsonValue::String(s.clone()),
            JsonValue::Array(items) => {
                let mut out: Vec<JsonValue> = Vec::new();
                let mut i: usize = 0;
                while i < items.len()
                    invariant
                        i <= items@.len(),
                        *self == JsonValue::Array(*items),
                        out@.len() == i,
                        forall|k: int| 0 <= k < i ==> (#[trigger] out@[k])@ == items@[k]@,
                    decreases items@.len() - i,
                {
                    proof {
                        assert(decreases_to!(*self => self->Array_0));
                        assert(decreases_to!(self->Array_0 => self->Array_0[i as int]));
                    }
                    out.push(items[i].duplicate());
                    i = i + 1;
                }
                let r = JsonValue::Array(out);
                assert(r@->Array_0 =~= self@->Array_0);
                r
            },
            JsonValue::Object(entries) => {
                let mut out: Vec<(String, JsonValue)> = Vec::new();
                let mut i: usize = 0;
                while i < entries.len()
                    invariant
                        i <= entries@.len(),
                        *self == JsonValue::Object(*entries),
                        out@.len() == i,
                        forall|k: int|
                            0 <= k < i ==> (#[trigger] out@[k]).0@ == entries@[k].0@ && out@[k].1@
                                == entries@[k].1@,
                    decreases entries@.len() - i,
                {
                    proof {
                        assert(decreases_to!(*self => self->Object_0));
                        assert(decreases_to!(self->Object_0 => self->Object_0[i as int]));
                        assert(decreases_to!(self->Object_0[i as int] => self->Object_0[i as int].1));
                    }
                    let key = entries[i].0.clone();
                    let value = entries[i].1.duplicate();
                    out.push((key, value));
                    i = i + 1;
                }
                let r = JsonValue::Object(out);
                assert(r@->Object_0 =~= self@->Object_0);
                r
            },
        }
    }

    /// The field `key` of an object (`None` for other values and missing keys).
    pub fn get(&self, key: &str) -> (r: Option<&JsonValue>)
        ensures
            r matches Some(v) ==> json_get(self@, key@) == Some(v@),
            r is None ==> json_get(self@, key@) is None,
    {
        match self {
            JsonValue::Object(entries) => {
                let k = chars_of(key);
                let ghost ev = self@->Object_0;
                let mut i: usize = 0;
                assert(ev.subrange(0, ev.len() as int) =~= ev);
                while i < entries.len()
                    invariant
                        i <= entries@.len(),
                        *self == JsonValue::Object(*entries),
                        ev == self@->Object_0,
                        ev.len() == entries@.len(),
                        k@ == key@,
                        entries_get(ev, key@) == entries_get(
                            ev.subrange(i as int, ev.len() as int),
                            key@,
                        ),
                    decreases entries@.len() - i,
                {
                    let ghost rest = ev.subrange(i as int, ev.len() as int);
                    assert(rest[0] == ev[i as int]);
                    assert(rest.drop_first() =~= ev.subrange(i + 1, ev.len() as int));
                    let entry_key = chars_of(entries[i].0.as_str());
                    if chars_eq(&entry_key, &k) {
                        return Some(&entries[i].1);
                    }
                    i = i + 1;
                }
                None
            },
            _ => None,
        }
    }

    /// The text of a string field, as `get(key).and_then(as_str)`.
    pub fn str_field(&self, key: &str) -> (r: Option<&String>)
        ensures
            r matches Some(s) ==> json_str_field(self@, key@) == Some(s@),
            r is None ==> json_str_field(self@, key@) is None,
    {
        match self.get(key) {
            Some(JsonValue::String(s)) => Some(s),
            _ => None,
        }
    }

    /// An unsigned integer field, as `get(key).and_then(as_u64)`.
    pub fn u64_field(&self, key: &str) -> (r: Option<u64>)
        ensures
            r == json_u64_field(self@, key@),
    {
        match self.get(key) {
            Some(JsonValue::Number(JsonNumber::Unsigned(n))) => Some(*n),
            _ => None,
        }
    }
}

} // verus!
