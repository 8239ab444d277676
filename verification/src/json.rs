//! The bridge to JSON: dynamic values as values of the `serde_json` crate,
//! and through them as JSON text.
//!
//! What `serde_json` does is taken on trust and named; what this library
//! does with it, the walk over the tree in both directions, is verified.

use crate::dyn_value::{lemma_array_view, lemma_object_view, DynModel, DynValue};
use vstd::prelude::*;

verus! {

/// A JSON value of the `serde_json` crate. Verus sees nothing of what is
/// inside; `json_model` says what it stands for.
#[verifier::external_type_specification]
#[verifier::external_body]
pub struct ExValue(serde_json::Value);

/// The tree that a `serde_json` value holds. The fields of an object stand in
/// the order in which its map gives them out.
pub uninterp spec fn json_model(v: serde_json::Value) -> DynModel;

/// The fields that the map of a `serde_json` object keeps of a list of
/// fields, in the order of the map.
pub uninterp spec fn object_form(fields: Seq<(Seq<char>, DynModel)>) -> Seq<(Seq<char>, DynModel)>;

/// The JSON text that `serde_json` writes for a tree.
pub uninterp spec fn json_text(m: DynModel) -> Seq<char>;

/// The tree that `serde_json` reads from a text, where the text is JSON.
pub uninterp spec fn json_parsed(text: Seq<char>) -> Option<DynModel>;

/// The JSON bytes that `serde_json` writes for a tree, where it can.
pub uninterp spec fn json_bytes(m: DynModel) -> Option<Seq<u8>>;

/// The tree that `serde_json` reads from bytes, where the bytes are JSON.
pub uninterp spec fn json_decoded(bytes: Seq<u8>) -> Option<DynModel>;

/// The MessagePack bytes that `rmp_serde` writes for a tree, where it can.
pub uninterp spec fn msgpack_bytes(m: DynModel) -> Option<Seq<u8>>;

/// The tree that `rmp_serde` reads from bytes, where they are a MessagePack
/// message that a JSON value can hold.
pub uninterp spec fn msgpack_decoded(bytes: Seq<u8>) -> Option<DynModel>;

/// The TOML text that the `toml` crate writes for a tree, where it can.
pub uninterp spec fn toml_text(m: DynModel) -> Option<Seq<char>>;

/// The tree that the `toml` crate reads from a text, where the text is TOML.
pub uninterp spec fn toml_parsed(text: Seq<char>) -> Option<DynModel>;

/// The compact TOML text that the `toml` crate writes for a tree, where it
/// can.
pub uninterp spec fn toml_plain_text(m: DynModel) -> Option<Seq<char>>;

/// The indented JSON text that `serde_json` writes for a tree, where it can.
pub uninterp spec fn json_pretty_text(m: DynModel) -> Option<Seq<char>>;

/// The number that `serde_json` makes of an unsigned integer.
pub uninterp spec fn number_of_u64(u: u64) -> serde_json::Number;

/// The value of a number as an unsigned integer, where it is one.
pub uninterp spec fn number_u64(n: serde_json::Number) -> Option<u64>;

/// The value of the last field named `name`.
pub open spec fn lookup_last(fields: Seq<(Seq<char>, DynModel)>, name: Seq<char>) -> Option<
    DynModel,
>
    decreases fields.len(),
{
    if fields.len() == 0 {
        None
    } else if fields.last().0 == name {
        Some(fields.last().1)
    } else {
        lookup_last(fields.drop_last(), name)
    }
}

/// The kind of a tree.
#[derive(Debug, Clone, Copy, PartialEq, Eq, Structural)]
pub enum JsonKind {
    Null,
    Bool,
    Number,
    String,
    Array,
    Object,
}

/// The kind of a tree.
pub open spec fn kind_of(m: DynModel) -> JsonKind {
    match m {
        DynModel::Null => JsonKind::Null,
        DynModel::Bool(_) => JsonKind::Bool,
        DynModel::Number(_) => JsonKind::Number,
        DynModel::String(_) => JsonKind::String,
        DynModel::Array(_) => JsonKind::Array,
        DynModel::Object(_) => JsonKind::Object,
    }
}

/// The trees of a list of values.
pub open spec fn models_of(items: Seq<serde_json::Value>) -> Seq<DynModel> {
    Seq::new(items.len(), |i: int| json_model(items[i]))
}

/// The fields of a list of named values.
pub open spec fn fields_of(entries: Seq<(String, serde_json::Value)>) -> Seq<(Seq<char>, DynModel)> {
    Seq::new(entries.len(), |i: int| (entries[i].0@, json_model(entries[i].1)))
}

/// `Value::Null` of `serde_json`.
#[verifier::external_body]
pub(crate) fn json_null() -> (r: serde_json::Value)
    ensures
        json_model(r) == DynModel::Null,
{
    serde_json::Value::Null
}

/// `Value::Bool` of `serde_json`.
#[verifier::external_body]
pub(crate) fn json_bool(b: bool) -> (r: serde_json::Value)
    ensures
        json_model(r) == DynModel::Bool(b),
{
    serde_json::Value::Bool(b)
}

/// `Value::Number` of `serde_json`.
#[verifier::external_body]
pub(crate) fn json_number(n: serde_json::Number) -> (r: serde_json::Value)
    ensures
        json_model(r) == DynModel::Number(n),
{
    serde_json::Value::Number(n)
}

/// `Value::String` of `serde_json`.
#[verifier::external_body]
pub(crate) fn json_string(s: String) -> (r: serde_json::Value)
    ensures
        json_model(r) == DynModel::String(s@),
{
    serde_json::Value::String(s)
}

/// `Value::Array` of `serde_json`: the array of the given items.
#[verifier::external_body]
pub(crate) fn json_array(items: Vec<serde_json::Value>) -> (r: serde_json::Value)
    ensures
        json_model(r) == DynModel::Array(models_of(items@)),
{
    serde_json::Value::Array(items)
}

/// `Value::Object` of `serde_json`, with the map collected from the given
/// fields. The contract gives the fields that the map keeps a name and says
/// no more of them: which of two fields of one name stays is the map's
/// affair.
#[verifier::external_body]
pub(crate) fn json_object(entries: Vec<(String, serde_json::Value)>) -> (r: serde_json::Value)
    ensures
        json_model(r) == DynModel::Object(object_form(fields_of(entries@))),
{
    serde_json::Value::Object(entries.into_iter().collect())
}

/// Tells the variants of a `serde_json` value apart.
#[verifier::external_body]
pub(crate) fn json_kind(v: &serde_json::Value) -> (r: JsonKind)
    ensures
        r == kind_of(json_model(*v)),
{
    match v {
        serde_json::Value::Null => JsonKind::Null,
        serde_json::Value::Bool(_) => JsonKind::Bool,
        serde_json::Value::Number(_) => JsonKind::Number,
        serde_json::Value::String(_) => JsonKind::String,
        serde_json::Value::Array(_) => JsonKind::Array,
        serde_json::Value::Object(_) => JsonKind::Object,
    }
}

/// `Value::as_bool` of `serde_json`: the boolean of a boolean value.
#[verifier::external_body]
pub(crate) fn json_as_bool(v: &serde_json::Value) -> (r: Option<bool>)
    ensures
        r == match json_model(*v) {
            DynModel::Bool(b) => Some(b),
            _ => None,
        },
{
    v.as_bool()
}

/// `Value::as_number` of `serde_json`: the number of a number value.
#[verifier::external_body]
pub(crate) fn json_as_number(v: &serde_json::Value) -> (r: Option<serde_json::Number>)
    ensures
        r == match json_model(*v) {
            DynModel::Number(n) => Some(n),
            _ => None,
        },
{
    v.as_number().cloned()
}

/// `Value::as_str` of `serde_json`: the text of a string value.
#[verifier::external_body]
pub(crate) fn json_as_string(v: &serde_json::Value) -> (r: Option<String>)
    ensures
        match json_model(*v) {
            DynModel::String(s) => r matches Some(text) && text@ == s,
            _ => r is None,
        },
{
    v.as_str().map(String::from)
}

/// The items of a `serde_json` array, in order; none for any other value.
#[verifier::external_body]
pub(crate) fn json_into_items(v: serde_json::Value) -> (r: Vec<serde_json::Value>)
    ensures
        match json_model(v) {
            DynModel::Array(items) => models_of(r@) == items,
            _ => r@.len() == 0,
        },
{
    match v {
        serde_json::Value::Array(items) => items,
        _ => Vec::new(),
    }
}

/// The fields of a `serde_json` object, in the order of its map; none for
/// any other value.
#[verifier::external_body]
pub(crate) fn json_into_entries(v: serde_json::Value) -> (r: Vec<(String, serde_json::Value)>)
    ensures
        match json_model(v) {
            DynModel::Object(fields) => fields_of(r@) == fields,
            _ => r@.len() == 0,
        },
{
    match v {
        serde_json::Value::Object(map) => map.into_iter().collect(),
        _ => Vec::new(),
    }
}

/// The JSON text of a value, as `serde_json` displays it.
#[verifier::external_body]
pub(crate) fn json_to_string(v: &serde_json::Value) -> (r: String)
    ensures
        r@ == json_text(json_model(*v)),
{
    v.to_string()
}

/// `from_str` of `serde_json`, for a value: reads a JSON text.
#[verifier::external_body]
pub(crate) fn json_from_str(text: &str) -> (r: Result<serde_json::Value, String>)
    ensures
        match r {
            Ok(v) => json_parsed(text@) == Some(json_model(v)),
            Err(_) => json_parsed(text@) is None,
        },
{
    serde_json::from_str(text).map_err(|e| e.to_string())
}

/// `to_vec` of `serde_json`, for a value: writes JSON bytes.
#[verifier::external_body]
pub(crate) fn json_to_vec(v: &serde_json::Value) -> (r: Result<Vec<u8>, String>)
    ensures
        match r {
            Ok(bytes) => json_bytes(json_model(*v)) == Some(bytes@),
            Err(_) => json_bytes(json_model(*v)) is None,
        },
{
    serde_json::to_vec(v).map_err(|e| e.to_string())
}

/// `from_slice` of `serde_json`, for a value: reads JSON bytes.
#[verifier::external_body]
pub(crate) fn json_from_slice(bytes: &[u8]) -> (r: Result<serde_json::Value, String>)
    ensures
        match r {
            Ok(v) => json_decoded(bytes@) == Some(json_model(v)),
            Err(_) => json_decoded(bytes@) is None,
        },
{
    serde_json::from_slice(bytes).map_err(|e| e.to_string())
}

/// `to_string_pretty` of `serde_json`, for a value: writes indented JSON.
#[verifier::external_body]
pub(crate) fn json_to_string_pretty(v: &serde_json::Value) -> (r: Result<String, String>)
    ensures
        match r {
            Ok(text) => json_pretty_text(json_model(*v)) == Some(text@),
            Err(_) => json_pretty_text(json_model(*v)) is None,
        },
{
    serde_json::to_string_pretty(v).map_err(|e| e.to_string())
}

/// `to_vec` of `rmp_serde`, for a JSON value: writes a MessagePack message.
#[verifier::external_body]
pub(crate) fn msgpack_to_vec(v: &serde_json::Value) -> (r: Result<Vec<u8>, String>)
    ensures
        match r {
            Ok(bytes) => msgpack_bytes(json_model(*v)) == Some(bytes@),
            Err(_) => msgpack_bytes(json_model(*v)) is None,
        },
{
    rmp_serde::to_vec(v).map_err(|e| e.to_string())
}

/// `from_slice` of `rmp_serde`, for a JSON value: reads a MessagePack
/// message.
#[verifier::external_body]
pub(crate) fn msgpack_from_slice(bytes: &[u8]) -> (r: Result<serde_json::Value, String>)
    ensures
        match r {
            Ok(v) => msgpack_decoded(bytes@) == Some(json_model(v)),
            Err(_) => msgpack_decoded(bytes@) is None,
        },
{
    rmp_serde::from_slice(bytes).map_err(|e| e.to_string())
}

/// `to_string_pretty` of the `toml` crate, for a JSON value: writes TOML.
#[verifier::external_body]
pub(crate) fn toml_to_string_pretty(v: &serde_json::Value) -> (r: Result<String, String>)
    ensures
        match r {
            Ok(text) => toml_text(json_model(*v)) == Some(text@),
            Err(_) => toml_text(json_model(*v)) is None,
        },
{
    toml::to_string_pretty(v).map_err(|e| e.to_string())
}

/// `to_string` of the `toml` crate, for a JSON value: writes compact TOML.
#[verifier::external_body]
pub(crate) fn toml_to_string(v: &serde_json::Value) -> (r: Result<String, String>)
    ensures
        match r {
            Ok(text) => toml_plain_text(json_model(*v)) == Some(text@),
            Err(_) => toml_plain_text(json_model(*v)) is None,
        },
{
    toml::to_string(v).map_err(|e| e.to_string())
}

/// `from_str` of the `toml` crate, for a JSON value: reads TOML.
#[verifier::external_body]
pub(crate) fn toml_from_str(text: &str) -> (r: Result<serde_json::Value, String>)
    ensures
        match r {
            Ok(v) => toml_parsed(text@) == Some(json_model(v)),
            Err(_) => toml_parsed(text@) is None,
        },
{
    toml::from_str(text).map_err(|e| e.to_string())
}

/// `Number::from` of `serde_json`, for an unsigned integer. The number has
/// the value of the integer.
#[verifier::external_body]
pub(crate) fn number_from_u64(u: u64) -> (r: serde_json::Number)
    ensures
        r == number_of_u64(u),
        number_u64(r) == Some(u),
{
    serde_json::Number::from(u)
}

/// `Number::as_u64` of `serde_json`.
#[verifier::external_body]
pub(crate) fn number_as_u64(n: &serde_json::Number) -> (r: Option<u64>)
    ensures
        r == number_u64(*n),
{
    n.as_u64()
}

/// The tree that JSON keeps of a tree: in each object, the fields that its
/// map keeps.
pub open spec fn json_form(m: DynModel) -> DynModel
    decreases m, 1nat,
{
    match m {
        DynModel::Array(items) => DynModel::Array(form_items(items)),
        DynModel::Object(fields) => DynModel::Object(object_form(form_fields(fields))),
        _ => m,
    }
}

/// The forms of the items of an array.
pub open spec fn form_items(items: Seq<DynModel>) -> Seq<DynModel>
    decreases items, 0nat,
{
    Seq::new(
        items.len(),
        |i: int|
            if 0 <= i < items.len() {
                json_form(items[i])
            } else {
                DynModel::Null
            },
    )
}

/// The fields of an object, each with the form of its value.
pub open spec fn form_fields(fields: Seq<(Seq<char>, DynModel)>) -> Seq<(Seq<char>, DynModel)>
    decreases fields, 0nat,
{
    Seq::new(
        fields.len(),
        |i: int|
            if 0 <= i < fields.len() {
                (fields[i].0, json_form(fields[i].1))
            } else {
                (Seq::empty(), DynModel::Null)
            },
    )
}

/// The form of an array is the array of the forms of its items.
pub proof fn lemma_json_form_array(m: DynModel, forms: Seq<DynModel>)
    requires
        m is Array,
        forms.len() == m->Array_0.len(),
        forall|i: int| 0 <= i < forms.len() ==> forms[i] == json_form(#[trigger] m->Array_0[i]),
    ensures
        json_form(m) == DynModel::Array(forms),
{
    assert(form_items(m->Array_0) =~= forms);
}

/// The form of an object is what the map keeps of the forms of its fields.
pub proof fn lemma_json_form_object(m: DynModel, forms: Seq<(Seq<char>, DynModel)>)
    requires
        m is Object,
        forms.len() == m->Object_0.len(),
        forall|i: int|
            0 <= i < forms.len() ==> forms[i] == ((#[trigger] m->Object_0[i]).0, json_form(
                m->Object_0[i].1,
            )),
    ensures
        json_form(m) == DynModel::Object(object_form(forms)),
{
    assert(form_fields(m->Object_0) =~= forms);
}

/// The `serde_json` value of a dynamic value.
pub fn to_json(d: &DynValue) -> (r: serde_json::Value)
    ensures
        json_model(r) == json_form(d@),
    decreases d,
{
    match d {
        DynValue::Null => json_null(),
        DynValue::Bool(b) => json_bool(*b),
        DynValue::Number(n) => json_number(n.clone()),
        DynValue::String(s) => json_string(s.clone()),
        DynValue::Array(items) => {
            proof {
                lemma_array_view(*d);
            }
            let mut out: Vec<serde_json::Value> = Vec::new();
            let mut i: usize = 0;
            while i < items.len()
                invariant
                    *d == DynValue::Array(*items),
                    i <= items.len(),
                    out@.len() == i,
                    forall|k: int| 0 <= k < i ==> json_model(out@[k]) == json_form(items@[k]@),
                decreases items.len() - i,
            {
                assert(decreases_to!(*d => d->Array_0));
                out.push(to_json(&items[i]));
                i += 1;
            }
            proof {
                lemma_json_form_array(d@, models_of(out@));
            }
            json_array(out)
        },
        DynValue::Object(fields) => {
            proof {
                lemma_object_view(*d);
            }
            let mut out: Vec<(String, serde_json::Value)> = Vec::new();
            let mut i: usize = 0;
            while i < fields.len()
                invariant
                    *d == DynValue::Object(*fields),
                    i <= fields.len(),
                    out@.len() == i,
                    forall|k: int|
                        0 <= k < i ==> (#[trigger] out@[k]).0@ == fields@[k].0@ && json_model(
                            out@[k].1,
                        ) == json_form(fields@[k].1@),
                decreases fields.len() - i,
            {
                assert(decreases_to!(*d => d->Object_0));
                let value = to_json(&fields[i].1);
                out.push((fields[i].0.clone(), value));
                i += 1;
            }
            proof {
                lemma_json_form_object(d@, fields_of(out@));
            }
            json_object(out)
        },
    }
}

/// The dynamic value of a `serde_json` value.
pub fn from_json(v: serde_json::Value) -> (r: DynValue)
    ensures
        r@ == json_model(v),
    decreases json_model(v),
{
    match json_kind(&v) {
        JsonKind::Null => DynValue::Null,
        JsonKind::Bool => match json_as_bool(&v) {
            Some(b) => DynValue::Bool(b),
            None => DynValue::Null,
        },
        JsonKind::Number => match json_as_number(&v) {
            Some(n) => DynValue::Number(n),
            None => DynValue::Null,
        },
        JsonKind::String => match json_as_string(&v) {
            Some(s) => DynValue::String(s),
            None => DynValue::Null,
        },
        JsonKind::Array => {
            let ghost model = json_model(v);
            let mut items = json_into_items(v);
            let ghost given = items@;
            let mut reversed: Vec<DynValue> = Vec::new();
            while items.len() > 0
                invariant
                    model == json_model(v),
                    model is Array,
                    models_of(given) == model->Array_0,
                    items@.len() + reversed@.len() == given.len(),
                    forall|i: int| 0 <= i < items@.len() ==> items@[i] == given[i],
                    forall|i: int|
                        0 <= i < reversed@.len() ==> (#[trigger] reversed@[i])@ == json_model(
                            given[given.len() - 1 - i],
                        ),
                decreases items.len(),
            {
                let item = items.pop().unwrap();
                proof {
                    let k = items@.len() as int;
                    assert(item == given[k]);
                    assert(models_of(given)[k] == json_model(item));
                    assert(decreases_to!(model => model->Array_0));
                    assert(decreases_to!(model->Array_0 => model->Array_0[k]));
                }
                reversed.push(from_json(item));
            }
            let mut out: Vec<DynValue> = Vec::new();
            while reversed.len() > 0
                invariant
                    out@.len() + reversed@.len() == given.len(),
                    forall|i: int|
                        0 <= i < reversed@.len() ==> (#[trigger] reversed@[i])@ == json_model(
                            given[given.len() - 1 - i],
                        ),
                    forall|i: int| 0 <= i < out@.len() ==> (#[trigger] out@[i])@ == json_model(given[i]),
                decreases reversed.len(),
            {
                let item = reversed.pop().unwrap();
                out.push(item);
            }
            let r = DynValue::Array(out);
            proof {
                lemma_array_view(r);
                assert(r@->Array_0 =~= model->Array_0);
            }
            r
        },
        JsonKind::Object => {
            let ghost model = json_model(v);
            let mut entries = json_into_entries(v);
            let ghost given = entries@;
            let mut reversed: Vec<(String, DynValue)> = Vec::new();
            while entries.len() > 0
                invariant
                    model == json_model(v),
                    model is Object,
                    fields_of(given) == model->Object_0,
                    entries@.len() + reversed@.len() == given.len(),
                    forall|i: int| 0 <= i < entries@.len() ==> entries@[i] == given[i],
                    forall|i: int|
                        0 <= i < reversed@.len() ==> (#[trigger] reversed@[i]).0@ == given[given.len()
                            - 1 - i].0@ && reversed@[i].1@ == json_model(
                            given[given.len() - 1 - i].1,
                        ),
                decreases entries.len(),
            {
                let (name, value) = entries.pop().unwrap();
                proof {
                    let k = entries@.len() as int;
                    assert((name, value) == given[k]);
                    assert(fields_of(given)[k] == (name@, json_model(value)));
                    assert(decreases_to!(model => model->Object_0));
                    assert(decreases_to!(model->Object_0 => model->Object_0[k]));
                    assert(decreases_to!(model->Object_0[k] => model->Object_0[k].1));
                }
                reversed.push((name, from_json(value)));
            }
            let mut out: Vec<(String, DynValue)> = Vec::new();
            while reversed.len() > 0
                invariant
                    out@.len() + reversed@.len() == given.len(),
                    forall|i: int|
                        0 <= i < reversed@.len() ==> (#[trigger] reversed@[i]).0@ == given[given.len()
                            - 1 - i].0@ && reversed@[i].1@ == json_model(
                            given[given.len() - 1 - i].1,
                        ),
                    forall|i: int|
                        0 <= i < out@.len() ==> (#[trigger] out@[i]).0@ == given[i].0@ && out@[i].1@
                            == json_model(given[i].1),
                decreases reversed.len(),
            {
                let entry = reversed.pop().unwrap();
                out.push(entry);
            }
            let r = DynValue::Object(out);
            proof {
                lemma_object_view(r);
                assert(r@->Object_0 =~= model->Object_0);
            }
            r
        },
    }
}

/// The encodings of a tree.
#[derive(Debug, Clone, Copy, PartialEq, Eq, Structural)]
pub enum Encoding {
    /// JSON, as bytes.
    Json,
    /// MessagePack.
    MsgPack,
}

/// The bytes of a tree in an encoding, where it has any.
pub open spec fn encoded(encoding: Encoding, m: DynModel) -> Option<Seq<u8>> {
    match encoding {
        Encoding::Json => json_bytes(json_form(m)),
        Encoding::MsgPack => msgpack_bytes(json_form(m)),
    }
}

/// The tree that bytes stand for in an encoding, where they stand for one.
pub open spec fn decoded(encoding: Encoding, bytes: Seq<u8>) -> Option<DynModel> {
    match encoding {
        Encoding::Json => json_decoded(bytes),
        Encoding::MsgPack => msgpack_decoded(bytes),
    }
}

/// Writes a dynamic value in an encoding.
pub fn encode(encoding: Encoding, d: &DynValue) -> (r: Result<Vec<u8>, String>)
    ensures
        match r {
            Ok(bytes) => encoded(encoding, d@) == Some(bytes@),
            Err(_) => encoded(encoding, d@) is None,
        },
{
    let v = to_json(d);
    match encoding {
        Encoding::Json => json_to_vec(&v),
        Encoding::MsgPack => msgpack_to_vec(&v),
    }
}

/// Reads a dynamic value from bytes in an encoding.
pub fn decode(encoding: Encoding, bytes: &[u8]) -> (r: Result<DynValue, String>)
    ensures
        match r {
            Ok(d) => decoded(encoding, bytes@) == Some(d@),
            Err(_) => decoded(encoding, bytes@) is None,
        },
{
    let parsed = match encoding {
        Encoding::Json => json_from_slice(bytes),
        Encoding::MsgPack => msgpack_from_slice(bytes),
    };
    match parsed {
        Ok(v) => Ok(from_json(v)),
        Err(reason) => Err(reason),
    }
}

/// The texts of a tree.
#[derive(Debug, Clone, Copy, PartialEq, Eq, Structural)]
pub enum TextForm {
    /// JSON on one line.
    Json,
    /// JSON, indented.
    JsonPretty,
    /// TOML.
    Toml,
    /// TOML, compact.
    TomlPlain,
}

/// The text of a tree in a form, where it has one.
pub open spec fn written(form: TextForm, m: DynModel) -> Option<Seq<char>> {
    match form {
        TextForm::Json => Some(json_text(json_form(m))),
        TextForm::JsonPretty => json_pretty_text(json_form(m)),
        TextForm::Toml => toml_text(json_form(m)),
        TextForm::TomlPlain => toml_plain_text(json_form(m)),
    }
}

/// The tree that a text stands for, read as JSON or as TOML.
pub open spec fn read(form: TextForm, text: Seq<char>) -> Option<DynModel> {
    match form {
        TextForm::Toml => toml_parsed(text),
        TextForm::TomlPlain => toml_parsed(text),
        _ => json_parsed(text),
    }
}

/// Writes a dynamic value as text.
pub fn write_text(form: TextForm, d: &DynValue) -> (r: Result<String, String>)
    ensures
        match r {
            Ok(text) => written(form, d@) == Some(text@),
            Err(_) => written(form, d@) is None,
        },
{
    let v = to_json(d);
    match form {
        TextForm::Json => Ok(json_to_string(&v)),
        TextForm::JsonPretty => json_to_string_pretty(&v),
        TextForm::Toml => toml_to_string_pretty(&v),
        TextForm::TomlPlain => toml_to_string(&v),
    }
}

/// Reads a dynamic value from text.
pub fn read_text(form: TextForm, text: &str) -> (r: Result<DynValue, String>)
    ensures
        match r {
            Ok(d) => read(form, text@) == Some(d@),
            Err(_) => read(form, text@) is None,
        },
{
    let parsed = match form {
        TextForm::Toml => toml_from_str(text),
        TextForm::TomlPlain => toml_from_str(text),
        _ => json_from_str(text),
    };
    match parsed {
        Ok(v) => Ok(from_json(v)),
        Err(reason) => Err(reason),
    }
}

} // verus!
