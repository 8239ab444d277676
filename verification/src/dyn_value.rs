//! The dynamic cell: a tagged tree of null, booleans, numbers, strings,
//! sequences and objects, the common shape of every column value.

use crate::text::str_eq;
use vstd::prelude::*;

verus! {

/// The number of a JSON value, of the `serde_json` crate. Verus sees
/// nothing of what is inside: a number is carried through as it is.
#[verifier::external_type_specification]
#[verifier::external_body]
pub struct ExNumber(serde_json::Number);

/// `clone` of a `serde_json` number gives the same number.
pub assume_specification[ <serde_json::Number as Clone>::clone ](
    n: &serde_json::Number,
) -> (r: serde_json::Number)
    ensures
        r == *n,
;

/// A dynamic value: what one cell of a column holds.
#[derive(Debug, PartialEq)]
pub enum DynValue {
    /// No data: an absent value, or a component that carries none.
    Null,
    Bool(bool),
    Number(serde_json::Number),
    String(String),
    Array(Vec<DynValue>),
    /// Named fields, in their order.
    Object(Vec<(String, DynValue)>),
}

/// The mathematical value of a [`DynValue`].
pub enum DynModel {
    Null,
    Bool(bool),
    Number(serde_json::Number),
    String(Seq<char>),
    Array(Seq<DynModel>),
    Object(Seq<(Seq<char>, DynModel)>),
}

impl DynModel {
    /// The value of the first field named `name`, where `fields` has one.
    pub open spec fn lookup(fields: Seq<(Seq<char>, DynModel)>, name: Seq<char>) -> Option<DynModel>
        decreases fields.len(),
    {
        if fields.len() == 0 {
            None
        } else if fields[0].0 == name {
            Some(fields[0].1)
        } else {
            Self::lookup(fields.skip(1), name)
        }
    }
}

impl View for DynValue {
    type V = DynModel;

    open spec fn view(&self) -> DynModel
        decreases self,
    {
        match self {
            DynValue::Null => DynModel::Null,
            DynValue::Bool(b) => DynModel::Bool(*b),
            DynValue::Number(n) => DynModel::Number(*n),
            DynValue::String(s) => DynModel::String(s@),
            DynValue::Array(items) => DynModel::Array(
                Seq::new(
                    items@.len(),
                    |i: int|
                        if 0 <= i < items@.len() {
                            items@[i]@
                        } else {
                            DynModel::Null
                        },
                ),
            ),
            DynValue::Object(fields) => DynModel::Object(
                Seq::new(
                    fields@.len(),
                    |i: int|
                        if 0 <= i < fields@.len() {
                            (fields@[i].0@, fields@[i].1@)
                        } else {
                            (Seq::empty(), DynModel::Null)
                        },
                ),
            ),
        }
    }
}

/// What the view of an object is, field by field.
pub proof fn lemma_object_view(v: DynValue)
    requires
        v is Object,
    ensures
        v@ is Object,
        v@->Object_0.len() == v->Object_0@.len(),
        forall|k: int|
            0 <= k < v->Object_0@.len() ==> (#[trigger] v@->Object_0[k]) == (
                v->Object_0@[k].0@,
                v->Object_0@[k].1@,
            ),
{
    reveal_with_fuel(<DynValue as View>::view, 2);
}

/// What the view of an array is, item by item.
pub proof fn lemma_array_view(v: DynValue)
    requires
        v is Array,
    ensures
        v@ is Array,
        v@->Array_0.len() == v->Array_0@.len(),
        forall|k: int|
            0 <= k < v->Array_0@.len() ==> (#[trigger] v@->Array_0[k]) == v->Array_0@[k]@,
{
    reveal_with_fuel(<DynValue as View>::view, 2);
}

impl DeepView for DynValue {
    type V = DynModel;

    open spec fn deep_view(&self) -> DynModel {
        self@
    }
}

impl Clone for DynValue {
    fn clone(&self) -> (r: Self)
        ensures
            r@ == self@,
    {
        self.duplicate()
    }
}

impl DynValue {
    /// Whether the cell holds no data.
    pub fn is_null(&self) -> (b: bool)
        ensures
            b == (self@ is Null),
    {
        match self {
            DynValue::Null => true,
            _ => false,
        }
    }

    /// A copy of the whole tree.
    pub fn duplicate(&self) -> (r: DynValue)
        ensures
            r@ == self@,
        decreases self,
    {
        match self {
            DynValue::Null => DynValue::Null,
            DynValue::Bool(b) => DynValue::Bool(*b),
            DynValue::Number(n) => DynValue::Number(n.clone()),
            DynValue::String(s) => DynValue::String(s.clone()),
            DynValue::Array(items) => {
                let mut out: Vec<DynValue> = Vec::new();
                let mut i: usize = 0;
                while i < items.len()
                    invariant
                        *self == DynValue::Array(*items),
                        i <= items.len(),
                        out@.len() == i,
                        forall|j: int| 0 <= j < i ==> out@[j]@ == items@[j]@,
                    decreases items.len() - i,
                {
                    assert(decreases_to!(*self => self->Array_0));
                    let item = items[i].duplicate();
                    out.push(item);
                    i += 1;
                }
                let r = DynValue::Array(out);
                assert(r@->Array_0 =~= self@->Array_0);
                r
            },
            DynValue::Object(fields) => {
                let mut out: Vec<(String, DynValue)> = Vec::new();
                let mut i: usize = 0;
                while i < fields.len()
                    invariant
                        *self == DynValue::Object(*fields),
                        i <= fields.len(),
                        out@.len() == i,
                        forall|j: int|
                            0 <= j < i ==> out@[j].0@ == fields@[j].0@ && out@[j].1@
                                == fields@[j].1@,
                    decreases fields.len() - i,
                {
                    assert(decreases_to!(*self => self->Object_0));
                    let value = fields[i].1.duplicate();
                    out.push((fields[i].0.clone(), value));
                    i += 1;
                }
                let r = DynValue::Object(out);
                assert(r@->Object_0 =~= self@->Object_0);
                r
            },
        }
    }

    /// The value of the first field named `name`, for an object that has one.
    pub fn get_field(&self, name: &str) -> (r: Option<&DynValue>)
        ensures
            match self@ {
                DynModel::Object(fields) => match DynModel::lookup(fields, name@) {
                    Some(v) => r matches Some(x) && x@ == v,
                    None => r is None,
                },
                _ => r is None,
            },
    {
        match self {
            DynValue::Object(entries) => {
                proof {
                    lemma_object_view(*self);
                }
                let ghost fields = self@->Object_0;
                let mut i: usize = 0;
                assert(fields.skip(0) =~= fields);
                while i < entries.len()
                    invariant
                        i <= entries.len(),
                        self@ == DynModel::Object(fields),
                        fields.len() == entries@.len(),
                        forall|k: int|
                            0 <= k < entries@.len() ==> (#[trigger] fields[k]) == (
                                entries@[k].0@,
                                entries@[k].1@,
                            ),
                        DynModel::lookup(fields, name@) == DynModel::lookup(
                            fields.skip(i as int),
                            name@,
                        ),
                    decreases entries.len() - i,
                {
                    assert(fields.skip(i as int)[0] == fields[i as int]);
                    if str_eq(entries[i].0.as_str(), name) {
                        return Some(&entries[i].1);
                    }
                    assert(fields.skip(i as int).skip(1) =~= fields.skip(i + 1));
                    i += 1;
                }
                None
            },
            _ => None,
        }
    }
}

} // verus!
