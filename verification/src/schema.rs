//! How snapshots are written as plain trees: lists of strings, of numbers
//! and of cells, and the trees of an archetype snapshot and of a columnar
//! table, with named fields or as a plain list of fields.

use crate::archetype_archive::{ArchetypeModel, ArchetypeSnapshot, StorageTypeFlag};
use crate::csv_archive::{ColumnarCsv, ColumnarModel};
use crate::dyn_value::{lemma_array_view, lemma_object_view, DynModel, DynValue};
use crate::json::{number_as_u64, number_from_u64, number_of_u64, number_u64};
use crate::text::str_eq;
use vstd::prelude::*;
use vstd::string::*;

verus! {

/// The tree of a list of strings.
pub open spec fn strings_value(names: Seq<Seq<char>>) -> DynModel {
    DynModel::Array(Seq::new(names.len(), |i: int| DynModel::String(names[i])))
}

/// The list of strings that a tree holds, where it is a list of strings.
pub open spec fn strings_of(m: DynModel) -> Option<Seq<Seq<char>>> {
    match m {
        DynModel::Array(items) => if forall|i: int|
            0 <= i < items.len() ==> #[trigger] items[i] is String {
            Some(Seq::new(items.len(), |i: int| items[i]->String_0))
        } else {
            None
        },
        _ => None,
    }
}

/// The tree of an entity index.
pub open spec fn id_value(e: u32) -> DynModel {
    DynModel::Number(number_of_u64(e as u64))
}

/// The entity index that a tree holds, where it is a number that fits.
pub open spec fn id_of(m: DynModel) -> Option<u32> {
    match m {
        DynModel::Number(n) => match number_u64(n) {
            Some(u) => if u <= u32::MAX {
                Some(u as u32)
            } else {
                None
            },
            None => None,
        },
        _ => None,
    }
}

/// The tree of a list of entity indices.
pub open spec fn ids_value(ids: Seq<u32>) -> DynModel {
    DynModel::Array(Seq::new(ids.len(), |i: int| id_value(ids[i])))
}

/// The list of entity indices that a tree holds, where it is one.
pub open spec fn ids_of(m: DynModel) -> Option<Seq<u32>> {
    match m {
        DynModel::Array(items) => if forall|i: int|
            0 <= i < items.len() ==> id_of(#[trigger] items[i]) is Some {
            Some(Seq::new(items.len(), |i: int| id_of(items[i]).unwrap()))
        } else {
            None
        },
        _ => None,
    }
}

/// The name of a storage hint.
pub open spec fn storage_name(flag: StorageTypeFlag) -> Seq<char> {
    match flag {
        StorageTypeFlag::Table => "Table"@,
        StorageTypeFlag::SparseSet => "SparseSet"@,
    }
}

/// The storage hint that a tree names, where it names one.
pub open spec fn storage_flag_of(m: DynModel) -> Option<StorageTypeFlag> {
    match m {
        DynModel::String(s) => if s == "Table"@ {
            Some(StorageTypeFlag::Table)
        } else if s == "SparseSet"@ {
            Some(StorageTypeFlag::SparseSet)
        } else {
            None
        },
        _ => None,
    }
}

/// The tree of a list of storage hints.
pub open spec fn storage_value(flags: Seq<StorageTypeFlag>) -> DynModel {
    DynModel::Array(Seq::new(flags.len(), |i: int| DynModel::String(storage_name(flags[i]))))
}

/// The list of storage hints that a tree holds, where it is one.
pub open spec fn storage_of(m: DynModel) -> Option<Seq<StorageTypeFlag>> {
    match m {
        DynModel::Array(items) => if forall|i: int|
            0 <= i < items.len() ==> storage_flag_of(#[trigger] items[i]) is Some {
            Some(Seq::new(items.len(), |i: int| storage_flag_of(items[i]).unwrap()))
        } else {
            None
        },
        _ => None,
    }
}

/// The tree of a list of columns.
pub open spec fn columns_value(columns: Seq<Seq<DynModel>>) -> DynModel {
    DynModel::Array(Seq::new(columns.len(), |c: int| DynModel::Array(columns[c])))
}

/// The list of columns that a tree holds, where it is a list of lists.
pub open spec fn columns_of(m: DynModel) -> Option<Seq<Seq<DynModel>>> {
    match m {
        DynModel::Array(items) => if forall|i: int|
            0 <= i < items.len() ==> #[trigger] items[i] is Array {
            Some(Seq::new(items.len(), |i: int| items[i]->Array_0))
        } else {
            None
        },
        _ => None,
    }
}

/// The tree of a list of strings.
pub fn strings_to_value(names: &Vec<String>) -> (r: DynValue)
    ensures
        r@ == strings_value(names.deep_view()),
{
    let mut items: Vec<DynValue> = Vec::new();
    let mut i: usize = 0;
    while i < names.len()
        invariant
            i <= names.len(),
            items@.len() == i,
            forall|k: int| 0 <= k < i ==> (#[trigger] items@[k])@ == DynModel::String(names@[k]@),
        decreases names.len() - i,
    {
        items.push(DynValue::String(names[i].clone()));
        i += 1;
    }
    let r = DynValue::Array(items);
    proof {
        lemma_array_view(r);
        assert(r@->Array_0 =~= strings_value(names.deep_view())->Array_0);
    }
    r
}

/// The list of strings that a tree holds.
pub fn strings_from_value(v: &DynValue) -> (r: Option<Vec<String>>)
    ensures
        match strings_of(v@) {
            Some(names) => r matches Some(x) && x.deep_view() == names,
            None => r is None,
        },
{
    match v {
        DynValue::Array(items) => {
            proof {
                lemma_array_view(*v);
            }
            let mut out: Vec<String> = Vec::new();
            let mut i: usize = 0;
            while i < items.len()
                invariant
                    v@ is Array,
                    v@->Array_0.len() == items@.len(),
                    forall|k: int| 0 <= k < items@.len() ==> (#[trigger] v@->Array_0[k]) == items@[k]@,
                    i <= items.len(),
                    out@.len() == i,
                    forall|k: int| 0 <= k < i ==> (#[trigger] v@->Array_0[k]) is String,
                    forall|k: int| 0 <= k < i ==> (#[trigger] out@[k])@ == v@->Array_0[k]->String_0,
                decreases items.len() - i,
            {
                match &items[i] {
                    DynValue::String(s) => {
                        out.push(s.clone());
                    },
                    _ => {
                        assert(!(v@->Array_0[i as int] is String));
                        return None;
                    },
                }
                i += 1;
            }
            assert(out.deep_view() =~= strings_of(v@).unwrap());
            Some(out)
        },
        _ => None,
    }
}

/// The tree of a list of entity indices.
pub fn ids_to_value(ids: &Vec<u32>) -> (r: DynValue)
    ensures
        r@ == ids_value(ids@),
        ids_of(r@) == Some(ids@),
{
    let mut items: Vec<DynValue> = Vec::new();
    let mut i: usize = 0;
    while i < ids.len()
        invariant
            i <= ids.len(),
            items@.len() == i,
            forall|k: int| 0 <= k < i ==> (#[trigger] items@[k])@ == id_value(ids@[k]),
            forall|k: int| 0 <= k < i ==> id_of((#[trigger] items@[k])@) == Some(ids@[k]),
        decreases ids.len() - i,
    {
        items.push(DynValue::Number(number_from_u64(ids[i] as u64)));
        i += 1;
    }
    let r = DynValue::Array(items);
    proof {
        lemma_array_view(r);
        assert(r@->Array_0 =~= ids_value(ids@)->Array_0);
        assert(ids_of(r@).unwrap() =~= ids@);
    }
    r
}

/// The list of entity indices that a tree holds.
pub fn ids_from_value(v: &DynValue) -> (r: Option<Vec<u32>>)
    ensures
        match ids_of(v@) {
            Some(ids) => r matches Some(x) && x@ == ids,
            None => r is None,
        },
{
    match v {
        DynValue::Array(items) => {
            proof {
                lemma_array_view(*v);
            }
            let mut out: Vec<u32> = Vec::new();
            let mut i: usize = 0;
            while i < items.len()
                invariant
                    v@ is Array,
                    v@->Array_0.len() == items@.len(),
                    forall|k: int| 0 <= k < items@.len() ==> (#[trigger] v@->Array_0[k]) == items@[k]@,
                    i <= items.len(),
                    out@.len() == i,
                    forall|k: int| 0 <= k < i ==> id_of(#[trigger] v@->Array_0[k]) is Some,
                    forall|k: int|
                        0 <= k < i ==> (#[trigger] out@[k]) == id_of(v@->Array_0[k]).unwrap(),
                decreases items.len() - i,
            {
                let id = match &items[i] {
                    DynValue::Number(n) => match number_as_u64(n) {
                        Some(u) => if u <= 0xffff_ffff {
                            Some(u as u32)
                        } else {
                            None
                        },
                        None => None,
                    },
                    _ => None,
                };
                match id {
                    Some(e) => {
                        out.push(e);
                    },
                    None => {
                        assert(id_of(v@->Array_0[i as int]) is None);
                        return None;
                    },
                }
                i += 1;
            }
            assert(out@ =~= ids_of(v@).unwrap());
            Some(out)
        },
        _ => None,
    }
}

/// The tree of a list of storage hints.
pub fn storage_to_value(flags: &Vec<StorageTypeFlag>) -> (r: DynValue)
    ensures
        r@ == storage_value(flags@),
{
    let mut items: Vec<DynValue> = Vec::new();
    let mut i: usize = 0;
    while i < flags.len()
        invariant
            i <= flags.len(),
            items@.len() == i,
            forall|k: int|
                0 <= k < i ==> (#[trigger] items@[k])@ == DynModel::String(storage_name(flags@[k])),
        decreases flags.len() - i,
    {
        let name = match flags[i] {
            StorageTypeFlag::Table => "Table",
            StorageTypeFlag::SparseSet => "SparseSet",
        };
        items.push(DynValue::String(String::from_str(name)));
        i += 1;
    }
    let r = DynValue::Array(items);
    proof {
        lemma_array_view(r);
        assert(r@->Array_0 =~= storage_value(flags@)->Array_0);
    }
    r
}

/// The list of storage hints that a tree holds.
pub fn storage_from_value(v: &DynValue) -> (r: Option<Vec<StorageTypeFlag>>)
    ensures
        match storage_of(v@) {
            Some(flags) => r matches Some(x) && x@ == flags,
            None => r is None,
        },
{
    match v {
        DynValue::Array(items) => {
            proof {
                lemma_array_view(*v);
            }
            let mut out: Vec<StorageTypeFlag> = Vec::new();
            let mut i: usize = 0;
            while i < items.len()
                invariant
                    v@ is Array,
                    v@->Array_0.len() == items@.len(),
                    forall|k: int| 0 <= k < items@.len() ==> (#[trigger] v@->Array_0[k]) == items@[k]@,
                    i <= items.len(),
                    out@.len() == i,
                    forall|k: int| 0 <= k < i ==> storage_flag_of(#[trigger] v@->Array_0[k]) is Some,
                    forall|k: int|
                        0 <= k < i ==> (#[trigger] out@[k]) == storage_flag_of(
                            v@->Array_0[k],
                        ).unwrap(),
                decreases items.len() - i,
            {
                let flag = match &items[i] {
                    DynValue::String(s) => if str_eq(s.as_str(), "Table") {
                        Some(StorageTypeFlag::Table)
                    } else if str_eq(s.as_str(), "SparseSet") {
                        Some(StorageTypeFlag::SparseSet)
                    } else {
                        None
                    },
                    _ => None,
                };
                match flag {
                    Some(f) => {
                        out.push(f);
                    },
                    None => {
                        assert(storage_flag_of(v@->Array_0[i as int]) is None);
                        return None;
                    },
                }
                i += 1;
            }
            assert(out@ =~= storage_of(v@).unwrap());
            Some(out)
        },
        _ => None,
    }
}

/// The tree of a list of columns.
pub fn columns_to_value(columns: &Vec<Vec<DynValue>>) -> (r: DynValue)
    ensures
        r@ == columns_value(columns.deep_view()),
{
    let mut items: Vec<DynValue> = Vec::new();
    let mut c: usize = 0;
    while c < columns.len()
        invariant
            c <= columns.len(),
            items@.len() == c,
            forall|k: int|
                0 <= k < c ==> (#[trigger] items@[k])@ == DynModel::Array(columns@[k].deep_view()),
        decreases columns.len() - c,
    {
        let column = &columns[c];
        let mut cells: Vec<DynValue> = Vec::new();
        let mut r: usize = 0;
        while r < column.len()
            invariant
                r <= column.len(),
                cells@.len() == r,
                forall|k: int| 0 <= k < r ==> (#[trigger] cells@[k])@ == column@[k]@,
            decreases column.len() - r,
        {
            cells.push(column[r].clone());
            r += 1;
        }
        let item = DynValue::Array(cells);
        proof {
            lemma_array_view(item);
            assert(item@->Array_0 =~= column.deep_view());
        }
        items.push(item);
        c += 1;
    }
    let r = DynValue::Array(items);
    proof {
        lemma_array_view(r);
        assert(r@->Array_0 =~= columns_value(columns.deep_view())->Array_0);
    }
    r
}

/// The list of columns that a tree holds.
pub fn columns_from_value(v: &DynValue) -> (r: Option<Vec<Vec<DynValue>>>)
    ensures
        match columns_of(v@) {
            Some(columns) => r matches Some(x) && x.deep_view() == columns,
            None => r is None,
        },
{
    match v {
        DynValue::Array(items) => {
            proof {
                lemma_array_view(*v);
            }
            let mut out: Vec<Vec<DynValue>> = Vec::new();
            let mut i: usize = 0;
            while i < items.len()
                invariant
                    v@ is Array,
                    v@->Array_0.len() == items@.len(),
                    forall|k: int| 0 <= k < items@.len() ==> (#[trigger] v@->Array_0[k]) == items@[k]@,
                    i <= items.len(),
                    out@.len() == i,
                    forall|k: int| 0 <= k < i ==> (#[trigger] v@->Array_0[k]) is Array,
                    forall|k: int|
                        0 <= k < i ==> (#[trigger] out@[k]).deep_view() == v@->Array_0[k]->Array_0,
                decreases items.len() - i,
            {
                match &items[i] {
                    DynValue::Array(cells) => {
                        proof {
                            lemma_array_view(items@[i as int]);
                        }
                        let mut column: Vec<DynValue> = Vec::new();
                        let mut r: usize = 0;
                        while r < cells.len()
                            invariant
                                r <= cells.len(),
                                column@.len() == r,
                                forall|k: int| 0 <= k < r ==> (#[trigger] column@[k])@ == cells@[k]@,
                            decreases cells.len() - r,
                        {
                            column.push(cells[r].clone());
                            r += 1;
                        }
                        assert(column.deep_view() =~= v@->Array_0[i as int]->Array_0);
                        out.push(column);
                    },
                    _ => {
                        assert(!(v@->Array_0[i as int] is Array));
                        return None;
                    },
                }
                i += 1;
            }
            assert(out.deep_view() =~= columns_of(v@).unwrap());
            Some(out)
        },
        _ => None,
    }
}

/// The value of the field `name` of an object, where the tree is an object
/// that has it.
pub open spec fn field_of(m: DynModel, name: Seq<char>) -> Option<DynModel> {
    match m {
        DynModel::Object(fields) => DynModel::lookup(fields, name),
        _ => None,
    }
}

/// The parts of an archetype snapshot in a tree: the fields of those names
/// in an object, or the four items of a list.
pub open spec fn snapshot_parts(v: DynModel) -> Option<(DynModel, DynModel, DynModel, DynModel)> {
    match v {
        DynModel::Object(_) => match (
            field_of(v, "component_types"@),
            field_of(v, "storage_types"@),
            field_of(v, "columns"@),
            field_of(v, "entities"@),
        ) {
            (Some(a), Some(b), Some(c), Some(d)) => Some((a, b, c, d)),
            _ => None,
        },
        DynModel::Array(items) => if items.len() == 4 {
            Some((items[0], items[1], items[2], items[3]))
        } else {
            None
        },
        _ => None,
    }
}

/// The archetype snapshot that a tree holds, where it holds one.
pub open spec fn snapshot_of_value(v: DynModel) -> Option<ArchetypeModel> {
    match snapshot_parts(v) {
        Some((a, b, c, d)) => match (strings_of(a), storage_of(b), columns_of(c), ids_of(d)) {
            (Some(component_types), Some(storage_types), Some(columns), Some(entities)) => Some(
                ArchetypeModel { component_types, storage_types, columns, entities },
            ),
            _ => None,
        },
        None => None,
    }
}

/// The tree of an archetype snapshot, with named fields.
pub open spec fn snapshot_value(m: ArchetypeModel) -> DynModel {
    DynModel::Object(
        seq![
            ("component_types"@, strings_value(m.component_types)),
            ("storage_types"@, storage_value(m.storage_types)),
            ("columns"@, columns_value(m.columns)),
            ("entities"@, ids_value(m.entities)),
        ],
    )
}

/// The tree of an archetype snapshot, as the list of its fields.
pub open spec fn snapshot_tuple(m: ArchetypeModel) -> DynModel {
    DynModel::Array(
        seq![
            strings_value(m.component_types),
            storage_value(m.storage_types),
            columns_value(m.columns),
            ids_value(m.entities),
        ],
    )
}

/// The parts of a columnar table in a tree: the fields of those names in
/// an object, or the three items of a list.
pub open spec fn columnar_parts(v: DynModel) -> Option<(DynModel, DynModel, DynModel)> {
    match v {
        DynModel::Object(_) => match (
            field_of(v, "headers"@),
            field_of(v, "columns"@),
            field_of(v, "row_index"@),
        ) {
            (Some(a), Some(b), Some(c)) => Some((a, b, c)),
            _ => None,
        },
        DynModel::Array(items) => if items.len() == 3 {
            Some((items[0], items[1], items[2]))
        } else {
            None
        },
        _ => None,
    }
}

/// The columnar table that a tree holds, where it holds one.
pub open spec fn columnar_of_value(v: DynModel) -> Option<ColumnarModel> {
    match columnar_parts(v) {
        Some((a, b, c)) => match (strings_of(a), columns_of(b), ids_of(c)) {
            (Some(headers), Some(columns), Some(row_index)) => Some(
                ColumnarModel { headers, columns, row_index },
            ),
            _ => None,
        },
        None => None,
    }
}

/// The tree of a columnar table, as the list of its fields.
pub open spec fn columnar_tuple(m: ColumnarModel) -> DynModel {
    DynModel::Array(
        seq![strings_value(m.headers), columns_value(m.columns), ids_value(m.row_index)],
    )
}

/// The item of a list at an index, and the field of that name of an object.
fn part<'a>(v: &'a DynValue, index: usize, name: &str) -> (r: Option<&'a DynValue>)
    ensures
        match v@ {
            DynModel::Object(fields) => match DynModel::lookup(fields, name@) {
                Some(x) => r matches Some(p) && p@ == x,
                None => r is None,
            },
            DynModel::Array(items) => if index < items.len() {
                r matches Some(p) && p@ == items[index as int]
            } else {
                r is None
            },
            _ => r is None,
        },
{
    match v {
        DynValue::Object(_) => v.get_field(name),
        DynValue::Array(items) => {
            proof {
                lemma_array_view(*v);
            }
            if index < items.len() {
                Some(&items[index])
            } else {
                None
            }
        },
        _ => None,
    }
}

/// The number of items of a list; none for any other tree.
fn list_len(v: &DynValue) -> (r: Option<usize>)
    ensures
        match v@ {
            DynModel::Array(items) => r matches Some(n) && n == items.len(),
            _ => r is None,
        },
{
    match v {
        DynValue::Array(items) => {
            proof {
                lemma_array_view(*v);
            }
            Some(items.len())
        },
        _ => None,
    }
}

impl ArchetypeSnapshot {
    /// The snapshot as a tree with named fields.
    pub fn to_value(&self) -> (r: DynValue)
        ensures
            r@ == snapshot_value(self@),
    {
        let mut fields: Vec<(String, DynValue)> = Vec::new();
        fields.push((String::from_str("component_types"), strings_to_value(&self.component_types)));
        fields.push((String::from_str("storage_types"), storage_to_value(&self.storage_types)));
        fields.push((String::from_str("columns"), columns_to_value(&self.columns)));
        fields.push((String::from_str("entities"), ids_to_value(&self.entities)));
        let r = DynValue::Object(fields);
        proof {
            lemma_object_view(r);
            assert(r@->Object_0 =~= snapshot_value(self@)->Object_0);
        }
        r
    }

    /// The snapshot as a tree that lists its fields in order.
    pub fn to_tuple_value(&self) -> (r: DynValue)
        ensures
            r@ == snapshot_tuple(self@),
    {
        let mut items: Vec<DynValue> = Vec::new();
        items.push(strings_to_value(&self.component_types));
        items.push(storage_to_value(&self.storage_types));
        items.push(columns_to_value(&self.columns));
        items.push(ids_to_value(&self.entities));
        let r = DynValue::Array(items);
        proof {
            lemma_array_view(r);
            assert(r@->Array_0 =~= snapshot_tuple(self@)->Array_0);
        }
        r
    }

    /// Reads a snapshot from a tree: from an object that has its four fields
    /// by name, or from a list of the four.
    pub fn from_value(v: &DynValue) -> (r: Result<ArchetypeSnapshot, String>)
        ensures
            match snapshot_of_value(v@) {
                Some(m) => r matches Ok(s) && s@ == m,
                None => r matches Err(msg) && msg@ == "not an archetype snapshot"@,
            },
    {
        if let Some(n) = list_len(v) {
            if n != 4 {
                return Err(String::from_str("not an archetype snapshot"));
            }
        }
        let a = part(v, 0, "component_types");
        let b = part(v, 1, "storage_types");
        let c = part(v, 2, "columns");
        let d = part(v, 3, "entities");
        match (a, b, c, d) {
            (Some(a), Some(b), Some(c), Some(d)) => {
                assert(snapshot_parts(v@) == Some((a@, b@, c@, d@)));
                match (
                    strings_from_value(a),
                    storage_from_value(b),
                    columns_from_value(c),
                    ids_from_value(d),
                ) {
                    (Some(component_types), Some(storage_types), Some(columns), Some(entities)) => {
                        Ok(ArchetypeSnapshot { component_types, storage_types, columns, entities })
                    },
                    _ => Err(String::from_str("not an archetype snapshot")),
                }
            },
            _ => Err(String::from_str("not an archetype snapshot")),
        }
    }
}

impl ColumnarCsv {
    /// The table as a tree that lists its fields in order.
    pub fn to_tuple_value(&self) -> (r: DynValue)
        ensures
            r@ == columnar_tuple(self@),
    {
        let mut items: Vec<DynValue> = Vec::new();
        items.push(strings_to_value(&self.headers));
        items.push(columns_to_value(&self.columns));
        items.push(ids_to_value(&self.row_index));
        let r = DynValue::Array(items);
        proof {
            lemma_array_view(r);
            assert(r@->Array_0 =~= columnar_tuple(self@)->Array_0);
        }
        r
    }

    /// Reads a table from a tree: from an object that has its three fields
    /// by name, or from a list of the three.
    pub fn from_value(v: &DynValue) -> (r: Result<ColumnarCsv, String>)
        ensures
            match columnar_of_value(v@) {
                Some(m) => r matches Ok(s) && s@ == m,
                None => r matches Err(msg) && msg@ == "not a columnar table"@,
            },
    {
        if let Some(n) = list_len(v) {
            if n != 3 {
                return Err(String::from_str("not a columnar table"));
            }
        }
        let a = part(v, 0, "headers");
        let b = part(v, 1, "columns");
        let c = part(v, 2, "row_index");
        match (a, b, c) {
            (Some(a), Some(b), Some(c)) => {
                assert(columnar_parts(v@) == Some((a@, b@, c@)));
                match (strings_from_value(a), columns_from_value(b), ids_from_value(c)) {
                    (Some(headers), Some(columns), Some(row_index)) => {
                        Ok(ColumnarCsv { headers, columns, row_index })
                    },
                    _ => Err(String::from_str("not a columnar table")),
                }
            },
            _ => Err(String::from_str("not a columnar table")),
        }
    }
}

} // verus!
