//! The archetype snapshot: one archetype of a world as a table of dynamic
//! values, a column for each component type and a row for each entity.

use crate::dyn_value::{DynModel, DynValue};
use crate::entity_ids::{is_strictly_increasing, sorted_unique};
use crate::text::{
    decimal, first_index, is_first_index, lemma_first_index, str_eq, usize_to_decimal,
};
use vstd::prelude::*;
use vstd::string::*;

verus! {

/// How the host stores a component. Advisory only when a snapshot is loaded.
#[derive(Debug, Clone, Copy, PartialEq, Eq, Structural)]
pub enum StorageTypeFlag {
    /// Stored in the archetype's table.
    Table,
    /// Stored in a sparse set.
    SparseSet,
}

impl Default for StorageTypeFlag {
    fn default() -> (r: Self)
        ensures
            r == StorageTypeFlag::Table,
    {
        StorageTypeFlag::Table
    }
}

/// One archetype as a table: `columns[c][r]` is the value that the entity of
/// row `r` has for the component type `component_types[c]`.
#[derive(Debug, Clone, PartialEq)]
pub struct ArchetypeSnapshot {
    /// The column order, which is stable within a snapshot.
    pub component_types: Vec<String>,
    /// The storage hint of each column.
    pub storage_types: Vec<StorageTypeFlag>,
    /// One column for each component type.
    pub columns: Vec<Vec<DynValue>>,
    /// The entity index of each row.
    pub entities: Vec<u32>,
}

/// The mathematical value of an [`ArchetypeSnapshot`].
pub struct ArchetypeModel {
    pub component_types: Seq<Seq<char>>,
    pub storage_types: Seq<StorageTypeFlag>,
    pub columns: Seq<Seq<DynModel>>,
    pub entities: Seq<u32>,
}

impl ArchetypeModel {
    /// There is a column for each component type, and each column has a cell
    /// for each row.
    pub open spec fn columns_aligned(self) -> bool {
        &&& self.columns.len() == self.component_types.len()
        &&& forall|c: int|
            0 <= c < self.columns.len() ==> (#[trigger] self.columns[c]).len()
                == self.entities.len()
    }

    /// The invariant of a snapshot: types, storage hints and columns are
    /// parallel, and each column is as long as the list of entities.
    pub open spec fn wf(self) -> bool {
        &&& self.columns_aligned()
        &&& self.storage_types.len() == self.component_types.len()
    }

    /// Whether column `c` is the first whose length is not the number of rows.
    pub open spec fn is_first_short_column(self, c: int) -> bool {
        &&& 0 <= c < self.columns.len()
        &&& self.columns[c].len() != self.entities.len()
        &&& forall|j: int| 0 <= j < c ==> self.columns[j].len() == self.entities.len()
    }

    /// The message that names the first broken part of the invariant.
    pub open spec fn invariant_error(self) -> Seq<char> {
        if self.columns.len() != self.component_types.len() {
            "Component type count mismatch"@
        } else if exists|c: int| self.is_first_short_column(c) {
            let c = choose|c: int| self.is_first_short_column(c);
            "Column "@ + decimal(c as nat) + " has length "@ + decimal(self.columns[c].len())
                + ", expected "@ + decimal(self.entities.len())
        } else {
            "Storage type count mismatch"@
        }
    }

    /// The row of a table: each component type with its cell.
    pub open spec fn row(self, r: int) -> Seq<(Seq<char>, DynModel)> {
        Seq::new(self.component_types.len(), |c: int| (self.component_types[c], self.columns[c][r]))
    }

    /// The snapshot with one more column, all of whose cells are null.
    pub open spec fn with_type(self, name: Seq<char>, storage: StorageTypeFlag) -> Self {
        ArchetypeModel {
            component_types: self.component_types.push(name),
            storage_types: self.storage_types.push(storage),
            columns: self.columns.push(Seq::new(self.entities.len(), |r: int| DynModel::Null)),
            entities: self.entities,
        }
    }

    /// The snapshot without its column `c`.
    pub open spec fn without_column(self, c: int) -> Self {
        ArchetypeModel {
            component_types: self.component_types.remove(c),
            storage_types: self.storage_types.remove(c),
            columns: self.columns.remove(c),
            entities: self.entities,
        }
    }

    /// The snapshot with the cell of column `c` and row `r` replaced.
    pub open spec fn with_cell(self, c: int, r: int, value: DynModel) -> Self {
        ArchetypeModel { columns: self.columns.update(c, self.columns[c].update(r, value)), ..self }
    }
}

impl View for ArchetypeSnapshot {
    type V = ArchetypeModel;

    open spec fn view(&self) -> ArchetypeModel {
        ArchetypeModel {
            component_types: self.component_types.deep_view(),
            storage_types: self.storage_types@,
            columns: self.columns.deep_view(),
            entities: self.entities@,
        }
    }
}

impl DeepView for ArchetypeSnapshot {
    type V = ArchetypeModel;

    open spec fn deep_view(&self) -> ArchetypeModel {
        self@
    }
}

impl Default for ArchetypeSnapshot {
    fn default() -> (r: Self)
        ensures
            r@.component_types.len() == 0,
            r@.storage_types.len() == 0,
            r@.columns.len() == 0,
            r@.entities.len() == 0,
            r@.wf(),
    {
        ArchetypeSnapshot {
            component_types: Vec::new(),
            storage_types: Vec::new(),
            columns: Vec::new(),
            entities: Vec::new(),
        }
    }
}

/// The least index at which `needle` stands in `names`.
pub fn position_of_name(names: &Vec<String>, needle: &str) -> (r: Option<usize>)
    ensures
        match r {
            Some(i) => is_first_index(names.deep_view(), needle@, i as int),
            None => !names.deep_view().contains(needle@),
        },
{
    let mut i: usize = 0;
    while i < names.len()
        invariant
            i <= names.len(),
            forall|j: int| 0 <= j < i ==> names.deep_view()[j] != needle@,
        decreases names.len() - i,
    {
        if str_eq(names[i].as_str(), needle) {
            return Some(i);
        }
        i += 1;
    }
    None
}

/// The least index at which `needle` stands in `ids`.
pub fn position_of_id(ids: &Vec<u32>, needle: u32) -> (r: Option<usize>)
    ensures
        match r {
            Some(i) => is_first_index(ids@, needle, i as int),
            None => !ids@.contains(needle),
        },
{
    let mut i: usize = 0;
    while i < ids.len()
        invariant
            i <= ids.len(),
            forall|j: int| 0 <= j < i ==> ids@[j] != needle,
        decreases ids.len() - i,
    {
        if ids[i] == needle {
            return Some(i);
        }
        i += 1;
    }
    None
}

impl ArchetypeSnapshot {
    /// Whether the snapshot has no row.
    pub fn is_empty(&self) -> (b: bool)
        ensures
            b == (self@.entities.len() == 0),
    {
        self.entities.len() == 0
    }

    /// The index of the first column of the component type `name`.
    pub fn get_column_index(&self, name: &str) -> (r: Option<usize>)
        ensures
            match r {
                Some(c) => is_first_index(self@.component_types, name@, c as int),
                None => !self@.component_types.contains(name@),
            },
    {
        position_of_name(&self.component_types, name)
    }

    /// Whether the snapshot has a column of the component type `name`.
    pub fn has_component(&self, name: &str) -> (b: bool)
        ensures
            b == self@.component_types.contains(name@),
    {
        self.get_column_index(name).is_some()
    }

    /// The row of the table at index `row`: each component type with its cell.
    pub fn get_row(&self, row: usize) -> (r: Vec<(&str, &DynValue)>)
        requires
            self@.columns_aligned(),
            row < self@.entities.len(),
        ensures
            r.deep_view() == self@.row(row as int),
    {
        let mut out: Vec<(&str, &DynValue)> = Vec::new();
        let mut c: usize = 0;
        while c < self.component_types.len()
            invariant
                self@.columns_aligned(),
                row < self@.entities.len(),
                c <= self.component_types.len(),
                out@.len() == c,
                forall|k: int|
                    0 <= k < c ==> (#[trigger] out@[k]).0@ == self@.component_types[k]
                        && out@[k].1@ == self@.columns[k][row as int],
            decreases self.component_types.len() - c,
        {
            assert(self@.columns[c as int].len() == self@.entities.len());
            out.push((self.component_types[c].as_str(), &self.columns[c][row]));
            c += 1;
        }
        assert(out.deep_view() =~= self@.row(row as int));
        out
    }

    /// The row of the first occurrence of the entity index `entity`.
    pub fn get_entity(&self, entity: u32) -> (r: Option<Vec<(&str, &DynValue)>>)
        requires
            self@.columns_aligned(),
        ensures
            match r {
                Some(cells) => first_index(self@.entities, entity) is Some && cells.deep_view()
                    == self@.row(first_index(self@.entities, entity).unwrap()),
                None => first_index(self@.entities, entity) is None,
            },
    {
        match position_of_id(&self.entities, entity) {
            Some(row) => {
                proof {
                    lemma_first_index(self@.entities, entity, row as int);
                }
                Some(self.get_row(row))
            },
            None => None,
        }
    }

    /// The first column of the component type `name`.
    pub fn get_column(&self, name: &str) -> (r: Option<&Vec<DynValue>>)
        requires
            self@.columns.len() == self@.component_types.len(),
        ensures
            match r {
                Some(col) => first_index(self@.component_types, name@) is Some && col.deep_view()
                    == self@.columns[first_index(self@.component_types, name@).unwrap()],
                None => first_index(self@.component_types, name@) is None,
            },
    {
        match self.get_column_index(name) {
            Some(c) => {
                proof {
                    lemma_first_index(self@.component_types, name@, c as int);
                }
                Some(&self.columns[c])
            },
            None => None,
        }
    }

    /// The entity index of each row.
    pub fn entities(&self) -> (r: &Vec<u32>)
        ensures
            r@ == self@.entities,
    {
        &self.entities
    }

    /// The cell that the first row of the entity index `entity_id` has in the
    /// first column of the component type `name`, to read or to replace.
    pub fn get_mut(&mut self, entity_id: u32, name: &str) -> (r: Option<&mut DynValue>)
        requires
            old(self)@.columns_aligned(),
        ensures
            r is Some <==> first_index(old(self)@.entities, entity_id) is Some && first_index(
                old(self)@.component_types,
                name@,
            ) is Some,
            r is None ==> final(self)@ == old(self)@,
            r matches Some(cell) ==> cell@ == old(self)@.columns[first_index(
                old(self)@.component_types,
                name@,
            ).unwrap()][first_index(old(self)@.entities, entity_id).unwrap()],
            r matches Some(cell) ==> final(self)@.columns =~~= old(self)@.with_cell(
                first_index(old(self)@.component_types, name@).unwrap(),
                first_index(old(self)@.entities, entity_id).unwrap(),
                final(cell)@,
            ).columns,
            final(self)@.component_types == old(self)@.component_types,
            final(self)@.storage_types == old(self)@.storage_types,
            final(self)@.entities == old(self)@.entities,
    {
        let row = match position_of_id(&self.entities, entity_id) {
            Some(row) => row,
            None => {
                return None;
            },
        };
        let c = match position_of_name(&self.component_types, name) {
            Some(c) => c,
            None => {
                return None;
            },
        };
        proof {
            lemma_first_index(self@.entities, entity_id, row as int);
            lemma_first_index(self@.component_types, name@, c as int);
            assert(self@.columns[c as int].len() == self@.entities.len());
        }
        let column = &mut self.columns[c];
        let cell = &mut column[row];
        Some(cell)
    }

    /// The first column of the component type `name`, to read or to replace.
    pub fn get_column_mut(&mut self, name: &str) -> (r: Option<&mut Vec<DynValue>>)
        requires
            old(self)@.columns.len() == old(self)@.component_types.len(),
        ensures
            r is Some <==> first_index(old(self)@.component_types, name@) is Some,
            r is None ==> final(self)@ == old(self)@,
            r matches Some(col) ==> col.deep_view() == old(self)@.columns[first_index(
                old(self)@.component_types,
                name@,
            ).unwrap()],
            r matches Some(col) ==> final(self)@.columns =~~= old(self)@.columns.update(
                first_index(old(self)@.component_types, name@).unwrap(),
                final(col).deep_view(),
            ),
            final(self)@.component_types == old(self)@.component_types,
            final(self)@.storage_types == old(self)@.storage_types,
            final(self)@.entities == old(self)@.entities,
    {
        let c = match position_of_name(&self.component_types, name) {
            Some(c) => c,
            None => {
                return None;
            },
        };
        proof {
            lemma_first_index(self@.component_types, name@, c as int);
        }
        let column = &mut self.columns[c];
        Some(column)
    }

    /// Puts `value` in the cell of row `entity_idx` in the first column of the
    /// component type `name`.
    pub fn insert_component(&mut self, entity_idx: usize, name: &str, value: DynValue) -> (r:
        Result<(), String>)
        requires
            old(self)@.columns_aligned(),
        ensures
            match first_index(old(self)@.component_types, name@) {
                None => r matches Err(msg) && msg@ == "Component '"@ + name@ + "' not found"@
                    && final(self)@ == old(self)@,
                Some(c) => if entity_idx >= old(self)@.entities.len() {
                    r matches Err(msg) && msg@ == "Invalid entity index"@ && final(self)@ == old(self)@
                } else {
                    r is Ok && final(self)@ == old(self)@.with_cell(c, entity_idx as int, value@)
                },
            },
    {
        let c = match position_of_name(&self.component_types, name) {
            Some(c) => c,
            None => {
                let mut msg = String::from_str("Component '");
                msg.append(name);
                msg.append("' not found");
                return Err(msg);
            },
        };
        proof {
            lemma_first_index(self@.component_types, name@, c as int);
            assert(self@.columns[c as int].len() == self@.entities.len());
        }
        if entity_idx >= self.entities.len() {
            return Err(String::from_str("Invalid entity index"));
        }
        let column = &mut self.columns[c];
        column[entity_idx] = value;
        assert(self@.columns =~~= old(self)@.columns.update(
            c as int,
            old(self)@.columns[c as int].update(entity_idx as int, value@),
        ));
        Ok(())
    }

    /// Adds a column of the component type `name`, with a null cell for
    /// each row. Without a storage hint the column is stored in the table.
    pub fn add_type(&mut self, name: &str, storage_type: Option<StorageTypeFlag>)
        ensures
            final(self)@ == old(self)@.with_type(
                name@,
                match storage_type {
                    Some(s) => s,
                    None => StorageTypeFlag::Table,
                },
            ),
            old(self)@.wf() ==> final(self)@.wf(),
    {
        let n = self.entities.len();
        let mut column: Vec<DynValue> = Vec::new();
        let mut r: usize = 0;
        while r < n
            invariant
                r <= n,
                column@.len() == r,
                forall|k: int| 0 <= k < r ==> column@[k]@ is Null,
            decreases n - r,
        {
            column.push(DynValue::Null);
            r += 1;
        }
        assert(column.deep_view() =~= Seq::new(n as nat, |r: int| DynModel::Null));
        let storage = match storage_type {
            Some(s) => s,
            None => StorageTypeFlag::Table,
        };
        self.component_types.push(String::from_str(name));
        self.columns.push(column);
        self.storage_types.push(storage);
        assert(self@.component_types =~= old(self)@.component_types.push(name@));
        assert(self@.columns =~= old(self)@.columns.push(
            Seq::new(n as nat, |r: int| DynModel::Null),
        ));
    }

    /// Removes the first column of the component type `name`, if there
    /// is one.
    pub fn remove_type(&mut self, name: &str)
        requires
            old(self)@.wf(),
        ensures
            final(self)@.wf(),
            final(self)@ == match first_index(old(self)@.component_types, name@) {
                Some(c) => old(self)@.without_column(c),
                None => old(self)@,
            },
    {
        if let Some(index) = self.get_column_index(name) {
            proof {
                lemma_first_index(self@.component_types, name@, index as int);
            }
            self.component_types.remove(index);
            self.columns.remove(index);
            self.storage_types.remove(index);
            assert(self@.component_types =~= old(self)@.component_types.remove(index as int));
            assert(self@.columns =~= old(self)@.columns.remove(index as int));
            assert(self@ == old(self)@.without_column(index as int));
        }
    }

    /// Whether there is a column for each component type and a cell for each
    /// row.
    pub fn is_aligned(&self) -> (b: bool)
        ensures
            b == self@.columns_aligned(),
    {
        if self.columns.len() != self.component_types.len() {
            return false;
        }
        let mut c: usize = 0;
        while c < self.columns.len()
            invariant
                c <= self.columns.len(),
                self@.columns.len() == self@.component_types.len(),
                forall|j: int|
                    0 <= j < c ==> (#[trigger] self@.columns[j]).len() == self@.entities.len(),
            decreases self.columns.len() - c,
        {
            if self.columns[c].len() != self.entities.len() {
                assert(self@.columns[c as int].len() != self@.entities.len());
                return false;
            }
            c += 1;
        }
        true
    }

    /// Checks the invariant of a snapshot, and names the first part of it that
    /// is broken: the number of columns, then the length of each column, then
    /// the number of storage hints.
    pub fn validate_snapshot(snapshot: &ArchetypeSnapshot) -> (r: Result<(), String>)
        ensures
            match r {
                Ok(_) => snapshot@.wf(),
                Err(msg) => !snapshot@.wf() && msg@ == snapshot@.invariant_error(),
            },
    {
        let n_types = snapshot.component_types.len();
        let n_entities = snapshot.entities.len();
        if snapshot.columns.len() != n_types {
            return Err(String::from_str("Component type count mismatch"));
        }
        let mut c: usize = 0;
        while c < snapshot.columns.len()
            invariant
                c <= snapshot.columns.len(),
                n_entities == snapshot@.entities.len(),
                snapshot@.columns.len() == snapshot@.component_types.len(),
                forall|j: int| 0 <= j < c ==> snapshot@.columns[j].len() == n_entities,
            decreases snapshot.columns.len() - c,
        {
            let len = snapshot.columns[c].len();
            if len != n_entities {
                let mut msg = String::from_str("Column ");
                msg.append(usize_to_decimal(c).as_str());
                msg.append(" has length ");
                msg.append(usize_to_decimal(len).as_str());
                msg.append(", expected ");
                msg.append(usize_to_decimal(n_entities).as_str());
                proof {
                    assert(snapshot@.is_first_short_column(c as int));
                    let w = choose|w: int| snapshot@.is_first_short_column(w);
                    assert(w == c);
                    assert(msg@ =~= snapshot@.invariant_error());
                    assert(snapshot@.columns[c as int].len() != snapshot@.entities.len());
                }
                return Err(msg);
            }
            c += 1;
        }
        if snapshot.storage_types.len() != n_types {
            return Err(String::from_str("Storage type count mismatch"));
        }
        Ok(())
    }
}

/// The greatest of the first `n` entity indices, and zero where there is none.
pub open spec fn max_of(ids: Seq<u32>, n: int) -> u32
    decreases n,
{
    if n <= 0 {
        0
    } else if ids[n - 1] > max_of(ids, n - 1) {
        ids[n - 1]
    } else {
        max_of(ids, n - 1)
    }
}

/// The greatest entity index of the rows of the first `n` archetypes, and
/// zero where they have no row.
pub open spec fn max_row_index(archetypes: Seq<ArchetypeModel>, n: int) -> u32
    decreases n,
{
    if n <= 0 {
        0
    } else {
        let here = max_of(archetypes[n - 1].entities, archetypes[n - 1].entities.len() as int);
        if here > max_row_index(archetypes, n - 1) {
            here
        } else {
            max_row_index(archetypes, n - 1)
        }
    }
}

/// The greatest of some entity indices, and zero where there is none.
pub fn max_id(ids: &Vec<u32>) -> (r: u32)
    ensures
        r == max_of(ids@, ids@.len() as int),
{
    let mut here: u32 = 0;
    let mut i: usize = 0;
    while i < ids.len()
        invariant
            i <= ids.len(),
            here == max_of(ids@, i as int),
        decreases ids.len() - i,
    {
        if ids[i] > here {
            here = ids[i];
        }
        i += 1;
    }
    here
}

/// The greatest entity index of the rows of the archetypes: a world that is
/// to take them needs room for one entity more than that.
pub fn max_entity_index(archetypes: &Vec<ArchetypeSnapshot>) -> (r: u32)
    ensures
        r == max_row_index(archetypes.deep_view(), archetypes@.len() as int),
{
    let mut max: u32 = 0;
    let mut a: usize = 0;
    while a < archetypes.len()
        invariant
            a <= archetypes.len(),
            max == max_row_index(archetypes.deep_view(), a as int),
        decreases archetypes.len() - a,
    {
        let ids = &archetypes[a].entities;
        assert(archetypes.deep_view()[a as int].entities == ids@);
        let here = max_id(ids);
        if here > max {
            max = here;
        }
        a += 1;
    }
    max
}

/// The archetypes of a world, and the entity indices that they hold.
#[derive(Debug, Clone, PartialEq)]
pub struct WorldArchSnapshot {
    /// The entity indices of the world, in ascending order.
    pub entities: Vec<u32>,
    pub archetypes: Vec<ArchetypeSnapshot>,
}

/// The mathematical value of a [`WorldArchSnapshot`].
pub struct WorldArchModel {
    pub entities: Seq<u32>,
    pub archetypes: Seq<ArchetypeModel>,
}

/// Whether some archetype has a row of the entity index `e`.
pub open spec fn rows_contain(archetypes: Seq<ArchetypeModel>, e: u32) -> bool {
    exists|a: int| 0 <= a < archetypes.len() && (#[trigger] archetypes[a]).entities.contains(e)
}

impl WorldArchModel {
    /// Whether some archetype has a row of the entity index `e`.
    pub open spec fn has_row_of(self, e: u32) -> bool {
        rows_contain(self.archetypes, e)
    }
}

impl View for WorldArchSnapshot {
    type V = WorldArchModel;

    open spec fn view(&self) -> WorldArchModel {
        WorldArchModel { entities: self.entities@, archetypes: self.archetypes.deep_view() }
    }
}

impl Default for WorldArchSnapshot {
    fn default() -> (r: Self)
        ensures
            r@.entities.len() == 0,
            r@.archetypes.len() == 0,
    {
        WorldArchSnapshot { entities: Vec::new(), archetypes: Vec::new() }
    }
}

/// The entity indices of the rows of all the archetypes, in ascending order,
/// each once.
pub fn union_of_rows(archetypes: &Vec<ArchetypeSnapshot>) -> (out: Vec<u32>)
    ensures
        is_strictly_increasing(out@),
        forall|e: u32| out@.contains(e) <==> rows_contain(archetypes.deep_view(), e),
{
    let ghost model = WorldArchModel {
        entities: Seq::empty(),
        archetypes: archetypes.deep_view(),
    };
    let mut all: Vec<u32> = Vec::new();
    let mut a: usize = 0;
    while a < archetypes.len()
        invariant
            a <= archetypes.len(),
            model.archetypes == archetypes.deep_view(),
            forall|e: u32|
                all@.contains(e) <==> exists|k: int|
                    0 <= k < a && (#[trigger] model.archetypes[k]).entities.contains(e),
        decreases archetypes.len() - a,
    {
        let rows = &archetypes[a].entities;
        let ghost before = all@;
        let mut r: usize = 0;
        while r < rows.len()
            invariant
                r <= rows.len(),
                rows@ == model.archetypes[a as int].entities,
                all@ == before + rows@.take(r as int),
            decreases rows.len() - r,
        {
            all.push(rows[r]);
            r += 1;
            assert(all@ =~= before + rows@.take(r as int));
        }
        proof {
            assert(rows@.take(rows@.len() as int) =~= rows@);
            assert forall|e: u32|
                all@.contains(e) <==> exists|k: int|
                    0 <= k < a + 1 && (#[trigger] model.archetypes[k]).entities.contains(e) by {
                if all@.contains(e) {
                    let i = choose|i: int| 0 <= i < all@.len() && all@[i] == e;
                    if i < before.len() {
                        assert(before[i] == e);
                        assert(before.contains(e));
                    } else {
                        assert(rows@[i - before.len()] == e);
                        assert(model.archetypes[a as int].entities.contains(e));
                    }
                }
                if exists|k: int|
                    0 <= k < a + 1 && (#[trigger] model.archetypes[k]).entities.contains(e) {
                    let k = choose|k: int|
                        0 <= k < a + 1 && (#[trigger] model.archetypes[k]).entities.contains(e);
                    if k < a {
                        assert(before.contains(e));
                        let i = choose|i: int| 0 <= i < before.len() && before[i] == e;
                        assert(all@[i] == e);
                    } else {
                        let i = choose|i: int| 0 <= i < rows@.len() && rows@[i] == e;
                        assert(all@[before.len() + i] == e);
                    }
                }
            }
        }
        a += 1;
    }
    sorted_unique(all)
}

impl WorldArchSnapshot {
    /// The snapshot of the given archetypes: its entities are the entity
    /// indices of their rows, in ascending order, each once.
    pub fn from_archetypes(archetypes: Vec<ArchetypeSnapshot>) -> (r: Self)
        ensures
            r@.archetypes == archetypes.deep_view(),
            is_strictly_increasing(r@.entities),
            forall|e: u32| r@.entities.contains(e) <==> rows_contain(archetypes.deep_view(), e),
    {
        let entities = union_of_rows(&archetypes);
        WorldArchSnapshot { entities, archetypes }
    }

    /// Rebuilds the list of entities from the rows of the archetypes: their
    /// entity indices in ascending order, each once.
    pub fn purge_null(&mut self)
        ensures
            final(self)@.archetypes == old(self)@.archetypes,
            is_strictly_increasing(final(self)@.entities),
            forall|e: u32| final(self)@.entities.contains(e) <==> old(self)@.has_row_of(e),
    {
        let entities = union_of_rows(&self.archetypes);
        self.entities = entities;
    }

    /// How many entity slots a world needs to hold every listed entity: one
    /// more than the last index of the list, and one for an empty list.
    pub fn count_entities(&self) -> (n: u32)
        requires
            self@.entities.len() > 0 ==> self@.entities.last() < u32::MAX,
        ensures
            n == if self@.entities.len() > 0 {
                self@.entities.last() + 1
            } else {
                1
            },
    {
        let len = self.entities.len();
        if len == 0 {
            1
        } else {
            self.entities[len - 1] + 1
        }
    }
}

} // verus!
