//! The entity form of a snapshot: each entity with the list of its
//! components, every component a type name and a dynamic value.

use crate::archetype_archive::{
    ArchetypeModel, ArchetypeSnapshot, StorageTypeFlag, WorldArchSnapshot,
};
use crate::dyn_value::{DynModel, DynValue};
use crate::text::{first_index, names_eq, sort_names, sorted_copy, str_eq};
use vstd::prelude::*;

verus! {

/// One component of an entity: the name of its type and its value.
#[derive(Debug, Clone, PartialEq)]
pub struct ComponentSnapshot {
    /// The name of the component type.
    pub ty: String,
    /// The value; null for a component that carries no data.
    pub value: DynValue,
}

impl DeepView for ComponentSnapshot {
    type V = (Seq<char>, DynModel);

    open spec fn deep_view(&self) -> (Seq<char>, DynModel) {
        (self.ty@, self.value@)
    }
}

impl Default for ComponentSnapshot {
    fn default() -> (r: Self)
        ensures
            r.deep_view() == (Seq::<char>::empty(), DynModel::Null),
    {
        ComponentSnapshot { ty: String::new(), value: DynValue::Null }
    }
}

/// One entity: its index and its components, in their order.
#[derive(Debug, Clone, PartialEq)]
pub struct EntitySnapshot {
    pub id: u64,
    pub components: Vec<ComponentSnapshot>,
}

/// The mathematical value of an [`EntitySnapshot`].
pub struct EntityModel {
    pub id: u64,
    pub components: Seq<(Seq<char>, DynModel)>,
}

impl DeepView for EntitySnapshot {
    type V = EntityModel;

    open spec fn deep_view(&self) -> EntityModel {
        EntityModel { id: self.id, components: self.components.deep_view() }
    }
}

impl Default for EntitySnapshot {
    fn default() -> (r: Self)
        ensures
            r.deep_view() == (EntityModel { id: 0, components: Seq::empty() }),
    {
        let r = EntitySnapshot { id: 0, components: Vec::new() };
        assert(r.components.deep_view() =~= Seq::empty());
        r
    }
}

/// The entities of a world, each with its components.
#[derive(Debug, Clone, PartialEq)]
pub struct WorldSnapshot {
    pub entities: Vec<EntitySnapshot>,
}

impl View for WorldSnapshot {
    type V = Seq<EntityModel>;

    open spec fn view(&self) -> Seq<EntityModel> {
        self.entities.deep_view()
    }
}

/// The entities that have a component, in their order.
pub open spec fn with_components(entities: Seq<EntityModel>) -> Seq<EntityModel>
    decreases entities.len(),
{
    if entities.len() == 0 {
        Seq::empty()
    } else if entities.last().components.len() > 0 {
        with_components(entities.drop_last()).push(entities.last())
    } else {
        with_components(entities.drop_last())
    }
}

impl WorldSnapshot {
    /// Drops the entities that have no component.
    pub fn purge_null(&mut self)
        ensures
            final(self)@ == with_components(old(self)@),
    {
        let mut rest: Vec<EntitySnapshot> = Vec::new();
        std::mem::swap(&mut self.entities, &mut rest);
        let ghost given = rest.deep_view();
        let mut reversed: Vec<EntitySnapshot> = Vec::new();
        while rest.len() > 0
            invariant
                rest@.len() + reversed@.len() == given.len(),
                forall|i: int| 0 <= i < rest@.len() ==> rest@[i].deep_view() == given[i],
                forall|i: int|
                    0 <= i < reversed@.len() ==> reversed@[i].deep_view() == given[given.len() - 1
                        - i],
            decreases rest.len(),
        {
            let e = rest.pop().unwrap();
            reversed.push(e);
        }
        let mut kept: Vec<EntitySnapshot> = Vec::new();
        let ghost mut done: int = 0;
        while reversed.len() > 0
            invariant
                done + reversed@.len() == given.len(),
                0 <= done,
                forall|i: int|
                    0 <= i < reversed@.len() ==> reversed@[i].deep_view() == given[given.len() - 1
                        - i],
                kept.deep_view() == with_components(given.take(done)),
            decreases reversed.len(),
        {
            let e = reversed.pop().unwrap();
            proof {
                assert(e.deep_view() == given[done]);
                assert(given.take(done + 1).drop_last() =~= given.take(done));
                assert(given.take(done + 1).last() == given[done]);
            }
            if e.components.len() > 0 {
                let ghost before = kept.deep_view();
                kept.push(e);
                assert(kept.deep_view() =~= before.push(given[done]));
            }
            proof {
                done = done + 1;
            }
        }
        assert(given.take(given.len() as int) =~= given);
        self.entities = kept;
    }
}

/// The rows of an archetype as entities: each row with the component types
/// and the cells of that row, in column order.
pub open spec fn rows_as_entities(arch: ArchetypeModel) -> Seq<EntityModel> {
    Seq::new(
        arch.entities.len(),
        |r: int| EntityModel { id: arch.entities[r] as u64, components: arch.row(r) },
    )
}

/// The rows of all the archetypes as entities, archetype by archetype.
pub open spec fn all_rows_as_entities(archs: Seq<ArchetypeModel>) -> Seq<EntityModel>
    decreases archs.len(),
{
    if archs.len() == 0 {
        Seq::empty()
    } else {
        all_rows_as_entities(archs.drop_last()) + rows_as_entities(archs.last())
    }
}

/// Turns archetype tables into a list of entities: one entity for each row,
/// with a component for each column.
pub fn convert_to_entity_snapshot(archs: &Vec<ArchetypeSnapshot>) -> (out: Vec<EntitySnapshot>)
    requires
        forall|a: int| 0 <= a < archs@.len() ==> (#[trigger] archs@[a])@.columns_aligned(),
    ensures
        out.deep_view() == all_rows_as_entities(archs.deep_view()),
{
    let mut out: Vec<EntitySnapshot> = Vec::new();
    let mut a: usize = 0;
    assert(out.deep_view() =~= Seq::empty());
    while a < archs.len()
        invariant
            a <= archs.len(),
            forall|a: int| 0 <= a < archs@.len() ==> (#[trigger] archs@[a])@.columns_aligned(),
            out.deep_view() == all_rows_as_entities(archs.deep_view().take(a as int)),
        decreases archs.len() - a,
    {
        let arch = &archs[a];
        let ghost before = out.deep_view();
        let mut row: usize = 0;
        while row < arch.entities.len()
            invariant
                row <= arch.entities.len(),
                arch@.columns_aligned(),
                out.deep_view() == before + rows_as_entities(arch@).take(row as int),
            decreases arch.entities.len() - row,
        {
            let mut components: Vec<ComponentSnapshot> = Vec::new();
            let mut c: usize = 0;
            while c < arch.component_types.len()
                invariant
                    c <= arch.component_types.len(),
                    arch@.columns_aligned(),
                    row < arch.entities.len(),
                    components.deep_view() == arch@.row(row as int).take(c as int),
                decreases arch.component_types.len() - c,
            {
                assert(arch@.columns[c as int].len() == arch@.entities.len());
                let value = arch.columns[c][row].clone();
                let ghost prev = components.deep_view();
                let component = ComponentSnapshot { ty: arch.component_types[c].clone(), value };
                assert(component.deep_view() == arch@.row(row as int)[c as int]);
                components.push(component);
                c += 1;
                assert(components.deep_view() =~= prev.push(arch@.row(row as int)[c - 1]));
                assert(components.deep_view() =~= arch@.row(row as int).take(c as int));
            }
            assert(arch@.row(row as int).take(arch@.component_types.len() as int) =~= arch@.row(
                row as int,
            ));
            let ghost prev_out = out.deep_view();
            let entity = EntitySnapshot { id: arch.entities[row] as u64, components };
            assert(entity.deep_view() == rows_as_entities(arch@)[row as int]);
            out.push(entity);
            row += 1;
            assert(out.deep_view() =~= prev_out.push(rows_as_entities(arch@)[row - 1]));
            assert(out.deep_view() =~= before + rows_as_entities(arch@).take(row as int));
        }
        proof {
            assert(rows_as_entities(arch@).take(arch@.entities.len() as int) =~= rows_as_entities(
                arch@,
            ));
            assert(archs.deep_view().take(a + 1).drop_last() =~= archs.deep_view().take(a as int));
            assert(archs.deep_view().take(a + 1).last() == arch@);
        }
        a += 1;
    }
    assert(archs.deep_view().take(archs@.len() as int) =~= archs.deep_view());
    out
}

/// The names of the component types of an entity, in the order of its
/// components.
pub open spec fn types_of(e: EntityModel) -> Seq<Seq<char>> {
    Seq::new(e.components.len(), |i: int| e.components[i].0)
}

/// The value that an entity has for a component type: that of its first
/// component of the type, and null where it has none.
pub open spec fn value_of(e: EntityModel, ty: Seq<char>) -> DynModel {
    match DynModel::lookup(e.components, ty) {
        Some(v) => v,
        None => DynModel::Null,
    }
}

/// The entity index of an entity: its identifier, cut down to 32 bits.
pub open spec fn index_of_id(id: u64) -> u32 {
    (id % 0x1_0000_0000) as u32
}

/// An archetype of the given component types, stored in the table, without
/// a row.
pub open spec fn empty_archetype(types: Seq<Seq<char>>) -> ArchetypeModel {
    ArchetypeModel {
        component_types: types,
        storage_types: Seq::new(types.len(), |c: int| StorageTypeFlag::Table),
        columns: Seq::new(types.len(), |c: int| Seq::empty()),
        entities: Seq::empty(),
    }
}

/// An archetype with one more row: that of the entity `e`.
pub open spec fn with_row(a: ArchetypeModel, e: EntityModel) -> ArchetypeModel {
    ArchetypeModel {
        columns: Seq::new(
            a.columns.len(),
            |c: int| a.columns[c].push(value_of(e, a.component_types[c])),
        ),
        entities: a.entities.push(index_of_id(e.id)),
        ..a
    }
}

/// The component types of each archetype.
pub open spec fn type_lists(archs: Seq<ArchetypeModel>) -> Seq<Seq<Seq<char>>> {
    Seq::new(archs.len(), |i: int| archs[i].component_types)
}

/// The archetypes with the entity `e` in the one of its component types.
/// The archetype of a set of component types lists them in the order of
/// strings; it is made when the first entity with those types comes.
pub open spec fn place_entity(archs: Seq<ArchetypeModel>, e: EntityModel) -> Seq<ArchetypeModel> {
    let key = sort_names(types_of(e));
    match first_index(type_lists(archs), key) {
        Some(i) => archs.update(i, with_row(archs[i], e)),
        None => archs.push(with_row(empty_archetype(key), e)),
    }
}

/// The archetypes of a list of entities: each entity in the archetype of its
/// component types, the archetypes in the order in which their first entity
/// comes, the rows in the order of the entities.
pub open spec fn group_entities(entities: Seq<EntityModel>) -> Seq<ArchetypeModel>
    decreases entities.len(),
{
    if entities.len() == 0 {
        Seq::empty()
    } else {
        place_entity(group_entities(entities.drop_last()), entities.last())
    }
}

/// The value that a list of components has for a component type.
fn component_value(components: &Vec<ComponentSnapshot>, ty: &str) -> (r: DynValue)
    ensures
        r@ == match DynModel::lookup(components.deep_view(), ty@) {
            Some(v) => v,
            None => DynModel::Null,
        },
{
    let ghost all = components.deep_view();
    let mut i: usize = 0;
    assert(all.skip(0) =~= all);
    while i < components.len()
        invariant
            all == components.deep_view(),
            i <= components.len(),
            DynModel::lookup(all, ty@) == DynModel::lookup(all.skip(i as int), ty@),
        decreases components.len() - i,
    {
        assert(all.skip(i as int)[0] == all[i as int]);
        assert(all[i as int] == components@[i as int].deep_view());
        if str_eq(components[i].ty.as_str(), ty) {
            return components[i].value.clone();
        }
        assert(all.skip(i as int).skip(1) =~= all.skip(i + 1));
        i += 1;
    }
    DynValue::Null
}

/// The first archetype of the given component types.
fn find_types(archs: &Vec<ArchetypeSnapshot>, key: &Vec<String>) -> (r: Option<usize>)
    ensures
        match r {
            Some(i) => crate::text::is_first_index(
                type_lists(archs.deep_view()),
                key.deep_view(),
                i as int,
            ),
            None => !type_lists(archs.deep_view()).contains(key.deep_view()),
        },
{
    let mut a: usize = 0;
    while a < archs.len()
        invariant
            a <= archs.len(),
            forall|j: int| 0 <= j < a ==> type_lists(archs.deep_view())[j] != key.deep_view(),
        decreases archs.len() - a,
    {
        assert(archs.deep_view()[a as int] == archs@[a as int]@);
        if names_eq(&archs[a].component_types, key) {
            return Some(a);
        }
        a += 1;
    }
    None
}

/// Turns a list of entities into archetype tables: the entities with the
/// same component types share a table, whose columns stand in the order of
/// the names of the types.
pub fn convert_to_archetype_snapshot(entities: &Vec<EntitySnapshot>) -> (out: Vec<
    ArchetypeSnapshot,
>)
    ensures
        out.deep_view() == group_entities(entities.deep_view()),
        forall|a: int| 0 <= a < out@.len() ==> (#[trigger] out@[a])@.wf(),
{
    let mut out: Vec<ArchetypeSnapshot> = Vec::new();
    let ghost all = entities.deep_view();
    let mut k: usize = 0;
    assert(all.take(0) =~= Seq::empty());
    assert(out.deep_view() =~= Seq::empty());
    while k < entities.len()
        invariant
            all == entities.deep_view(),
            k <= entities.len(),
            out.deep_view() == group_entities(all.take(k as int)),
            forall|a: int| 0 <= a < out@.len() ==> (#[trigger] out@[a])@.wf(),
        decreases entities.len() - k,
    {
        let ent = &entities[k];
        let ghost e = ent.deep_view();
        let ghost archs = out.deep_view();
        proof {
            assert(all.take(k + 1).drop_last() =~= all.take(k as int));
            assert(all.take(k + 1).last() == e);
        }
        let mut names: Vec<String> = Vec::new();
        let mut c: usize = 0;
        while c < ent.components.len()
            invariant
                c <= ent.components.len(),
                names@.len() == c,
                forall|j: int| 0 <= j < c ==> (#[trigger] names@[j])@ == ent.components@[j].ty@,
            decreases ent.components.len() - c,
        {
            names.push(ent.components[c].ty.clone());
            c += 1;
        }
        assert(names.deep_view() =~= types_of(e));
        let key = sorted_copy(&names);
        let found = find_types(&out, &key);
        let (index, mut arch) = match found {
            Some(i) => {
                proof {
                    crate::text::lemma_first_index(type_lists(archs), key.deep_view(), i as int);
                }
                (i, out.remove(i))
            },
            None => {
                let mut fresh = ArchetypeSnapshot::default();
                let mut t: usize = 0;
                assert(fresh@.component_types =~= key.deep_view().take(0));
                while t < key.len()
                    invariant
                        t <= key.len(),
                        fresh@.wf(),
                        fresh@.entities.len() == 0,
                        fresh@.component_types == key.deep_view().take(t as int),
                        fresh@.storage_types.len() == t,
                        forall|j: int| 0 <= j < t ==> fresh@.storage_types[j] == StorageTypeFlag::Table,
                        fresh@.columns.len() == t,
                        forall|j: int| 0 <= j < t ==> (#[trigger] fresh@.columns[j]).len() == 0,
                    decreases key.len() - t,
                {
                    fresh.add_type(key[t].as_str(), None);
                    assert(fresh@.component_types =~= key.deep_view().take(t + 1)) by {
                        assert(key.deep_view()[t as int] == key@[t as int]@);
                    }
                    t += 1;
                }
                proof {
                    assert(key.deep_view().take(key@.len() as int) =~= key.deep_view());
                    assert(fresh@.storage_types =~= empty_archetype(key.deep_view()).storage_types);
                    assert(fresh@.columns =~~= empty_archetype(key.deep_view()).columns);
                    assert(fresh@.entities =~= empty_archetype(key.deep_view()).entities);
                }
                (out.len(), fresh)
            },
        };
        let ghost base = arch@;
        arch.entities.push((ent.id % 0x1_0000_0000) as u32);
        let mut c: usize = 0;
        while c < arch.columns.len()
            invariant
                base.wf(),
                e == ent.deep_view(),
                c <= arch.columns.len(),
                arch@.component_types == base.component_types,
                arch@.storage_types == base.storage_types,
                arch@.entities == base.entities.push(index_of_id(e.id)),
                arch@.columns.len() == base.columns.len(),
                forall|j: int|
                    0 <= j < c ==> (#[trigger] arch@.columns[j]) == base.columns[j].push(
                        value_of(e, base.component_types[j]),
                    ),
                forall|j: int|
                    c <= j < arch@.columns.len() ==> (#[trigger] arch@.columns[j]) == base.columns[j],
            decreases arch.columns.len() - c,
        {
            assert(arch@.component_types[c as int] == arch.component_types@[c as int]@);
            let value = component_value(&ent.components, arch.component_types[c].as_str());
            let ghost before = arch@.columns;
            let column = &mut arch.columns[c];
            column.push(value);
            proof {
                assert(arch@.columns[c as int] =~= before[c as int].push(value@));
                assert forall|j: int| 0 <= j < arch@.columns.len() && j != c implies (
                #[trigger] arch@.columns[j]) == before[j] by {}
            }
            c += 1;
        }
        proof {
            assert(arch@.columns =~= with_row(base, e).columns);
            assert(arch@ == with_row(base, e));
            assert(base.columns_aligned());
            assert forall|j: int| 0 <= j < arch@.columns.len() implies (
            #[trigger] arch@.columns[j]).len() == arch@.entities.len() by {
                assert(base.columns[j].len() == base.entities.len());
            }
        }
        let ghost rest = out.deep_view();
        out.insert(index, arch);
        proof {
            match found {
                Some(i) => {
                    assert(rest =~= archs.remove(i as int));
                    assert(out.deep_view() =~= archs.update(i as int, with_row(base, e)));
                },
                None => {
                    assert(out.deep_view() =~= archs.push(with_row(base, e)));
                },
            }
        }
        k += 1;
    }
    assert(all.take(all.len() as int) =~= all);
    out
}

impl WorldSnapshot {
    /// The entity form of a snapshot of archetypes: an entity for each row.
    pub fn from_arch(snapshot: &WorldArchSnapshot) -> (r: Self)
        requires
            forall|a: int|
                0 <= a < snapshot@.archetypes.len() ==> (
                #[trigger] snapshot@.archetypes[a]).columns_aligned(),
        ensures
            r@ == all_rows_as_entities(snapshot@.archetypes),
    {
        proof {
            assert forall|a: int| 0 <= a < snapshot.archetypes@.len() implies (
            #[trigger] snapshot.archetypes@[a])@.columns_aligned() by {
                assert(snapshot@.archetypes[a] == snapshot.archetypes@[a]@);
            }
        }
        WorldSnapshot { entities: convert_to_entity_snapshot(&snapshot.archetypes) }
    }

    /// The archetype form of a snapshot of entities: the entity index of each
    /// entity, in their order, and the entities gathered by component types.
    pub fn to_arch(&self) -> (r: WorldArchSnapshot)
        ensures
            r@.archetypes == group_entities(self@),
            r@.entities == Seq::new(self@.len(), |i: int| index_of_id(self@[i].id)),
    {
        let mut entities: Vec<u32> = Vec::new();
        let mut i: usize = 0;
        while i < self.entities.len()
            invariant
                i <= self.entities.len(),
                entities@.len() == i,
                forall|k: int| 0 <= k < i ==> entities@[k] == index_of_id(self.entities@[k].id),
            decreases self.entities.len() - i,
        {
            entities.push((self.entities[i].id % 0x1_0000_0000) as u32);
            i += 1;
        }
        let archetypes = convert_to_archetype_snapshot(&self.entities);
        let r = WorldArchSnapshot { entities, archetypes };
        assert(r@.entities =~= Seq::new(self@.len(), |i: int| index_of_id(self@[i].id)));
        r
    }
}

} // verus!
