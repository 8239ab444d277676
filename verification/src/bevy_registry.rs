//! The type registry: which component and resource types a world can save
//! and load, each under a short name, with the handles of its codec. Beside
//! it stand the builder that gathers the components of one entity, and the
//! map from the entity indices of a snapshot to the entities of a world.

use crate::archetype_archive::ArchetypeSnapshot;
use crate::name_map::NameMap;
use crate::text::{last_path_segment, path_sep_at};
use std::collections::HashMap;
use vstd::prelude::*;

verus! {

broadcast use vstd::std_specs::hash::group_hash_axioms;

/// The short name of a type: the last segment of its path.
pub fn short_type_name(path: &str) -> (r: String)
    ensures
        (forall|i: int| !path_sep_at(path@, i)) ==> r@ == path@,
        (exists|i: int| path_sep_at(path@, i)) ==> exists|i: int|
            {
                &&& #[trigger] path_sep_at(path@, i)
                &&& forall|j: int| i < j ==> !path_sep_at(path@, j)
                &&& r@ == path@.skip(i + 2)
            },
{
    last_path_segment(path)
}

/// How a component type is saved and loaded.
#[derive(Debug, Clone, Copy, PartialEq, Eq, Structural)]
pub enum SnapshotMode {
    /// The value is saved; the loaded component replaces one that the entity
    /// has.
    Full,
    /// The value is saved; the loaded component is dropped where the entity
    /// has one already.
    EmplaceIfNotExists,
    /// Nothing but the presence of the component is saved: its cell is null,
    /// and a load puts the default value of the type in its place.
    Placeholder,
    /// As a placeholder, but an entity that has the component keeps it.
    PlaceholderEmplaceIfNotExists,
}

/// What a load does with one cell.
#[derive(Debug, Clone, Copy, PartialEq, Eq, Structural)]
pub enum LoadAction {
    /// Build the component from the cell and insert it.
    Insert,
    /// Insert the default value of the type.
    InsertDefault,
    /// Leave the entity as it is.
    Skip,
}

impl SnapshotMode {
    /// Whether the value of a component is saved.
    pub open spec fn carries_data(self) -> bool {
        self == SnapshotMode::Full || self == SnapshotMode::EmplaceIfNotExists
    }

    /// Whether a load replaces a component that the entity has.
    pub open spec fn overwrites(self) -> bool {
        self == SnapshotMode::Full || self == SnapshotMode::Placeholder
    }

    /// What a load does with a cell of a component type of this mode, for an
    /// entity that has a component of the type already or not.
    pub fn load_action(self, present: bool) -> (r: LoadAction)
        ensures
            r == if present && !self.overwrites() {
                LoadAction::Skip
            } else if self.carries_data() {
                LoadAction::Insert
            } else {
                LoadAction::InsertDefault
            },
    {
        match self {
            SnapshotMode::Full => LoadAction::Insert,
            SnapshotMode::Placeholder => LoadAction::InsertDefault,
            SnapshotMode::EmplaceIfNotExists => if present {
                LoadAction::Skip
            } else {
                LoadAction::Insert
            },
            SnapshotMode::PlaceholderEmplaceIfNotExists => if present {
                LoadAction::Skip
            } else {
                LoadAction::InsertDefault
            },
        }
    }

    /// The cell that is saved for a component of this mode: its value, and
    /// null where nothing but its presence is saved.
    pub fn saved_cell(self, value: crate::dyn_value::DynValue) -> (r: crate::dyn_value::DynValue)
        ensures
            r@ == if self.carries_data() {
                value@
            } else {
                crate::dyn_value::DynModel::Null
            },
    {
        match self {
            SnapshotMode::Full => value,
            SnapshotMode::EmplaceIfNotExists => value,
            _ => crate::dyn_value::DynValue::Null,
        }
    }
}

impl Default for SnapshotMode {
    fn default() -> (r: Self)
        ensures
            r == SnapshotMode::Full,
    {
        SnapshotMode::Full
    }
}

/// The registry entry of a type: the handles of its codec functions and how
/// it is loaded. The functions themselves stay with the host.
#[derive(Debug, Clone, Copy, PartialEq, Eq, Structural)]
pub struct SnapshotFactory {
    /// The handle of the dynamic-value codec.
    pub js_value: usize,
    /// The handle of the columnar codec, for a type that has one.
    pub arrow: Option<usize>,
    pub mode: SnapshotMode,
}

impl SnapshotFactory {
    /// An entry that is loaded in full.
    pub fn new(js_value: usize, arrow: Option<usize>) -> (r: Self)
        ensures
            r == (SnapshotFactory { js_value, arrow, mode: SnapshotMode::Full }),
    {
        SnapshotFactory { js_value, arrow, mode: SnapshotMode::Full }
    }

    /// The same entry, loaded in the given mode.
    pub fn with_mode(self, mode: SnapshotMode) -> (r: Self)
        ensures
            r == (SnapshotFactory { mode, ..self }),
    {
        SnapshotFactory { mode, ..self }
    }
}

/// To combine two registries.
pub trait SnapshotMerge {
    /// Whether the registry is well formed.
    spec fn merge_wf(&self) -> bool;

    /// What the registry has under `name`: the key of the type, the entry of
    /// the component type and the entry of the resource type.
    spec fn merged_view(&self, name: Seq<char>) -> (
        Option<u64>,
        Option<SnapshotFactory>,
        Option<SnapshotFactory>,
    );

    /// Takes over the entries of `other` under names that are new here.
    fn merge_only_new(&mut self, other: &Self)
        requires
            old(self).merge_wf(),
            other.merge_wf(),
        ensures
            final(self).merge_wf(),
            forall|name: Seq<char>|
                #![auto]
                final(self).merged_view(name) == (
                    if old(self).merged_view(name).0 is Some {
                        old(self).merged_view(name).0
                    } else {
                        other.merged_view(name).0
                    },
                    if old(self).merged_view(name).1 is Some {
                        old(self).merged_view(name).1
                    } else {
                        other.merged_view(name).1
                    },
                    if old(self).merged_view(name).2 is Some {
                        old(self).merged_view(name).2
                    } else {
                        other.merged_view(name).2
                    },
                ),
    ;

    /// Takes over every entry of `other`: what `other` has replaces what is
    /// here under the same name.
    fn merge(&mut self, other: &Self)
        requires
            old(self).merge_wf(),
            other.merge_wf(),
        ensures
            final(self).merge_wf(),
            forall|name: Seq<char>|
                #![auto]
                final(self).merged_view(name) == (
                    if other.merged_view(name).0 is Some {
                        other.merged_view(name).0
                    } else {
                        old(self).merged_view(name).0
                    },
                    if other.merged_view(name).1 is Some {
                        other.merged_view(name).1
                    } else {
                        old(self).merged_view(name).1
                    },
                    if other.merged_view(name).2 is Some {
                        other.merged_view(name).2
                    } else {
                        old(self).merged_view(name).2
                    },
                ),
    ;
}

/// The registry of the types that can be saved and loaded.
#[derive(Debug)]
pub struct SnapshotRegistry {
    /// The key of each registered component type, by name.
    pub type_registry: NameMap<u64>,
    /// The entry of each registered component type, by name.
    pub entries: NameMap<SnapshotFactory>,
    /// The entry of each registered resource type, by name.
    pub resource_entries: NameMap<SnapshotFactory>,
}

impl Default for SnapshotRegistry {
    fn default() -> (r: Self)
        ensures
            r.wf(),
            forall|name: Seq<char>| r.entries.lookup(name) is None,
            forall|name: Seq<char>| r.resource_entries.lookup(name) is None,
            forall|name: Seq<char>| r.type_registry.lookup(name) is None,
    {
        SnapshotRegistry {
            type_registry: NameMap::new(),
            entries: NameMap::new(),
            resource_entries: NameMap::new(),
        }
    }
}

impl SnapshotRegistry {
    /// Each of the three tables is well formed.
    pub open spec fn wf(&self) -> bool {
        &&& self.type_registry.wf()
        &&& self.entries.wf()
        &&& self.resource_entries.wf()
    }

    /// Registers a component type under `name`, to be loaded in full. An
    /// earlier registration under that name is overwritten.
    pub fn register_named(&mut self, name: &str, type_key: u64, js_value: usize, arrow: Option<usize>)
        requires
            old(self).wf(),
        ensures
            final(self).wf(),
            final(self).entries.lookup(name@) == Some(
                SnapshotFactory { js_value, arrow, mode: SnapshotMode::Full },
            ),
            final(self).type_registry.lookup(name@) == Some(type_key),
            forall|other: Seq<char>|
                other != name@ ==> final(self).entries.lookup(other) == old(self).entries.lookup(
                    other,
                ) && final(self).type_registry.lookup(other) == old(self).type_registry.lookup(
                    other,
                ),
            final(self).resource_entries == old(self).resource_entries,
    {
        self.register_with_name_mode(name, type_key, js_value, arrow, SnapshotMode::Full);
    }

    /// Registers a component type under `name`, to be loaded in the given
    /// mode. An earlier registration under that name is overwritten.
    pub fn register_with_name_mode(
        &mut self,
        name: &str,
        type_key: u64,
        js_value: usize,
        arrow: Option<usize>,
        mode: SnapshotMode,
    )
        requires
            old(self).wf(),
        ensures
            final(self).wf(),
            final(self).entries.lookup(name@) == Some(SnapshotFactory { js_value, arrow, mode }),
            final(self).type_registry.lookup(name@) == Some(type_key),
            forall|other: Seq<char>|
                other != name@ ==> final(self).entries.lookup(other) == old(self).entries.lookup(
                    other,
                ) && final(self).type_registry.lookup(other) == old(self).type_registry.lookup(
                    other,
                ),
            final(self).resource_entries == old(self).resource_entries,
    {
        self.type_registry.insert(String::from_str(name), type_key);
        self.entries.insert(String::from_str(name), SnapshotFactory { js_value, arrow, mode });
    }

    /// Registers a resource type under `name`. Resources have a table of
    /// their own; an earlier registration under that name is overwritten.
    pub fn resource_register(&mut self, name: &str, js_value: usize)
        requires
            old(self).wf(),
        ensures
            final(self).wf(),
            final(self).resource_entries.lookup(name@) == Some(
                SnapshotFactory { js_value, arrow: None, mode: SnapshotMode::Full },
            ),
            forall|other: Seq<char>|
                other != name@ ==> final(self).resource_entries.lookup(other) == old(self).resource_entries.lookup(other),
            final(self).entries == old(self).entries,
            final(self).type_registry == old(self).type_registry,
    {
        self.resource_entries.insert(
            String::from_str(name),
            SnapshotFactory { js_value, arrow: None, mode: SnapshotMode::Full },
        );
    }

    /// The entry of the component type registered under `name`.
    pub fn get_factory(&self, name: &str) -> (r: Option<&SnapshotFactory>)
        requires
            self.wf(),
        ensures
            match r {
                Some(f) => self.entries.lookup(name@) == Some(*f),
                None => self.entries.lookup(name@) is None,
            },
    {
        self.entries.get(name)
    }

    /// The entry of the resource type registered under `name`.
    pub fn get_res_factory(&self, name: &str) -> (r: Option<&SnapshotFactory>)
        requires
            self.wf(),
        ensures
            match r {
                Some(f) => self.resource_entries.lookup(name@) == Some(*f),
                None => self.resource_entries.lookup(name@) is None,
            },
    {
        self.resource_entries.get(name)
    }

    /// The columns of `types` that can be loaded: those whose component type
    /// is registered, in column order, each with its entry.
    pub open spec fn loadable(&self, types: Seq<Seq<char>>, n: int) -> Seq<(int, SnapshotFactory)>
        decreases n,
    {
        if n <= 0 {
            Seq::empty()
        } else {
            match self.entries.lookup(types[n - 1]) {
                Some(f) => self.loadable(types, n - 1).push((n - 1, f)),
                None => self.loadable(types, n - 1),
            }
        }
    }

    /// The columns of an archetype that this registry can load: those whose
    /// component type is registered, in column order, each with its entry. A
    /// column of any other type is passed over.
    pub fn loadable_columns(&self, arch: &ArchetypeSnapshot) -> (r: Vec<(usize, SnapshotFactory)>)
        requires
            self.wf(),
        ensures
            r@.len() == self.loadable(
                arch@.component_types,
                arch@.component_types.len() as int,
            ).len(),
            forall|k: int|
                0 <= k < r@.len() ==> ((#[trigger] r@[k]).0 as int, r@[k].1) == self.loadable(
                    arch@.component_types,
                    arch@.component_types.len() as int,
                )[k],
    {
        let mut out: Vec<(usize, SnapshotFactory)> = Vec::new();
        let mut c: usize = 0;
        while c < arch.component_types.len()
            invariant
                self.wf(),
                c <= arch.component_types.len(),
                out@.len() == self.loadable(arch@.component_types, c as int).len(),
                forall|k: int|
                    0 <= k < out@.len() ==> ((#[trigger] out@[k]).0 as int, out@[k].1)
                        == self.loadable(arch@.component_types, c as int)[k],
            decreases arch.component_types.len() - c,
        {
            assert(arch@.component_types[c as int] == arch.component_types@[c as int]@);
            match self.entries.get(arch.component_types[c].as_str()) {
                Some(f) => {
                    out.push((c, *f));
                },
                None => {},
            }
            c += 1;
        }
        out
    }
}

impl SnapshotMerge for SnapshotRegistry {
    open spec fn merge_wf(&self) -> bool {
        self.wf()
    }

    open spec fn merged_view(&self, name: Seq<char>) -> (
        Option<u64>,
        Option<SnapshotFactory>,
        Option<SnapshotFactory>,
    ) {
        (
            self.type_registry.lookup(name),
            self.entries.lookup(name),
            self.resource_entries.lookup(name),
        )
    }

    fn merge_only_new(&mut self, other: &Self) {
        self.type_registry.merge_only_new(&other.type_registry);
        self.entries.merge_only_new(&other.entries);
        self.resource_entries.merge_only_new(&other.resource_entries);
        proof {
            assert forall|name: Seq<char>|
                #![auto]
                self.merged_view(name) == (
                    if old(self).merged_view(name).0 is Some {
                        old(self).merged_view(name).0
                    } else {
                        other.merged_view(name).0
                    },
                    if old(self).merged_view(name).1 is Some {
                        old(self).merged_view(name).1
                    } else {
                        other.merged_view(name).1
                    },
                    if old(self).merged_view(name).2 is Some {
                        old(self).merged_view(name).2
                    } else {
                        other.merged_view(name).2
                    },
                ) by {
                old(self).type_registry.lemma_lookup_some(name);
                old(self).entries.lemma_lookup_some(name);
                old(self).resource_entries.lemma_lookup_some(name);
            }
        }
    }

    fn merge(&mut self, other: &Self) {
        self.type_registry.merge(&other.type_registry);
        self.entries.merge(&other.entries);
        self.resource_entries.merge(&other.resource_entries);
        proof {
            assert forall|name: Seq<char>|
                #![auto]
                self.merged_view(name) == (
                    if other.merged_view(name).0 is Some {
                        other.merged_view(name).0
                    } else {
                        old(self).merged_view(name).0
                    },
                    if other.merged_view(name).1 is Some {
                        other.merged_view(name).1
                    } else {
                        old(self).merged_view(name).1
                    },
                    if other.merged_view(name).2 is Some {
                        other.merged_view(name).2
                    } else {
                        old(self).merged_view(name).2
                    },
                ) by {
                other.type_registry.lemma_lookup_some(name);
                other.entries.lemma_lookup_some(name);
                other.resource_entries.lemma_lookup_some(name);
            }
        }
    }
}

/// The components gathered for one entity, to be inserted in one move.
#[derive(Debug)]
pub struct DeferredEntityBuilder {
    entity: u64,
    ids: Vec<usize>,
    ptrs: Vec<usize>,
}

/// The mathematical value of a [`DeferredEntityBuilder`].
pub struct BuilderModel {
    pub entity: u64,
    /// The component types gathered, in the order in which they came.
    pub ids: Seq<usize>,
    /// The payload of each of them.
    pub ptrs: Seq<usize>,
}

impl BuilderModel {
    /// There is a payload for each component type, and no type stands twice.
    pub open spec fn wf(self) -> bool {
        &&& self.ids.len() == self.ptrs.len()
        &&& self.ids.no_duplicates()
    }

    /// The index at which the component type `id` stands.
    pub open spec fn position(self, id: usize) -> Option<int> {
        if self.ids.contains(id) {
            Some(self.ids.index_of(id))
        } else {
            None
        }
    }

    /// The state after the payload `ptr` is put under the component type `id`.
    pub open spec fn with(self, id: usize, ptr: usize) -> Self {
        match self.position(id) {
            Some(i) => BuilderModel { ptrs: self.ptrs.update(i, ptr), ..self },
            None => BuilderModel { ids: self.ids.push(id), ptrs: self.ptrs.push(ptr), ..self },
        }
    }
}

impl View for DeferredEntityBuilder {
    type V = BuilderModel;

    closed spec fn view(&self) -> BuilderModel {
        BuilderModel { entity: self.entity, ids: self.ids@, ptrs: self.ptrs@ }
    }
}

impl DeferredEntityBuilder {
    /// A builder for `entity` that has gathered nothing yet.
    pub fn new(entity: u64) -> (r: Self)
        ensures
            r@.wf(),
            r@ == (BuilderModel { entity, ids: Seq::empty(), ptrs: Seq::empty() }),
    {
        DeferredEntityBuilder { entity, ids: Vec::new(), ptrs: Vec::new() }
    }

    /// Puts the payload `ptr` under the component type `id`. Where the builder
    /// has a payload of that type already, the new one takes its place and
    /// the old one is handed back for the caller to destroy.
    pub fn insert_by_id(&mut self, id: usize, ptr: usize) -> (replaced: Option<usize>)
        requires
            old(self)@.wf(),
        ensures
            final(self)@.wf(),
            final(self)@ == old(self)@.with(id, ptr),
            replaced == match old(self)@.position(id) {
                Some(i) => Some(old(self)@.ptrs[i]),
                None => None,
            },
    {
        let mut i: usize = 0;
        while i < self.ids.len()
            invariant
                self@ == old(self)@,
                self@.wf(),
                i <= self.ids.len(),
                forall|j: int| 0 <= j < i ==> self.ids@[j] != id,
            decreases self.ids.len() - i,
        {
            if self.ids[i] == id {
                let old_ptr = self.ptrs[i];
                self.ptrs[i] = ptr;
                proof {
                    let w = old(self)@.ids.index_of(id);
                    assert(old(self)@.ids[i as int] == id);
                    assert(old(self)@.ids.contains(id));
                    assert(w == i);
                    assert(self@.ptrs =~= old(self)@.ptrs.update(i as int, ptr));
                }
                return Some(old_ptr);
            }
            i += 1;
        }
        self.ids.push(id);
        self.ptrs.push(ptr);
        proof {
            let before = old(self)@.ids;
            assert forall|a: int, b: int|
                0 <= a < self@.ids.len() && 0 <= b < self@.ids.len() && a != b implies self@.ids[a]
                != self@.ids[b] by {
                if a < before.len() && b < before.len() {
                    assert(before[a] != before[b]);
                }
            }
        }
        None
    }

    /// Puts the payload `ptr` under the component type `id`, unless the entity
    /// has a component of that type in the world already: then the builder
    /// stays as it is and the payload is handed back for the caller to
    /// destroy.
    pub fn insert_if_new_by_id(&mut self, id: usize, ptr: usize, present: bool) -> (rejected:
        Option<usize>)
        requires
            old(self)@.wf(),
        ensures
            final(self)@.wf(),
            final(self)@ == if present {
                old(self)@
            } else {
                old(self)@.with(id, ptr)
            },
            rejected == if present {
                Some(ptr)
            } else {
                match old(self)@.position(id) {
                    Some(i) => Some(old(self)@.ptrs[i]),
                    None => None,
                }
            },
    {
        if present {
            return Some(ptr);
        }
        self.insert_by_id(id, ptr)
    }

    /// Ends the gathering: the entity, the component types and their
    /// payloads, to be inserted in one move.
    pub fn commit(self) -> (r: (u64, Vec<usize>, Vec<usize>))
        requires
            self@.wf(),
        ensures
            r.0 == self@.entity,
            r.1@ == self@.ids,
            r.2@ == self@.ptrs,
            r.1@.no_duplicates(),
            r.1@.len() == r.2@.len(),
    {
        (self.entity, self.ids, self.ptrs)
    }
}

/// Says which entity of the world stands for an entity index of a snapshot.
pub trait EntityRemapper {
    /// The entity that stands for `old_index`.
    spec fn target(&self, old_index: u32) -> u64;

    /// The entity that stands for `old_index`.
    fn map(&self, old_index: u32) -> (r: u64)
        ensures
            r == self.target(old_index),
    ;
}

/// A map from the entity indices of a snapshot to the entities of a world,
/// given by the caller. An index that it lacks goes to the placeholder.
#[derive(Debug)]
pub struct EntityMap {
    targets: HashMap<u32, u64>,
    placeholder: u64,
}

impl EntityMap {
    /// The entities given for the indices.
    pub closed spec fn targets(&self) -> Map<u32, u64> {
        self.targets@
    }

    /// The entity that stands for every index without one.
    pub closed spec fn placeholder(&self) -> u64 {
        self.placeholder
    }

    /// A map without entries, with the entity that is to stand for every
    /// index without one.
    pub fn new(placeholder: u64) -> (r: Self)
        ensures
            r.targets() == Map::<u32, u64>::empty(),
            r.placeholder() == placeholder,
    {
        EntityMap { targets: HashMap::new(), placeholder }
    }

    /// Lets `entity` stand for `old_index`.
    pub fn insert(&mut self, old_index: u32, entity: u64)
        ensures
            final(self).targets() == old(self).targets().insert(old_index, entity),
            final(self).placeholder() == old(self).placeholder(),
    {
        self.targets.insert(old_index, entity);
    }

    /// Lets `entities[i]` stand for `indices[i]`, for each `i`. Of two rows
    /// with one index the later one stands.
    pub fn from_rows(indices: &Vec<u32>, entities: &Vec<u64>, placeholder: u64) -> (r: Self)
        requires
            indices@.len() == entities@.len(),
        ensures
            r.placeholder() == placeholder,
            forall|e: u32| r.targets().contains_key(e) <==> indices@.contains(e),
            forall|i: int|
                0 <= i < indices@.len() && (forall|j: int|
                    i < j < indices@.len() ==> indices@[j] != indices@[i])
                    ==> r.targets()[#[trigger] indices@[i]] == entities@[i],
    {
        let mut r = EntityMap::new(placeholder);
        let mut k: usize = 0;
        while k < indices.len()
            invariant
                k <= indices.len(),
                indices@.len() == entities@.len(),
                r.placeholder() == placeholder,
                forall|e: u32|
                    r.targets().contains_key(e) <==> exists|i: int|
                        0 <= i < k && indices@[i] == e,
                forall|i: int|
                    0 <= i < k && (forall|j: int| i < j < k ==> indices@[j] != indices@[i])
                        ==> r.targets()[#[trigger] indices@[i]] == entities@[i],
            decreases indices.len() - k,
        {
            r.insert(indices[k], entities[k]);
            k += 1;
        }
        proof {
            assert forall|e: u32| r.targets().contains_key(e) <==> indices@.contains(e) by {
                if indices@.contains(e) {
                    let i = choose|i: int| 0 <= i < indices@.len() && indices@[i] == e;
                    assert(0 <= i < k && indices@[i] == e);
                }
            }
        }
        r
    }
}

impl EntityRemapper for EntityMap {
    open spec fn target(&self, old_index: u32) -> u64 {
        if self.targets().contains_key(old_index) {
            self.targets()[old_index]
        } else {
            self.placeholder()
        }
    }

    fn map(&self, old_index: u32) -> (r: u64) {
        match self.targets.get(&old_index) {
            Some(entity) => *entity,
            None => self.placeholder,
        }
    }
}

/// The entity that each row of a snapshot is loaded into: what the mapper
/// gives for its index.
pub fn remap_rows<M: EntityRemapper>(indices: &Vec<u32>, mapper: &M) -> (r: Vec<u64>)
    ensures
        r@.len() == indices@.len(),
        forall|i: int| 0 <= i < r@.len() ==> r@[i] == mapper.target(indices@[i]),
{
    let mut out: Vec<u64> = Vec::new();
    let mut i: usize = 0;
    while i < indices.len()
        invariant
            i <= indices.len(),
            out@.len() == i,
            forall|k: int| 0 <= k < i ==> out@[k] == mapper.target(indices@[k]),
        decreases indices.len() - i,
    {
        out.push(mapper.map(indices[i]));
        i += 1;
    }
    out
}

/// The hooks that rewrite the entity references of components after a load,
/// by the key of the component type. A hook is known by its handle.
#[derive(Debug)]
pub struct IDRemapRegistry {
    hooks: HashMap<u64, usize>,
}

impl View for IDRemapRegistry {
    type V = Map<u64, usize>;

    closed spec fn view(&self) -> Map<u64, usize> {
        self.hooks@
    }
}

impl Default for IDRemapRegistry {
    fn default() -> (r: Self)
        ensures
            r@ == Map::<u64, usize>::empty(),
    {
        IDRemapRegistry { hooks: HashMap::new() }
    }
}

impl IDRemapRegistry {
    /// Registers the hook of a component type. An earlier hook of that type
    /// is overwritten.
    pub fn register_remap_hook(&mut self, type_key: u64, hook: usize)
        ensures
            final(self)@ == old(self)@.insert(type_key, hook),
    {
        self.hooks.insert(type_key, hook);
    }

    /// The hook of a component type, if it has one.
    pub fn get_hook(&self, type_key: u64) -> (r: Option<usize>)
        ensures
            r == if self@.contains_key(type_key) {
                Some(self@[type_key])
            } else {
                None
            },
    {
        match self.hooks.get(&type_key) {
            Some(h) => Some(*h),
            None => None,
        }
    }
}

} // verus!
