//! Snapshots of whole worlds as trees and as text: the entity form, with a
//! list of components for each entity, and the archetype form.

use crate::archetype_archive::{ArchetypeModel, ArchetypeSnapshot, WorldArchModel, WorldArchSnapshot};
use crate::aurora_codec::{field, required_text, text_of};
use crate::dyn_value::{lemma_array_view, lemma_object_view, DynModel, DynValue};
use crate::entity_archive::{ComponentSnapshot, EntityModel, EntitySnapshot, WorldSnapshot};
use crate::json::{
    number_as_u64, number_from_u64, number_of_u64, number_u64, read, read_text, write_text,
    written, TextForm,
};
use crate::schema::{
    field_of, ids_from_value, ids_of, ids_to_value, ids_value, snapshot_of_value, snapshot_tuple,
    snapshot_value,
};
use vstd::prelude::*;
use vstd::string::*;

verus! {

/// The tree of a component: its type, and its value unless that is null.
pub open spec fn component_tree(c: (Seq<char>, DynModel)) -> DynModel {
    DynModel::Object(
        seq![("type"@, DynModel::String(c.0))] + (if c.1 is Null {
            Seq::empty()
        } else {
            seq![("value"@, c.1)]
        }),
    )
}

/// The component that a tree holds: an object with a type, and with a value
/// where the component has one.
pub open spec fn component_of(m: DynModel) -> Option<(Seq<char>, DynModel)> {
    match required_text(field_of(m, "type"@)) {
        Some(ty) => Some(
            (
                ty,
                match field_of(m, "value"@) {
                    Some(v) => v,
                    None => DynModel::Null,
                },
            ),
        ),
        None => None,
    }
}

/// The components that a tree holds, where it is a list of components.
pub open spec fn components_of(m: DynModel) -> Option<Seq<(Seq<char>, DynModel)>> {
    match m {
        DynModel::Array(items) => if forall|i: int|
            0 <= i < items.len() ==> component_of(#[trigger] items[i]) is Some {
            Some(Seq::new(items.len(), |i: int| component_of(items[i]).unwrap()))
        } else {
            None
        },
        _ => None,
    }
}

/// The identifier that a tree holds, where it is an unsigned number.
pub open spec fn id64_of(m: Option<DynModel>) -> Option<u64> {
    match m {
        Some(DynModel::Number(n)) => number_u64(n),
        _ => None,
    }
}

/// The tree of an entity.
pub open spec fn entity_tree(e: EntityModel) -> DynModel {
    DynModel::Object(
        seq![
            ("id"@, DynModel::Number(number_of_u64(e.id))),
            (
                "components"@,
                DynModel::Array(Seq::new(e.components.len(), |i: int| component_tree(e.components[i]))),
            ),
        ],
    )
}

/// The entity that a tree holds, where it holds one.
pub open spec fn entity_of(m: DynModel) -> Option<EntityModel> {
    match (
        id64_of(field_of(m, "id"@)),
        match field_of(m, "components"@) {
            Some(c) => components_of(c),
            None => None,
        },
    ) {
        (Some(id), Some(components)) => Some(EntityModel { id, components }),
        _ => None,
    }
}

/// The entities that a tree holds, where it is a list of entities.
pub open spec fn entities_of(m: DynModel) -> Option<Seq<EntityModel>> {
    match m {
        DynModel::Array(items) => if forall|i: int|
            0 <= i < items.len() ==> entity_of(#[trigger] items[i]) is Some {
            Some(Seq::new(items.len(), |i: int| entity_of(items[i]).unwrap()))
        } else {
            None
        },
        _ => None,
    }
}

/// The tree of a snapshot in entity form.
pub open spec fn world_tree(entities: Seq<EntityModel>) -> DynModel {
    DynModel::Object(
        seq![
            (
                "entities"@,
                DynModel::Array(Seq::new(entities.len(), |i: int| entity_tree(entities[i]))),
            ),
        ],
    )
}

/// The snapshot in entity form that a tree holds, where it holds one.
pub open spec fn world_of_tree(m: DynModel) -> Option<Seq<EntityModel>> {
    match field_of(m, "entities"@) {
        Some(list) => entities_of(list),
        None => None,
    }
}

/// The tree of a component.
pub fn component_to_value(c: &ComponentSnapshot) -> (r: DynValue)
    ensures
        r@ == component_tree(c.deep_view()),
{
    let mut fields: Vec<(String, DynValue)> = Vec::new();
    fields.push((String::from_str("type"), DynValue::String(c.ty.clone())));
    if !c.value.is_null() {
        fields.push((String::from_str("value"), c.value.clone()));
    }
    let r = DynValue::Object(fields);
    proof {
        lemma_object_view(r);
        assert(r@->Object_0 =~= component_tree(c.deep_view())->Object_0);
    }
    r
}

/// The component that a tree holds.
pub fn component_from_value(v: &DynValue) -> (r: Option<ComponentSnapshot>)
    ensures
        match component_of(v@) {
            Some(c) => r matches Some(x) && x.deep_view() == c,
            None => r is None,
        },
{
    let ty = match text_of(field(v, "type")) {
        Some(ty) => ty,
        None => {
            return None;
        },
    };
    let value = match field(v, "value") {
        Some(value) => value.clone(),
        None => DynValue::Null,
    };
    Some(ComponentSnapshot { ty, value })
}

/// The tree of an entity.
pub fn entity_to_value(e: &EntitySnapshot) -> (r: DynValue)
    ensures
        r@ == entity_tree(e.deep_view()),
{
    let mut items: Vec<DynValue> = Vec::new();
    let mut i: usize = 0;
    while i < e.components.len()
        invariant
            i <= e.components.len(),
            items@.len() == i,
            forall|k: int|
                0 <= k < i ==> (#[trigger] items@[k])@ == component_tree(
                    e.components@[k].deep_view(),
                ),
        decreases e.components.len() - i,
    {
        items.push(component_to_value(&e.components[i]));
        i += 1;
    }
    let list = DynValue::Array(items);
    proof {
        lemma_array_view(list);
        assert(list@->Array_0 =~= Seq::new(
            e.deep_view().components.len(),
            |i: int| component_tree(e.deep_view().components[i]),
        ));
    }
    let mut fields: Vec<(String, DynValue)> = Vec::new();
    fields.push((String::from_str("id"), DynValue::Number(number_from_u64(e.id))));
    fields.push((String::from_str("components"), list));
    let r = DynValue::Object(fields);
    proof {
        lemma_object_view(r);
        assert(r@->Object_0 =~= entity_tree(e.deep_view())->Object_0);
    }
    r
}

/// The entity that a tree holds.
pub fn entity_from_value(v: &DynValue) -> (r: Option<EntitySnapshot>)
    ensures
        match entity_of(v@) {
            Some(e) => r matches Some(x) && x.deep_view() == e,
            None => r is None,
        },
{
    let id = match field(v, "id") {
        Some(DynValue::Number(n)) => match number_as_u64(n) {
            Some(id) => id,
            None => {
                return None;
            },
        },
        _ => {
            return None;
        },
    };
    let list = match field(v, "components") {
        Some(list) => list,
        None => {
            return None;
        },
    };
    match list {
        DynValue::Array(items) => {
            proof {
                lemma_array_view(*list);
            }
            let mut components: Vec<ComponentSnapshot> = Vec::new();
            let mut i: usize = 0;
            while i < items.len()
                invariant
                    field_of(v@, "components"@) == Some(list@),
                    id64_of(field_of(v@, "id"@)) == Some(id),
                    list@ is Array,
                    list@->Array_0.len() == items@.len(),
                    forall|k: int|
                        0 <= k < items@.len() ==> (#[trigger] list@->Array_0[k]) == items@[k]@,
                    i <= items.len(),
                    components@.len() == i,
                    forall|k: int| 0 <= k < i ==> component_of(#[trigger] list@->Array_0[k]) is Some,
                    forall|k: int|
                        0 <= k < i ==> (#[trigger] components@[k]).deep_view() == component_of(
                            list@->Array_0[k],
                        ).unwrap(),
                decreases items.len() - i,
            {
                match component_from_value(&items[i]) {
                    Some(c) => {
                        components.push(c);
                    },
                    None => {
                        assert(component_of(list@->Array_0[i as int]) is None);
                        return None;
                    },
                }
                i += 1;
            }
            assert(components.deep_view() =~= components_of(list@).unwrap());
            Some(EntitySnapshot { id, components })
        },
        _ => None,
    }
}

impl WorldSnapshot {
    /// The snapshot as a tree.
    pub fn to_value(&self) -> (r: DynValue)
        ensures
            r@ == world_tree(self@),
    {
        let mut items: Vec<DynValue> = Vec::new();
        let mut i: usize = 0;
        while i < self.entities.len()
            invariant
                i <= self.entities.len(),
                items@.len() == i,
                forall|k: int|
                    0 <= k < i ==> (#[trigger] items@[k])@ == entity_tree(
                        self.entities@[k].deep_view(),
                    ),
            decreases self.entities.len() - i,
        {
            items.push(entity_to_value(&self.entities[i]));
            i += 1;
        }
        let list = DynValue::Array(items);
        proof {
            lemma_array_view(list);
            assert(list@->Array_0 =~= Seq::new(self@.len(), |i: int| entity_tree(self@[i])));
        }
        let mut fields: Vec<(String, DynValue)> = Vec::new();
        fields.push((String::from_str("entities"), list));
        let r = DynValue::Object(fields);
        proof {
            lemma_object_view(r);
            assert(r@->Object_0 =~= world_tree(self@)->Object_0);
        }
        r
    }

    /// Reads a snapshot from a tree: an object with the list of entities
    /// under `entities`.
    pub fn from_value(v: &DynValue) -> (r: Result<WorldSnapshot, String>)
        ensures
            match world_of_tree(v@) {
                Some(entities) => r matches Ok(s) && s@ == entities,
                None => r matches Err(msg) && msg@ == "not a world snapshot"@,
            },
    {
        let list = match field(v, "entities") {
            Some(list) => list,
            None => {
                return Err(String::from_str("not a world snapshot"));
            },
        };
        match list {
            DynValue::Array(items) => {
                proof {
                    lemma_array_view(*list);
                }
                let mut entities: Vec<EntitySnapshot> = Vec::new();
                let mut i: usize = 0;
                while i < items.len()
                    invariant
                        field_of(v@, "entities"@) == Some(list@),
                        list@ is Array,
                        list@->Array_0.len() == items@.len(),
                        forall|k: int|
                            0 <= k < items@.len() ==> (#[trigger] list@->Array_0[k]) == items@[k]@,
                        i <= items.len(),
                        entities@.len() == i,
                        forall|k: int| 0 <= k < i ==> entity_of(#[trigger] list@->Array_0[k]) is Some,
                        forall|k: int|
                            0 <= k < i ==> (#[trigger] entities@[k]).deep_view() == entity_of(
                                list@->Array_0[k],
                            ).unwrap(),
                    decreases items.len() - i,
                {
                    match entity_from_value(&items[i]) {
                        Some(e) => {
                            entities.push(e);
                        },
                        None => {
                            assert(entity_of(list@->Array_0[i as int]) is None);
                            return Err(String::from_str("not a world snapshot"));
                        },
                    }
                    i += 1;
                }
                assert(entities.deep_view() =~= entities_of(list@).unwrap());
                Ok(WorldSnapshot { entities })
            },
            _ => Err(String::from_str("not a world snapshot")),
        }
    }

    /// The text of the snapshot: JSON on one line, indented JSON, or TOML.
    pub fn to_text(&self, form: TextForm) -> (r: Result<String, String>)
        ensures
            match r {
                Ok(text) => written(form, world_tree(self@)) == Some(text@),
                Err(_) => written(form, world_tree(self@)) is None,
            },
    {
        write_text(form, &self.to_value())
    }

    /// Reads a snapshot from JSON or TOML text.
    pub fn from_text(text: &str, form: TextForm) -> (r: Result<WorldSnapshot, String>)
        ensures
            match read(form, text@) {
                Some(tree) => match world_of_tree(tree) {
                    Some(entities) => r matches Ok(s) && s@ == entities,
                    None => r matches Err(msg) && msg@ == "not a world snapshot"@,
                },
                None => r is Err,
            },
    {
        match read_text(form, text) {
            Ok(tree) => WorldSnapshot::from_value(&tree),
            Err(reason) => Err(reason),
        }
    }
}

/// The tree of a snapshot in archetype form.
pub open spec fn arch_world_tree(w: WorldArchModel) -> DynModel {
    DynModel::Object(
        seq![
            ("entities"@, ids_value(w.entities)),
            (
                "archetypes"@,
                DynModel::Array(Seq::new(w.archetypes.len(), |i: int| snapshot_value(w.archetypes[i]))),
            ),
        ],
    )
}

/// The archetype snapshots that a tree holds, where it is a list of them.
pub open spec fn snapshots_of(m: DynModel) -> Option<Seq<ArchetypeModel>> {
    match m {
        DynModel::Array(items) => if forall|i: int|
            0 <= i < items.len() ==> snapshot_of_value(#[trigger] items[i]) is Some {
            Some(Seq::new(items.len(), |i: int| snapshot_of_value(items[i]).unwrap()))
        } else {
            None
        },
        _ => None,
    }
}

/// The parts of a snapshot in archetype form in a tree: the fields of those
/// names in an object, or the two items of a list.
pub open spec fn arch_world_parts(m: DynModel) -> Option<(DynModel, DynModel)> {
    match m {
        DynModel::Object(_) => match (field_of(m, "entities"@), field_of(m, "archetypes"@)) {
            (Some(e), Some(a)) => Some((e, a)),
            _ => None,
        },
        DynModel::Array(items) => if items.len() == 2 {
            Some((items[0], items[1]))
        } else {
            None
        },
        _ => None,
    }
}

/// The snapshot in archetype form that a tree holds, where it holds one.
pub open spec fn arch_world_of_tree(m: DynModel) -> Option<WorldArchModel> {
    match arch_world_parts(m) {
        Some((e, a)) => match (ids_of(e), snapshots_of(a)) {
            (Some(entities), Some(archetypes)) => Some(WorldArchModel { entities, archetypes }),
            _ => None,
        },
        None => None,
    }
}

/// The tree of a snapshot in archetype form, as the list of its fields, each
/// archetype a list of its fields too.
pub open spec fn arch_world_tuple(w: WorldArchModel) -> DynModel {
    DynModel::Array(
        seq![
            ids_value(w.entities),
            DynModel::Array(Seq::new(w.archetypes.len(), |i: int| snapshot_tuple(w.archetypes[i]))),
        ],
    )
}

/// The item of a list at an index, and the field of that name of an object.
fn world_part<'a>(v: &'a DynValue, index: usize, name: &str) -> (r: Option<&'a DynValue>)
    ensures
        match v@ {
            DynModel::Object(fields) => match DynModel::lookup(fields, name@) {
                Some(x) => r matches Some(p) && p@ == x,
                None => r is None,
            },
            DynModel::Array(items) => if items.len() == 2 && index < 2 {
                r matches Some(p) && p@ == items[index as int]
            } else {
                r is None
            },
            _ => r is None,
        },
{
    match v {
        DynValue::Object(_) => v.get_field(name),
        DynValue::Array(items) => {
            proof {
                lemma_array_view(*v);
            }
            if items.len() == 2 && index < 2 {
                Some(&items[index])
            } else {
                None
            }
        },
        _ => None,
    }
}

impl WorldArchSnapshot {
    /// The snapshot as a tree.
    pub fn to_value(&self) -> (r: DynValue)
        ensures
            r@ == arch_world_tree(self@),
    {
        let mut items: Vec<DynValue> = Vec::new();
        let mut i: usize = 0;
        while i < self.archetypes.len()
            invariant
                i <= self.archetypes.len(),
                items@.len() == i,
                forall|k: int|
                    0 <= k < i ==> (#[trigger] items@[k])@ == snapshot_value(self.archetypes@[k]@),
            decreases self.archetypes.len() - i,
        {
            items.push(self.archetypes[i].to_value());
            i += 1;
        }
        let list = DynValue::Array(items);
        proof {
            lemma_array_view(list);
            assert(list@->Array_0 =~= Seq::new(
                self@.archetypes.len(),
                |i: int| snapshot_value(self@.archetypes[i]),
            ));
        }
        let mut fields: Vec<(String, DynValue)> = Vec::new();
        fields.push((String::from_str("entities"), ids_to_value(&self.entities)));
        fields.push((String::from_str("archetypes"), list));
        let r = DynValue::Object(fields);
        proof {
            lemma_object_view(r);
            assert(r@->Object_0 =~= arch_world_tree(self@)->Object_0);
        }
        r
    }

    /// The snapshot as a tree that lists its fields in order.
    pub fn to_tuple_value(&self) -> (r: DynValue)
        ensures
            r@ == arch_world_tuple(self@),
    {
        let mut items: Vec<DynValue> = Vec::new();
        let mut i: usize = 0;
        while i < self.archetypes.len()
            invariant
                i <= self.archetypes.len(),
                items@.len() == i,
                forall|k: int|
                    0 <= k < i ==> (#[trigger] items@[k])@ == snapshot_tuple(self.archetypes@[k]@),
            decreases self.archetypes.len() - i,
        {
            items.push(self.archetypes[i].to_tuple_value());
            i += 1;
        }
        let list = DynValue::Array(items);
        proof {
            lemma_array_view(list);
            assert(list@->Array_0 =~= Seq::new(
                self@.archetypes.len(),
                |i: int| snapshot_tuple(self@.archetypes[i]),
            ));
        }
        let mut parts: Vec<DynValue> = Vec::new();
        parts.push(ids_to_value(&self.entities));
        parts.push(list);
        let r = DynValue::Array(parts);
        proof {
            lemma_array_view(r);
            assert(r@->Array_0 =~= arch_world_tuple(self@)->Array_0);
        }
        r
    }

    /// Reads a snapshot from a tree: from an object with the entity indices
    /// under `entities` and the archetypes under `archetypes`, or from a list
    /// of the two.
    pub fn from_value(v: &DynValue) -> (r: Result<WorldArchSnapshot, String>)
        ensures
            match arch_world_of_tree(v@) {
                Some(w) => r matches Ok(s) && s@ == w,
                None => r matches Err(msg) && msg@ == "not a world snapshot"@,
            },
    {
        let entities = match world_part(v, 0, "entities") {
            Some(e) => match ids_from_value(e) {
                Some(entities) => Some(entities),
                None => None,
            },
            None => None,
        };
        let list = match world_part(v, 1, "archetypes") {
            Some(list) => list,
            None => {
                return Err(String::from_str("not a world snapshot"));
            },
        };
        let entities = match entities {
            Some(entities) => entities,
            None => {
                return Err(String::from_str("not a world snapshot"));
            },
        };
        match list {
            DynValue::Array(items) => {
                proof {
                    lemma_array_view(*list);
                }
                let mut archetypes: Vec<ArchetypeSnapshot> = Vec::new();
                let mut i: usize = 0;
                while i < items.len()
                    invariant
                        arch_world_parts(v@) is Some,
                        arch_world_parts(v@).unwrap().1 == list@,
                        ids_of(arch_world_parts(v@).unwrap().0) is Some,
                        list@ is Array,
                        list@->Array_0.len() == items@.len(),
                        forall|k: int|
                            0 <= k < items@.len() ==> (#[trigger] list@->Array_0[k]) == items@[k]@,
                        i <= items.len(),
                        archetypes@.len() == i,
                        forall|k: int|
                            0 <= k < i ==> snapshot_of_value(#[trigger] list@->Array_0[k]) is Some,
                        forall|k: int|
                            0 <= k < i ==> (#[trigger] archetypes@[k])@ == snapshot_of_value(
                                list@->Array_0[k],
                            ).unwrap(),
                    decreases items.len() - i,
                {
                    match ArchetypeSnapshot::from_value(&items[i]) {
                        Ok(a) => {
                            archetypes.push(a);
                        },
                        Err(_) => {
                            assert(snapshot_of_value(list@->Array_0[i as int]) is None);
                            return Err(String::from_str("not a world snapshot"));
                        },
                    }
                    i += 1;
                }
                assert(archetypes.deep_view() =~= snapshots_of(list@).unwrap());
                Ok(WorldArchSnapshot { entities, archetypes })
            },
            _ => Err(String::from_str("not a world snapshot")),
        }
    }
}

} // verus!
