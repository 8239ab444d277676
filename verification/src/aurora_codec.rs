//! The manifest as a tree and as text: what a manifest file holds, field by
//! field, in JSON and in TOML.

use crate::archetype_archive::StorageTypeFlag;
use crate::aurora_archive::{
    ArchetypeSpec, ArchetypeSpecModel, AuroraWorldManifest, EmbeddedBlob, ManifestOutputFormat,
    Url, WorldWithAurora,
};
use crate::dyn_value::{lemma_array_view, lemma_object_view, DynModel, DynValue};
use crate::json::{lookup_last, read, read_text, write_text, written, TextForm};
use crate::name_map::NameMap;
use crate::schema::{
    field_of, storage_from_value, storage_of, storage_to_value, storage_value, strings_from_value,
    strings_of, strings_to_value, strings_value,
};
use vstd::prelude::*;
use vstd::string::*;

verus! {

/// A text that may be left out: absent and null stand for none, a string
/// for itself, and anything else is malformed.
pub open spec fn optional_text(m: Option<DynModel>) -> Option<Option<Seq<char>>> {
    match m {
        None => Some(None),
        Some(DynModel::Null) => Some(None),
        Some(DynModel::String(s)) => Some(Some(s)),
        _ => None,
    }
}

/// Storage hints that may be left out.
pub open spec fn optional_storage(m: Option<DynModel>) -> Option<Option<Seq<StorageTypeFlag>>> {
    match m {
        None => Some(None),
        Some(DynModel::Null) => Some(None),
        Some(v) => match storage_of(v) {
            Some(flags) => Some(Some(flags)),
            None => None,
        },
    }
}

/// A text that has to be there.
pub open spec fn required_text(m: Option<DynModel>) -> Option<Seq<char>> {
    match m {
        Some(DynModel::String(s)) => Some(s),
        _ => None,
    }
}

/// The tree of the entry of an archetype: its name and its storage hints
/// where it has them, its component types and its source.
pub open spec fn spec_value(m: ArchetypeSpecModel) -> DynModel {
    DynModel::Object(
        (match m.name {
            Some(n) => seq![("name"@, DynModel::String(n))],
            None => Seq::empty(),
        }) + seq![("components"@, strings_value(m.components))] + (match m.storage {
            Some(s) => seq![("storage"@, storage_value(s))],
            None => Seq::empty(),
        }) + seq![("source"@, DynModel::String(m.source))],
    )
}

/// The entry of an archetype that a tree holds, where it holds one.
pub open spec fn spec_of_value(v: DynModel) -> Option<ArchetypeSpecModel> {
    if v is Object {
        match (
            optional_text(field_of(v, "name"@)),
            match field_of(v, "components"@) {
                Some(c) => strings_of(c),
                None => None,
            },
            optional_storage(field_of(v, "storage"@)),
            required_text(field_of(v, "source"@)),
        ) {
            (Some(name), Some(components), Some(storage), Some(source)) => Some(
                ArchetypeSpecModel { name, components, storage, source },
            ),
            _ => None,
        }
    } else {
        None
    }
}

/// The entries of archetypes that a tree holds, where it is a list of them.
pub open spec fn specs_of(m: DynModel) -> Option<Seq<ArchetypeSpecModel>> {
    match m {
        DynModel::Array(items) => if forall|i: int|
            0 <= i < items.len() ==> spec_of_value(#[trigger] items[i]) is Some {
            Some(Seq::new(items.len(), |i: int| spec_of_value(items[i]).unwrap()))
        } else {
            None
        },
        _ => None,
    }
}

/// The embedded blob that a tree holds, where it holds one.
pub open spec fn blob_of_value(v: DynModel) -> Option<(Seq<char>, Seq<char>)> {
    match (required_text(field_of(v, "format"@)), required_text(field_of(v, "data"@))) {
        (Some(format), Some(data)) => Some((format, data)),
        _ => None,
    }
}

/// The tree of an embedded blob.
pub open spec fn blob_value(format: Seq<char>, data: Seq<char>) -> DynModel {
    DynModel::Object(seq![("format"@, DynModel::String(format)), ("data"@, DynModel::String(data))])
}

/// Whether every field of an object holds an embedded blob.
pub open spec fn all_blobs(fields: Seq<(Seq<char>, DynModel)>) -> bool {
    forall|i: int| 0 <= i < fields.len() ==> blob_of_value((#[trigger] fields[i]).1) is Some
}

/// The fields of the object under `name`, where there is one; those of an
/// empty object where `name` is absent and may be.
pub open spec fn table_fields(v: DynModel, name: Seq<char>, may_lack: bool) -> Option<
    Seq<(Seq<char>, DynModel)>,
> {
    match field_of(v, name) {
        Some(DynModel::Object(fields)) => Some(fields),
        None => if may_lack {
            Some(Seq::empty())
        } else {
            None
        },
        _ => None,
    }
}

/// Whether a table of blobs has, under `name`, the blob of the last field of
/// that name, and nothing where there is no such field.
pub open spec fn embed_agrees(
    embed: NameMap<EmbeddedBlob>,
    fields: Seq<(Seq<char>, DynModel)>,
    name: Seq<char>,
) -> bool {
    match lookup_last(fields, name) {
        Some(b) => embed.lookup(name) matches Some(x) && (x.format@, x.data@) == blob_of_value(
            b,
        ).unwrap(),
        None => embed.lookup(name) is None,
    }
}

/// Whether a table of dynamic values has, under `name`, the value of the
/// last field of that name, and nothing where there is no such field.
pub open spec fn table_agrees(
    table: NameMap<DynValue>,
    fields: Seq<(Seq<char>, DynModel)>,
    name: Seq<char>,
) -> bool {
    match lookup_last(fields, name) {
        Some(x) => table.lookup(name) matches Some(y) && y@ == x,
        None => table.lookup(name) is None,
    }
}

/// Whether a tree holds the world part of a manifest: an object with a
/// version, a list of entries of archetypes, resources, and, where it has
/// them, a name and embedded blobs.
pub open spec fn is_world_value(v: DynModel) -> bool {
    &&& v is Object
    &&& required_text(field_of(v, "version"@)) is Some
    &&& optional_text(field_of(v, "name"@)) is Some
    &&& field_of(v, "archetypes"@) is Some
    &&& specs_of(field_of(v, "archetypes"@).unwrap()) is Some
    &&& table_fields(v, "embed"@, true) is Some
    &&& all_blobs(table_fields(v, "embed"@, true).unwrap())
    &&& table_fields(v, "resources"@, false) is Some
}

/// Whether `w` is the world part that the tree `v` holds: its version, its
/// name and its entries of archetypes are those of the tree, its tables
/// have under each name what the last field of that name holds, and no
/// payload waits to be stored.
pub open spec fn world_read_from(w: WorldWithAurora, v: DynModel) -> bool {
    &&& w.wf()
    &&& w.version@ == required_text(field_of(v, "version"@)).unwrap()
    &&& (match optional_text(field_of(v, "name"@)).unwrap() {
        Some(n) => w.name matches Some(x) && x@ == n,
        None => w.name is None,
    })
    &&& w.archetypes.deep_view() == specs_of(field_of(v, "archetypes"@).unwrap()).unwrap()
    &&& w.external_payloads.names().len() == 0
    &&& forall|name: Seq<char>| #[trigger]
        embed_agrees(w.embed, table_fields(v, "embed"@, true).unwrap(), name)
    &&& forall|name: Seq<char>| #[trigger]
        table_agrees(w.resources, table_fields(v, "resources"@, false).unwrap(), name)
}

/// Whether a tree is a table that may be left out: absent, null or an
/// object.
pub open spec fn optional_table(m: Option<DynModel>) -> bool {
    match m {
        None => true,
        Some(DynModel::Null) => true,
        Some(DynModel::Object(_)) => true,
        _ => false,
    }
}

/// Whether a tree holds a manifest: the world part under `world` and, where
/// it has them, the notes of its author under `metadata`.
pub open spec fn is_manifest_value(v: DynModel) -> bool {
    &&& field_of(v, "world"@) matches Some(w) && is_world_value(w)
    &&& optional_table(field_of(v, "metadata"@))
}

/// Whether `m` is the manifest that the tree `v` holds: its world part is
/// the one under `world`, and its notes have under each name what the last
/// field of that name under `metadata` holds. It has no notes where the
/// tree has none.
pub open spec fn manifest_read_from(m: AuroraWorldManifest, v: DynModel) -> bool {
    &&& m.wf()
    &&& world_read_from(m.world, field_of(v, "world"@).unwrap())
    &&& match field_of(v, "metadata"@) {
        Some(DynModel::Object(fields)) => m.metadata matches Some(meta) && forall|name: Seq<char>| #[trigger]
            table_agrees(meta, fields, name),
        _ => m.metadata is None,
    }
}

/// The tree of the entry of an archetype.
pub fn spec_to_value(spec: &ArchetypeSpec) -> (r: DynValue)
    ensures
        r@ == spec_value(spec.deep_view()),
{
    let mut fields: Vec<(String, DynValue)> = Vec::new();
    let ghost mut want: Seq<(Seq<char>, DynModel)> = Seq::empty();
    if let Some(n) = &spec.name {
        fields.push((String::from_str("name"), DynValue::String(n.clone())));
        proof {
            want = want.push(("name"@, DynModel::String(n@)));
        }
    }
    fields.push((String::from_str("components"), strings_to_value(&spec.components)));
    proof {
        want = want.push(("components"@, strings_value(spec.components.deep_view())));
    }
    if let Some(s) = &spec.storage {
        fields.push((String::from_str("storage"), storage_to_value(s)));
        proof {
            want = want.push(("storage"@, storage_value(s@)));
        }
    }
    fields.push((String::from_str("source"), DynValue::String(spec.source.0.clone())));
    proof {
        want = want.push(("source"@, DynModel::String(spec.source.0@)));
    }
    assert(fields@.len() == want.len());
    assert(forall|k: int|
        0 <= k < want.len() ==> (#[trigger] fields@[k]).0@ == want[k].0 && fields@[k].1@
            == want[k].1);
    let r = DynValue::Object(fields);
    proof {
        lemma_object_view(r);
        assert(r@->Object_0 =~= want);
        assert(want =~= spec_value(spec.deep_view())->Object_0);
    }
    r
}

/// A text that may be left out.
pub fn text_or_none(v: Option<&DynValue>) -> (r: Option<Option<String>>)
    ensures
        match optional_text(
            match v {
                Some(x) => Some(x@),
                None => None,
            },
        ) {
            Some(Some(s)) => r matches Some(Some(x)) && x@ == s,
            Some(None) => r == Some(None::<String>),
            None => r is None,
        },
{
    match v {
        None => Some(None),
        Some(DynValue::Null) => Some(None),
        Some(DynValue::String(s)) => Some(Some(s.clone())),
        Some(_) => None,
    }
}

/// A text that has to be there.
pub fn text_of(v: Option<&DynValue>) -> (r: Option<String>)
    ensures
        match required_text(
            match v {
                Some(x) => Some(x@),
                None => None,
            },
        ) {
            Some(s) => r matches Some(x) && x@ == s,
            None => r is None,
        },
{
    match v {
        Some(DynValue::String(s)) => Some(s.clone()),
        _ => None,
    }
}

/// The field of an object; none for any other tree.
pub fn field<'a>(v: &'a DynValue, name: &str) -> (r: Option<&'a DynValue>)
    ensures
        match field_of(v@, name@) {
            Some(x) => r matches Some(p) && p@ == x,
            None => r is None,
        },
{
    match v {
        DynValue::Object(_) => v.get_field(name),
        _ => None,
    }
}

/// The entry of an archetype that a tree holds.
pub fn spec_from_value(v: &DynValue) -> (r: Option<ArchetypeSpec>)
    ensures
        match spec_of_value(v@) {
            Some(m) => r matches Some(s) && s.deep_view() == m,
            None => r is None,
        },
{
    match v {
        DynValue::Object(_) => {},
        _ => {
            return None;
        },
    }
    let name = match text_or_none(field(v, "name")) {
        Some(name) => name,
        None => {
            return None;
        },
    };
    let components = match field(v, "components") {
        Some(c) => match strings_from_value(c) {
            Some(components) => components,
            None => {
                return None;
            },
        },
        None => {
            return None;
        },
    };
    let storage = match field(v, "storage") {
        None => None,
        Some(DynValue::Null) => None,
        Some(s) => match storage_from_value(s) {
            Some(flags) => Some(flags),
            None => {
                return None;
            },
        },
    };
    let source = match text_of(field(v, "source")) {
        Some(source) => source,
        None => {
            return None;
        },
    };
    Some(ArchetypeSpec { name, components, storage, source: Url(source) })
}

/// The tree of the embedded blobs of a manifest: a field for each, by name.
pub open spec fn embed_value(embed: NameMap<EmbeddedBlob>) -> DynModel {
    DynModel::Object(
        Seq::new(
            embed.names().len(),
            |i: int| (embed.names()[i], blob_value(embed.values()[i].format@, embed.values()[i].data@)),
        ),
    )
}

/// The tree of a table of dynamic values: a field for each, by name.
pub open spec fn table_value(table: NameMap<DynValue>) -> DynModel {
    DynModel::Object(Seq::new(table.names().len(), |i: int| (table.names()[i], table.values()[i]@)))
}

/// The tree of the entries of archetypes.
pub open spec fn specs_value(specs: Seq<ArchetypeSpecModel>) -> DynModel {
    DynModel::Array(Seq::new(specs.len(), |i: int| spec_value(specs[i])))
}

/// The tree of the world part of a manifest. The payloads that the caller
/// stores are no part of it.
pub open spec fn world_value(w: WorldWithAurora) -> DynModel {
    DynModel::Object(
        seq![("version"@, DynModel::String(w.version@))] + (match w.name {
            Some(n) => seq![("name"@, DynModel::String(n@))],
            None => Seq::empty(),
        }) + seq![
            ("archetypes"@, specs_value(w.archetypes.deep_view())),
            ("embed"@, embed_value(w.embed)),
            ("resources"@, table_value(w.resources)),
        ],
    )
}

/// The tree of a manifest.
pub open spec fn manifest_value(m: AuroraWorldManifest) -> DynModel {
    DynModel::Object(
        (match m.metadata {
            Some(meta) => seq![("metadata"@, table_value(meta))],
            None => Seq::empty(),
        }) + seq![("world"@, world_value(m.world))],
    )
}

/// The tree of a table of dynamic values.
pub fn table_to_value(table: &NameMap<DynValue>) -> (r: DynValue)
    requires
        table.wf(),
    ensures
        r@ == table_value(*table),
{
    let n = table.len();
    let mut fields: Vec<(String, DynValue)> = Vec::new();
    let mut i: usize = 0;
    while i < n
        invariant
            table.wf(),
            n == table.names().len(),
            i <= n,
            fields@.len() == i,
            forall|k: int|
                0 <= k < i ==> (#[trigger] fields@[k]).0@ == table.names()[k] && fields@[k].1@
                    == table.values()[k]@,
        decreases n - i,
    {
        fields.push((table.name_at(i).clone(), table.value_at(i).clone()));
        i += 1;
    }
    let r = DynValue::Object(fields);
    proof {
        lemma_object_view(r);
        assert(r@->Object_0 =~= table_value(*table)->Object_0);
    }
    r
}

impl WorldWithAurora {
    /// The world part of a manifest as a tree.
    pub fn to_value(&self) -> (r: DynValue)
        requires
            self.wf(),
        ensures
            r@ == world_value(*self),
    {
        let mut fields: Vec<(String, DynValue)> = Vec::new();
        let ghost mut want: Seq<(Seq<char>, DynModel)> = Seq::empty();
        fields.push((String::from_str("version"), DynValue::String(self.version.clone())));
        proof {
            want = want.push(("version"@, DynModel::String(self.version@)));
        }
        if let Some(n) = &self.name {
            fields.push((String::from_str("name"), DynValue::String(n.clone())));
            proof {
                want = want.push(("name"@, DynModel::String(n@)));
            }
        }
        let mut specs: Vec<DynValue> = Vec::new();
        let mut i: usize = 0;
        while i < self.archetypes.len()
            invariant
                i <= self.archetypes.len(),
                specs@.len() == i,
                forall|k: int|
                    0 <= k < i ==> (#[trigger] specs@[k])@ == spec_value(
                        self.archetypes@[k].deep_view(),
                    ),
            decreases self.archetypes.len() - i,
        {
            specs.push(spec_to_value(&self.archetypes[i]));
            i += 1;
        }
        let specs_tree = DynValue::Array(specs);
        proof {
            lemma_array_view(specs_tree);
            assert(specs_tree@->Array_0 =~= specs_value(self.archetypes.deep_view())->Array_0);
        }
        let n = self.embed.len();
        let mut blobs: Vec<(String, DynValue)> = Vec::new();
        let mut k: usize = 0;
        while k < n
            invariant
                self.embed.wf(),
                n == self.embed.names().len(),
                k <= n,
                blobs@.len() == k,
                forall|j: int|
                    0 <= j < k ==> (#[trigger] blobs@[j]).0@ == self.embed.names()[j] && blobs@[j].1@
                        == blob_value(
                        self.embed.values()[j].format@,
                        self.embed.values()[j].data@,
                    ),
            decreases n - k,
        {
            let blob = self.embed.value_at(k);
            let mut parts: Vec<(String, DynValue)> = Vec::new();
            parts.push((String::from_str("format"), DynValue::String(blob.format.clone())));
            parts.push((String::from_str("data"), DynValue::String(blob.data.clone())));
            let tree = DynValue::Object(parts);
            proof {
                lemma_object_view(tree);
                assert(tree@->Object_0 =~= blob_value(blob.format@, blob.data@)->Object_0);
            }
            blobs.push((self.embed.name_at(k).clone(), tree));
            k += 1;
        }
        let embed_tree = DynValue::Object(blobs);
        proof {
            lemma_object_view(embed_tree);
            assert(embed_tree@->Object_0 =~= embed_value(self.embed)->Object_0);
        }
        fields.push((String::from_str("archetypes"), specs_tree));
        fields.push((String::from_str("embed"), embed_tree));
        fields.push((String::from_str("resources"), table_to_value(&self.resources)));
        proof {
            want = want.push(("archetypes"@, specs_value(self.archetypes.deep_view())));
            want = want.push(("embed"@, embed_value(self.embed)));
            want = want.push(("resources"@, table_value(self.resources)));
        }
        assert(fields@.len() == want.len());
        assert(forall|j: int|
            0 <= j < want.len() ==> (#[trigger] fields@[j]).0@ == want[j].0 && fields@[j].1@
                == want[j].1);
        let r = DynValue::Object(fields);
        proof {
            lemma_object_view(r);
            assert(r@->Object_0 =~= want);
            assert(want =~= world_value(*self)->Object_0);
        }
        r
    }

    /// Reads the world part of a manifest from a tree. The embedded blobs may
    /// be left out, and so may the name; of two fields of one name in a table
    /// the later one stands.
    pub fn from_value(v: &DynValue) -> (r: Result<WorldWithAurora, String>)
        ensures
            r is Ok <==> is_world_value(v@),
            r matches Err(msg) ==> msg@ == "not a world manifest"@,
            r matches Ok(w) ==> world_read_from(w, v@),
    {
        match v {
            DynValue::Object(_) => {},
            _ => {
                return Err(String::from_str("not a world manifest"));
            },
        }
        let version = match text_of(field(v, "version")) {
            Some(version) => version,
            None => {
                return Err(String::from_str("not a world manifest"));
            },
        };
        let name = match text_or_none(field(v, "name")) {
            Some(name) => name,
            None => {
                return Err(String::from_str("not a world manifest"));
            },
        };
        let list = match field(v, "archetypes") {
            Some(list) => list,
            None => {
                return Err(String::from_str("not a world manifest"));
            },
        };
        let mut archetypes: Vec<ArchetypeSpec> = Vec::new();
        match list {
            DynValue::Array(items) => {
                proof {
                    lemma_array_view(*list);
                }
                let mut i: usize = 0;
                while i < items.len()
                    invariant
                        v@ is Object,
                        field_of(v@, "archetypes"@) == Some(list@),
                        list@ is Array,
                        list@->Array_0.len() == items@.len(),
                        forall|k: int|
                            0 <= k < items@.len() ==> (#[trigger] list@->Array_0[k]) == items@[k]@,
                        i <= items.len(),
                        archetypes@.len() == i,
                        forall|k: int|
                            0 <= k < i ==> spec_of_value(#[trigger] list@->Array_0[k]) is Some,
                        forall|k: int|
                            0 <= k < i ==> (#[trigger] archetypes@[k]).deep_view() == spec_of_value(
                                list@->Array_0[k],
                            ).unwrap(),
                    decreases items.len() - i,
                {
                    match spec_from_value(&items[i]) {
                        Some(spec) => {
                            archetypes.push(spec);
                        },
                        None => {
                            assert(spec_of_value(list@->Array_0[i as int]) is None);
                            return Err(String::from_str("not a world manifest"));
                        },
                    }
                    i += 1;
                }
                assert(archetypes.deep_view() =~= specs_of(list@).unwrap());
            },
            _ => {
                return Err(String::from_str("not a world manifest"));
            },
        }
        let mut embed: NameMap<EmbeddedBlob> = NameMap::new();
        let embed_tree = match field(v, "embed") {
            None => DynValue::Object(Vec::new()),
            Some(tree) => tree.clone(),
        };
        match &embed_tree {
            DynValue::Object(entries) => {
                proof {
                    lemma_object_view(embed_tree);
                    if field_of(v@, "embed"@) is None {
                        assert(embed_tree@->Object_0 =~= Seq::empty());
                    }
                }
                let ghost fields = embed_tree@->Object_0;
                let mut i: usize = 0;
                assert(fields.take(0) =~= Seq::empty());
                while i < entries.len()
                    invariant
                        v@ is Object,
                        table_fields(v@, "embed"@, true) == Some(fields),
                        fields.len() == entries@.len(),
                        forall|k: int|
                            0 <= k < entries@.len() ==> (#[trigger] fields[k]) == (
                                entries@[k].0@,
                                entries@[k].1@,
                            ),
                        i <= entries.len(),
                        embed.wf(),
                        all_blobs(fields.take(i as int)),
                        forall|name: Seq<char>| #[trigger]
                            embed_agrees(embed, fields.take(i as int), name),
                    decreases entries.len() - i,
                {
                    let entry = &entries[i];
                    proof {
                        assert(fields.take(i + 1).drop_last() =~= fields.take(i as int));
                        assert(fields.take(i + 1).last() == fields[i as int]);
                    }
                    let format = text_of(field(&entry.1, "format"));
                    let data = text_of(field(&entry.1, "data"));
                    let ghost before = embed;
                    match (format, data) {
                        (Some(format), Some(data)) => {
                            embed.insert(entry.0.clone(), EmbeddedBlob { format, data });
                            proof {
                                assert forall|name: Seq<char>| #[trigger]
                                    embed_agrees(embed, fields.take(i + 1), name) by {
                                    assert(embed_agrees(before, fields.take(i as int), name));
                                }
                                assert forall|k: int| 0 <= k < i + 1 implies blob_of_value(
                                    (#[trigger] fields.take(i + 1)[k]).1,
                                ) is Some by {
                                    if k < i {
                                        assert(fields.take(i as int)[k] == fields[k]);
                                    }
                                }
                            }
                        },
                        _ => {
                            proof {
                                assert(blob_of_value(fields[i as int].1) is None);
                                assert(!all_blobs(fields));
                            }
                            return Err(String::from_str("not a world manifest"));
                        },
                    }
                    i += 1;
                }
                assert(fields.take(fields.len() as int) =~= fields);
            },
            _ => {
                return Err(String::from_str("not a world manifest"));
            },
        }
        let mut resources: NameMap<DynValue> = NameMap::new();
        let resources_tree = match field(v, "resources") {
            None => {
                return Err(String::from_str("not a world manifest"));
            },
            Some(tree) => tree,
        };
        match resources_tree {
            DynValue::Object(entries) => {
                proof {
                    lemma_object_view(*resources_tree);
                }
                let ghost fields = resources_tree@->Object_0;
                let mut i: usize = 0;
                assert(fields.take(0) =~= Seq::empty());
                while i < entries.len()
                    invariant
                        fields.len() == entries@.len(),
                        forall|k: int|
                            0 <= k < entries@.len() ==> (#[trigger] fields[k]) == (
                                entries@[k].0@,
                                entries@[k].1@,
                            ),
                        i <= entries.len(),
                        resources.wf(),
                        forall|name: Seq<char>| #[trigger]
                            table_agrees(resources, fields.take(i as int), name),
                    decreases entries.len() - i,
                {
                    let entry = &entries[i];
                    proof {
                        assert(fields.take(i + 1).drop_last() =~= fields.take(i as int));
                        assert(fields.take(i + 1).last() == fields[i as int]);
                    }
                    let ghost before = resources;
                    resources.insert(entry.0.clone(), entry.1.clone());
                    proof {
                        assert forall|name: Seq<char>| #[trigger]
                            table_agrees(resources, fields.take(i + 1), name) by {
                            assert(table_agrees(before, fields.take(i as int), name));
                        }
                    }
                    i += 1;
                }
                assert(fields.take(fields.len() as int) =~= fields);
            },
            _ => {
                return Err(String::from_str("not a world manifest"));
            },
        }
        Ok(
            WorldWithAurora {
                version,
                name,
                archetypes,
                embed,
                external_payloads: NameMap::new(),
                resources,
            },
        )
    }
}

/// The text form that a manifest format writes.
pub open spec fn text_form_of(format: ManifestOutputFormat) -> TextForm {
    match format {
        ManifestOutputFormat::Json => TextForm::JsonPretty,
        ManifestOutputFormat::Toml => TextForm::Toml,
    }
}

impl AuroraWorldManifest {
    /// Whether the tables of the manifest are well formed.
    pub open spec fn wf(&self) -> bool {
        &&& self.world.wf()
        &&& self.metadata matches Some(meta) ==> meta.wf()
    }

    /// The manifest as a tree.
    pub fn to_value(&self) -> (r: DynValue)
        requires
            self.wf(),
        ensures
            r@ == manifest_value(*self),
    {
        let mut fields: Vec<(String, DynValue)> = Vec::new();
        let ghost mut want: Seq<(Seq<char>, DynModel)> = Seq::empty();
        if let Some(meta) = &self.metadata {
            fields.push((String::from_str("metadata"), table_to_value(meta)));
            proof {
                want = want.push(("metadata"@, table_value(*meta)));
            }
        }
        fields.push((String::from_str("world"), self.world.to_value()));
        proof {
            want = want.push(("world"@, world_value(self.world)));
        }
        assert(fields@.len() == want.len());
        assert(forall|j: int|
            0 <= j < want.len() ==> (#[trigger] fields@[j]).0@ == want[j].0 && fields@[j].1@
                == want[j].1);
        let r = DynValue::Object(fields);
        proof {
            lemma_object_view(r);
            assert(r@->Object_0 =~= want);
            assert(want =~= manifest_value(*self)->Object_0);
        }
        r
    }

    /// The text of the manifest file: indented JSON, or TOML.
    pub fn to_text(&self, format: ManifestOutputFormat) -> (r: Result<String, String>)
        requires
            self.wf(),
        ensures
            match r {
                Ok(text) => written(text_form_of(format), manifest_value(*self)) == Some(text@),
                Err(_) => written(text_form_of(format), manifest_value(*self)) is None,
            },
    {
        let tree = self.to_value();
        match format {
            ManifestOutputFormat::Json => write_text(TextForm::JsonPretty, &tree),
            ManifestOutputFormat::Toml => write_text(TextForm::Toml, &tree),
        }
    }

    /// Reads a manifest from a tree: an object with the world part under
    /// `world` and, where it has them, the notes of its author under
    /// `metadata`. Of two notes of one name the later one stands.
    pub fn from_value(v: &DynValue) -> (r: Result<AuroraWorldManifest, String>)
        ensures
            match r {
                Ok(m) => is_manifest_value(v@) && manifest_read_from(m, v@),
                Err(_) => !is_manifest_value(v@),
            },
    {
        let world = match field(v, "world") {
            Some(w) => match WorldWithAurora::from_value(w) {
                Ok(world) => world,
                Err(reason) => {
                    return Err(reason);
                },
            },
            None => {
                return Err(String::from_str("not a manifest"));
            },
        };
        let metadata = match field(v, "metadata") {
            None => None,
            Some(DynValue::Null) => None,
            Some(tree) => match tree {
                DynValue::Object(entries) => {
                    proof {
                        lemma_object_view(*tree);
                    }
                    let ghost fields = tree@->Object_0;
                    let mut meta: NameMap<DynValue> = NameMap::new();
                    let mut i: usize = 0;
                    assert(fields.take(0) =~= Seq::empty());
                    while i < entries.len()
                        invariant
                            fields.len() == entries@.len(),
                            forall|k: int|
                                0 <= k < entries@.len() ==> (#[trigger] fields[k]) == (
                                    entries@[k].0@,
                                    entries@[k].1@,
                                ),
                            i <= entries.len(),
                            meta.wf(),
                            forall|name: Seq<char>| #[trigger]
                                table_agrees(meta, fields.take(i as int), name),
                        decreases entries.len() - i,
                    {
                        proof {
                            assert(fields.take(i + 1).drop_last() =~= fields.take(i as int));
                            assert(fields.take(i + 1).last() == fields[i as int]);
                        }
                        let ghost before = meta;
                        meta.insert(entries[i].0.clone(), entries[i].1.clone());
                        proof {
                            assert forall|name: Seq<char>| #[trigger]
                                table_agrees(meta, fields.take(i + 1), name) by {
                                assert(table_agrees(before, fields.take(i as int), name));
                            }
                        }
                        i += 1;
                    }
                    assert(fields.take(fields.len() as int) =~= fields);
                    assert(tree@ == DynModel::Object(fields));
                    Some(meta)
                },
                _ => {
                    return Err(String::from_str("not a manifest"));
                },
            },
        };
        Ok(AuroraWorldManifest { metadata, world })
    }

    /// Reads a manifest from the text of a manifest file.
    pub fn from_text(text: &str, format: ManifestOutputFormat) -> (r: Result<
        AuroraWorldManifest,
        String,
    >)
        ensures
            match read(text_form_of(format), text@) {
                Some(v) => match r {
                    Ok(m) => is_manifest_value(v) && manifest_read_from(m, v),
                    Err(_) => !is_manifest_value(v),
                },
                None => r is Err,
            },
    {
        let form = match format {
            ManifestOutputFormat::Json => TextForm::JsonPretty,
            ManifestOutputFormat::Toml => TextForm::Toml,
        };
        match read_text(form, text) {
            Ok(tree) => AuroraWorldManifest::from_value(&tree),
            Err(reason) => Err(reason),
        }
    }
}

} // verus!
