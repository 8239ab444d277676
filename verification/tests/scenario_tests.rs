use bevy_archive::archetype_archive::{ArchetypeSnapshot, StorageTypeFlag, WorldArchSnapshot};
use bevy_archive::aurora_archive::{
    load_blob_from_location_with_base, AuroraFormat, AuroraLocation, AuroraWorldManifest,
    BlobLoader, ExportFormat, ExportGuidance, GuidedArchetype, LoadedBlob, ManifestOutputFormat,
    OutputStrategy, WorldWithAurora,
};
use bevy_archive::bevy_registry::{
    remap_rows, EntityMap, EntityRemapper, LoadAction, SnapshotMode, SnapshotRegistry,
};
use bevy_archive::binary_archive::msgpack_archive::MsgPackArchive;
use bevy_archive::binary_archive::world_snapshot::zip_snapshot::{read_zip, write_zip};
use bevy_archive::dyn_value::DynValue;
use bevy_archive::entity_archive::WorldSnapshot;
use bevy_archive::json::TextForm;
use bevy_archive::name_map::NameMap;

struct EntryLoader {
    entries: Vec<(String, Vec<u8>)>,
    asked: Vec<String>,
}

impl BlobLoader for EntryLoader {
    fn load_blob(&mut self, path: &str) -> Result<Vec<u8>, String> {
        self.asked.push(path.to_string());
        match self.entries.iter().find(|(p, _)| p == path) {
            Some((_, bytes)) => Ok(bytes.clone()),
            None => Err("no such entry".to_string()),
        }
    }
}

fn num(v: f64) -> DynValue {
    DynValue::Number(serde_json::Number::from_f64(v).unwrap())
}

fn whole(v: i64) -> DynValue {
    DynValue::Number(serde_json::Number::from(v))
}

fn obj(fields: Vec<(&str, DynValue)>) -> DynValue {
    DynValue::Object(fields.into_iter().map(|(k, v)| (k.to_string(), v)).collect())
}

fn arch(types: &[&str], entities: Vec<u32>, columns: Vec<Vec<DynValue>>) -> ArchetypeSnapshot {
    ArchetypeSnapshot {
        component_types: types.iter().map(|s| s.to_string()).collect(),
        storage_types: types.iter().map(|_| StorageTypeFlag::Table).collect(),
        columns,
        entities,
    }
}

fn position(x: f64, y: f64) -> DynValue {
    obj(vec![("x", num(x)), ("y", num(y))])
}

fn moving_world() -> WorldArchSnapshot {
    WorldArchSnapshot {
        entities: vec![0, 1],
        archetypes: vec![
            arch(
                &["Position", "Velocity"],
                vec![0],
                vec![
                    vec![position(1.0, 2.0)],
                    vec![obj(vec![("dx", num(0.1f32 as f64)), ("dy", num(-0.2f32 as f64))])],
                ],
            ),
            arch(&["Position"], vec![1], vec![vec![position(9.0, 3.5)]]),
        ],
    }
}

fn guided(world: &WorldArchSnapshot) -> Vec<GuidedArchetype> {
    world
        .archetypes
        .iter()
        .enumerate()
        .map(|(i, a)| GuidedArchetype {
            index: i,
            components: a.component_types.clone(),
            snapshot: a.clone(),
            parquet: Some(vec![b'P', b'A', b'R', i as u8]),
        })
        .collect()
}

#[test]
fn two_archetypes_come_back_from_json() {
    let world = moving_world();
    let (manifest_world, _) =
        WorldWithAurora::from_guided(&guided(&world), &ExportGuidance::embed_all(ExportFormat::Json)).unwrap();
    let manifest = AuroraWorldManifest { metadata: None, world: manifest_world };
    let json = manifest.to_text(ManifestOutputFormat::Json).unwrap();
    let loaded = AuroraWorldManifest::from_text(&json, ManifestOutputFormat::Json).unwrap();
    let mut loader = EntryLoader { entries: vec![], asked: vec![] };
    let back = loaded.world.to_snapshot(&mut loader).unwrap();
    assert_eq!(back.archetypes.len(), 2);
    assert_eq!(back, world);
    let entities = WorldSnapshot::from_arch(&back);
    assert_eq!(entities.entities.len(), 2);
    assert_eq!(entities.entities[0].components.len(), 2);
    assert_eq!(entities.entities[1].components.len(), 1);
    assert_eq!(entities.entities[1].components[0].value, position(9.0, 3.5));
    assert_eq!(entities.to_arch().archetypes.len(), 2);
}

#[test]
fn placeholder_tags_carry_no_payload() {
    let mut registry = SnapshotRegistry::default();
    registry.register_with_name_mode("Tag", 1, 0, None, SnapshotMode::Placeholder);
    let mode = registry.get_factory("Tag").unwrap().mode;
    let cells: Vec<DynValue> = (0..3).map(|_| mode.saved_cell(obj(vec![("unused", whole(1))]))).collect();
    assert_eq!(cells, vec![DynValue::Null; 3]);
    let tagged = arch(&["Tag"], vec![0, 1, 2], vec![cells]);
    let archive = MsgPackArchive::from_snapshots(vec![0, 1, 2], &vec![tagged.clone()], &NameMap::new()).unwrap();
    assert_eq!(
        archive.0.archetypes[0].0,
        vec![
            0x94, 0x91, 0xa3, b'T', b'a', b'g', 0x91, 0xa5, b'T', b'a', b'b', b'l', b'e', 0x91, 0x93,
            0xc0, 0xc0, 0xc0, 0x93, 0x00, 0x01, 0x02
        ]
    );
    let back = archive.to_world_snapshot().unwrap();
    assert_eq!(back.archetypes, vec![tagged]);
    assert_eq!(registry.loadable_columns(&back.archetypes[0]).len(), 1);
    assert_eq!(mode.load_action(false), LoadAction::InsertDefault);
}

#[test]
fn edges_follow_their_targets_into_another_world() {
    // The first hundred entities of the world are taken; the loaded ones come behind them.
    let source = vec![0u32, 1];
    let spawned = vec![100u64, 101];
    let mapper = EntityMap::from_rows(&source, &spawned, u64::MAX);
    assert_eq!(remap_rows(&source, &mapper), vec![100, 101]);
    let edge_target_index = 0u32;
    assert_eq!(mapper.map(edge_target_index), 100);
    assert_eq!(mapper.map(7), u64::MAX);
}

#[test]
fn archive_with_two_payloads_in_a_container() {
    let world = moving_world();
    let mut guidance = ExportGuidance::embed_all(ExportFormat::Csv);
    guidance.set_strategy_for(0, OutputStrategy::Return(ExportFormat::Parquet, "archetypes".to_string()));
    guidance.set_strategy_for(1, OutputStrategy::Return(ExportFormat::Csv, "archetypes/".to_string()));
    let (manifest_world, files) = WorldWithAurora::from_guided(&guided(&world), &guidance).unwrap();
    assert!(files.is_empty());
    assert_eq!(manifest_world.archetypes.len(), 2);
    assert_eq!(manifest_world.external_payloads.len(), 2);
    assert_eq!(manifest_world.archetypes[0].source.0, "file://archetypes/arch_0.parquet");
    assert_eq!(manifest_world.archetypes[1].source.0, "file://archetypes/arch_1.csv");

    let manifest = AuroraWorldManifest { metadata: None, world: manifest_world };
    let mut entries = vec![(
        "manifest.toml".to_string(),
        manifest.to_text(ManifestOutputFormat::Toml).unwrap().into_bytes(),
    )];
    for i in 0..manifest.world.external_payloads.len() {
        entries.push((
            manifest.world.external_payloads.name_at(i).clone(),
            manifest.world.external_payloads.value_at(i).clone(),
        ));
    }
    let zip = write_zip(&entries, None).unwrap();

    let reopened = read_zip(&zip).unwrap();
    assert_eq!(reopened, entries);
    let text = String::from_utf8(reopened[0].1.clone()).unwrap();
    let loaded = AuroraWorldManifest::from_text(&text, ManifestOutputFormat::Toml).unwrap();
    assert_eq!(loaded.world.archetypes.len(), 2);
    assert!(loaded.world.embed.is_empty());
    let mut loader = EntryLoader { entries: reopened, asked: vec![] };
    let parquet = load_blob_from_location_with_base(
        &AuroraLocation::parse(&loaded.world.archetypes[0].source.0),
        &loaded.world.embed,
        "",
        &mut loader,
    )
    .unwrap();
    assert_eq!(parquet, LoadedBlob { format: AuroraFormat::Parquet, bytes: vec![b'P', b'A', b'R', 0] });
    let csv = load_blob_from_location_with_base(
        &AuroraLocation::parse(&loaded.world.archetypes[1].source.0),
        &loaded.world.embed,
        "",
        &mut loader,
    )
    .unwrap();
    assert_eq!(csv.format, AuroraFormat::Csv);
    assert_eq!(
        bevy_archive::aurora_archive::snapshot_of_blob(&csv, &None).unwrap(),
        world.archetypes[1]
    );
    assert_eq!(loader.asked, vec!["archetypes/arch_0.parquet", "archetypes/arch_1.csv"]);
    let mut based = EntryLoader { entries: vec![], asked: vec![] };
    let missing = load_blob_from_location_with_base(
        &AuroraLocation::File("a.csv".into()),
        &loaded.world.embed,
        "root/dir",
        &mut based,
    );
    assert_eq!(missing.unwrap_err(), "Failed to read root/dir/a.csv: no such entry");
    assert_eq!(based.asked, vec!["root/dir/a.csv"]);
}

#[test]
fn children_find_their_parent_after_toml() {
    // The parent is entity 0; the children name it by its index.
    let world = WorldArchSnapshot {
        entities: vec![0, 1, 2],
        archetypes: vec![
            arch(&["Name"], vec![0], vec![vec![DynValue::String("parent".into())]]),
            arch(&["ChildOf"], vec![1, 2], vec![vec![whole(0), whole(0)]]),
        ],
    };
    let entities = WorldSnapshot::from_arch(&world);
    let toml = entities.to_text(TextForm::Toml).unwrap();
    let loaded = WorldSnapshot::from_text(&toml, TextForm::Toml).unwrap();
    assert_eq!(loaded, entities);
    let mapper = EntityMap::from_rows(&vec![0, 1, 2], &vec![10, 11, 12], u64::MAX);
    let children: Vec<u64> = loaded
        .entities
        .iter()
        .filter(|e| e.components.iter().any(|c| c.ty == "ChildOf"))
        .map(|e| mapper.map(e.id as u32))
        .collect();
    assert_eq!(children, vec![11, 12]);
    for e in &loaded.entities {
        for c in e.components.iter().filter(|c| c.ty == "ChildOf") {
            let parent = match &c.value {
                DynValue::Number(n) => n.as_u64().unwrap() as u32,
                _ => panic!("the parent is named by its index"),
            };
            assert_eq!(mapper.map(parent), 10);
        }
    }
}
