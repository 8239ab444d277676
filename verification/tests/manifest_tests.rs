use bevy_archive::archetype_archive::{ArchetypeSnapshot, StorageTypeFlag, WorldArchSnapshot};
use bevy_archive::archetype_archive::max_id;
use bevy_archive::aurora_archive::{
    into_loaded, listed_blob_from_file, load_listed_blob, LoadedArchetype,
};
use bevy_archive::aurora_archive::{
    arch_name, load_blob_from_location, load_embedded_blob, parse_blob, serialize_arch_data,
    snapshot_of_blob, ArchetypeSpec, AuroraFormat, AuroraInternalFormat, AuroraLocation,
    AuroraWorldManifest, BlobLoader, EmbeddedBlob, ExportFormat, ExportGuidance, FileWrite,
    FsBlobLoader, GuidedArchetype, LoadedBlob, ManifestOutputFormat, OutputStrategy, Url,
    WorldWithAurora,
};
use bevy_archive::aurora_archive::path_extension;
use bevy_archive::dyn_value::DynValue;
use bevy_archive::name_map::NameMap;

struct MemoryLoader {
    files: Vec<(String, Vec<u8>)>,
}

impl BlobLoader for MemoryLoader {
    fn load_blob(&mut self, path: &str) -> Result<Vec<u8>, String> {
        match self.files.iter().find(|(p, _)| p == path) {
            Some((_, bytes)) => Ok(bytes.clone()),
            None => Err("no such file".to_string()),
        }
    }
}

fn whole(v: i64) -> DynValue {
    DynValue::Number(serde_json::Number::from(v))
}

fn obj(fields: Vec<(&str, DynValue)>) -> DynValue {
    DynValue::Object(fields.into_iter().map(|(k, v)| (k.to_string(), v)).collect())
}

fn arch(types: &[&str], entities: Vec<u32>, columns: Vec<Vec<DynValue>>) -> ArchetypeSnapshot {
    ArchetypeSnapshot {
        component_types: types.iter().map(|s| s.to_string()).collect(),
        storage_types: types.iter().map(|_| StorageTypeFlag::Table).collect(),
        columns,
        entities,
    }
}

fn sample_world() -> WorldArchSnapshot {
    WorldArchSnapshot {
        entities: vec![0, 1, 2],
        archetypes: vec![
            arch(
                &["Position", "Velocity"],
                vec![0],
                vec![
                    vec![obj(vec![("x", whole(1)), ("y", whole(2))])],
                    vec![obj(vec![("dx", whole(3)), ("dy", whole(-4))])],
                ],
            ),
            arch(&["Empty"], vec![], vec![vec![]]),
            arch(
                &["Position"],
                vec![2, 1],
                vec![vec![obj(vec![("x", whole(9)), ("y", whole(3))]), obj(vec![("x", whole(0)), ("y", whole(0))])]],
            ),
        ],
    }
}

#[test]
fn test_aurora_snapshot_roundtrip() {
    let snapshot = sample_world();
    let table = WorldWithAurora::from_snapshot(&snapshot).unwrap();
    assert_eq!(table.archetypes.len(), 2);
    assert_eq!(table.archetypes[0].name, Some("arch_0".to_string()));
    assert_eq!(table.archetypes[0].source, Url("embed://arch_0".to_string()));
    assert_eq!(table.archetypes[1].source, Url("embed://arch_2".to_string()));
    assert_eq!(table.archetypes[1].components, vec!["Position"]);
    let blob = table.embed.get("arch_0").unwrap();
    assert_eq!(blob.format, "csv");
    assert_eq!(blob.data, "id,Position.x,Position.y,Velocity.dx,Velocity.dy\n0,1,2,3,-4\n");

    let data = bevy_archive::json::write_text(bevy_archive::json::TextForm::Toml, &table.to_value()).unwrap();
    let tree = bevy_archive::json::read_text(bevy_archive::json::TextForm::Toml, &data).unwrap();
    let deserialized = WorldWithAurora::from_value(&tree).unwrap();
    assert_eq!(deserialized.archetypes, table.archetypes);

    let mut loader = MemoryLoader { files: vec![] };
    let back = deserialized.to_snapshot(&mut loader).unwrap();
    assert_eq!(back.entities, vec![0, 1, 2]);
    assert_eq!(back.archetypes.len(), 2);
    assert_eq!(back.archetypes[0], snapshot.archetypes[0]);
    assert_eq!(back.archetypes[1], snapshot.archetypes[2]);
}

#[test]
fn test_aurora_manifest_snapshot_roundtrip() {
    let mut world = WorldWithAurora::from_snapshot(&sample_world()).unwrap();
    world.resources.insert("Config".to_string(), obj(vec![("difficulty", whole(3))]));
    let manifest = AuroraWorldManifest { metadata: None, world };
    let toml = manifest.to_text(ManifestOutputFormat::Toml).unwrap();
    let deserialized = AuroraWorldManifest::from_text(&toml, ManifestOutputFormat::Toml)
        .expect("Failed to deserialize TOML");
    assert!(deserialized.metadata.is_none());
    assert_eq!(deserialized.world.version, "0.1");
    assert_eq!(deserialized.world.archetypes, manifest.world.archetypes);
    assert_eq!(
        deserialized.world.embed.get("arch_2"),
        manifest.world.embed.get("arch_2")
    );
    assert_eq!(
        deserialized.world.resources.get("Config"),
        Some(&obj(vec![("difficulty", whole(3))]))
    );
    let json = manifest.to_text(ManifestOutputFormat::Json).unwrap();
    let again = AuroraWorldManifest::from_text(&json, ManifestOutputFormat::Json).unwrap();
    assert_eq!(again.world.archetypes, manifest.world.archetypes);
    let mut loader = MemoryLoader { files: vec![] };
    assert_eq!(
        again.world.to_snapshot(&mut loader).unwrap().archetypes,
        manifest.world.to_snapshot(&mut loader).unwrap().archetypes
    );
    assert!(AuroraWorldManifest::from_text("{\"world\":{}}", ManifestOutputFormat::Json).is_err());
    assert!(AuroraWorldManifest::from_text("{}", ManifestOutputFormat::Json).is_err());
}

#[test]
fn test_msgpack_manifest_snapshot_roundtrip() {
    let snapshot = sample_world();
    let guide = ExportGuidance::embed_all(ExportFormat::MsgPack);
    let archetypes: Vec<GuidedArchetype> = snapshot
        .archetypes
        .iter()
        .enumerate()
        .map(|(i, a)| GuidedArchetype {
            index: i,
            components: a.component_types.clone(),
            snapshot: a.clone(),
            parquet: None,
        })
        .collect();
    let (world, files) = WorldWithAurora::from_guided(&archetypes, &guide).unwrap();
    assert!(files.is_empty());
    assert_eq!(world.archetypes.len(), 2);
    assert_eq!(world.embed.get("arch_0").unwrap().format, "msgpack");
    let manifest = AuroraWorldManifest { metadata: None, world };
    let toml = manifest.to_text(ManifestOutputFormat::Toml).unwrap();
    let deserialized = AuroraWorldManifest::from_text(&toml, ManifestOutputFormat::Toml)
        .expect("Failed to deserialize TOML");
    let mut loader = MemoryLoader { files: vec![] };
    let back = deserialized.world.to_snapshot(&mut loader).unwrap();
    assert_eq!(back.archetypes[0], snapshot.archetypes[0]);
    assert_eq!(back.archetypes[1], snapshot.archetypes[2]);
}

#[test]
fn test_csv_msgpack_manifest_snapshot_roundtrip() {
    let snapshot = sample_world();
    let guide = ExportGuidance::embed_all(ExportFormat::CsvMsgPack);
    let archetypes: Vec<GuidedArchetype> = snapshot
        .archetypes
        .iter()
        .enumerate()
        .map(|(i, a)| GuidedArchetype {
            index: i,
            components: a.component_types.clone(),
            snapshot: a.clone(),
            parquet: None,
        })
        .collect();
    let (world, _) = WorldWithAurora::from_guided(&archetypes, &guide).unwrap();
    assert_eq!(world.embed.get("arch_2").unwrap().format, "csv.msgpack");
    let mut loader = MemoryLoader { files: vec![] };
    let back = world.to_snapshot(&mut loader).unwrap();
    assert_eq!(back.archetypes[0], snapshot.archetypes[0]);
    assert_eq!(back.archetypes[1], snapshot.archetypes[2]);
    assert_eq!(back.entities, vec![0, 1, 2]);
}

#[test]
fn guided_archetypes_go_where_the_guidance_says() {
    let snapshot = sample_world();
    let mut guide = ExportGuidance::file_all(ExportFormat::Json, "out/dir".to_string());
    guide.set_strategy_for(2, OutputStrategy::Return(ExportFormat::Csv, "virtual/".to_string()));
    let archetypes: Vec<GuidedArchetype> = snapshot
        .archetypes
        .iter()
        .enumerate()
        .map(|(i, a)| GuidedArchetype {
            index: i,
            components: a.component_types.clone(),
            snapshot: a.clone(),
            parquet: None,
        })
        .collect();
    let (world, files) = WorldWithAurora::from_guided(&archetypes, &guide).unwrap();
    assert_eq!(world.archetypes.len(), 2);
    assert_eq!(world.archetypes[0].source, Url("file://out/dir/arch_0.json".to_string()));
    assert_eq!(world.archetypes[1].source, Url("file://virtual/arch_2.csv".to_string()));
    assert!(world.embed.is_empty());
    assert_eq!(files.len(), 1);
    assert_eq!(files[0].path, "out/dir/arch_0.json");
    assert_eq!(
        world.external_payloads.get("virtual/arch_2.csv"),
        Some(&b"id,Position.x,Position.y\n2,9,3\n1,0,0\n".to_vec())
    );
    let mut loader = MemoryLoader {
        files: vec![
            ("out/dir/arch_0.json".to_string(), files[0].bytes.clone()),
            (
                "virtual/arch_2.csv".to_string(),
                world.external_payloads.get("virtual/arch_2.csv").unwrap().clone(),
            ),
        ],
    };
    let back = world.to_snapshot(&mut loader).unwrap();
    assert_eq!(back.archetypes[0], snapshot.archetypes[0]);
    assert_eq!(back.archetypes[1], snapshot.archetypes[2]);
    let mut empty = MemoryLoader { files: vec![] };
    assert_eq!(
        world.to_snapshot(&mut empty).unwrap_err(),
        "Failed to read out/dir/arch_0.json: no such file"
    );
    let needs_parquet = ExportGuidance::embed_all(ExportFormat::Parquet);
    assert_eq!(
        WorldWithAurora::from_guided(&archetypes, &needs_parquet).unwrap_err(),
        "Parquet data is missing"
    );
}

#[test]
fn locations_of_sources() {
    assert_eq!(AuroraLocation::parse("embed://arch_0"), AuroraLocation::Embed("arch_0".into()));
    assert_eq!(AuroraLocation::parse("file://a/b.csv"), AuroraLocation::File("a/b.csv".into()));
    assert_eq!(AuroraLocation::parse("file:///abs"), AuroraLocation::File("/abs".into()));
    assert_eq!(AuroraLocation::parse("http://x"), AuroraLocation::Unknown("http://x".into()));
    assert_eq!(AuroraLocation::parse("embed:/x"), AuroraLocation::Unknown("embed:/x".into()));
    assert_eq!(AuroraLocation::parse(""), AuroraLocation::Unknown("".into()));
}

#[test]
fn formats_of_paths_and_names() {
    assert_eq!(AuroraFormat::from_path("a/arch_0.csv"), AuroraFormat::Csv);
    assert_eq!(AuroraFormat::from_path("arch_0.json"), AuroraFormat::Json);
    assert_eq!(AuroraFormat::from_path("arch_0.csv.msgpack"), AuroraFormat::CsvMsgPack);
    assert_eq!(AuroraFormat::from_path("arch_0.msgpack"), AuroraFormat::MsgPack);
    assert_eq!(AuroraFormat::from_path("arch_0.parquet"), AuroraFormat::Parquet);
    assert_eq!(AuroraFormat::from_path("arch_0.toml"), AuroraFormat::Unknown);
    assert_eq!(AuroraFormat::from_path("csv"), AuroraFormat::Unknown);
    assert_eq!(AuroraFormat::from_str("csv"), AuroraFormat::Csv);
    assert_eq!(AuroraFormat::from_str("json"), AuroraFormat::Json);
    assert_eq!(AuroraFormat::from_str("msgpack"), AuroraFormat::MsgPack);
    assert_eq!(AuroraFormat::from_str("csv.msgpack"), AuroraFormat::CsvMsgPack);
    assert_eq!(AuroraFormat::from_str("parquet"), AuroraFormat::Parquet);
    assert_eq!(AuroraFormat::from_str(".csv"), AuroraFormat::Unknown);
    assert_eq!(ExportFormat::CsvMsgPack.extension(), "csv.msgpack");
    assert_eq!(arch_name(12), "arch_12");
}

#[test]
fn blobs_resolve_as_the_manifest_says() {
    let mut embed: NameMap<EmbeddedBlob> = NameMap::new();
    embed.insert("text".into(), EmbeddedBlob { format: "csv".into(), data: "id\n1\n".into() });
    embed.insert("bin".into(), EmbeddedBlob { format: "msgpack".into(), data: "aGVsbG8=".into() });
    embed.insert("bad".into(), EmbeddedBlob { format: "parquet".into(), data: "not base64!".into() });
    let mut loader = MemoryLoader { files: vec![("data/a.json".to_string(), b"{}".to_vec())] };

    let text = load_blob_from_location(&AuroraLocation::Embed("text".into()), &embed, &mut loader).unwrap();
    assert_eq!(text, LoadedBlob { format: AuroraFormat::Csv, bytes: b"id\n1\n".to_vec() });
    let bin = load_embedded_blob("bin", &embed).unwrap();
    assert_eq!(bin, LoadedBlob { format: AuroraFormat::MsgPack, bytes: b"hello".to_vec() });
    assert!(load_embedded_blob("bad", &embed).unwrap_err().starts_with("Base64 decode failed: "));
    assert_eq!(
        load_blob_from_location(&AuroraLocation::Embed("none".into()), &embed, &mut loader).unwrap_err(),
        "Embedded blob 'none' not found in manifest embed section."
    );
    let file = load_blob_from_location(&AuroraLocation::File("data/a.json".into()), &embed, &mut loader).unwrap();
    assert_eq!(file, LoadedBlob { format: AuroraFormat::Json, bytes: b"{}".to_vec() });
    assert_eq!(
        load_blob_from_location(&AuroraLocation::File("data/b.json".into()), &embed, &mut loader).unwrap_err(),
        "Failed to read data/b.json: no such file"
    );
    assert_eq!(
        load_blob_from_location(&AuroraLocation::Unknown("ftp://x".into()), &embed, &mut loader).unwrap_err(),
        "Unknown location type: ftp://x"
    );
}

#[test]
fn file_paths_resolve_against_the_base() {
    let loader = FsBlobLoader { base_dir: "base/dir".into() };
    assert_eq!(loader.resolve("a.csv"), "base/dir/a.csv");
    assert_eq!(loader.resolve("/abs/a.csv"), "/abs/a.csv");
    assert_eq!(FsBlobLoader { base_dir: "base/".into() }.resolve("a.csv"), "base/a.csv");
    assert_eq!(FsBlobLoader { base_dir: "".into() }.resolve("a.csv"), "a.csv");
    assert_eq!(FsBlobLoader { base_dir: ".".into() }.resolve("sub/a.csv"), "./sub/a.csv");
}

#[test]
fn guidance_strategies() {
    let mut guide = ExportGuidance::embed_all(ExportFormat::Csv);
    assert_eq!(guide.get_strategy(0), OutputStrategy::Embed(ExportFormat::Csv));
    guide.embed_as(1, ExportFormat::Json).file_as(2, ExportFormat::MsgPack, "dir".to_string());
    guide.set_strategy_for(3, OutputStrategy::Return(ExportFormat::Parquet, "v".to_string()));
    assert_eq!(guide.get_strategy(1), OutputStrategy::Embed(ExportFormat::Json));
    assert_eq!(guide.get_strategy(2), OutputStrategy::File(ExportFormat::MsgPack, "dir".to_string()));
    assert_eq!(guide.get_strategy(3), OutputStrategy::Return(ExportFormat::Parquet, "v".to_string()));
    assert_eq!(guide.get_strategy(4), OutputStrategy::Embed(ExportFormat::Csv));
    guide.embed_as(2, ExportFormat::Csv);
    assert_eq!(guide.get_strategy(2), OutputStrategy::Embed(ExportFormat::Csv));
    assert_eq!(guide.get_strategy(2).format(), ExportFormat::Csv);
    let files = ExportGuidance::file_all(ExportFormat::Json, "base".to_string());
    assert_eq!(files.get_strategy(7), OutputStrategy::File(ExportFormat::Json, "base".to_string()));
    assert!(files.per_arch.is_empty());
}

#[test]
fn placing_archetypes() {
    let mut world = WorldWithAurora::new();
    assert_eq!(world.version, "0.1");
    let none = world
        .place_archetype(0, vec!["A".into()], &OutputStrategy::Embed(ExportFormat::MsgPack), b"hello".to_vec())
        .unwrap();
    assert!(none.is_none());
    assert_eq!(
        world.embed.get("arch_0"),
        Some(&EmbeddedBlob { format: "msgpack".into(), data: "aGVsbG8=".into() })
    );
    world
        .place_archetype(1, vec![], &OutputStrategy::Embed(ExportFormat::Csv), b"id\n".to_vec())
        .unwrap();
    assert_eq!(world.embed.get("arch_1").unwrap().data, "id\n");
    assert_eq!(
        world.place_archetype(2, vec![], &OutputStrategy::Embed(ExportFormat::Json), vec![0xff, 0xfe]),
        Err("Embedded text is not UTF-8".to_string())
    );
    assert_eq!(world.archetypes.len(), 2);
    let file = world
        .place_archetype(3, vec![], &OutputStrategy::File(ExportFormat::Parquet, "/abs".into()), vec![1, 2])
        .unwrap();
    assert_eq!(file, Some(FileWrite { path: "/abs/arch_3.parquet".into(), bytes: vec![1, 2] }));
    world
        .place_archetype(4, vec![], &OutputStrategy::Return(ExportFormat::CsvMsgPack, "".into()), vec![3])
        .unwrap();
    world
        .place_archetype(5, vec![], &OutputStrategy::Return(ExportFormat::Csv, "zip/root".into()), vec![4])
        .unwrap();
    assert_eq!(world.external_payloads.get("arch_4.csv.msgpack"), Some(&vec![3]));
    assert_eq!(world.external_payloads.get("zip/root/arch_5.csv"), Some(&vec![4]));
    assert_eq!(
        world.archetypes[2],
        ArchetypeSpec {
            name: Some("arch_3".into()),
            components: vec![],
            storage: None,
            source: Url("file:///abs/arch_3.parquet".into()),
        }
    );
    assert_eq!(world.archetypes[4].source, Url("file://zip/root/arch_5.csv".into()));
}

#[test]
fn archetypes_in_every_format() {
    let snapshot = sample_world().archetypes[2].clone();
    let csv = serialize_arch_data(&snapshot, ExportFormat::Csv).unwrap();
    assert_eq!(csv, b"id,Position.x,Position.y\n2,9,3\n1,0,0\n".to_vec());
    let json = serialize_arch_data(&snapshot, ExportFormat::Json).unwrap();
    assert_eq!(
        String::from_utf8(json.clone()).unwrap(),
        "{\"columns\":[[{\"x\":9,\"y\":3},{\"x\":0,\"y\":0}]],\"component_types\":[\"Position\"],\"entities\":[2,1],\"storage_types\":[\"Table\"]}"
    );
    let msgpack = serialize_arch_data(&snapshot, ExportFormat::MsgPack).unwrap();
    assert_eq!(msgpack[0], 0x94);
    let csv_msgpack = serialize_arch_data(&snapshot, ExportFormat::CsvMsgPack).unwrap();
    assert_eq!(csv_msgpack[0], 0x93);
    assert_eq!(
        serialize_arch_data(&snapshot, ExportFormat::Parquet).unwrap_err(),
        "Parquet is written from typed columns, not from a snapshot"
    );
    for (format, bytes) in [
        (AuroraFormat::Csv, csv),
        (AuroraFormat::Json, json),
        (AuroraFormat::MsgPack, msgpack),
        (AuroraFormat::CsvMsgPack, csv_msgpack),
    ] {
        let blob = LoadedBlob { format, bytes };
        assert_eq!(snapshot_of_blob(&blob, &None).unwrap(), snapshot);
    }
    let hinted = snapshot_of_blob(
        &LoadedBlob { format: AuroraFormat::Csv, bytes: b"id,P\n1,2\n".to_vec() },
        &Some(vec![StorageTypeFlag::SparseSet]),
    )
    .unwrap();
    assert_eq!(hinted.storage_types, vec![StorageTypeFlag::SparseSet]);
    let unknown = LoadedBlob { format: AuroraFormat::Unknown, bytes: vec![] };
    assert_eq!(parse_blob(&unknown).unwrap_err(), "Cannot parse unknown format");
    let parquet = LoadedBlob { format: AuroraFormat::Parquet, bytes: vec![1, 2, 3] };
    match parse_blob(&parquet).unwrap() {
        AuroraInternalFormat::ArrowComponentTable(bytes) => assert_eq!(bytes, vec![1, 2, 3]),
        _ => panic!("typed columns are expected"),
    }
    assert_eq!(snapshot_of_blob(&parquet, &None).unwrap_err(), "not supported");
    let wrong = LoadedBlob { format: AuroraFormat::MsgPack, bytes: b"{\"a\":1}".to_vec() };
    assert!(parse_blob(&wrong).is_err());
    let not_snapshot = LoadedBlob { format: AuroraFormat::Json, bytes: b"[1,2]".to_vec() };
    assert_eq!(parse_blob(&not_snapshot).unwrap_err(), "not an archetype snapshot");
}

#[test]
fn manifest_formats_by_extension() {
    assert_eq!(ManifestOutputFormat::from_path("world.json"), Some(ManifestOutputFormat::Json));
    assert_eq!(ManifestOutputFormat::from_path("dir.d/world.TOML"), Some(ManifestOutputFormat::Toml));
    assert_eq!(ManifestOutputFormat::from_path("world.Json"), Some(ManifestOutputFormat::Json));
    assert_eq!(ManifestOutputFormat::from_path("world.yaml"), None);
    assert_eq!(ManifestOutputFormat::from_path("dir.json/world"), None);
    assert_eq!(ManifestOutputFormat::from_path(".json"), None);
    assert_eq!(ManifestOutputFormat::from_path("world"), None);
    assert_eq!(ManifestOutputFormat::default(), ManifestOutputFormat::Toml);
    assert_eq!(path_extension("a/b.tar.gz"), Some("gz".to_string()));
    assert_eq!(path_extension("a/.hidden"), None);
    assert_eq!(path_extension("a."), Some("".to_string()));
    assert_eq!(
        ManifestOutputFormat::for_reading("x.bin", Some(ManifestOutputFormat::Json)),
        Ok(ManifestOutputFormat::Json)
    );
    assert_eq!(ManifestOutputFormat::for_reading("x.toml", None), Ok(ManifestOutputFormat::Toml));
    assert_eq!(
        ManifestOutputFormat::for_reading("x.bin", None),
        Err("Cannot guess format from extension: bin".to_string())
    );
}

#[test]
fn a_manifest_that_holds_its_archetypes_needs_no_loader() {
    let mut world = WorldWithAurora::new();
    world.embed.insert(
        "first".to_string(),
        EmbeddedBlob { format: "csv".to_string(), data: "id,A.x\n4,1\n2,5\n".to_string() },
    );
    world.archetypes.push(ArchetypeSpec {
        name: None,
        components: vec!["A".to_string()],
        storage: None,
        source: Url("embed://first".to_string()),
    });
    let mut none = MemoryLoader { files: vec![] };
    let back = world.to_snapshot(&mut none).unwrap();
    assert_eq!(back.entities, vec![2, 4]);
    assert_eq!(back.archetypes.len(), 1);
    assert_eq!(back.archetypes[0].entities, vec![4, 2]);
    assert_eq!(back.archetypes[0].component_types, vec!["A".to_string()]);
    assert_eq!(back.archetypes[0].storage_types, vec![StorageTypeFlag::Table]);

    world.archetypes.push(ArchetypeSpec {
        name: None,
        components: vec![],
        storage: None,
        source: Url("embed://second".to_string()),
    });
    assert_eq!(
        world.to_snapshot(&mut none).unwrap_err(),
        "Embedded blob 'second' not found in manifest embed section."
    );
    world.archetypes[1].source = Url("http://elsewhere".to_string());
    assert_eq!(world.to_snapshot(&mut none).unwrap_err(), "Unknown location type: http://elsewhere");
    world.archetypes[1].source = Url("file://data/second.csv".to_string());
    assert_eq!(
        world.to_snapshot(&mut none).unwrap_err(),
        "Failed to read data/second.csv: no such file"
    );
    let mut has = MemoryLoader {
        files: vec![("data/second.csv".to_string(), b"id,B.v\n9,3\n".to_vec())],
    };
    let both = world.to_snapshot(&mut has).unwrap();
    assert_eq!(both.entities, vec![2, 4, 9]);
    assert_eq!(both.archetypes[1].component_types, vec!["B".to_string()]);
}

fn guided(index: usize, snapshot: &ArchetypeSnapshot, parquet: Option<Vec<u8>>) -> GuidedArchetype {
    GuidedArchetype {
        index,
        components: snapshot.component_types.clone(),
        snapshot: snapshot.clone(),
        parquet,
    }
}

#[test]
fn returned_blobs_stand_in_the_side_table() {
    let world = sample_world();
    let mut guide = ExportGuidance::embed_all(ExportFormat::Json);
    guide.set_strategy_for(3, OutputStrategy::Return(ExportFormat::Parquet, "v0".to_string()));
    guide.set_strategy_for(7, OutputStrategy::Return(ExportFormat::Csv, "v1/".to_string()));
    let archetypes = vec![
        guided(3, &world.archetypes[0], Some(vec![b'P', b'A', b'R', b'1'])),
        guided(5, &world.archetypes[1], None),
        guided(7, &world.archetypes[2], None),
    ];
    let (m, files) = WorldWithAurora::from_guided(&archetypes, &guide).unwrap();
    assert!(files.is_empty());
    assert_eq!(m.archetypes.len(), 2);
    assert_eq!(m.external_payloads.len(), 2);
    assert!(m.embed.is_empty());
    assert_eq!(m.archetypes[0].source, Url("file://v0/arch_3.parquet".to_string()));
    assert_eq!(m.archetypes[1].source, Url("file://v1/arch_7.csv".to_string()));
    assert_eq!(m.external_payloads.get("v0/arch_3.parquet"), Some(&vec![b'P', b'A', b'R', b'1']));
    assert_eq!(
        m.external_payloads.get("v1/arch_7.csv"),
        Some(&b"id,Position.x,Position.y\n2,9,3\n1,0,0\n".to_vec())
    );
}

#[test]
fn a_blob_returned_at_the_root_has_no_slash() {
    let world = sample_world();
    let guide = ExportGuidance {
        default: OutputStrategy::Return(ExportFormat::Json, String::new()),
        per_arch: Default::default(),
    };
    let (m, files) = WorldWithAurora::from_guided(&vec![guided(4, &world.archetypes[2], None)], &guide).unwrap();
    assert!(files.is_empty());
    assert!(m.embed.is_empty());
    assert_eq!(m.archetypes.len(), 1);
    assert_eq!(m.archetypes[0].name, Some("arch_4".to_string()));
    assert_eq!(m.archetypes[0].components, vec!["Position"]);
    assert_eq!(m.archetypes[0].source, Url("file://arch_4.json".to_string()));
    assert_eq!(m.external_payloads.len(), 1);
    assert_eq!(m.external_payloads.name_at(0), "arch_4.json");
    assert_eq!(
        m.external_payloads.get("arch_4.json"),
        Some(&serialize_arch_data(&world.archetypes[2], ExportFormat::Json).unwrap())
    );
}

#[test]
fn nothing_to_list_leaves_the_manifest_empty() {
    let world = sample_world();
    let guide = ExportGuidance::embed_all(ExportFormat::Json);
    let (m, files) = WorldWithAurora::from_guided(&vec![guided(0, &world.archetypes[1], None)], &guide).unwrap();
    assert!(m.archetypes.is_empty() && m.embed.is_empty() && m.external_payloads.is_empty());
    assert!(files.is_empty());
    assert_eq!(m.version, "0.1");
    let (n, none) = WorldWithAurora::from_guided(&vec![], &guide).unwrap();
    assert!(n.archetypes.is_empty() && n.embed.is_empty() && n.external_payloads.is_empty());
    assert!(none.is_empty());
}

#[test]
fn files_are_handed_back_in_order_and_later_blobs_stand() {
    let world = sample_world();
    let mut guide = ExportGuidance::file_all(ExportFormat::Json, "out".to_string());
    guide.set_strategy_for(1, OutputStrategy::Embed(ExportFormat::Csv));
    let archetypes = vec![
        guided(0, &world.archetypes[0], None),
        guided(1, &world.archetypes[0], None),
        guided(2, &world.archetypes[2], None),
        guided(1, &world.archetypes[2], None),
    ];
    let (m, files) = WorldWithAurora::from_guided(&archetypes, &guide).unwrap();
    assert_eq!(m.archetypes.len(), 4);
    assert_eq!(files.len(), 2);
    assert_eq!(files[0].path, "out/arch_0.json");
    assert_eq!(files[0].bytes, serialize_arch_data(&world.archetypes[0], ExportFormat::Json).unwrap());
    assert_eq!(files[1].path, "out/arch_2.json");
    assert_eq!(files[1].bytes, serialize_arch_data(&world.archetypes[2], ExportFormat::Json).unwrap());
    assert!(m.external_payloads.is_empty());
    assert_eq!(m.embed.len(), 1);
    let blob = m.embed.get("arch_1").unwrap();
    assert_eq!(blob.format, "csv");
    assert_eq!(blob.data, "id,Position.x,Position.y\n2,9,3\n1,0,0\n");
}

#[test]
fn a_manifest_reads_back_with_its_notes() {
    let mut world = WorldWithAurora::from_snapshot(&sample_world()).unwrap();
    world.name = Some("demo".to_string());
    world.resources.insert("Config".to_string(), whole(3));
    let mut notes: NameMap<DynValue> = NameMap::new();
    notes.insert("author".to_string(), DynValue::String("me".to_string()));
    notes.insert("tries".to_string(), whole(2));
    let manifest = AuroraWorldManifest { metadata: Some(notes), world };
    let back = AuroraWorldManifest::from_value(&manifest.to_value()).unwrap();
    let meta = back.metadata.unwrap();
    assert_eq!(meta.len(), 2);
    assert_eq!(meta.get("author"), Some(&DynValue::String("me".to_string())));
    assert_eq!(meta.get("tries"), Some(&whole(2)));
    assert_eq!(back.world.version, "0.1");
    assert_eq!(back.world.name, Some("demo".to_string()));
    assert_eq!(back.world.archetypes, manifest.world.archetypes);
    assert_eq!(back.world.embed.len(), 2);
    assert_eq!(back.world.embed.get("arch_0"), manifest.world.embed.get("arch_0"));
    assert_eq!(back.world.embed.get("arch_2"), manifest.world.embed.get("arch_2"));
    assert_eq!(back.world.resources.get("Config"), Some(&whole(3)));
    assert!(back.world.external_payloads.is_empty());

    let text = manifest.to_text(ManifestOutputFormat::Json).unwrap();
    let again = AuroraWorldManifest::from_text(&text, ManifestOutputFormat::Json).unwrap();
    assert_eq!(again.metadata.unwrap().get("author"), Some(&DynValue::String("me".to_string())));
    assert_eq!(again.world.name, Some("demo".to_string()));

    let bare = obj(vec![("metadata", DynValue::Null), ("world", manifest.world.to_value())]);
    assert!(AuroraWorldManifest::from_value(&bare).unwrap().metadata.is_none());
    let wrong = obj(vec![("metadata", whole(1)), ("world", manifest.world.to_value())]);
    assert!(AuroraWorldManifest::from_value(&wrong).is_err());
    assert!(AuroraWorldManifest::from_text("not json", ManifestOutputFormat::Json).is_err());
}

#[test]
fn a_loader_gets_rows_and_columns() {
    let mut world = WorldWithAurora::new();
    world.embed.insert(
        "rows".to_string(),
        EmbeddedBlob { format: "csv".to_string(), data: "id,A.x\n4,1\n".to_string() },
    );
    world.embed.insert(
        "columns".to_string(),
        EmbeddedBlob { format: "parquet".to_string(), data: "UEFSMQ==".to_string() },
    );
    for source in ["embed://rows", "embed://columns"] {
        world.archetypes.push(ArchetypeSpec {
            name: None,
            components: vec![],
            storage: Some(vec![StorageTypeFlag::SparseSet]),
            source: Url(source.to_string()),
        });
    }
    let mut none = MemoryLoader { files: vec![] };
    let items = world.load_archetypes(&mut none).unwrap();
    assert_eq!(items.len(), 2);
    match &items[0] {
        LoadedArchetype::Rows(s) => {
            assert_eq!(s.entities, vec![4]);
            assert_eq!(s.storage_types, vec![StorageTypeFlag::SparseSet]);
            assert_eq!(max_id(&s.entities), 4);
        }
        other => panic!("rows expected, got {other:?}"),
    }
    match &items[1] {
        LoadedArchetype::Columns(bytes) => assert_eq!(bytes, b"PAR1"),
        other => panic!("columns expected, got {other:?}"),
    }
    assert!(world.to_snapshot(&mut none).is_err());

    world.archetypes[1].source = Url("embed://gone".to_string());
    assert_eq!(
        world.load_archetypes(&mut none).unwrap_err(),
        "Embedded blob 'gone' not found in manifest."
    );
    world.archetypes[1].source = Url("ftp://x".to_string());
    assert_eq!(world.load_archetypes(&mut none).unwrap_err(), "Unknown location: ftp://x");
    world.archetypes[1].source = Url("file://a/b.json".to_string());
    assert_eq!(world.load_archetypes(&mut none).unwrap_err(), "no such file");
    assert_eq!(
        load_listed_blob(&AuroraLocation::parse("file://a/b.json"), &world.embed, &mut none).unwrap_err(),
        "no such file"
    );
    let blob = listed_blob_from_file("a/b.json", Ok(vec![1, 2])).unwrap();
    assert_eq!(blob, LoadedBlob { format: AuroraFormat::Json, bytes: vec![1, 2] });
    assert_eq!(listed_blob_from_file("a/b.json", Err("why".to_string())).unwrap_err(), "why");
    match into_loaded(AuroraInternalFormat::ArrowComponentTable(vec![9]), &None).unwrap() {
        LoadedArchetype::Columns(bytes) => assert_eq!(bytes, vec![9]),
        other => panic!("columns expected, got {other:?}"),
    }
    assert_eq!(max_id(&vec![]), 0);
    assert_eq!(max_id(&vec![3, 9, 2]), 9);
}
