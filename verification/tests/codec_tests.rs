use bevy_archive::archetype_archive::{ArchetypeSnapshot, StorageTypeFlag};
use bevy_archive::arrow_archive::{
    is_entity_column, mangle_field, type_mapping_value, unmangle_field, EntityID, MangledField,
};
use bevy_archive::binary_archive::common::{BinFormat, SparseSegment, SparseU32List};
use bevy_archive::binary_archive::msgpack_archive::MsgPackArchive;
use bevy_archive::binary_archive::world_snapshot::zip_snapshot::{
    archetype_path, classify_entry, layout_entries, pack_snapshot_zip, parse_archetype_idx,
    parse_resource_key, read_zip, resource_path, split_entries, unpack_snapshot_zip, write_zip,
    ZipEntry,
};
use bevy_archive::csv_archive::ColumnarCsv;
use bevy_archive::dyn_value::DynValue;
use bevy_archive::entity_ids::{copy_ids, dedup_sorted, sorted_unique};
use bevy_archive::json::{
    decode, encode, from_json, read_text, to_json, write_text, Encoding, TextForm,
};
use bevy_archive::name_map::NameMap;
use bevy_archive::schema::{
    columns_from_value, columns_to_value, ids_from_value, ids_to_value, storage_from_value,
    storage_to_value, strings_from_value, strings_to_value,
};
use bevy_archive::text::{
    chars_of, ends_with, last_path_segment, names_eq, parse_u32, parse_usize, sorted_copy,
    split_once, starts_with, str_eq, str_le, strip_prefix, strip_suffix, u32_to_decimal,
    u64_to_decimal, usize_to_decimal,
};

fn num(v: f64) -> DynValue {
    DynValue::Number(serde_json::Number::from_f64(v).unwrap())
}

fn whole(v: i64) -> DynValue {
    DynValue::Number(serde_json::Number::from(v))
}

fn text(s: &str) -> DynValue {
    DynValue::String(s.to_string())
}

fn obj(fields: Vec<(&str, DynValue)>) -> DynValue {
    DynValue::Object(fields.into_iter().map(|(k, v)| (k.to_string(), v)).collect())
}

fn tree() -> DynValue {
    obj(vec![
        ("name", text("Boss")),
        ("hp", whole(120)),
        ("pos", DynValue::Array(vec![num(1.5), num(-2.0)])),
        ("tag", DynValue::Null),
        ("alive", DynValue::Bool(true)),
        ("inner", obj(vec![("k", text("v"))])),
    ])
}

fn sorted_tree() -> DynValue {
    obj(vec![
        ("alive", DynValue::Bool(true)),
        ("hp", whole(120)),
        ("inner", obj(vec![("k", text("v"))])),
        ("name", text("Boss")),
        ("pos", DynValue::Array(vec![num(1.5), num(-2.0)])),
        ("tag", DynValue::Null),
    ])
}

#[test]
fn sparse_list_compresses_runs() {
    let list = SparseU32List::from_sorted(&[1, 2, 3, 7, 9, 10]);
    assert_eq!(
        list.segments,
        vec![SparseSegment::Range(1, 3), SparseSegment::Single(7), SparseSegment::Range(9, 10)]
    );
    assert_eq!(list.to_vec(), vec![1, 2, 3, 7, 9, 10]);
    assert_eq!(SparseU32List::from_sorted(&[]).segments, vec![]);
    assert_eq!(SparseU32List::default().to_vec(), Vec::<u32>::new());
    let edge = SparseU32List::from_sorted(&[u32::MAX - 1, u32::MAX, u32::MAX, 0]);
    assert_eq!(
        edge.segments,
        vec![
            SparseSegment::Range(u32::MAX - 1, u32::MAX),
            SparseSegment::Single(u32::MAX),
            SparseSegment::Single(0)
        ]
    );
    assert_eq!(edge.to_vec(), vec![u32::MAX - 1, u32::MAX, u32::MAX, 0]);
    let unsorted = SparseU32List::from_unsorted(vec![5, 3, 4, 9, 3]);
    assert_eq!(
        unsorted.segments,
        vec![SparseSegment::Single(3), SparseSegment::Range(3, 5), SparseSegment::Single(9)]
    );
    assert_eq!(unsorted.to_vec(), vec![3, 3, 4, 5, 9]);
    let backwards = SparseU32List { segments: vec![SparseSegment::Range(5, 4)] };
    assert_eq!(backwards.to_vec(), Vec::<u32>::new());
}

#[test]
fn sparse_list_as_tree() {
    let list = SparseU32List::from_sorted(&[1, 2, 3, 7]);
    let tree = list.to_value();
    let bytes = encode(Encoding::MsgPack, &tree).unwrap();
    assert_eq!(
        bytes,
        vec![
            0x91, 0x92, 0x81, 0xa5, b'R', b'a', b'n', b'g', b'e', 0x92, 0x01, 0x03, 0x81, 0xa6,
            b'S', b'i', b'n', b'g', b'l', b'e', 0x07
        ]
    );
    assert_eq!(SparseU32List::from_value(&decode(Encoding::MsgPack, &bytes).unwrap()), Ok(list));
    assert_eq!(
        SparseU32List::from_value(&DynValue::Array(vec![])),
        Err("not a list of entity indices".to_string())
    );
}

#[test]
fn entity_id_lists() {
    assert_eq!(sorted_unique(vec![4, 1, 4, 3, 1]), vec![1, 3, 4]);
    assert_eq!(sorted_unique(vec![]), Vec::<u32>::new());
    assert_eq!(dedup_sorted(&vec![1, 1, 2, 2, 2, 5]), vec![1, 2, 5]);
    assert_eq!(copy_ids(&vec![3, 1]), vec![3, 1]);
}

#[test]
fn trees_through_json_values() {
    let value = to_json(&tree());
    assert_eq!(
        value.to_string(),
        "{\"alive\":true,\"hp\":120,\"inner\":{\"k\":\"v\"},\"name\":\"Boss\",\"pos\":[1.5,-2.0],\"tag\":null}"
    );
    assert_eq!(from_json(value), sorted_tree());
    let twice = obj(vec![("a", whole(1)), ("a", whole(2))]);
    assert_eq!(from_json(to_json(&twice)), obj(vec![("a", whole(2))]));
    assert_eq!(tree().clone(), tree());
    assert_eq!(tree().get_field("hp"), Some(&whole(120)));
    assert_eq!(tree().get_field("none"), None);
    assert_eq!(whole(1).get_field("hp"), None);
    assert!(DynValue::Null.is_null());
    assert!(!DynValue::Bool(false).is_null());
}

#[test]
fn trees_as_text_and_bytes() {
    let json = write_text(TextForm::Json, &tree()).unwrap();
    assert_eq!(read_text(TextForm::Json, &json).unwrap(), sorted_tree());
    let pretty = write_text(TextForm::JsonPretty, &obj(vec![("a", whole(1))])).unwrap();
    assert_eq!(pretty, "{\n  \"a\": 1\n}");
    let toml = write_text(TextForm::Toml, &obj(vec![("a", whole(1)), ("b", text("x"))])).unwrap();
    assert_eq!(toml, "a = 1\nb = \"x\"\n");
    assert_eq!(
        read_text(TextForm::Toml, "a = 1\n[t]\nb = [true, 2.5]\n").unwrap(),
        obj(vec![
            ("a", whole(1)),
            ("t", obj(vec![("b", DynValue::Array(vec![DynValue::Bool(true), num(2.5)]))]))
        ])
    );
    assert!(write_text(TextForm::Toml, &whole(1)).is_err());
    assert!(read_text(TextForm::Toml, "a = ").is_err());
    assert!(read_text(TextForm::Json, "{\"a\":").is_err());
    let plain = write_text(TextForm::TomlPlain, &obj(vec![("k", text("v"))])).unwrap();
    assert_eq!(plain, "k = \"v\"\n");

    let bytes = encode(Encoding::Json, &DynValue::Array(vec![whole(1), text("x")])).unwrap();
    assert_eq!(bytes, b"[1,\"x\"]".to_vec());
    assert_eq!(decode(Encoding::Json, b" [1, \"x\"] ").unwrap(), DynValue::Array(vec![whole(1), text("x")]));
    assert!(decode(Encoding::Json, &[0xff]).is_err());
    let packed = encode(Encoding::MsgPack, &DynValue::Array(vec![whole(1), text("x"), DynValue::Null])).unwrap();
    assert_eq!(packed, vec![0x93, 0x01, 0xa1, b'x', 0xc0]);
    assert_eq!(
        decode(Encoding::MsgPack, &packed).unwrap(),
        DynValue::Array(vec![whole(1), text("x"), DynValue::Null])
    );
    assert_eq!(decode(Encoding::MsgPack, &encode(Encoding::MsgPack, &tree()).unwrap()).unwrap(), sorted_tree());
    assert!(decode(Encoding::MsgPack, &[0x93, 0x01]).is_err());
}

#[test]
fn lists_as_trees() {
    let names = vec!["a".to_string(), "b".to_string()];
    assert_eq!(strings_to_value(&names), DynValue::Array(vec![text("a"), text("b")]));
    assert_eq!(strings_from_value(&strings_to_value(&names)), Some(names));
    assert_eq!(strings_from_value(&DynValue::Array(vec![text("a"), whole(1)])), None);
    assert_eq!(strings_from_value(&text("a")), None);
    let ids = vec![0, 7, u32::MAX];
    assert_eq!(ids_to_value(&ids), DynValue::Array(vec![whole(0), whole(7), whole(u32::MAX as i64)]));
    assert_eq!(ids_from_value(&ids_to_value(&ids)), Some(ids));
    assert_eq!(ids_from_value(&DynValue::Array(vec![whole(-1)])), None);
    assert_eq!(ids_from_value(&DynValue::Array(vec![whole(1 << 32)])), None);
    assert_eq!(ids_from_value(&DynValue::Array(vec![num(1.0)])), None);
    let flags = vec![StorageTypeFlag::Table, StorageTypeFlag::SparseSet];
    assert_eq!(storage_to_value(&flags), DynValue::Array(vec![text("Table"), text("SparseSet")]));
    assert_eq!(storage_from_value(&storage_to_value(&flags)), Some(flags));
    assert_eq!(storage_from_value(&DynValue::Array(vec![text("table")])), None);
    let columns = vec![vec![whole(1), DynValue::Null], vec![]];
    assert_eq!(columns_from_value(&columns_to_value(&columns)), Some(columns));
    assert_eq!(columns_from_value(&DynValue::Array(vec![whole(1)])), None);
    assert_eq!(StorageTypeFlag::default(), StorageTypeFlag::Table);
}

#[test]
fn snapshots_as_trees() {
    let snap = ArchetypeSnapshot {
        component_types: vec!["A".into()],
        storage_types: vec![StorageTypeFlag::SparseSet],
        columns: vec![vec![whole(1), text("x")]],
        entities: vec![4, 5],
    };
    assert_eq!(ArchetypeSnapshot::from_value(&snap.to_value()), Ok(snap.clone()));
    assert_eq!(ArchetypeSnapshot::from_value(&snap.to_tuple_value()), Ok(snap.clone()));
    assert_eq!(
        encode(Encoding::MsgPack, &snap.to_tuple_value()).unwrap(),
        vec![
            0x94, 0x91, 0xa1, b'A', 0x91, 0xa9, b'S', b'p', b'a', b'r', b's', b'e', b'S', b'e',
            b't', 0x91, 0x92, 0x01, 0xa1, b'x', 0x92, 0x04, 0x05
        ]
    );
    let short = DynValue::Array(vec![DynValue::Array(vec![]); 3]);
    assert_eq!(ArchetypeSnapshot::from_value(&short), Err("not an archetype snapshot".to_string()));
    assert_eq!(
        ArchetypeSnapshot::from_value(&obj(vec![("component_types", DynValue::Array(vec![]))])),
        Err("not an archetype snapshot".to_string())
    );
    let csv = ColumnarCsv { headers: vec!["h".into()], columns: vec![vec![whole(1)]], row_index: vec![9] };
    assert_eq!(ColumnarCsv::from_value(&csv.to_tuple_value()), Ok(csv.clone()));
    assert_eq!(
        ColumnarCsv::from_value(&obj(vec![
            ("row_index", DynValue::Array(vec![whole(9)])),
            ("headers", DynValue::Array(vec![text("h")])),
            ("columns", DynValue::Array(vec![DynValue::Array(vec![whole(1)])])),
        ])),
        Ok(csv)
    );
    assert_eq!(ColumnarCsv::from_value(&DynValue::Null), Err("not a columnar table".to_string()));
}

#[test]
fn test_msgpack_archive_roundtrip() {
    let position = |x: f64, y: f64| obj(vec![("x", num(x)), ("y", num(y))]);
    let archetypes = vec![
        ArchetypeSnapshot {
            component_types: vec!["Position".into()],
            storage_types: vec![StorageTypeFlag::Table],
            columns: vec![vec![position(10.0, 20.0), position(5.0, 5.0)]],
            entities: vec![0, 1],
        },
        ArchetypeSnapshot::default(),
    ];
    let mut resources: NameMap<DynValue> = NameMap::new();
    resources.insert(
        "GameConfig".to_string(),
        obj(vec![("difficulty", whole(3)), ("mode", text("Hardcore"))]),
    );

    let archive = MsgPackArchive::from_snapshots(vec![1, 0], &archetypes, &resources).unwrap();
    assert_eq!(archive.0.format, BinFormat::MsgPack);
    assert!(!archive.0.archetypes.is_empty());
    assert_eq!(archive.0.archetypes.len(), 1);
    assert!(archive.0.resources.contains_key("GameConfig"));
    assert_eq!(archive.0.entities.segments, vec![SparseSegment::Range(0, 1)]);
    assert_eq!(archive.check_format(), Ok(()));

    let world = archive.to_world_snapshot().unwrap();
    assert_eq!(world.entities, vec![0, 1]);
    assert_eq!(world.archetypes.len(), 1);
    assert_eq!(world.archetypes[0].columns[0].len(), 2);
    assert_eq!(world.archetypes[0], archetypes[0]);
    let config = decode(Encoding::MsgPack, &archive.0.resources.get("GameConfig").unwrap().0).unwrap();
    assert_eq!(config.get_field("difficulty"), Some(&whole(3)));
    assert_eq!(config.get_field("mode"), Some(&text("Hardcore")));

    let mut wrong = MsgPackArchive::from_snapshots(vec![], &vec![], &NameMap::new()).unwrap();
    wrong.0.format = BinFormat::Parquet;
    assert_eq!(wrong.check_format(), Err("Expected MsgPack format, got Parquet".to_string()));
    assert_eq!(wrong.to_world_snapshot().unwrap_err(), "Expected MsgPack format, got Parquet");
    assert_eq!(BinFormat::default(), BinFormat::Parquet);
}

#[test]
fn zip_layout_names() {
    assert_eq!(resource_path("Config"), "resources/Config.msgpack");
    assert_eq!(archetype_path(12), "archetypes/arch_12.parquet");
    assert_eq!(parse_resource_key("resources/Config.msgpack"), Some("Config".to_string()));
    assert_eq!(parse_resource_key("resources/.msgpack"), Some("".to_string()));
    assert_eq!(parse_resource_key("resource/Config.msgpack"), None);
    assert_eq!(parse_resource_key("resources/Config.json"), None);
    assert_eq!(parse_archetype_idx("archetypes/arch_12.parquet"), Some(12));
    assert_eq!(parse_archetype_idx("archetypes/arch_+7.parquet"), Some(7));
    assert_eq!(parse_archetype_idx("archetypes/arch_007.parquet"), Some(7));
    assert_eq!(parse_archetype_idx("archetypes/arch_.parquet"), None);
    assert_eq!(parse_archetype_idx("archetypes/arch_-1.parquet"), None);
    assert_eq!(parse_archetype_idx("archetypes/arch_1x.parquet"), None);
    assert_eq!(parse_archetype_idx("archetypes/arch_99999999999999999999999.parquet"), None);
    assert_eq!(parse_archetype_idx("archetypes/12.parquet"), None);
    assert_eq!(classify_entry("meta.toml"), ZipEntry::Meta);
    assert_eq!(classify_entry("entities.msgpack"), ZipEntry::Entities);
    assert_eq!(classify_entry("resources/R.msgpack"), ZipEntry::Resource("R".into()));
    assert_eq!(classify_entry("archetypes/arch_3.parquet"), ZipEntry::Archetype(3));
    assert_eq!(classify_entry("readme.txt"), ZipEntry::Unrecognized);
}

#[test]
fn test_snapshot_zip_roundtrip() {
    let mut meta: NameMap<String> = NameMap::new();
    meta.insert("author".to_string(), "me".to_string());
    let mut resources: NameMap<Vec<u8>> = NameMap::new();
    resources.insert("Config".to_string(), vec![1, 2, 3]);
    let zip = pack_snapshot_zip(
        &meta,
        vec![9, 1, 2, 3],
        &resources,
        vec![vec![b'P', b'1'], vec![b'P', b'2']],
        Some(9),
    )
    .unwrap();
    let names: Vec<String> = read_zip(&zip).unwrap().into_iter().map(|(n, _)| n).collect();
    assert_eq!(
        names,
        vec![
            "meta.toml",
            "entities.msgpack",
            "resources/Config.msgpack",
            "archetypes/arch_0.parquet",
            "archetypes/arch_1.parquet"
        ]
    );
    let back = unpack_snapshot_zip(&zip).unwrap();
    assert_eq!(back.meta.get("author"), Some(&"me".to_string()));
    assert_eq!(back.entities, vec![1, 2, 3, 9]);
    assert_eq!(back.resources.get("Config"), Some(&vec![1, 2, 3]));
    assert_eq!(back.archetypes, vec![vec![b'P', b'1'], vec![b'P', b'2']]);
    assert!(unpack_snapshot_zip(b"not a zip").unwrap_err().starts_with("zip decode error: "));
}

#[test]
fn zip_entries_are_sorted_into_parts() {
    let entries = vec![
        ("archetypes/arch_1.parquet".to_string(), vec![1]),
        ("notes.txt".to_string(), vec![2]),
        ("meta.toml".to_string(), vec![3]),
        ("resources/A.msgpack".to_string(), vec![4]),
        ("archetypes/arch_0.parquet".to_string(), vec![5]),
        ("resources/A.msgpack".to_string(), vec![6]),
        ("meta.toml".to_string(), vec![7]),
    ];
    let zip = write_zip(&entries[..2].to_vec(), None).unwrap();
    assert_eq!(read_zip(&zip).unwrap(), entries[..2].to_vec());
    let parts = split_entries(entries);
    assert_eq!(parts.meta, Some(vec![7]));
    assert_eq!(parts.entities, None);
    assert_eq!(parts.resources.get("A"), Some(&vec![6]));
    assert_eq!(parts.resources.len(), 1);
    assert_eq!(parts.archetypes, vec![vec![1], vec![5]]);
    assert_eq!(parts.unrecognized, vec!["notes.txt"]);
    let mut resources: NameMap<Vec<u8>> = NameMap::new();
    resources.insert("R".to_string(), vec![8]);
    let laid = layout_entries(vec![1], vec![2], &resources, vec![vec![3]]);
    assert_eq!(
        laid,
        vec![
            ("meta.toml".to_string(), vec![1]),
            ("entities.msgpack".to_string(), vec![2]),
            ("resources/R.msgpack".to_string(), vec![8]),
            ("archetypes/arch_0.parquet".to_string(), vec![3]),
        ]
    );
}

#[test]
fn column_names_of_typed_fields() {
    assert_eq!(
        mangle_field("Position", "x"),
        MangledField { name: "Position.x".into(), prefix: Some("Position".into()) }
    );
    assert_eq!(
        mangle_field("Tag", ""),
        MangledField { name: "Tag".into(), prefix: Some("Tag".into()) }
    );
    assert_eq!(
        unmangle_field(&mangle_field("Position", "x")),
        ("Position".to_string(), "x".to_string())
    );
    assert_eq!(unmangle_field(&mangle_field("Tag", "")), ("Tag".to_string(), String::new()));
    assert_eq!(
        unmangle_field(&MangledField { name: "Tag".into(), prefix: None }),
        ("Tag".to_string(), String::new())
    );
    assert!(is_entity_column(&MangledField { name: "id".into(), prefix: None }));
    assert!(!is_entity_column(&mangle_field("id", "")));
    assert!(!is_entity_column(&MangledField { name: "Tag".into(), prefix: None }));
    assert_eq!(
        unmangle_field(&MangledField { name: "Other".into(), prefix: Some("Tag".into()) }),
        ("Tag".to_string(), "Other".to_string())
    );
    assert_eq!(
        unmangle_field(&MangledField { name: "a.b.c".into(), prefix: Some("a.b".into()) }),
        ("a.b".to_string(), "c".to_string())
    );
    let mapping = type_mapping_value(&vec![("P".to_string(), vec!["P.x".to_string(), "P.y".to_string()])]);
    assert_eq!(
        write_text(TextForm::Json, &mapping).unwrap(),
        "{\"P\":[\"P.x\",\"P.y\"],\"id\":[\"id\"]}"
    );
    assert_eq!(EntityID::default(), EntityID { id: 0 });
}

#[test]
fn name_map_keeps_first_places() {
    let mut map: NameMap<u32> = NameMap::new();
    assert!(map.is_empty());
    assert_eq!(map.insert("b".into(), 1), None);
    assert_eq!(map.insert("a".into(), 2), None);
    assert_eq!(map.insert("b".into(), 3), Some(1));
    assert_eq!(map.len(), 2);
    assert_eq!(map.name_at(0), "b");
    assert_eq!(map.value_at(0), &3);
    assert_eq!(map.index_of("a"), Some(1));
    assert_eq!(map.get("a"), Some(&2));
    assert_eq!(map.get("c"), None);
    assert!(map.contains_key("b"));
    let mut other: NameMap<u32> = NameMap::new();
    other.insert("a".into(), 20);
    other.insert("c".into(), 30);
    let mut merged: NameMap<u32> = NameMap::new();
    merged.insert("a".into(), 2);
    merged.merge_only_new(&other);
    assert_eq!((merged.get("a"), merged.get("c")), (Some(&2), Some(&30)));
    map.merge(&other);
    assert_eq!((map.get("a"), map.get("b"), map.get("c")), (Some(&20), Some(&3), Some(&30)));
}

#[test]
fn text_helpers() {
    assert_eq!(chars_of("héllo"), vec!['h', 'é', 'l', 'l', 'o']);
    assert!(str_eq("héllo", "héllo"));
    assert!(!str_eq("a", "b"));
    assert!(starts_with("file://x", "file://"));
    assert!(!starts_with("fil", "file://"));
    assert!(starts_with("x", ""));
    assert!(ends_with("a.csv", ".csv"));
    assert!(!ends_with("csv", ".csv"));
    assert_eq!(strip_prefix("embed://é", "embed://"), Some("é".to_string()));
    assert_eq!(strip_prefix("embed", "embed://"), None);
    assert_eq!(strip_suffix("a.msgpack", ".msgpack"), Some("a".to_string()));
    assert_eq!(strip_suffix("a.msg", ".msgpack"), None);
    assert_eq!(split_once("a.b.c", '.'), Some(("a".to_string(), "b.c".to_string())));
    assert_eq!(split_once(".b", '.'), Some(("".to_string(), "b".to_string())));
    assert_eq!(split_once("abc", '.'), None);
    assert_eq!(last_path_segment("a::b::C"), "C");
    assert_eq!(u64_to_decimal(0), "0");
    assert_eq!(u64_to_decimal(u64::MAX), "18446744073709551615");
    assert_eq!(u32_to_decimal(4096), "4096");
    assert_eq!(usize_to_decimal(10), "10");
    assert_eq!(parse_u32("0"), Some(0));
    assert_eq!(parse_u32("+42"), Some(42));
    assert_eq!(parse_u32("4294967295"), Some(u32::MAX));
    assert_eq!(parse_u32("4294967296"), None);
    assert_eq!(parse_u32(""), None);
    assert_eq!(parse_u32("+"), None);
    assert_eq!(parse_u32("-1"), None);
    assert_eq!(parse_u32("1 "), None);
    assert_eq!(parse_u32("١"), None);
    assert_eq!(parse_usize("000123"), Some(123));
    assert!(str_le("", "a"));
    assert!(str_le("a", "a"));
    assert!(str_le("a", "ab"));
    assert!(!str_le("ab", "a"));
    assert!(str_le("Z", "a"));
    assert!(!str_le("b", "a"));
    let names: Vec<String> = ["b", "a", "ab", "B", "a", ""].iter().map(|s| s.to_string()).collect();
    assert_eq!(sorted_copy(&names), vec!["", "B", "a", "a", "ab", "b"]);
    let mut by_std = names.clone();
    by_std.sort();
    assert_eq!(sorted_copy(&names), by_std);
    assert!(names_eq(&names, &names.clone()));
    assert!(!names_eq(&names, &by_std));
}

#[test]
fn zip_bytes_follow_from_the_entries() {
    let entries = vec![
        ("meta.toml".to_string(), b"a = \"b\"\n".to_vec()),
        ("notes.txt".to_string(), vec![7; 300]),
    ];
    let first = write_zip(&entries, Some(6)).unwrap();
    let second = write_zip(&entries, Some(6)).unwrap();
    assert_eq!(first, second);
    assert_eq!(&first[..2], b"PK");
    assert_eq!(&first[10..14], &[0u8, 0, 0x21, 0]);
    assert_eq!(read_zip(&first).unwrap(), entries);
    let other = write_zip(&entries[..1].to_vec(), Some(6)).unwrap();
    assert_ne!(first, other);
    let twice = vec![("a".to_string(), vec![1]), ("a".to_string(), vec![2])];
    assert!(write_zip(&twice, None).is_err());
    let mut blank = vec![0x50u8, 0x4b, 0x05, 0x06];
    blank.extend(std::iter::repeat(0u8).take(18));
    assert_eq!(write_zip(&vec![], Some(9)).unwrap(), blank);
    assert_eq!(read_zip(&blank).unwrap(), vec![]);
    assert!(unpack_snapshot_zip(&blank).unwrap().archetypes.is_empty());
}

#[test]
fn packing_twice_gives_the_same_container() {
    let mut meta: NameMap<String> = NameMap::new();
    meta.insert("author".to_string(), "me".to_string());
    let resources: NameMap<Vec<u8>> = NameMap::new();
    let a = pack_snapshot_zip(&meta, vec![3, 1, 2], &resources, vec![vec![1]], None).unwrap();
    let b = pack_snapshot_zip(&meta, vec![2, 3, 1], &resources, vec![vec![1]], None).unwrap();
    assert_eq!(a, b);
    let entries = read_zip(&a).unwrap();
    assert_eq!(entries[0], ("meta.toml".to_string(), b"author = \"me\"\n".to_vec()));
    let list = SparseU32List::from_value(&decode(Encoding::MsgPack, &entries[1].1).unwrap()).unwrap();
    assert_eq!(list.segments, vec![SparseSegment::Range(1, 3)]);
}

#[test]
fn unpacking_reads_what_the_container_holds() {
    let plain = write_zip(&vec![("readme.txt".to_string(), vec![1])], None).unwrap();
    let empty = unpack_snapshot_zip(&plain).unwrap();
    assert!(empty.meta.is_empty());
    assert!(empty.entities.is_empty());
    assert!(empty.resources.is_empty());
    assert!(empty.archetypes.is_empty());

    let later = write_zip(
        &vec![
            ("meta.toml".to_string(), b"a = 1\n".to_vec()),
            ("meta.toml ".to_string(), vec![0]),
            ("archetypes/arch_7.parquet".to_string(), vec![5]),
        ],
        None,
    )
    .unwrap();
    assert_eq!(
        unpack_snapshot_zip(&later).unwrap_err(),
        "toml decode error: a note is not a string"
    );

    let not_text = write_zip(&vec![("meta.toml".to_string(), vec![0xff, 0xfe])], None).unwrap();
    assert!(unpack_snapshot_zip(&not_text).unwrap_err().starts_with("toml decode error: "));
    let not_toml = write_zip(&vec![("meta.toml".to_string(), b"= =".to_vec())], None).unwrap();
    assert!(unpack_snapshot_zip(&not_toml).unwrap_err().starts_with("toml decode error: "));

    let no_list = write_zip(&vec![("entities.msgpack".to_string(), vec![0xc1])], None).unwrap();
    assert!(unpack_snapshot_zip(&no_list).unwrap_err().starts_with("msgpack decode error: "));
    let other_tree = encode(Encoding::MsgPack, &DynValue::Bool(true)).unwrap();
    let no_segments = write_zip(&vec![("entities.msgpack".to_string(), other_tree)], None).unwrap();
    assert_eq!(
        unpack_snapshot_zip(&no_segments).unwrap_err(),
        "msgpack decode error: not a list of entity indices"
    );

    let good = write_zip(
        &vec![
            ("meta.toml".to_string(), b"a = \"x\"\nb = \"y\"\n".to_vec()),
            ("archetypes/arch_7.parquet".to_string(), vec![5]),
            ("archetypes/arch_2.parquet".to_string(), vec![6]),
        ],
        None,
    )
    .unwrap();
    let back = unpack_snapshot_zip(&good).unwrap();
    assert_eq!(back.meta.len(), 2);
    assert_eq!(back.meta.get("a"), Some(&"x".to_string()));
    assert_eq!(back.meta.get("b"), Some(&"y".to_string()));
    assert_eq!(back.archetypes, vec![vec![5], vec![6]]);
}
