use bevy_archive::archetype_archive::{
    max_entity_index, ArchetypeSnapshot, StorageTypeFlag, WorldArchSnapshot,
};
use bevy_archive::dyn_value::DynValue;
use bevy_archive::entity_archive::{
    convert_to_archetype_snapshot, convert_to_entity_snapshot, ComponentSnapshot, EntitySnapshot,
    WorldSnapshot,
};
use bevy_archive::json::TextForm;

fn num(v: f64) -> DynValue {
    DynValue::Number(serde_json::Number::from_f64(v).unwrap())
}

fn whole(v: i64) -> DynValue {
    DynValue::Number(serde_json::Number::from(v))
}

fn text(s: &str) -> DynValue {
    DynValue::String(s.to_string())
}

fn obj(fields: Vec<(&str, DynValue)>) -> DynValue {
    DynValue::Object(fields.into_iter().map(|(k, v)| (k.to_string(), v)).collect())
}

fn arch(types: &[&str], entities: Vec<u32>, columns: Vec<Vec<DynValue>>) -> ArchetypeSnapshot {
    ArchetypeSnapshot {
        component_types: types.iter().map(|s| s.to_string()).collect(),
        storage_types: types.iter().map(|_| StorageTypeFlag::Table).collect(),
        columns,
        entities,
    }
}

/// Ten rounds of five entities, each of another set of components.
fn sample_world() -> WorldArchSnapshot {
    let mut a0 = arch(&["TestComponentA", "TestComponentB"], vec![], vec![vec![], vec![]]);
    let mut a1 = arch(&["TestComponentB", "TestComponentC"], vec![], vec![vec![], vec![]]);
    let mut a2 = arch(
        &["TestComponentA", "TestComponentC", "TestComponentD"],
        vec![],
        vec![vec![], vec![], vec![]],
    );
    let mut a3 = arch(&["TestComponentD", "TestComponentE"], vec![], vec![vec![], vec![]]);
    let mut a4 = arch(
        &[
            "TestComponentA",
            "TestComponentB",
            "TestComponentC",
            "TestComponentD",
            "TestComponentE",
            "TestComponentF",
        ],
        vec![],
        vec![vec![], vec![], vec![], vec![], vec![], vec![]],
    );
    for i in 0..10i64 {
        let base = (i * 5) as u32;
        a0.entities.push(base);
        a0.columns[0].push(obj(vec![("value", whole(i))]));
        a0.columns[1].push(obj(vec![("value", num((i as f32 * 0.1) as f64))]));
        a1.entities.push(base + 1);
        a1.columns[0].push(obj(vec![("value", num((i as f32 * 0.2) as f64))]));
        a1.columns[1].push(obj(vec![("value", text(&format!("EntityC{}", i)))]));
        a2.entities.push(base + 2);
        a2.columns[0].push(obj(vec![("value", whole(i * 2))]));
        a2.columns[1].push(obj(vec![("value", text(&format!("EntityAC{}", i)))]));
        a2.columns[2].push(obj(vec![("value", DynValue::Bool(i % 2 == 0))]));
        a3.entities.push(base + 3);
        a3.columns[0].push(obj(vec![("value", DynValue::Bool(i % 3 == 0))]));
        a3.columns[1].push(DynValue::Array(vec![num(i as f64), num(i as f64 + 1.0)]));
        a4.entities.push(base + 4);
        a4.columns[0].push(obj(vec![("value", whole(-i))]));
        a4.columns[1].push(obj(vec![("value", num((-i as f32 * 0.3) as f64))]));
        a4.columns[2].push(obj(vec![("value", text(&format!("Combo{}", i)))]));
        a4.columns[3].push(obj(vec![("value", DynValue::Bool(i % 5 == 0))]));
        a4.columns[4].push(DynValue::Array(vec![num(0.0); i as usize % 10 + 1]));
        a4.columns[5].push(obj(vec![("value", text(&format!("Nested{}", i)))]));
    }
    WorldArchSnapshot { entities: (0..50).collect(), archetypes: vec![a0, a1, a2, a3, a4] }
}

#[test]
fn test_multi_archetype_snapshot() {
    let snapshot = sample_world();
    assert_eq!(snapshot.entities.len(), 10 * 5);
    for arch in &snapshot.archetypes {
        ArchetypeSnapshot::validate_snapshot(arch).unwrap();
    }
}

#[test]
fn test_convert_to_entity_snapshot() {
    let snapshot = sample_world();
    assert_eq!(snapshot.entities.len(), 10 * 5);
    let entities = WorldSnapshot::from_arch(&snapshot);
    assert_eq!(entities.entities.len(), 50);
    assert_eq!(entities.entities[0].id, 0);
    assert_eq!(entities.entities[0].components.len(), 2);
    assert_eq!(entities.entities[0].components[0].ty, "TestComponentA");
    assert_eq!(entities.entities[0].components[0].value, obj(vec![("value", whole(0))]));
    assert_eq!(entities.entities[49].id, 49);
    assert_eq!(entities.entities[49].components.len(), 6);
    let text = entities.to_text(TextForm::Json).unwrap();
    assert!(text.starts_with("{\"entities\":[{"));
}

#[test]
fn test_convert_from_entity_snapshot() {
    let entities = WorldSnapshot::from_arch(&sample_world());
    assert_eq!(entities.entities.len(), 10 * 5);
    let back = entities.to_arch();
    assert_eq!(back.entities.len(), 50);
    assert_eq!(back.archetypes.len(), 5);
    let rows: usize = back.archetypes.iter().map(|a| a.entities.len()).sum();
    assert_eq!(rows, 50);
    for arch in &back.archetypes {
        ArchetypeSnapshot::validate_snapshot(arch).unwrap();
        assert_eq!(arch.entities.len(), 10);
    }
    // The column order of an archetype is the order of the names of its types.
    assert_eq!(back.archetypes[0].component_types, vec!["TestComponentA", "TestComponentB"]);
    assert_eq!(back.archetypes[0], sample_world().archetypes[0]);
}

#[test]
fn grouping_sorts_types_and_fills_missing_cells() {
    let entities = vec![
        EntitySnapshot {
            id: 7,
            components: vec![
                ComponentSnapshot { ty: "B".into(), value: whole(2) },
                ComponentSnapshot { ty: "A".into(), value: whole(1) },
            ],
        },
        EntitySnapshot { id: 8, components: vec![] },
        EntitySnapshot {
            id: (1u64 << 32) + 9,
            components: vec![
                ComponentSnapshot { ty: "A".into(), value: whole(3) },
                ComponentSnapshot { ty: "B".into(), value: DynValue::Null },
            ],
        },
    ];
    let archs = convert_to_archetype_snapshot(&entities);
    assert_eq!(archs.len(), 2);
    assert_eq!(archs[0].component_types, vec!["A", "B"]);
    assert_eq!(archs[0].entities, vec![7, 9]);
    assert_eq!(archs[0].columns, vec![vec![whole(1), whole(3)], vec![whole(2), DynValue::Null]]);
    assert_eq!(archs[1].component_types, Vec::<String>::new());
    assert_eq!(archs[1].entities, vec![8]);
    let back = convert_to_entity_snapshot(&archs);
    assert_eq!(back.len(), 3);
    assert_eq!(back[1].id, 9);
}

#[test]
fn snapshot_accessors() {
    let mut snap = arch(&["A", "B", "A"], vec![10, 20], vec![
        vec![whole(1), whole(2)],
        vec![text("x"), text("y")],
        vec![whole(3), whole(4)],
    ]);
    assert!(!snap.is_empty());
    assert_eq!(snap.get_column_index("A"), Some(0));
    assert_eq!(snap.get_column_index("B"), Some(1));
    assert_eq!(snap.get_column_index("C"), None);
    assert!(snap.has_component("B"));
    assert!(!snap.has_component("C"));
    assert_eq!(snap.entities(), &vec![10, 20]);
    let row = snap.get_row(1);
    assert_eq!(row.len(), 3);
    assert_eq!(row[0], ("A", &whole(2)));
    assert_eq!(row[1], ("B", &text("y")));
    assert_eq!(snap.get_entity(20).unwrap()[2], ("A", &whole(4)));
    assert!(snap.get_entity(30).is_none());
    assert_eq!(snap.get_column("A"), Some(&vec![whole(1), whole(2)]));
    assert!(snap.get_column("C").is_none());
    *snap.get_mut(20, "B").unwrap() = text("z");
    assert_eq!(snap.columns[1][1], text("z"));
    assert!(snap.get_mut(20, "C").is_none());
    assert!(snap.get_mut(21, "B").is_none());
    snap.get_column_mut("B").unwrap()[0] = text("w");
    assert_eq!(snap.columns[1], vec![text("w"), text("z")]);
}

#[test]
fn snapshot_insert_add_remove() {
    let mut snap = arch(&["A"], vec![1, 2], vec![vec![whole(1), whole(2)]]);
    assert_eq!(snap.insert_component(1, "A", whole(9)), Ok(()));
    assert_eq!(snap.columns[0], vec![whole(1), whole(9)]);
    assert_eq!(snap.insert_component(0, "Z", whole(9)), Err("Component 'Z' not found".to_string()));
    assert_eq!(snap.insert_component(2, "A", whole(9)), Err("Invalid entity index".to_string()));
    snap.add_type("B", None);
    snap.add_type("C", Some(StorageTypeFlag::SparseSet));
    assert_eq!(snap.component_types, vec!["A", "B", "C"]);
    assert_eq!(snap.columns[1], vec![DynValue::Null, DynValue::Null]);
    assert_eq!(
        snap.storage_types,
        vec![StorageTypeFlag::Table, StorageTypeFlag::Table, StorageTypeFlag::SparseSet]
    );
    snap.remove_type("B");
    assert_eq!(snap.component_types, vec!["A", "C"]);
    assert_eq!(snap.storage_types, vec![StorageTypeFlag::Table, StorageTypeFlag::SparseSet]);
    assert_eq!(snap.columns.len(), 2);
    snap.remove_type("missing");
    assert_eq!(snap.component_types, vec!["A", "C"]);
    assert_eq!(ArchetypeSnapshot::validate_snapshot(&snap), Ok(()));
}

#[test]
fn validate_names_the_first_broken_part() {
    let mut snap = arch(&["A", "B"], vec![1, 2], vec![vec![whole(1), whole(2)]]);
    assert_eq!(
        ArchetypeSnapshot::validate_snapshot(&snap),
        Err("Component type count mismatch".to_string())
    );
    snap.columns.push(vec![whole(1)]);
    assert_eq!(
        ArchetypeSnapshot::validate_snapshot(&snap),
        Err("Column 1 has length 1, expected 2".to_string())
    );
    snap.columns[1].push(whole(2));
    snap.storage_types.pop();
    assert_eq!(
        ArchetypeSnapshot::validate_snapshot(&snap),
        Err("Storage type count mismatch".to_string())
    );
    assert!(snap.is_aligned());
}

#[test]
fn purge_null_rebuilds_sorted_entities() {
    let mut world = WorldArchSnapshot {
        entities: vec![99],
        archetypes: vec![
            arch(&["A"], vec![5, 3], vec![vec![whole(1), whole(2)]]),
            arch(&["B"], vec![4, 3, 1], vec![vec![whole(1), whole(2), whole(3)]]),
        ],
    };
    world.purge_null();
    assert_eq!(world.entities, vec![1, 3, 4, 5]);
    assert_eq!(world.count_entities(), 6);
    assert_eq!(max_entity_index(&world.archetypes), 5);
    assert_eq!(WorldArchSnapshot::default().count_entities(), 1);
    let rebuilt = WorldArchSnapshot::from_archetypes(world.archetypes.clone());
    assert_eq!(rebuilt.entities, vec![1, 3, 4, 5]);
}

#[test]
fn world_snapshot_purge_null_drops_bare_entities() {
    let mut world = WorldSnapshot {
        entities: vec![
            EntitySnapshot { id: 1, components: vec![] },
            EntitySnapshot {
                id: 2,
                components: vec![ComponentSnapshot { ty: "A".into(), value: whole(1) }],
            },
            EntitySnapshot { id: 3, components: vec![] },
        ],
    };
    world.purge_null();
    assert_eq!(world.entities.len(), 1);
    assert_eq!(world.entities[0].id, 2);
}

#[test]
fn test_parse_pretty_toml() {
    let input = "[[entities]]
id = 0
components = [
  { type = \"Resistor\", value = 1.0 },
  { type = \"Admittance\", value = 0.0 },
  { type = \"Port2\", value = [0, 0] }
]
                        ";
    let snapshot = WorldSnapshot::from_text(input, TextForm::Toml).expect("Failed to parse TOML");
    assert_eq!(snapshot.entities.len(), 1);
    assert_eq!(snapshot.entities[0].id, 0);
    let components = &snapshot.entities[0].components;
    assert_eq!(components.len(), 3);
    assert_eq!(components[0], ComponentSnapshot { ty: "Resistor".into(), value: num(1.0) });
    assert_eq!(components[1], ComponentSnapshot { ty: "Admittance".into(), value: num(0.0) });
    assert_eq!(
        components[2],
        ComponentSnapshot { ty: "Port2".into(), value: DynValue::Array(vec![whole(0), whole(0)]) }
    );
}

#[test]
fn world_snapshot_text_round_trip() {
    let world = WorldSnapshot {
        entities: vec![EntitySnapshot {
            id: 3,
            components: vec![
                ComponentSnapshot { ty: "Tag".into(), value: DynValue::Null },
                ComponentSnapshot { ty: "P".into(), value: obj(vec![("x", num(1.5))]) },
            ],
        }],
    };
    let json = world.to_text(TextForm::Json).unwrap();
    assert_eq!(
        json,
        "{\"entities\":[{\"components\":[{\"type\":\"Tag\"},{\"type\":\"P\",\"value\":{\"x\":1.5}}],\"id\":3}]}"
    );
    assert_eq!(WorldSnapshot::from_text(&json, TextForm::Json).unwrap(), world);
    let toml = world.to_text(TextForm::Toml).unwrap();
    assert_eq!(WorldSnapshot::from_text(&toml, TextForm::Toml).unwrap(), world);
    assert_eq!(
        WorldSnapshot::from_text("{\"entities\":3}", TextForm::Json),
        Err("not a world snapshot".to_string())
    );
    assert!(WorldSnapshot::from_text("{", TextForm::Json).is_err());
}

#[test]
fn arch_world_tree_round_trip() {
    let world = sample_world();
    let tree = world.to_value();
    assert_eq!(WorldArchSnapshot::from_value(&tree).unwrap(), world);
    assert_eq!(
        WorldArchSnapshot::from_value(&DynValue::Null),
        Err("not a world snapshot".to_string())
    );
}

/// The value as the components hold it: every float in single precision.
fn in_single_precision(v: &DynValue) -> DynValue {
    match v {
        DynValue::Number(n) if n.is_f64() => num(n.as_f64().unwrap() as f32 as f64),
        DynValue::Array(items) => DynValue::Array(items.iter().map(in_single_precision).collect()),
        DynValue::Object(fields) => DynValue::Object(
            fields.iter().map(|(k, v)| (k.clone(), in_single_precision(v))).collect(),
        ),
        other => other.clone(),
    }
}

#[test]
fn test_roundtrip_archetype_snapshot() {
    let snapshot_1 = sample_world();
    let written = bevy_archive::json::write_text(TextForm::JsonPretty, &snapshot_1.to_value()).unwrap();
    let tree = bevy_archive::json::read_text(TextForm::JsonPretty, &written).unwrap();
    let snapshot_2 = WorldArchSnapshot::from_value(&tree).unwrap();
    assert_eq!(snapshot_2.entities, snapshot_1.entities);
    assert_eq!(snapshot_2.archetypes.len(), snapshot_1.archetypes.len());
    let json_1 = bevy_archive::json::write_text(
        TextForm::JsonPretty,
        &in_single_precision(&snapshot_1.to_value()),
    )
    .unwrap();
    let json_2 = bevy_archive::json::write_text(
        TextForm::JsonPretty,
        &in_single_precision(&snapshot_2.to_value()),
    )
    .unwrap();
    assert_eq!(json_1, json_2, "Roundtrip snapshot mismatch!");
}

#[test]
fn test_rmp_roundtrip() {
    let position = |x: f64, y: f64| obj(vec![("x", num(x)), ("y", num(y))]);
    let velocity = |dx: f64, dy: f64| obj(vec![("dx", num(dx)), ("dy", num(dy))]);
    let snapshot = WorldArchSnapshot {
        entities: vec![0, 1, 2],
        archetypes: vec![
            arch(
                &["Position", "Velocity"],
                vec![0],
                vec![vec![position(1.0, 2.0)], vec![velocity(0.1f32 as f64, -0.2f32 as f64)]],
            ),
            arch(&["Position", "Tag"], vec![1], vec![vec![position(9.0, 3.5)], vec![DynValue::Null]]),
            arch(&["Velocity", "Tag"], vec![2], vec![vec![velocity(0.0, 0.0)], vec![DynValue::Null]]),
        ],
    };
    let bytes = bevy_archive::binary_archive::rmp_snapshot::to_rmp_bytes(&snapshot)
        .expect("Failed to serialize to RMP");
    assert_eq!(bytes[0], 0x92);
    let loaded_snapshot = bevy_archive::binary_archive::rmp_snapshot::from_rmp_bytes(&bytes)
        .expect("Failed to deserialize from RMP");
    let count: usize = loaded_snapshot.archetypes.iter().map(|a| a.entities.len()).sum();
    assert_eq!(count, 3);
    assert_eq!(loaded_snapshot, snapshot);
    assert!(bevy_archive::binary_archive::rmp_snapshot::from_rmp_bytes(&[0x92, 0x90]).is_err());
}
