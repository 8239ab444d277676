use bevy_archive::archetype_archive::{ArchetypeSnapshot, StorageTypeFlag};
use bevy_archive::csv_archive::{
    build_schema, cell_from_text, cell_to_text, columnar_core, columnar_from_records,
    columnar_from_snapshot, columnar_from_snapshot_unchecked, infer_schema, to_archetype_snapshot,
    ColumnarCsv,
};
use bevy_archive::dyn_value::DynValue;

fn num(v: f64) -> DynValue {
    DynValue::Number(serde_json::Number::from_f64(v).unwrap())
}

fn whole(v: i64) -> DynValue {
    DynValue::Number(serde_json::Number::from(v))
}

fn text(s: &str) -> DynValue {
    DynValue::String(s.to_string())
}

fn obj(fields: Vec<(&str, DynValue)>) -> DynValue {
    DynValue::Object(fields.into_iter().map(|(k, v)| (k.to_string(), v)).collect())
}

fn arch(types: &[&str], entities: Vec<u32>, columns: Vec<Vec<DynValue>>) -> ArchetypeSnapshot {
    ArchetypeSnapshot {
        component_types: types.iter().map(|s| s.to_string()).collect(),
        storage_types: types.iter().map(|_| StorageTypeFlag::Table).collect(),
        columns,
        entities,
    }
}

/// The archetype of the entities with an integer and a float component.
fn first_archetype() -> ArchetypeSnapshot {
    let mut a0 = arch(&["TestComponentA", "TestComponentB"], vec![], vec![vec![], vec![]]);
    for i in 0..10i64 {
        a0.entities.push((i * 5) as u32);
        a0.columns[0].push(obj(vec![("value", whole(i))]));
        a0.columns[1].push(obj(vec![("value", num((i as f32 * 0.1) as f64))]));
    }
    a0
}

#[test]
fn test_csv_archetype_snapshot() {
    let snapshot = first_archetype();
    let csv = columnar_from_snapshot_unchecked(&snapshot);
    assert_eq!(csv.headers.len(), snapshot.columns.len());
    assert_eq!(csv.headers, vec!["TestComponentA.value", "TestComponentB.value"]);
    assert_eq!(csv.row_index, snapshot.entities);
    assert_eq!(csv.columns[0][3], whole(3));
    let bytes = csv.to_csv_writer().unwrap();
    let out = String::from_utf8(bytes).unwrap();
    assert!(out.starts_with("id,TestComponentA.value,TestComponentB.value\n0,0,0.0\n5,1,0.10000000149011612\n"));
}

#[test]
fn test_csv_snapshot_roundtrip() {
    let snapshot = first_archetype();
    let csv = columnar_from_snapshot_unchecked(&snapshot);
    let new_snap = to_archetype_snapshot(&csv);
    assert_eq!(new_snap.entities.len(), snapshot.entities.len());
    assert_eq!(new_snap, snapshot);
}

#[test]
fn test_csv_archetype_snapshot_roundtrip() {
    let snapshot = first_archetype();
    let csv = columnar_from_snapshot_unchecked(&snapshot);
    assert_eq!(csv.headers.len(), snapshot.columns.len());
    let v = csv.to_csv_writer().unwrap();
    let new_csv = ColumnarCsv::from_csv_reader(v.as_slice()).unwrap();
    let nv = new_csv.to_csv_writer().unwrap();
    assert_eq!(nv, v);
    assert_eq!(new_csv, csv);
}

#[test]
fn flat_snapshot_comes_back_from_columnar_table() {
    let snapshot = arch(
        &["Name", "Level", "Tag"],
        vec![4, 2],
        vec![
            vec![text("a"), text("b,c")],
            vec![whole(1), DynValue::Null],
            vec![DynValue::Bool(true), DynValue::Array(vec![whole(1), whole(2)])],
        ],
    );
    let csv = columnar_from_snapshot(&snapshot);
    assert_eq!(csv.headers, vec!["Name", "Level", "Tag"]);
    let back = to_archetype_snapshot(&csv);
    assert_eq!(back.component_types, snapshot.component_types);
    assert_eq!(back.columns, snapshot.columns);
    assert_eq!(back.entities, snapshot.entities);
    let bytes = csv.to_csv_writer().unwrap();
    assert_eq!(
        String::from_utf8(bytes.clone()).unwrap(),
        "id,Name,Level,Tag\n4,\"\"\"a\"\"\",1,true\n2,\"\"\"b,c\"\"\",,\"[1,2]\"\n"
    );
    let read = ColumnarCsv::from_csv(bytes.as_slice()).unwrap();
    assert_eq!(to_archetype_snapshot(&read).columns, snapshot.columns);
}

#[test]
fn strict_schema_gathers_fields_of_all_rows() {
    let snapshot = arch(
        &["P"],
        vec![1, 2, 3],
        vec![vec![
            obj(vec![("x", whole(1))]),
            obj(vec![("y", whole(2)), ("x", whole(3))]),
            whole(7),
        ]],
    );
    let schema = build_schema(&snapshot, true);
    assert_eq!(schema.len(), 1);
    assert_eq!(schema[0].component, "P");
    assert_eq!(schema[0].fields, vec!["P.x", "P.y", "P"]);
    let fast = build_schema(&snapshot, false);
    assert_eq!(fast[0].fields, vec!["P.x"]);
    let csv = columnar_from_snapshot(&snapshot);
    assert_eq!(csv.headers, vec!["P.x", "P.y", "P"]);
    assert_eq!(csv.columns[0], vec![whole(1), whole(3), whole(7)]);
    assert_eq!(csv.columns[1], vec![DynValue::Null, whole(2), whole(7)]);
    assert_eq!(csv.columns[2], vec![DynValue::Null, DynValue::Null, whole(7)]);
    assert!(!csv.has_uniform_groups());
    assert!(csv.is_aligned());
}

#[test]
fn infer_schema_of_objects_and_scalars() {
    assert_eq!(infer_schema("T", &obj(vec![("a", whole(1)), ("b", whole(2))])).fields, vec!["T.a", "T.b"]);
    assert_eq!(infer_schema("T", &whole(1)).fields, vec!["T"]);
    assert_eq!(infer_schema("T", &DynValue::Null).fields, vec!["T"]);
    assert_eq!(infer_schema("T", &obj(vec![])).fields, Vec::<String>::new());
}

#[test]
fn duplicate_headers_are_refused() {
    let snapshot = arch(&["A", "A"], vec![1], vec![vec![whole(1)], vec![whole(2)]]);
    assert_eq!(columnar_core(&snapshot, true).unwrap_err(), "Column 'A' already exists");
    let mut csv = ColumnarCsv::new(2);
    assert_eq!(csv.row_index, vec![0, 1]);
    assert_eq!(csv.add_column("x".to_string()), Ok(()));
    assert_eq!(csv.add_column("x".to_string()), Err("Column 'x' already exists".to_string()));
    assert_eq!(csv.columns, vec![vec![DynValue::Null, DynValue::Null]]);
    csv.get_column_mut("x").unwrap()[1] = whole(5);
    assert_eq!(csv.columns[0][1], whole(5));
    assert!(csv.get_column_mut("y").is_none());
}

#[test]
fn columnar_table_gathers_fields_into_objects() {
    let csv = ColumnarCsv {
        headers: vec!["P.x".into(), "Name".into(), "P.y".into(), "Q.z.w".into()],
        columns: vec![
            vec![whole(1), whole(2)],
            vec![text("a"), text("b")],
            vec![whole(3), DynValue::Null],
            vec![whole(5), whole(6)],
        ],
        row_index: vec![8, 9],
    };
    assert!(csv.has_uniform_groups());
    let snap = to_archetype_snapshot(&csv);
    assert_eq!(snap.component_types, vec!["P", "Name", "Q"]);
    assert_eq!(snap.storage_types, vec![StorageTypeFlag::Table; 3]);
    assert_eq!(snap.entities, vec![8, 9]);
    assert_eq!(
        snap.columns[0],
        vec![
            obj(vec![("x", whole(1)), ("y", whole(3))]),
            obj(vec![("x", whole(2)), ("y", DynValue::Null)])
        ]
    );
    assert_eq!(snap.columns[1], vec![text("a"), text("b")]);
    assert_eq!(snap.columns[2][0], obj(vec![("z.w", whole(5))]));
}

#[test]
fn cells_as_text() {
    assert_eq!(cell_to_text(&DynValue::Null), "");
    assert_eq!(cell_to_text(&whole(-3)), "-3");
    assert_eq!(cell_to_text(&text("hi")), "\"hi\"");
    assert_eq!(cell_to_text(&obj(vec![("b", whole(1)), ("a", DynValue::Bool(false))])), "{\"a\":false,\"b\":1}");
    assert_eq!(cell_from_text(""), DynValue::Null);
    assert_eq!(cell_from_text(" \t "), DynValue::Null);
    assert_eq!(cell_from_text("12"), whole(12));
    assert_eq!(cell_from_text("1.5"), num(1.5));
    assert_eq!(cell_from_text("plain words"), text("plain words"));
    assert_eq!(cell_from_text("\"quoted\""), text("quoted"));
    assert_eq!(
        cell_from_text("[1,true,null,{\"k\":\"v\"}]"),
        DynValue::Array(vec![whole(1), DynValue::Bool(true), DynValue::Null, obj(vec![("k", text("v"))])])
    );
}

#[test]
fn csv_data_has_to_fit() {
    assert_eq!(
        ColumnarCsv::from_csv_reader(b"name,x\n1,2\n").unwrap_err(),
        "CSV data has no id column"
    );
    assert!(ColumnarCsv::from_csv_reader(b"id,x\n1,2,3\n").is_err());
    assert_eq!(
        ColumnarCsv::from_csv_reader(b"id,x\n1,2\nsoon,3\n").unwrap_err(),
        "CSV record 1 has no entity index: 'soon'"
    );
    let csv = ColumnarCsv::from_csv_reader(b"id,x,y\n7,1,\n+8,,plain\n").unwrap();
    assert_eq!(csv.headers, vec!["x", "y"]);
    assert_eq!(csv.row_index, vec![7, 8]);
    assert_eq!(csv.columns, vec![vec![whole(1), DynValue::Null], vec![DynValue::Null, text("plain")]]);
    assert_eq!(
        columnar_from_records(
            vec!["id".to_string(), "x".to_string()],
            vec![vec!["1".to_string()]]
        )
        .unwrap_err(),
        "CSV record 0 has 1 fields, expected 2"
    );
    assert_eq!(
        columnar_from_records(
            vec!["id".to_string()],
            vec![vec!["4294967296".to_string()]]
        )
        .unwrap_err(),
        "CSV record 0 has no entity index: '4294967296'"
    );
}

#[test]
fn columns_of_one_kind_come_back_from_the_table() {
    let snapshot = arch(
        &["Position", "Name", "Tag", "Nested"],
        vec![7, 3, 9],
        vec![
            vec![
                obj(vec![("x", whole(1)), ("y.z", whole(2))]),
                obj(vec![("x", whole(3)), ("y.z", DynValue::Null)]),
                obj(vec![("x", text("a")), ("y.z", whole(6))]),
            ],
            vec![text("one"), DynValue::Null, whole(4)],
            vec![obj(vec![("only", whole(0))]), obj(vec![("only", whole(1))]), obj(vec![("only", whole(2))])],
            vec![
                obj(vec![("inner", obj(vec![("a", whole(1))]))]),
                obj(vec![("inner", DynValue::Array(vec![whole(2)]))]),
                obj(vec![("inner", DynValue::Bool(true))]),
            ],
        ],
    );
    let csv = columnar_from_snapshot(&snapshot);
    assert_eq!(csv.headers, vec!["Position.x", "Position.y.z", "Name", "Tag.only", "Nested.inner"]);
    assert!(csv.is_aligned() && csv.has_uniform_groups());
    let back = to_archetype_snapshot(&csv);
    assert_eq!(back.entities, snapshot.entities);
    assert_eq!(back.component_types, snapshot.component_types);
    assert_eq!(back.columns, snapshot.columns);

    let plain = arch(
        &["A", "B"],
        vec![1, 2],
        vec![
            vec![obj(vec![("v", whole(1)), ("w", text("x y"))]), obj(vec![("v", whole(2)), ("w", text("z,q"))])],
            vec![whole(5), whole(6)],
        ],
    );
    let bytes = columnar_from_snapshot(&plain).to_csv_writer().unwrap();
    let read = ColumnarCsv::from_csv_reader(&bytes).unwrap();
    let again = to_archetype_snapshot(&read);
    assert_eq!(again.entities, plain.entities);
    assert_eq!(again.component_types, plain.component_types);
    assert_eq!(again.columns, plain.columns);
}
