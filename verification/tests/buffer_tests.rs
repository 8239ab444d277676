use bevy_archive::bevy_cmdbuffer::buffer::{ArenaBox, ArgMeta, HarvardCommandBuffer, OpHead};
use bevy_archive::bevy_registry::{
    remap_rows, DeferredEntityBuilder, EntityMap, EntityRemapper, IDRemapRegistry, LoadAction,
    SnapshotFactory, SnapshotMerge, SnapshotMode, SnapshotRegistry,
};

const A: usize = 1;
const B: usize = 2;

fn arg(comp_id: usize, payload_ptr: usize) -> ArgMeta {
    ArgMeta { comp_id, payload_ptr, drop_fn: Some(comp_id) }
}

#[test]
fn test_reset_and_reuse() {
    let e1 = 1u64;
    let mut buffer = HarvardCommandBuffer::new();

    // Cycle 1
    buffer.insert_box(e1, A, ArenaBox { ptr: 10, drop_fn: A });
    let ops = buffer.apply();
    assert_eq!(ops, vec![OpHead::ModifyEntity { entity: e1, args: vec![arg(A, 10)] }]);
    buffer.reset();
    assert!(buffer.take_dropped().is_empty());

    // Cycle 2
    buffer.insert_box(e1, A, ArenaBox { ptr: 20, drop_fn: A });
    let ops = buffer.apply();
    assert_eq!(ops, vec![OpHead::ModifyEntity { entity: e1, args: vec![arg(A, 20)] }]);
    assert!(buffer.apply().is_empty());
}

#[test]
fn test_generic_apis() {
    let (e1, e2) = (1u64, 2u64);
    let mut buffer = HarvardCommandBuffer::new();

    buffer.insert_raw(e1, A, 100, Some(A));
    buffer.insert_raw(e1, B, 101, Some(B));
    buffer.insert_batch_raw(vec![e1, e2], vec![200, 300], A, 4, Some(A));

    let ops = buffer.apply();
    assert_eq!(
        ops,
        vec![
            OpHead::ModifyEntity { entity: e1, args: vec![arg(A, 100), arg(B, 101)] },
            OpHead::BatchInsert {
                entities: vec![e1, e2],
                payloads: vec![200, 300],
                comp_id: A,
                stride: 4,
                drop_fn: Some(A),
            },
        ]
    );

    buffer.reset();
    buffer.remove_raw(e1, vec![A]);
    buffer.remove_raw(e1, vec![]);
    buffer.despawn(e2);
    buffer.insert_batch_raw(vec![], vec![], A, 4, Some(A));
    assert_eq!(
        buffer.apply(),
        vec![OpHead::RemoveComponents { entity: e1, ids: vec![A] }, OpHead::Despawn(e2)]
    );
    assert!(buffer.take_dropped().is_empty());
}

#[test]
fn test_drop_safety() {
    let e1 = 1u64;
    let buffer = {
        let mut buffer = HarvardCommandBuffer::new();
        buffer.insert_box(e1, A, ArenaBox { ptr: 1, drop_fn: 7 });
        buffer
    };
    // The buffer ends here without apply.
    let dropped = buffer.teardown();
    assert_eq!(dropped.len(), 1);
    assert_eq!(dropped, vec![ArgMeta { comp_id: A, payload_ptr: 1, drop_fn: Some(7) }]);
}

#[test]
fn teardown_gives_up_every_staged_payload_once() {
    let mut buffer = HarvardCommandBuffer::new();
    buffer.insert_raw(1, A, 10, Some(A));
    buffer.insert_raw(1, A, 11, Some(A));
    buffer.insert_raw(2, B, 12, None);
    buffer.insert_batch_raw(vec![3, 4], vec![13, 14], B, 8, Some(B));
    buffer.insert_raw(5, A, 15, Some(A));
    buffer.despawn(9);
    buffer.insert_raw(6, B, 16, Some(B));
    let mut dropped: Vec<usize> = buffer.teardown().iter().map(|a| a.payload_ptr).collect();
    dropped.sort();
    assert_eq!(dropped, vec![10, 11, 13, 14, 15, 16]);
}

#[test]
fn later_write_of_a_type_wins() {
    let mut buffer = HarvardCommandBuffer::new();
    buffer.insert_raw(1, A, 10, Some(A));
    buffer.insert_raw(1, B, 20, Some(B));
    buffer.insert_raw(1, A, 11, Some(A));
    buffer.insert_raw(1, B, 21, Some(B));
    buffer.insert_raw(1, A, 12, None);
    buffer.flush();
    assert_eq!(buffer.take_dropped(), vec![arg(A, 10), arg(B, 20), arg(A, 11)]);
    assert_eq!(
        buffer.apply(),
        vec![OpHead::ModifyEntity {
            entity: 1,
            args: vec![arg(B, 21), ArgMeta { comp_id: A, payload_ptr: 12, drop_fn: None }],
        }]
    );
    assert!(buffer.take_dropped().is_empty());
}

#[test]
fn hundred_entities_move_once_each() {
    let mut buffer = HarvardCommandBuffer::new();
    for e in 0..100u64 {
        for c in 0..4usize {
            buffer.insert_raw(e, c, (e as usize) * 4 + c, Some(c));
        }
    }
    let ops = buffer.apply();
    assert_eq!(ops.len(), 100);
    for (e, op) in ops.iter().enumerate() {
        match op {
            OpHead::ModifyEntity { entity, args } => {
                assert_eq!(*entity, e as u64);
                assert_eq!(args.len(), 4);
            }
            _ => panic!("one insertion of a whole bundle is expected"),
        }
        assert_eq!(HarvardCommandBuffer::owned_payloads(op).len(), 4);
    }
}

#[test]
fn builder_replaces_and_rejects() {
    let mut builder = DeferredEntityBuilder::new(42);
    assert_eq!(builder.insert_by_id(A, 10), None);
    assert_eq!(builder.insert_by_id(B, 20), None);
    assert_eq!(builder.insert_by_id(A, 11), Some(10));
    assert_eq!(builder.insert_if_new_by_id(3, 30, true), Some(30));
    assert_eq!(builder.insert_if_new_by_id(3, 31, false), None);
    assert_eq!(builder.insert_if_new_by_id(B, 21, false), Some(20));
    let (entity, ids, ptrs) = builder.commit();
    assert_eq!(entity, 42);
    assert_eq!(ids, vec![A, B, 3]);
    assert_eq!(ptrs, vec![11, 21, 31]);
}

#[test]
fn registry_registers_and_merges() {
    let mut reg = SnapshotRegistry::default();
    reg.register_named("Position", 1, 100, Some(200));
    reg.register_with_name_mode("Tag", 2, 101, None, SnapshotMode::Placeholder);
    reg.resource_register("Config", 102);
    assert_eq!(
        reg.get_factory("Position"),
        Some(&SnapshotFactory { js_value: 100, arrow: Some(200), mode: SnapshotMode::Full })
    );
    assert_eq!(reg.get_factory("Tag").unwrap().mode, SnapshotMode::Placeholder);
    assert!(reg.get_factory("Config").is_none());
    assert_eq!(reg.get_res_factory("Config").unwrap().js_value, 102);
    assert_eq!(reg.type_registry.get("Tag"), Some(&2));
    reg.register_named("Position", 1, 150, None);
    assert_eq!(reg.get_factory("Position").unwrap().js_value, 150);
    assert_eq!(reg.entries.len(), 2);

    let mut other = SnapshotRegistry::default();
    other.register_named("Position", 9, 900, None);
    other.register_named("Velocity", 3, 300, None);

    let mut only_new = SnapshotRegistry::default();
    only_new.register_named("Position", 1, 150, None);
    only_new.merge_only_new(&other);
    assert_eq!(only_new.get_factory("Position").unwrap().js_value, 150);
    assert_eq!(only_new.get_factory("Velocity").unwrap().js_value, 300);
    assert_eq!(only_new.type_registry.get("Position"), Some(&1));

    reg.merge(&other);
    assert_eq!(reg.get_factory("Position").unwrap().js_value, 900);
    assert_eq!(reg.get_factory("Velocity").unwrap().js_value, 300);
    assert_eq!(reg.get_factory("Tag").unwrap().js_value, 101);
    assert_eq!(reg.type_registry.get("Position"), Some(&9));
    assert_eq!(reg.get_res_factory("Config").unwrap().js_value, 102);

    assert_eq!(SnapshotFactory::new(1, None).with_mode(SnapshotMode::EmplaceIfNotExists).mode, SnapshotMode::EmplaceIfNotExists);
    assert_eq!(SnapshotMode::default(), SnapshotMode::Full);
}

#[test]
fn load_modes() {
    assert_eq!(SnapshotMode::Full.load_action(true), LoadAction::Insert);
    assert_eq!(SnapshotMode::Full.load_action(false), LoadAction::Insert);
    assert_eq!(SnapshotMode::EmplaceIfNotExists.load_action(true), LoadAction::Skip);
    assert_eq!(SnapshotMode::EmplaceIfNotExists.load_action(false), LoadAction::Insert);
    assert_eq!(SnapshotMode::Placeholder.load_action(true), LoadAction::InsertDefault);
    assert_eq!(SnapshotMode::PlaceholderEmplaceIfNotExists.load_action(true), LoadAction::Skip);
    assert_eq!(
        SnapshotMode::PlaceholderEmplaceIfNotExists.load_action(false),
        LoadAction::InsertDefault
    );
    let cell = bevy_archive::dyn_value::DynValue::Bool(true);
    assert_eq!(SnapshotMode::Full.saved_cell(cell.clone()), cell);
    assert_eq!(
        SnapshotMode::Placeholder.saved_cell(cell),
        bevy_archive::dyn_value::DynValue::Null
    );
}

#[test]
fn loadable_columns_pass_over_unknown_types() {
    let mut reg = SnapshotRegistry::default();
    reg.register_named("A", 1, 10, None);
    reg.register_with_name_mode("C", 3, 30, None, SnapshotMode::EmplaceIfNotExists);
    let arch = bevy_archive::archetype_archive::ArchetypeSnapshot {
        component_types: vec!["A".into(), "B".into(), "C".into(), "A".into()],
        storage_types: vec![],
        columns: vec![],
        entities: vec![],
    };
    let columns = reg.loadable_columns(&arch);
    let picked: Vec<(usize, usize)> = columns.iter().map(|(c, f)| (*c, f.js_value)).collect();
    assert_eq!(picked, vec![(0, 10), (2, 30), (3, 10)]);
}

#[test]
fn remap_sends_indices_to_their_entities() {
    let placeholder = u64::MAX;
    let mut mapper = EntityMap::new(placeholder);
    mapper.insert(0, 100);
    mapper.insert(1, 101);
    assert_eq!(mapper.map(0), 100);
    assert_eq!(mapper.map(1), 101);
    assert_eq!(mapper.map(2), placeholder);
    assert_eq!(remap_rows(&vec![1, 0, 5], &mapper), vec![101, 100, placeholder]);
    let built = EntityMap::from_rows(&vec![3, 4, 3], &vec![30, 40, 31], 0);
    assert_eq!(built.map(3), 31);
    assert_eq!(built.map(4), 40);
    assert_eq!(built.map(5), 0);
    let mut hooks = IDRemapRegistry::default();
    hooks.register_remap_hook(7, 1);
    hooks.register_remap_hook(7, 2);
    assert_eq!(hooks.get_hook(7), Some(2));
    assert_eq!(hooks.get_hook(8), None);
}

#[test]
fn short_names_of_types() {
    assert_eq!(bevy_archive::bevy_registry::short_type_name("crate::module::Position"), "Position");
    assert_eq!(bevy_archive::bevy_registry::short_type_name("Position"), "Position");
    assert_eq!(bevy_archive::bevy_registry::short_type_name("a::b:::C"), "C");
    assert_eq!(bevy_archive::bevy_registry::short_type_name(""), "");
    assert_eq!(bevy_archive::bevy_registry::short_type_name("a::"), "");
}
