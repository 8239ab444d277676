pub mod sparse_entitiy_list;
pub mod zip_snapshot;
