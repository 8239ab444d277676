pub mod archetype_archive;
pub mod arrow_archive;
pub mod aurora_archive;
pub mod aurora_codec;
pub mod bevy_cmdbuffer;
pub mod bevy_registry;
pub mod binary_archive;
pub mod columnar_laws;
pub mod csv_archive;
pub mod dyn_value;
pub mod entity_archive;
pub mod entity_codec;
pub mod entity_ids;
pub mod json;
pub mod name_map;
pub mod schema;
pub mod text;
