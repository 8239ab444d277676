pub mod common;
pub mod msgpack_archive;
pub mod rmp_snapshot;
pub mod world_snapshot;
