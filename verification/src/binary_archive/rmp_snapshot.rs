//! Whole snapshots as MessagePack: the entity indices and the archetypes,
//! each as the list of its fields.

use crate::archetype_archive::{WorldArchModel, WorldArchSnapshot};
use crate::entity_codec::{arch_world_of_tree, arch_world_tuple};
use crate::json::{decode, decoded, encode, encoded, Encoding};
use vstd::prelude::*;

verus! {

/// The snapshot that MessagePack bytes hold, where they hold one.
pub open spec fn snapshot_of_rmp(bytes: Seq<u8>) -> Option<WorldArchModel> {
    match decoded(Encoding::MsgPack, bytes) {
        Some(tree) => arch_world_of_tree(tree),
        None => None,
    }
}

/// Writes a snapshot as MessagePack.
pub fn to_rmp_bytes(snapshot: &WorldArchSnapshot) -> (r: Result<Vec<u8>, String>)
    ensures
        match r {
            Ok(bytes) => encoded(Encoding::MsgPack, arch_world_tuple(snapshot@)) == Some(bytes@),
            Err(_) => encoded(Encoding::MsgPack, arch_world_tuple(snapshot@)) is None,
        },
{
    encode(Encoding::MsgPack, &snapshot.to_tuple_value())
}

/// Reads a snapshot from MessagePack.
pub fn from_rmp_bytes(bytes: &[u8]) -> (r: Result<WorldArchSnapshot, String>)
    ensures
        match snapshot_of_rmp(bytes@) {
            Some(w) => r matches Ok(s) && s@ == w,
            None => r is Err,
        },
{
    match decode(Encoding::MsgPack, bytes) {
        Ok(tree) => WorldArchSnapshot::from_value(&tree),
        Err(reason) => Err(reason),
    }
}

} // verus!
