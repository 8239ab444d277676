//! The MessagePack archive: a snapshot whose archetypes and resources are
//! MessagePack blobs.

use crate::archetype_archive::{
    ArchetypeModel, ArchetypeSnapshot, WorldArchSnapshot,
};
use crate::binary_archive::common::{
    expand_all, is_longest_runs, BinBlob, BinFormat, SparseU32List, WorldBinArchSnapshot,
};
use crate::dyn_value::DynValue;
use crate::entity_ids::is_sorted;
use crate::json::{decode, decoded, encode, encoded, Encoding};
use crate::name_map::NameMap;
use crate::schema::{snapshot_of_value, snapshot_tuple};
use vstd::prelude::*;
use vstd::string::*;

verus! {

/// Where an archetype cannot be packed, the archetypes cannot.
pub proof fn lemma_packed_none(archetypes: Seq<ArchetypeModel>, k: int, n: int)
    requires
        0 <= k <= n,
        packed_archetypes(archetypes, k) is None,
    ensures
        packed_archetypes(archetypes, n) is None,
    decreases n - k,
{
    if k < n {
        lemma_packed_none(archetypes, k, n - 1);
    }
}

/// A snapshot of a world in MessagePack.
#[derive(Debug)]
pub struct MsgPackArchive(pub WorldBinArchSnapshot);

/// The archetype snapshot that a MessagePack blob holds, where it holds one.
pub open spec fn snapshot_of_msgpack(bytes: Seq<u8>) -> Option<ArchetypeModel> {
    match decoded(Encoding::MsgPack, bytes) {
        Some(v) => snapshot_of_value(v),
        None => None,
    }
}

/// The bytes of a list of blobs.
pub open spec fn blob_bytes(blobs: Seq<BinBlob>) -> Seq<Seq<u8>> {
    Seq::new(blobs.len(), |k: int| blobs[k].0@)
}

/// The blobs of the first `n` archetypes: the MessagePack form of each that
/// has a row, in order. There are none where one of them has no such form.
pub open spec fn packed_archetypes(archetypes: Seq<ArchetypeModel>, n: int) -> Option<
    Seq<Seq<u8>>,
>
    decreases n,
{
    if n <= 0 {
        Some(Seq::empty())
    } else {
        match packed_archetypes(archetypes, n - 1) {
            None => None,
            Some(rest) => if archetypes[n - 1].entities.len() == 0 {
                Some(rest)
            } else {
                match encoded(Encoding::MsgPack, snapshot_tuple(archetypes[n - 1])) {
                    Some(bytes) => Some(rest.push(bytes)),
                    None => None,
                }
            },
        }
    }
}

impl MsgPackArchive {
    /// The archive of the given entities, archetypes and resources. The
    /// entities are put in order and compressed; an archetype without a row
    /// is left out; each archetype and each resource becomes a blob.
    pub fn from_snapshots(
        entities: Vec<u32>,
        archetypes: &Vec<ArchetypeSnapshot>,
        resources: &NameMap<DynValue>,
    ) -> (r: Result<Self, String>)
        requires
            resources.wf(),
        ensures
            r is Ok <==> packed_archetypes(archetypes.deep_view(), archetypes@.len() as int) is Some
                && forall|k: int|
                0 <= k < resources.names().len() ==> encoded(
                    Encoding::MsgPack,
                    (#[trigger] resources.values()[k])@,
                ) is Some,
            r matches Ok(archive) ==> {
                &&& archive.0.format == BinFormat::MsgPack
                &&& is_sorted(expand_all(archive.0.entities@))
                &&& expand_all(archive.0.entities@).to_multiset() == entities@.to_multiset()
                &&& is_longest_runs(archive.0.entities@)
                &&& archive.0.resources.wf()
                &&& archive.0.resources.names() == resources.names()
                &&& forall|k: int|
                    0 <= k < resources.names().len() ==> encoded(
                        Encoding::MsgPack,
                        resources.values()[k]@,
                    ) == Some((#[trigger] archive.0.resources.values()[k]).0@)
                &&& packed_archetypes(archetypes.deep_view(), archetypes@.len() as int) == Some(
                    blob_bytes(archive.0.archetypes@),
                )
            },
    {
        let mut snapshot = WorldBinArchSnapshot::default();
        snapshot.format = BinFormat::MsgPack;
        snapshot.entities = SparseU32List::from_unsorted(entities);
        let mut a: usize = 0;
        while a < archetypes.len()
            invariant
                a <= archetypes.len(),
                snapshot.format == BinFormat::MsgPack,
                is_sorted(expand_all(snapshot.entities@)),
                expand_all(snapshot.entities@).to_multiset() == entities@.to_multiset(),
                is_longest_runs(snapshot.entities@),
                snapshot.resources.wf(),
                snapshot.resources.names().len() == 0,
                packed_archetypes(archetypes.deep_view(), a as int) == Some(
                    blob_bytes(snapshot.archetypes@),
                ),
            decreases archetypes.len() - a,
        {
            let arch = &archetypes[a];
            assert(archetypes.deep_view()[a as int] == arch@);
            if !arch.is_empty() {
                let bytes = match encode(Encoding::MsgPack, &arch.to_tuple_value()) {
                    Ok(bytes) => bytes,
                    Err(reason) => {
                        proof {
                            assert(packed_archetypes(archetypes.deep_view(), a + 1) is None);
                            lemma_packed_none(
                                archetypes.deep_view(),
                                a + 1,
                                archetypes@.len() as int,
                            );
                        }
                        return Err(reason);
                    },
                };
                let ghost before = blob_bytes(snapshot.archetypes@);
                snapshot.archetypes.push(BinBlob(bytes));
                assert(blob_bytes(snapshot.archetypes@) =~= before.push(bytes@));
            }
            a += 1;
        }
        let n = resources.len();
        let mut k: usize = 0;
        let ghost blobs = snapshot.archetypes@;
        assert(snapshot.resources.names() =~= resources.names().take(0));
        while k < n
            invariant
                resources.wf(),
                n == resources.names().len(),
                k <= n,
                snapshot.format == BinFormat::MsgPack,
                is_sorted(expand_all(snapshot.entities@)),
                expand_all(snapshot.entities@).to_multiset() == entities@.to_multiset(),
                is_longest_runs(snapshot.entities@),
                snapshot.resources.wf(),
                snapshot.resources.names() == resources.names().take(k as int),
                snapshot.resources.values().len() == k,
                forall|j: int|
                    0 <= j < k ==> encoded(Encoding::MsgPack, resources.values()[j]@) == Some(
                        (#[trigger] snapshot.resources.values()[j]).0@,
                    ),
                snapshot.archetypes@ == blobs,
                packed_archetypes(archetypes.deep_view(), archetypes@.len() as int) == Some(
                    blob_bytes(blobs),
                ),
                forall|j: int|
                    0 <= j < k ==> encoded(
                        Encoding::MsgPack,
                        (#[trigger] resources.values()[j])@,
                    ) is Some,
            decreases n - k,
        {
            let bytes = match encode(Encoding::MsgPack, resources.value_at(k)) {
                Ok(bytes) => bytes,
                Err(reason) => {
                    assert(encoded(Encoding::MsgPack, resources.values()[k as int]@) is None);
                    return Err(reason);
                },
            };
            let name = resources.name_at(k).clone();
            proof {
                let taken = resources.names().take(k as int);
                if taken.contains(name@) {
                    let i = choose|i: int| 0 <= i < taken.len() && taken[i] == name@;
                    assert(resources.names()[i] == resources.names()[k as int]);
                }
                assert(crate::text::first_index(snapshot.resources.names(), name@) is None);
            }
            snapshot.resources.insert(name, BinBlob(bytes));
            proof {
                assert(snapshot.resources.names() =~= resources.names().take(k + 1));
            }
            k += 1;
        }
        assert(resources.names().take(n as int) =~= resources.names());
        Ok(MsgPackArchive(snapshot))
    }

    /// Whether the archive is in the format that its name promises.
    pub fn check_format(&self) -> (r: Result<(), String>)
        ensures
            match self.0.format {
                BinFormat::MsgPack => r is Ok,
                BinFormat::Parquet => r matches Err(msg) && msg@
                    == "Expected MsgPack format, got Parquet"@,
            },
    {
        match self.0.format {
            BinFormat::MsgPack => Ok(()),
            BinFormat::Parquet => Err(String::from_str("Expected MsgPack format, got Parquet")),
        }
    }

    /// The snapshot that the archive holds: its entities, and its archetypes
    /// read from their blobs. An archive in another format, or with a blob
    /// that holds no archetype, is refused.
    pub fn to_world_snapshot(&self) -> (r: Result<WorldArchSnapshot, String>)
        ensures
            match r {
                Ok(s) => {
                    &&& self.0.format == BinFormat::MsgPack
                    &&& s@.entities == expand_all(self.0.entities@)
                    &&& s@.archetypes.len() == self.0.archetypes@.len()
                    &&& forall|k: int|
                        0 <= k < s@.archetypes.len() ==> snapshot_of_msgpack(
                            self.0.archetypes@[k].0@,
                        ) == Some(#[trigger] s@.archetypes[k])
                },
                Err(_) => self.0.format != BinFormat::MsgPack || exists|k: int|
                    0 <= k < self.0.archetypes@.len() && snapshot_of_msgpack(
                        (#[trigger] self.0.archetypes@[k]).0@,
                    ) is None,
            },
    {
        match self.check_format() {
            Ok(_) => {},
            Err(reason) => {
                return Err(reason);
            },
        }
        let entities = self.0.entities.to_vec();
        let mut archetypes: Vec<ArchetypeSnapshot> = Vec::new();
        let mut k: usize = 0;
        while k < self.0.archetypes.len()
            invariant
                k <= self.0.archetypes.len(),
                archetypes@.len() == k,
                forall|j: int|
                    0 <= j < k ==> snapshot_of_msgpack(self.0.archetypes@[j].0@) == Some(
                        (#[trigger] archetypes@[j])@,
                    ),
            decreases self.0.archetypes.len() - k,
        {
            let blob = &self.0.archetypes[k];
            let value = match decode(Encoding::MsgPack, blob.0.as_slice()) {
                Ok(value) => value,
                Err(reason) => {
                    assert(snapshot_of_msgpack(self.0.archetypes@[k as int].0@) is None);
                    return Err(reason);
                },
            };
            let arch = match ArchetypeSnapshot::from_value(&value) {
                Ok(arch) => arch,
                Err(reason) => {
                    assert(snapshot_of_msgpack(self.0.archetypes@[k as int].0@) is None);
                    return Err(reason);
                },
            };
            archetypes.push(arch);
            k += 1;
        }
        let r = WorldArchSnapshot { entities, archetypes };
        proof {
            assert forall|j: int| 0 <= j < r@.archetypes.len() implies snapshot_of_msgpack(
                self.0.archetypes@[j].0@,
            ) == Some(#[trigger] r@.archetypes[j]) by {
                assert(r@.archetypes[j] == r.archetypes@[j]@);
            }
        }
        Ok(r)
    }
}

} // verus!
