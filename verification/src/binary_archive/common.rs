//! What the binary snapshot forms share: the compressed list of entity
//! indices and the shape of a snapshot whose parts are opaque byte blobs.

use crate::entity_ids::{is_sorted, sort_ids};
use crate::name_map::NameMap;
use vstd::prelude::*;

verus! {

/// One run of a compressed identifier list.
#[derive(Debug, Clone, Copy, PartialEq, Eq, Structural)]
pub enum SparseSegment {
    /// A single isolated identifier.
    Single(u32),
    /// A run of consecutive identifiers, both ends included.
    Range(u32, u32),
}

impl SparseSegment {
    /// The identifiers that the segment stands for, in ascending order. A
    /// range whose end is below its start stands for none.
    pub open spec fn expand(self) -> Seq<u32> {
        match self {
            SparseSegment::Single(v) => seq![v],
            SparseSegment::Range(start, end) => if start <= end {
                Seq::new((end - start + 1) as nat, |i: int| (start + i) as u32)
            } else {
                Seq::empty()
            },
        }
    }

    /// The first identifier of the segment.
    pub open spec fn first(self) -> u32 {
        match self {
            SparseSegment::Single(v) => v,
            SparseSegment::Range(start, _) => start,
        }
    }

    /// The last identifier of the segment.
    pub open spec fn last(self) -> u32 {
        match self {
            SparseSegment::Single(v) => v,
            SparseSegment::Range(_, end) => end,
        }
    }

    /// A range holds two identifiers at least.
    pub open spec fn is_proper(self) -> bool {
        self matches SparseSegment::Range(start, end) ==> start < end
    }
}

/// The identifiers that a list of segments stands for: those of each segment
/// in turn.
pub open spec fn expand_all(segments: Seq<SparseSegment>) -> Seq<u32>
    decreases segments.len(),
{
    if segments.len() == 0 {
        Seq::empty()
    } else {
        expand_all(segments.drop_last()) + segments.last().expand()
    }
}

/// The segments are the longest runs: every range is proper, and no segment
/// goes on where the one before it ends.
pub open spec fn is_longest_runs(segments: Seq<SparseSegment>) -> bool {
    &&& forall|k: int| 0 <= k < segments.len() ==> (#[trigger] segments[k]).is_proper()
    &&& forall|k: int|
        0 <= k < segments.len() - 1 ==> (#[trigger] segments[k]).last() + 1 != segments[k
            + 1].first()
}

/// A list of identifiers, held as runs of consecutive values.
#[derive(Debug, Clone, PartialEq, Eq)]
pub struct SparseU32List {
    /// The runs, in the order of the list.
    pub segments: Vec<SparseSegment>,
}

impl View for SparseU32List {
    type V = Seq<SparseSegment>;

    open spec fn view(&self) -> Seq<SparseSegment> {
        self.segments@
    }
}

impl Default for SparseU32List {
    fn default() -> (r: Self)
        ensures
            r@.len() == 0,
    {
        SparseU32List { segments: Vec::new() }
    }
}

impl SparseU32List {
    /// Compresses a list given in any order: the list is put in ascending
    /// order first.
    pub fn from_unsorted(ids: Vec<u32>) -> (r: Self)
        ensures
            is_sorted(expand_all(r@)),
            expand_all(r@).to_multiset() == ids@.to_multiset(),
            is_longest_runs(r@),
    {
        let mut sorted = ids;
        sort_ids(&mut sorted);
        Self::from_sorted(sorted.as_slice())
    }

    /// Compresses a list: each longest run of values that go up by one becomes
    /// a range, every other value a single. The order is kept, so the list
    /// need not be sorted to come back unchanged.
    pub fn from_sorted(ids: &[u32]) -> (r: Self)
        ensures
            expand_all(r@) == ids@,
            is_longest_runs(r@),
    {
        let mut segments: Vec<SparseSegment> = Vec::new();
        let mut i: usize = 0;
        while i < ids.len()
            invariant
                i <= ids.len(),
                expand_all(segments@) == ids@.take(i as int),
                is_longest_runs(segments@),
                i > 0 ==> segments@.len() > 0 && segments@.last().last() == ids@[i - 1],
                0 < i < ids.len() ==> ids@[i - 1] + 1 != ids@[i as int],
            decreases ids.len() - i,
        {
            let start = ids[i];
            let mut end = start;
            let ghost run = i;
            while i + 1 < ids.len() && ids[i] < u32::MAX && ids[i + 1] == ids[i] + 1
                invariant
                    run <= i < ids.len(),
                    start == ids@[run as int],
                    end == ids@[i as int],
                    forall|k: int| run <= k <= i ==> ids@[k] == start + (k - run),
                decreases ids.len() - i,
            {
                i += 1;
                end = ids[i];
            }
            let segment = if start == end {
                SparseSegment::Single(start)
            } else {
                SparseSegment::Range(start, end)
            };
            proof {
                assert(segment.expand() =~= ids@.subrange(run as int, i + 1));
                assert(segments@.push(segment).drop_last() =~= segments@);
                assert(ids@.take(run as int) + ids@.subrange(run as int, i + 1) =~= ids@.take(
                    i + 1,
                ));
            }
            segments.push(segment);
            i += 1;
        }
        assert(ids@.take(ids@.len() as int) =~= ids@);
        SparseU32List { segments }
    }

    /// The list that the segments stand for.
    pub fn to_vec(&self) -> (out: Vec<u32>)
        ensures
            out@ == expand_all(self@),
    {
        let mut out: Vec<u32> = Vec::new();
        let mut k: usize = 0;
        while k < self.segments.len()
            invariant
                k <= self.segments.len(),
                out@ == expand_all(self@.take(k as int)),
            decreases self.segments.len() - k,
        {
            let ghost before = out@;
            match self.segments[k] {
                SparseSegment::Single(v) => {
                    out.push(v);
                },
                SparseSegment::Range(start, end) => {
                    if start <= end {
                        let mut v = start;
                        out.push(v);
                        while v < end
                            invariant
                                start <= v <= end,
                                out@ == before + Seq::new(
                                    (v - start + 1) as nat,
                                    |i: int| (start + i) as u32,
                                ),
                            decreases end - v,
                        {
                            v += 1;
                            out.push(v);
                            assert(out@ =~= before + Seq::new(
                                (v - start + 1) as nat,
                                |i: int| (start + i) as u32,
                            ));
                        }
                    }
                },
            }
            proof {
                assert(self@.take(k + 1).drop_last() =~= self@.take(k as int));
                assert(out@ =~= before + self@[k as int].expand());
            }
            k += 1;
        }
        assert(self@.take(self@.len() as int) =~= self@);
        out
    }
}

/// Bytes in an encoding of their own.
#[derive(Debug, Clone, PartialEq, Eq)]
pub struct BinBlob(pub Vec<u8>);

/// The encoding of the archetypes of a binary snapshot.
#[derive(Debug, Clone, Copy, PartialEq, Eq, Structural)]
pub enum BinFormat {
    Parquet,
    MsgPack,
}

impl Default for BinFormat {
    fn default() -> (r: Self)
        ensures
            r == BinFormat::Parquet,
    {
        BinFormat::Parquet
    }
}

/// A snapshot whose archetypes and resources are blobs.
#[derive(Debug)]
pub struct WorldBinArchSnapshot {
    /// The entity indices of the world.
    pub entities: SparseU32List,
    /// The archetypes, each in the encoding that `format` names.
    pub archetypes: Vec<BinBlob>,
    /// The resources, by type name.
    pub resources: NameMap<BinBlob>,
    pub format: BinFormat,
    /// Notes on the snapshot.
    pub meta: NameMap<String>,
}

impl Default for WorldBinArchSnapshot {
    fn default() -> (r: Self)
        ensures
            r.entities@.len() == 0,
            r.archetypes@.len() == 0,
            r.resources.wf(),
            r.resources.names().len() == 0,
            r.format == BinFormat::Parquet,
            r.meta.wf(),
            r.meta.names().len() == 0,
    {
        WorldBinArchSnapshot {
            entities: SparseU32List { segments: Vec::new() },
            archetypes: Vec::new(),
            resources: NameMap::new(),
            format: BinFormat::Parquet,
            meta: NameMap::new(),
        }
    }
}

} // verus!
