//! The layout of a snapshot in a ZIP container: which entry holds what.

use crate::binary_archive::common::{
    expand_all, is_longest_runs, SparseSegment, SparseU32List,
};
use crate::dyn_value::{lemma_array_view, lemma_object_view, DynModel, DynValue};
use crate::entity_ids::is_sorted;
use crate::json::{
    decode, decoded, encode, encoded, lookup_last, read, read_text, write_text, written, Encoding, TextForm,
};
use crate::name_map::NameMap;
use crate::schema::{field_of, id_of, id_value};
use crate::text::{
    decimal, digit_char, digits_value, is_digit, parse_unsigned, parse_usize, str_eq,
    strip_prefix, strip_suffix, unsigned_digits, usize_to_decimal,
};
use vstd::prelude::*;
use vstd::string::*;
use vstd::utf8::{decode_utf8, encode_utf8, valid_utf8};

verus! {

/// The name of the entry that holds the resource `key`.
pub open spec fn resource_path_spec(key: Seq<char>) -> Seq<char> {
    "resources/"@ + key + ".msgpack"@
}

/// The name of the entry that holds the archetype `idx`.
pub open spec fn archetype_path_spec(idx: usize) -> Seq<char> {
    "archetypes/arch_"@ + decimal(idx as nat) + ".parquet"@
}

/// The resource whose entry is named `path`, if `path` names one.
pub open spec fn resource_key_of(path: Seq<char>) -> Option<Seq<char>> {
    if "resources/"@.is_prefix_of(path) && ".msgpack"@.is_suffix_of(
        path.skip("resources/"@.len() as int),
    ) {
        let rest = path.skip("resources/"@.len() as int);
        Some(rest.take(rest.len() - ".msgpack"@.len()))
    } else {
        None
    }
}

/// The archetype whose entry is named `path`, if `path` names one.
pub open spec fn archetype_idx_of(path: Seq<char>) -> Option<nat> {
    if "archetypes/"@.is_prefix_of(path) {
        let a = path.skip("archetypes/"@.len() as int);
        if "arch_"@.is_prefix_of(a) {
            let b = a.skip("arch_"@.len() as int);
            if ".parquet"@.is_suffix_of(b) {
                parse_unsigned(b.take(b.len() - ".parquet"@.len()), usize::MAX as nat)
            } else {
                None
            }
        } else {
            None
        }
    } else {
        None
    }
}

/// The name of the entry that holds the resource `key`.
pub fn resource_path(key: &str) -> (r: String)
    ensures
        r@ == resource_path_spec(key@),
{
    let mut path = String::from_str("resources/");
    path.append(key);
    path.append(".msgpack");
    path
}

/// The name of the entry that holds the archetype `idx`.
pub fn archetype_path(idx: usize) -> (r: String)
    ensures
        r@ == archetype_path_spec(idx),
{
    let mut path = String::from_str("archetypes/arch_");
    path.append(usize_to_decimal(idx).as_str());
    path.append(".parquet");
    path
}

/// The resource whose entry is named `path`.
pub fn parse_resource_key(path: &str) -> (r: Option<String>)
    ensures
        match resource_key_of(path@) {
            Some(key) => r matches Some(k) && k@ == key,
            None => r is None,
        },
{
    match strip_prefix(path, "resources/") {
        Some(rest) => strip_suffix(rest.as_str(), ".msgpack"),
        None => None,
    }
}

/// The archetype whose entry is named `path`.
pub fn parse_archetype_idx(path: &str) -> (r: Option<usize>)
    ensures
        match archetype_idx_of(path@) {
            Some(idx) => r == Some(idx as usize),
            None => r is None,
        },
{
    let a = match strip_prefix(path, "archetypes/") {
        Some(a) => a,
        None => {
            return None;
        },
    };
    let b = match strip_prefix(a.as_str(), "arch_") {
        Some(b) => b,
        None => {
            return None;
        },
    };
    let digits = match strip_suffix(b.as_str(), ".parquet") {
        Some(d) => d,
        None => {
            return None;
        },
    };
    parse_usize(digits.as_str())
}

/// What an entry of the container holds.
#[derive(Debug, Clone, PartialEq, Eq)]
pub enum ZipEntry {
    /// The notes on the snapshot.
    Meta,
    /// The list of entity indices.
    Entities,
    /// The resource of the given name.
    Resource(String),
    /// The archetype of the given index.
    Archetype(usize),
    /// Nothing that a snapshot knows of.
    Unrecognized,
}

/// The mathematical value of a [`ZipEntry`].
pub enum ZipEntryModel {
    Meta,
    Entities,
    Resource(Seq<char>),
    Archetype(nat),
    Unrecognized,
}

impl View for ZipEntry {
    type V = ZipEntryModel;

    open spec fn view(&self) -> ZipEntryModel {
        match self {
            ZipEntry::Meta => ZipEntryModel::Meta,
            ZipEntry::Entities => ZipEntryModel::Entities,
            ZipEntry::Resource(key) => ZipEntryModel::Resource(key@),
            ZipEntry::Archetype(idx) => ZipEntryModel::Archetype(*idx as nat),
            ZipEntry::Unrecognized => ZipEntryModel::Unrecognized,
        }
    }
}

/// What the entry named `name` holds.
pub open spec fn entry_kind(name: Seq<char>) -> ZipEntryModel {
    if name == "meta.toml"@ {
        ZipEntryModel::Meta
    } else if name == "entities.msgpack"@ {
        ZipEntryModel::Entities
    } else if resource_key_of(name) is Some {
        ZipEntryModel::Resource(resource_key_of(name).unwrap())
    } else if archetype_idx_of(name) is Some {
        ZipEntryModel::Archetype(archetype_idx_of(name).unwrap())
    } else {
        ZipEntryModel::Unrecognized
    }
}

/// What the entry named `name` holds.
pub fn classify_entry(name: &str) -> (r: ZipEntry)
    ensures
        r@ == entry_kind(name@),
{
    if str_eq(name, "meta.toml") {
        return ZipEntry::Meta;
    }
    if str_eq(name, "entities.msgpack") {
        return ZipEntry::Entities;
    }
    match parse_resource_key(name) {
        Some(key) => ZipEntry::Resource(key),
        None => match parse_archetype_idx(name) {
            Some(idx) => ZipEntry::Archetype(idx),
            None => ZipEntry::Unrecognized,
        },
    }
}

/// The parts of a snapshot as its container holds them, each still in its
/// own encoding.
#[derive(Debug)]
pub struct ZipParts {
    /// The notes on the snapshot, as TOML text.
    pub meta: Option<Vec<u8>>,
    /// The list of entity indices, as MessagePack.
    pub entities: Option<Vec<u8>>,
    /// The resources, by name, each as MessagePack.
    pub resources: NameMap<Vec<u8>>,
    /// The archetypes, in the order of their entries, each as Parquet.
    pub archetypes: Vec<Vec<u8>>,
    /// The names of the entries that a snapshot knows nothing of.
    pub unrecognized: Vec<String>,
}

/// The data of the last entry of `entries` that holds `kind`.
pub open spec fn last_of_kind(entries: Seq<(Seq<char>, Seq<u8>)>, kind: ZipEntryModel) -> Option<
    Seq<u8>,
>
    decreases entries.len(),
{
    if entries.len() == 0 {
        None
    } else if entry_kind(entries.last().0) == kind {
        Some(entries.last().1)
    } else {
        last_of_kind(entries.drop_last(), kind)
    }
}

/// Whether the table of resources holds, under `key`, the data of the last
/// entry of `entries` for that resource, and nothing where there is none.
pub open spec fn resource_agrees(
    resources: NameMap<Vec<u8>>,
    entries: Seq<(Seq<char>, Seq<u8>)>,
    key: Seq<char>,
) -> bool {
    match last_of_kind(entries, ZipEntryModel::Resource(key)) {
        Some(data) => resources.lookup(key) matches Some(m) && m@ == data,
        None => resources.lookup(key) is None,
    }
}

/// The data of the archetype entries of `entries`, in their order.
pub open spec fn archetype_blobs(entries: Seq<(Seq<char>, Seq<u8>)>) -> Seq<Seq<u8>>
    decreases entries.len(),
{
    if entries.len() == 0 {
        Seq::empty()
    } else if entry_kind(entries.last().0) is Archetype {
        archetype_blobs(entries.drop_last()).push(entries.last().1)
    } else {
        archetype_blobs(entries.drop_last())
    }
}

/// The names of the entries of `entries` that a snapshot knows nothing of,
/// in their order.
pub open spec fn unrecognized_names(entries: Seq<(Seq<char>, Seq<u8>)>) -> Seq<Seq<char>>
    decreases entries.len(),
{
    if entries.len() == 0 {
        Seq::empty()
    } else if entry_kind(entries.last().0) is Unrecognized {
        unrecognized_names(entries.drop_last()).push(entries.last().0)
    } else {
        unrecognized_names(entries.drop_last())
    }
}

/// Sorts the entries of a container into the parts of a snapshot. Of two
/// entries for one part the later one stands; the archetypes are taken in
/// the order of their entries.
pub fn split_entries(entries: Vec<(String, Vec<u8>)>) -> (r: ZipParts)
    ensures
        r.resources.wf(),
        match last_of_kind(entries.deep_view(), ZipEntryModel::Meta) {
            Some(data) => r.meta matches Some(m) && m@ == data,
            None => r.meta is None,
        },
        match last_of_kind(entries.deep_view(), ZipEntryModel::Entities) {
            Some(data) => r.entities matches Some(m) && m@ == data,
            None => r.entities is None,
        },
        forall|key: Seq<char>| #[trigger] resource_agrees(r.resources, entries.deep_view(), key),
        r.archetypes.deep_view() == archetype_blobs(entries.deep_view()),
        r.unrecognized.deep_view() == unrecognized_names(entries.deep_view()),
{
    let ghost all = entries.deep_view();
    let mut parts = ZipParts {
        meta: None,
        entities: None,
        resources: NameMap::new(),
        archetypes: Vec::new(),
        unrecognized: Vec::new(),
    };
    let mut rest = entries;
    let mut reversed: Vec<(String, Vec<u8>)> = Vec::new();
    while rest.len() > 0
        invariant
            rest@.len() + reversed@.len() == all.len(),
            forall|i: int| 0 <= i < rest@.len() ==> (#[trigger] rest@[i]).deep_view() == all[i],
            forall|i: int|
                0 <= i < reversed@.len() ==> (#[trigger] reversed@[i]).deep_view() == all[all.len()
                    - 1 - i],
        decreases rest.len(),
    {
        let e = rest.pop().unwrap();
        reversed.push(e);
    }
    let ghost mut done: int = 0;
    assert(all.take(0) =~= Seq::empty());
    assert(parts.archetypes.deep_view() =~= Seq::empty());
    assert(parts.unrecognized.deep_view() =~= Seq::empty());
    while reversed.len() > 0
        invariant
            0 <= done,
            done + reversed@.len() == all.len(),
            forall|i: int|
                0 <= i < reversed@.len() ==> (#[trigger] reversed@[i]).deep_view() == all[all.len()
                    - 1 - i],
            parts.resources.wf(),
            match last_of_kind(all.take(done), ZipEntryModel::Meta) {
                Some(data) => parts.meta matches Some(m) && m@ == data,
                None => parts.meta is None,
            },
            match last_of_kind(all.take(done), ZipEntryModel::Entities) {
                Some(data) => parts.entities matches Some(m) && m@ == data,
                None => parts.entities is None,
            },
            forall|key: Seq<char>| #[trigger] resource_agrees(parts.resources, all.take(done), key),
            parts.archetypes.deep_view() == archetype_blobs(all.take(done)),
            parts.unrecognized.deep_view() == unrecognized_names(all.take(done)),
        decreases reversed.len(),
    {
        let (name, data) = reversed.pop().unwrap();
        proof {
            lemma_bytes_deep_view(data);
            assert((name, data).deep_view() == all[done]);
            assert(all.take(done + 1).drop_last() =~= all.take(done));
            assert(all.take(done + 1).last() == all[done]);
        }
        let ghost before = parts.resources;
        match classify_entry(name.as_str()) {
            ZipEntry::Meta => {
                parts.meta = Some(data);
            },
            ZipEntry::Entities => {
                parts.entities = Some(data);
            },
            ZipEntry::Resource(key) => {
                parts.resources.insert(key, data);
            },
            ZipEntry::Archetype(_) => {
                let ghost prev = parts.archetypes.deep_view();
                parts.archetypes.push(data);
                assert(parts.archetypes.deep_view() =~= prev.push(data.deep_view()));
            },
            ZipEntry::Unrecognized => {
                let ghost prev = parts.unrecognized.deep_view();
                parts.unrecognized.push(name);
                assert(parts.unrecognized.deep_view() =~= prev.push(name@));
            },
        }
        proof {
            assert forall|key: Seq<char>| #[trigger]
                resource_agrees(parts.resources, all.take(done + 1), key) by {
                assert(resource_agrees(before, all.take(done), key));
            }
            done = done + 1;
        }
    }
    assert(all.take(all.len() as int) =~= all);
    parts
}

/// The entries of the container of a snapshot, in the order in which they
/// are written: the notes, the entity indices, the resources under their
/// paths, and the archetypes under the paths of their indices.
pub open spec fn layout(
    meta: Seq<u8>,
    entities: Seq<u8>,
    resources: NameMap<Vec<u8>>,
    archetypes: Seq<Seq<u8>>,
) -> Seq<(Seq<char>, Seq<u8>)> {
    seq![("meta.toml"@, meta), ("entities.msgpack"@, entities)] + Seq::new(
        resources.names().len(),
        |k: int| (resource_path_spec(resources.names()[k]), resources.values()[k]@),
    ) + Seq::new(archetypes.len(), |k: int| (archetype_path_spec(k as usize), archetypes[k]))
}

/// The entries of the container of a snapshot, in the order in which they
/// are written: the notes, the entity indices, the resources, and the
/// archetypes by index.
pub fn layout_entries(
    meta: Vec<u8>,
    entities: Vec<u8>,
    resources: &NameMap<Vec<u8>>,
    archetypes: Vec<Vec<u8>>,
) -> (r: Vec<(String, Vec<u8>)>)
    requires
        resources.wf(),
    ensures
        r.deep_view() == layout(meta@, entities@, *resources, archetypes.deep_view()),
        r@.len() == 2 + resources.names().len() + archetypes@.len(),
        r@[0].deep_view() == ("meta.toml"@, meta@),
        r@[1].deep_view() == ("entities.msgpack"@, entities@),
        forall|k: int|
            0 <= k < resources.names().len() ==> (#[trigger] r@[2 + k]).deep_view() == (
                resource_path_spec(resources.names()[k]),
                resources.values()[k]@,
            ),
        forall|k: int|
            0 <= k < archetypes@.len() ==> (#[trigger] r@[2 + resources.names().len()
                + k]).deep_view() == (archetype_path_spec(k as usize), archetypes@[k]@),
{
    let mut out: Vec<(String, Vec<u8>)> = Vec::new();
    out.push((String::from_str("meta.toml"), meta));
    out.push((String::from_str("entities.msgpack"), entities));
    let n = resources.len();
    let mut k: usize = 0;
    while k < n
        invariant
            resources.wf(),
            n == resources.names().len(),
            k <= n,
            out@.len() == 2 + k,
            out@[0].deep_view() == ("meta.toml"@, meta@),
            out@[1].deep_view() == ("entities.msgpack"@, entities@),
            forall|j: int|
                0 <= j < k ==> (#[trigger] out@[2 + j]).deep_view() == (
                    resource_path_spec(resources.names()[j]),
                    resources.values()[j]@,
                ),
        decreases n - k,
    {
        let path = resource_path(resources.name_at(k).as_str());
        let data = copy_bytes(resources.value_at(k));
        out.push((path, data));
        k += 1;
    }
    let ghost deep = archetypes.deep_view();
    let mut archetypes = archetypes;
    let ghost blobs = archetypes@;
    let total = archetypes.len();
    let mut reversed: Vec<Vec<u8>> = Vec::new();
    while archetypes.len() > 0
        invariant
            archetypes@.len() + reversed@.len() == blobs.len(),
            forall|i: int| 0 <= i < archetypes@.len() ==> archetypes@[i] == blobs[i],
            forall|i: int|
                0 <= i < reversed@.len() ==> reversed@[i] == blobs[blobs.len() - 1 - i],
        decreases archetypes.len(),
    {
        let a = archetypes.pop().unwrap();
        reversed.push(a);
    }
    let mut idx: usize = 0;
    while reversed.len() > 0
        invariant
            idx + reversed@.len() == blobs.len(),
            total == blobs.len(),
            n == resources.names().len(),
            forall|i: int|
                0 <= i < reversed@.len() ==> reversed@[i] == blobs[blobs.len() - 1 - i],
            out@.len() == 2 + n + idx,
            out@[0].deep_view() == ("meta.toml"@, meta@),
            out@[1].deep_view() == ("entities.msgpack"@, entities@),
            forall|j: int|
                0 <= j < n ==> (#[trigger] out@[2 + j]).deep_view() == (
                    resource_path_spec(resources.names()[j]),
                    resources.values()[j]@,
                ),
            forall|j: int|
                0 <= j < idx ==> (#[trigger] out@[2 + n + j]).deep_view() == (
                    archetype_path_spec(j as usize),
                    blobs[j]@,
                ),
        decreases reversed.len(),
    {
        let data = reversed.pop().unwrap();
        out.push((archetype_path(idx), data));
        idx += 1;
    }
    proof {
        let want = layout(meta@, entities@, *resources, deep);
        assert(out.deep_view().len() == want.len());
        assert forall|j: int| 0 <= j < want.len() implies out.deep_view()[j] == want[j] by {
            assert(out.deep_view()[j] == out@[j].deep_view());
            if 2 <= j < 2 + n {
                assert(out@[2 + (j - 2)].deep_view() == want[j]);
            } else if j >= 2 + n {
                lemma_bytes_deep_view(blobs[j - 2 - n]);
                assert(deep[j - 2 - n] == blobs[j - 2 - n].deep_view());
                assert(out@[2 + n + (j - 2 - n)].deep_view() == want[j]);
            }
        }
        assert(out.deep_view() =~= want);
    }
    out
}

/// Bytes are their own deep view.
pub proof fn lemma_bytes_deep_view(bytes: Vec<u8>)
    ensures
        bytes.deep_view() == bytes@,
{
    assert(bytes.deep_view() =~= bytes@);
}

/// A copy of some bytes.
pub fn copy_bytes(bytes: &Vec<u8>) -> (out: Vec<u8>)
    ensures
        out@ == bytes@,
{
    let mut out: Vec<u8> = Vec::new();
    let mut i: usize = 0;
    while i < bytes.len()
        invariant
            i <= bytes.len(),
            out@ == bytes@.take(i as int),
        decreases bytes.len() - i,
    {
        out.push(bytes[i]);
        i += 1;
        assert(out@ =~= bytes@.take(i as int));
    }
    assert(bytes@.take(bytes@.len() as int) =~= bytes@);
    out
}

/// The decimal numeral of a number is made of digits, and has one at least.
pub proof fn lemma_decimal_digits(n: nat)
    ensures
        decimal(n).len() > 0,
        forall|i: int| 0 <= i < decimal(n).len() ==> is_digit(#[trigger] decimal(n)[i]),
        digits_value(decimal(n)) == n,
    decreases n,
{
    if n < 10 {
        assert(decimal(n) =~= seq![digit_char(n)]);
        assert(decimal(n).drop_last() =~= Seq::<char>::empty());
        assert(digits_value(decimal(n).drop_last()) == 0);
        assert(decimal(n).last() == digit_char(n));
    } else {
        lemma_decimal_digits(n / 10);
        let head = decimal(n / 10);
        assert(decimal(n) == head.push(digit_char(n % 10)));
        assert(decimal(n).drop_last() =~= head);
        assert(decimal(n).last() == digit_char(n % 10));
        assert forall|i: int| 0 <= i < decimal(n).len() implies is_digit(
            #[trigger] decimal(n)[i],
        ) by {
            if i < head.len() {
                assert(decimal(n)[i] == head[i]);
            }
        }
    }
}

/// The entry of a resource is read back as that resource.
pub proof fn lemma_resource_path_round_trip(key: Seq<char>)
    ensures
        resource_key_of(resource_path_spec(key)) == Some(key),
{
    let path = resource_path_spec(key);
    let head = "resources/"@;
    let tail = ".msgpack"@;
    assert(path.subrange(0, head.len() as int) =~= head);
    let rest = path.skip(head.len() as int);
    assert(rest =~= key + tail);
    assert(rest.subrange(rest.len() - tail.len(), rest.len() as int) =~= tail);
    assert(rest.take(rest.len() - tail.len()) =~= key);
}

/// The entry of an archetype is read back as that archetype.
pub proof fn lemma_archetype_path_round_trip(idx: usize)
    ensures
        archetype_idx_of(archetype_path_spec(idx)) == Some(idx as nat),
{
    reveal_strlit("archetypes/arch_");
    reveal_strlit("archetypes/");
    reveal_strlit("arch_");
    let path = archetype_path_spec(idx);
    let d = decimal(idx as nat);
    let tail = ".parquet"@;
    lemma_decimal_digits(idx as nat);
    assert("archetypes/arch_"@ =~= "archetypes/"@ + "arch_"@);
    assert(path.subrange(0, "archetypes/"@.len() as int) =~= "archetypes/"@);
    let a = path.skip("archetypes/"@.len() as int);
    assert(a =~= "arch_"@ + d + tail);
    assert(a.subrange(0, "arch_"@.len() as int) =~= "arch_"@);
    let b = a.skip("arch_"@.len() as int);
    assert(b =~= d + tail);
    assert(b.subrange(b.len() - tail.len(), b.len() as int) =~= tail);
    assert(b.take(b.len() - tail.len()) =~= d);
    assert(is_digit(d[0]));
    assert(unsigned_digits(d) == d);
}

/// The number of entries of a ZIP archive, where the `zip` crate can open it.
pub uninterp spec fn zip_len_of(data: Seq<u8>) -> Option<nat>;

/// The name and the data of an entry of a ZIP archive, where the `zip` crate
/// can read it.
pub uninterp spec fn zip_entry_of(data: Seq<u8>, index: nat) -> Option<(Seq<char>, Seq<u8>)>;

/// The number of entries of a ZIP archive in memory: `len` of the archive
/// that `ZipArchive::new` of the `zip` crate opens.
#[verifier::external_body]
fn zip_entry_count(data: &[u8]) -> (r: Result<usize, String>)
    ensures
        match r {
            Ok(n) => zip_len_of(data@) == Some(n as nat),
            Err(_) => zip_len_of(data@) is None,
        },
{
    let archive = zip::ZipArchive::new(std::io::Cursor::new(data)).map_err(|e| e.to_string())?;
    Ok(archive.len())
}

/// One entry of a ZIP archive in memory: `by_index` of the `zip` crate, the
/// name of the entry, and its data read to the end.
#[verifier::external_body]
fn zip_entry_at(data: &[u8], index: usize) -> (r: Result<(String, Vec<u8>), String>)
    ensures
        match r {
            Ok(entry) => zip_entry_of(data@, index as nat) == Some((entry.0@, entry.1@)),
            Err(_) => zip_entry_of(data@, index as nat) is None,
        },
{
    let mut archive = zip::ZipArchive::new(std::io::Cursor::new(data)).map_err(|e| e.to_string())?;
    let mut file = archive.by_index(index).map_err(|e| e.to_string())?;
    let mut buf = Vec::new();
    std::io::Read::read_to_end(&mut file, &mut buf).map_err(|e| e.to_string())?;
    let name = file.name().map_err(|e| e.to_string())?.into_owned();
    Ok((name, buf))
}

/// The bytes of a new ZIP archive with one deflated entry, where the `zip`
/// crate writes it. The entry is given the first date that the format knows
/// and Unix as the system that made it, not the time and the system of the
/// writing: the bytes depend on the name, the data and the level alone.
pub uninterp spec fn zip_started(name: Seq<char>, data: Seq<u8>, level: Option<i64>) -> Option<
    Seq<u8>,
>;

/// The bytes of a ZIP archive with one more deflated entry at its end, where
/// the `zip` crate can open the archive and write the entry.
pub uninterp spec fn zip_extended(
    archive: Seq<u8>,
    name: Seq<char>,
    data: Seq<u8>,
    level: Option<i64>,
) -> Option<Seq<u8>>;

/// A new ZIP archive with one deflated entry: `ZipWriter::new`, `start_file`
/// and `finish` of the `zip` crate, with a fixed date and system for the
/// entry. The contract gives the bytes a name and says no more of them; a
/// failure of the crate is the failure here.
#[verifier::external_body]
fn zip_begin(name: &str, data: &[u8], level: Option<i64>) -> (r: Result<Vec<u8>, String>)
    ensures
        match r {
            Ok(bytes) => zip_started(name@, data@, level) == Some(bytes@),
            Err(_) => zip_started(name@, data@, level) is None,
        },
{
    let mut writer = zip::ZipWriter::new(std::io::Cursor::new(Vec::new()));
    let options = zip::write::SimpleFileOptions::default()
        .compression_method(zip::CompressionMethod::Deflated)
        .compression_level(level)
        .last_modified_time(zip::DateTime::default())
        .system(zip::System::Unix);
    writer.start_file(name, options).map_err(|e| e.to_string())?;
    std::io::Write::write_all(&mut writer, data).map_err(|e| e.to_string())?;
    writer.finish().map(|cursor| cursor.into_inner()).map_err(|e| e.to_string())
}

/// A ZIP archive with one more deflated entry: `ZipWriter::new_append`,
/// `start_file` and `finish` of the `zip` crate, with a fixed date and system
/// for the entry. The contract gives the bytes a name and says no more of
/// them; a failure of the crate, on opening the archive or on a name that it
/// holds already, is the failure here.
#[verifier::external_body]
fn zip_append(archive: Vec<u8>, name: &str, data: &[u8], level: Option<i64>) -> (r: Result<
    Vec<u8>,
    String,
>)
    ensures
        match r {
            Ok(bytes) => zip_extended(archive@, name@, data@, level) == Some(bytes@),
            Err(_) => zip_extended(archive@, name@, data@, level) is None,
        },
{
    let mut writer = zip::ZipWriter::new_append(std::io::Cursor::new(archive)).map_err(
        |e| e.to_string(),
    )?;
    let options = zip::write::SimpleFileOptions::default()
        .compression_method(zip::CompressionMethod::Deflated)
        .compression_level(level)
        .last_modified_time(zip::DateTime::default())
        .system(zip::System::Unix);
    writer.start_file(name, options).map_err(|e| e.to_string())?;
    std::io::Write::write_all(&mut writer, data).map_err(|e| e.to_string())?;
    writer.finish().map(|cursor| cursor.into_inner()).map_err(|e| e.to_string())
}

/// The first `n` entries of a ZIP archive, where all of them can be read.
pub open spec fn zip_entries(data: Seq<u8>, n: nat) -> Option<Seq<(Seq<char>, Seq<u8>)>>
    decreases n,
{
    if n == 0 {
        Some(Seq::empty())
    } else {
        match (zip_entries(data, (n - 1) as nat), zip_entry_of(data, (n - 1) as nat)) {
            (Some(rest), Some(entry)) => Some(rest.push(entry)),
            _ => None,
        }
    }
}

/// The entries of a ZIP archive, where it can be opened and all of them can
/// be read.
pub open spec fn zip_entries_of(data: Seq<u8>) -> Option<Seq<(Seq<char>, Seq<u8>)>> {
    match zip_len_of(data) {
        Some(n) => zip_entries(data, n),
        None => None,
    }
}

/// Reads every entry of a ZIP archive in memory, in the order of the
/// archive.
pub fn read_zip(data: &[u8]) -> (r: Result<Vec<(String, Vec<u8>)>, String>)
    ensures
        match zip_entries_of(data@) {
            Some(entries) => r matches Ok(x) && x.deep_view() == entries,
            None => r is Err,
        },
{
    let n = match zip_entry_count(data) {
        Ok(n) => n,
        Err(reason) => {
            return Err(reason);
        },
    };
    let mut out: Vec<(String, Vec<u8>)> = Vec::new();
    let mut i: usize = 0;
    assert(out.deep_view() =~= Seq::empty());
    while i < n
        invariant
            zip_len_of(data@) == Some(n as nat),
            i <= n,
            zip_entries(data@, i as nat) == Some(out.deep_view()),
        decreases n - i,
    {
        let entry = match zip_entry_at(data, i) {
            Ok(entry) => entry,
            Err(reason) => {
                proof {
                    assert(zip_entries(data@, (i + 1) as nat) is None);
                    lemma_zip_entries_none(data@, (i + 1) as nat, n as nat);
                }
                return Err(reason);
            },
        };
        let ghost before = out.deep_view();
        proof {
            lemma_bytes_deep_view(entry.1);
        }
        out.push(entry);
        assert(out.deep_view() =~= before.push((entry.0@, entry.1@)));
        i += 1;
    }
    Ok(out)
}

/// Where an entry cannot be read, the entries cannot.
pub proof fn lemma_zip_entries_none(data: Seq<u8>, k: nat, n: nat)
    requires
        k <= n,
        zip_entries(data, k) is None,
    ensures
        zip_entries(data, n) is None,
    decreases n - k,
{
    if k < n {
        lemma_zip_entries_none(data, k, (n - 1) as nat);
    }
}

/// The bytes of a ZIP archive without entries: the end record of the format
/// alone, with every count at zero and without a comment.
pub open spec fn empty_zip() -> Seq<u8> {
    seq![0x50u8, 0x4b, 0x05, 0x06] + Seq::new(18, |i: int| 0u8)
}

/// A ZIP archive without entries: `ZipWriter::new` and `finish` of the `zip`
/// crate. Where the crate gives an archive, it is the end record alone.
#[verifier::external_body]
fn zip_blank() -> (r: Result<Vec<u8>, String>)
    ensures
        r matches Ok(bytes) ==> bytes@ == empty_zip(),
{
    let writer = zip::ZipWriter::new(std::io::Cursor::new(Vec::new()));
    writer.finish().map(|cursor| cursor.into_inner()).map_err(|e| e.to_string())
}

/// The bytes of the ZIP archive that holds `entries` in their order, each
/// deflated at `level`: the archive of the first entry, extended by each of
/// the others in turn. There is none where the `zip` crate refuses an entry.
/// It is for one entry or more: of no entries see `empty_zip`.
pub open spec fn zip_written(entries: Seq<(Seq<char>, Seq<u8>)>, level: Option<i64>) -> Option<
    Seq<u8>,
>
    decreases entries.len(),
{
    if entries.len() == 0 {
        None
    } else if entries.len() == 1 {
        zip_started(entries[0].0, entries[0].1, level)
    } else {
        match zip_written(entries.drop_last(), level) {
            Some(archive) => zip_extended(archive, entries.last().0, entries.last().1, level),
            None => None,
        }
    }
}

/// Where the first entries cannot be written, the entries cannot.
pub proof fn lemma_zip_written_none(entries: Seq<(Seq<char>, Seq<u8>)>, level: Option<i64>, k: int)
    requires
        0 < k <= entries.len(),
        zip_written(entries.take(k), level) is None,
    ensures
        zip_written(entries, level) is None,
    decreases entries.len() - k,
{
    if k < entries.len() {
        assert(entries.take(k + 1).drop_last() =~= entries.take(k));
        lemma_zip_written_none(entries, level, k + 1);
    } else {
        assert(entries.take(k) =~= entries);
    }
}

/// Writes entries into a new ZIP archive, in their order, each deflated at
/// the given level. It fails where the `zip` crate refuses an entry, as it
/// does the second of two entries of one name. Without entries the archive
/// is the empty one.
pub fn write_zip(entries: &Vec<(String, Vec<u8>)>, level: Option<i64>) -> (r: Result<
    Vec<u8>,
    String,
>)
    ensures
        entries@.len() > 0 ==> match zip_written(entries.deep_view(), level) {
            Some(bytes) => r matches Ok(x) && x@ == bytes,
            None => r is Err,
        },
        entries@.len() == 0 ==> (r matches Ok(x) ==> x@ == empty_zip()),
{
    if entries.len() == 0 {
        return zip_blank();
    }
    let ghost all = entries.deep_view();
    proof {
        lemma_bytes_deep_view(entries@[0].1);
        assert(all[0] == (entries@[0].0@, entries@[0].1@));
        assert(all.take(1).len() == 1);
        assert(all.take(1)[0] == all[0]);
    }
    let mut archive = match zip_begin(entries[0].0.as_str(), entries[0].1.as_slice(), level) {
        Ok(archive) => archive,
        Err(reason) => {
            proof {
                lemma_zip_written_none(all, level, 1);
            }
            return Err(reason);
        },
    };
    let mut i: usize = 1;
    while i < entries.len()
        invariant
            1 <= i <= entries.len(),
            all == entries.deep_view(),
            zip_written(all.take(i as int), level) == Some(archive@),
        decreases entries.len() - i,
    {
        proof {
            lemma_bytes_deep_view(entries@[i as int].1);
            assert(all[i as int] == (entries@[i as int].0@, entries@[i as int].1@));
            assert(all.take(i + 1).drop_last() =~= all.take(i as int));
            assert(all.take(i + 1).last() == all[i as int]);
        }
        archive = match zip_append(archive, entries[i].0.as_str(), entries[i].1.as_slice(), level) {
            Ok(archive) => archive,
            Err(reason) => {
                proof {
                    lemma_zip_written_none(all, level, i + 1);
                }
                return Err(reason);
            },
        };
        i += 1;
    }
    assert(all.take(i as int) =~= all);
    Ok(archive)
}

/// The tree of a segment: the name of its kind with its value, or with its
/// two ends.
pub open spec fn segment_tree(s: SparseSegment) -> DynModel {
    match s {
        SparseSegment::Single(v) => DynModel::Object(seq![("Single"@, id_value(v))]),
        SparseSegment::Range(a, b) => DynModel::Object(
            seq![("Range"@, DynModel::Array(seq![id_value(a), id_value(b)]))],
        ),
    }
}

/// The segment that a tree holds, where it holds one.
pub open spec fn segment_of(m: DynModel) -> Option<SparseSegment> {
    match field_of(m, "Single"@) {
        Some(v) => match id_of(v) {
            Some(x) => Some(SparseSegment::Single(x)),
            None => None,
        },
        None => match field_of(m, "Range"@) {
            Some(DynModel::Array(ends)) => if ends.len() == 2 {
                match (id_of(ends[0]), id_of(ends[1])) {
                    (Some(a), Some(b)) => Some(SparseSegment::Range(a, b)),
                    _ => None,
                }
            } else {
                None
            },
            _ => None,
        },
    }
}

/// The tree of a compressed list: the list of its segments, as the only
/// field of the list.
pub open spec fn sparse_tree(segments: Seq<SparseSegment>) -> DynModel {
    DynModel::Array(
        seq![DynModel::Array(Seq::new(segments.len(), |i: int| segment_tree(segments[i])))],
    )
}

/// The list of segments of a tree: the only item of a list, or the field
/// `segments` of an object.
pub open spec fn sparse_part(m: DynModel) -> Option<DynModel> {
    match m {
        DynModel::Array(items) => if items.len() == 1 {
            Some(items[0])
        } else {
            None
        },
        DynModel::Object(_) => field_of(m, "segments"@),
        _ => None,
    }
}

/// The compressed list that a tree holds, where it holds one.
pub open spec fn sparse_of(m: DynModel) -> Option<Seq<SparseSegment>> {
    match sparse_part(m) {
        Some(DynModel::Array(items)) => if forall|i: int|
            0 <= i < items.len() ==> segment_of(#[trigger] items[i]) is Some {
            Some(Seq::new(items.len(), |i: int| segment_of(items[i]).unwrap()))
        } else {
            None
        },
        _ => None,
    }
}

/// The tree of an entity index.
fn id_to_value(e: u32) -> (r: DynValue)
    ensures
        r@ == id_value(e),
        id_of(r@) == Some(e),
{
    DynValue::Number(crate::json::number_from_u64(e as u64))
}

/// The entity index that a tree holds.
fn id_from_value(v: &DynValue) -> (r: Option<u32>)
    ensures
        r == id_of(v@),
{
    match v {
        DynValue::Number(n) => match crate::json::number_as_u64(n) {
            Some(u) => if u <= 0xffff_ffff {
                Some(u as u32)
            } else {
                None
            },
            None => None,
        },
        _ => None,
    }
}

/// The segment that a tree holds.
fn segment_from_value(v: &DynValue) -> (r: Option<SparseSegment>)
    ensures
        r == segment_of(v@),
{
    match v {
        DynValue::Object(_) => {},
        _ => {
            return None;
        },
    }
    match v.get_field("Single") {
        Some(x) => match id_from_value(x) {
            Some(e) => Some(SparseSegment::Single(e)),
            None => None,
        },
        None => match v.get_field("Range") {
            Some(tree) => match tree {
                DynValue::Array(ends) => {
                    proof {
                        lemma_array_view(*tree);
                    }
                    if ends.len() != 2 {
                        return None;
                    }
                    match (id_from_value(&ends[0]), id_from_value(&ends[1])) {
                        (Some(a), Some(b)) => Some(SparseSegment::Range(a, b)),
                        _ => None,
                    }
                },
                _ => None,
            },
            None => None,
        },
    }
}

impl SparseU32List {
    /// The list as a tree.
    pub fn to_value(&self) -> (r: DynValue)
        ensures
            r@ == sparse_tree(self@),
    {
        let mut items: Vec<DynValue> = Vec::new();
        let mut i: usize = 0;
        while i < self.segments.len()
            invariant
                i <= self.segments.len(),
                items@.len() == i,
                forall|k: int| 0 <= k < i ==> (#[trigger] items@[k])@ == segment_tree(self@[k]),
            decreases self.segments.len() - i,
        {
            let tree = match self.segments[i] {
                SparseSegment::Single(v) => {
                    let mut fields: Vec<(String, DynValue)> = Vec::new();
                    fields.push((String::from_str("Single"), id_to_value(v)));
                    let t = DynValue::Object(fields);
                    proof {
                        lemma_object_view(t);
                        assert(t@->Object_0 =~= segment_tree(self@[i as int])->Object_0);
                    }
                    t
                },
                SparseSegment::Range(a, b) => {
                    let mut ends: Vec<DynValue> = Vec::new();
                    ends.push(id_to_value(a));
                    ends.push(id_to_value(b));
                    let pair = DynValue::Array(ends);
                    proof {
                        lemma_array_view(pair);
                        assert(pair@->Array_0 =~= seq![id_value(a), id_value(b)]);
                    }
                    let mut fields: Vec<(String, DynValue)> = Vec::new();
                    fields.push((String::from_str("Range"), pair));
                    let t = DynValue::Object(fields);
                    proof {
                        lemma_object_view(t);
                        assert(t@->Object_0 =~= segment_tree(self@[i as int])->Object_0);
                    }
                    t
                },
            };
            items.push(tree);
            i += 1;
        }
        let list = DynValue::Array(items);
        proof {
            lemma_array_view(list);
            assert(list@->Array_0 =~= Seq::new(self@.len(), |i: int| segment_tree(self@[i])));
        }
        let mut outer: Vec<DynValue> = Vec::new();
        outer.push(list);
        let r = DynValue::Array(outer);
        proof {
            lemma_array_view(r);
            assert(r@->Array_0 =~= sparse_tree(self@)->Array_0);
        }
        r
    }
}

impl SparseU32List {
    /// Reads a list from a tree: the list of segments as the only item of a
    /// list, or under `segments` in an object.
    pub fn from_value(v: &DynValue) -> (r: Result<SparseU32List, String>)
        ensures
            match sparse_of(v@) {
                Some(segments) => r matches Ok(s) && s@ == segments,
                None => r matches Err(msg) && msg@ == "not a list of entity indices"@,
            },
    {
        let part = match v {
            DynValue::Array(items) => {
                proof {
                    lemma_array_view(*v);
                }
                if items.len() == 1 {
                    Some(&items[0])
                } else {
                    None
                }
            },
            DynValue::Object(_) => v.get_field("segments"),
            _ => None,
        };
        let list = match part {
            Some(list) => list,
            None => {
                return Err(String::from_str("not a list of entity indices"));
            },
        };
        match list {
            DynValue::Array(items) => {
                proof {
                    lemma_array_view(*list);
                }
                let mut segments: Vec<SparseSegment> = Vec::new();
                let mut i: usize = 0;
                while i < items.len()
                    invariant
                        sparse_part(v@) == Some(list@),
                        list@ is Array,
                        list@->Array_0.len() == items@.len(),
                        forall|k: int|
                            0 <= k < items@.len() ==> (#[trigger] list@->Array_0[k]) == items@[k]@,
                        i <= items.len(),
                        segments@.len() == i,
                        forall|k: int| 0 <= k < i ==> segment_of(#[trigger] list@->Array_0[k]) is Some,
                        forall|k: int|
                            0 <= k < i ==> (#[trigger] segments@[k]) == segment_of(
                                list@->Array_0[k],
                            ).unwrap(),
                    decreases items.len() - i,
                {
                    match segment_from_value(&items[i]) {
                        Some(s) => {
                            segments.push(s);
                        },
                        None => {
                            assert(segment_of(list@->Array_0[i as int]) is None);
                            return Err(String::from_str("not a list of entity indices"));
                        },
                    }
                    i += 1;
                }
                assert(segments@ =~= sparse_of(v@).unwrap());
                Ok(SparseU32List { segments })
            },
            _ => Err(String::from_str("not a list of entity indices")),
        }
    }
}

/// The parts of a snapshot in a ZIP container, read as far as this library
/// reads them: the archetypes are still Parquet, the resources still
/// MessagePack.
#[derive(Debug)]
pub struct ZipSnapshot {
    /// The notes on the snapshot.
    pub meta: NameMap<String>,
    /// The entity indices of the world.
    pub entities: Vec<u32>,
    pub resources: NameMap<Vec<u8>>,
    pub archetypes: Vec<Vec<u8>>,
}

/// The compressed list of entity indices that MessagePack bytes hold.
pub open spec fn sparse_of_msgpack(bytes: Seq<u8>) -> Option<Seq<SparseSegment>> {
    match decoded(Encoding::MsgPack, bytes) {
        Some(tree) => sparse_of(tree),
        None => None,
    }
}

/// The tree of the notes on a snapshot: a field for each, by name.
pub open spec fn notes_tree(meta: NameMap<String>) -> DynModel {
    DynModel::Object(
        Seq::new(meta.names().len(), |i: int| (meta.names()[i], DynModel::String(meta.values()[i]@))),
    )
}

/// Whether `segments` is the compressed form of the list `ids` put in
/// order: its values are those of `ids`, each as often, in ascending order,
/// and every segment is a longest run.
pub open spec fn compresses(segments: Seq<SparseSegment>, ids: Seq<u32>) -> bool {
    &&& is_sorted(expand_all(segments))
    &&& expand_all(segments).to_multiset() == ids.to_multiset()
    &&& is_longest_runs(segments)
}

/// The bytes of the ZIP container of a snapshot whose entity indices are
/// compressed to `segments`: the notes as plain TOML in UTF-8, the segments
/// as MessagePack, then the resources and the archetypes as they are.
/// There is none where the notes or the segments cannot be written, or the
/// container cannot.
pub open spec fn packed_zip(
    meta: NameMap<String>,
    segments: Seq<SparseSegment>,
    resources: NameMap<Vec<u8>>,
    archetypes: Seq<Seq<u8>>,
    level: Option<i64>,
) -> Option<Seq<u8>> {
    match (
        written(TextForm::TomlPlain, notes_tree(meta)),
        encoded(Encoding::MsgPack, sparse_tree(segments)),
    ) {
        (Some(text), Some(bytes)) => zip_written(
            layout(encode_utf8(text), bytes, resources, archetypes),
            level,
        ),
        _ => None,
    }
}

/// Packs a snapshot into a ZIP container: the notes as TOML, the entity
/// indices, put in order and compressed, as MessagePack, then the resources
/// and the archetypes as they are given. It gives the container of that
/// compressed list, and fails exactly where there is none.
pub fn pack_snapshot_zip(
    meta: &NameMap<String>,
    entities: Vec<u32>,
    resources: &NameMap<Vec<u8>>,
    archetypes: Vec<Vec<u8>>,
    level: Option<i64>,
) -> (r: Result<Vec<u8>, String>)
    requires
        meta.wf(),
        resources.wf(),
    ensures
        exists|segments: Seq<SparseSegment>| #[trigger]
            compresses(segments, entities@) && match packed_zip(
                *meta,
                segments,
                *resources,
                archetypes.deep_view(),
                level,
            ) {
                Some(bytes) => r matches Ok(x) && x@ == bytes,
                None => r is Err,
            },
{
    let ghost blobs = archetypes.deep_view();
    let list = SparseU32List::from_unsorted(entities);
    assert(compresses(list@, entities@));
    let n = meta.len();
    let mut fields: Vec<(String, DynValue)> = Vec::new();
    let mut i: usize = 0;
    while i < n
        invariant
            meta.wf(),
            n == meta.names().len(),
            i <= n,
            fields@.len() == i,
            forall|k: int|
                0 <= k < i ==> (#[trigger] fields@[k]).0@ == meta.names()[k] && fields@[k].1@
                    == DynModel::String(meta.values()[k]@),
        decreases n - i,
    {
        fields.push((meta.name_at(i).clone(), DynValue::String(meta.value_at(i).clone())));
        i += 1;
    }
    let notes = DynValue::Object(fields);
    proof {
        lemma_object_view(notes);
        assert(notes@->Object_0 =~= notes_tree(*meta)->Object_0);
    }
    let meta_text = match write_text(TextForm::TomlPlain, &notes) {
        Ok(text) => text,
        Err(reason) => {
            let mut msg = String::from_str("toml encode error: ");
            msg.append(reason.as_str());
            assert(packed_zip(*meta, list@, *resources, blobs, level) is None);
            return Err(msg);
        },
    };
    let entity_bytes = match encode(Encoding::MsgPack, &list.to_value()) {
        Ok(bytes) => bytes,
        Err(reason) => {
            assert(packed_zip(*meta, list@, *resources, blobs, level) is None);
            return Err(reason);
        },
    };
    let entries = layout_entries(
        meta_text.as_str().as_bytes_vec(),
        entity_bytes,
        resources,
        archetypes,
    );
    let r = write_zip(&entries, level);
    assert(packed_zip(*meta, list@, *resources, blobs, level) == zip_written(
        entries.deep_view(),
        level,
    ));
    r
}

/// Whether every field of `fields` holds text.
pub open spec fn all_text(fields: Seq<(Seq<char>, DynModel)>) -> bool {
    forall|i: int| 0 <= i < fields.len() ==> (#[trigger] fields[i]).1 is String
}

/// The notes that the bytes of a notes entry hold: the fields of the table
/// that their UTF-8 text is in TOML, where every one of them holds text.
pub open spec fn notes_of(bytes: Seq<u8>) -> Option<Seq<(Seq<char>, DynModel)>> {
    if valid_utf8(bytes) {
        match read(TextForm::Toml, decode_utf8(bytes)) {
            Some(DynModel::Object(fields)) => if all_text(fields) {
                Some(fields)
            } else {
                None
            },
            _ => None,
        }
    } else {
        None
    }
}

/// The notes of a container: those of its last notes entry, and none where
/// it has no such entry.
pub open spec fn unpacked_notes(entries: Seq<(Seq<char>, Seq<u8>)>) -> Option<
    Seq<(Seq<char>, DynModel)>,
> {
    match last_of_kind(entries, ZipEntryModel::Meta) {
        Some(bytes) => notes_of(bytes),
        None => Some(Seq::empty()),
    }
}

/// The entity indices of a container: the list that the compressed list of
/// its last entry of entity indices stands for, and none where it has no
/// such entry.
pub open spec fn unpacked_entities(entries: Seq<(Seq<char>, Seq<u8>)>) -> Option<Seq<u32>> {
    match last_of_kind(entries, ZipEntryModel::Entities) {
        Some(bytes) => match sparse_of_msgpack(bytes) {
            Some(segments) => Some(expand_all(segments)),
            None => None,
        },
        None => Some(Seq::empty()),
    }
}

/// Whether the table of notes holds, under `key`, the text of the last field
/// of that name, and nothing where there is none.
pub open spec fn note_agrees(
    meta: NameMap<String>,
    fields: Seq<(Seq<char>, DynModel)>,
    key: Seq<char>,
) -> bool {
    match lookup_last(fields, key) {
        Some(DynModel::String(note)) => meta.lookup(key) matches Some(m) && m@ == note,
        _ => meta.lookup(key) is None,
    }
}

/// Whether `s` is the snapshot of a container with these entries, these
/// notes and these entity indices: the notes by name, the entity indices as
/// they are, each resource from its last entry, and the archetypes in the
/// order of their entries.
pub open spec fn unpacks_to(
    s: ZipSnapshot,
    entries: Seq<(Seq<char>, Seq<u8>)>,
    notes: Seq<(Seq<char>, DynModel)>,
    ids: Seq<u32>,
) -> bool {
    &&& s.meta.wf()
    &&& forall|key: Seq<char>| #[trigger] note_agrees(s.meta, notes, key)
    &&& s.entities@ == ids
    &&& s.resources.wf()
    &&& forall|key: Seq<char>| #[trigger] resource_agrees(s.resources, entries, key)
    &&& s.archetypes.deep_view() == archetype_blobs(entries)
}

/// Unpacks a snapshot from a ZIP container: each entry is told by its name,
/// the notes are read from TOML and the entity indices from MessagePack.
/// Parts that the container lacks are empty; entries that a snapshot knows
/// nothing of are passed over. It fails exactly where the container cannot
/// be read, or its notes or its entity indices cannot.
pub fn unpack_snapshot_zip(data: &[u8]) -> (r: Result<ZipSnapshot, String>)
    ensures
        match zip_entries_of(data@) {
            Some(entries) => match (unpacked_notes(entries), unpacked_entities(entries)) {
                (Some(notes), Some(ids)) => r matches Ok(s) && unpacks_to(s, entries, notes, ids),
                _ => r is Err,
            },
            None => r is Err,
        },
{
    let entries = match read_zip(data) {
        Ok(entries) => entries,
        Err(reason) => {
            let mut msg = String::from_str("zip decode error: ");
            msg.append(reason.as_str());
            return Err(msg);
        },
    };
    let ghost all = entries.deep_view();
    let parts = split_entries(entries);
    let mut meta: NameMap<String> = NameMap::new();
    let ghost mut notes: Seq<(Seq<char>, DynModel)> = Seq::empty();
    match parts.meta {
        Some(bytes) => {
            let text = match crate::aurora_archive::text_of_bytes(bytes) {
                Some(text) => text,
                None => {
                    return Err(String::from_str("toml decode error: the notes are not UTF-8"));
                },
            };
            let tree = match read_text(TextForm::Toml, text.as_str()) {
                Ok(tree) => tree,
                Err(reason) => {
                    let mut msg = String::from_str("toml decode error: ");
                    msg.append(reason.as_str());
                    return Err(msg);
                },
            };
            match &tree {
                DynValue::Object(fields) => {
                    proof {
                        lemma_object_view(tree);
                        notes = tree@->Object_0;
                        assert(notes.take(0) =~= Seq::empty());
                        assert(tree@ == DynModel::Object(notes));
                        assert(!all_text(notes) ==> unpacked_notes(all) is None);
                    }
                    let mut i: usize = 0;
                    while i < fields.len()
                        invariant
                            i <= fields.len(),
                            meta.wf(),
                            zip_entries_of(data@) == Some(all),
                            !all_text(notes) ==> unpacked_notes(all) is None,
                            notes.len() == fields@.len(),
                            forall|k: int|
                                0 <= k < fields@.len() ==> (#[trigger] notes[k]) == (
                                    fields@[k].0@,
                                    fields@[k].1@,
                                ),
                            all_text(notes.take(i as int)),
                            forall|key: Seq<char>| #[trigger]
                                note_agrees(meta, notes.take(i as int), key),
                        decreases fields.len() - i,
                    {
                        let ghost before = meta;
                        proof {
                            assert(notes.take(i + 1).drop_last() =~= notes.take(i as int));
                            assert(notes.take(i + 1).last() == notes[i as int]);
                        }
                        match &fields[i].1 {
                            DynValue::String(note) => {
                                meta.insert(fields[i].0.clone(), note.clone());
                            },
                            _ => {
                                assert(!(notes[i as int].1 is String));
                                assert(!all_text(notes));
                                return Err(
                                    String::from_str("toml decode error: a note is not a string"),
                                );
                            },
                        }
                        proof {
                            assert forall|key: Seq<char>| #[trigger]
                                note_agrees(meta, notes.take(i + 1), key) by {
                                assert(note_agrees(before, notes.take(i as int), key));
                            }
                            assert forall|k: int| 0 <= k < notes.take(i + 1).len() implies (
                            #[trigger] notes.take(i + 1)[k]).1 is String by {
                                if k < i {
                                    assert(notes.take(i as int)[k].1 is String);
                                }
                            }
                        }
                        i += 1;
                    }
                    assert(notes.take(i as int) =~= notes);
                },
                _ => {
                    return Err(String::from_str("toml decode error: the notes are not a table"));
                },
            }
        },
        None => {},
    }
    assert(unpacked_notes(all) == Some(notes));
    let entities = match parts.entities {
        Some(bytes) => {
            let tree = match decode(Encoding::MsgPack, bytes.as_slice()) {
                Ok(tree) => tree,
                Err(reason) => {
                    let mut msg = String::from_str("msgpack decode error: ");
                    msg.append(reason.as_str());
                    return Err(msg);
                },
            };
            match SparseU32List::from_value(&tree) {
                Ok(list) => list.to_vec(),
                Err(reason) => {
                    let mut msg = String::from_str("msgpack decode error: ");
                    msg.append(reason.as_str());
                    return Err(msg);
                },
            }
        },
        None => Vec::new(),
    };
    Ok(ZipSnapshot { meta, entities, resources: parts.resources, archetypes: parts.archetypes })
}

} // verus!
