//! The manifest: a readable index of the archetypes of a world that says,
//! for each of them, where its data lies (in the manifest itself or in a
//! file beside it) and in which format.

use crate::archetype_archive::{
    rows_contain, ArchetypeModel, ArchetypeSnapshot, StorageTypeFlag, WorldArchSnapshot,
};
use crate::csv_archive::{
    columnar_core, csv_bytes, csv_table_of, to_archetype_snapshot, ColumnarCsv, ColumnarModel,
};
use crate::dyn_value::DynValue;
use crate::entity_ids::is_strictly_increasing;
use crate::json::{decode, decoded, encode, encoded, Encoding};
use crate::schema::{
    columnar_of_value, columnar_tuple, snapshot_of_value, snapshot_tuple, snapshot_value,
};
use crate::name_map::NameMap;
use crate::text::{decimal, ends_with, str_eq, strip_prefix, usize_to_decimal};
use base64::Engine;
use std::collections::HashMap;
use vstd::prelude::*;
use vstd::string::*;
use vstd::utf8::{decode_utf8, encode_utf8, valid_utf8};

verus! {

broadcast use vstd::std_specs::hash::group_hash_axioms;

/// Where the data of an archetype lies.
#[derive(Debug, Clone, PartialEq, Eq)]
pub enum AuroraLocation {
    /// In a file, at a path that may be relative.
    File(String),
    /// In the manifest, under a name.
    Embed(String),
    /// Anywhere else: the source as it was written.
    Unknown(String),
}

/// The mathematical value of an [`AuroraLocation`].
pub enum LocationModel {
    File(Seq<char>),
    Embed(Seq<char>),
    Unknown(Seq<char>),
}

impl View for AuroraLocation {
    type V = LocationModel;

    open spec fn view(&self) -> LocationModel {
        match self {
            AuroraLocation::File(path) => LocationModel::File(path@),
            AuroraLocation::Embed(name) => LocationModel::Embed(name@),
            AuroraLocation::Unknown(source) => LocationModel::Unknown(source@),
        }
    }
}

/// The location that a source names: `file://` and a path, `embed://` and a
/// name, and anything else is unknown.
pub open spec fn location_of(source: Seq<char>) -> LocationModel {
    if "file://"@.is_prefix_of(source) {
        LocationModel::File(source.skip("file://"@.len() as int))
    } else if "embed://"@.is_prefix_of(source) {
        LocationModel::Embed(source.skip("embed://"@.len() as int))
    } else {
        LocationModel::Unknown(source)
    }
}

impl AuroraLocation {
    /// Reads a source.
    pub fn parse(source: &str) -> (r: Self)
        ensures
            r@ == location_of(source@),
    {
        match strip_prefix(source, "file://") {
            Some(path) => AuroraLocation::File(path),
            None => match strip_prefix(source, "embed://") {
                Some(name) => AuroraLocation::Embed(name),
                None => AuroraLocation::Unknown(String::from_str(source)),
            },
        }
    }
}

/// The format of a blob.
#[derive(Debug, Clone, Copy, PartialEq, Eq, Structural)]
pub enum AuroraFormat {
    /// A columnar table as CSV text.
    Csv,
    /// An archetype snapshot as JSON text.
    Json,
    /// An archetype snapshot as MessagePack.
    MsgPack,
    /// A columnar table as MessagePack.
    CsvMsgPack,
    /// A component table as Parquet.
    Parquet,
    Unknown,
}

/// The format that the ending of a path stands for.
pub open spec fn format_of_path(path: Seq<char>) -> AuroraFormat {
    if ".csv"@.is_suffix_of(path) {
        AuroraFormat::Csv
    } else if ".json"@.is_suffix_of(path) {
        AuroraFormat::Json
    } else if ".csv.msgpack"@.is_suffix_of(path) {
        AuroraFormat::CsvMsgPack
    } else if ".msgpack"@.is_suffix_of(path) {
        AuroraFormat::MsgPack
    } else if ".parquet"@.is_suffix_of(path) {
        AuroraFormat::Parquet
    } else {
        AuroraFormat::Unknown
    }
}

/// The format that a format name stands for.
pub open spec fn format_of_name(name: Seq<char>) -> AuroraFormat {
    if name == "csv"@ {
        AuroraFormat::Csv
    } else if name == "json"@ {
        AuroraFormat::Json
    } else if name == "msgpack"@ {
        AuroraFormat::MsgPack
    } else if name == "csv.msgpack"@ {
        AuroraFormat::CsvMsgPack
    } else if name == "parquet"@ {
        AuroraFormat::Parquet
    } else {
        AuroraFormat::Unknown
    }
}

impl AuroraFormat {
    /// The format of the file at `path`, by the ending of the path.
    pub fn from_path(path: &str) -> (r: Self)
        ensures
            r == format_of_path(path@),
    {
        if ends_with(path, ".csv") {
            AuroraFormat::Csv
        } else if ends_with(path, ".json") {
            AuroraFormat::Json
        } else if ends_with(path, ".csv.msgpack") {
            AuroraFormat::CsvMsgPack
        } else if ends_with(path, ".msgpack") {
            AuroraFormat::MsgPack
        } else if ends_with(path, ".parquet") {
            AuroraFormat::Parquet
        } else {
            AuroraFormat::Unknown
        }
    }

    /// The format that the format field of an embedded blob names.
    pub fn from_str(s: &str) -> (r: Self)
        ensures
            r == format_of_name(s@),
    {
        if str_eq(s, "csv") {
            AuroraFormat::Csv
        } else if str_eq(s, "json") {
            AuroraFormat::Json
        } else if str_eq(s, "msgpack") {
            AuroraFormat::MsgPack
        } else if str_eq(s, "csv.msgpack") {
            AuroraFormat::CsvMsgPack
        } else if str_eq(s, "parquet") {
            AuroraFormat::Parquet
        } else {
            AuroraFormat::Unknown
        }
    }

    /// Whether a blob of this format is embedded as base64 text: the binary
    /// formats are, the text formats are embedded as they are.
    pub open spec fn is_binary(self) -> bool {
        self == AuroraFormat::MsgPack || self == AuroraFormat::CsvMsgPack || self
            == AuroraFormat::Parquet
    }
}

/// A blob that has been fetched: its bytes and their format.
#[derive(Debug, Clone, PartialEq, Eq)]
pub struct LoadedBlob {
    pub format: AuroraFormat,
    pub bytes: Vec<u8>,
}

/// A blob held in the manifest: the name of its format, and its data as
/// text. The data of a binary format is written in base64.
#[derive(Debug, Clone, PartialEq, Eq)]
pub struct EmbeddedBlob {
    pub format: String,
    pub data: String,
}

/// The bytes that a text stands for in base64, where it is base64 at all.
pub uninterp spec fn base64_decoded(text: Seq<char>) -> Option<Seq<u8>>;

/// The base64 text of some bytes.
pub uninterp spec fn base64_text(bytes: Seq<u8>) -> Seq<char>;

/// Decodes base64 text with the standard alphabet and padding: `decode` of
/// the `base64` crate's standard engine. The result is a function of the
/// text alone; of the error only that there is one is stated.
#[verifier::external_body]
fn base64_decode(text: &str) -> (r: Result<Vec<u8>, String>)
    ensures
        match r {
            Ok(bytes) => base64_decoded(text@) == Some(bytes@),
            Err(_) => base64_decoded(text@) is None,
        },
{
    base64::prelude::BASE64_STANDARD.decode(text).map_err(|e| e.to_string())
}

/// Writes bytes as base64 text with the standard alphabet and padding:
/// `encode` of the `base64` crate's standard engine.
#[verifier::external_body]
fn base64_encode(bytes: &Vec<u8>) -> (r: String)
    ensures
        r@ == base64_text(bytes@),
{
    base64::prelude::BASE64_STANDARD.encode(bytes)
}

/// Reads bytes as UTF-8 text: `String::from_utf8` of the standard library,
/// which succeeds exactly on well-formed UTF-8.
#[verifier::external_body]
pub(crate) fn text_of_bytes(bytes: Vec<u8>) -> (r: Option<String>)
    ensures
        match r {
            Some(text) => valid_utf8(bytes@) && text@ == decode_utf8(bytes@),
            None => !valid_utf8(bytes@),
        },
{
    String::from_utf8(bytes).ok()
}

/// The bytes of an embedded blob: those that its base64 text stands for in
/// a binary format, and the text itself, in UTF-8, in any other. `None`
/// where a binary format's data is no base64.
pub open spec fn embedded_bytes(format: AuroraFormat, data: Seq<char>) -> Option<Seq<u8>> {
    if format.is_binary() {
        base64_decoded(data)
    } else {
        Some(encode_utf8(data))
    }
}

/// Gives the bytes of a blob that lies outside the manifest.
pub trait BlobLoader {
    /// The bytes at `path`, or why they cannot be had.
    fn load_blob(&mut self, path: &str) -> Result<Vec<u8>, String>;
}

/// The loader for files: paths that are not rooted start at `base_dir`.
#[derive(Debug, Clone, PartialEq, Eq)]
pub struct FsBlobLoader {
    pub base_dir: String,
}

/// Where a path leads from a base directory: a rooted path stands for
/// itself, any other starts at the base.
pub open spec fn resolved_path(base: Seq<char>, path: Seq<char>) -> Seq<char> {
    if path.len() > 0 && path[0] == '/' {
        path
    } else if base.len() == 0 {
        path
    } else if base.last() == '/' {
        base + path
    } else {
        base + seq!['/'] + path
    }
}

impl FsBlobLoader {
    /// The path of the file that `path` names: `path` itself if it is rooted,
    /// and else `path` under the base directory.
    pub fn resolve(&self, path: &str) -> (r: String)
        ensures
            r@ == resolved_path(self.base_dir@, path@),
    {
        proof {
            reveal_strlit("/");
        }
        if crate::text::starts_with(path, "/") {
            assert(path@[0] == '/') by {
                assert("/"@.len() == 1);
                assert(path@.subrange(0, 1)[0] == "/"@[0]);
            }
            return String::from_str(path);
        }
        assert(!(path@.len() > 0 && path@[0] == '/')) by {
            if path@.len() > 0 && path@[0] == '/' {
                assert(path@.subrange(0, 1) =~= "/"@);
            }
        }
        let base = self.base_dir.as_str();
        if base.unicode_len() == 0 {
            return String::from_str(path);
        }
        let mut out = String::from_str(base);
        if !ends_with(base, "/") {
            out.append("/");
            assert(base@.last() != '/') by {
                if base@.last() == '/' {
                    assert(base@.subrange(base@.len() - 1, base@.len() as int) =~= "/"@);
                }
            }
            out.append(path);
            assert(out@ =~= base@ + seq!['/'] + path@);
        } else {
            assert(base@.last() == '/') by {
                assert(base@.subrange(base@.len() - 1, base@.len() as int)[0] == "/"@[0]);
            }
            out.append(path);
        }
        out
    }
}

/// What becomes of the answer of a loader: the blob, with the format that
/// the ending of its path stands for, or the reason why it cannot be read.
pub fn blob_from_file(path: &str, read: Result<Vec<u8>, String>) -> (r: Result<LoadedBlob, String>)
    ensures
        match read {
            Ok(bytes) => r matches Ok(blob) && blob.format == format_of_path(path@) && blob.bytes@
                == bytes@,
            Err(reason) => r matches Err(msg) && msg@ == "Failed to read "@ + path@ + ": "@
                + reason@,
        },
{
    match read {
        Ok(bytes) => Ok(LoadedBlob { format: AuroraFormat::from_path(path), bytes }),
        Err(reason) => {
            let mut msg = String::from_str("Failed to read ");
            msg.append(path);
            msg.append(": ");
            msg.append(reason.as_str());
            Err(msg)
        },
    }
}

/// The blob that the manifest holds under `name`.
pub fn load_embedded_blob(name: &str, embed_map: &NameMap<EmbeddedBlob>) -> (r: Result<
    LoadedBlob,
    String,
>)
    requires
        embed_map.wf(),
    ensures
        match embed_map.lookup(name@) {
            None => r matches Err(msg) && msg@ == "Embedded blob '"@ + name@
                + "' not found in manifest embed section."@,
            Some(blob) => match embedded_bytes(format_of_name(blob.format@), blob.data@) {
                Some(bytes) => r matches Ok(b) && b.format == format_of_name(blob.format@)
                    && b.bytes@ == bytes,
                None => r matches Err(msg) && "Base64 decode failed: "@.is_prefix_of(msg@),
            },
        },
{
    let blob = match embed_map.get(name) {
        Some(blob) => blob,
        None => {
            let mut msg = String::from_str("Embedded blob '");
            msg.append(name);
            msg.append("' not found in manifest embed section.");
            return Err(msg);
        },
    };
    let format = AuroraFormat::from_str(blob.format.as_str());
    let bytes = match format {
        AuroraFormat::MsgPack | AuroraFormat::CsvMsgPack | AuroraFormat::Parquet => {
            match base64_decode(blob.data.as_str()) {
                Ok(bytes) => bytes,
                Err(reason) => {
                    let mut msg = String::from_str("Base64 decode failed: ");
                    let ghost head = msg@;
                    msg.append(reason.as_str());
                    assert(msg@.subrange(0, head.len() as int) =~= head);
                    return Err(msg);
                },
            }
        },
        _ => blob.data.as_str().as_bytes_vec(),
    };
    Ok(LoadedBlob { format, bytes })
}

/// Fetches the blob at a location as `load_blob_from_location` does, but
/// asks the loader for a file at its path under the base directory: a rooted
/// path stands for itself, any other starts at `base_dir`.
pub fn load_blob_from_location_with_base<L: BlobLoader>(
    loc: &AuroraLocation,
    embed_map: &NameMap<EmbeddedBlob>,
    base_dir: &str,
    loader: &mut L,
) -> (r: Result<LoadedBlob, String>)
    requires
        embed_map.wf(),
    ensures
        match loc@ {
            LocationModel::Unknown(source) => r matches Err(msg) && msg@
                == "Unknown location type: "@ + source,
            LocationModel::Embed(name) => match embed_map.lookup(name) {
                None => r matches Err(msg) && msg@ == "Embedded blob '"@ + name
                    + "' not found in manifest embed section."@,
                Some(blob) => match embedded_bytes(format_of_name(blob.format@), blob.data@) {
                    Some(bytes) => r matches Ok(b) && b.format == format_of_name(blob.format@)
                        && b.bytes@ == bytes,
                    None => r matches Err(msg) && "Base64 decode failed: "@.is_prefix_of(msg@),
                },
            },
            LocationModel::File(path) => match r {
                Ok(blob) => blob.format == format_of_path(resolved_path(base_dir@, path)),
                Err(msg) => ("Failed to read "@ + resolved_path(base_dir@, path) + ": "@).is_prefix_of(
                    msg@,
                ),
            },
        },
{
    match loc {
        AuroraLocation::File(path) => {
            let full = FsBlobLoader { base_dir: String::from_str(base_dir) }.resolve(path.as_str());
            let read = loader.load_blob(full.as_str());
            let r = blob_from_file(full.as_str(), read);
            proof {
                if r is Err {
                    let head = "Failed to read "@ + full@ + ": "@;
                    assert(r->Err_0@.subrange(0, head.len() as int) =~= head);
                }
            }
            r
        },
        _ => load_blob_from_location(loc, embed_map, loader),
    }
}

/// Fetches the blob at a location: an embedded one from the manifest, one in
/// a file through the loader. A location of any other kind is refused.
pub fn load_blob_from_location<L: BlobLoader>(
    loc: &AuroraLocation,
    embed_map: &NameMap<EmbeddedBlob>,
    loader: &mut L,
) -> (r: Result<LoadedBlob, String>)
    requires
        embed_map.wf(),
    ensures
        match loc@ {
            LocationModel::Unknown(source) => r matches Err(msg) && msg@
                == "Unknown location type: "@ + source,
            LocationModel::Embed(name) => match embed_map.lookup(name) {
                None => r matches Err(msg) && msg@ == "Embedded blob '"@ + name
                    + "' not found in manifest embed section."@,
                Some(blob) => match embedded_bytes(format_of_name(blob.format@), blob.data@) {
                    Some(bytes) => r matches Ok(b) && b.format == format_of_name(blob.format@)
                        && b.bytes@ == bytes,
                    None => r matches Err(msg) && "Base64 decode failed: "@.is_prefix_of(msg@),
                },
            },
            LocationModel::File(path) => match r {
                Ok(blob) => blob.format == format_of_path(path),
                Err(msg) => ("Failed to read "@ + path + ": "@).is_prefix_of(msg@),
            },
        },
{
    match loc {
        AuroraLocation::File(path) => {
            let read = loader.load_blob(path.as_str());
            let r = blob_from_file(path.as_str(), read);
            proof {
                if r is Err {
                    let head = "Failed to read "@ + path@ + ": "@;
                    assert(r->Err_0@.subrange(0, head.len() as int) =~= head);
                }
            }
            r
        },
        AuroraLocation::Embed(name) => load_embedded_blob(name.as_str(), embed_map),
        AuroraLocation::Unknown(source) => {
            let mut msg = String::from_str("Unknown location type: ");
            msg.append(source.as_str());
            Err(msg)
        },
    }
}

/// The source of an archetype, as it is written in the manifest.
#[derive(Debug, Clone, PartialEq, Eq)]
pub struct Url(pub String);

/// The entry of one archetype in the manifest.
#[derive(Debug, Clone, PartialEq, Eq)]
pub struct ArchetypeSpec {
    pub name: Option<String>,
    /// The component types of the archetype, in column order.
    pub components: Vec<String>,
    /// The storage hint of each column, where the manifest gives them.
    pub storage: Option<Vec<StorageTypeFlag>>,
    /// Where the rows lie.
    pub source: Url,
}

/// The format in which an archetype is written out.
#[derive(Debug, Clone, Copy, PartialEq, Eq, Structural)]
pub enum ExportFormat {
    Csv,
    Json,
    MsgPack,
    CsvMsgPack,
    Parquet,
}

impl ExportFormat {
    /// The ending of the files of this format, which is also the name of the
    /// format in an embedded blob.
    pub open spec fn extension_spec(self) -> Seq<char> {
        match self {
            ExportFormat::Csv => "csv"@,
            ExportFormat::Json => "json"@,
            ExportFormat::MsgPack => "msgpack"@,
            ExportFormat::CsvMsgPack => "csv.msgpack"@,
            ExportFormat::Parquet => "parquet"@,
        }
    }

    /// Whether blobs of this format are text, to be embedded as they are.
    pub open spec fn is_text(self) -> bool {
        self == ExportFormat::Csv || self == ExportFormat::Json
    }

    /// The ending of the files of this format.
    pub fn extension(self) -> (r: &'static str)
        ensures
            r@ == self.extension_spec(),
    {
        match self {
            ExportFormat::Csv => "csv",
            ExportFormat::Json => "json",
            ExportFormat::MsgPack => "msgpack",
            ExportFormat::CsvMsgPack => "csv.msgpack",
            ExportFormat::Parquet => "parquet",
        }
    }
}

/// Where the data of an archetype goes when a world is saved.
#[derive(Debug, PartialEq, Eq)]
pub enum OutputStrategy {
    /// Into the manifest.
    Embed(ExportFormat),
    /// Into a file under the given directory.
    File(ExportFormat, String),
    /// Into the side table of payloads that the caller stores, under the
    /// given virtual directory.
    Return(ExportFormat, String),
}

impl Clone for OutputStrategy {
    fn clone(&self) -> (r: Self)
        ensures
            r == *self,
    {
        match self {
            OutputStrategy::Embed(f) => OutputStrategy::Embed(*f),
            OutputStrategy::File(f, dir) => OutputStrategy::File(*f, dir.clone()),
            OutputStrategy::Return(f, dir) => OutputStrategy::Return(*f, dir.clone()),
        }
    }
}

impl OutputStrategy {
    /// The format that the strategy asks for.
    pub open spec fn format_spec(self) -> ExportFormat {
        match self {
            OutputStrategy::Embed(f) => f,
            OutputStrategy::File(f, _) => f,
            OutputStrategy::Return(f, _) => f,
        }
    }

    /// The format that the strategy asks for.
    pub fn format(&self) -> (r: ExportFormat)
        ensures
            r == self.format_spec(),
    {
        match self {
            OutputStrategy::Embed(f) => *f,
            OutputStrategy::File(f, _) => *f,
            OutputStrategy::Return(f, _) => *f,
        }
    }
}

/// How to write out the archetypes of a world: a strategy for each archetype
/// that has one of its own, and one for all the others.
#[derive(Debug)]
pub struct ExportGuidance {
    pub default: OutputStrategy,
    /// The strategies of single archetypes, by the index of the archetype.
    pub per_arch: HashMap<usize, OutputStrategy>,
}

impl ExportGuidance {
    /// The strategy that holds for the archetype `index`.
    pub open spec fn strategy_of(&self, index: usize) -> OutputStrategy {
        if self.per_arch@.contains_key(index) {
            self.per_arch@[index]
        } else {
            self.default
        }
    }

    /// Every archetype goes into the manifest, in the given format.
    pub fn embed_all(format: ExportFormat) -> (r: Self)
        ensures
            r.default == OutputStrategy::Embed(format),
            r.per_arch@ == Map::<usize, OutputStrategy>::empty(),
    {
        ExportGuidance { default: OutputStrategy::Embed(format), per_arch: HashMap::new() }
    }

    /// Every archetype goes into a file under `base_path`, in the given
    /// format.
    pub fn file_all(format: ExportFormat, base_path: String) -> (r: Self)
        ensures
            r.default == OutputStrategy::File(format, base_path),
            r.per_arch@ == Map::<usize, OutputStrategy>::empty(),
    {
        ExportGuidance { default: OutputStrategy::File(format, base_path), per_arch: HashMap::new() }
    }

    /// Gives the archetype `index` a strategy of its own.
    pub fn set_strategy_for(&mut self, index: usize, strategy: OutputStrategy) -> (r: &mut Self)
        ensures
            r.default == old(self).default,
            r.per_arch@ == old(self).per_arch@.insert(index, strategy),
            *final(self) == *final(r),
    {
        self.per_arch.insert(index, strategy);
        self
    }

    /// Lets the archetype `index` go into the manifest, in the given format.
    pub fn embed_as(&mut self, index: usize, fmt: ExportFormat) -> (r: &mut Self)
        ensures
            r.default == old(self).default,
            r.per_arch@ == old(self).per_arch@.insert(index, OutputStrategy::Embed(fmt)),
            *final(self) == *final(r),
    {
        self.set_strategy_for(index, OutputStrategy::Embed(fmt))
    }

    /// Lets the archetype `index` go into a file under `path`, in the given
    /// format.
    pub fn file_as(&mut self, index: usize, fmt: ExportFormat, path: String) -> (r: &mut Self)
        ensures
            r.default == old(self).default,
            r.per_arch@ == old(self).per_arch@.insert(index, OutputStrategy::File(fmt, path)),
            *final(self) == *final(r),
    {
        self.set_strategy_for(index, OutputStrategy::File(fmt, path))
    }

    /// The strategy that holds for the archetype `index`: its own if it has
    /// one, and else the one for all.
    pub fn get_strategy(&self, index: usize) -> (r: OutputStrategy)
        ensures
            r == self.strategy_of(index),
    {
        match self.per_arch.get(&index) {
            Some(strategy) => strategy.clone(),
            None => self.default.clone(),
        }
    }
}

/// The format of a manifest file.
#[derive(Debug, Clone, Copy, PartialEq, Eq, Structural)]
pub enum ManifestOutputFormat {
    Json,
    Toml,
}

impl Default for ManifestOutputFormat {
    fn default() -> (r: Self)
        ensures
            r == ManifestOutputFormat::Toml,
    {
        ManifestOutputFormat::Toml
    }
}

/// The lower-case form of an upper-case letter of the basic alphabet, and
/// any other character unchanged.
pub open spec fn ascii_lower(c: char) -> char {
    if 'A' <= c <= 'Z' {
        ((c as u8) + 32) as char
    } else {
        c
    }
}

/// Whether `text` is `word` but for the case of its basic letters.
pub open spec fn matches_ignoring_case(text: Seq<char>, word: Seq<char>) -> bool {
    text.len() == word.len() && forall|i: int|
        0 <= i < text.len() ==> ascii_lower(#[trigger] text[i]) == word[i]
}

/// The index of the dot before the extension of a path: the last dot of its
/// last segment, unless the segment begins with it.
pub open spec fn is_extension_dot(path: Seq<char>, i: int) -> bool {
    &&& 0 <= i < path.len()
    &&& path[i] == '.'
    &&& forall|j: int| i < j < path.len() ==> path[j] != '.' && path[j] != '/'
    &&& i > 0 && path[i - 1] != '/'
}

/// The extension of a path: what follows the last dot of its last segment.
/// A path whose last segment has no dot, or only begins with one, has none.
pub open spec fn extension_of(path: Seq<char>) -> Option<Seq<char>> {
    if exists|i: int| is_extension_dot(path, i) {
        Some(path.skip((choose|i: int| is_extension_dot(path, i)) + 1))
    } else {
        None
    }
}

/// The manifest format that a path asks for by its extension, whatever the
/// case of its letters.
pub open spec fn manifest_format_of(path: Seq<char>) -> Option<ManifestOutputFormat> {
    match extension_of(path) {
        Some(ext) => if matches_ignoring_case(ext, "json"@) {
            Some(ManifestOutputFormat::Json)
        } else if matches_ignoring_case(ext, "toml"@) {
            Some(ManifestOutputFormat::Toml)
        } else {
            None
        },
        None => None,
    }
}

/// The extension of a path.
pub fn path_extension(path: &str) -> (r: Option<String>)
    ensures
        match extension_of(path@) {
            Some(ext) => r matches Some(x) && x@ == ext,
            None => r is None,
        },
{
    let chars = crate::text::chars_of(path);
    let n = chars.len();
    let mut i: usize = n;
    while i > 0
        invariant
            chars@ == path@,
            n == chars.len(),
            i <= n,
            forall|j: int| i <= j < n ==> path@[j] != '.' && path@[j] != '/',
        decreases i,
    {
        i -= 1;
        if chars[i] == '/' {
            assert forall|w: int| !is_extension_dot(path@, w) by {
                if is_extension_dot(path@, w) {
                    if w < i {
                        assert(path@[i as int] != '/');
                    }
                }
            }
            return None;
        }
        if chars[i] == '.' {
            if i > 0 && chars[i - 1] != '/' {
                let ext = path.substring_char(i + 1, n);
                proof {
                    assert(is_extension_dot(path@, i as int));
                    let w = choose|w: int| is_extension_dot(path@, w);
                    assert(w == i) by {
                        if w < i {
                            assert(path@[i as int] != '.');
                        }
                        if w > i {
                            assert(path@[w] != '.');
                        }
                    }
                    assert(path@.subrange(i + 1, n as int) =~= path@.skip(i + 1));
                }
                return Some(String::from_str(ext));
            }
            assert forall|w: int| !is_extension_dot(path@, w) by {
                if is_extension_dot(path@, w) {
                    if w < i {
                        assert(path@[i as int] != '.');
                    }
                    if w > i {
                        assert(path@[w] != '.');
                    }
                }
            }
            return None;
        }
    }
    assert forall|w: int| !is_extension_dot(path@, w) by {
        if is_extension_dot(path@, w) {
            assert(path@[w] != '.');
        }
    }
    None
}

/// Whether `text` is `word`, a word in lower case, but for the case of its
/// basic letters.
fn eq_ignoring_case(text: &str, word: &str) -> (b: bool)
    ensures
        b == matches_ignoring_case(text@, word@),
{
    let t = crate::text::chars_of(text);
    let w = crate::text::chars_of(word);
    if t.len() != w.len() {
        return false;
    }
    let mut i: usize = 0;
    while i < t.len()
        invariant
            t@ == text@,
            w@ == word@,
            t.len() == w.len(),
            i <= t.len(),
            forall|j: int| 0 <= j < i ==> ascii_lower(#[trigger] text@[j]) == word@[j],
        decreases t.len() - i,
    {
        let c = t[i];
        let lower = if c >= 'A' && c <= 'Z' {
            ((c as u8) + 32) as char
        } else {
            c
        };
        if lower != w[i] {
            return false;
        }
        i += 1;
    }
    true
}

impl ManifestOutputFormat {
    /// The format that a path asks for by its extension: `json` or `toml`,
    /// in any case of the letters.
    pub fn from_path(path: &str) -> (r: Option<Self>)
        ensures
            r == manifest_format_of(path@),
    {
        match path_extension(path) {
            Some(ext) => {
                if eq_ignoring_case(ext.as_str(), "json") {
                    Some(ManifestOutputFormat::Json)
                } else if eq_ignoring_case(ext.as_str(), "toml") {
                    Some(ManifestOutputFormat::Toml)
                } else {
                    None
                }
            },
            None => None,
        }
    }

    /// The format in which a manifest file is read: the one the caller names,
    /// and else the one its path asks for. A path that asks for none is
    /// refused.
    pub fn for_reading(path: &str, format_hint: Option<ManifestOutputFormat>) -> (r: Result<
        Self,
        String,
    >)
        ensures
            match format_hint {
                Some(f) => r == Ok::<Self, String>(f),
                None => match manifest_format_of(path@) {
                    Some(f) => r == Ok::<Self, String>(f),
                    None => r matches Err(msg) && "Cannot guess format from extension: "@.is_prefix_of(
                        msg@,
                    ),
                },
            },
    {
        match format_hint {
            Some(f) => Ok(f),
            None => match Self::from_path(path) {
                Some(f) => Ok(f),
                None => {
                    let mut msg = String::from_str("Cannot guess format from extension: ");
                    let ghost head = msg@;
                    match path_extension(path) {
                        Some(ext) => {
                            msg.append(ext.as_str());
                        },
                        None => {},
                    }
                    assert(msg@.subrange(0, head.len() as int) =~= head);
                    Err(msg)
                },
            },
        }
    }
}

/// The mathematical value of an [`ArchetypeSpec`].
pub struct ArchetypeSpecModel {
    pub name: Option<Seq<char>>,
    pub components: Seq<Seq<char>>,
    pub storage: Option<Seq<StorageTypeFlag>>,
    pub source: Seq<char>,
}

impl DeepView for ArchetypeSpec {
    type V = ArchetypeSpecModel;

    open spec fn deep_view(&self) -> ArchetypeSpecModel {
        ArchetypeSpecModel {
            name: match self.name {
                Some(n) => Some(n@),
                None => None,
            },
            components: self.components.deep_view(),
            storage: match self.storage {
                Some(s) => Some(s@),
                None => None,
            },
            source: self.source.0@,
        }
    }
}

/// The world part of a manifest: the archetypes with their sources, the
/// blobs held in the manifest itself, and the resources.
#[derive(Debug)]
pub struct WorldWithAurora {
    pub version: String,
    pub name: Option<String>,
    pub archetypes: Vec<ArchetypeSpec>,
    /// The embedded blobs, by name.
    pub embed: NameMap<EmbeddedBlob>,
    /// The blobs that the caller is to store, by virtual path. They are not
    /// part of the written manifest.
    pub external_payloads: NameMap<Vec<u8>>,
    /// The resources, by type name.
    pub resources: NameMap<DynValue>,
}

/// A manifest: the world, and what its author wants to say about it.
#[derive(Debug)]
pub struct AuroraWorldManifest {
    pub metadata: Option<NameMap<DynValue>>,
    pub world: WorldWithAurora,
}

/// A file that is to be written.
#[derive(Debug, Clone, PartialEq, Eq)]
pub struct FileWrite {
    pub path: String,
    pub bytes: Vec<u8>,
}

/// The name of the archetype with the given index.
pub open spec fn arch_name_spec(index: usize) -> Seq<char> {
    "arch_"@ + decimal(index as nat)
}

/// The name of the archetype with the given index.
pub fn arch_name(index: usize) -> (r: String)
    ensures
        r@ == arch_name_spec(index),
{
    let mut name = String::from_str("arch_");
    name.append(usize_to_decimal(index).as_str());
    name
}

/// The name of the file that holds the archetype `index` in the format
/// `format`.
pub open spec fn arch_file_name(index: usize, format: ExportFormat) -> Seq<char> {
    arch_name_spec(index) + seq!['.'] + format.extension_spec()
}

/// The path of `file_name` under a virtual directory.
pub open spec fn virtual_path(dir: Seq<char>, file_name: Seq<char>) -> Seq<char> {
    if dir.len() == 0 || dir.last() == '/' {
        dir + file_name
    } else {
        dir + seq!['/'] + file_name
    }
}

/// The text under which a blob is embedded: the blob itself for a text
/// format, its base64 form for a binary one.
pub open spec fn embedded_text(format: ExportFormat, bytes: Seq<u8>) -> Seq<char> {
    if format.is_text() {
        decode_utf8(bytes)
    } else {
        base64_text(bytes)
    }
}

/// The source under which the manifest lists the archetype `index` when it
/// is written out by `strategy`.
pub open spec fn source_of(index: usize, strategy: OutputStrategy) -> Seq<char> {
    match strategy {
        OutputStrategy::Embed(_) => "embed://"@ + arch_name_spec(index),
        OutputStrategy::File(f, dir) => "file://"@ + resolved_path(dir@, arch_file_name(index, f)),
        OutputStrategy::Return(f, dir) => "file://"@ + virtual_path(dir@, arch_file_name(index, f)),
    }
}

impl WorldWithAurora {
    /// The tables of the manifest are well formed.
    pub open spec fn wf(&self) -> bool {
        &&& self.embed.wf()
        &&& self.external_payloads.wf()
        &&& self.resources.wf()
    }

    /// A manifest of the current version without archetypes.
    pub fn new() -> (r: Self)
        ensures
            r.wf(),
            r.version@ == "0.1"@,
            r.name is None,
            r.archetypes@.len() == 0,
            r.embed.names().len() == 0,
            r.external_payloads.names().len() == 0,
            r.resources.names().len() == 0,
    {
        WorldWithAurora {
            version: String::from_str("0.1"),
            name: None,
            archetypes: Vec::new(),
            embed: NameMap::new(),
            external_payloads: NameMap::new(),
            resources: NameMap::new(),
        }
    }

    /// Lists the archetype `index` and puts its blob where `strategy` says:
    /// into the manifest, into the side table of payloads, or into a file,
    /// which is then handed back for the caller to write.
    pub fn place_archetype(
        &mut self,
        index: usize,
        components: Vec<String>,
        strategy: &OutputStrategy,
        bytes: Vec<u8>,
    ) -> (r: Result<Option<FileWrite>, String>)
        requires
            old(self).wf(),
        ensures
            final(self).wf(),
            final(self).version == old(self).version,
            final(self).name == old(self).name,
            final(self).resources == old(self).resources,
            r is Err <==> (*strategy matches OutputStrategy::Embed(f) && f.is_text() && !valid_utf8(
                bytes@,
            )),
            r matches Err(msg) ==> msg@ == "Embedded text is not UTF-8"@ && final(self).embed
                == old(self).embed && final(self).external_payloads == old(self).external_payloads
                && final(self).archetypes == old(self).archetypes,
            r is Ok ==> final(self).archetypes.deep_view() == old(self).archetypes.deep_view().push(
                ArchetypeSpecModel {
                    name: Some(arch_name_spec(index)),
                    components: components.deep_view(),
                    storage: None,
                    source: source_of(index, *strategy),
                },
            ),
            r matches Ok(r) ==> match *strategy {
                OutputStrategy::Embed(f) => {
                    &&& r is None
                    &&& final(self).external_payloads == old(self).external_payloads
                    &&& final(self).embed.lookup(arch_name_spec(index)) matches Some(blob)
                    &&& blob.format@ == f.extension_spec()
                    &&& blob.data@ == embedded_text(f, bytes@)
                    &&& forall|other: Seq<char>|
                        other != arch_name_spec(index) ==> final(self).embed.lookup(other) == old(self).embed.lookup(other)
                },
                OutputStrategy::File(f, dir) => {
                    &&& r matches Some(w)
                    &&& w.path@ == resolved_path(dir@, arch_file_name(index, f))
                    &&& w.bytes@ == bytes@
                    &&& final(self).embed == old(self).embed
                    &&& final(self).external_payloads == old(self).external_payloads
                },
                OutputStrategy::Return(f, dir) => {
                    &&& r is None
                    &&& final(self).embed == old(self).embed
                    &&& final(self).external_payloads.lookup(
                        virtual_path(dir@, arch_file_name(index, f)),
                    ) matches Some(b)
                    &&& b@ == bytes@
                    &&& forall|other: Seq<char>|
                        other != virtual_path(dir@, arch_file_name(index, f)) ==> final(self).external_payloads.lookup(other) == old(self).external_payloads.lookup(
                            other,
                        )
                },
            },
    {
        proof {
            reveal_strlit(".");
            reveal_strlit("/");
        }
        let name = arch_name(index);
        let format = strategy.format();
        let mut file_name = name.clone();
        file_name.append(".");
        file_name.append(format.extension());
        assert(file_name@ =~= arch_file_name(index, format));
        let mut written: Option<FileWrite> = None;
        let source = match strategy {
            OutputStrategy::Embed(_) => {
                let data = match format {
                    ExportFormat::Csv | ExportFormat::Json => match text_of_bytes(bytes) {
                        Some(text) => text,
                        None => {
                            return Err(String::from_str("Embedded text is not UTF-8"));
                        },
                    },
                    _ => base64_encode(&bytes),
                };
                let blob = EmbeddedBlob { format: String::from_str(format.extension()), data };
                self.embed.insert(name.clone(), blob);
                let mut source = String::from_str("embed://");
                source.append(name.as_str());
                source
            },
            OutputStrategy::File(_, dir) => {
                let loader = FsBlobLoader { base_dir: dir.clone() };
                let path = loader.resolve(file_name.as_str());
                let mut source = String::from_str("file://");
                source.append(path.as_str());
                written = Some(FileWrite { path, bytes });
                source
            },
            OutputStrategy::Return(_, dir) => {
                let mut path = dir.clone();
                if !(dir.as_str().unicode_len() == 0 || ends_with(dir.as_str(), "/")) {
                    path.append("/");
                }
                proof {
                    if dir@.len() > 0 {
                        if dir@.last() == '/' {
                            assert(dir@.subrange(dir@.len() - 1, dir@.len() as int) =~= "/"@);
                        } else if "/"@.is_suffix_of(dir@) {
                            assert(dir@.subrange(dir@.len() - 1, dir@.len() as int)[0] == "/"@[0]);
                        }
                    }
                }
                path.append(file_name.as_str());
                assert(path@ =~= virtual_path(dir@, arch_file_name(index, format)));
                let mut source = String::from_str("file://");
                source.append(path.as_str());
                self.external_payloads.insert(path, bytes);
                source
            },
        };
        let ghost before = self.archetypes.deep_view();
        let spec = ArchetypeSpec { name: Some(name), components, storage: None, source: Url(source) };
        let ghost model = spec.deep_view();
        self.archetypes.push(spec);
        assert(self.archetypes.deep_view() =~= before.push(model));
        Ok(written)
    }
}

/// The bytes of an archetype snapshot in a format, where it has any: the
/// CSV data of its columnar table, the snapshot itself as JSON with named
/// fields or as MessagePack with its fields in order, or its columnar table
/// as MessagePack. There are none where two columns of the table would
/// share a header. A snapshot has no Parquet form: that is written from
/// typed columns.
pub open spec fn arch_bytes(m: ArchetypeModel, format: ExportFormat) -> Option<Seq<u8>> {
    match format {
        ExportFormat::Csv => if m.to_columnar(true).headers.no_duplicates() {
            csv_bytes(m.to_columnar(true).records())
        } else {
            None
        },
        ExportFormat::Json => encoded(Encoding::Json, snapshot_value(m)),
        ExportFormat::MsgPack => encoded(Encoding::MsgPack, snapshot_tuple(m)),
        ExportFormat::CsvMsgPack => if m.to_columnar(true).headers.no_duplicates() {
            encoded(Encoding::MsgPack, columnar_tuple(m.to_columnar(true)))
        } else {
            None
        },
        ExportFormat::Parquet => None,
    }
}

/// Writes an archetype snapshot in a format.
pub fn serialize_arch_data(arch: &ArchetypeSnapshot, fmt: ExportFormat) -> (r: Result<
    Vec<u8>,
    String,
>)
    requires
        arch@.columns_aligned(),
    ensures
        match arch_bytes(arch@, fmt) {
            Some(bytes) => r matches Ok(b) && b@ == bytes,
            None => r is Err,
        },
        fmt == ExportFormat::Parquet ==> (r matches Err(msg) && msg@
            == "Parquet is written from typed columns, not from a snapshot"@),
{
    match fmt {
        ExportFormat::Csv => match columnar_core(arch, true) {
            Ok(csv) => csv.to_csv_writer(),
            Err(reason) => Err(reason),
        },
        ExportFormat::Json => encode(Encoding::Json, &arch.to_value()),
        ExportFormat::MsgPack => encode(Encoding::MsgPack, &arch.to_tuple_value()),
        ExportFormat::CsvMsgPack => match columnar_core(arch, true) {
            Ok(csv) => encode(Encoding::MsgPack, &csv.to_tuple_value()),
            Err(reason) => Err(reason),
        },
        ExportFormat::Parquet => Err(
            String::from_str("Parquet is written from typed columns, not from a snapshot"),
        ),
    }
}

/// What a blob holds once it is read.
#[derive(Debug)]
pub enum AuroraInternalFormat {
    ColumnarCsv(ColumnarCsv),
    ArchetypeSnapshot(ArchetypeSnapshot),
    /// A component table, still as Parquet: its typed columns are read where
    /// the types are known.
    ArrowComponentTable(Vec<u8>),
}

/// The mathematical value of an [`AuroraInternalFormat`].
pub enum InternalModel {
    ColumnarCsv(ColumnarModel),
    ArchetypeSnapshot(ArchetypeModel),
    ArrowComponentTable(Seq<u8>),
}

impl View for AuroraInternalFormat {
    type V = InternalModel;

    open spec fn view(&self) -> InternalModel {
        match self {
            AuroraInternalFormat::ColumnarCsv(csv) => InternalModel::ColumnarCsv(csv@),
            AuroraInternalFormat::ArchetypeSnapshot(s) => InternalModel::ArchetypeSnapshot(s@),
            AuroraInternalFormat::ArrowComponentTable(b) => InternalModel::ArrowComponentTable(b@),
        }
    }
}

/// What bytes of a format hold, where they hold anything.
pub open spec fn parsed_blob(format: AuroraFormat, bytes: Seq<u8>) -> Option<InternalModel> {
    match format {
        AuroraFormat::Csv => match csv_table_of(bytes) {
            Some(t) => Some(InternalModel::ColumnarCsv(t)),
            None => None,
        },
        AuroraFormat::Json => match decoded(Encoding::Json, bytes) {
            Some(v) => match snapshot_of_value(v) {
                Some(m) => Some(InternalModel::ArchetypeSnapshot(m)),
                None => None,
            },
            None => None,
        },
        AuroraFormat::MsgPack => match decoded(Encoding::MsgPack, bytes) {
            Some(v) => match snapshot_of_value(v) {
                Some(m) => Some(InternalModel::ArchetypeSnapshot(m)),
                None => None,
            },
            None => None,
        },
        AuroraFormat::CsvMsgPack => match decoded(Encoding::MsgPack, bytes) {
            Some(v) => match columnar_of_value(v) {
                Some(m) => Some(InternalModel::ColumnarCsv(m)),
                None => None,
            },
            None => None,
        },
        AuroraFormat::Parquet => Some(InternalModel::ArrowComponentTable(bytes)),
        AuroraFormat::Unknown => None,
    }
}

/// Reads a blob by its format.
pub fn parse_blob(blob: &LoadedBlob) -> (r: Result<AuroraInternalFormat, String>)
    ensures
        match parsed_blob(blob.format, blob.bytes@) {
            Some(m) => r matches Ok(x) && x@ == m,
            None => r is Err,
        },
        blob.format == AuroraFormat::Unknown ==> (r matches Err(msg) && msg@
            == "Cannot parse unknown format"@),
{
    match blob.format {
        AuroraFormat::Csv => match ColumnarCsv::from_csv_reader(blob.bytes.as_slice()) {
            Ok(csv) => Ok(AuroraInternalFormat::ColumnarCsv(csv)),
            Err(reason) => Err(reason),
        },
        AuroraFormat::Json => match decode(Encoding::Json, blob.bytes.as_slice()) {
            Ok(v) => match ArchetypeSnapshot::from_value(&v) {
                Ok(s) => Ok(AuroraInternalFormat::ArchetypeSnapshot(s)),
                Err(reason) => Err(reason),
            },
            Err(reason) => Err(reason),
        },
        AuroraFormat::MsgPack => match decode(Encoding::MsgPack, blob.bytes.as_slice()) {
            Ok(v) => match ArchetypeSnapshot::from_value(&v) {
                Ok(s) => Ok(AuroraInternalFormat::ArchetypeSnapshot(s)),
                Err(reason) => Err(reason),
            },
            Err(reason) => Err(reason),
        },
        AuroraFormat::CsvMsgPack => match decode(Encoding::MsgPack, blob.bytes.as_slice()) {
            Ok(v) => match ColumnarCsv::from_value(&v) {
                Ok(csv) => Ok(AuroraInternalFormat::ColumnarCsv(csv)),
                Err(reason) => Err(reason),
            },
            Err(reason) => Err(reason),
        },
        AuroraFormat::Parquet => Ok(
            AuroraInternalFormat::ArrowComponentTable(
                crate::binary_archive::world_snapshot::zip_snapshot::copy_bytes(&blob.bytes),
            ),
        ),
        AuroraFormat::Unknown => Err(String::from_str("Cannot parse unknown format")),
    }
}

/// The storage hints of a loaded archetype: those that the manifest gives,
/// and else the table for each of its `n` columns.
pub open spec fn storage_hints(given: Option<Seq<StorageTypeFlag>>, n: nat) -> Seq<StorageTypeFlag> {
    match given {
        Some(flags) => flags,
        None => Seq::new(n, |i: int| StorageTypeFlag::Table),
    }
}

/// The archetype snapshot that a read blob stands for. A columnar table is
/// gathered by component type and gets the storage hints of the manifest; a
/// snapshot stands for itself. There is none for a table that is
/// malformed, nor for typed columns.
pub open spec fn snapshot_of_internal(
    parsed: InternalModel,
    storage: Option<Seq<StorageTypeFlag>>,
) -> Option<ArchetypeModel> {
    match parsed {
        InternalModel::ColumnarCsv(csv) => if csv.columns_aligned() && csv.groups_uniform() {
            Some(
                ArchetypeModel {
                    storage_types: storage_hints(
                        storage,
                        csv.to_archetype().component_types.len(),
                    ),
                    ..csv.to_archetype()
                },
            )
        } else {
            None
        },
        InternalModel::ArchetypeSnapshot(s) => Some(s),
        InternalModel::ArrowComponentTable(_) => None,
    }
}

/// The archetype snapshot that a read blob stands for.
pub fn into_snapshot(parsed: AuroraInternalFormat, storage: &Option<Vec<StorageTypeFlag>>) -> (r:
    Result<ArchetypeSnapshot, String>)
    ensures
        match snapshot_of_internal(
            parsed@,
            match *storage {
                Some(flags) => Some(flags@),
                None => None,
            },
        ) {
            Some(m) => r matches Ok(s) && s@ == m,
            None => r is Err,
        },
        parsed is ArrowComponentTable ==> (r matches Err(msg) && msg@ == "not supported"@),
{
    match parsed {
        AuroraInternalFormat::ColumnarCsv(csv) => {
            if !csv.is_aligned() || !csv.has_uniform_groups() {
                return Err(String::from_str("malformed columnar table"));
            }
            let mut snap = to_archetype_snapshot(&csv);
            let n = snap.component_types.len();
            let mut flags: Vec<StorageTypeFlag> = Vec::new();
            match storage {
                Some(given) => {
                    let mut i: usize = 0;
                    while i < given.len()
                        invariant
                            i <= given.len(),
                            flags@ == given@.take(i as int),
                        decreases given.len() - i,
                    {
                        flags.push(given[i]);
                        i += 1;
                        assert(flags@ =~= given@.take(i as int));
                    }
                    assert(given@.take(given@.len() as int) =~= given@);
                },
                None => {
                    let mut i: usize = 0;
                    while i < n
                        invariant
                            i <= n,
                            flags@.len() == i,
                            forall|k: int| 0 <= k < i ==> flags@[k] == StorageTypeFlag::Table,
                        decreases n - i,
                    {
                        flags.push(StorageTypeFlag::Table);
                        i += 1;
                    }
                    assert(flags@ =~= Seq::new(n as nat, |i: int| StorageTypeFlag::Table));
                },
            }
            snap.storage_types = flags;
            Ok(snap)
        },
        AuroraInternalFormat::ArchetypeSnapshot(s) => Ok(s),
        AuroraInternalFormat::ArrowComponentTable(_) => Err(String::from_str("not supported")),
    }
}

/// The archetype snapshot that a fetched blob stands for.
pub fn snapshot_of_blob(blob: &LoadedBlob, storage: &Option<Vec<StorageTypeFlag>>) -> (r: Result<
    ArchetypeSnapshot,
    String,
>)
    ensures
        match parsed_blob(blob.format, blob.bytes@) {
            Some(parsed) => match snapshot_of_internal(
                parsed,
                match *storage {
                    Some(flags) => Some(flags@),
                    None => None,
                },
            ) {
                Some(m) => r matches Ok(s) && s@ == m,
                None => r is Err,
            },
            None => r is Err,
        },
{
    match parse_blob(blob) {
        Ok(parsed) => into_snapshot(parsed, storage),
        Err(reason) => Err(reason),
    }
}

/// The archetype snapshot that bytes of a format stand for, with the
/// storage hints of the manifest.
pub open spec fn snapshot_of_bytes(
    format: AuroraFormat,
    bytes: Seq<u8>,
    storage: Option<Seq<StorageTypeFlag>>,
) -> Option<ArchetypeModel> {
    match parsed_blob(format, bytes) {
        Some(parsed) => snapshot_of_internal(parsed, storage),
        None => None,
    }
}

/// The archetype snapshot that the manifest itself holds for a listed
/// archetype: that of the embedded blob that its source names. There is
/// none where the source names a file or is of no known kind, where the
/// manifest has no such blob, or where the blob cannot be read.
pub open spec fn embedded_snapshot(spec: ArchetypeSpecModel, embed: NameMap<EmbeddedBlob>) -> Option<
    ArchetypeModel,
> {
    match location_of(spec.source) {
        LocationModel::Embed(name) => match embed.lookup(name) {
            Some(blob) => match embedded_bytes(format_of_name(blob.format@), blob.data@) {
                Some(bytes) => snapshot_of_bytes(format_of_name(blob.format@), bytes, spec.storage),
                None => None,
            },
            None => None,
        },
        _ => None,
    }
}

/// Whether the manifest itself holds a listed archetype, in a blob that can
/// be read.
pub open spec fn held_within(spec: ArchetypeSpecModel, embed: NameMap<EmbeddedBlob>) -> bool {
    embedded_snapshot(spec, embed) is Some
}

/// Whether `arch` is what the source of a listed archetype gives. For a
/// source in the manifest it is the snapshot of the embedded blob. For a
/// file it is the snapshot of some bytes in the format that the ending of
/// the path stands for: which bytes, the loader decides.
pub open spec fn loads_as(
    spec: ArchetypeSpecModel,
    embed: NameMap<EmbeddedBlob>,
    arch: ArchetypeModel,
) -> bool {
    match location_of(spec.source) {
        LocationModel::File(path) => exists|bytes: Seq<u8>| #[trigger]
            snapshot_of_bytes(format_of_path(path), bytes, spec.storage) == Some(arch),
        _ => embedded_snapshot(spec, embed) == Some(arch),
    }
}

impl WorldWithAurora {
    /// The archetypes that a manifest lists, each fetched from its source and
    /// read by its format, with the entity indices of all their rows. One
    /// archetype that cannot be fetched or read fails the whole. Where the
    /// manifest itself holds every archetype in a blob that can be read, the
    /// snapshot is given; a file is asked of the loader.
    pub fn to_snapshot<L: BlobLoader>(&self, loader: &mut L) -> (r: Result<
        WorldArchSnapshot,
        String,
    >)
        requires
            self.wf(),
        ensures
            r matches Ok(s) ==> {
                &&& s@.archetypes.len() == self.archetypes@.len()
                &&& forall|k: int|
                    0 <= k < self.archetypes@.len() ==> loads_as(
                        self.archetypes@[k].deep_view(),
                        self.embed,
                        #[trigger] s@.archetypes[k],
                    )
                &&& is_strictly_increasing(s@.entities)
                &&& forall|e: u32| s@.entities.contains(e) <==> rows_contain(s@.archetypes, e)
            },
            (forall|k: int|
                0 <= k < self.archetypes@.len() ==> held_within(
                    (#[trigger] self.archetypes@[k]).deep_view(),
                    self.embed,
                )) ==> r is Ok,
    {
        let mut archetypes: Vec<ArchetypeSnapshot> = Vec::new();
        let mut i: usize = 0;
        while i < self.archetypes.len()
            invariant
                self.wf(),
                i <= self.archetypes.len(),
                archetypes@.len() == i,
                forall|k: int|
                    0 <= k < i ==> loads_as(
                        self.archetypes@[k].deep_view(),
                        self.embed,
                        (#[trigger] archetypes@[k])@,
                    ),
            decreases self.archetypes.len() - i,
        {
            let spec = &self.archetypes[i];
            let ghost model = spec.deep_view();
            let loc = AuroraLocation::parse(spec.source.0.as_str());
            let blob = match load_blob_from_location(&loc, &self.embed, loader) {
                Ok(blob) => blob,
                Err(reason) => {
                    assert(!held_within(self.archetypes@[i as int].deep_view(), self.embed));
                    return Err(reason);
                },
            };
            let snapshot = match snapshot_of_blob(&blob, &spec.storage) {
                Ok(snapshot) => snapshot,
                Err(reason) => {
                    assert(!held_within(self.archetypes@[i as int].deep_view(), self.embed));
                    return Err(reason);
                },
            };
            proof {
                assert(snapshot_of_bytes(blob.format, blob.bytes@, model.storage) == Some(
                    snapshot@,
                ));
                assert(loads_as(model, self.embed, snapshot@));
            }
            archetypes.push(snapshot);
            i += 1;
        }
        let world = WorldArchSnapshot::from_archetypes(archetypes);
        proof {
            assert forall|k: int| 0 <= k < self.archetypes@.len() implies loads_as(
                self.archetypes@[k].deep_view(),
                self.embed,
                #[trigger] world@.archetypes[k],
            ) by {
                assert(world@.archetypes[k] == archetypes@[k]@);
            }
        }
        Ok(world)
    }

    /// The manifest of a snapshot: each archetype that has a row is listed
    /// under its index and embedded as CSV. A snapshot with an archetype that
    /// has no CSV form is refused.
    pub fn from_snapshot(world: &WorldArchSnapshot) -> (r: Result<WorldWithAurora, String>)
        requires
            forall|a: int|
                0 <= a < world@.archetypes.len() ==> (#[trigger] world@.archetypes[a]).columns_aligned(),
        ensures
            r is Ok <==> embeddable(world@.archetypes, world@.archetypes.len() as int),
            r matches Ok(w) ==> {
                &&& w.wf()
                &&& w.version@ == "0.1"@
                &&& w.name is None
                &&& w.resources.names().len() == 0
                &&& w.external_payloads.names().len() == 0
                &&& w.archetypes.deep_view() == embedded_specs(
                    world@.archetypes,
                    world@.archetypes.len() as int,
                )
                &&& forall|a: int|
                    0 <= a < world@.archetypes.len() && world@.archetypes[a].entities.len() > 0
                        ==> #[trigger] holds_csv(w.embed, a, world@.archetypes[a])
            },
    {
        let mut out = WorldWithAurora::new();
        let strategy = OutputStrategy::Embed(ExportFormat::Csv);
        let ghost archs = world@.archetypes;
        let mut i: usize = 0;
        assert(out.archetypes.deep_view() =~= Seq::empty());
        while i < world.archetypes.len()
            invariant
                archs == world@.archetypes,
                forall|a: int| 0 <= a < archs.len() ==> (#[trigger] archs[a]).columns_aligned(),
                i <= world.archetypes.len(),
                strategy == OutputStrategy::Embed(ExportFormat::Csv),
                embeddable(archs, i as int),
                out.wf(),
                out.version@ == "0.1"@,
                out.name is None,
                out.resources.names().len() == 0,
                out.external_payloads.names().len() == 0,
                out.archetypes.deep_view() == embedded_specs(archs, i as int),
                forall|a: int|
                    0 <= a < i && archs[a].entities.len() > 0 ==> #[trigger] holds_csv(
                        out.embed,
                        a,
                        archs[a],
                    ),
            decreases world.archetypes.len() - i,
        {
            let arch = &world.archetypes[i];
            assert(archs[i as int] == arch@);
            if !arch.is_empty() {
                let bytes = match serialize_arch_data(arch, ExportFormat::Csv) {
                    Ok(bytes) => bytes,
                    Err(reason) => {
                        proof {
                            assert(!embeddable(archs, i + 1));
                            lemma_embeddable_prefix(archs, i + 1, archs.len() as int);
                        }
                        return Err(reason);
                    },
                };
                let components = copy_names(&arch.component_types);
                let ghost before = out.embed;
                match out.place_archetype(i, components, &strategy, bytes) {
                    Ok(_) => {},
                    Err(reason) => {
                        proof {
                            assert(!embeddable(archs, i + 1));
                            lemma_embeddable_prefix(archs, i + 1, archs.len() as int);
                        }
                        return Err(reason);
                    },
                }
                proof {
                    assert forall|a: int|
                        0 <= a < i + 1 && archs[a].entities.len() > 0 implies #[trigger] holds_csv(
                        out.embed,
                        a,
                        archs[a],
                    ) by {
                        if a < i {
                            lemma_arch_names_differ(a as usize, i);
                            assert(holds_csv(before, a, archs[a]));
                        }
                    }
                }
            }
            i += 1;
        }
        Ok(out)
    }
}

/// Whether the table of blobs holds the archetype of index `a` as CSV text.
pub open spec fn holds_csv(embed: NameMap<EmbeddedBlob>, a: int, arch: ArchetypeModel) -> bool {
    &&& embed.lookup(arch_name_spec(a as usize)) matches Some(blob)
    &&& blob.format@ == "csv"@
    &&& arch_bytes(arch, ExportFormat::Csv) matches Some(bytes)
    &&& blob.data@ == decode_utf8(bytes)
}

/// Whether each of the first `n` archetypes that has a row has a CSV form
/// that is text.
pub open spec fn embeddable(archetypes: Seq<ArchetypeModel>, n: int) -> bool
    decreases n,
{
    n <= 0 || (embeddable(archetypes, n - 1) && (archetypes[n - 1].entities.len() == 0 || (
    arch_bytes(archetypes[n - 1], ExportFormat::Csv) matches Some(bytes) && valid_utf8(bytes))))
}

/// The entries that the manifest of a snapshot lists for the first `n`
/// archetypes: one for each archetype that has a row, embedded under the
/// name of its index.
pub open spec fn embedded_specs(archetypes: Seq<ArchetypeModel>, n: int) -> Seq<ArchetypeSpecModel>
    decreases n,
{
    if n <= 0 {
        Seq::empty()
    } else if archetypes[n - 1].entities.len() == 0 {
        embedded_specs(archetypes, n - 1)
    } else {
        embedded_specs(archetypes, n - 1).push(
            ArchetypeSpecModel {
                name: Some(arch_name_spec((n - 1) as usize)),
                components: archetypes[n - 1].component_types,
                storage: None,
                source: "embed://"@ + arch_name_spec((n - 1) as usize),
            },
        )
    }
}

/// What cannot be embedded up to some archetype cannot be embedded at all.
pub proof fn lemma_embeddable_prefix(archetypes: Seq<ArchetypeModel>, k: int, n: int)
    requires
        0 <= k <= n,
        !embeddable(archetypes, k),
    ensures
        !embeddable(archetypes, n),
    decreases n - k,
{
    if k < n {
        lemma_embeddable_prefix(archetypes, k, n - 1);
    }
}

/// Archetypes of different indices have different names.
pub proof fn lemma_arch_names_differ(a: usize, b: usize)
    requires
        a != b,
    ensures
        arch_name_spec(a) != arch_name_spec(b),
{
    if arch_name_spec(a) == arch_name_spec(b) {
        let head = "arch_"@;
        assert(arch_name_spec(a).skip(head.len() as int) =~= decimal(a as nat));
        assert(arch_name_spec(b).skip(head.len() as int) =~= decimal(b as nat));
        crate::binary_archive::world_snapshot::zip_snapshot::lemma_decimal_digits(a as nat);
        crate::binary_archive::world_snapshot::zip_snapshot::lemma_decimal_digits(b as nat);
    }
}

/// A copy of a list of names.
pub fn copy_names(names: &Vec<String>) -> (out: Vec<String>)
    ensures
        out.deep_view() == names.deep_view(),
{
    let mut out: Vec<String> = Vec::new();
    let mut i: usize = 0;
    while i < names.len()
        invariant
            i <= names.len(),
            out@.len() == i,
            forall|k: int| 0 <= k < i ==> (#[trigger] out@[k])@ == names@[k]@,
        decreases names.len() - i,
    {
        out.push(names[i].clone());
        i += 1;
    }
    assert(out.deep_view() =~= names.deep_view());
    out
}

/// An archetype that is to be listed in a manifest: its index in the world,
/// the names of its component types, its rows, and its Parquet form where
/// the caller has made one.
#[derive(Debug)]
pub struct GuidedArchetype {
    pub index: usize,
    pub components: Vec<String>,
    pub snapshot: ArchetypeSnapshot,
    pub parquet: Option<Vec<u8>>,
}

/// The entries that a guided manifest lists for the first `n` archetypes:
/// one for each archetype that has a row, with the source that the strategy
/// of its index gives.
pub open spec fn guided_specs(
    archetypes: Seq<GuidedArchetype>,
    guidance: ExportGuidance,
    n: int,
) -> Seq<ArchetypeSpecModel>
    decreases n,
{
    if n <= 0 {
        Seq::empty()
    } else if archetypes[n - 1].snapshot@.entities.len() == 0 {
        guided_specs(archetypes, guidance, n - 1)
    } else {
        guided_specs(archetypes, guidance, n - 1).push(
            ArchetypeSpecModel {
                name: Some(arch_name_spec(archetypes[n - 1].index)),
                components: archetypes[n - 1].components.deep_view(),
                storage: None,
                source: source_of(
                    archetypes[n - 1].index,
                    guidance.strategy_of(archetypes[n - 1].index),
                ),
            },
        )
    }
}

/// The bytes under which an archetype is written out by a strategy: its
/// Parquet form where the strategy asks for Parquet, and else the form of
/// its rows in the format of the strategy.
pub open spec fn guided_bytes(a: GuidedArchetype, strategy: OutputStrategy) -> Option<Seq<u8>> {
    match strategy.format_spec() {
        ExportFormat::Parquet => match a.parquet {
            Some(bytes) => Some(bytes@),
            None => None,
        },
        format => arch_bytes(a.snapshot@, format),
    }
}

/// Whether each of the first `n` archetypes that has a row can be written
/// out as the guidance says: it has the bytes, and they are text where they
/// are to be embedded as text.
pub open spec fn guided_ok(archetypes: Seq<GuidedArchetype>, guidance: ExportGuidance, n: int) -> bool
    decreases n,
{
    n <= 0 || (guided_ok(archetypes, guidance, n - 1) && (archetypes[n - 1].snapshot@.entities.len()
        == 0 || {
        let strategy = guidance.strategy_of(archetypes[n - 1].index);
        &&& guided_bytes(archetypes[n - 1], strategy) matches Some(bytes)
        &&& !(strategy matches OutputStrategy::Embed(f) && f.is_text() && !valid_utf8(bytes))
    }))
}

/// What cannot be written out up to some archetype cannot be written out at
/// all.
pub proof fn lemma_guided_prefix(
    archetypes: Seq<GuidedArchetype>,
    guidance: ExportGuidance,
    k: int,
    n: int,
)
    requires
        0 <= k <= n,
        !guided_ok(archetypes, guidance, k),
    ensures
        !guided_ok(archetypes, guidance, n),
    decreases n - k,
{
    if k < n {
        lemma_guided_prefix(archetypes, guidance, k, n - 1);
    }
}

/// A listed archetype once it is fetched and read: its rows, or its typed
/// columns, still as Parquet.
#[derive(Debug)]
pub enum LoadedArchetype {
    Rows(ArchetypeSnapshot),
    Columns(Vec<u8>),
}

/// The mathematical value of a [`LoadedArchetype`].
pub enum LoadedModel {
    Rows(ArchetypeModel),
    Columns(Seq<u8>),
}

impl View for LoadedArchetype {
    type V = LoadedModel;

    open spec fn view(&self) -> LoadedModel {
        match self {
            LoadedArchetype::Rows(s) => LoadedModel::Rows(s@),
            LoadedArchetype::Columns(b) => LoadedModel::Columns(b@),
        }
    }
}

/// What a read blob is to a loader: typed columns stay as they are, and
/// anything else becomes the archetype snapshot that it stands for.
pub open spec fn loaded_of_internal(
    parsed: InternalModel,
    storage: Option<Seq<StorageTypeFlag>>,
) -> Option<LoadedModel> {
    match parsed {
        InternalModel::ArrowComponentTable(table) => Some(LoadedModel::Columns(table)),
        _ => match snapshot_of_internal(parsed, storage) {
            Some(m) => Some(LoadedModel::Rows(m)),
            None => None,
        },
    }
}

/// What bytes of a format are to a loader, with the storage hints of the
/// manifest.
pub open spec fn loaded_of_bytes(
    format: AuroraFormat,
    bytes: Seq<u8>,
    storage: Option<Seq<StorageTypeFlag>>,
) -> Option<LoadedModel> {
    match parsed_blob(format, bytes) {
        Some(parsed) => loaded_of_internal(parsed, storage),
        None => None,
    }
}

/// What the manifest itself holds for a listed archetype, to a loader: what
/// the embedded blob that its source names is. There is nothing where the
/// source names a file or is of no known kind, where the manifest has no
/// such blob, or where the blob cannot be read.
pub open spec fn embedded_loaded(spec: ArchetypeSpecModel, embed: NameMap<EmbeddedBlob>) -> Option<
    LoadedModel,
> {
    match location_of(spec.source) {
        LocationModel::Embed(name) => match embed.lookup(name) {
            Some(blob) => match embedded_bytes(format_of_name(blob.format@), blob.data@) {
                Some(bytes) => loaded_of_bytes(format_of_name(blob.format@), bytes, spec.storage),
                None => None,
            },
            None => None,
        },
        _ => None,
    }
}

/// Whether the manifest itself holds a listed archetype in a blob that a
/// loader can read.
pub open spec fn loadable_within(spec: ArchetypeSpecModel, embed: NameMap<EmbeddedBlob>) -> bool {
    embedded_loaded(spec, embed) is Some
}

/// Whether `item` is what the source of a listed archetype gives a loader.
/// For a source in the manifest it is what the embedded blob is. For a file
/// it is what some bytes in the format of the path's ending are: which
/// bytes, the loader decides.
pub open spec fn loads_to(
    spec: ArchetypeSpecModel,
    embed: NameMap<EmbeddedBlob>,
    item: LoadedModel,
) -> bool {
    match location_of(spec.source) {
        LocationModel::File(path) => exists|bytes: Seq<u8>| #[trigger]
            loaded_of_bytes(format_of_path(path), bytes, spec.storage) == Some(item),
        _ => embedded_loaded(spec, embed) == Some(item),
    }
}

/// What becomes of the answer of a loader when a manifest is loaded: the
/// blob, with the format that the ending of its path stands for, or the
/// loader's own reason.
pub fn listed_blob_from_file(path: &str, read: Result<Vec<u8>, String>) -> (r: Result<
    LoadedBlob,
    String,
>)
    ensures
        match read {
            Ok(bytes) => r matches Ok(blob) && blob.format == format_of_path(path@) && blob.bytes@
                == bytes@,
            Err(reason) => r matches Err(msg) && msg@ == reason@,
        },
{
    match read {
        Ok(bytes) => Ok(LoadedBlob { format: AuroraFormat::from_path(path), bytes }),
        Err(reason) => Err(reason),
    }
}

/// Fetches the blob of a listed archetype when a manifest is loaded: an
/// embedded one from the manifest, one in a file through the loader at the
/// path as it is written. A location of any other kind is refused.
pub fn load_listed_blob<L: BlobLoader>(
    loc: &AuroraLocation,
    embed_map: &NameMap<EmbeddedBlob>,
    loader: &mut L,
) -> (r: Result<LoadedBlob, String>)
    requires
        embed_map.wf(),
    ensures
        match loc@ {
            LocationModel::Unknown(source) => r matches Err(msg) && msg@ == "Unknown location: "@
                + source,
            LocationModel::Embed(name) => match embed_map.lookup(name) {
                None => r matches Err(msg) && msg@ == "Embedded blob '"@ + name
                    + "' not found in manifest."@,
                Some(blob) => match embedded_bytes(format_of_name(blob.format@), blob.data@) {
                    Some(bytes) => r matches Ok(b) && b.format == format_of_name(blob.format@)
                        && b.bytes@ == bytes,
                    None => r matches Err(msg) && "Base64 decode failed: "@.is_prefix_of(msg@),
                },
            },
            LocationModel::File(path) => r matches Ok(blob) ==> blob.format == format_of_path(path),
        },
{
    match loc {
        AuroraLocation::File(path) => {
            let read = loader.load_blob(path.as_str());
            listed_blob_from_file(path.as_str(), read)
        },
        AuroraLocation::Embed(name) => {
            if embed_map.get(name.as_str()).is_none() {
                let mut msg = String::from_str("Embedded blob '");
                msg.append(name.as_str());
                msg.append("' not found in manifest.");
                return Err(msg);
            }
            load_embedded_blob(name.as_str(), embed_map)
        },
        AuroraLocation::Unknown(source) => {
            let mut msg = String::from_str("Unknown location: ");
            msg.append(source.as_str());
            Err(msg)
        },
    }
}

/// What a read blob is to a loader.
pub fn into_loaded(parsed: AuroraInternalFormat, storage: &Option<Vec<StorageTypeFlag>>) -> (r:
    Result<LoadedArchetype, String>)
    ensures
        match loaded_of_internal(
            parsed@,
            match *storage {
                Some(flags) => Some(flags@),
                None => None,
            },
        ) {
            Some(m) => r matches Ok(x) && x@ == m,
            None => r is Err,
        },
{
    match parsed {
        AuroraInternalFormat::ArrowComponentTable(table) => Ok(LoadedArchetype::Columns(table)),
        other => match into_snapshot(other, storage) {
            Ok(snapshot) => Ok(LoadedArchetype::Rows(snapshot)),
            Err(reason) => Err(reason),
        },
    }
}

impl WorldWithAurora {
    /// Fetches and reads every archetype that the manifest lists, for a
    /// loader that is to put them into a world. One archetype that cannot be
    /// fetched or read fails the whole. Where the manifest itself holds every
    /// archetype in a blob that can be read, the list is given; a file is
    /// asked of the loader.
    pub fn load_archetypes<L: BlobLoader>(&self, loader: &mut L) -> (r: Result<
        Vec<LoadedArchetype>,
        String,
    >)
        requires
            self.wf(),
        ensures
            r matches Ok(items) ==> {
                &&& items@.len() == self.archetypes@.len()
                &&& forall|k: int|
                    0 <= k < self.archetypes@.len() ==> loads_to(
                        self.archetypes@[k].deep_view(),
                        self.embed,
                        (#[trigger] items@[k])@,
                    )
            },
            (forall|k: int|
                0 <= k < self.archetypes@.len() ==> loadable_within(
                    (#[trigger] self.archetypes@[k]).deep_view(),
                    self.embed,
                )) ==> r is Ok,
    {
        let mut items: Vec<LoadedArchetype> = Vec::new();
        let mut i: usize = 0;
        while i < self.archetypes.len()
            invariant
                self.wf(),
                i <= self.archetypes.len(),
                items@.len() == i,
                forall|k: int|
                    0 <= k < i ==> loads_to(
                        self.archetypes@[k].deep_view(),
                        self.embed,
                        (#[trigger] items@[k])@,
                    ),
            decreases self.archetypes.len() - i,
        {
            let spec = &self.archetypes[i];
            let ghost model = spec.deep_view();
            let loc = AuroraLocation::parse(spec.source.0.as_str());
            let blob = match load_listed_blob(&loc, &self.embed, loader) {
                Ok(blob) => blob,
                Err(reason) => {
                    assert(!loadable_within(self.archetypes@[i as int].deep_view(), self.embed));
                    return Err(reason);
                },
            };
            let parsed = match parse_blob(&blob) {
                Ok(parsed) => parsed,
                Err(reason) => {
                    assert(!loadable_within(self.archetypes@[i as int].deep_view(), self.embed));
                    return Err(reason);
                },
            };
            let item = match into_loaded(parsed, &spec.storage) {
                Ok(item) => item,
                Err(reason) => {
                    assert(!loadable_within(self.archetypes@[i as int].deep_view(), self.embed));
                    return Err(reason);
                },
            };
            proof {
                assert(loaded_of_bytes(blob.format, blob.bytes@, model.storage) == Some(item@));
                assert(loads_to(model, self.embed, item@));
            }
            items.push(item);
            i += 1;
        }
        Ok(items)
    }
}

/// The blob that a guided manifest holds under `name` after the first `n`
/// archetypes, as the name of its format and its text: that of the last
/// archetype with a row that is embedded under that name.
pub open spec fn guided_embed(
    archetypes: Seq<GuidedArchetype>,
    guidance: ExportGuidance,
    n: int,
    name: Seq<char>,
) -> Option<(Seq<char>, Seq<char>)>
    decreases n,
{
    if n <= 0 {
        None
    } else {
        let a = archetypes[n - 1];
        let earlier = guided_embed(archetypes, guidance, n - 1, name);
        if a.snapshot@.entities.len() == 0 || name != arch_name_spec(a.index) {
            earlier
        } else {
            match guidance.strategy_of(a.index) {
                OutputStrategy::Embed(f) => match guided_bytes(a, OutputStrategy::Embed(f)) {
                    Some(bytes) => Some((f.extension_spec(), embedded_text(f, bytes))),
                    None => earlier,
                },
                _ => earlier,
            }
        }
    }
}

/// The payload that a guided manifest holds under `path` after the first
/// `n` archetypes: the bytes of the last archetype with a row that is
/// returned under that path.
pub open spec fn guided_payload(
    archetypes: Seq<GuidedArchetype>,
    guidance: ExportGuidance,
    n: int,
    path: Seq<char>,
) -> Option<Seq<u8>>
    decreases n,
{
    if n <= 0 {
        None
    } else {
        let a = archetypes[n - 1];
        let earlier = guided_payload(archetypes, guidance, n - 1, path);
        if a.snapshot@.entities.len() == 0 {
            earlier
        } else {
            match guidance.strategy_of(a.index) {
                OutputStrategy::Return(f, dir) => if path == virtual_path(
                    dir@,
                    arch_file_name(a.index, f),
                ) {
                    match guided_bytes(a, OutputStrategy::Return(f, dir)) {
                        Some(bytes) => Some(bytes),
                        None => earlier,
                    }
                } else {
                    earlier
                },
                _ => earlier,
            }
        }
    }
}

/// The files that are handed back for the first `n` archetypes, each as its
/// path and its bytes: one for each archetype with a row that goes to a
/// file, in their order.
pub open spec fn guided_files(
    archetypes: Seq<GuidedArchetype>,
    guidance: ExportGuidance,
    n: int,
) -> Seq<(Seq<char>, Seq<u8>)>
    decreases n,
{
    if n <= 0 {
        Seq::empty()
    } else {
        let a = archetypes[n - 1];
        let earlier = guided_files(archetypes, guidance, n - 1);
        if a.snapshot@.entities.len() == 0 {
            earlier
        } else {
            match guidance.strategy_of(a.index) {
                OutputStrategy::File(f, dir) => match guided_bytes(a, OutputStrategy::File(f, dir)) {
                    Some(bytes) => earlier.push(
                        (resolved_path(dir@, arch_file_name(a.index, f)), bytes),
                    ),
                    None => earlier,
                },
                _ => earlier,
            }
        }
    }
}

/// The files of a list, each as its path and its bytes.
pub open spec fn files_model(files: Seq<FileWrite>) -> Seq<(Seq<char>, Seq<u8>)> {
    Seq::new(files.len(), |i: int| (files[i].path@, files[i].bytes@))
}

/// Whether a table of blobs has under `name` the blob `want`, and nothing
/// where there is none.
pub open spec fn embed_holds(
    embed: NameMap<EmbeddedBlob>,
    want: Option<(Seq<char>, Seq<char>)>,
    name: Seq<char>,
) -> bool {
    match want {
        Some(blob) => embed.lookup(name) matches Some(x) && (x.format@, x.data@) == blob,
        None => embed.lookup(name) is None,
    }
}

/// Whether a table of payloads has under `path` the bytes `want`, and
/// nothing where there are none.
pub open spec fn payload_holds(
    payloads: NameMap<Vec<u8>>,
    want: Option<Seq<u8>>,
    path: Seq<char>,
) -> bool {
    match want {
        Some(bytes) => payloads.lookup(path) matches Some(x) && x@ == bytes,
        None => payloads.lookup(path) is None,
    }
}

/// Whether `world` and `files` are what the guidance makes of the first `n`
/// archetypes: the entries of the archetypes with a row, each blob where its
/// strategy puts it, and nothing else in either table.
pub open spec fn guided_result(
    world: WorldWithAurora,
    files: Seq<FileWrite>,
    archetypes: Seq<GuidedArchetype>,
    guidance: ExportGuidance,
    n: int,
) -> bool {
    &&& world.wf()
    &&& world.version@ == "0.1"@
    &&& world.name is None
    &&& world.resources.names().len() == 0
    &&& world.archetypes.deep_view() == guided_specs(archetypes, guidance, n)
    &&& forall|name: Seq<char>| #[trigger]
        embed_holds(world.embed, guided_embed(archetypes, guidance, n, name), name)
    &&& forall|path: Seq<char>| #[trigger]
        payload_holds(world.external_payloads, guided_payload(archetypes, guidance, n, path), path)
    &&& files_model(files) == guided_files(archetypes, guidance, n)
}

impl WorldWithAurora {
    /// The manifest of the given archetypes, each written out as the
    /// guidance says for its index: into the manifest, into the side table of
    /// payloads, or into a file, which is handed back for the caller to
    /// write. An archetype without a row is passed over. An archetype that is
    /// to be Parquet has to come with its Parquet form. Of two archetypes
    /// that go to one place the later one stands.
    pub fn from_guided(archetypes: &Vec<GuidedArchetype>, guidance: &ExportGuidance) -> (r: Result<
        (WorldWithAurora, Vec<FileWrite>),
        String,
    >)
        requires
            forall|a: int|
                0 <= a < archetypes@.len() ==> (#[trigger] archetypes@[a]).snapshot@.columns_aligned(),
        ensures
            r is Ok <==> guided_ok(archetypes@, *guidance, archetypes@.len() as int),
            r matches Ok(pair) ==> guided_result(
                pair.0,
                pair.1@,
                archetypes@,
                *guidance,
                archetypes@.len() as int,
            ),
    {
        let mut out = WorldWithAurora::new();
        let mut files: Vec<FileWrite> = Vec::new();
        let mut i: usize = 0;
        proof {
            assert(out.archetypes.deep_view() =~= Seq::empty());
            assert(files_model(files@) =~= Seq::empty());
            assert forall|name: Seq<char>| out.embed.lookup(name) is None by {
                assert(!out.embed.names().contains(name));
            }
            assert forall|path: Seq<char>| out.external_payloads.lookup(path) is None by {
                assert(!out.external_payloads.names().contains(path));
            }
        }
        while i < archetypes.len()
            invariant
                forall|a: int|
                    0 <= a < archetypes@.len() ==> (
                    #[trigger] archetypes@[a]).snapshot@.columns_aligned(),
                i <= archetypes.len(),
                guided_ok(archetypes@, *guidance, i as int),
                guided_result(out, files@, archetypes@, *guidance, i as int),
            decreases archetypes.len() - i,
        {
            let arch = &archetypes[i];
            let ghost before = out;
            let ghost files_before = files@;
            if !arch.snapshot.is_empty() {
                let strategy = guidance.get_strategy(arch.index);
                let format = strategy.format();
                let bytes = match format {
                    ExportFormat::Parquet => match &arch.parquet {
                        Some(bytes) => crate::binary_archive::world_snapshot::zip_snapshot::copy_bytes(
                            bytes,
                        ),
                        None => {
                            proof {
                                assert(!guided_ok(archetypes@, *guidance, i + 1));
                                lemma_guided_prefix(
                                    archetypes@,
                                    *guidance,
                                    i + 1,
                                    archetypes@.len() as int,
                                );
                            }
                            return Err(String::from_str("Parquet data is missing"));
                        },
                    },
                    _ => match serialize_arch_data(&arch.snapshot, format) {
                        Ok(bytes) => bytes,
                        Err(reason) => {
                            proof {
                                assert(!guided_ok(archetypes@, *guidance, i + 1));
                                lemma_guided_prefix(
                                    archetypes@,
                                    *guidance,
                                    i + 1,
                                    archetypes@.len() as int,
                                );
                            }
                            return Err(reason);
                        },
                    },
                };
                assert(guided_bytes(*arch, strategy) == Some(bytes@));
                let components = copy_names(&arch.components);
                match out.place_archetype(arch.index, components, &strategy, bytes) {
                    Ok(Some(file)) => {
                        files.push(file);
                        assert(files_model(files@) =~= files_model(files_before).push(
                            (file.path@, file.bytes@),
                        ));
                    },
                    Ok(None) => {},
                    Err(reason) => {
                        proof {
                            assert(!guided_ok(archetypes@, *guidance, i + 1));
                            lemma_guided_prefix(
                                archetypes@,
                                *guidance,
                                i + 1,
                                archetypes@.len() as int,
                            );
                        }
                        return Err(reason);
                    },
                }
            }
            proof {
                assert forall|name: Seq<char>| #[trigger]
                    embed_holds(
                        out.embed,
                        guided_embed(archetypes@, *guidance, i + 1, name),
                        name,
                    ) by {
                    assert(embed_holds(
                        before.embed,
                        guided_embed(archetypes@, *guidance, i as int, name),
                        name,
                    ));
                }
                assert forall|path: Seq<char>| #[trigger]
                    payload_holds(
                        out.external_payloads,
                        guided_payload(archetypes@, *guidance, i + 1, path),
                        path,
                    ) by {
                    assert(payload_holds(
                        before.external_payloads,
                        guided_payload(archetypes@, *guidance, i as int, path),
                        path,
                    ));
                }
            }
            i += 1;
        }
        Ok((out, files))
    }
}

} // verus!
