//! Archives of game assets: their kinds, the entries of a GRF file table, the
//! header of a GRF file, and the paths that archives store assets under.

use vstd::prelude::*;

use std::collections::HashMap;

use crate::gamefile::{extension_chars, file_extension, is_portable, path_extension};
use crate::text::{chars_of, push_char};

verus! {

/// One entry of the file table of a GRF archive.
pub struct FileTableRow {
    pub file_name: String,
    pub compressed_size: u32,
    pub compressed_size_aligned: u32,
    pub uncompressed_size: u32,
    pub flags: u8,
    pub offset: u32,
}

/// Where game assets are kept.
#[derive(Clone, Copy, Debug, PartialEq, Eq, Structural)]
pub enum ArchiveType {
    Folder,
    Native,
    SevenZip,
}

/// Type of compression to apply.
#[derive(Debug, Copy, Clone, Ord, PartialOrd, Eq, PartialEq, Structural)]
pub enum Compression {
    /// No compression.
    No,
    /// Slow compression allowed.
    Slow,
    /// Fast compression requested.
    Fast,
}

/// A common trait to all writable archives.
pub trait Writable {
    /// Adds an asset under `path`, to be compressed as `compression` asks.
    fn add_file(&mut self, path: &str, asset_data: Vec<u8>, compression: Compression);
}

/// The version of the GRF format that is read.
pub const GRF_VERSION: u32 = 0x200;

/// The size of a GRF header in bytes.
pub const HEADER_SIZE: usize = 30;

/// The header of a GRF file.
#[derive(Clone, Copy, Debug, PartialEq, Eq)]
pub struct Header {
    pub encryption: [u8; 14],
    pub file_table_offset: u32,
    pub reserved_files: u32,
    pub file_count: u32,
    pub version: u32,
}

/// The little-endian number in the four bytes of `bytes` at `at`.
pub open spec fn le_u32(bytes: Seq<u8>, at: int) -> u32 {
    (bytes[at] + 256 * bytes[at + 1] + 65536 * bytes[at + 2] + 16777216 * bytes[at + 3]) as u32
}

/// The four little-endian bytes of `v`.
pub open spec fn le_bytes(v: u32) -> Seq<u8> {
    seq![(v % 256) as u8, ((v / 256) % 256) as u8, ((v / 65536) % 256) as u8, (v / 16777216) as u8]
}

/// The bytes of a header: the encryption bytes, then the file table offset,
/// the number of reserved files, the file count and the version, each as a
/// little-endian `u32`.
pub open spec fn header_bytes(header: Header) -> Seq<u8> {
    header.encryption@ + le_bytes(header.file_table_offset) + le_bytes(header.reserved_files)
        + le_bytes(header.file_count) + le_bytes(header.version)
}

/// The header that the first bytes of `bytes` hold.
pub open spec fn parsed_header(bytes: Seq<u8>) -> Header {
    Header {
        encryption: choose|e: [u8; 14]| e@ == bytes.take(14),
        file_table_offset: le_u32(bytes, 14),
        reserved_files: le_u32(bytes, 18),
        file_count: le_u32(bytes, 22),
        version: le_u32(bytes, 26),
    }
}

pub(crate) fn read_le_u32(bytes: &[u8], at: usize) -> (v: u32)
    requires
        at + 4 <= bytes.len(),
    ensures
        v == le_u32(bytes@, at as int),
{
    bytes[at] as u32 + 256 * (bytes[at + 1] as u32) + 65536 * (bytes[at + 2] as u32) + 16777216 * (
    bytes[at + 3] as u32)
}

pub(crate) fn write_le_u32(out: &mut Vec<u8>, v: u32)
    ensures
        final(out)@ == old(out)@ + le_bytes(v),
{
    out.push((v % 256) as u8);
    out.push(((v / 256) % 256) as u8);
    out.push(((v / 65536) % 256) as u8);
    out.push((v / 16777216) as u8);
    assert(final(out)@ =~= old(out)@ + le_bytes(v));
}

proof fn lemma_le_round_trip(v: u32)
    ensures
        le_u32(le_bytes(v), 0) == v,
{
    let b = le_bytes(v);
    assert(b[0] + 256 * b[1] + 65536 * b[2] + 16777216 * b[3] == v) by (nonlinear_arith)
        requires
            b[0] == v % 256,
            b[1] == (v / 256) % 256,
            b[2] == (v / 65536) % 256,
            b[3] == v / 16777216,
    ;
}

impl Header {
    /// A header with zeroed encryption bytes.
    pub fn new(file_table_offset: u32, reserved_files: u32, file_count: u32, version: u32) -> (header: Self)
        ensures
            header.encryption@ == Seq::new(14, |i: int| 0u8),
            header.file_table_offset == file_table_offset,
            header.reserved_files == reserved_files,
            header.file_count == file_count,
            header.version == version,
    {
        let header = Header { encryption: [0u8; 14], file_table_offset, reserved_files, file_count, version };
        assert(header.encryption@ =~= Seq::new(14, |i: int| 0u8));
        header
    }

    /// Checks the version of the format; the client reads version `0x200`
    /// only and stops on any other.
    pub fn validate_version(&self)
        requires
            self.version == GRF_VERSION,
    {
    }

    /// Where the file table starts, counted from the end of the header.
    pub fn get_file_table_offset(&self) -> (offset: usize)
        ensures
            offset == self.file_table_offset,
    {
        self.file_table_offset as usize
    }

    /// The number of files in the archive: the raw count less the reserved
    /// entries and the seven that the format always adds.
    pub fn get_file_count(&self) -> (count: usize)
        requires
            self.reserved_files + 7 <= self.file_count,
        ensures
            count == self.file_count - self.reserved_files - 7,
    {
        (self.file_count - self.reserved_files) as usize - 7
    }

    /// Reads a header from the first `HEADER_SIZE` bytes of `bytes`; `None`
    /// where there are fewer.
    pub fn from_bytes(bytes: &[u8]) -> (header: Option<Self>)
        ensures
            bytes.len() < HEADER_SIZE ==> header is None,
            bytes.len() >= HEADER_SIZE ==> header == Some(parsed_header(bytes@)),
    {
        if bytes.len() < HEADER_SIZE {
            return None;
        }
        let mut encryption = [0u8; 14];
        let mut i: usize = 0;
        while i < 14
            invariant
                14 <= bytes.len(),
                i <= 14,
                forall|k: int| 0 <= k < i ==> encryption@[k] == bytes@[k],
            decreases 14 - i,
        {
            encryption[i] = bytes[i];
            i = i + 1;
        }
        assert(encryption@ =~= bytes@.take(14));
        let header = Header {
            encryption,
            file_table_offset: read_le_u32(bytes, 14),
            reserved_files: read_le_u32(bytes, 18),
            file_count: read_le_u32(bytes, 22),
            version: read_le_u32(bytes, 26),
        };
        proof {
            let chosen = choose|e: [u8; 14]| e@ == bytes@.take(14);
            assert(chosen@ == encryption@);
            assert(chosen@ =~= encryption@);
            assert(chosen == encryption);
        }
        Some(header)
    }

    /// The bytes of the header, as `from_bytes` reads them.
    pub fn to_bytes(&self) -> (bytes: Vec<u8>)
        ensures
            bytes@ == header_bytes(*self),
    {
        let mut bytes: Vec<u8> = Vec::new();
        let mut i: usize = 0;
        while i < 14
            invariant
                i <= 14,
                bytes@ == self.encryption@.take(i as int),
            decreases 14 - i,
        {
            bytes.push(self.encryption[i]);
            assert(self.encryption@.take(i as int).push(self.encryption@[i as int]) =~= self.encryption@.take(i + 1));
            i = i + 1;
        }
        assert(self.encryption@.take(14) =~= self.encryption@);
        write_le_u32(&mut bytes, self.file_table_offset);
        write_le_u32(&mut bytes, self.reserved_files);
        write_le_u32(&mut bytes, self.file_count);
        write_le_u32(&mut bytes, self.version);
        bytes
    }
}

pub(crate) proof fn lemma_le_at(bytes: Seq<u8>, at: int, v: u32)
    requires
        0 <= at,
        at + 4 <= bytes.len(),
        bytes.subrange(at, at + 4) == le_bytes(v),
    ensures
        le_u32(bytes, at) == v,
{
    lemma_le_round_trip(v);
    let b = le_bytes(v);
    assert(bytes[at] == b[0] && bytes[at + 1] == b[1] && bytes[at + 2] == b[2] && bytes[at + 3] == b[3]) by {
        assert(bytes.subrange(at, at + 4)[0] == bytes[at]);
        assert(bytes.subrange(at, at + 4)[1] == bytes[at + 1]);
        assert(bytes.subrange(at, at + 4)[2] == bytes[at + 2]);
        assert(bytes.subrange(at, at + 4)[3] == bytes[at + 3]);
    }
}

/// A header read back from its bytes is the header that was written.
pub proof fn lemma_header_round_trip(header: Header)
    ensures
        header_bytes(header).len() == HEADER_SIZE,
        parsed_header(header_bytes(header)) == header,
{
    let b = header_bytes(header);
    assert(b.subrange(14, 18) =~= le_bytes(header.file_table_offset));
    assert(b.subrange(18, 22) =~= le_bytes(header.reserved_files));
    assert(b.subrange(22, 26) =~= le_bytes(header.file_count));
    assert(b.subrange(26, 30) =~= le_bytes(header.version));
    lemma_le_at(b, 14, header.file_table_offset);
    lemma_le_at(b, 18, header.reserved_files);
    lemma_le_at(b, 22, header.file_count);
    lemma_le_at(b, 26, header.version);
    assert(b.take(14) =~= header.encryption@);
    let chosen = choose|e: [u8; 14]| e@ == b.take(14);
    assert(chosen@ =~= header.encryption@);
    assert(chosen == header.encryption);
}

/// The number that the four bytes of `bytes` from `at` on spell, lowest byte
/// first.
pub open spec fn little_endian_at(bytes: Seq<u8>, at: int) -> int {
    bytes[at] + 256 * bytes[at + 1] + 65536 * bytes[at + 2] + 16777216 * bytes[at + 3]
}

/// Where a header keeps its fields: the 14 encryption bytes first, then,
/// each as four bytes with the lowest first, the file table offset at byte
/// 14, the number of reserved files at byte 18, the file count at byte 22
/// and the version at byte 26. Reading takes the fields from there, and
/// writing puts them there.
pub proof fn lemma_header_layout(bytes: Seq<u8>, header: Header)
    requires
        bytes.len() >= HEADER_SIZE,
    ensures
        parsed_header(bytes).encryption@ == bytes.take(14),
        parsed_header(bytes).file_table_offset as int == little_endian_at(bytes, 14),
        parsed_header(bytes).reserved_files as int == little_endian_at(bytes, 18),
        parsed_header(bytes).file_count as int == little_endian_at(bytes, 22),
        parsed_header(bytes).version as int == little_endian_at(bytes, 26),
        header_bytes(header).len() == HEADER_SIZE,
        header_bytes(header).take(14) == header.encryption@,
        little_endian_at(header_bytes(header), 14) == header.file_table_offset as int,
        little_endian_at(header_bytes(header), 18) == header.reserved_files as int,
        little_endian_at(header_bytes(header), 22) == header.file_count as int,
        little_endian_at(header_bytes(header), 26) == header.version as int,
{
    let e: [u8; 14] = [bytes[0], bytes[1], bytes[2], bytes[3], bytes[4], bytes[5], bytes[6], bytes[7], bytes[8], bytes[9], bytes[10], bytes[11], bytes[12], bytes[13]];
    assert(e@ =~= bytes.take(14));
    lemma_header_round_trip(header);
    let b = header_bytes(header);
    assert(b.take(14) =~= header.encryption@);
    assert(b.subrange(14, 18) =~= le_bytes(header.file_table_offset));
    assert(b.subrange(18, 22) =~= le_bytes(header.reserved_files));
    assert(b.subrange(22, 26) =~= le_bytes(header.file_count));
    assert(b.subrange(26, 30) =~= le_bytes(header.version));
    lemma_le_at(b, 14, header.file_table_offset);
    lemma_le_at(b, 18, header.reserved_files);
    lemma_le_at(b, 22, header.file_count);
    lemma_le_at(b, 26, header.version);
}

/// The path with each backslash, the separator of archive paths, turned into a
/// slash.
pub open spec fn slashed(path: Seq<char>) -> Seq<char> {
    path.map_values(|c: char| if c == '\\' { '/' } else { c })
}

/// The archive path as the operating system with the given separator reads
/// it: unchanged where backslashes separate, slashed elsewhere.
pub open spec fn os_path(path: Seq<char>, separator: char) -> Seq<char> {
    if separator == '\\' {
        path
    } else {
        slashed(path)
    }
}

/// `std::path::MAIN_SEPARATOR`, the separator of path components on this
/// machine. Its documentation names `/` on Unix and `\\` on Windows; the
/// contract says only that it is one of the two.
#[verifier::external_body]
fn main_separator() -> (separator: char)
    ensures
        separator == '/' || separator == '\\',
{
    std::path::MAIN_SEPARATOR
}

/// Converts an archive path to the path of an operating system whose
/// separator is `separator`: backslashes are kept where the system separates
/// with them and become slashes elsewhere.
pub fn path_for_separator(path: &str, separator: char) -> (converted: String)
    ensures
        converted@ == os_path(path@, separator),
{
    if separator == '\\' {
        return path.to_owned();
    }
    let chars = chars_of(path);
    let mut converted = String::new();
    let mut i: usize = 0;
    while i < chars.len()
        invariant
            chars@ == path@,
            i <= chars.len(),
            converted@ == slashed(path@.take(i as int)),
        decreases chars.len() - i,
    {
        let c = chars[i];
        push_char(&mut converted, if c == '\\' { '/' } else { c });
        assert(slashed(path@.take(i as int)).push(if c == '\\' { '/' } else { c }) =~= slashed(
            path@.take(i + 1),
        ));
        i = i + 1;
    }
    assert(path@.take(i as int) =~= path@);
    converted
}

/// Converts an archive path to the path of the operating system this runs
/// on: unchanged on a system that separates with backslashes, with each
/// backslash turned into a slash on any other.
pub fn os_specific_path(path: &str) -> (converted: String)
    ensures
        exists|separator: char|
            (separator == '/' || separator == '\\') && converted@ == #[trigger] os_path(
                path@,
                separator,
            ),
{
    let separator = main_separator();
    let converted = path_for_separator(path, separator);
    assert(converted@ == os_path(path@, separator));
    converted
}

/// The parent directories of a slash-separated path, outermost first: the
/// part before each slash, where it is not empty.
pub open spec fn parent_directories(path: Seq<char>, from: int) -> Seq<Seq<char>>
    decreases path.len() - from,
{
    if from < 0 || from >= path.len() {
        Seq::empty()
    } else {
        let here = if path[from] == '/' && from > 0 {
            seq![path.take(from)]
        } else {
            Seq::empty()
        };
        here + parent_directories(path, from + 1)
    }
}

/// The parent directories of an asset path, outermost first.
pub fn get_parent_directories(asset_path: &str) -> (directories: Vec<String>)
    ensures
        directories@.map_values(|d: String| d@) == parent_directories(asset_path@, 0),
{
    let chars = chars_of(asset_path);
    let mut directories: Vec<String> = Vec::new();
    let mut prefix = String::new();
    let mut i: usize = 0;
    while i < chars.len()
        invariant
            chars@ == asset_path@,
            i <= chars.len(),
            prefix@ == asset_path@.take(i as int),
            directories@.map_values(|d: String| d@) + parent_directories(asset_path@, i as int)
                == parent_directories(asset_path@, 0),
        decreases chars.len() - i,
    {
        let c = chars[i];
        let ghost before = directories@.map_values(|d: String| d@);
        if c == '/' && i > 0 {
            directories.push(prefix.clone());
            assert(directories@.map_values(|d: String| d@) =~= before.push(asset_path@.take(i as int)));
            assert(before + parent_directories(asset_path@, i as int) =~= directories@.map_values(
                |d: String| d@,
            ) + parent_directories(asset_path@, i + 1));
        } else {
            assert(before + parent_directories(asset_path@, i as int) =~= before
                + parent_directories(asset_path@, i + 1));
        }
        push_char(&mut prefix, c);
        assert(asset_path@.take(i as int).push(c) =~= asset_path@.take(i + 1));
        i = i + 1;
    }
    assert(directories@.map_values(|d: String| d@) + parent_directories(asset_path@, i as int)
        =~= directories@.map_values(|d: String| d@));
    directories
}

/// What `str::to_lowercase` makes of `s`: each character replaced by its
/// lowercase mapping.
pub uninterp spec fn lowercased(s: Seq<char>) -> Seq<char>;

/// Lowercases `s` with `str::to_lowercase`; the result is claimed to be
/// `lowercased` of the string, and nothing is claimed of what that is.
#[verifier::external_body]
pub(crate) fn to_lowercase(s: &str) -> (lower: String)
    ensures
        lower@ == lowercased(s@),
{
    s.to_lowercase()
}

/// The path with each slash turned into a backslash, the separator of archive
/// paths.
pub open spec fn backslashed(path: Seq<char>) -> Seq<char> {
    path.map_values(|c: char| if c == '/' { '\\' } else { c })
}

/// Whether `path` ends with `.gz`.
pub open spec fn ends_with_gz(path: Seq<char>) -> bool {
    path.len() >= 3 && path[path.len() - 3] == '.' && path[path.len() - 2] == 'g' && path[path.len() - 1] == 'z'
}

/// The name under which a folder archive finds the file at `relative_path`:
/// separated by backslashes, in lowercase, and without a `.gz` ending.
pub open spec fn asset_key(relative_path: Seq<char>) -> Seq<char> {
    let lower = lowercased(backslashed(relative_path));
    if ends_with_gz(lower) {
        lower.take(lower.len() - 3)
    } else {
        lower
    }
}

/// What gzip decompression (`flate2::bufread::GzDecoder` read to its end)
/// makes of `data`, or `None` where that fails.
pub uninterp spec fn gunzipped(data: Seq<u8>) -> Option<Seq<u8>>;

/// Decompresses gzip data with `flate2::bufread::GzDecoder`, reading it to
/// its end; a read error becomes `None`. The result is claimed to be
/// `gunzipped` of the data.
#[verifier::external_body]
fn gunzip(data: &[u8]) -> (inflated: Option<Vec<u8>>)
    ensures
        match inflated {
            Some(bytes) => gunzipped(data@) == Some(bytes@),
            None => gunzipped(data@) is None,
        },
{
    let mut decoder = flate2::bufread::GzDecoder::new(data);
    let mut decompressed = Vec::new();
    match std::io::Read::read_to_end(&mut decoder, &mut decompressed) {
        Ok(_) => Some(decompressed),
        Err(_) => None,
    }
}

/// What gzip compression (`flate2::bufread::GzEncoder` read to its end) makes
/// of `data`, at the fast level (`Compression::fast()`) or the best one
/// (`Compression::best()`), or `None` where reading the encoder fails.
pub uninterp spec fn gzipped(data: Seq<u8>, fast: bool) -> Option<Seq<u8>>;

/// Compresses `data` with `flate2::bufread::GzEncoder` at the fast or the
/// best level, reading the encoder to its end; a read error becomes `None`.
/// The result is claimed to be `gzipped` of the data and the level.
#[verifier::external_body]
fn gzip(data: &[u8], fast: bool) -> (compressed: Option<Vec<u8>>)
    ensures
        match compressed {
            Some(bytes) => gzipped(data@, fast) == Some(bytes@),
            None => gzipped(data@, fast) is None,
        },
{
    let level = if fast { flate2::Compression::fast() } else { flate2::Compression::best() };
    let mut encoder = flate2::bufread::GzEncoder::new(data, level);
    let mut compressed = Vec::new();
    match std::io::Read::read_to_end(&mut encoder, &mut compressed) {
        Ok(_) => Some(compressed),
        Err(_) => None,
    }
}

/// The bytes a folder archive stores for an asset: the data as it is for no
/// compression, else the data gzipped, at the fast level where fast
/// compression is asked and at the best level where slow compression is
/// allowed.
pub fn stored_folder_bytes(data: Vec<u8>, compression: Compression) -> (stored: Option<Vec<u8>>)
    ensures
        compression is No ==> (stored matches Some(bytes) && bytes@ == data@),
        !(compression is No) ==> match stored {
            Some(bytes) => gzipped(data@, compression is Fast) == Some(bytes@),
            None => gzipped(data@, compression is Fast) is None,
        },
{
    match compression {
        Compression::No => Some(data),
        Compression::Slow => gzip(data.as_slice(), false),
        Compression::Fast => gzip(data.as_slice(), true),
    }
}

/// The path a folder archive stores a compressed asset under, where the
/// platform reads `extension` in it: `.gz` is added to the file's extension,
/// so `a.txt` becomes `a.txt.gz`, and a file without an extension gets the
/// extension `.gz`, so `a` becomes `a..gz`.
pub open spec fn gz_path(path: Seq<char>, extension: Option<Seq<char>>) -> Seq<char> {
    if extension is Some {
        path + seq!['.', 'g', 'z']
    } else {
        path + seq!['.', '.', 'g', 'z']
    }
}

/// The path a folder archive stores an asset under, from the path of its
/// file: with `.gz` added to the extension (as the platform reads it) where
/// the asset is compressed.
pub fn stored_folder_path(path: &str, compression: Compression) -> (stored: String)
    ensures
        compression is No ==> stored@ == path@,
        !(compression is No) ==> exists|extension: Option<Seq<char>>|
            stored@ == gz_path(path@, extension) && (is_portable(path@) ==> extension == path_extension(path@)),
{
    let mut stored = path.to_owned();
    match compression {
        Compression::No => {},
        _ => {
            let extension = file_extension(path);
            assert(is_portable(path@) ==> extension_chars(extension) == path_extension(path@));
            if extension.is_none() {
                push_char(&mut stored, '.');
            }
            push_char(&mut stored, '.');
            push_char(&mut stored, 'g');
            push_char(&mut stored, 'z');
            assert(stored@ =~= gz_path(path@, extension_chars(extension)));
        },
    }
    stored
}

/// The contents of a folder archive's file holding `data`, whose extension
/// is `extension`: gzip files are decompressed, others taken as they are.
pub open spec fn unpacked(data: Seq<u8>, extension: Option<Seq<char>>) -> Option<Seq<u8>> {
    if extension == Some(seq!['g', 'z']) {
        gunzipped(data)
    } else {
        Some(data)
    }
}

/// The bytes that `bytes` holds, if any.
pub open spec fn bytes_of(bytes: Option<Vec<u8>>) -> Option<Seq<u8>> {
    match bytes {
        Some(b) => Some(b@),
        None => None,
    }
}

/// An OS folder containing game assets.
pub struct FolderArchive {
    pub folder_path: String,
    /// The file of each asset, by the name archives use for it.
    pub file_mapping: HashMap<String, String>,
}

impl FolderArchive {
    /// The contents of an asset from the bytes of its file: gzip files (those
    /// with the `gz` extension, as the platform reads it) are decompressed,
    /// others are taken as they are. `None` where a gzip file does not
    /// decompress.
    pub fn unpack_file(file_path: &str, data: Vec<u8>) -> (contents: Option<Vec<u8>>)
        ensures
            exists|extension: Option<Seq<char>>|
                #[trigger] unpacked(data@, extension) == bytes_of(contents) && (is_portable(file_path@) ==> extension
                    == path_extension(file_path@)),
    {
        let extension = file_extension(file_path);
        assert(is_portable(file_path@) ==> extension_chars(extension) == path_extension(file_path@));
        let gz = match &extension {
            Some(extension) => {
                let e = chars_of(extension.as_str());
                let gz = e.len() == 2 && e[0] == 'g' && e[1] == 'z';
                proof {
                    if gz {
                        assert(extension@ =~= seq!['g', 'z']);
                    } else if extension@ == seq!['g', 'z'] {
                        assert(e@[0] == 'g' && e@[1] == 'z');
                    }
                }
                gz
            },
            None => false,
        };
        assert(gz == (extension_chars(extension) == Some(seq!['g', 'z'])));
        let ghost bytes = data@;
        let contents = if gz {
            gunzip(data.as_slice())
        } else {
            Some(data)
        };
        assert(unpacked(bytes, extension_chars(extension)) == bytes_of(contents));
        contents
    }

    /// The name under which the file at `relative_path` (relative to the
    /// folder) is found.
    pub fn asset_key(relative_path: &str) -> (key: String)
        ensures
            key@ == asset_key(relative_path@),
    {
        let chars = chars_of(relative_path);
        let mut separated = String::new();
        let mut i: usize = 0;
        while i < chars.len()
            invariant
                chars@ == relative_path@,
                i <= chars.len(),
                separated@ == backslashed(relative_path@.take(i as int)),
            decreases chars.len() - i,
        {
            let c = chars[i];
            push_char(&mut separated, if c == '/' { '\\' } else { c });
            assert(backslashed(relative_path@.take(i as int)).push(if c == '/' { '\\' } else { c })
                =~= backslashed(relative_path@.take(i + 1)));
            i = i + 1;
        }
        assert(relative_path@.take(i as int) =~= relative_path@);
        let lower = to_lowercase(separated.as_str());
        let lower_chars = chars_of(lower.as_str());
        let n = lower_chars.len();
        if n >= 3 && lower_chars[n - 3] == '.' && lower_chars[n - 2] == 'g' && lower_chars[n - 1] == 'z' {
            let mut key = String::new();
            let mut j: usize = 0;
            while j < n - 3
                invariant
                    lower_chars@ == lower@,
                    n == lower_chars.len(),
                    n >= 3,
                    j <= n - 3,
                    key@ == lower@.take(j as int),
                decreases n - 3 - j,
            {
                push_char(&mut key, lower_chars[j]);
                assert(lower@.take(j as int).push(lower@[j as int]) =~= lower@.take(j + 1));
                j = j + 1;
            }
            key
        } else {
            lower
        }
    }
}

} // verus!
