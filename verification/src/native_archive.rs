//! Reading and writing the files of a GRF archive: the bytes stored for a
//! file are its data, compressed with zlib where asked, and encrypted as its
//! flags say.

use vstd::prelude::*;

use crate::archive::{le_bytes, lowercased, to_lowercase, Compression, FileTableRow, Header, Writable, GRF_VERSION};
use crate::file_table::{row_bytes, write_row, AssetTable, RawFileTableRow, RowModel};
use crate::native::{legacy_decrypted, legacy_scheme, DesDecryption};
use crate::text::chars_of;

verus! {

/// What zlib decompression (`yazi::decompress` with the zlib format) makes
/// of `data`: the decompressed bytes, or `None` where the data is not a valid
/// zlib stream.
pub uninterp spec fn zlib_inflated(data: Seq<u8>) -> Option<Seq<u8>>;

/// What zlib compression at the fast level (`flate2`'s `ZlibEncoder` with
/// `Compression::fast()`) makes of `data`, or `None` where reading the encoder
/// fails.
pub uninterp spec fn zlib_deflated_fast(data: Seq<u8>) -> Option<Seq<u8>>;

/// Decompresses a zlib stream with `yazi::decompress`; the checksum it also
/// returns is dropped and an error becomes `None`. The result is claimed to be
/// `zlib_inflated` of the data; nothing is claimed of what that is.
#[verifier::external_body]
fn inflate_zlib(data: &[u8]) -> (inflated: Option<Vec<u8>>)
    ensures
        match inflated {
            Some(bytes) => zlib_inflated(data@) == Some(bytes@),
            None => zlib_inflated(data@) is None,
        },
{
    match yazi::decompress(data, yazi::Format::Zlib) {
        Ok((bytes, _checksum)) => Some(bytes),
        Err(_) => None,
    }
}

/// Compresses `data` with `flate2::bufread::ZlibEncoder` at
/// `Compression::fast()`, reading the encoder to its end; a read error becomes
/// `None`. The result is claimed to be `zlib_deflated_fast` of the data.
#[verifier::external_body]
fn deflate_zlib_fast(data: &[u8]) -> (deflated: Option<Vec<u8>>)
    ensures
        match deflated {
            Some(bytes) => zlib_deflated_fast(data@) == Some(bytes@),
            None => zlib_deflated_fast(data@) is None,
        },
{
    let mut encoder = flate2::bufread::ZlibEncoder::new(data, flate2::Compression::fast());
    let mut compressed = Vec::new();
    match std::io::Read::read_to_end(&mut encoder, &mut compressed) {
        Ok(_) => Some(compressed),
        Err(_) => None,
    }
}

/// Decompresses the file table of an archive.
pub fn decompress_file_table(compressed: &[u8]) -> (table: Option<Vec<u8>>)
    ensures
        match table {
            Some(bytes) => zlib_inflated(compressed@) == Some(bytes@),
            None => zlib_inflated(compressed@) is None,
        },
{
    inflate_zlib(compressed)
}

/// The data of a file as the archive stores it, decrypted as its flags say.
pub open spec fn decrypted_file(file_information: FileTableRow, data: Seq<u8>) -> Seq<u8> {
    match legacy_scheme(file_information.flags, file_information.compressed_size) {
        Some((header_only, cycle)) => legacy_decrypted(data, header_only, cycle as int),
        None => data,
    }
}

/// The contents of a file from the bytes the archive stores for it: they are
/// decrypted as the file's flags say and then decompressed. `None` where the
/// decrypted bytes are not a zlib stream.
pub fn unpack_file(file_information: &FileTableRow, data: Vec<u8>) -> (contents: Option<Vec<u8>>)
    requires
        data.len() + 8 <= usize::MAX,
    ensures
        match contents {
            Some(bytes) => zlib_inflated(decrypted_file(*file_information, data@)) == Some(bytes@),
            None => zlib_inflated(decrypted_file(*file_information, data@)) is None,
        },
{
    let mut data = data;
    DesDecryption::decrypt_file(file_information, &mut data);
    inflate_zlib(data.as_slice())
}

/// An asset waiting to be written to the archive.
pub struct FileTableEntry {
    pub path: String,
    pub compress: bool,
    pub asset_data: Vec<u8>,
}

/// Collects assets and writes them out as a GRF archive.
pub struct NativeArchiveBuilder {
    pub os_file_path: String,
    pub archive_entries: Vec<FileTableEntry>,
}

impl NativeArchiveBuilder {
    /// A builder for the archive at `path`, with no assets yet.
    pub fn from_path(path: &str) -> (builder: Self)
        ensures
            builder.os_file_path@ == path@,
            builder.archive_entries@.len() == 0,
    {
        Self { os_file_path: path.to_owned(), archive_entries: Vec::new() }
    }
}

impl Writable for NativeArchiveBuilder {
    /// Queues an asset; any compression but `No` stores it compressed.
    fn add_file(&mut self, path: &str, asset_data: Vec<u8>, compression: Compression)
        ensures
            final(self).os_file_path == old(self).os_file_path,
            final(self).archive_entries@.len() == old(self).archive_entries@.len() + 1,
            forall|i: int|
                0 <= i < old(self).archive_entries@.len() ==> final(self).archive_entries@[i] == old(
                    self,
                ).archive_entries@[i],
            ({
                let entry = final(self).archive_entries@.last();
                &&& entry.path@ == path@
                &&& entry.compress == !(compression is No)
                &&& entry.asset_data@ == asset_data@
            }),
    {
        let compress = match compression {
            Compression::No => false,
            _ => true,
        };
        self.archive_entries.push(FileTableEntry { path: path.to_owned(), compress, asset_data });
    }
}

/// The bytes stored for an asset: its data, compressed where asked.
pub open spec fn stored_bytes(data: Seq<u8>, compress: bool) -> Option<Seq<u8>> {
    if compress {
        zlib_deflated_fast(data)
    } else {
        Some(data)
    }
}

/// Prepares an asset for the archive at `offset`: returns its file table row
/// and the bytes to write, and moves `offset` past them. `None`, with
/// `offset` kept, where compression fails or the offset would pass
/// `u32::MAX`.
pub fn add_asset_to_file_table(offset: &mut u32, path: &str, data: Vec<u8>, compress: bool) -> (stored: Option<(FileTableRow, Vec<u8>)>)
    ensures
        match stored_bytes(data@, compress) {
            None => stored is None && *final(offset) == *old(offset),
            Some(bytes) => if *old(offset) + (bytes.len() as u32) > u32::MAX {
                stored is None && *final(offset) == *old(offset)
            } else {
                &&& stored matches Some((row, written)) && {
                    &&& written@ == bytes
                    &&& row.file_name@ == path@
                    &&& row.compressed_size == bytes.len() as u32
                    &&& row.compressed_size_aligned == bytes.len() as u32
                    &&& row.uncompressed_size == data@.len() as u32
                    &&& row.flags == 1
                    &&& row.offset == *old(offset)
                }
                &&& *final(offset) == *old(offset) + (bytes.len() as u32)
            },
        },
{
    let uncompressed_size = data.len() as u32;
    let bytes = if compress {
        match deflate_zlib_fast(data.as_slice()) {
            Some(compressed) => compressed,
            None => return None,
        }
    } else {
        data
    };
    let compressed_size = bytes.len() as u32;
    match offset.checked_add(compressed_size) {
        None => None,
        Some(next) => {
            let row = FileTableRow {
                file_name: path.to_owned(),
                compressed_size,
                compressed_size_aligned: compressed_size,
                uncompressed_size,
                flags: 1,
                offset: *offset,
            };
            *offset = next;
            Some((row, bytes))
        },
    }
}

/// Whether an archive file is a compiled Lua script stored as it is: its name
/// ends with `.lub` and its flags are exactly those of a plain file.
pub open spec fn is_plain_lua(file_name: Seq<char>, flags: u8) -> bool {
    &&& flags == 1
    &&& file_name.len() >= 4
    &&& file_name.subrange(file_name.len() - 4, file_name.len() as int) == seq!['.', 'l', 'u', 'b']
}

/// Whether the archive file `file_name` with `flags` is a plain Lua script.
pub fn is_plain_lua_file(file_name: &str, flags: u8) -> (lua: bool)
    ensures
        lua == is_plain_lua(file_name@, flags),
{
    let chars = chars_of(file_name);
    let n = chars.len();
    let lua = flags == 1 && n >= 4 && chars[n - 4] == '.' && chars[n - 3] == 'l' && chars[n - 2] == 'u'
        && chars[n - 1] == 'b';
    proof {
        if n >= 4 {
            let tail = file_name@.subrange(n - 4, n as int);
            if lua {
                assert(tail =~= seq!['.', 'l', 'u', 'b']);
            } else if flags == 1 && tail == seq!['.', 'l', 'u', 'b'] {
                assert(tail[0] == chars@[n - 4] && tail[1] == chars@[n - 3] && tail[2] == chars@[n - 2]
                    && tail[3] == chars@[n - 1]);
            }
        }
    }
    lua
}

/// What `String::from_utf8_lossy` makes of `bytes`: the UTF-8 text they
/// hold, with each invalid sequence replaced by U+FFFD.
pub uninterp spec fn utf8_lossy(bytes: Seq<u8>) -> Seq<char>;

/// Reads `bytes` as UTF-8 text with `String::from_utf8_lossy`; the result is
/// claimed to be `utf8_lossy` of the bytes.
#[verifier::external_body]
fn text_of(bytes: &[u8]) -> (text: String)
    ensures
        text@ == utf8_lossy(bytes@),
{
    String::from_utf8_lossy(bytes).into_owned()
}

/// The file table entry of a stored row: the name read as UTF-8 text and
/// lowercased, under which the archive finds the file.
pub fn file_table_entry(row: &RawFileTableRow) -> (entry: FileTableRow)
    ensures
        entry.file_name@ == lowercased(utf8_lossy(row.file_name@)),
        entry.compressed_size == row.compressed_size,
        entry.compressed_size_aligned == row.compressed_size_aligned,
        entry.uncompressed_size == row.uncompressed_size,
        entry.flags == row.flags,
        entry.offset == row.offset,
{
    let name = text_of(row.file_name.as_slice());
    FileTableRow {
        file_name: to_lowercase(name.as_str()),
        compressed_size: row.compressed_size,
        compressed_size_aligned: row.compressed_size_aligned,
        uncompressed_size: row.uncompressed_size,
        flags: row.flags,
        offset: row.offset,
    }
}

/// A row of the file table as stored: the name as its UTF-8 bytes and the
/// other fields as they are.
pub open spec fn stored_row(entry: FileTableRow) -> RowModel {
    (
        vstd::utf8::encode_utf8(entry.file_name@),
        entry.compressed_size,
        entry.compressed_size_aligned,
        entry.uncompressed_size,
        entry.flags,
        entry.offset,
    )
}

/// The bytes of the file table rows, one after the other.
pub open spec fn file_table_bytes(entries: Seq<FileTableRow>) -> Seq<u8>
    decreases entries.len(),
{
    if entries.len() == 0 {
        Seq::empty()
    } else {
        file_table_bytes(entries.drop_last()) + row_bytes(stored_row(entries.last()))
    }
}

/// The stored row of a file table entry.
pub fn raw_file_table_row(entry: &FileTableRow) -> (row: RawFileTableRow)
    ensures
        row.model() == stored_row(*entry),
{
    let bytes = entry.file_name.as_str().as_bytes();
    let mut file_name: Vec<u8> = Vec::new();
    let mut i: usize = 0;
    while i < bytes.len()
        invariant
            i <= bytes@.len(),
            file_name@ == bytes@.take(i as int),
        decreases bytes.len() - i,
    {
        file_name.push(bytes[i]);
        assert(bytes@.take(i as int).push(bytes@[i as int]) =~= bytes@.take(i + 1));
        i = i + 1;
    }
    assert(bytes@.take(i as int) =~= bytes@);
    RawFileTableRow {
        file_name,
        compressed_size: entry.compressed_size,
        compressed_size_aligned: entry.compressed_size_aligned,
        uncompressed_size: entry.uncompressed_size,
        flags: entry.flags,
        offset: entry.offset,
    }
}

/// Whether a row in `rows` has the file name `name`.
pub open spec fn names_file(rows: Seq<FileTableRow>, name: Seq<char>) -> bool {
    exists|j: int| 0 <= j < rows.len() && (#[trigger] rows[j]).file_name@ == name
}

/// The file table an archive keeps of rows added in order, where adding a
/// file under a name already taken replaces the earlier row: each row that no
/// later row shares its file name with, in the order they were added.
pub open spec fn latest_rows(rows: Seq<FileTableRow>) -> Seq<FileTableRow>
    decreases rows.len(),
{
    if rows.len() == 0 {
        Seq::empty()
    } else if names_file(rows.drop_first(), rows[0].file_name@) {
        latest_rows(rows.drop_first())
    } else {
        seq![rows[0]] + latest_rows(rows.drop_first())
    }
}

/// The latest rows name the same files as all the rows.
proof fn lemma_latest_rows_names(rows: Seq<FileTableRow>, name: Seq<char>)
    ensures
        names_file(latest_rows(rows), name) == names_file(rows, name),
    decreases rows.len(),
{
    if rows.len() > 0 {
        let rest = rows.drop_first();
        lemma_latest_rows_names(rest, name);
        let latest = latest_rows(rows);
        let tail = latest_rows(rest);
        assert(names_file(rest, name) ==> names_file(rows, name)) by {
            if names_file(rest, name) {
                let j = choose|j: int| 0 <= j < rest.len() && (#[trigger] rest[j]).file_name@ == name;
                assert(rows[j + 1] == rest[j]);
            }
        }
        assert(names_file(rows, name) ==> rows[0].file_name@ == name || names_file(rest, name)) by {
            if names_file(rows, name) {
                let j = choose|j: int| 0 <= j < rows.len() && (#[trigger] rows[j]).file_name@ == name;
                if j > 0 {
                    assert(rest[j - 1] == rows[j]);
                }
            }
        }
        if names_file(rest, rows[0].file_name@) {
            assert(latest == tail);
        } else {
            assert(latest == seq![rows[0]] + tail);
            assert(names_file(latest, name) ==> rows[0].file_name@ == name || names_file(tail, name)) by {
                if names_file(latest, name) {
                    let j = choose|j: int| 0 <= j < latest.len() && (#[trigger] latest[j]).file_name@ == name;
                    if j > 0 {
                        assert(latest[j] == tail[j - 1]);
                    }
                }
            }
            assert(rows[0].file_name@ == name ==> names_file(latest, name)) by {
                assert(latest[0] == rows[0]);
            }
            assert(names_file(tail, name) ==> names_file(latest, name)) by {
                if names_file(tail, name) {
                    let j = choose|j: int| 0 <= j < tail.len() && (#[trigger] tail[j]).file_name@ == name;
                    assert(latest[j + 1] == tail[j]);
                }
            }
        }
    }
}

/// Keeps, of rows added in order, the latest row for each file name, in the
/// order they were added; the table an archive writes.
pub fn latest_file_table_rows(rows: Vec<FileTableRow>) -> (latest: Vec<FileTableRow>)
    ensures
        latest@ == latest_rows(rows@),
{
    let ghost original = rows@;
    let mut rows = rows;
    let mut latest: Vec<FileTableRow> = Vec::new();
    assert(original.skip(original.len() as int) =~= Seq::<FileTableRow>::empty());
    while rows.len() > 0
        invariant
            rows@ == original.take(rows@.len() as int),
            rows@.len() <= original.len(),
            latest@ == latest_rows(original.skip(rows@.len() as int)),
        decreases rows@.len(),
    {
        let ghost n = (rows@.len() - 1) as int;
        let row = rows.pop().unwrap();
        assert(row == original[n]);
        assert(rows@ =~= original.take(n));
        let ghost later = original.skip(n + 1);
        assert(original.skip(n).drop_first() =~= later);
        assert(original.skip(n)[0] == row);
        proof {
            lemma_latest_rows_names(later, row.file_name@);
        }
        let mut taken = false;
        let mut k: usize = 0;
        while k < latest.len()
            invariant
                k <= latest@.len(),
                taken == exists|j: int| 0 <= j < k && (#[trigger] latest@[j]).file_name@ == row.file_name@,
            decreases latest.len() - k,
        {
            if latest[k].file_name == row.file_name {
                taken = true;
            }
            k = k + 1;
        }
        assert(taken == names_file(latest@, row.file_name@));
        if !taken {
            latest.insert(0, row);
            assert(latest@ =~= seq![original.skip(n)[0]] + latest_rows(later));
        }
    }
    assert(original.take(0) =~= Seq::<FileTableRow>::empty());
    assert(original.skip(0) =~= original);
    latest
}

/// What follows the stored files of an archive: the asset table, then the
/// compressed file table. The sizes are written as `u32`.
pub open spec fn file_table_section(table: Seq<u8>, compressed: Seq<u8>) -> Seq<u8> {
    le_bytes(compressed.len() as u32) + le_bytes(table.len() as u32) + compressed
}

/// The file table section of an archive holding `entries`, and the file
/// count its header records: the number of entries and the seven that the
/// format always adds. `None` where compressing the table fails.
pub fn archive_file_table(entries: &[FileTableRow]) -> (section: Option<(Vec<u8>, u32)>)
    requires
        entries@.len() as u32 + 7 <= u32::MAX,
    ensures
        match zlib_deflated_fast(file_table_bytes(entries@)) {
            Some(compressed) => section matches Some((bytes, count)) && bytes@ == file_table_section(
                file_table_bytes(entries@),
                compressed,
            ) && count == entries@.len() as u32 + 7,
            None => section is None,
        },
{
    let mut table: Vec<u8> = Vec::new();
    let mut k: usize = 0;
    while k < entries.len()
        invariant
            k <= entries@.len(),
            table@ == file_table_bytes(entries@.take(k as int)),
        decreases entries.len() - k,
    {
        let row = raw_file_table_row(&entries[k]);
        write_row(&mut table, &row);
        assert(entries@.take(k + 1).drop_last() =~= entries@.take(k as int));
        k = k + 1;
    }
    assert(entries@.take(k as int) =~= entries@);
    let compressed = match deflate_zlib_fast(table.as_slice()) {
        Some(compressed) => compressed,
        None => return None,
    };
    let asset_table = AssetTable { compressed_size: compressed.len() as u32, uncompressed_size: table.len() as u32 };
    let mut bytes = asset_table.to_bytes();
    let mut i: usize = 0;
    while i < compressed.len()
        invariant
            i <= compressed@.len(),
            bytes@ == le_bytes(compressed@.len() as u32) + le_bytes(table@.len() as u32) + compressed@.take(i as int),
        decreases compressed.len() - i,
    {
        bytes.push(compressed[i]);
        assert(le_bytes(compressed@.len() as u32) + le_bytes(table@.len() as u32) + compressed@.take(i as int).push(
            compressed@[i as int],
        ) =~= le_bytes(compressed@.len() as u32) + le_bytes(table@.len() as u32) + compressed@.take(i + 1));
        i = i + 1;
    }
    assert(compressed@.take(i as int) =~= compressed@);
    let count = entries.len() as u32 + 7;
    Some((bytes, count))
}

proof fn lemma_latest_rows_len(rows: Seq<FileTableRow>)
    ensures
        latest_rows(rows).len() <= rows.len(),
    decreases rows.len(),
{
    if rows.len() > 0 {
        lemma_latest_rows_len(rows.drop_first());
    }
}

/// What an archive ends with once its files are stored, given the rows of
/// the files in the order they were added and where the stored data ends:
/// the header, pointing at the file table after the data, with no reserved
/// files, the file count of the table and the format's version; and the file
/// table section, which keeps the latest row for each file name. `None` where
/// compressing the table fails.
pub fn finished_archive(rows: Vec<FileTableRow>, data_end: u32) -> (finished: Option<(Header, Vec<u8>)>)
    requires
        rows@.len() + 7 <= u32::MAX,
    ensures
        match zlib_deflated_fast(file_table_bytes(latest_rows(rows@))) {
            Some(compressed) => finished matches Some((header, section)) && section@ == file_table_section(
                file_table_bytes(latest_rows(rows@)),
                compressed,
            ) && header.encryption@ == Seq::new(14, |i: int| 0u8)
                && header.file_table_offset == data_end && header.reserved_files == 0 && header.file_count
                == latest_rows(rows@).len() as u32 + 7 && header.version == GRF_VERSION,
            None => finished is None,
        },
{
    let ghost all = rows@;
    let latest = latest_file_table_rows(rows);
    proof {
        lemma_latest_rows_len(all);
    }
    match archive_file_table(latest.as_slice()) {
        Some((section, file_count)) => {
            let header = Header::new(data_end, 0, file_count, GRF_VERSION);
            Some((header, section))
        },
        None => None,
    }
}

} // verus!
