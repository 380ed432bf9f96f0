//! The file table of a GRF archive as bytes: the asset table that announces
//! it, and its rows, each a zero-terminated file name followed by the sizes,
//! flags and offset of the file.

use vstd::prelude::*;

use crate::archive::{le_bytes, le_u32, lemma_le_at, read_le_u32, write_le_u32};

verus! {

/// The size of an asset table in bytes.
pub const ASSET_TABLE_SIZE: usize = 8;

/// The sizes of the compressed file table that follows it.
#[derive(Clone, Copy, Debug, PartialEq, Eq, Structural)]
pub struct AssetTable {
    pub compressed_size: u32,
    pub uncompressed_size: u32,
}

impl AssetTable {
    /// Reads an asset table from the first bytes of `bytes`; `None` where
    /// there are fewer than `ASSET_TABLE_SIZE`.
    pub fn from_bytes(bytes: &[u8]) -> (table: Option<Self>)
        ensures
            bytes.len() < ASSET_TABLE_SIZE ==> table is None,
            bytes.len() >= ASSET_TABLE_SIZE ==> table == Some(
                AssetTable { compressed_size: le_u32(bytes@, 0), uncompressed_size: le_u32(bytes@, 4) },
            ),
    {
        if bytes.len() < ASSET_TABLE_SIZE {
            return None;
        }
        Some(AssetTable { compressed_size: read_le_u32(bytes, 0), uncompressed_size: read_le_u32(bytes, 4) })
    }

    /// The bytes of the table, as `from_bytes` reads them.
    pub fn to_bytes(&self) -> (bytes: Vec<u8>)
        ensures
            bytes@ == le_bytes(self.compressed_size) + le_bytes(self.uncompressed_size),
    {
        let mut bytes = Vec::new();
        write_le_u32(&mut bytes, self.compressed_size);
        write_le_u32(&mut bytes, self.uncompressed_size);
        assert(bytes@ =~= le_bytes(self.compressed_size) + le_bytes(self.uncompressed_size));
        bytes
    }
}

/// An asset table read back from its bytes is the table that was written.
pub proof fn lemma_asset_table_round_trip(table: AssetTable)
    ensures
        ({
            let bytes = le_bytes(table.compressed_size) + le_bytes(table.uncompressed_size);
            AssetTable { compressed_size: le_u32(bytes, 0), uncompressed_size: le_u32(bytes, 4) } == table
        }),
{
    let bytes = le_bytes(table.compressed_size) + le_bytes(table.uncompressed_size);
    assert(bytes.subrange(0, 4) =~= le_bytes(table.compressed_size));
    assert(bytes.subrange(4, 8) =~= le_bytes(table.uncompressed_size));
    lemma_le_at(bytes, 0, table.compressed_size);
    lemma_le_at(bytes, 4, table.uncompressed_size);
}

/// A row of the file table, with the file name as the bytes it is stored as.
#[derive(Clone, Debug, PartialEq, Eq)]
pub struct RawFileTableRow {
    pub file_name: Vec<u8>,
    pub compressed_size: u32,
    pub compressed_size_aligned: u32,
    pub uncompressed_size: u32,
    pub flags: u8,
    pub offset: u32,
}

/// The row as plain values: the name bytes and the five fields.
pub type RowModel = (Seq<u8>, u32, u32, u32, u8, u32);

impl RawFileTableRow {
    pub open spec fn model(&self) -> RowModel {
        (
            self.file_name@,
            self.compressed_size,
            self.compressed_size_aligned,
            self.uncompressed_size,
            self.flags,
            self.offset,
        )
    }
}

/// The bytes of a row: the name, a zero, the three sizes, the flags and the
/// offset, the numbers little-endian.
pub open spec fn row_bytes(row: RowModel) -> Seq<u8> {
    row.0 + seq![0u8] + le_bytes(row.1) + le_bytes(row.2) + le_bytes(row.3) + seq![row.4] + le_bytes(row.5)
}

/// The position of the first zero byte at or after `from`, if any.
pub open spec fn first_zero(bytes: Seq<u8>, from: int) -> Option<int>
    decreases bytes.len() - from,
{
    if from < 0 || from >= bytes.len() {
        None
    } else if bytes[from] == 0 {
        Some(from)
    } else {
        first_zero(bytes, from + 1)
    }
}

/// The row stored at `at`, and where the next row starts: the name runs to
/// the first zero byte, and seventeen bytes of numbers follow it. `None`
/// where the bytes end first.
pub open spec fn row_at(bytes: Seq<u8>, at: int) -> Option<(RowModel, int)> {
    match first_zero(bytes, at) {
        Some(end) => if end + 18 <= bytes.len() {
            Some(
                (
                    (
                        bytes.subrange(at, end),
                        le_u32(bytes, end + 1),
                        le_u32(bytes, end + 5),
                        le_u32(bytes, end + 9),
                        bytes[end + 13],
                        le_u32(bytes, end + 14),
                    ),
                    end + 18,
                ),
            )
        } else {
            None
        },
        None => None,
    }
}

proof fn lemma_first_zero_skip(bytes: Seq<u8>, from: int, p: int)
    requires
        0 <= from <= p,
        forall|k: int| from <= k < p ==> bytes[k] != 0,
    ensures
        first_zero(bytes, from) == first_zero(bytes, p),
    decreases p - from,
{
    if from < p {
        lemma_first_zero_skip(bytes, from + 1, p);
    }
}

/// Reads the row stored at `at` in `bytes`, and where the next row starts.
pub fn read_row(bytes: &[u8], at: usize) -> (read: Option<(RawFileTableRow, usize)>)
    ensures
        match row_at(bytes@, at as int) {
            Some((row, next)) => read matches Some((r, n)) && r.model() == row && n == next,
            None => read is None,
        },
{
    let mut end = at;
    while end < bytes.len() && bytes[end] != 0
        invariant
            at <= end,
            forall|k: int| at <= k < end ==> bytes@[k] != 0,
        decreases bytes.len() - end,
    {
        end = end + 1;
    }
    proof {
        lemma_first_zero_skip(bytes@, at as int, end as int);
    }
    if end >= bytes.len() || bytes.len() - end < 18 {
        return None;
    }
    let mut file_name: Vec<u8> = Vec::new();
    let mut i = at;
    while i < end
        invariant
            at <= i <= end,
            end < bytes.len(),
            file_name@ == bytes@.subrange(at as int, i as int),
        decreases end - i,
    {
        file_name.push(bytes[i]);
        assert(bytes@.subrange(at as int, i as int).push(bytes@[i as int]) =~= bytes@.subrange(at as int, i + 1));
        i = i + 1;
    }
    let row = RawFileTableRow {
        file_name,
        compressed_size: read_le_u32(bytes, end + 1),
        compressed_size_aligned: read_le_u32(bytes, end + 5),
        uncompressed_size: read_le_u32(bytes, end + 9),
        flags: bytes[end + 13],
        offset: read_le_u32(bytes, end + 14),
    };
    Some((row, end + 18))
}

/// The bytes of a row, as `read_row` reads them; the name holds no zero.
pub fn write_row(out: &mut Vec<u8>, row: &RawFileTableRow)
    ensures
        final(out)@ == old(out)@ + row_bytes(row.model()),
{
    let mut i: usize = 0;
    while i < row.file_name.len()
        invariant
            i <= row.file_name@.len(),
            out@ == old(out)@ + row.file_name@.take(i as int),
        decreases row.file_name.len() - i,
    {
        out.push(row.file_name[i]);
        assert(old(out)@ + row.file_name@.take(i as int).push(row.file_name@[i as int]) =~= old(out)@
            + row.file_name@.take(i + 1));
        i = i + 1;
    }
    assert(row.file_name@.take(i as int) =~= row.file_name@);
    out.push(0);
    write_le_u32(out, row.compressed_size);
    write_le_u32(out, row.compressed_size_aligned);
    write_le_u32(out, row.uncompressed_size);
    out.push(row.flags);
    write_le_u32(out, row.offset);
    assert(out@ =~= old(out)@ + row_bytes(row.model()));
}

/// A row written where its name holds no zero byte reads back as itself,
/// and the next row starts right after it.
pub proof fn lemma_row_round_trip(before: Seq<u8>, row: RowModel, after: Seq<u8>)
    requires
        forall|k: int| 0 <= k < row.0.len() ==> row.0[k] != 0,
    ensures
        row_at(before + row_bytes(row) + after, before.len() as int) == Some(
            (row, (before.len() + row_bytes(row).len()) as int),
        ),
{
    let bytes = before + row_bytes(row) + after;
    let at = before.len() as int;
    let end = at + row.0.len();
    assert forall|k: int| at <= k < end implies bytes[k] != 0 by {
        assert(bytes[k] == row.0[k - at]);
    }
    assert(bytes[end] == 0);
    lemma_first_zero_skip(bytes, at, end);
    assert(first_zero(bytes, end) == Some(end));
    assert(bytes.subrange(at, end) =~= row.0);
    assert(bytes.subrange(end + 1, end + 5) =~= le_bytes(row.1));
    assert(bytes.subrange(end + 5, end + 9) =~= le_bytes(row.2));
    assert(bytes.subrange(end + 9, end + 13) =~= le_bytes(row.3));
    assert(bytes[end + 13] == row.4);
    assert(bytes.subrange(end + 14, end + 18) =~= le_bytes(row.5));
    lemma_le_at(bytes, end + 1, row.1);
    lemma_le_at(bytes, end + 5, row.2);
    lemma_le_at(bytes, end + 9, row.3);
    lemma_le_at(bytes, end + 14, row.5);
}

/// The first `count` rows stored from `at` on, if the bytes hold them all.
pub open spec fn rows_from(bytes: Seq<u8>, at: int, count: nat) -> Option<Seq<RowModel>>
    decreases count,
{
    if count == 0 {
        Some(Seq::empty())
    } else {
        match row_at(bytes, at) {
            Some((row, next)) => match rows_from(bytes, next, (count - 1) as nat) {
                Some(rest) => Some(seq![row] + rest),
                None => None,
            },
            None => None,
        }
    }
}

/// Reads the `count` rows of a decompressed file table; `None` where the
/// bytes end before the last row does.
pub fn parse_file_table(bytes: &[u8], count: usize) -> (rows: Option<Vec<RawFileTableRow>>)
    ensures
        match rows_from(bytes@, 0, count as nat) {
            Some(models) => rows matches Some(rows) && rows@.len() == models.len() && forall|k: int|
                0 <= k < models.len() ==> (#[trigger] rows@[k]).model() == models[k],
            None => rows is None,
        },
{
    let mut rows: Vec<RawFileTableRow> = Vec::new();
    let mut at: usize = 0;
    let mut read: usize = 0;
    while read < count
        invariant
            read <= count,
            rows@.len() == read,
            ({
                match rows_from(bytes@, at as int, (count - read) as nat) {
                    Some(rest) => rows_from(bytes@, 0, count as nat) == Some(
                        rows@.map_values(|r: RawFileTableRow| r.model()) + rest,
                    ),
                    None => rows_from(bytes@, 0, count as nat) is None,
                }
            }),
        decreases count - read,
    {
        match read_row(bytes, at) {
            Some((row, next)) => {
                let ghost before = rows@.map_values(|r: RawFileTableRow| r.model());
                let ghost model = row.model();
                rows.push(row);
                assert(rows@.map_values(|r: RawFileTableRow| r.model()) =~= before.push(model));
                proof {
                    match rows_from(bytes@, next as int, (count - read - 1) as nat) {
                        Some(rest) => {
                            assert(before + (seq![model] + rest) =~= before.push(model) + rest);
                        },
                        None => {},
                    }
                }
                at = next;
                read = read + 1;
            },
            None => {
                return None;
            },
        }
    }
    let ghost models = rows@.map_values(|r: RawFileTableRow| r.model());
    assert(models + Seq::<RowModel>::empty() =~= models);
    assert forall|k: int| 0 <= k < models.len() implies (#[trigger] rows@[k]).model() == models[k] by {}
    Some(rows)
}

} // verus!
