use crate::block_index::{holds_record, lemma_block_holding_unique, lemma_items_before_monotone};
use crate::bytes::{le_u32, lemma_u32_le_round_trip, push_u32_le, u32_le_bytes};
use crate::column::{block_bytes, fixed_item, payload_start, variable_item};
use crate::error::GbamError;
use crate::fields::Fields;
use crate::meta::{aligned, items_before, lemma_aligned_items_before, FileMeta};
use crate::crc::{crc32, crc32_checksum};
use crate::header::{lemma_header_bytes, FileInfo, FILE_INFO_SIZE};
use crate::reader::{check, meta_bytes, meta_offset, stored_crc, Reader};
use crate::record::{decode_value, FieldValue};
use vstd::prelude::*;

verus! {

/// The first `n` items of a block, one after the other.
pub open spec fn payload(items: Seq<Seq<u8>>, n: int) -> Seq<u8>
    decreases n,
{
    if n <= 0 {
        Seq::empty()
    } else {
        payload(items, n - 1) + items[n - 1]
    }
}

/// The offset column of a block of variable-width items: for each item the
/// four little-endian bytes of the offset at which it ends in the block.
pub open spec fn offset_items(items: Seq<Seq<u8>>) -> Seq<Seq<u8>> {
    Seq::new(items.len(), |i: int| u32_le_bytes(payload(items, i + 1).len() as u32))
}

/// The byte sequences that a list of vectors holds.
pub open spec fn views(items: Seq<Vec<u8>>) -> Seq<Seq<u8>> {
    Seq::new(items.len(), |i: int| items[i]@)
}

/// A block grows with every item, and item `i` lies in it from where the
/// items before it end to where it ends itself.
pub proof fn lemma_payload_slice(items: Seq<Seq<u8>>, n: int, i: int)
    requires
        0 <= i < n <= items.len(),
    ensures
        payload(items, i).len() <= payload(items, i + 1).len() <= payload(items, n).len(),
        payload(items, i + 1).len() == payload(items, i).len() + items[i].len(),
        payload(items, n).subrange(
            payload(items, i).len() as int,
            payload(items, i + 1).len() as int,
        ) == items[i],
    decreases n - i,
{
    if i + 1 < n {
        lemma_payload_slice(items, n - 1, i);
    }
}

/// A block of items that all have `size` bytes holds item `i` at `i * size`.
pub proof fn lemma_payload_fixed(items: Seq<Seq<u8>>, size: int, n: int)
    requires
        0 <= n <= items.len(),
        forall|i: int| 0 <= i < items.len() ==> (#[trigger] items[i]).len() == size,
    ensures
        payload(items, n).len() == n * size,
    decreases n,
{
    if n > 0 {
        lemma_payload_fixed(items, size, n - 1);
        assert((n - 1) * size + size == n * size) by (nonlinear_arith);
    } else {
        assert(0 * size == 0) by (nonlinear_arith);
    }
}

/// Lays out a block of variable-width items: the items one after the other,
/// and the offset column of the block. `None` where the block would be
/// longer than a 32-bit offset can say.
pub fn encode_variable_block(items: &Vec<Vec<u8>>) -> (r: Option<(Vec<u8>, Vec<u8>)>)
    ensures
        r is Some <==> payload(views(items@), items@.len() as int).len() <= u32::MAX,
        match r {
            Some((data, index)) => data@ == payload(views(items@), items@.len() as int) && index@
                == payload(offset_items(views(items@)), items@.len() as int),
            None => true,
        },
{
    let ghost all = views(items@);
    let mut data: Vec<u8> = Vec::new();
    let mut index: Vec<u8> = Vec::new();
    let mut i: usize = 0;
    while i < items.len()
        invariant
            i <= items@.len(),
            all == views(items@),
            data@ == payload(all, i as int),
            index@ == payload(offset_items(all), i as int),
            data@.len() <= u32::MAX,
        decreases items@.len() - i,
    {
        let item = &items[i];
        if item.len() > u32::MAX as usize - data.len() {
            proof {
                lemma_payload_slice(all, items@.len() as int, i as int);
            }
            return None;
        }
        let mut k: usize = 0;
        while k < item.len()
            invariant
                k <= item@.len(),
                data@ == payload(all, i as int) + item@.subrange(0, k as int),
            decreases item@.len() - k,
        {
            data.push(item[k]);
            k += 1;
        }
        push_u32_le(&mut index, data.len() as u32);
        i += 1;
    }
    Some((data, index))
}

/// The bytes of a container: the header, the compressed blocks, and the
/// metadata document at the end.
pub open spec fn file_bytes(info: FileInfo, blocks: Seq<u8>, meta: Seq<u8>) -> Seq<u8> {
    info.spec_bytes() + blocks + meta
}

/// A container whose header points to the metadata document behind the
/// blocks and stores the document's checksum passes the check, and its
/// metadata bytes are that document.
pub proof fn lemma_written_file_checks(info: FileInfo, blocks: Seq<u8>, meta: Seq<u8>)
    requires
        info.seekpos == FILE_INFO_SIZE + blocks.len(),
        info.crc32 == crc32_checksum(meta),
    ensures
        meta_offset(file_bytes(info, blocks, meta)) == info.seekpos,
        meta_bytes(file_bytes(info, blocks, meta)) == meta,
        stored_crc(file_bytes(info, blocks, meta)) == crc32_checksum(
            meta_bytes(file_bytes(info, blocks, meta)),
        ),
        check(file_bytes(info, blocks, meta)) is Ok,
{
    let file = file_bytes(info, blocks, meta);
    let head = info.spec_bytes();
    lemma_header_bytes(info);
    assert(file.subrange(0, 8) =~= head.subrange(0, 8));
}

/// Puts a container together once all blocks are written: the header,
/// then the blocks, then the metadata document, with the document's offset
/// and checksum in the header.
pub fn assemble_file(gbam_version: [u32; 2], blocks: &[u8], meta: &[u8]) -> (r: (FileInfo, Vec<u8>))
    requires
        FILE_INFO_SIZE + blocks@.len() + meta@.len() <= usize::MAX,
    ensures
        r.0.gbam_version == gbam_version,
        r.0.seekpos == FILE_INFO_SIZE + blocks@.len(),
        r.0.crc32 == crc32_checksum(meta@),
        r.1@ == file_bytes(r.0, blocks@, meta@),
        check(r.1@) is Ok,
        meta_bytes(r.1@) == meta@,
{
    let seekpos: u64 = (FILE_INFO_SIZE + blocks.len()) as u64;
    let info = FileInfo::new(gbam_version, seekpos, crc32(meta));
    let mut out = info.to_bytes();
    let mut i: usize = 0;
    while i < blocks.len()
        invariant
            i <= blocks@.len(),
            out@ == info.spec_bytes() + blocks@.subrange(0, i as int),
        decreases blocks@.len() - i,
    {
        out.push(blocks[i]);
        i += 1;
    }
    let mut k: usize = 0;
    while k < meta.len()
        invariant
            k <= meta@.len(),
            out@ == info.spec_bytes() + blocks@ + meta@.subrange(0, k as int),
        decreases meta@.len() - k,
    {
        out.push(meta[k]);
        k += 1;
    }
    proof {
        lemma_written_file_checks(info, blocks@, meta@);
    }
    (info, out)
}

/// Reading gives back what was written, for a fixed-width field: where
/// block `b` of the field decompresses to the items of the block one after
/// the other, reading the `i`-th record of the block gives the `i`-th item.
pub proof fn lemma_fixed_round_trip(
    meta: FileMeta,
    data: Seq<u8>,
    field: Fields,
    b: int,
    items: Seq<Seq<u8>>,
    i: int,
)
    requires
        meta.contains(field),
        field.item_size() is Some,
        0 <= b < meta.blocks_of(field).len(),
        items.len() == meta.blocks_of(field)[b].numitems,
        forall|k: int| 0 <= k < items.len() ==> (#[trigger] items[k]).len() == field.item_size()->0,
        block_bytes(meta, data, field, b) == Some(payload(items, items.len() as int)),
        0 <= i < items.len(),
    ensures
        fixed_item(meta, data, field, items_before(meta.blocks_of(field), b) + i) == Ok::<
            Seq<u8>,
            GbamError,
        >(items[i]),
{
    let blocks = meta.blocks_of(field);
    let size = field.item_size()->0 as int;
    let n = items.len() as int;
    let rec = items_before(blocks, b) + i;
    lemma_items_before_monotone(blocks, b, b);
    lemma_items_before_monotone(blocks, b + 1, blocks.len() as int);
    lemma_block_holding_unique(blocks, b, rec);
    lemma_payload_fixed(items, size, n);
    lemma_payload_fixed(items, size, i);
    lemma_payload_fixed(items, size, i + 1);
    lemma_payload_slice(items, n, i);
}

/// The offsets of a block of variable-width items never decrease, and the
/// last is the length of the block.
pub proof fn lemma_offsets_monotone(items: Seq<Seq<u8>>, i: int, j: int)
    requires
        0 <= i <= j < items.len(),
        payload(items, items.len() as int).len() <= u32::MAX,
    ensures
        le_u32(offset_items(items)[i]) <= le_u32(offset_items(items)[j]),
        le_u32(offset_items(items)[j]) <= payload(items, items.len() as int).len(),
        le_u32(offset_items(items)[items.len() - 1]) == payload(items, items.len() as int).len(),
    decreases j - i,
{
    let n = items.len() as int;
    lemma_payload_slice(items, n, i);
    lemma_payload_slice(items, n, j);
    lemma_payload_slice(items, n, n - 1);
    lemma_u32_le_round_trip(payload(items, i + 1).len() as u32);
    lemma_u32_le_round_trip(payload(items, j + 1).len() as u32);
    lemma_u32_le_round_trip(payload(items, n).len() as u32);
    if i < j {
        lemma_offsets_monotone(items, i + 1, j);
        lemma_payload_slice(items, n, i + 1);
        lemma_u32_le_round_trip(payload(items, i + 2).len() as u32);
    }
}

/// Reading gives back what was written, for a variable-width field: where
/// block `b` of the field decompresses to the items of the block one after
/// the other, and block `b` of its offset column to the offsets of those
/// items, reading the `i`-th record of the block gives the `i`-th item.
pub proof fn lemma_variable_round_trip(
    meta: FileMeta,
    data: Seq<u8>,
    field: Fields,
    b: int,
    items: Seq<Seq<u8>>,
    i: int,
)
    requires
        meta.contains(field),
        field.index_field() is Some,
        meta.contains(field.index_field()->0),
        aligned(meta.blocks_of(field), meta.blocks_of(field.index_field()->0)),
        0 <= b < meta.blocks_of(field).len(),
        items.len() == meta.blocks_of(field)[b].numitems,
        payload(items, items.len() as int).len() <= u32::MAX,
        block_bytes(meta, data, field, b) == Some(payload(items, items.len() as int)),
        block_bytes(meta, data, field.index_field()->0, b) == Some(
            payload(offset_items(items), items.len() as int),
        ),
        0 <= i < items.len(),
    ensures
        variable_item(meta, data, field, items_before(meta.blocks_of(field), b) + i) == Ok::<
            Seq<u8>,
            GbamError,
        >(items[i]),
{
    let index = field.index_field()->0;
    let blocks = meta.blocks_of(field);
    let index_blocks = meta.blocks_of(index);
    let n = items.len() as int;
    let offsets = offset_items(items);
    let rec = items_before(blocks, b) + i;
    lemma_aligned_items_before(blocks, index_blocks, b);
    lemma_aligned_items_before(blocks, index_blocks, b + 1);
    lemma_items_before_monotone(index_blocks, b, b);
    lemma_block_holding_unique(index_blocks, b, rec);
    lemma_fixed_round_trip(meta, data, index, b, offsets, i);
    lemma_payload_slice(items, n, i);
    lemma_u32_le_round_trip(payload(items, i + 1).len() as u32);
    if i > 0 {
        lemma_fixed_round_trip(meta, data, index, b, offsets, i - 1);
        lemma_u32_le_round_trip(payload(items, i).len() as u32);
        lemma_payload_slice(items, n, i - 1);
    }
}

/// A reader gives back what was written: where block `b` of a field that
/// has a column decompresses to the items of the block one after the other
/// (and, for a variable-width field, block `b` of its offset column to the
/// offsets of those items), reading the `i`-th record of the block gives the
/// value that the `i`-th item stands for.
pub proof fn lemma_read_round_trip(
    reader: Reader<'_>,
    field: Fields,
    b: int,
    items: Seq<Seq<u8>>,
    i: int,
)
    requires
        reader.wf(),
        reader.has_column(field),
        0 <= b < reader.file_meta.blocks_of(field).len(),
        items.len() == reader.file_meta.blocks_of(field)[b].numitems,
        0 <= i < items.len(),
        block_bytes(*reader.file_meta, reader.data@, field, b) == Some(
            payload(items, items.len() as int),
        ),
        !field.is_variable() ==> forall|k: int|
            0 <= k < items.len() ==> (#[trigger] items[k]).len() == field.item_size()->0,
        field.is_variable() ==> payload(items, items.len() as int).len() <= u32::MAX
            && block_bytes(*reader.file_meta, reader.data@, field.index_field()->0, b) == Some(
            payload(offset_items(items), items.len() as int),
        ),
    ensures
        reader.read(field, items_before(reader.file_meta.blocks_of(field), b) + i) == Ok::<
            FieldValue,
            GbamError,
        >(decode_value(field, items[i])),
{
    let meta = *reader.file_meta;
    assert(reader.column_of(field).wf());
    assert(meta.contains(field));
    if field.is_variable() {
        lemma_variable_round_trip(meta, reader.data@, field, b, items, i);
    } else {
        lemma_fixed_round_trip(meta, reader.data@, field, b, items, i);
    }
}

} // verus!
