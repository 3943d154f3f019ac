use crate::block_index::{
    block_holding, holds_record, lemma_block_holding_exists, lemma_block_holding_unique,
    lemma_items_before_monotone, BlockIndex,
};
use crate::bytes::{le_u32, read_u32_le};
use crate::codec::{decoded, decompress};
use crate::error::GbamError;
use crate::fields::Fields;
use crate::meta::{aligned, items_before, lemma_aligned_items_before, total_items, FileMeta};
use crate::record::{decode_value, FieldValue, GbamRecord};
use vstd::prelude::*;

verus! {

/// The decompressed bytes of block `b` of a field in the file `data`: what
/// the field's codec makes of the bytes from the block's offset on, as many
/// as its compressed length says. `None` where the metadata names no such
/// block, the range runs past the end of the file, or the codec fails.
pub open spec fn block_bytes(meta: FileMeta, data: Seq<u8>, field: Fields, b: int) -> Option<
    Seq<u8>,
> {
    let fm = meta.meta_of(field);
    if 0 <= b < fm.blocks@.len() && b < fm.blocks_sizes@.len() && fm.blocks@[b].seekpos
        + fm.blocks_sizes@[b] <= data.len() {
        decoded(
            fm.codec,
            data.subrange(
                fm.blocks@[b].seekpos as int,
                fm.blocks@[b].seekpos + fm.blocks_sizes@[b],
            ),
        )
    } else {
        None
    }
}

/// The stored bytes of record `rec` of a fixed-width field: `item_size`
/// bytes at the record's place in the block that holds it. The block is
/// corrupt where it cannot be decompressed or its length is not its item
/// count times the item width.
pub open spec fn fixed_item(meta: FileMeta, data: Seq<u8>, field: Fields, rec: int) -> Result<
    Seq<u8>,
    GbamError,
> {
    let blocks = meta.blocks_of(field);
    let size = field.item_size()->0 as int;
    let b = block_holding(blocks, rec);
    let p = rec - items_before(blocks, b);
    if !(0 <= rec < total_items(blocks)) {
        Err(GbamError::OutOfRange)
    } else {
        match block_bytes(meta, data, field, b) {
            Some(buf) => if buf.len() == blocks[b].numitems * size {
                Ok(buf.subrange(p * size, (p + 1) * size))
            } else {
                Err(GbamError::BlockCorrupt(field, b as usize))
            },
            None => Err(GbamError::BlockCorrupt(field, b as usize)),
        }
    }
}

/// Where the payload of record `rec` of a variable-width field starts in
/// its block, given the field's offset column `index`: zero for the first
/// record of a block, else the end offset of the record before.
pub open spec fn payload_start(meta: FileMeta, data: Seq<u8>, index: Fields, rec: int) -> int {
    let blocks = meta.blocks_of(index);
    if rec == items_before(blocks, block_holding(blocks, rec)) {
        0
    } else {
        le_u32(fixed_item(meta, data, index, rec - 1)->Ok_0)
    }
}

/// The stored bytes of record `rec` of a variable-width field: the slice of
/// its block from the end offset of the record before to its own end
/// offset, both read from the field's offset column. The block is corrupt
/// where it cannot be decompressed or the offsets do not fit it.
pub open spec fn variable_item(meta: FileMeta, data: Seq<u8>, field: Fields, rec: int) -> Result<
    Seq<u8>,
    GbamError,
> {
    let index = field.index_field()->0;
    let b = block_holding(meta.blocks_of(index), rec);
    match fixed_item(meta, data, index, rec) {
        Err(e) => Err(e),
        Ok(end_bytes) => {
            let start = payload_start(meta, data, index, rec);
            let end = le_u32(end_bytes);
            match block_bytes(meta, data, field, b) {
                Some(buf) => if start <= end <= buf.len() {
                    Ok(buf.subrange(start, end))
                } else {
                    Err(GbamError::BlockCorrupt(field, b as usize))
                },
                None => Err(GbamError::BlockCorrupt(field, b as usize)),
            }
        },
    }
}

/// The stored bytes of record `rec` of any field.
pub open spec fn column_item(meta: FileMeta, data: Seq<u8>, field: Fields, rec: int) -> Result<
    Seq<u8>,
    GbamError,
> {
    if field.is_variable() {
        variable_item(meta, data, field, rec)
    } else {
        fixed_item(meta, data, field, rec)
    }
}

/// The block of a field that a column holds after record `rec` was asked
/// for: the block that holds the record, where the field has the record and
/// that block can be decompressed; else the block held before.
pub open spec fn held_after(
    meta: FileMeta,
    data: Seq<u8>,
    field: Fields,
    rec: int,
    before: Option<usize>,
) -> Option<usize> {
    let blocks = meta.blocks_of(field);
    let b = block_holding(blocks, rec);
    if 0 <= rec < total_items(blocks) && block_bytes(meta, data, field, b) is Some {
        Some(b as usize)
    } else {
        before
    }
}

/// A fixed-width field reads exactly as many bytes as its items are wide.
pub proof fn lemma_fixed_item_len(meta: FileMeta, data: Seq<u8>, field: Fields, rec: int)
    requires
        field.item_size() is Some,
        fixed_item(meta, data, field, rec) is Ok,
    ensures
        fixed_item(meta, data, field, rec)->Ok_0.len() == field.item_size()->0,
{
    let blocks = meta.blocks_of(field);
    let size = field.item_size()->0 as int;
    let b = block_holding(blocks, rec);
    let p = rec - items_before(blocks, b);
    lemma_block_holding_exists(blocks, rec);
    assert(0 <= p * size <= (p + 1) * size <= blocks[b].numitems * size) by (nonlinear_arith)
        requires
            0 <= p < blocks[b].numitems,
            0 <= size,
    ;
}

/// Two columns of the same field over the same file and metadata read the
/// same bytes for the same record, whatever blocks they hold.
pub proof fn lemma_columns_agree(a: Column<'_>, b: Column<'_>, rec: int)
    requires
        a.field() == b.field(),
        a.inner().data@ == b.inner().data@,
        *a.inner().meta == *b.inner().meta,
    ensures
        a.item(rec) == b.item(rec),
{
}

/// The part of a column that finds and holds blocks: the block index of
/// the field and at most one decompressed block.
#[derive(Debug)]
pub struct Inner<'a> {
    pub meta: &'a FileMeta,
    pub data: &'a [u8],
    pub field: Fields,
    pub index: BlockIndex,
    pub loaded: Option<usize>,
    pub buffer: Vec<u8>,
}

impl<'a> Inner<'a> {
    /// The container holds the field, the index describes the field's block
    /// list, and the block held, if any, is a block of the field.
    pub open spec fn wf(self) -> bool {
        &&& self.meta.wf()
        &&& self.meta.contains(self.field)
        &&& self.index.describes(self.meta.blocks_of(self.field))
        &&& self.loaded is Some ==> block_bytes(
            *self.meta,
            self.data@,
            self.field,
            self.loaded->0 as int,
        ) == Some(self.buffer@)
    }

    /// The column reads the same container as `other`.
    pub open spec fn same_source(self, other: Self) -> bool {
        &&& self.meta == other.meta
        &&& self.data@ == other.data@
        &&& self.field == other.field
        &&& self.index == other.index
    }

    /// A block holder for a field with no block loaded; `None` where the
    /// field's record count does not fit in `usize`.
    pub fn new(meta: &'a FileMeta, field: Fields, data: &'a [u8]) -> (r: Option<Inner<'a>>)
        requires
            meta.wf(),
            meta.contains(field),
        ensures
            r is Some <==> total_items(meta.blocks_of(field)) <= usize::MAX,
            r is Some ==> r->0.wf() && r->0.meta == meta && r->0.data@ == data@ && r->0.field
                == field && r->0.loaded is None,
    {
        match BlockIndex::new(meta.view_blocks(&field)) {
            Some(index) => Some(
                Inner { meta, data, field, index, loaded: None, buffer: Vec::new() },
            ),
            None => None,
        }
    }

    /// Makes block `b` the block held, decompressing it unless it is held
    /// already. On failure the block held before stays.
    pub fn fetch_block(&mut self, b: usize) -> (r: Result<(), GbamError>)
        requires
            old(self).wf(),
        ensures
            final(self).wf(),
            final(self).same_source(*old(self)),
            r is Ok <==> block_bytes(*old(self).meta, old(self).data@, old(self).field, b as int)
                is Some,
            r is Ok ==> final(self).loaded == Some(b),
            r is Err ==> r->Err_0 == GbamError::BlockCorrupt(old(self).field, b)
                && final(self).loaded == old(self).loaded && final(self).buffer == old(
                self,
            ).buffer,
    {
        match self.loaded {
            Some(held) => {
                if held == b {
                    return Ok(());
                }
            },
            None => {},
        }
        let meta = self.meta;
        let data = self.data;
        let blocks = meta.view_blocks(&self.field);
        let sizes = meta.view_blocks_sizes(&self.field);
        if b >= blocks.len() || b >= sizes.len() {
            return Err(GbamError::BlockCorrupt(self.field, b));
        }
        let seekpos: u64 = blocks[b].seekpos;
        let size: u32 = sizes[b];
        if seekpos as u128 + size as u128 > data.len() as u128 {
            return Err(GbamError::BlockCorrupt(self.field, b));
        }
        let start: usize = seekpos as usize;
        let end: usize = start + size as usize;
        match decompress(meta.get_field_codec(&self.field), &data[start..end]) {
            Some(bytes) => {
                self.buffer = bytes;
                self.loaded = Some(b);
                Ok(())
            },
            None => Err(GbamError::BlockCorrupt(self.field, b)),
        }
    }
}

/// Reads the items of a fixed-width field by record number.
#[derive(Debug)]
pub struct FixedColumn<'a> {
    pub inner: Inner<'a>,
    pub item_size: usize,
}

impl<'a> FixedColumn<'a> {
    /// The column belongs to a fixed-width field of the container and has
    /// the field's item width.
    pub open spec fn wf(self) -> bool {
        &&& self.inner.wf()
        &&& self.inner.field.item_size() == Some(self.item_size as nat)
    }

    /// The field that the column reads.
    pub open spec fn field(self) -> Fields {
        self.inner.field
    }

    /// What reading record `rec` gives.
    pub open spec fn item(self, rec: int) -> Result<Seq<u8>, GbamError> {
        fixed_item(*self.inner.meta, self.inner.data@, self.inner.field, rec)
    }

    /// The block that holds record `rec`.
    pub open spec fn block_of(self, rec: int) -> usize {
        block_holding(self.inner.meta.blocks_of(self.inner.field), rec) as usize
    }

    /// The block held after record `rec` was asked for.
    pub open spec fn held_after(self, rec: int) -> Option<usize> {
        held_after(*self.inner.meta, self.inner.data@, self.inner.field, rec, self.inner.loaded)
    }

    /// A column over a block holder, for items of `item_size` bytes.
    pub fn new(inner: Inner<'a>, item_size: usize) -> (c: Self)
        ensures
            c.inner == inner,
            c.item_size == item_size,
    {
        FixedColumn { inner, item_size }
    }

    /// The stored bytes of record `rec`: exactly `item_size` bytes. After a
    /// read that succeeds the column holds the block of the record; a
    /// record past the end, or a block that cannot be decompressed, leaves
    /// the block held before.
    pub fn item_bytes(&mut self, rec: usize) -> (r: Result<&[u8], GbamError>)
        requires
            old(self).wf(),
        ensures
            final(self).wf(),
            final(self).inner.same_source(old(self).inner),
            final(self).item_size == old(self).item_size,
            final(self).inner.loaded == old(self).held_after(rec as int),
            r is Ok ==> final(self).inner.loaded == Some(old(self).block_of(rec as int)),
            match r {
                Ok(bytes) => old(self).item(rec as int) == Ok::<Seq<u8>, GbamError>(bytes@)
                    && bytes@.len() == old(self).item_size,
                Err(e) => old(self).item(rec as int) == Err::<Seq<u8>, GbamError>(e),
            },
    {
        let blocks = self.inner.meta.view_blocks(&self.inner.field);
        let (b, p) = match self.inner.index.locate(blocks, rec) {
            Some(found) => found,
            None => {
                return Err(GbamError::OutOfRange);
            },
        };
        proof {
            lemma_block_holding_unique(blocks@, b as int, rec as int);
            lemma_items_before_monotone(blocks@, b + 1, blocks@.len() as int);
        }
        let numitems: u32 = blocks[b].numitems;
        match self.inner.fetch_block(b) {
            Err(e) => {
                return Err(e);
            },
            Ok(()) => {},
        }
        let size: usize = self.item_size;
        if self.inner.buffer.len() as u128 != numitems as u128 * size as u128 {
            return Err(GbamError::BlockCorrupt(self.inner.field, b));
        }
        assert(p * size <= (p + 1) * size <= numitems * size) by (nonlinear_arith)
            requires
                0 <= p < numitems,
                0 <= size,
        ;
        let from: usize = p * size;
        let to: usize = from + size;
        assert(to == (p + 1) * size) by (nonlinear_arith)
            requires
                from == p * size,
                to == from + size,
        ;
        Ok(vstd::slice::slice_subrange(self.inner.buffer.as_slice(), from, to))
    }
}

/// Reads the items of a variable-width field by record number, through the
/// field's offset column.
#[derive(Debug)]
pub struct VariableColumn<'a> {
    pub inner: Inner<'a>,
    pub index: FixedColumn<'a>,
}

impl<'a> VariableColumn<'a> {
    /// The column belongs to a variable-width field of the container, its
    /// offset column to the field's index field, and the block lists of the
    /// two are aligned.
    pub open spec fn wf(self) -> bool {
        &&& self.inner.wf()
        &&& self.index.wf()
        &&& self.index.inner.meta == self.inner.meta
        &&& self.index.inner.data@ == self.inner.data@
        &&& self.inner.field.index_field() == Some(self.index.field())
        &&& aligned(
            self.inner.meta.blocks_of(self.inner.field),
            self.inner.meta.blocks_of(self.index.field()),
        )
    }

    /// The field that the column reads.
    pub open spec fn field(self) -> Fields {
        self.inner.field
    }

    /// What reading record `rec` gives.
    pub open spec fn item(self, rec: int) -> Result<Seq<u8>, GbamError> {
        variable_item(*self.inner.meta, self.inner.data@, self.inner.field, rec)
    }

    /// The block that holds record `rec`, in the field's block list as in
    /// that of its offset column.
    pub open spec fn block_of(self, rec: int) -> usize {
        block_holding(self.inner.meta.blocks_of(self.inner.field), rec) as usize
    }

    /// The block of the field held after record `rec` was asked for: the
    /// block of the record where its offsets could be read and the block
    /// can be decompressed, else the block held before.
    pub open spec fn held_after(self, rec: int) -> Option<usize> {
        if self.index.item(rec) is Ok {
            held_after(*self.inner.meta, self.inner.data@, self.inner.field, rec, self.inner.loaded)
        } else {
            self.inner.loaded
        }
    }

    /// A column over the block holder of a variable-width field and the
    /// offset column that goes with it.
    pub fn new(inner: Inner<'a>, index: FixedColumn<'a>) -> (c: Self)
        ensures
            c.inner == inner,
            c.index == index,
    {
        VariableColumn { inner, index }
    }

    /// The stored bytes of record `rec`. After a read that succeeds the
    /// column and its offset column both hold the block of the record.
    pub fn item_bytes(&mut self, rec: usize) -> (r: Result<&[u8], GbamError>)
        requires
            old(self).wf(),
        ensures
            final(self).wf(),
            final(self).inner.same_source(old(self).inner),
            final(self).index.inner.same_source(old(self).index.inner),
            final(self).index.inner.loaded == old(self).index.held_after(rec as int),
            final(self).inner.loaded == old(self).held_after(rec as int),
            r is Ok ==> final(self).inner.loaded == Some(old(self).block_of(rec as int))
                && final(self).index.inner.loaded == Some(old(self).block_of(rec as int)),
            match r {
                Ok(bytes) => old(self).item(rec as int) == Ok::<Seq<u8>, GbamError>(bytes@),
                Err(e) => old(self).item(rec as int) == Err::<Seq<u8>, GbamError>(e),
            },
    {
        let index_blocks = self.index.inner.meta.view_blocks(&self.index.inner.field);
        let (b, p) = match self.index.inner.index.locate(index_blocks, rec) {
            Some(found) => found,
            None => {
                return Err(GbamError::OutOfRange);
            },
        };
        proof {
            let blocks = self.inner.meta.blocks_of(self.inner.field);
            lemma_block_holding_unique(index_blocks@, b as int, rec as int);
            lemma_items_before_monotone(index_blocks@, b as int, b as int);
            lemma_aligned_items_before(blocks, index_blocks@, b as int);
            lemma_aligned_items_before(blocks, index_blocks@, b + 1);
            lemma_aligned_items_before(blocks, index_blocks@, blocks.len() as int);
            lemma_block_holding_unique(blocks, b as int, rec as int);
        }
        let end: u32 = match self.index.item_bytes(rec) {
            Ok(bytes) => read_u32_le(bytes),
            Err(e) => {
                return Err(e);
            },
        };
        let start: u32 = if p == 0 {
            0
        } else {
            proof {
                lemma_block_holding_unique(index_blocks@, b as int, rec - 1);
            }
            match self.index.item_bytes(rec - 1) {
                Ok(bytes) => read_u32_le(bytes),
                Err(e) => {
                    return Err(e);
                },
            }
        };
        match self.inner.fetch_block(b) {
            Err(e) => {
                return Err(e);
            },
            Ok(()) => {},
        }
        if start > end || end as usize > self.inner.buffer.len() {
            return Err(GbamError::BlockCorrupt(self.inner.field, b));
        }
        Ok(vstd::slice::slice_subrange(self.inner.buffer.as_slice(), start as usize, end as usize))
    }
}

/// A column of either kind.
#[derive(Debug)]
pub enum Column<'a> {
    Fixed(FixedColumn<'a>),
    Variable(VariableColumn<'a>),
}

impl<'a> Column<'a> {
    /// The column is well formed.
    pub open spec fn wf(self) -> bool {
        match self {
            Column::Fixed(c) => c.wf(),
            Column::Variable(c) => c.wf(),
        }
    }

    /// The block holder of the column's own field.
    pub open spec fn inner(self) -> Inner<'a> {
        match self {
            Column::Fixed(c) => c.inner,
            Column::Variable(c) => c.inner,
        }
    }

    /// The block that holds record `rec`.
    pub open spec fn block_of(self, rec: int) -> usize {
        block_holding(self.inner().meta.blocks_of(self.field()), rec) as usize
    }

    /// The block of the column's field held after record `rec` was asked
    /// for.
    pub open spec fn held_after(self, rec: int) -> Option<usize> {
        match self {
            Column::Fixed(c) => c.held_after(rec),
            Column::Variable(c) => c.held_after(rec),
        }
    }

    /// What reading record `rec` gives.
    pub open spec fn item(self, rec: int) -> Result<Seq<u8>, GbamError> {
        column_item(*self.inner().meta, self.inner().data@, self.field(), rec)
    }

    /// The attribute that record `rec` gives.
    pub open spec fn value(self, rec: int) -> FieldValue {
        decode_value(self.field(), self.item(rec)->Ok_0)
    }

    /// The field that the column reads.
    pub open spec fn field(self) -> Fields {
        match self {
            Column::Fixed(c) => c.field(),
            Column::Variable(c) => c.field(),
        }
    }

    /// The block of the field that the column holds decompressed, if any.
    pub open spec fn loaded(self) -> Option<usize> {
        match self {
            Column::Fixed(c) => c.inner.loaded,
            Column::Variable(c) => c.inner.loaded,
        }
    }

    /// The stored bytes of record `rec` of the column's field. After a read
    /// that succeeds the column holds the block of the record.
    pub fn item_bytes(&mut self, rec: usize) -> (r: Result<&[u8], GbamError>)
        requires
            old(self).wf(),
        ensures
            final(self).wf(),
            final(self).inner().same_source(old(self).inner()),
            final(self).loaded() == old(self).held_after(rec as int),
            r is Ok ==> final(self).loaded() == Some(old(self).block_of(rec as int)),
            match r {
                Ok(bytes) => old(self).item(rec as int) == Ok::<Seq<u8>, GbamError>(bytes@) && (old(
                    self,
                ).field().item_size() is Some ==> bytes@.len() == old(self).field().item_size()->0),
                Err(e) => old(self).item(rec as int) == Err::<Seq<u8>, GbamError>(e),
            },
    {
        match self {
            Column::Fixed(c) => c.item_bytes(rec),
            Column::Variable(c) => c.item_bytes(rec),
        }
    }

    /// Reads record `rec` of the column's field into the field's attribute
    /// of `out`; the other attributes stay as they are. On failure `out` is
    /// unchanged. After a read that succeeds the column holds the block of
    /// the record.
    pub fn fill_record_field(&mut self, rec: usize, out: &mut GbamRecord) -> (r: Result<
        (),
        GbamError,
    >)
        requires
            old(self).wf(),
        ensures
            final(self).wf(),
            final(self).inner().same_source(old(self).inner()),
            final(self).loaded() == old(self).held_after(rec as int),
            r is Ok ==> final(self).loaded() == Some(old(self).block_of(rec as int)),
            match r {
                Ok(()) => old(self).item(rec as int) is Ok && forall|g: Fields|
                    final(out).value_of(g) == (if g == old(self).field() {
                        Some(old(self).value(rec as int))
                    } else {
                        old(out).value_of(g)
                    }),
                Err(e) => old(self).item(rec as int) == Err::<Seq<u8>, GbamError>(e) && *final(out)
                    == *old(out),
            },
    {
        let field = self.field_of();
        match self.item_bytes(rec) {
            Ok(bytes) => {
                out.set_field(&field, bytes);
                Ok(())
            },
            Err(e) => Err(e),
        }
    }

    /// The field that the column reads.
    pub fn field_of(&self) -> (f: Fields)
        ensures
            f == self.field(),
    {
        match self {
            Column::Fixed(c) => c.inner.field,
            Column::Variable(c) => c.inner.field,
        }
    }

    /// The block of the field that the column holds decompressed, if any.
    pub fn loaded_block(&self) -> (b: Option<usize>)
        ensures
            b == self.loaded(),
    {
        match self {
            Column::Fixed(c) => c.inner.loaded,
            Column::Variable(c) => c.inner.loaded,
        }
    }
}

} // verus!
