use crate::bytes::{le_u32, le_u64};
use crate::column::{column_item, Column, FixedColumn, Inner, VariableColumn};
use crate::crc::{crc32, crc32_checksum};
use crate::error::GbamError;
use crate::fields::{field_item_size, var_size_field_to_index, Fields, FIELDS_NUM};
use crate::header::{is_header, FileInfo};
use crate::block_index::block_holding;
use crate::meta::{lemma_fields_agree, total_items, FileMeta};
use crate::record::{decode_value, FieldValue, GbamRecord};
use crate::template::ParsingTemplate;
use vstd::prelude::*;

verus! {

/// Where the header of `data` says the metadata starts.
pub open spec fn meta_offset(data: Seq<u8>) -> int {
    le_u64(data.subrange(16, 24))
}

/// The metadata of `data`: the bytes from the metadata offset to the end.
pub open spec fn meta_bytes(data: Seq<u8>) -> Seq<u8> {
    data.subrange(meta_offset(data), data.len() as int)
}

/// The checksum that the header of `data` stores for the metadata.
pub open spec fn stored_crc(data: Seq<u8>) -> int {
    le_u32(data.subrange(24, 28))
}

/// What is wrong with a file, if anything: the header is corrupt where the
/// file is shorter than a header or does not open with the magic; else the
/// metadata is corrupt where its offset lies past the end of the file or
/// its checksum is not the one that the header stores.
pub open spec fn check(data: Seq<u8>) -> Result<(), GbamError> {
    if !is_header(data) {
        Err(GbamError::CorruptHeader)
    } else if meta_offset(data) > data.len() || crc32_checksum(meta_bytes(data)) != stored_crc(
        data,
    ) {
        Err(GbamError::MetadataCorrupt)
    } else {
        Ok(())
    }
}

/// Checks the header and the metadata checksum of a file and hands out the
/// metadata bytes.
pub fn verify_and_locate_meta(data: &[u8]) -> (r: Result<&[u8], GbamError>)
    ensures
        match r {
            Ok(meta) => check(data@) is Ok && meta@ == meta_bytes(data@),
            Err(e) => check(data@) == Err::<(), GbamError>(e),
        },
{
    let info = match FileInfo::from_bytes(data) {
        Ok(info) => info,
        Err(e) => {
            return Err(e);
        },
    };
    if info.seekpos > data.len() as u64 {
        return Err(GbamError::MetadataCorrupt);
    }
    let meta = &data[info.seekpos as usize..data.len()];
    if crc32(meta) != info.crc32 {
        return Err(GbamError::MetadataCorrupt);
    }
    Ok(meta)
}

/// Checks the header and the metadata checksum of a file.
pub fn verify(data: &[u8]) -> (r: Result<(), GbamError>)
    ensures
        r == check(data@),
{
    match verify_and_locate_meta(data) {
        Ok(_) => Ok(()),
        Err(e) => Err(e),
    }
}

/// Builds the column of one field of a container.
pub fn init_col<'a>(field: Fields, data: &'a [u8], meta: &'a FileMeta) -> (c: Column<'a>)
    requires
        meta.consistent(),
        meta.contains(field),
        meta.record_count() <= usize::MAX,
    ensures
        c.wf(),
        c.field() == field,
        c.inner().meta == meta,
        c.inner().data@ == data@,
        c.loaded() is None,
{
    proof {
        lemma_fields_agree(*meta, field, field);
    }
    let inner = match Inner::new(meta, field, data) {
        Some(inner) => inner,
        None => unreached(),
    };
    match field_item_size(&field) {
        Some(size) => Column::Fixed(FixedColumn::new(inner, size)),
        None => {
            let index_field = var_size_field_to_index(&field);
            proof {
                lemma_fields_agree(*meta, index_field, index_field);
            }
            let index_inner = match Inner::new(meta, index_field, data) {
                Some(inner) => inner,
                None => unreached(),
            };
            let index_size = match field_item_size(&index_field) {
                Some(size) => size,
                None => unreached(),
            };
            Column::Variable(VariableColumn::new(inner, FixedColumn::new(index_inner, index_size)))
        },
    }
}

/// Reads the records of a container through one column per active field.
#[derive(Debug)]
pub struct Reader<'a> {
    /// One slot per field of the catalog; a field has a column when the
    /// template that the reader was made with has it active.
    pub columns: Vec<Option<Column<'a>>>,
    pub parsing_template: ParsingTemplate,
    pub original_template: ParsingTemplate,
    /// The number of records in the container.
    pub amount: usize,
    pub file_meta: &'a FileMeta,
    pub data: &'a [u8],
}

impl<'a> Reader<'a> {
    /// The reader has a column for the field.
    pub open spec fn has_column(self, field: Fields) -> bool {
        self.columns@[field.ordinal() as int] is Some
    }

    /// The column of a field that has one.
    pub open spec fn column_of(self, field: Fields) -> Column<'a> {
        self.columns@[field.ordinal() as int]->0
    }

    /// The metadata is consistent, the record count is the metadata's, and
    /// the fields with a column are the active fields of the template that
    /// the reader was made with, each column reading its field from the
    /// reader's file.
    pub open spec fn wf(self) -> bool {
        &&& self.file_meta.consistent()
        &&& self.columns@.len() == FIELDS_NUM
        &&& self.amount == self.file_meta.record_count()
        &&& forall|f: Fields| #[trigger] self.has_column(f) <==> self.original_template.is_active(f)
        &&& forall|f: Fields| #[trigger]
            self.has_column(f) ==> {
                &&& self.column_of(f).wf()
                &&& self.column_of(f).field() == f
                &&& self.column_of(f).inner().meta == self.file_meta
                &&& self.column_of(f).inner().data@ == self.data@
            }
    }

    /// The reader reads the same file with the same columns as `other`;
    /// only the blocks held and the current template may differ.
    pub open spec fn same_setup(self, other: Self) -> bool {
        &&& self.file_meta == other.file_meta
        &&& self.data@ == other.data@
        &&& self.amount == other.amount
        &&& self.original_template == other.original_template
        &&& forall|f: Fields| self.has_column(f) == other.has_column(f)
    }

    /// The reader is `before` with the current template narrowed to the
    /// given fields.
    pub open spec fn narrowed_to(self, before: Self, fields: Seq<Fields>) -> bool {
        &&& self.same_setup(before)
        &&& self.columns@ == before.columns@
        &&& forall|f: Fields| self.parsing_template.is_data_field(f) <==> fields.contains(f)
    }

    /// The reader is `before` with the template that it was made with
    /// current again.
    pub open spec fn restored_from(self, before: Self) -> bool {
        &&& self.same_setup(before)
        &&& self.columns@ == before.columns@
        &&& self.parsing_template == before.original_template
    }

    /// The block of a field that holds record `rec`.
    pub open spec fn block_of(self, field: Fields, rec: int) -> usize {
        block_holding(self.file_meta.blocks_of(field), rec) as usize
    }

    /// What reading record `rec` of a field gives: the value that the
    /// stored bytes stand for; out of range where the field has no column.
    pub open spec fn read(self, field: Fields, rec: int) -> Result<FieldValue, GbamError> {
        if !self.has_column(field) {
            Err(GbamError::OutOfRange)
        } else {
            match column_item(*self.file_meta, self.data@, field, rec) {
                Ok(bytes) => Ok(decode_value(field, bytes)),
                Err(e) => Err(e),
            }
        }
    }

    /// Makes a reader over a file whose header and checksum are not looked
    /// at. The metadata is malformed where it is not consistent, where the
    /// record count does not fit in `usize`, or where it lacks a field that
    /// the template has active.
    pub fn new_with_meta(
        data: &'a [u8],
        parsing_template: ParsingTemplate,
        file_meta: &'a FileMeta,
    ) -> (r: Result<Reader<'a>, GbamError>)
        ensures
            r is Ok <==> file_meta.consistent() && file_meta.record_count() <= usize::MAX
                && forall|f: Fields| parsing_template.is_active(f) ==> file_meta.contains(f),
            r is Err ==> r->Err_0 == GbamError::MetadataMalformed,
            r is Ok ==> {
                &&& r->Ok_0.wf()
                &&& r->Ok_0.parsing_template == parsing_template
                &&& r->Ok_0.original_template == parsing_template
                &&& r->Ok_0.file_meta == file_meta
                &&& r->Ok_0.data@ == data@
                &&& forall|f: Fields| #[trigger]
                    r->Ok_0.has_column(f) ==> r->Ok_0.column_of(f).loaded() is None
                &&& forall|f: Fields| #[trigger]
                    file_meta.contains(f) ==> r->Ok_0.amount == total_items(file_meta.blocks_of(f))
            },
    {
        if !file_meta.is_consistent() {
            return Err(GbamError::MetadataMalformed);
        }
        let count = file_meta.count_records();
        if count > usize::MAX as u128 {
            return Err(GbamError::MetadataMalformed);
        }
        let mut columns: Vec<Option<Column<'a>>> = Vec::new();
        let mut i: usize = 0;
        while i < FIELDS_NUM
            invariant
                i <= FIELDS_NUM,
                columns@.len() == i,
                file_meta.consistent(),
                file_meta.record_count() <= usize::MAX,
                forall|f: Fields|
                    #![trigger f.ordinal()]
                    f.ordinal() < i ==> {
                        &&& columns@[f.ordinal() as int] is Some <==> parsing_template.is_active(f)
                        &&& parsing_template.is_active(f) ==> file_meta.contains(f)
                        &&& columns@[f.ordinal() as int] is Some ==> {
                            let c = columns@[f.ordinal() as int]->0;
                            &&& c.wf()
                            &&& c.field() == f
                            &&& c.inner().meta == file_meta
                            &&& c.inner().data@ == data@
                            &&& c.loaded() is None
                        }
                    },
            decreases FIELDS_NUM - i,
        {
            let field = match Fields::from_index(i) {
                Some(field) => field,
                None => unreached(),
            };
            if parsing_template.check_if_active(&field) {
                if !file_meta.has_field(&field) {
                    return Err(GbamError::MetadataMalformed);
                }
                columns.push(Some(init_col(field, data, file_meta)));
            } else {
                columns.push(None);
            }
            i += 1;
        }
        proof {
            assert forall|f: Fields| #![trigger f.ordinal()] f.ordinal() < FIELDS_NUM by {}
            assert forall|f: Fields| #[trigger] file_meta.contains(f) implies count == total_items(
                file_meta.blocks_of(f),
            ) by {
                lemma_fields_agree(*file_meta, f, f);
            }
        }
        Ok(
            Reader {
                columns,
                parsing_template,
                original_template: parsing_template,
                amount: count as usize,
                file_meta,
                data,
            },
        )
    }

    /// Makes a reader over a file after checking its header and the
    /// checksum of its metadata bytes; `file_meta` is what those bytes
    /// spell.
    pub fn new(data: &'a [u8], parsing_template: ParsingTemplate, file_meta: &'a FileMeta) -> (r:
        Result<Reader<'a>, GbamError>)
        ensures
            check(data@) is Err ==> r is Err && r->Err_0 == check(data@)->Err_0,
            check(data@) is Ok ==> {
                &&& r is Ok <==> file_meta.consistent() && file_meta.record_count() <= usize::MAX
                    && forall|f: Fields| parsing_template.is_active(f) ==> file_meta.contains(f)
                &&& r is Err ==> r->Err_0 == GbamError::MetadataMalformed
            },
            r is Ok ==> {
                &&& r->Ok_0.wf()
                &&& r->Ok_0.parsing_template == parsing_template
                &&& r->Ok_0.original_template == parsing_template
                &&& r->Ok_0.file_meta == file_meta
                &&& r->Ok_0.data@ == data@
                &&& forall|f: Fields| #[trigger]
                    r->Ok_0.has_column(f) ==> r->Ok_0.column_of(f).loaded() is None
                &&& forall|f: Fields| #[trigger]
                    file_meta.contains(f) ==> r->Ok_0.amount == total_items(file_meta.blocks_of(f))
            },
    {
        match verify(data) {
            Ok(()) => Reader::new_with_meta(data, parsing_template, file_meta),
            Err(e) => Err(e),
        }
    }
}

impl<'a> Reader<'a> {
    /// The catalog position of the first data field of the current
    /// template, at or after position `from`, that cannot be read for
    /// record `rec`; `FIELDS_NUM` where all of them can.
    pub open spec fn first_failure(self, rec: int, from: nat) -> nat
        decreases FIELDS_NUM - from,
    {
        if from >= FIELDS_NUM {
            FIELDS_NUM as nat
        } else if self.parsing_template.is_data_field(Fields::at(from)) && self.read(
            Fields::at(from),
            rec,
        ) is Err {
            from
        } else {
            self.first_failure(rec, from + 1)
        }
    }

    /// Where filling a record with record `rec` stops: at once where the
    /// file has no such record, else at the first data field that cannot
    /// be read.
    pub open spec fn fill_stop(self, rec: int) -> nat {
        if 0 <= rec < self.amount {
            self.first_failure(rec, 0)
        } else {
            0
        }
    }

    /// Reads record `rec_num` of one field into the field's attribute of
    /// `rec`; the other attributes stay as they are. On failure `rec` is
    /// unchanged. A field without a column is out of range. Only the
    /// field's own column is touched; after a read that succeeds it holds
    /// the block of the record.
    pub fn fill_record_field(&mut self, field: &Fields, rec_num: usize, rec: &mut GbamRecord) -> (r:
        Result<(), GbamError>)
        requires
            old(self).wf(),
        ensures
            final(self).wf(),
            final(self).same_setup(*old(self)),
            final(self).parsing_template == old(self).parsing_template,
            forall|g: Fields|
                #![trigger g.ordinal()]
                g != *field ==> final(self).columns@[g.ordinal() as int] == old(
                    self,
                ).columns@[g.ordinal() as int],
            old(self).has_column(*field) ==> final(self).column_of(*field).loaded() == old(
                self,
            ).column_of(*field).held_after(rec_num as int),
            r is Ok ==> final(self).column_of(*field).loaded() == Some(
                old(self).block_of(*field, rec_num as int),
            ),
            match r {
                Ok(()) => old(self).read(*field, rec_num as int) is Ok && forall|g: Fields|
                    final(rec).value_of(g) == (if g == *field {
                        Some(old(self).read(g, rec_num as int)->Ok_0)
                    } else {
                        old(rec).value_of(g)
                    }),
                Err(e) => old(self).read(*field, rec_num as int) == Err::<FieldValue, GbamError>(e)
                    && *final(rec) == *old(rec),
            },
    {
        let i = field.index();
        let ghost before = *self;
        let filled = match &mut self.columns[i] {
            Some(column) => column.fill_record_field(rec_num, rec),
            None => Err(GbamError::OutOfRange),
        };
        proof {
            assert forall|f: Fields| self.has_column(f) == before.has_column(f) by {}
            assert forall|f: Fields| #[trigger] self.has_column(f) implies {
                &&& self.column_of(f).wf()
                &&& self.column_of(f).field() == f
                &&& self.column_of(f).inner().meta == self.file_meta
                &&& self.column_of(f).inner().data@ == self.data@
            } by {
                assert(before.has_column(f));
            }
            assert forall|f: Fields| #[trigger]
                self.has_column(f) <==> self.original_template.is_active(f) by {
                assert(before.has_column(f) <==> before.original_template.is_active(f));
            }
        }
        filled
    }

    /// Reads record `rec_num` into `rec`: the attribute of every data field
    /// of the current template, in catalog order. The other attributes stay
    /// as they are. Reading stops at the first field that fails; the
    /// attributes of the fields before it are then filled. A record number
    /// past the end is out of range and touches no column; a data field
    /// without a column is out of range too. The columns of other fields
    /// are not touched, and after a read that succeeds the column of every
    /// data field holds the block of the record.
    pub fn fill_record(&mut self, rec_num: usize, rec: &mut GbamRecord) -> (r: Result<
        (),
        GbamError,
    >)
        requires
            old(self).wf(),
        ensures
            final(self).wf(),
            final(self).same_setup(*old(self)),
            final(self).parsing_template == old(self).parsing_template,
            rec_num >= old(self).amount ==> final(self).columns@ == old(self).columns@,
            forall|g: Fields|
                #![trigger g.ordinal()]
                !old(self).parsing_template.is_data_field(g) ==> final(self).columns@[g.ordinal() as int]
                    == old(self).columns@[g.ordinal() as int],
            r is Ok ==> forall|g: Fields|
                #![trigger g.ordinal()]
                old(self).parsing_template.is_data_field(g) ==> final(self).column_of(g).loaded()
                    == Some(old(self).block_of(g, rec_num as int)),
            r is Ok <==> rec_num < old(self).amount && old(self).fill_stop(rec_num as int)
                == FIELDS_NUM,
            r is Err ==> r->Err_0 == (if rec_num >= old(self).amount {
                GbamError::OutOfRange
            } else {
                old(self).read(Fields::at(old(self).fill_stop(rec_num as int)), rec_num as int)->Err_0
            }),
            forall|f: Fields|
                final(rec).value_of(f) == (if old(self).parsing_template.is_data_field(f)
                    && f.ordinal() < old(self).fill_stop(rec_num as int) {
                    Some(old(self).read(f, rec_num as int)->Ok_0)
                } else {
                    old(rec).value_of(f)
                }),
    {
        if rec_num >= self.amount {
            return Err(GbamError::OutOfRange);
        }
        let ghost start = *self;
        let mut i: usize = 0;
        while i < FIELDS_NUM
            invariant
                i <= FIELDS_NUM,
                start == *old(self),
                rec_num < start.amount,
                start.wf(),
                self.wf(),
                self.same_setup(start),
                self.parsing_template == start.parsing_template,
                forall|g: Fields|
                    #![trigger g.ordinal()]
                    !start.parsing_template.is_data_field(g) || g.ordinal() >= i
                        ==> self.columns@[g.ordinal() as int] == start.columns@[g.ordinal() as int],
                forall|g: Fields|
                    #![trigger g.ordinal()]
                    start.parsing_template.is_data_field(g) && g.ordinal() < i ==> self.column_of(
                        g,
                    ).loaded() == Some(start.block_of(g, rec_num as int)),
                start.first_failure(rec_num as int, 0) == start.first_failure(
                    rec_num as int,
                    i as nat,
                ),
                forall|f: Fields|
                    rec.value_of(f) == (if start.parsing_template.is_data_field(f) && f.ordinal()
                        < i {
                        Some(start.read(f, rec_num as int)->Ok_0)
                    } else {
                        old(rec).value_of(f)
                    }),
            decreases FIELDS_NUM - i,
        {
            let field = match Fields::from_index(i) {
                Some(field) => field,
                None => unreached(),
            };
            if self.parsing_template.check_if_data_field(&field) {
                match self.fill_record_field(&field, rec_num, rec) {
                    Ok(()) => {},
                    Err(e) => {
                        return Err(e);
                    },
                }
            }
            i += 1;
        }
        Ok(())
    }
}

impl<'a> Reader<'a> {
    /// Whether the reader has a column for the field.
    pub fn check_column(&self, field: &Fields) -> (r: bool)
        requires
            self.wf(),
        ensures
            r == self.has_column(*field),
    {
        self.columns[field.index()].is_some()
    }

    /// The column of a field, to read it by record number. A field without
    /// a column is out of range.
    pub fn get_column(&mut self, field: &Fields) -> (r: Result<&mut Column<'a>, GbamError>)
        requires
            old(self).wf(),
        ensures
            r is Ok <==> old(self).has_column(*field),
            r is Err ==> r->Err_0 == GbamError::OutOfRange && final(self).columns@ == old(
                self,
            ).columns@,
            r is Ok ==> *r->Ok_0 == old(self).column_of(*field) && final(self).columns@ == old(
                self,
            ).columns@.update(field.ordinal() as int, Some(*final(r->Ok_0))),
            final(self).parsing_template == old(self).parsing_template,
            final(self).original_template == old(self).original_template,
            final(self).amount == old(self).amount,
            final(self).file_meta == old(self).file_meta,
            final(self).data == old(self).data,
    {
        let i = field.index();
        match &mut self.columns[i] {
            Some(column) => Ok(column),
            None => Err(GbamError::OutOfRange),
        }
    }
}

impl<'a> Reader<'a> {
    /// Narrows the current template to the given fields. The columns and
    /// the template that the reader was made with stay as they are.
    pub fn fetch_only(&mut self, fields: &[Fields])
        requires
            old(self).wf(),
        ensures
            final(self).wf(),
            final(self).narrowed_to(*old(self), fields@),
    {
        self.parsing_template.clear();
        proof {
            lemma_wf_frame(*old(self), *self);
        }
        let mut i: usize = 0;
        while i < fields.len()
            invariant
                i <= fields@.len(),
                self.wf(),
                self.same_setup(*old(self)),
                self.columns@ == old(self).columns@,
                forall|f: Fields|
                    self.parsing_template.is_data_field(f) <==> fields@.subrange(0, i as int).contains(
                        f,
                    ),
            decreases fields@.len() - i,
        {
            let ghost seen = fields@.subrange(0, i as int);
            let ghost next = fields@.subrange(0, i + 1);
            let field = fields[i];
            self.parsing_template.set(&field, true);
            proof {
                lemma_wf_frame(*old(self), *self);
            }
            assert forall|f: Fields| next.contains(f) <==> (seen.contains(f) || f == field) by {
                if next.contains(f) {
                    let k = choose|k: int| 0 <= k < next.len() && next[k] == f;
                    if k < i {
                        assert(seen[k] == f);
                    }
                }
                if seen.contains(f) {
                    let k = choose|k: int| 0 <= k < seen.len() && seen[k] == f;
                    assert(next[k] == f);
                }
                assert(next[i as int] == field);
            }
            i += 1;
        }
        assert(fields@.subrange(0, i as int) =~= fields@);
    }

    /// Makes the template that the reader was made with current again.
    pub fn restore_template(&mut self)
        requires
            old(self).wf(),
        ensures
            final(self).wf(),
            final(self).restored_from(*old(self)),
    {
        self.parsing_template = self.original_template;
        proof {
            lemma_wf_frame(*old(self), *self);
        }
    }

    /// The first record at or after `from` that cannot be filled whole; the
    /// record count where there is none.
    pub open spec fn first_bad_record(self, from: int) -> int
        decreases self.amount - from,
    {
        if from < 0 || from >= self.amount {
            self.amount as int
        } else if self.fill_stop(from) < FIELDS_NUM {
            from
        } else {
            self.first_bad_record(from + 1)
        }
    }

    /// All records of the container, each with the attributes of the data
    /// fields of the current template and no others. Fails with what the
    /// first record that cannot be filled whole fails with.
    pub fn records(&mut self) -> (r: Result<Vec<GbamRecord>, GbamError>)
        requires
            old(self).wf(),
        ensures
            final(self).wf(),
            final(self).same_setup(*old(self)),
            final(self).parsing_template == old(self).parsing_template,
            match r {
                Ok(recs) => recs@.len() == old(self).amount && forall|n: int, f: Fields|
                    0 <= n < recs@.len() ==> #[trigger] recs@[n].value_of(f) == (if old(
                        self,
                    ).parsing_template.is_data_field(f) {
                        Some(old(self).read(f, n)->Ok_0)
                    } else {
                        None
                    }),
                Err(e) => old(self).first_bad_record(0) < old(self).amount && e == old(self).read(
                    Fields::at(old(self).fill_stop(old(self).first_bad_record(0))),
                    old(self).first_bad_record(0),
                )->Err_0,
            },
            r is Ok <==> old(self).first_bad_record(0) == old(self).amount,
    {
        let ghost start = *self;
        let mut recs: Vec<GbamRecord> = Vec::new();
        let mut n: usize = 0;
        while n < self.amount
            invariant
                start == *old(self),
                start.wf(),
                self.wf(),
                self.same_setup(start),
                self.parsing_template == start.parsing_template,
                n <= self.amount,
                recs@.len() == n,
                start.first_bad_record(0) == start.first_bad_record(n as int),
                forall|m: int, f: Fields|
                    0 <= m < recs@.len() ==> #[trigger] recs@[m].value_of(f) == (
                    if start.parsing_template.is_data_field(f) {
                        Some(start.read(f, m)->Ok_0)
                    } else {
                        None
                    }),
            decreases self.amount - n,
        {
            let mut rec = GbamRecord::new();
            let ghost before = *self;
            proof {
                lemma_same_reads(before, start, n as int);
                lemma_first_failure_bound(start, n as int, 0);
            }
            match self.fill_record(n, &mut rec) {
                Ok(()) => {},
                Err(e) => {
                    return Err(e);
                },
            }
            recs.push(rec);
            n += 1;
        }
        Ok(recs)
    }
}

/// A reader stays well formed when only its current template and the
/// blocks that its columns hold change.
pub proof fn lemma_wf_frame(a: Reader<'_>, b: Reader<'_>)
    requires
        a.wf(),
        b.columns@ == a.columns@,
        b.file_meta == a.file_meta,
        b.data@ == a.data@,
        b.amount == a.amount,
        b.original_template == a.original_template,
    ensures
        b.wf(),
        b.same_setup(a),
{
    assert forall|f: Fields| #[trigger] b.has_column(f) <==> b.original_template.is_active(f) by {
        assert(a.has_column(f) <==> a.original_template.is_active(f));
    }
    assert forall|f: Fields| #[trigger] b.has_column(f) implies {
        &&& b.column_of(f).wf()
        &&& b.column_of(f).field() == f
        &&& b.column_of(f).inner().meta == b.file_meta
        &&& b.column_of(f).inner().data@ == b.data@
    } by {
        assert(a.has_column(f));
    }
}

/// A reader stays well formed when one of its columns was used to read:
/// the column is still well formed and reads the same field of the same
/// file, and nothing else changed.
pub proof fn lemma_column_used(before: Reader<'_>, after: Reader<'_>, field: Fields)
    requires
        before.wf(),
        before.has_column(field),
        after.columns@.len() == before.columns@.len(),
        after.has_column(field),
        after.column_of(field).wf(),
        after.column_of(field).inner().same_source(before.column_of(field).inner()),
        forall|g: Fields| g != field ==> after.columns@[g.ordinal() as int] == before.columns@[g.ordinal() as int],
        after.file_meta == before.file_meta,
        after.data@ == before.data@,
        after.amount == before.amount,
        after.original_template == before.original_template,
    ensures
        after.wf(),
        after.same_setup(before),
{
    assert forall|f: Fields| after.has_column(f) == before.has_column(f) by {}
    assert forall|f: Fields| #[trigger] after.has_column(f) implies {
        &&& after.column_of(f).wf()
        &&& after.column_of(f).field() == f
        &&& after.column_of(f).inner().meta == after.file_meta
        &&& after.column_of(f).inner().data@ == after.data@
    } by {}
    assert forall|f: Fields| #[trigger]
        after.has_column(f) <==> after.original_template.is_active(f) by {}
}

/// Narrowing the template of a reader and then restoring it leaves the
/// reader with the template that it was made with: the same data fields and
/// the same active fields, over the same columns.
pub proof fn lemma_restore_undoes_fetch_only(
    made: Reader<'_>,
    narrowed: Reader<'_>,
    restored: Reader<'_>,
    fields: Seq<Fields>,
)
    requires
        narrowed.narrowed_to(made, fields),
        restored.restored_from(narrowed),
    ensures
        restored.parsing_template == made.original_template,
        restored.original_template == made.original_template,
        restored.columns@ == made.columns@,
        forall|f: Fields|
            restored.parsing_template.is_active(f) == made.original_template.is_active(f),
        forall|f: Fields|
            restored.parsing_template.is_data_field(f) == made.original_template.is_data_field(f),
        made.parsing_template == made.original_template ==> restored.parsing_template
            == made.parsing_template,
{
}

/// Two readers over the same file and metadata read the same value for the
/// same field and record, whatever blocks their columns hold.
pub proof fn lemma_readers_agree(a: Reader<'_>, b: Reader<'_>, field: Fields, rec: int)
    requires
        a.data@ == b.data@,
        *a.file_meta == *b.file_meta,
        a.has_column(field) == b.has_column(field),
    ensures
        a.read(field, rec) == b.read(field, rec),
        column_item(*a.file_meta, a.data@, field, rec) == column_item(
            *b.file_meta,
            b.data@,
            field,
            rec,
        ),
{
}

/// Two readers with the same setup and the same current template read the
/// same values and stop filling at the same field.
pub proof fn lemma_same_reads(a: Reader<'_>, b: Reader<'_>, rec: int)
    requires
        a.same_setup(b),
        a.parsing_template == b.parsing_template,
    ensures
        forall|f: Fields| a.read(f, rec) == b.read(f, rec),
        a.fill_stop(rec) == b.fill_stop(rec),
{
    lemma_same_first_failure(a, b, rec, 0);
}

/// Filling stops at a data field that cannot be read, or not at all.
pub proof fn lemma_first_failure_bound(r: Reader<'_>, rec: int, from: nat)
    requires
        from <= FIELDS_NUM,
    ensures
        from <= r.first_failure(rec, from) <= FIELDS_NUM,
        r.first_failure(rec, from) < FIELDS_NUM ==> r.parsing_template.is_data_field(
            Fields::at(r.first_failure(rec, from)),
        ) && r.read(Fields::at(r.first_failure(rec, from)), rec) is Err,
    decreases FIELDS_NUM - from,
{
    if from < FIELDS_NUM {
        lemma_first_failure_bound(r, rec, from + 1);
    }
}

proof fn lemma_same_first_failure(a: Reader<'_>, b: Reader<'_>, rec: int, from: nat)
    requires
        a.same_setup(b),
        a.parsing_template == b.parsing_template,
    ensures
        a.first_failure(rec, from) == b.first_failure(rec, from),
    decreases FIELDS_NUM - from,
{
    if from < FIELDS_NUM {
        lemma_same_first_failure(a, b, rec, from + 1);
    }
}

} // verus!
