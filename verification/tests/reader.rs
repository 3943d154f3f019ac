use gbam_tools::codec::decompress;
use gbam_tools::column::Column;
use gbam_tools::error::GbamError;
use gbam_tools::fields::{field_item_size, Fields, FIELDS_NUM};
use gbam_tools::meta::{count_items, BlockMeta, Codecs, FieldMeta, FieldMetaMap, FileMeta};
use gbam_tools::reader::{init_col, Reader};
use gbam_tools::record::GbamRecord;
use gbam_tools::template::ParsingTemplate;
use gbam_tools::writer::{assemble_file, encode_variable_block};
use std::io::Write;

fn gzip(bytes: &[u8]) -> Vec<u8> {
    let mut encoder = flate2::write::GzEncoder::new(Vec::new(), flate2::Compression::default());
    encoder.write_all(bytes).unwrap();
    encoder.finish().unwrap()
}

fn lz4_frame(bytes: &[u8]) -> Vec<u8> {
    let mut encoder = lz4::EncoderBuilder::new().build(Vec::new()).unwrap();
    encoder.write_all(bytes).unwrap();
    let (out, result) = encoder.finish();
    result.unwrap();
    out
}

fn compress(codec: Codecs, bytes: &[u8]) -> Vec<u8> {
    match codec {
        Codecs::Gzip => gzip(bytes),
        Codecs::Lz4 => lz4_frame(bytes),
    }
}

/// A container under construction: the compressed blocks and the metadata.
struct Builder {
    blocks: Vec<u8>,
    map: FieldMetaMap,
}

impl Builder {
    fn new() -> Self {
        Builder { blocks: Vec::new(), map: FieldMetaMap::new() }
    }

    fn field(&mut self, field: Fields, codec: Codecs) {
        self.map.insert(field, FieldMeta::new(&field, codec));
    }

    fn stored_block(&mut self, field: Fields, stored: &[u8], numitems: u32) {
        let seekpos = (32 + self.blocks.len()) as u64;
        self.blocks.extend_from_slice(stored);
        let slot = self.map.slots[field.index()].as_mut().unwrap();
        slot.blocks.push(BlockMeta { seekpos, numitems });
        slot.blocks_sizes.push(stored.len() as u32);
    }

    fn block(&mut self, field: Fields, raw: &[u8], numitems: u32) {
        let codec = self.map.get(&field).unwrap().codec;
        let stored = compress(codec, raw);
        self.stored_block(field, &stored, numitems);
    }

    fn variable_block(&mut self, field: Fields, index: Fields, items: &[&[u8]]) {
        let owned: Vec<Vec<u8>> = items.iter().map(|i| i.to_vec()).collect();
        let (data, offsets) = encode_variable_block(&owned).unwrap();
        self.block(field, &data, items.len() as u32);
        self.block(index, &offsets, items.len() as u32);
    }

    fn finish(self) -> (Vec<u8>, FileMeta) {
        let (_, bytes) = assemble_file([1, 0], &self.blocks, b"{\"field_to_meta\":{}}");
        (bytes, FileMeta { field_to_meta: self.map })
    }
}

fn le16(values: &[u16]) -> Vec<u8> {
    values.iter().flat_map(|v| v.to_le_bytes()).collect()
}

fn le32(values: &[i32]) -> Vec<u8> {
    values.iter().flat_map(|v| v.to_le_bytes()).collect()
}

fn template(fields: &[Fields]) -> ParsingTemplate {
    let mut t = ParsingTemplate::new();
    for f in fields {
        t.set(f, true);
    }
    t
}

/// Six records in two blocks of every field, gzip for the fixed-width
/// fields and LZ4 for the variable-width ones.
fn full_file() -> (Vec<u8>, FileMeta) {
    let mut b = Builder::new();
    for i in 0..FIELDS_NUM {
        let field = Fields::from_index(i).unwrap();
        let codec = if field_item_size(&field).is_some() { Codecs::Gzip } else { Codecs::Lz4 };
        b.field(field, codec);
    }
    let names: [&[u8]; 6] = [b"r0", b"read1", b"", b"r3", b"four", b"5"];
    let cigars: [&[u8]; 6] = [b"\x10\x00\x00\x00", b"", b"c2", b"c3c3", b"c", b"cc"];
    let seqs: [&[u8]; 6] = [b"\x12", b"\x34\x56", b"", b"\x78", b"\x9a", b"\xbc\xde"];
    let quals: [&[u8]; 6] = [b"!!", b"####", b"", b"$$", b"%%", b"&&&&"];
    let tags: [&[u8]; 6] = [b"NM", b"", b"AS", b"XSXS", b"", b"MD"];
    for (lo, hi) in [(0usize, 4usize), (4, 6)] {
        let n = (hi - lo) as u32;
        let ids: Vec<i32> = (lo..hi).map(|i| i as i32 - 1).collect();
        b.block(Fields::RefID, &le32(&ids), n);
        let pos: Vec<i32> = (lo..hi).map(|i| 1000 * i as i32).collect();
        b.block(Fields::Pos, &le32(&pos), n);
        let mapq: Vec<u8> = (lo..hi).map(|i| 10 * i as u8).collect();
        b.block(Fields::Mapq, &mapq, n);
        let bin: Vec<u16> = (lo..hi).map(|i| 4680 + i as u16).collect();
        b.block(Fields::Bin, &le16(&bin), n);
        let flags: Vec<u16> = (lo..hi).map(|i| 1 << i).collect();
        b.block(Fields::Flags, &le16(&flags), n);
        let next: Vec<i32> = (lo..hi).map(|i| i as i32).collect();
        b.block(Fields::NextRefID, &le32(&next), n);
        let next_pos: Vec<i32> = (lo..hi).map(|i| -(i as i32)).collect();
        b.block(Fields::NextPos, &le32(&next_pos), n);
        let tlen: Vec<i32> = (lo..hi).map(|i| i32::MIN + i as i32).collect();
        b.block(Fields::TemplateLength, &le32(&tlen), n);
        b.variable_block(Fields::ReadName, Fields::LName, &names[lo..hi]);
        b.variable_block(Fields::RawCigar, Fields::NCigar, &cigars[lo..hi]);
        b.variable_block(Fields::RawSequence, Fields::RawSeqLen, &seqs[lo..hi]);
        b.variable_block(Fields::RawQual, Fields::SequenceLength, &quals[lo..hi]);
        b.variable_block(Fields::RawTags, Fields::RawTagsLen, &tags[lo..hi]);
    }
    b.finish()
}

fn flags_file(flags: &[u16]) -> (Vec<u8>, FileMeta) {
    let mut b = Builder::new();
    b.field(Fields::Flags, Codecs::Gzip);
    b.block(Fields::Flags, &le16(flags), flags.len() as u32);
    b.finish()
}

#[test]
fn decompress_undoes_both_codecs() {
    let raw: Vec<u8> = (0..2000u32).map(|i| (i * 31 % 251) as u8).collect();
    assert_eq!(decompress(&Codecs::Gzip, &gzip(&raw)), Some(raw.clone()));
    assert_eq!(decompress(&Codecs::Lz4, &lz4_frame(&raw)), Some(raw.clone()));
    assert_eq!(decompress(&Codecs::Gzip, &gzip(b"")), Some(Vec::new()));
    assert_eq!(decompress(&Codecs::Lz4, &lz4_frame(b"")), Some(Vec::new()));
}

#[test]
fn decompress_rejects_what_is_not_compressed() {
    assert_eq!(decompress(&Codecs::Gzip, b"certainly not a gzip stream"), None);
    assert_eq!(decompress(&Codecs::Lz4, b"certainly not an lz4 frame"), None);
    assert_eq!(decompress(&Codecs::Gzip, &lz4_frame(b"abc")), None);
    assert_eq!(decompress(&Codecs::Lz4, &gzip(b"abc")), None);
}

#[test]
fn reader_new_rejects_wrong_magic() {
    let (mut bytes, meta) = flags_file(&[1, 2, 3]);
    bytes[3] = b'X';
    let r = Reader::new(&bytes, template(&[Fields::Flags]), &meta);
    assert_eq!(r.err(), Some(GbamError::CorruptHeader));
}

#[test]
fn reader_new_rejects_a_flipped_metadata_byte() {
    let (bytes, meta) = flags_file(&[1, 2, 3]);
    assert!(Reader::new(&bytes, template(&[Fields::Flags]), &meta).is_ok());
    let mut damaged = bytes.clone();
    let last = damaged.len() - 1;
    damaged[last] ^= 0x20;
    let r = Reader::new(&damaged, template(&[Fields::Flags]), &meta);
    assert_eq!(r.err(), Some(GbamError::MetadataCorrupt));
    // Without the check the same bytes are read.
    assert!(Reader::new_with_meta(&damaged, template(&[Fields::Flags]), &meta).is_ok());
}

#[test]
fn reader_new_rejects_inconsistent_metadata() {
    let mut b = Builder::new();
    b.field(Fields::Flags, Codecs::Gzip);
    b.field(Fields::Mapq, Codecs::Gzip);
    b.block(Fields::Flags, &le16(&[1, 2, 3]), 3);
    b.block(Fields::Mapq, &[1, 2], 2);
    let (bytes, meta) = b.finish();
    let r = Reader::new(&bytes, template(&[Fields::Flags]), &meta);
    assert_eq!(r.err(), Some(GbamError::MetadataMalformed));
}

#[test]
fn reader_new_rejects_a_template_field_that_the_file_lacks() {
    let (bytes, meta) = flags_file(&[1, 2, 3]);
    let r = Reader::new(&bytes, template(&[Fields::Flags, Fields::Pos]), &meta);
    assert_eq!(r.err(), Some(GbamError::MetadataMalformed));
    let r = Reader::new(&bytes, template(&[Fields::ReadName]), &meta);
    assert_eq!(r.err(), Some(GbamError::MetadataMalformed));
}

#[test]
fn fixed_field_read_of_three_flags() {
    let (bytes, meta) = flags_file(&[0x0001, 0x0004, 0x0400]);
    let mut reader = Reader::new(&bytes, template(&[Fields::Flags]), &meta).unwrap();
    assert_eq!(reader.amount, 3);
    let mut rec = GbamRecord::default();
    reader.fill_record(0, &mut rec).unwrap();
    assert_eq!(rec.flag, Some(0x0001));
    reader.fill_record(1, &mut rec).unwrap();
    assert_eq!(rec.flag, Some(0x0004));
    reader.fill_record(2, &mut rec).unwrap();
    assert_eq!(rec.flag, Some(0x0400));
    let column = reader.get_column(&Fields::Flags).unwrap();
    assert_eq!(column.item_bytes(0), Ok(&[0x01u8, 0x00][..]));
    assert_eq!(column.item_bytes(1), Ok(&[0x04u8, 0x00][..]));
    assert_eq!(column.item_bytes(2), Ok(&[0x00u8, 0x04][..]));
    assert_eq!(column.item_bytes(3), Err(GbamError::OutOfRange));
}

#[test]
fn variable_field_read_of_three_names() {
    let mut b = Builder::new();
    b.field(Fields::ReadName, Codecs::Gzip);
    b.field(Fields::LName, Codecs::Gzip);
    b.variable_block(Fields::ReadName, Fields::LName, &[b"a", b"bc", b"def"]);
    let (bytes, meta) = b.finish();
    let mut reader =
        Reader::new(&bytes, template(&[Fields::ReadName, Fields::LName]), &meta).unwrap();
    let mut rec = GbamRecord::default();
    let mut ends = Vec::new();
    for n in 0..3 {
        reader.fill_record(n, &mut rec).unwrap();
        ends.push(rec.l_name.unwrap());
    }
    assert_eq!(ends, vec![1, 3, 6]);
    reader.fill_record(1, &mut rec).unwrap();
    assert_eq!(rec.read_name, Some(b"bc".to_vec()));
    let column = reader.get_column(&Fields::ReadName).unwrap();
    assert_eq!(column.item_bytes(1), Ok(&b"bc"[..]));
    assert_eq!(column.item_bytes(0), Ok(&b"a"[..]));
    assert_eq!(column.item_bytes(2), Ok(&b"def"[..]));
    assert_eq!(column.item_bytes(3), Err(GbamError::OutOfRange));
}

#[test]
fn full_template_reads_back_every_field() {
    let (bytes, meta) = full_file();
    let mut reader = Reader::new(&bytes, ParsingTemplate::new_with_all(), &meta).unwrap();
    assert_eq!(reader.amount, 6);
    let names: [&[u8]; 6] = [b"r0", b"read1", b"", b"r3", b"four", b"5"];
    let cigars: [&[u8]; 6] = [b"\x10\x00\x00\x00", b"", b"c2", b"c3c3", b"c", b"cc"];
    let seqs: [&[u8]; 6] = [b"\x12", b"\x34\x56", b"", b"\x78", b"\x9a", b"\xbc\xde"];
    let quals: [&[u8]; 6] = [b"!!", b"####", b"", b"$$", b"%%", b"&&&&"];
    let tags: [&[u8]; 6] = [b"NM", b"", b"AS", b"XSXS", b"", b"MD"];
    let name_ends = [2u32, 7, 7, 9, 4, 5];
    for n in 0..6usize {
        let mut rec = GbamRecord::default();
        reader.fill_record(n, &mut rec).unwrap();
        assert_eq!(rec.refid, Some(n as i32 - 1));
        assert_eq!(rec.pos, Some(1000 * n as i32));
        assert_eq!(rec.mapq, Some(10 * n as u8));
        assert_eq!(rec.bin, Some(4680 + n as u16));
        assert_eq!(rec.flag, Some(1 << n));
        assert_eq!(rec.next_ref_id, Some(n as i32));
        assert_eq!(rec.next_pos, Some(-(n as i32)));
        assert_eq!(rec.tlen, Some(i32::MIN + n as i32));
        assert_eq!(rec.read_name, Some(names[n].to_vec()));
        assert_eq!(rec.cigar, Some(cigars[n].to_vec()));
        assert_eq!(rec.seq, Some(seqs[n].to_vec()));
        assert_eq!(rec.qual, Some(quals[n].to_vec()));
        assert_eq!(rec.tags, Some(tags[n].to_vec()));
        assert_eq!(rec.l_name, Some(name_ends[n]));
        assert!(rec.n_cigar.is_some());
        assert!(rec.seq_len.is_some());
        assert!(rec.raw_seq_len.is_some());
        assert!(rec.raw_tags_len.is_some());
    }
}

#[test]
fn records_gives_every_record_in_order() {
    let (bytes, meta) = full_file();
    let mut reader =
        Reader::new(&bytes, template(&[Fields::RefID, Fields::ReadName]), &meta).unwrap();
    let recs = reader.records().unwrap();
    assert_eq!(recs.len(), 6);
    let names: [&[u8]; 6] = [b"r0", b"read1", b"", b"r3", b"four", b"5"];
    for (n, rec) in recs.iter().enumerate() {
        let mut want = GbamRecord::default();
        want.refid = Some(n as i32 - 1);
        want.read_name = Some(names[n].to_vec());
        assert_eq!(*rec, want);
    }
}

#[test]
fn fill_record_fills_exactly_the_data_fields() {
    let (bytes, meta) = full_file();
    let mut reader =
        Reader::new(&bytes, template(&[Fields::Mapq, Fields::RawQual]), &meta).unwrap();
    let mut rec = GbamRecord::default();
    rec.pos = Some(-7);
    reader.fill_record(5, &mut rec).unwrap();
    let mut want = GbamRecord::default();
    want.pos = Some(-7);
    want.mapq = Some(50);
    want.qual = Some(b"&&&&".to_vec());
    assert_eq!(rec, want);
    // The index column of the variable field has a column but is no data field.
    assert!(reader.check_column(&Fields::SequenceLength));
    assert!(rec.seq_len.is_none());
}

#[test]
fn fixed_items_have_the_width_of_their_field() {
    let (bytes, meta) = full_file();
    let mut reader = Reader::new(&bytes, ParsingTemplate::new_with_all(), &meta).unwrap();
    for i in 0..FIELDS_NUM {
        let field = Fields::from_index(i).unwrap();
        if let Some(size) = field_item_size(&field) {
            for n in 0..6 {
                let column = reader.get_column(&field).unwrap();
                assert_eq!(column.item_bytes(n).unwrap().len(), size);
            }
        }
    }
}

#[test]
fn record_past_the_end_is_out_of_range() {
    let (bytes, meta) = full_file();
    let mut reader = Reader::new(&bytes, template(&[Fields::RefID]), &meta).unwrap();
    let mut rec = GbamRecord::default();
    assert_eq!(reader.fill_record(6, &mut rec), Err(GbamError::OutOfRange));
    assert_eq!(reader.fill_record(usize::MAX, &mut rec), Err(GbamError::OutOfRange));
    assert_eq!(rec, GbamRecord::default());
    // The reader is still usable.
    assert_eq!(reader.fill_record(5, &mut rec), Ok(()));
    assert_eq!(rec.refid, Some(4));
}

#[test]
fn last_record_of_the_last_block() {
    let (bytes, meta) = full_file();
    let mut reader = Reader::new(&bytes, ParsingTemplate::new_with_all(), &meta).unwrap();
    let mut rec = GbamRecord::default();
    reader.fill_record(5, &mut rec).unwrap();
    assert_eq!(rec.refid, Some(4));
    assert_eq!(rec.tags, Some(b"MD".to_vec()));
    assert_eq!(rec.read_name, Some(b"5".to_vec()));
    reader.fill_record(3, &mut rec).unwrap();
    assert_eq!(rec.refid, Some(2));
    assert_eq!(rec.tags, Some(b"XSXS".to_vec()));
    reader.fill_record(4, &mut rec).unwrap();
    assert_eq!(rec.read_name, Some(b"four".to_vec()));
}

#[test]
fn file_without_records() {
    let mut b = Builder::new();
    for i in 0..FIELDS_NUM {
        b.field(Fields::from_index(i).unwrap(), Codecs::Gzip);
    }
    let (bytes, meta) = b.finish();
    let mut reader = Reader::new(&bytes, ParsingTemplate::new_with_all(), &meta).unwrap();
    assert_eq!(reader.amount, 0);
    let mut rec = GbamRecord::default();
    assert_eq!(reader.fill_record(0, &mut rec), Err(GbamError::OutOfRange));
    assert_eq!(reader.records(), Ok(Vec::new()));
}

#[test]
fn file_without_fields() {
    let (bytes, meta) = Builder::new().finish();
    let mut reader = Reader::new(&bytes, ParsingTemplate::new(), &meta).unwrap();
    assert_eq!(reader.amount, 0);
    assert_eq!(reader.records(), Ok(Vec::new()));
}

#[test]
fn file_with_one_record() {
    let mut b = Builder::new();
    b.field(Fields::Pos, Codecs::Lz4);
    b.field(Fields::RawTags, Codecs::Lz4);
    b.field(Fields::RawTagsLen, Codecs::Gzip);
    b.block(Fields::Pos, &le32(&[-2]), 1);
    b.variable_block(Fields::RawTags, Fields::RawTagsLen, &[b"NM:i:0"]);
    let (bytes, meta) = b.finish();
    let mut reader =
        Reader::new(&bytes, template(&[Fields::Pos, Fields::RawTags]), &meta).unwrap();
    assert_eq!(reader.amount, 1);
    let recs = reader.records().unwrap();
    assert_eq!(recs.len(), 1);
    assert_eq!(recs[0].pos, Some(-2));
    assert_eq!(recs[0].tags, Some(b"NM:i:0".to_vec()));
}

#[test]
fn blocks_of_one_record_each() {
    let mut b = Builder::new();
    b.field(Fields::Bin, Codecs::Gzip);
    b.field(Fields::RawCigar, Codecs::Gzip);
    b.field(Fields::NCigar, Codecs::Lz4);
    let cigars: [&[u8]; 4] = [b"1M", b"", b"22M1I", b"3S"];
    for n in 0..4u16 {
        b.block(Fields::Bin, &le16(&[100 + n]), 1);
        b.variable_block(Fields::RawCigar, Fields::NCigar, &cigars[n as usize..n as usize + 1]);
    }
    let (bytes, meta) = b.finish();
    let mut reader =
        Reader::new(&bytes, template(&[Fields::Bin, Fields::RawCigar]), &meta).unwrap();
    assert_eq!(reader.amount, 4);
    // Out of order on purpose: every read changes the block held.
    for n in [3usize, 0, 2, 1, 1, 3] {
        let mut rec = GbamRecord::default();
        reader.fill_record(n, &mut rec).unwrap();
        assert_eq!(rec.bin, Some(100 + n as u16));
        assert_eq!(rec.cigar, Some(cigars[n].to_vec()));
        assert_eq!(reader.get_column(&Fields::Bin).unwrap().loaded_block(), Some(n));
        assert_eq!(reader.get_column(&Fields::RawCigar).unwrap().loaded_block(), Some(n));
    }
}

#[test]
fn column_holds_one_block_at_a_time() {
    let (bytes, meta) = full_file();
    let mut reader = Reader::new(&bytes, template(&[Fields::Pos]), &meta).unwrap();
    assert_eq!(reader.get_column(&Fields::Pos).unwrap().loaded_block(), None);
    let mut rec = GbamRecord::default();
    reader.fill_record(1, &mut rec).unwrap();
    assert_eq!(reader.get_column(&Fields::Pos).unwrap().loaded_block(), Some(0));
    reader.fill_record(4, &mut rec).unwrap();
    assert_eq!(reader.get_column(&Fields::Pos).unwrap().loaded_block(), Some(1));
    reader.fill_record(0, &mut rec).unwrap();
    assert_eq!(reader.get_column(&Fields::Pos).unwrap().loaded_block(), Some(0));
}

#[test]
fn selective_read_touches_no_other_field() {
    // Every field but RefID has blocks that cannot be decompressed.
    let mut b = Builder::new();
    for i in 0..FIELDS_NUM {
        b.field(Fields::from_index(i).unwrap(), Codecs::Gzip);
    }
    b.block(Fields::RefID, &le32(&[7, -1, 9]), 3);
    for i in 1..FIELDS_NUM {
        b.stored_block(Fields::from_index(i).unwrap(), b"garbage", 3);
    }
    let (bytes, meta) = b.finish();
    let mut reader = Reader::new(&bytes, template(&[Fields::RefID]), &meta).unwrap();
    let recs = reader.records().unwrap();
    let ids: Vec<Option<i32>> = recs.iter().map(|r| r.refid).collect();
    assert_eq!(ids, vec![Some(7), Some(-1), Some(9)]);
    for i in 0..FIELDS_NUM {
        let field = Fields::from_index(i).unwrap();
        assert_eq!(reader.check_column(&field), field == Fields::RefID);
        assert_eq!(reader.columns[i].is_some(), field == Fields::RefID);
    }
    assert_eq!(reader.get_column(&Fields::ReadName).err(), Some(GbamError::OutOfRange));
    // With the full template the same file fails on the first damaged field.
    let mut all = Reader::new(&bytes, ParsingTemplate::new_with_all(), &meta).unwrap();
    let mut rec = GbamRecord::default();
    assert_eq!(all.fill_record(0, &mut rec), Err(GbamError::BlockCorrupt(Fields::Pos, 0)));
    assert_eq!(rec.refid, Some(7));
    assert_eq!(rec.pos, None);
}

#[test]
fn reading_a_variable_field_loads_its_index_only() {
    let (bytes, meta) = full_file();
    let mut reader = Reader::new(&bytes, template(&[Fields::RawSequence]), &meta).unwrap();
    let mut rec = GbamRecord::default();
    reader.fill_record(4, &mut rec).unwrap();
    assert_eq!(rec.seq, Some(b"\x9a".to_vec()));
    for i in 0..FIELDS_NUM {
        let field = Fields::from_index(i).unwrap();
        let wanted = field == Fields::RawSequence || field == Fields::RawSeqLen;
        assert_eq!(reader.check_column(&field), wanted);
    }
    match reader.get_column(&Fields::RawSequence).unwrap() {
        Column::Variable(c) => {
            assert_eq!(c.inner.loaded, Some(1));
            assert_eq!(c.index.inner.loaded, Some(1));
        }
        Column::Fixed(_) => panic!("a variable-width field has a variable column"),
    }
    // The index field's own column was never asked for a record.
    assert_eq!(reader.get_column(&Fields::RawSeqLen).unwrap().loaded_block(), None);
}

#[test]
fn fetch_only_then_restore_gives_the_original_template() {
    let (bytes, meta) = full_file();
    let original = template(&[Fields::RefID, Fields::Flags, Fields::ReadName]);
    let mut reader = Reader::new(&bytes, original, &meta).unwrap();
    let active_before = reader.parsing_template.get_active_fields();
    reader.fetch_only(&[Fields::Flags]);
    assert_eq!(reader.parsing_template.get_active_data_fields(), vec![Fields::Flags]);
    let mut rec = GbamRecord::default();
    reader.fill_record(2, &mut rec).unwrap();
    let mut want = GbamRecord::default();
    want.flag = Some(4);
    assert_eq!(rec, want);
    reader.restore_template();
    assert_eq!(reader.parsing_template, original);
    assert_eq!(reader.original_template, original);
    assert_eq!(reader.parsing_template.get_active_fields(), active_before);
    let mut rec = GbamRecord::default();
    reader.fill_record(2, &mut rec).unwrap();
    let mut want = GbamRecord::default();
    want.refid = Some(1);
    want.flag = Some(4);
    want.read_name = Some(Vec::new());
    assert_eq!(rec, want);
}

#[test]
fn fetch_only_with_repeats_and_nothing() {
    let (bytes, meta) = full_file();
    let mut reader = Reader::new(&bytes, ParsingTemplate::new_with_all(), &meta).unwrap();
    reader.fetch_only(&[Fields::Pos, Fields::Pos, Fields::Mapq]);
    assert_eq!(
        reader.parsing_template.get_active_data_fields(),
        vec![Fields::Pos, Fields::Mapq]
    );
    reader.fetch_only(&[]);
    assert!(reader.parsing_template.get_active_data_fields().is_empty());
    let mut rec = GbamRecord::default();
    assert_eq!(reader.fill_record(0, &mut rec), Ok(()));
    assert_eq!(rec, GbamRecord::default());
    reader.restore_template();
    assert_eq!(reader.parsing_template, ParsingTemplate::new_with_all());
}

#[test]
fn fetch_only_of_a_field_without_column_is_out_of_range() {
    let (bytes, meta) = full_file();
    let mut reader = Reader::new(&bytes, template(&[Fields::RefID]), &meta).unwrap();
    reader.fetch_only(&[Fields::RefID, Fields::Pos]);
    let mut rec = GbamRecord::default();
    assert_eq!(reader.fill_record(0, &mut rec), Err(GbamError::OutOfRange));
    assert_eq!(rec.refid, Some(-1));
    assert_eq!(rec.pos, None);
    assert_eq!(
        reader.fill_record_field(&Fields::Pos, 0, &mut rec),
        Err(GbamError::OutOfRange)
    );
    assert_eq!(reader.fill_record_field(&Fields::RefID, 3, &mut rec), Ok(()));
    assert_eq!(rec.refid, Some(2));
}

#[test]
fn two_readers_give_the_same_bytes() {
    let (bytes, meta) = full_file();
    let mut a = Reader::new(&bytes, ParsingTemplate::new_with_all(), &meta).unwrap();
    let mut b = Reader::new_with_meta(&bytes, ParsingTemplate::new_with_all(), &meta).unwrap();
    // Drive the second reader differently first, so that it holds other blocks.
    let mut scratch = GbamRecord::default();
    b.fill_record(5, &mut scratch).unwrap();
    for n in [0usize, 4, 2, 5, 1, 3] {
        for i in 0..FIELDS_NUM {
            let field = Fields::from_index(i).unwrap();
            let from_a = a.get_column(&field).unwrap().item_bytes(n).map(|s| s.to_vec());
            let from_b = b.get_column(&field).unwrap().item_bytes(n).map(|s| s.to_vec());
            assert_eq!(from_a, from_b);
            assert!(from_a.is_ok());
        }
    }
}

#[test]
fn block_that_does_not_decompress_is_corrupt() {
    let mut b = Builder::new();
    b.field(Fields::Flags, Codecs::Gzip);
    b.block(Fields::Flags, &le16(&[1, 2]), 2);
    b.stored_block(Fields::Flags, b"not gzip at all", 2);
    let (bytes, meta) = b.finish();
    let mut reader = Reader::new(&bytes, template(&[Fields::Flags]), &meta).unwrap();
    let mut rec = GbamRecord::default();
    assert_eq!(reader.fill_record(1, &mut rec), Ok(()));
    assert_eq!(reader.fill_record(2, &mut rec), Err(GbamError::BlockCorrupt(Fields::Flags, 1)));
    assert_eq!(reader.fill_record(3, &mut rec), Err(GbamError::BlockCorrupt(Fields::Flags, 1)));
    // The block read before stays, and the reader goes on.
    assert_eq!(reader.get_column(&Fields::Flags).unwrap().loaded_block(), Some(0));
    assert_eq!(reader.fill_record(0, &mut rec), Ok(()));
    assert_eq!(rec.flag, Some(1));
    assert_eq!(reader.records().err(), Some(GbamError::BlockCorrupt(Fields::Flags, 1)));
}

#[test]
fn block_of_the_wrong_length_is_corrupt() {
    let mut b = Builder::new();
    b.field(Fields::RefID, Codecs::Lz4);
    // Three items are announced, the block holds two and a half.
    b.block(Fields::RefID, &[1, 0, 0, 0, 2, 0, 0, 0, 3, 0], 3);
    let (bytes, meta) = b.finish();
    let mut reader = Reader::new(&bytes, template(&[Fields::RefID]), &meta).unwrap();
    let mut rec = GbamRecord::default();
    assert_eq!(reader.fill_record(0, &mut rec), Err(GbamError::BlockCorrupt(Fields::RefID, 0)));
    assert_eq!(rec, GbamRecord::default());
}

#[test]
fn block_that_runs_past_the_file_is_corrupt() {
    let mut b = Builder::new();
    b.field(Fields::Mapq, Codecs::Gzip);
    b.block(Fields::Mapq, &[1, 2, 3], 3);
    let (bytes, mut meta) = b.finish();
    meta.get_blocks(&Fields::Mapq)[0].seekpos = bytes.len() as u64;
    let mut reader = Reader::new(&bytes, template(&[Fields::Mapq]), &meta).unwrap();
    let mut rec = GbamRecord::default();
    assert_eq!(reader.fill_record(0, &mut rec), Err(GbamError::BlockCorrupt(Fields::Mapq, 0)));
    meta.get_blocks(&Fields::Mapq)[0].seekpos = u64::MAX;
    let mut reader = Reader::new(&bytes, template(&[Fields::Mapq]), &meta).unwrap();
    assert_eq!(reader.fill_record(2, &mut rec), Err(GbamError::BlockCorrupt(Fields::Mapq, 0)));
}

#[test]
fn offsets_that_do_not_fit_the_block_are_corrupt() {
    let mut b = Builder::new();
    b.field(Fields::ReadName, Codecs::Gzip);
    b.field(Fields::LName, Codecs::Gzip);
    b.block(Fields::ReadName, b"abcdef", 3);
    // Ends 2, 1, 9: the second lies before the first, the third past the block.
    b.block(Fields::LName, &[2, 0, 0, 0, 1, 0, 0, 0, 9, 0, 0, 0], 3);
    let (bytes, meta) = b.finish();
    let mut reader = Reader::new(&bytes, template(&[Fields::ReadName]), &meta).unwrap();
    let mut rec = GbamRecord::default();
    assert_eq!(reader.fill_record(0, &mut rec), Ok(()));
    assert_eq!(rec.read_name, Some(b"ab".to_vec()));
    assert_eq!(
        reader.fill_record(1, &mut rec),
        Err(GbamError::BlockCorrupt(Fields::ReadName, 0))
    );
    assert_eq!(
        reader.fill_record(2, &mut rec),
        Err(GbamError::BlockCorrupt(Fields::ReadName, 0))
    );
}

#[test]
fn damaged_index_block_is_reported_for_the_index_field() {
    let mut b = Builder::new();
    b.field(Fields::RawTags, Codecs::Lz4);
    b.field(Fields::RawTagsLen, Codecs::Lz4);
    b.block(Fields::RawTags, b"abcdef", 2);
    b.stored_block(Fields::RawTagsLen, b"????", 2);
    let (bytes, meta) = b.finish();
    let mut reader = Reader::new(&bytes, template(&[Fields::RawTags]), &meta).unwrap();
    let mut rec = GbamRecord::default();
    assert_eq!(
        reader.fill_record(1, &mut rec),
        Err(GbamError::BlockCorrupt(Fields::RawTagsLen, 0))
    );
}

#[test]
fn init_col_makes_the_column_of_the_field_kind() {
    let (bytes, meta) = full_file();
    let mut fixed = init_col(Fields::TemplateLength, &bytes, &meta);
    assert_eq!(fixed.field_of(), Fields::TemplateLength);
    assert_eq!(fixed.loaded_block(), None);
    assert!(matches!(fixed, Column::Fixed(_)));
    assert_eq!(fixed.item_bytes(4), Ok(&(i32::MIN + 4).to_le_bytes()[..]));
    let mut variable = init_col(Fields::RawQual, &bytes, &meta);
    assert!(matches!(variable, Column::Variable(_)));
    assert_eq!(variable.item_bytes(5), Ok(&b"&&&&"[..]));
    let mut rec = GbamRecord::default();
    assert_eq!(variable.fill_record_field(1, &mut rec), Ok(()));
    assert_eq!(rec.qual, Some(b"####".to_vec()));
}

#[test]
fn record_set_field_decodes_by_field() {
    let mut rec = GbamRecord::new();
    assert_eq!(rec, GbamRecord::default());
    rec.set_field(&Fields::RefID, &[0xff, 0xff, 0xff, 0xff]);
    rec.set_field(&Fields::Pos, &[0x00, 0x00, 0x00, 0x80]);
    rec.set_field(&Fields::NextPos, &[0xff, 0xff, 0xff, 0x7f]);
    rec.set_field(&Fields::LName, &[0xff, 0xff, 0xff, 0xff]);
    rec.set_field(&Fields::Bin, &[0x34, 0x12]);
    rec.set_field(&Fields::Flags, &[0xff, 0xff]);
    rec.set_field(&Fields::Mapq, &[0xfe]);
    rec.set_field(&Fields::RawTags, b"tags");
    rec.set_field(&Fields::ReadName, b"");
    assert_eq!(rec.refid, Some(-1));
    assert_eq!(rec.pos, Some(i32::MIN));
    assert_eq!(rec.next_pos, Some(i32::MAX));
    assert_eq!(rec.l_name, Some(u32::MAX));
    assert_eq!(rec.bin, Some(0x1234));
    assert_eq!(rec.flag, Some(0xffff));
    assert_eq!(rec.mapq, Some(0xfe));
    assert_eq!(rec.tags, Some(b"tags".to_vec()));
    assert_eq!(rec.read_name, Some(Vec::new()));
    assert_eq!(rec.next_ref_id, None);
    assert_eq!(rec.cigar, None);
}

#[test]
fn record_count_is_the_item_count_of_every_field() {
    let (bytes, meta) = full_file();
    let reader = Reader::new(&bytes, template(&[Fields::Mapq]), &meta).unwrap();
    for i in 0..FIELDS_NUM {
        let field = Fields::from_index(i).unwrap();
        assert_eq!(count_items(meta.view_blocks(&field)), reader.amount as u128);
    }
    assert_eq!(reader.amount, 6);
}

#[test]
fn record_past_the_end_touches_no_column() {
    let (bytes, meta) = full_file();
    let mut reader =
        Reader::new(&bytes, template(&[Fields::Pos, Fields::RawTags]), &meta).unwrap();
    let mut rec = GbamRecord::default();
    assert_eq!(reader.fill_record(6, &mut rec), Err(GbamError::OutOfRange));
    assert_eq!(reader.get_column(&Fields::Pos).unwrap().loaded_block(), None);
    assert_eq!(reader.get_column(&Fields::RawTags).unwrap().loaded_block(), None);
    reader.fill_record(5, &mut rec).unwrap();
    assert_eq!(reader.fill_record(6, &mut rec), Err(GbamError::OutOfRange));
    assert_eq!(reader.get_column(&Fields::Pos).unwrap().loaded_block(), Some(1));
    assert_eq!(reader.get_column(&Fields::RawTags).unwrap().loaded_block(), Some(1));
    let column = reader.get_column(&Fields::Pos).unwrap();
    assert_eq!(column.item_bytes(77), Err(GbamError::OutOfRange));
    assert_eq!(column.loaded_block(), Some(1));
}

#[test]
fn a_read_touches_only_the_columns_of_the_data_fields() {
    let (bytes, meta) = full_file();
    let mut reader = Reader::new(&bytes, ParsingTemplate::new_with_all(), &meta).unwrap();
    reader.fetch_only(&[Fields::Flags, Fields::ReadName]);
    let mut rec = GbamRecord::default();
    reader.fill_record(4, &mut rec).unwrap();
    for i in 0..FIELDS_NUM {
        let field = Fields::from_index(i).unwrap();
        let read = field == Fields::Flags || field == Fields::ReadName;
        let held = reader.get_column(&field).unwrap().loaded_block();
        assert_eq!(held, if read { Some(1) } else { None });
    }
    assert_eq!(reader.fill_record_field(&Fields::Mapq, 0, &mut rec), Ok(()));
    assert_eq!(reader.get_column(&Fields::Mapq).unwrap().loaded_block(), Some(0));
    assert_eq!(reader.get_column(&Fields::Flags).unwrap().loaded_block(), Some(1));
}

#[test]
fn a_block_of_the_wrong_length_is_held_all_the_same() {
    let mut b = Builder::new();
    b.field(Fields::RefID, Codecs::Gzip);
    b.block(Fields::RefID, &le32(&[1, 2]), 2);
    b.block(Fields::RefID, &[1, 0, 0, 0, 2, 0], 2);
    let (bytes, meta) = b.finish();
    let mut reader = Reader::new(&bytes, template(&[Fields::RefID]), &meta).unwrap();
    let mut rec = GbamRecord::default();
    reader.fill_record(0, &mut rec).unwrap();
    assert_eq!(reader.fill_record(2, &mut rec), Err(GbamError::BlockCorrupt(Fields::RefID, 1)));
    assert_eq!(reader.get_column(&Fields::RefID).unwrap().loaded_block(), Some(1));
}
