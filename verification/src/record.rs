use crate::bytes::{le_i32, le_u16, le_u32, read_i32_le, read_u16_le, read_u32_le};
use crate::fields::Fields;
use vstd::prelude::*;

verus! {

/// One alignment record. An attribute is present when the field it belongs
/// to was read; the variable-width attributes hold their bytes as stored.
#[derive(Clone, Debug, Default, PartialEq, Eq)]
pub struct GbamRecord {
    pub refid: Option<i32>,
    pub pos: Option<i32>,
    pub l_name: Option<u32>,
    pub mapq: Option<u8>,
    pub bin: Option<u16>,
    pub n_cigar: Option<u32>,
    pub flag: Option<u16>,
    pub seq_len: Option<u32>,
    pub next_ref_id: Option<i32>,
    pub next_pos: Option<i32>,
    pub tlen: Option<i32>,
    pub raw_seq_len: Option<u32>,
    pub raw_tags_len: Option<u32>,
    pub read_name: Option<Vec<u8>>,
    pub cigar: Option<Vec<u8>>,
    pub seq: Option<Vec<u8>>,
    pub qual: Option<Vec<u8>>,
    pub tags: Option<Vec<u8>>,
}

/// The value of one attribute of a record.
pub enum FieldValue {
    Signed(i32),
    Unsigned(u32),
    Short(u16),
    Byte(u8),
    Bytes(Seq<u8>),
}

impl FieldValue {
    /// The number of a signed attribute; zero for any other.
    pub open spec fn signed(self) -> i32 {
        match self {
            FieldValue::Signed(x) => x,
            _ => 0,
        }
    }

    /// The number of a two-byte attribute; zero for any other.
    pub open spec fn short(self) -> u16 {
        match self {
            FieldValue::Short(x) => x,
            _ => 0,
        }
    }

    /// The number of a one-byte attribute; zero for any other.
    pub open spec fn byte(self) -> u8 {
        match self {
            FieldValue::Byte(x) => x,
            _ => 0,
        }
    }
}

/// The value that the stored bytes of one item of a field stand for: a
/// little-endian number of the field's width, or the bytes themselves for a
/// variable-width field.
pub open spec fn decode_value(field: Fields, bytes: Seq<u8>) -> FieldValue {
    match field {
        Fields::RefID | Fields::Pos | Fields::NextRefID | Fields::NextPos
        | Fields::TemplateLength => FieldValue::Signed(le_i32(bytes) as i32),
        Fields::LName | Fields::NCigar | Fields::SequenceLength | Fields::RawSeqLen
        | Fields::RawTagsLen => FieldValue::Unsigned(le_u32(bytes) as u32),
        Fields::Bin | Fields::Flags => FieldValue::Short(le_u16(bytes) as u16),
        Fields::Mapq => FieldValue::Byte(bytes[0]),
        Fields::ReadName | Fields::RawCigar | Fields::RawSequence | Fields::RawQual
        | Fields::RawTags => FieldValue::Bytes(bytes),
    }
}

/// A signed attribute as a value.
pub open spec fn signed_value(v: Option<i32>) -> Option<FieldValue> {
    match v {
        Some(x) => Some(FieldValue::Signed(x)),
        None => None,
    }
}

/// An unsigned four-byte attribute as a value.
pub open spec fn unsigned_value(v: Option<u32>) -> Option<FieldValue> {
    match v {
        Some(x) => Some(FieldValue::Unsigned(x)),
        None => None,
    }
}

/// A two-byte attribute as a value.
pub open spec fn short_value(v: Option<u16>) -> Option<FieldValue> {
    match v {
        Some(x) => Some(FieldValue::Short(x)),
        None => None,
    }
}

/// A one-byte attribute as a value.
pub open spec fn byte_value(v: Option<u8>) -> Option<FieldValue> {
    match v {
        Some(x) => Some(FieldValue::Byte(x)),
        None => None,
    }
}

/// A variable-width attribute as a value.
pub open spec fn bytes_value(v: Option<Vec<u8>>) -> Option<FieldValue> {
    match v {
        Some(x) => Some(FieldValue::Bytes(x@)),
        None => None,
    }
}

impl GbamRecord {
    /// The attribute of the record that belongs to `field`, if present.
    pub open spec fn value_of(self, field: Fields) -> Option<FieldValue> {
        match field {
            Fields::RefID => signed_value(self.refid),
            Fields::Pos => signed_value(self.pos),
            Fields::LName => unsigned_value(self.l_name),
            Fields::Mapq => byte_value(self.mapq),
            Fields::Bin => short_value(self.bin),
            Fields::NCigar => unsigned_value(self.n_cigar),
            Fields::Flags => short_value(self.flag),
            Fields::SequenceLength => unsigned_value(self.seq_len),
            Fields::NextRefID => signed_value(self.next_ref_id),
            Fields::NextPos => signed_value(self.next_pos),
            Fields::TemplateLength => signed_value(self.tlen),
            Fields::RawSeqLen => unsigned_value(self.raw_seq_len),
            Fields::RawTagsLen => unsigned_value(self.raw_tags_len),
            Fields::ReadName => bytes_value(self.read_name),
            Fields::RawCigar => bytes_value(self.cigar),
            Fields::RawSequence => bytes_value(self.seq),
            Fields::RawQual => bytes_value(self.qual),
            Fields::RawTags => bytes_value(self.tags),
        }
    }

    /// A record with no attribute present.
    pub fn new() -> (rec: Self)
        ensures
            forall|f: Fields| rec.value_of(f) is None,
    {
        GbamRecord {
            refid: None,
            pos: None,
            l_name: None,
            mapq: None,
            bin: None,
            n_cigar: None,
            flag: None,
            seq_len: None,
            next_ref_id: None,
            next_pos: None,
            tlen: None,
            raw_seq_len: None,
            raw_tags_len: None,
            read_name: None,
            cigar: None,
            seq: None,
            qual: None,
            tags: None,
        }
    }

    /// Stores the item of `field` whose stored bytes are `bytes`; the other
    /// attributes stay as they are.
    pub fn set_field(&mut self, field: &Fields, bytes: &[u8])
        requires
            field.item_size() is Some ==> bytes@.len() == field.item_size()->0,
        ensures
            forall|g: Fields|
                final(self).value_of(g) == (if g == *field {
                    Some(decode_value(*field, bytes@))
                } else {
                    old(self).value_of(g)
                }),
    {
        match field {
            Fields::RefID => {
                self.refid = Some(read_i32_le(bytes));
            },
            Fields::Pos => {
                self.pos = Some(read_i32_le(bytes));
            },
            Fields::LName => {
                self.l_name = Some(read_u32_le(bytes));
            },
            Fields::Mapq => {
                self.mapq = Some(bytes[0]);
            },
            Fields::Bin => {
                self.bin = Some(read_u16_le(bytes));
            },
            Fields::NCigar => {
                self.n_cigar = Some(read_u32_le(bytes));
            },
            Fields::Flags => {
                self.flag = Some(read_u16_le(bytes));
            },
            Fields::SequenceLength => {
                self.seq_len = Some(read_u32_le(bytes));
            },
            Fields::NextRefID => {
                self.next_ref_id = Some(read_i32_le(bytes));
            },
            Fields::NextPos => {
                self.next_pos = Some(read_i32_le(bytes));
            },
            Fields::TemplateLength => {
                self.tlen = Some(read_i32_le(bytes));
            },
            Fields::RawSeqLen => {
                self.raw_seq_len = Some(read_u32_le(bytes));
            },
            Fields::RawTagsLen => {
                self.raw_tags_len = Some(read_u32_le(bytes));
            },
            Fields::ReadName => {
                self.read_name = Some(vstd::slice::slice_to_vec(bytes));
            },
            Fields::RawCigar => {
                self.cigar = Some(vstd::slice::slice_to_vec(bytes));
            },
            Fields::RawSequence => {
                self.seq = Some(vstd::slice::slice_to_vec(bytes));
            },
            Fields::RawQual => {
                self.qual = Some(vstd::slice::slice_to_vec(bytes));
            },
            Fields::RawTags => {
                self.tags = Some(vstd::slice::slice_to_vec(bytes));
            },
        }
    }
}

} // verus!
