use crate::bytes::{
    le_u32, le_u64, lemma_u32_le_round_trip, lemma_u64_le_round_trip, push_u32_le, push_u64_le,
    read_u32_le, read_u64_le, u32_le_bytes, u64_le_bytes,
};
use crate::error::GbamError;
use vstd::prelude::*;

verus! {

/// The eight bytes that open every container.
pub const GBAM_MAGIC: [u8; 8] = [0x67, 0x65, 0x65, 0x42, 0x41, 0x4d, 0x31, 0x30];

/// Length in bytes of the leading record of a container.
pub const FILE_INFO_SIZE: usize = 32;

/// The leading record of a container: format version, where the metadata
/// starts, and the checksum of the metadata bytes.
#[derive(Clone, Copy, Debug, PartialEq, Eq)]
pub struct FileInfo {
    pub gbam_version: [u32; 2],
    pub seekpos: u64,
    pub crc32: u32,
}

/// A buffer holds a header when it has 32 bytes and opens with the magic.
pub open spec fn is_header(s: Seq<u8>) -> bool {
    s.len() >= FILE_INFO_SIZE && s.subrange(0, 8) == GBAM_MAGIC@
}

impl FileInfo {
    /// The 32 bytes of the record: magic, the two version numbers, the
    /// metadata offset and the checksum, little-endian, then four zero bytes.
    pub open spec fn spec_bytes(self) -> Seq<u8> {
        GBAM_MAGIC@ + u32_le_bytes(self.gbam_version@[0]) + u32_le_bytes(self.gbam_version@[1])
            + u64_le_bytes(self.seekpos) + u32_le_bytes(self.crc32) + seq![0u8, 0u8, 0u8, 0u8]
    }

    /// The record is what the header bytes `s` spell.
    pub open spec fn read_from(self, s: Seq<u8>) -> bool {
        &&& self.gbam_version@[0] == le_u32(s.subrange(8, 12))
        &&& self.gbam_version@[1] == le_u32(s.subrange(12, 16))
        &&& self.seekpos == le_u64(s.subrange(16, 24))
        &&& self.crc32 == le_u32(s.subrange(24, 28))
    }

    /// A header record with the given version, metadata offset and checksum.
    pub fn new(gbam_version: [u32; 2], seekpos: u64, crc32: u32) -> (info: Self)
        ensures
            info.gbam_version == gbam_version,
            info.seekpos == seekpos,
            info.crc32 == crc32,
    {
        FileInfo { gbam_version, seekpos, crc32 }
    }

    /// Reads the record from the start of a buffer. A buffer of fewer than 32
    /// bytes, or one that does not open with the magic, is a corrupt header.
    pub fn from_bytes(bytes: &[u8]) -> (r: Result<FileInfo, GbamError>)
        ensures
            r is Ok <==> is_header(bytes@),
            r is Ok ==> r->Ok_0.read_from(bytes@),
            r is Err ==> r->Err_0 == GbamError::CorruptHeader,
    {
        if bytes.len() < FILE_INFO_SIZE {
            return Err(GbamError::CorruptHeader);
        }
        let mut i: usize = 0;
        while i < 8
            invariant
                i <= 8,
                bytes@.len() >= 32,
                forall|j: int| 0 <= j < i ==> bytes@[j] == GBAM_MAGIC@[j],
            decreases 8 - i,
        {
            if bytes[i] != GBAM_MAGIC[i] {
                return Err(GbamError::CorruptHeader);
            }
            i += 1;
        }
        assert(bytes@.subrange(0, 8) =~= GBAM_MAGIC@);
        let major = read_u32_le(&bytes[8..12]);
        let minor = read_u32_le(&bytes[12..16]);
        let seekpos = read_u64_le(&bytes[16..24]);
        let crc32 = read_u32_le(&bytes[24..28]);
        Ok(FileInfo { gbam_version: [major, minor], seekpos, crc32 })
    }

    /// Writes the record as the 32 bytes that open a container.
    pub fn to_bytes(&self) -> (out: Vec<u8>)
        ensures
            out@ == self.spec_bytes(),
            out@.len() == FILE_INFO_SIZE,
    {
        let mut out: Vec<u8> = Vec::new();
        let mut i: usize = 0;
        while i < 8
            invariant
                i <= 8,
                out@ == GBAM_MAGIC@.subrange(0, i as int),
            decreases 8 - i,
        {
            out.push(GBAM_MAGIC[i]);
            i += 1;
        }
        push_u32_le(&mut out, self.gbam_version[0]);
        push_u32_le(&mut out, self.gbam_version[1]);
        push_u64_le(&mut out, self.seekpos);
        push_u32_le(&mut out, self.crc32);
        let mut k: usize = 0;
        while k < 4
            invariant
                k <= 4,
                out@ == GBAM_MAGIC@ + u32_le_bytes(self.gbam_version@[0]) + u32_le_bytes(
                    self.gbam_version@[1],
                ) + u64_le_bytes(self.seekpos) + u32_le_bytes(self.crc32) + seq![
                    0u8,
                    0u8,
                    0u8,
                    0u8,
                ].subrange(0, k as int),
            decreases 4 - k,
        {
            out.push(0u8);
            k += 1;
            assert(out@ =~= GBAM_MAGIC@ + u32_le_bytes(self.gbam_version@[0]) + u32_le_bytes(
                self.gbam_version@[1],
            ) + u64_le_bytes(self.seekpos) + u32_le_bytes(self.crc32) + seq![
                0u8,
                0u8,
                0u8,
                0u8,
            ].subrange(0, k as int));
        }
        proof {
            lemma_header_bytes(*self);
        }
        out
    }
}

/// The bytes written for a record form a header, and reading them gives the
/// record back.
pub proof fn lemma_header_bytes(info: FileInfo)
    ensures
        info.spec_bytes().len() == FILE_INFO_SIZE,
        is_header(info.spec_bytes()),
        info.read_from(info.spec_bytes()),
{
    let s = info.spec_bytes();
    lemma_u32_le_round_trip(info.gbam_version@[0]);
    lemma_u32_le_round_trip(info.gbam_version@[1]);
    lemma_u64_le_round_trip(info.seekpos);
    lemma_u32_le_round_trip(info.crc32);
    assert(s.subrange(0, 8) =~= GBAM_MAGIC@);
}

} // verus!
