use crate::fields::Fields;
use vstd::prelude::*;

verus! {

/// Why a container could not be opened or a record could not be read.
#[derive(Clone, Copy, Debug, PartialEq, Eq, Structural)]
pub enum GbamError {
    /// The leading 32 bytes are missing or do not start with the magic.
    CorruptHeader,
    /// The stored checksum differs from the checksum of the metadata bytes.
    MetadataCorrupt,
    /// The metadata is structurally unusable.
    MetadataMalformed,
    /// A block could not be decompressed or does not have the size that the
    /// metadata and its offset column call for; carries the field and the
    /// block's position in the field's block list.
    BlockCorrupt(Fields, usize),
    /// The record number is past the end or the field is not active.
    OutOfRange,
    /// The host could not map or read the file.
    IoError,
}

} // verus!
