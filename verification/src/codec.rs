use crate::meta::Codecs;
use std::io::Read;
use vstd::prelude::*;

verus! {

/// What the gzip decoder makes of a byte sequence: the decompressed bytes, or
/// `None` where it reports an error.
pub uninterp spec fn gzip_decoded(bytes: Seq<u8>) -> Option<Seq<u8>>;

/// What the LZ4 frame decoder makes of a byte sequence: the decompressed
/// bytes, or `None` where it reports an error.
pub uninterp spec fn lz4_decoded(bytes: Seq<u8>) -> Option<Seq<u8>>;

/// What decompression with the given codec makes of a byte sequence.
pub open spec fn decoded(codec: Codecs, bytes: Seq<u8>) -> Option<Seq<u8>> {
    match codec {
        Codecs::Gzip => gzip_decoded(bytes),
        Codecs::Lz4 => lz4_decoded(bytes),
    }
}

/// Reads `flate2::read::GzDecoder` over the slice to its end. The contract
/// only names the outcome: the same input gives the same output or the same
/// failure.
#[verifier::external_body]
pub(crate) fn gzip_decode(bytes: &[u8]) -> (r: Option<Vec<u8>>)
    ensures
        r is Some <==> gzip_decoded(bytes@) is Some,
        r is Some ==> r->0@ == gzip_decoded(bytes@)->0,
{
    let mut out: Vec<u8> = Vec::new();
    match flate2::read::GzDecoder::new(bytes).read_to_end(&mut out) {
        Ok(_) => Some(out),
        Err(_) => None,
    }
}

/// Reads `lz4::Decoder` over the slice to its end. The contract only names
/// the outcome: the same input gives the same output or the same failure.
#[verifier::external_body]
pub(crate) fn lz4_decode(bytes: &[u8]) -> (r: Option<Vec<u8>>)
    ensures
        r is Some <==> lz4_decoded(bytes@) is Some,
        r is Some ==> r->0@ == lz4_decoded(bytes@)->0,
{
    let mut out: Vec<u8> = Vec::new();
    match lz4::Decoder::new(bytes) {
        Ok(mut decoder) => match decoder.read_to_end(&mut out) {
            Ok(_) => Some(out),
            Err(_) => None,
        },
        Err(_) => None,
    }
}

/// Decompresses one block with the given codec; `None` where the decoder
/// reports an error.
pub fn decompress(codec: &Codecs, bytes: &[u8]) -> (r: Option<Vec<u8>>)
    ensures
        r is Some <==> decoded(*codec, bytes@) is Some,
        r is Some ==> r->0@ == decoded(*codec, bytes@)->0,
{
    match codec {
        Codecs::Gzip => gzip_decode(bytes),
        Codecs::Lz4 => lz4_decode(bytes),
    }
}

} // verus!
