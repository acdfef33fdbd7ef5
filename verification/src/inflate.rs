use vstd::prelude::*;

verus! {

/// What a DEFLATE/gzip-compatible decompressor yields for a compressed
/// stream: the decompressed bytes, or nothing when the stream is corrupt or
/// truncated. Decompression is a pure function of the stream's bytes.
pub uninterp spec fn gunzip(data: Seq<u8>) -> Option<Seq<u8>>;

/// Relies on `zune_inflate::DeflateDecoder::decode_gzip`: it decodes a
/// gzip-wrapped DEFLATE stream, a deterministic computation on the input
/// bytes alone, returning the decompressed bytes on success and an error
/// when the stream is corrupt, truncated, or fails its checksums.
#[verifier::external_body]
pub(crate) fn decompress_gzip(data: &[u8]) -> (r: Option<Vec<u8>>)
    ensures
        match r {
            Some(v) => gunzip(data@) == Some(v@),
            None => gunzip(data@) is None,
        },
{
    let mut decoder = zune_inflate::DeflateDecoder::new(data);
    match decoder.decode_gzip() {
        Ok(v) => Some(v),
        Err(_) => None,
    }
}

} // verus!
