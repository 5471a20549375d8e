use vstd::prelude::*;

verus! {

/// What the external zlib decoder yields for a given input: the decompressed
/// bytes, or nothing when the stream is corrupt or truncated. Decoding is a
/// function of the input bytes alone.
pub uninterp spec fn spec_inflate(s: Seq<u8>) -> Option<Seq<u8>>;

/// Relies on miniz_oxide::inflate::decompress_to_vec_zlib: it decompresses
/// a zlib stream, returning an error — never panicking — on a corrupt or
/// truncated one, and its result depends on the input bytes alone.
#[verifier::external_body]
pub fn zlib_inflate(data: &[u8]) -> (r: Option<Vec<u8>>)
    ensures
        r is Some <==> spec_inflate(data@) is Some,
        r is Some ==> r.unwrap()@ == spec_inflate(data@).unwrap(),
{
    match miniz_oxide::inflate::decompress_to_vec_zlib(data) {
        Ok(decompressed) => Some(decompressed),
        Err(_) => None,
    }
}

} // verus!
