//! The blocks compression profile, taken from an outside crate.
//!
//! The codec only relies on the profile being deterministic and lossless:
//! decompressing a buffer that the profile produced returns exactly the bytes
//! that were compressed. Nothing else about the stream is stated.

use vstd::prelude::*;

verus! {

/// The bytes that the blocks profile produces for a byte sequence. What they
/// are is not stated here; they depend on the input bytes alone.
pub uninterp spec fn blocks_compressed(data: Seq<u8>) -> Seq<u8>;

/// Relies on miniz_oxide's `compress_to_vec`: a deterministic deflate stream
/// computed from the input bytes and the fixed level alone.
#[verifier::external_body]
pub fn compress_blocks(data: &[u8]) -> (r: Vec<u8>)
    ensures
        r@ == blocks_compressed(data@),
{
    // Level 6 is the profile's fixed speed/size trade-off.
    miniz_oxide::deflate::compress_to_vec(data, 6)
}

/// Relies on miniz_oxide's `decompress_to_vec`: on a stream that
/// `compress_to_vec` produced it returns the bytes that were compressed; on
/// other input it may return anything or fail, and it never panics.
#[verifier::external_body]
pub fn decompress_blocks(data: &[u8]) -> (r: Option<Vec<u8>>)
    ensures
        r matches Some(d) ==> forall|x: Seq<u8>| data@ == #[trigger] blocks_compressed(x) ==> d@
            == x,
        r is None ==> forall|x: Seq<u8>| data@ != #[trigger] blocks_compressed(x),
{
    match miniz_oxide::inflate::decompress_to_vec(data) {
        Ok(v) => Some(v),
        Err(_) => None,
    }
}

} // verus!
