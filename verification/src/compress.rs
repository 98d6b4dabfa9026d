//! The compression engine behind cluster frames.
//!
//! Cluster slots hold deflate-compressed frames.  The two calls below
//! go to the `miniz_oxide` crate; everything around them is verified
//! against the named results `deflate_of` and `inflate_of`.

use vstd::prelude::*;

verus! {

/// What compressing given bytes yields; a function of the bytes alone.
pub uninterp spec fn deflate_of(b: Seq<u8>) -> Seq<u8>;

/// What decompressing given bytes yields: the original bytes for a
/// deflate stream, nothing for anything else; a function of the bytes
/// alone.
pub uninterp spec fn inflate_of(b: Seq<u8>) -> Option<Seq<u8>>;

/// Relies on miniz_oxide::deflate::compress_to_vec: at a fixed level the
/// result depends on the input bytes alone, and
/// miniz_oxide::inflate::decompress_to_vec restores the input from it.
#[verifier::external_body]
pub(crate) fn deflate_bytes(b: &Vec<u8>) -> (r: Vec<u8>)
    ensures
        r@ == deflate_of(b@),
        inflate_of(r@) == Some(b@),
{
    miniz_oxide::deflate::compress_to_vec(b.as_slice(), 6)
}

/// Relies on miniz_oxide::inflate::decompress_to_vec: it yields the
/// decompressed bytes of a deflate stream and an error for anything
/// else, from the input bytes alone.
#[verifier::external_body]
pub(crate) fn inflate_bytes(b: &Vec<u8>) -> (r: Option<Vec<u8>>)
    ensures
        match r {
            Some(v) => inflate_of(b@) == Some(v@),
            None => inflate_of(b@) is None,
        },
{
    match miniz_oxide::inflate::decompress_to_vec(b.as_slice()) {
        Ok(v) => Some(v),
        Err(_) => None,
    }
}

} // verus!
