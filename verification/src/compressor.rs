//! The compression stage: streaming general-purpose compression of a byte
//! stream. The compressor runs with a fixed quality level of 9, a window size
//! of 20 and a 4096-byte buffer; these are configuration constants, not
//! runtime choices, so the compressed form is a function of the input bytes
//! alone. Compression is lossless: decompressing a compressed stream yields
//! the original bytes exactly.

use vstd::prelude::*;
use std::io::Read;
use std::io::Write;
use crate::errors::PipelineError;

verus! {

/// The bytes that the brotli encoder produces for `data` at quality 9,
/// window size 20. Named rather than spelled out: the encoding takes pages to
/// state, but depends on the input bytes alone.
pub uninterp spec fn compressed_of(data: Seq<u8>) -> Seq<u8>;

/// Relies on `brotli::CompressorWriter` (quality 9, lg_window_size 20):
/// writing a whole buffer into it and dropping it emits the complete
/// compressed stream, a function of the input bytes alone. Writing into a
/// `Vec` sink cannot fail.
#[verifier::external_body]
fn brotli_compress(data: &Vec<u8>) -> (r: Vec<u8>)
    ensures
        r@ == compressed_of(data@),
{
    let mut out: Vec<u8> = Vec::new();
    {
        let mut w = brotli::CompressorWriter::new(&mut out, 4096, 9, 20);
        w.write_all(data.as_slice()).unwrap();
        w.flush().unwrap();
    }
    out
}

/// Relies on `brotli::Decompressor`: reading it to the end decodes a complete
/// compressed stream back to the exact input bytes (brotli is lossless), and
/// reports an error on a stream it cannot decode.
#[verifier::external_body]
fn brotli_decompress(data: &Vec<u8>) -> (r: Option<Vec<u8>>)
    ensures
        r is None ==> (forall|p: Seq<u8>| data@ != compressed_of(p)),
        r matches Some(q) ==> (forall|p: Seq<u8>| data@ == compressed_of(p) ==> q@ == p),
{
    let mut out: Vec<u8> = Vec::new();
    let mut d = brotli::Decompressor::new(data.as_slice(), 4096);
    match d.read_to_end(&mut out) {
        Ok(_) => Some(out),
        Err(_) => None,
    }
}

/// Compresses `data`. Lossless: `decompress` recovers the input exactly.
pub fn compress(data: &Vec<u8>) -> (r: Vec<u8>)
    ensures
        r@ == compressed_of(data@),
{
    brotli_compress(data)
}

/// Decompresses `data`. Succeeds on every stream that `compress` produces,
/// returning the original bytes: together with `compress` this states the
/// round trip `decompress(compress(x)) == x` for every byte sequence `x`.
/// A malformed or truncated stream is reported as a compression error.
pub fn decompress(data: &Vec<u8>) -> (r: Result<Vec<u8>, PipelineError>)
    ensures
        forall|p: Seq<u8>| data@ == compressed_of(p) ==> (r matches Ok(q) && q@ == p),
        r matches Err(e) ==> e == PipelineError::Compression,
{
    match brotli_decompress(data) {
        Some(v) => Ok(v),
        None => Err(PipelineError::Compression),
    }
}

} // verus!
