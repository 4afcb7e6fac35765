//! A file backup/restore pipeline: compress a byte stream, then encrypt it;
//! on restore, decrypt and then decompress. Two cipher stages are offered: a
//! block cipher in CBC mode with a caller-supplied key and IV, and a chunked
//! authenticated stream cipher with per-chunk nonce derivation and tamper
//! detection. File and console I/O stay outside this crate; every function
//! here works on plain byte vectors.

pub mod aead;
pub mod cli;
pub mod compressor;
pub mod crypt;
pub mod errors;
pub mod paths;

use vstd::prelude::*;

verus! {

} // verus!
