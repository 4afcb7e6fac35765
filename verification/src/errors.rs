//! The error taxonomy of the pipeline: input-validation errors, I/O errors,
//! compression errors, and cryptographic errors. Each stage reports its own
//! variant, so a caller can tell which stage failed.

use vstd::prelude::*;

verus! {

/// One error value for the whole pipeline.
#[derive(Debug, PartialEq, Eq)]
pub enum PipelineError {
    /// No command word was given on the command line.
    MissingCommand,
    /// A command that needs a path was given none.
    MissingPath,
    /// The command word is neither `backup` nor `restore`.
    InvalidCommand,
    /// The named path does not exist; carries that path.
    PathMissing(String),
    /// The path exists but is not a regular file.
    FilesOnly,
    /// An open, read, write or create on the filesystem failed.
    Io,
    /// The compressed input is malformed or truncated.
    Compression,
    /// The cipher could not encrypt (bad key or IV material).
    Encryption,
    /// Authentication failed or the ciphertext is malformed.
    Decryption,
}

} // verus!
