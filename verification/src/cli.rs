//! The pipeline orchestrator and the command-line decisions around it.
//! `backup` composes compression then encryption; `restore` composes
//! decryption then decompression. Everything here works on plain byte
//! vectors: opening, reading and writing files stays with the caller, which
//! hands in a file's bytes and writes the returned bytes out.

use vstd::prelude::*;
use crate::aead;
use crate::aead::sealed_stream;
use crate::aead::KeyMaterial;
use crate::aead::CHUNK_SIZE;
use crate::aead::TAG_LEN;
use crate::compressor;
use crate::compressor::compressed_of;
use crate::crypt;
use crate::crypt::Cryptography;
use crate::crypt::cbc_ciphertext_of;
use crate::errors::PipelineError;

verus! {

/// A parsed command line: which operation to run, and on which path.
#[derive(Debug, PartialEq, Eq)]
pub enum Command {
    Backup(String),
    Restore(String),
}

/// The orchestrator: holds the CBC key material used for both operations.
pub struct Cli {
    pub key: Vec<u8>,
    pub iv: Vec<u8>,
}

impl Cli {
    /// The lengths the cipher stage requires.
    pub open spec fn wf(&self) -> bool {
        self.key@.len() == 16 && self.iv@.len() == 16
    }

    /// Parses the command line: the first word picks the operation, the
    /// second names the path. Anything else is an input-validation error.
    pub fn from_args(args: &Vec<String>) -> (r: Result<Command, PipelineError>)
        ensures
            args@.len() == 0 ==> r == Err::<Command, PipelineError>(PipelineError::MissingCommand),
            args@.len() >= 1 && args@[0]@ != "backup"@ && args@[0]@ != "restore"@ ==> r == Err::<
                Command,
                PipelineError,
            >(PipelineError::InvalidCommand),
            args@.len() == 1 && (args@[0]@ == "backup"@ || args@[0]@ == "restore"@) ==> r == Err::<
                Command,
                PipelineError,
            >(PipelineError::MissingPath),
            args@.len() >= 2 && args@[0]@ == "backup"@ ==> (r matches Ok(c) && c matches
                Command::Backup(p) && p@ == args@[1]@),
            args@.len() >= 2 && args@[0]@ == "restore"@ ==> (r matches Ok(c) && c matches
                Command::Restore(p) && p@ == args@[1]@),
    {
        proof {
            reveal_strlit("backup");
            reveal_strlit("restore");
            assert("backup"@.len() == 6);
            assert("restore"@.len() == 7);
        }
        if args.len() == 0 {
            return Err(PipelineError::MissingCommand);
        }
        let backup_word: String = "backup".to_owned();
        let restore_word: String = "restore".to_owned();
        let cmd: &String = &args[0];
        if *cmd == backup_word {
            if args.len() < 2 {
                return Err(PipelineError::MissingPath);
            }
            let path: String = args[1].clone();
            Ok(Command::Backup(path))
        } else if *cmd == restore_word {
            if args.len() < 2 {
                return Err(PipelineError::MissingPath);
            }
            let path: String = args[1].clone();
            Ok(Command::Restore(path))
        } else {
            Err(PipelineError::InvalidCommand)
        }
    }

    /// Runs the backup pipeline over a file's bytes: compress, then encrypt.
    pub fn backup(&self, data: &Vec<u8>) -> (r: Result<Vec<u8>, PipelineError>)
        requires
            self.wf(),
        ensures
            r matches Ok(v) && v@ == cbc_ciphertext_of(self.key@, self.iv@, compressed_of(data@)),
    {
        let compressed = compressor::compress(data);
        let encrypted = self.encrypt(&compressed);
        Ok(encrypted)
    }

    /// Runs the restore pipeline over a backup's bytes: decrypt, then
    /// decompress. Succeeds on every backup that `backup` produced under the
    /// same key material, returning the original bytes; a failed stage is
    /// reported as that stage's error.
    pub fn restore(&self, data: &Vec<u8>) -> (r: Result<Vec<u8>, PipelineError>)
        requires
            self.wf(),
        ensures
            forall|p: Seq<u8>|
                data@ == cbc_ciphertext_of(self.key@, self.iv@, compressed_of(p)) ==> (r matches Ok(
                    q,
                ) && q@ == p),
            r matches Err(e) ==> (e == PipelineError::Decryption || e
                == PipelineError::Compression),
    {
        let decrypted = match self.decrypt(data) {
            Ok(v) => v,
            Err(e) => {
                return Err(e);
            },
        };
        compressor::decompress(&decrypted)
    }

    /// The cipher stage of the pipeline, under this orchestrator's key
    /// material.
    pub fn encrypt(&self, data: &Vec<u8>) -> (r: Vec<u8>)
        requires
            self.wf(),
        ensures
            r@ == cbc_ciphertext_of(self.key@, self.iv@, data@),
    {
        let c = Cryptography { key: self.key.clone(), iv: self.iv.clone() };
        proof {
            assert(c.key@ =~= self.key@);
            assert(c.iv@ =~= self.iv@);
        }
        crypt::encrypt(data, &c)
    }

    /// The inverse cipher stage, under this orchestrator's key material.
    pub fn decrypt(&self, data: &Vec<u8>) -> (r: Result<Vec<u8>, PipelineError>)
        requires
            self.wf(),
        ensures
            forall|p: Seq<u8>|
                data@ == cbc_ciphertext_of(self.key@, self.iv@, p) ==> (r matches Ok(q) && q@ == p),
            r matches Err(e) ==> e == PipelineError::Decryption,
    {
        let c = Cryptography { key: self.key.clone(), iv: self.iv.clone() };
        proof {
            assert(c.key@ =~= self.key@);
            assert(c.iv@ =~= self.iv@);
        }
        crypt::decrypt(data, &c)
    }

    /// Remote upload of a finished backup: a hook deliberately left empty;
    /// a remote sink is an external collaborator, not part of the pipeline.
    pub fn upload(&self) {
    }
}

/// The cipher stage plugged into the pipeline: a block cipher in CBC mode
/// under caller-supplied key material, or the chunked authenticated stream
/// cipher under fresh key material.
pub enum CipherStage {
    Cbc(Cryptography),
    Stream(KeyMaterial),
}

impl CipherStage {
    /// The lengths the chosen cipher requires of its key material.
    pub open spec fn wf(&self) -> bool {
        match self {
            CipherStage::Cbc(c) => c.wf(),
            CipherStage::Stream(km) => km.wf(),
        }
    }

    /// What the chosen cipher makes of a payload.
    pub open spec fn ciphertext_of(&self, payload: Seq<u8>) -> Seq<u8> {
        match self {
            CipherStage::Cbc(c) => cbc_ciphertext_of(c.key@, c.iv@, payload),
            CipherStage::Stream(km) => sealed_stream(km.key@, km.nonce_prefix@, payload, 0),
        }
    }

    /// Whether the chosen cipher can hold a payload of this length: the
    /// stream stage counts its chunks with a 32-bit counter.
    pub open spec fn fits(&self, len: int) -> bool {
        match self {
            CipherStage::Cbc(_) => true,
            CipherStage::Stream(_) => len < CHUNK_SIZE * (u32::MAX as int),
        }
    }
}

/// Whether a payload of `len` bytes fits the stream stage's chunk counter.
fn stream_payload_fits(len: usize) -> (b: bool)
    ensures
        b == (len < CHUNK_SIZE * (u32::MAX as int)),
{
    (len as u64) < 500u64 * 4294967295u64
}

/// Whether a ciphertext of `len` bytes fits the stream stage's chunk
/// counter.
fn stream_ciphertext_fits(len: usize) -> (b: bool)
    ensures
        b == (len < (CHUNK_SIZE + TAG_LEN) * (u32::MAX as int)),
{
    (len as u64) < 516u64 * 4294967295u64
}

/// Runs the backup pipeline with a chosen cipher stage: compress, then
/// encrypt. Succeeds on every input whose compressed form the stage can
/// hold, which the CBC stage always can.
pub fn backup_with(stage: &CipherStage, data: &Vec<u8>) -> (r: Result<Vec<u8>, PipelineError>)
    requires
        stage.wf(),
    ensures
        r matches Ok(v) ==> v@ == stage.ciphertext_of(compressed_of(data@)),
        stage.fits(compressed_of(data@).len() as int) ==> r is Ok,
        r matches Err(e) ==> e == PipelineError::Encryption,
{
    let compressed = compressor::compress(data);
    match stage {
        CipherStage::Cbc(c) => Ok(crypt::encrypt(&compressed, c)),
        CipherStage::Stream(km) => {
            if !stream_payload_fits(compressed.len()) {
                return Err(PipelineError::Encryption);
            }
            Ok(aead::encrypt(&compressed, km))
        },
    }
}

/// Runs the restore pipeline with a chosen cipher stage: decrypt, then
/// decompress. Succeeds on every backup that `backup_with` produced under
/// the same stage, returning the original bytes; a failed stage is reported
/// as that stage's error.
pub fn restore_with(stage: &CipherStage, data: &Vec<u8>) -> (r: Result<Vec<u8>, PipelineError>)
    requires
        stage.wf(),
    ensures
        forall|p: Seq<u8>|
            (stage.fits(compressed_of(p).len() as int) && data@ == stage.ciphertext_of(
                compressed_of(p),
            )) ==> (r matches Ok(q) && q@ == p),
        r matches Err(e) ==> (e == PipelineError::Decryption || e == PipelineError::Compression),
{
    let decrypted = match stage {
        CipherStage::Cbc(c) => {
            match crypt::decrypt(data, c) {
                Ok(v) => v,
                Err(e) => {
                    return Err(e);
                },
            }
        },
        CipherStage::Stream(km) => {
            if !stream_ciphertext_fits(data.len()) {
                proof {
                    assert forall|p: Seq<u8>|
                        (stage.fits(compressed_of(p).len() as int) && data@
                            == #[trigger] stage.ciphertext_of(compressed_of(p))) implies false by {
                        let x = compressed_of(p);
                        aead::lemma_stream_max_len(km.key@, km.nonce_prefix@, x, 0);
                        assert(x.len() / (CHUNK_SIZE as nat) + 1 <= u32::MAX as int)
                            by (nonlinear_arith)
                            requires
                                x.len() < CHUNK_SIZE * (u32::MAX as int),
                                CHUNK_SIZE == 500,
                        ;
                        assert(data@.len() < (CHUNK_SIZE + TAG_LEN) * (u32::MAX as int))
                            by (nonlinear_arith)
                            requires
                                data@.len() <= x.len() + TAG_LEN * (x.len() / (CHUNK_SIZE as nat)
                                    + 1),
                                x.len() / (CHUNK_SIZE as nat) + 1 <= u32::MAX as int,
                                x.len() < CHUNK_SIZE * (u32::MAX as int),
                                CHUNK_SIZE == 500,
                                TAG_LEN == 16,
                        ;
                    }
                }
                return Err(PipelineError::Decryption);
            }
            match aead::decrypt(data, km) {
                Ok(v) => v,
                Err(e) => {
                    return Err(e);
                },
            }
        },
    };
    compressor::decompress(&decrypted)
}

/// Decides whether a path may be backed up, from what the caller observed of
/// the filesystem: a missing path is a path-existence error naming the path,
/// an existing path that is not a regular file is rejected as files-only.
pub fn validate_path(path: &str, exists: bool, is_file: bool) -> (r: Result<(), PipelineError>)
    ensures
        !exists ==> (r matches Err(e) && e matches PipelineError::PathMissing(p) && p@ == path@),
        exists && !is_file ==> r == Err::<(), PipelineError>(PipelineError::FilesOnly),
        exists && is_file ==> r == Ok::<(), PipelineError>(()),
{
    if !exists {
        Err(PipelineError::PathMissing(path.to_owned()))
    } else if !is_file {
        Err(PipelineError::FilesOnly)
    } else {
        Ok(())
    }
}

} // verus!
