//! The CBC cipher stage: encrypt or decrypt a byte stream with AES-128 in CBC
//! mode under a caller-supplied 16-byte key and 16-byte IV. The scheme is
//! symmetric and non-randomized: the same key and IV must be presented for
//! decryption to succeed, and reusing one key/IV pair across different
//! plaintexts is an inherited weakness of the design, not something this
//! module hides. Padding at the final block is the cipher primitive's own
//! PKCS-style padding.

use vstd::prelude::*;
use std::io::Read;
use crate::errors::PipelineError;

verus! {

/// The key material of the CBC stage: a 16-byte key and a 16-byte IV.
pub struct Cryptography {
    pub key: Vec<u8>,
    pub iv: Vec<u8>,
}

impl Cryptography {
    /// The lengths AES-128-CBC requires.
    pub open spec fn wf(&self) -> bool {
        self.key@.len() == 16 && self.iv@.len() == 16
    }
}

/// The AES-128-CBC ciphertext (PKCS-padded) of `data` under `key` and `iv`.
/// Named rather than spelled out: the cipher takes pages to state, but its
/// output depends on key, IV and plaintext alone.
pub uninterp spec fn cbc_ciphertext_of(key: Seq<u8>, iv: Seq<u8>, data: Seq<u8>) -> Seq<u8>;

/// Relies on `cryptostream::read::Encryptor` over `openssl`'s AES-128-CBC:
/// reading the encryptor to the end yields the PKCS-padded CBC ciphertext,
/// a function of key, IV and plaintext alone. Encryption of an in-memory
/// slice cannot fail once the key and IV lengths are right.
#[verifier::external_body]
fn cbc_encrypt(key: &Vec<u8>, iv: &Vec<u8>, data: &Vec<u8>) -> (r: Vec<u8>)
    requires
        key@.len() == 16,
        iv@.len() == 16,
    ensures
        r@ == cbc_ciphertext_of(key@, iv@, data@),
{
    let cipher = openssl::symm::Cipher::aes_128_cbc();
    let mut enc =
        cryptostream::read::Encryptor::new(data.as_slice(), cipher, key, iv).unwrap();
    let mut out: Vec<u8> = Vec::new();
    enc.read_to_end(&mut out).unwrap();
    out
}

/// Relies on `cryptostream::read::Decryptor` over `openssl`'s AES-128-CBC:
/// CBC decryption inverts CBC encryption under the same key and IV, so
/// reading the decryptor to the end recovers the exact plaintext of any
/// ciphertext that `cbc_encrypt` produced; a malformed ciphertext (bad length
/// or bad padding) is reported as an error.
#[verifier::external_body]
fn cbc_decrypt(key: &Vec<u8>, iv: &Vec<u8>, data: &Vec<u8>) -> (r: Option<Vec<u8>>)
    requires
        key@.len() == 16,
        iv@.len() == 16,
    ensures
        r is None ==> (forall|p: Seq<u8>| data@ != cbc_ciphertext_of(key@, iv@, p)),
        r matches Some(q) ==> (forall|p: Seq<u8>|
            data@ == cbc_ciphertext_of(key@, iv@, p) ==> q@ == p),
{
    let cipher = openssl::symm::Cipher::aes_128_cbc();
    let dec = cryptostream::read::Decryptor::new(data.as_slice(), cipher, key, iv);
    let mut out: Vec<u8> = Vec::new();
    match dec {
        Ok(mut d) => match d.read_to_end(&mut out) {
            Ok(_) => Some(out),
            Err(_) => None,
        },
        Err(_) => None,
    }
}

/// Encrypts `data` under the key and IV in `c`.
pub fn encrypt(data: &Vec<u8>, c: &Cryptography) -> (r: Vec<u8>)
    requires
        c.wf(),
    ensures
        r@ == cbc_ciphertext_of(c.key@, c.iv@, data@),
{
    cbc_encrypt(&c.key, &c.iv, data)
}

/// Decrypts `data` under the key and IV in `c`. Succeeds on every ciphertext
/// that `encrypt` produced under the same key and IV, returning the original
/// bytes: together with `encrypt` this states the round trip
/// `decrypt(encrypt(x, c), c) == x` for every byte sequence `x`. A malformed
/// ciphertext is reported as a decryption error.
pub fn decrypt(data: &Vec<u8>, c: &Cryptography) -> (r: Result<Vec<u8>, PipelineError>)
    requires
        c.wf(),
    ensures
        forall|p: Seq<u8>| data@ == cbc_ciphertext_of(c.key@, c.iv@, p) ==> (r matches Ok(q)
            && q@ == p),
        r matches Err(e) ==> e == PipelineError::Decryption,
{
    match cbc_decrypt(&c.key, &c.iv, data) {
        Some(v) => Ok(v),
        None => Err(PipelineError::Decryption),
    }
}

} // verus!
