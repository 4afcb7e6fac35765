//! The authenticated stream stage: encrypt or decrypt a byte stream in
//! fixed-size chunks, each independently sealed with XChaCha20-Poly1305 and
//! authenticated by its own tag. Each chunk's 24-byte nonce is the 19-byte
//! nonce prefix, a big-endian 32-bit chunk counter, and one marker byte that
//! distinguishes the final chunk, so truncating the stream or reordering its
//! chunks breaks authentication. The chunk size is part of the wire format:
//! a decryptor must cut the stream exactly as the encryptor did.

use vstd::prelude::*;
use chacha20poly1305::KeyInit;
use chacha20poly1305::aead::Aead;
use chacha20poly1305::aead::rand_core::RngCore;
use crate::errors::PipelineError;

verus! {

/// Plaintext bytes sealed per chunk.
pub const CHUNK_SIZE: usize = 500;

/// Authentication tag bytes appended to each sealed chunk.
pub const TAG_LEN: usize = 16;

/// Key bytes.
pub const KEY_LEN: usize = 32;

/// Nonce prefix bytes; the rest of the nonce is the counter and the marker.
pub const NONCE_PREFIX_LEN: usize = 19;

/// Full per-chunk nonce bytes.
pub const NONCE_LEN: usize = 24;

/// The key material of the stream stage: a 32-byte key and a 19-byte nonce
/// prefix, generated fresh for each encryption and needed again, exactly as
/// generated, for decryption.
pub struct KeyMaterial {
    pub key: Vec<u8>,
    pub nonce_prefix: Vec<u8>,
}

impl KeyMaterial {
    /// The lengths the stream construction requires.
    pub open spec fn wf(&self) -> bool {
        self.key@.len() == KEY_LEN && self.nonce_prefix@.len() == NONCE_PREFIX_LEN
    }
}

/// The four bytes of `counter`, most significant first.
pub open spec fn be32(counter: u32) -> Seq<u8> {
    seq![(counter >> 24) as u8, (counter >> 16) as u8, (counter >> 8) as u8, counter as u8]
}

/// The nonce of one chunk: prefix, big-endian counter, last-chunk marker.
pub open spec fn nonce_for(prefix: Seq<u8>, counter: u32, last: bool) -> Seq<u8> {
    prefix + be32(counter) + seq![
        if last {
            1u8
        } else {
            0u8
        },
    ]
}

/// What sealing one chunk under `key` and `nonce` produces. Named rather
/// than spelled out: the cipher takes pages to state, but its output depends
/// on key, nonce and plaintext alone.
pub uninterp spec fn raw_sealed_of(key: Seq<u8>, nonce: Seq<u8>, data: Seq<u8>) -> Seq<u8>;

/// The sealed chunk, pinned to its documented length of plaintext plus tag,
/// so that stream parsing is well defined in specifications.
pub open spec fn sealed_chunk(key: Seq<u8>, nonce: Seq<u8>, data: Seq<u8>) -> Seq<u8> {
    (raw_sealed_of(key, nonce, data) + Seq::new(data.len() + TAG_LEN as nat, |i: int| 0u8)).take(
        (data.len() + TAG_LEN) as int,
    )
}

/// The whole sealed stream of `data`, chunked from counter value `counter`
/// on: every full chunk is sealed as a "next" chunk, and the final short
/// chunk (possibly empty) as the "last" chunk.
pub open spec fn sealed_stream(key: Seq<u8>, prefix: Seq<u8>, data: Seq<u8>, counter: u32) -> Seq<
    u8,
>
    decreases data.len(),
{
    if data.len() < CHUNK_SIZE {
        sealed_chunk(key, nonce_for(prefix, counter, true), data)
    } else {
        sealed_chunk(key, nonce_for(prefix, counter, false), data.take(CHUNK_SIZE as int))
            + sealed_stream(key, prefix, data.skip(CHUNK_SIZE as int), (counter + 1) as u32)
    }
}

/// The sealed form of a run of full "next" chunks alone (no final chunk).
pub open spec fn sealed_next_run(key: Seq<u8>, prefix: Seq<u8>, head: Seq<u8>, counter: u32) -> Seq<
    u8,
>
    decreases head.len(),
{
    if head.len() < CHUNK_SIZE {
        Seq::empty()
    } else {
        sealed_chunk(key, nonce_for(prefix, counter, false), head.take(CHUNK_SIZE as int))
            + sealed_next_run(key, prefix, head.skip(CHUNK_SIZE as int), (counter + 1) as u32)
    }
}

/// A sealed chunk is one tag longer than its plaintext.
pub proof fn lemma_sealed_chunk_len(key: Seq<u8>, nonce: Seq<u8>, data: Seq<u8>)
    ensures
        sealed_chunk(key, nonce, data).len() == data.len() + TAG_LEN,
{
}

/// Where the raw sealed bytes have their documented length, the pinned form
/// equals them.
pub proof fn lemma_sealed_chunk_raw(key: Seq<u8>, nonce: Seq<u8>, data: Seq<u8>)
    requires
        raw_sealed_of(key, nonce, data).len() == data.len() + TAG_LEN,
    ensures
        sealed_chunk(key, nonce, data) == raw_sealed_of(key, nonce, data),
{
    assert(sealed_chunk(key, nonce, data) =~= raw_sealed_of(key, nonce, data));
}

/// Every sealed stream carries at least one tag beyond its plaintext.
pub proof fn lemma_stream_min_len(key: Seq<u8>, prefix: Seq<u8>, data: Seq<u8>, counter: u32)
    ensures
        sealed_stream(key, prefix, data, counter).len() >= data.len() + TAG_LEN,
    decreases data.len(),
{
    if data.len() < CHUNK_SIZE {
        lemma_sealed_chunk_len(key, nonce_for(prefix, counter, true), data);
    } else {
        lemma_sealed_chunk_len(
            key,
            nonce_for(prefix, counter, false),
            data.take(CHUNK_SIZE as int),
        );
        lemma_stream_min_len(key, prefix, data.skip(CHUNK_SIZE as int), (counter + 1) as u32);
    }
}

/// A sealed stream carries at most one tag per started chunk plus the final
/// tag beyond its plaintext.
pub proof fn lemma_stream_max_len(key: Seq<u8>, prefix: Seq<u8>, data: Seq<u8>, counter: u32)
    ensures
        sealed_stream(key, prefix, data, counter).len() <= data.len() + TAG_LEN * (data.len() / (
        CHUNK_SIZE as nat) + 1),
    decreases data.len(),
{
    if data.len() < CHUNK_SIZE {
        lemma_sealed_chunk_len(key, nonce_for(prefix, counter, true), data);
    } else {
        lemma_sealed_chunk_len(
            key,
            nonce_for(prefix, counter, false),
            data.take(CHUNK_SIZE as int),
        );
        lemma_stream_max_len(key, prefix, data.skip(CHUNK_SIZE as int), (counter + 1) as u32);
        assert((data.len() - CHUNK_SIZE) / (CHUNK_SIZE as int) + 1 == data.len() / (
        CHUNK_SIZE as nat)) by (nonlinear_arith)
            requires
                data.len() >= CHUNK_SIZE,
                CHUNK_SIZE == 500,
        ;
    }
}

/// Appending one more full chunk to a run seals it at the next counter.
pub proof fn lemma_next_run_snoc(
    key: Seq<u8>,
    prefix: Seq<u8>,
    head: Seq<u8>,
    chunk: Seq<u8>,
    counter: u32,
)
    requires
        head.len() % (CHUNK_SIZE as nat) == 0,
        chunk.len() == CHUNK_SIZE,
        counter + head.len() / (CHUNK_SIZE as nat) + 1 <= u32::MAX,
    ensures
        sealed_next_run(key, prefix, head + chunk, counter) == sealed_next_run(
            key,
            prefix,
            head,
            counter,
        ) + sealed_chunk(
            key,
            nonce_for(prefix, ((counter + head.len() / (CHUNK_SIZE as nat)) as u32), false),
            chunk,
        ),
    decreases head.len(),
{
    if head.len() == 0 {
        assert(head + chunk =~= chunk);
        assert(chunk.take(CHUNK_SIZE as int) =~= chunk);
        assert(chunk.skip(CHUNK_SIZE as int) =~= Seq::<u8>::empty());
        assert(sealed_next_run(key, prefix, chunk.skip(CHUNK_SIZE as int), (counter + 1) as u32)
            =~= Seq::<u8>::empty());
        assert(sealed_next_run(key, prefix, head, counter) =~= Seq::<u8>::empty());
    } else {
        assert(head.len() >= CHUNK_SIZE);
        let rest = head.skip(CHUNK_SIZE as int);
        assert(rest.len() % (CHUNK_SIZE as nat) == 0);
        assert((head + chunk).len() >= CHUNK_SIZE);
        assert((head + chunk).take(CHUNK_SIZE as int) =~= head.take(CHUNK_SIZE as int));
        assert((head + chunk).skip(CHUNK_SIZE as int) =~= rest + chunk);
        lemma_next_run_snoc(key, prefix, rest, chunk, (counter + 1) as u32);
        assert(rest.len() / (CHUNK_SIZE as nat) + 1 == head.len() / (CHUNK_SIZE as nat));
    }
}

/// A stream whose plaintext starts with a run of full chunks is that run's
/// sealed form followed by the sealed stream of the remainder.
pub proof fn lemma_stream_decompose(
    key: Seq<u8>,
    prefix: Seq<u8>,
    head: Seq<u8>,
    tail: Seq<u8>,
    counter: u32,
)
    requires
        head.len() % (CHUNK_SIZE as nat) == 0,
        counter + head.len() / (CHUNK_SIZE as nat) <= u32::MAX,
    ensures
        sealed_stream(key, prefix, head + tail, counter) == sealed_next_run(
            key,
            prefix,
            head,
            counter,
        ) + sealed_stream(
            key,
            prefix,
            tail,
            ((counter + head.len() / (CHUNK_SIZE as nat)) as u32),
        ),
    decreases head.len(),
{
    if head.len() == 0 {
        assert(head + tail =~= tail);
        assert(sealed_next_run(key, prefix, head, counter) =~= Seq::<u8>::empty());
        assert(sealed_next_run(key, prefix, head, counter) + sealed_stream(
            key,
            prefix,
            tail,
            counter,
        ) =~= sealed_stream(key, prefix, tail, counter));
    } else {
        assert(head.len() >= CHUNK_SIZE);
        let rest = head.skip(CHUNK_SIZE as int);
        assert(rest.len() % (CHUNK_SIZE as nat) == 0);
        assert((head + tail).len() >= CHUNK_SIZE);
        assert((head + tail).take(CHUNK_SIZE as int) =~= head.take(CHUNK_SIZE as int));
        assert((head + tail).skip(CHUNK_SIZE as int) =~= rest + tail);
        lemma_stream_decompose(key, prefix, rest, tail, (counter + 1) as u32);
        assert(rest.len() / (CHUNK_SIZE as nat) + 1 == head.len() / (CHUNK_SIZE as nat));
        assert(sealed_stream(key, prefix, head + tail, counter) =~= sealed_next_run(
            key,
            prefix,
            head,
            counter,
        ) + sealed_stream(
            key,
            prefix,
            tail,
            ((counter + head.len() / (CHUNK_SIZE as nat)) as u32),
        ));
    }
}

/// A take of one run followed by a take of the remainder is one longer take.
pub proof fn lemma_take_skip_take(s: Seq<u8>, a: int, b: int)
    requires
        0 <= a,
        0 <= b,
        a + b <= s.len(),
    ensures
        s.take(a) + s.skip(a).take(b) == s.take(a + b),
{
    assert(s.take(a) + s.skip(a).take(b) =~= s.take(a + b));
}

/// How a sealed stream splits at its first chunk boundary.
pub proof fn lemma_tail_struct(key: Seq<u8>, prefix: Seq<u8>, rest: Seq<u8>, counter: u32)
    ensures
        rest.len() < CHUNK_SIZE ==> sealed_stream(key, prefix, rest, counter) == sealed_chunk(
            key,
            nonce_for(prefix, counter, true),
            rest,
        ) && sealed_stream(key, prefix, rest, counter).len() == rest.len() + TAG_LEN,
        rest.len() >= CHUNK_SIZE ==> sealed_stream(key, prefix, rest, counter).take(
            (CHUNK_SIZE + TAG_LEN) as int,
        ) == sealed_chunk(key, nonce_for(prefix, counter, false), rest.take(CHUNK_SIZE as int))
            && sealed_stream(key, prefix, rest, counter).skip((CHUNK_SIZE + TAG_LEN) as int)
            == sealed_stream(key, prefix, rest.skip(CHUNK_SIZE as int), (counter + 1) as u32)
            && sealed_stream(key, prefix, rest, counter).len() >= CHUNK_SIZE + 2 * TAG_LEN,
{
    if rest.len() < CHUNK_SIZE {
        lemma_sealed_chunk_len(key, nonce_for(prefix, counter, true), rest);
    } else {
        let head = sealed_chunk(key, nonce_for(prefix, counter, false), rest.take(CHUNK_SIZE as int));
        let tail = sealed_stream(key, prefix, rest.skip(CHUNK_SIZE as int), (counter + 1) as u32);
        lemma_sealed_chunk_len(key, nonce_for(prefix, counter, false), rest.take(CHUNK_SIZE as int));
        lemma_stream_min_len(key, prefix, rest.skip(CHUNK_SIZE as int), (counter + 1) as u32);
        assert((head + tail).take((CHUNK_SIZE + TAG_LEN) as int) =~= head);
        assert((head + tail).skip((CHUNK_SIZE + TAG_LEN) as int) =~= tail);
    }
}

/// Relies on `chacha20poly1305::XChaCha20Poly1305` (`Aead::encrypt`): seals
/// one chunk, producing ciphertext plus a 16-byte tag, a function of key,
/// nonce and plaintext alone; sealing a chunk of at most `CHUNK_SIZE` bytes
/// cannot fail.
#[verifier::external_body]
fn seal_chunk(key: &Vec<u8>, nonce: &Vec<u8>, data: &Vec<u8>) -> (r: Vec<u8>)
    requires
        key@.len() == KEY_LEN,
        nonce@.len() == NONCE_LEN,
        data@.len() <= CHUNK_SIZE,
    ensures
        r@ == raw_sealed_of(key@, nonce@, data@),
        r@.len() == data@.len() + TAG_LEN,
{
    let cipher = chacha20poly1305::XChaCha20Poly1305::new(
        chacha20poly1305::Key::from_slice(key.as_slice()),
    );
    let n = chacha20poly1305::XNonce::from_slice(nonce.as_slice());
    cipher.encrypt(n, data.as_slice()).unwrap()
}

/// Relies on `chacha20poly1305::XChaCha20Poly1305` (`Aead::decrypt`): checks
/// the tag and succeeds exactly on a chunk that `Aead::encrypt` produced
/// under the same key and nonce, returning that chunk's plaintext; every
/// other input is rejected.
#[verifier::external_body]
fn open_chunk(key: &Vec<u8>, nonce: &Vec<u8>, data: &Vec<u8>) -> (r: Option<Vec<u8>>)
    requires
        key@.len() == KEY_LEN,
        nonce@.len() == NONCE_LEN,
    ensures
        r matches Some(q) ==> data@ == sealed_chunk(key@, nonce@, q@),
        r is None ==> (forall|p: Seq<u8>|
            p.len() <= CHUNK_SIZE ==> data@ != sealed_chunk(key@, nonce@, p)),
        r matches Some(q) ==> (forall|p: Seq<u8>|
            p.len() <= CHUNK_SIZE && data@ == sealed_chunk(key@, nonce@, p) ==> q@ == p),
{
    let cipher = chacha20poly1305::XChaCha20Poly1305::new(
        chacha20poly1305::Key::from_slice(key.as_slice()),
    );
    let n = chacha20poly1305::XNonce::from_slice(nonce.as_slice());
    match cipher.decrypt(n, data.as_slice()) {
        Ok(v) => Some(v),
        Err(_) => None,
    }
}

/// Relies on the operating system's randomness source (`OsRng`): fresh key
/// material of the right lengths; nothing is promised of the byte values,
/// which differ from call to call.
#[verifier::external_body]
pub fn generate_key_material() -> (km: KeyMaterial)
    ensures
        km.wf(),
{
    let mut key = vec![0u8; KEY_LEN];
    let mut nonce_prefix = vec![0u8; NONCE_PREFIX_LEN];
    chacha20poly1305::aead::OsRng.fill_bytes(key.as_mut_slice());
    chacha20poly1305::aead::OsRng.fill_bytes(nonce_prefix.as_mut_slice());
    KeyMaterial { key, nonce_prefix }
}

/// Copies `data[start..end]` into a fresh vector.
fn subvec(data: &Vec<u8>, start: usize, end: usize) -> (r: Vec<u8>)
    requires
        start <= end,
        end <= data@.len(),
    ensures
        r@ == data@.subrange(start as int, end as int),
{
    let mut r: Vec<u8> = Vec::new();
    let mut i: usize = start;
    while i < end
        invariant
            start <= i,
            i <= end,
            end <= data@.len(),
            r@ == data@.subrange(start as int, i as int),
        decreases end - i,
    {
        let b: u8 = data[i];
        r.push(b);
        proof {
            assert(data@.subrange(start as int, (i + 1) as int) =~= data@.subrange(
                start as int,
                i as int,
            ).push(data@[i as int]));
        }
        i = i + 1;
    }
    r
}

/// Builds one chunk's 24-byte nonce: prefix, big-endian counter, marker.
fn build_nonce(prefix: &Vec<u8>, counter: u32, last: bool) -> (r: Vec<u8>)
    requires
        prefix@.len() == NONCE_PREFIX_LEN,
    ensures
        r@ == nonce_for(prefix@, counter, last),
        r@.len() == NONCE_LEN,
{
    let mut r = subvec(prefix, 0, prefix.len());
    r.push((counter >> 24) as u8);
    r.push((counter >> 16) as u8);
    r.push((counter >> 8) as u8);
    r.push(counter as u8);
    if last {
        r.push(1u8);
    } else {
        r.push(0u8);
    }
    proof {
        assert(r@ =~= nonce_for(prefix@, counter, last));
    }
    r
}

/// Encrypts `data` as a sealed chunk stream under `km`.
pub fn encrypt(data: &Vec<u8>, km: &KeyMaterial) -> (r: Vec<u8>)
    requires
        km.wf(),
        data@.len() < CHUNK_SIZE * (u32::MAX as int),
    ensures
        r@ == sealed_stream(km.key@, km.nonce_prefix@, data@, 0),
        r@.len() < (CHUNK_SIZE + TAG_LEN) * (u32::MAX as int),
{
    proof {
        lemma_stream_max_len(km.key@, km.nonce_prefix@, data@, 0);
        assert(data@.len() / (CHUNK_SIZE as nat) + 1 <= u32::MAX as int) by (nonlinear_arith)
            requires
                data@.len() < CHUNK_SIZE * (u32::MAX as int),
                CHUNK_SIZE == 500,
        ;
        assert(sealed_stream(km.key@, km.nonce_prefix@, data@, 0).len() < (CHUNK_SIZE + TAG_LEN) * (
        u32::MAX as int)) by (nonlinear_arith)
            requires
                sealed_stream(km.key@, km.nonce_prefix@, data@, 0).len() <= data@.len() + TAG_LEN
                    * (data@.len() / (CHUNK_SIZE as nat) + 1),
                data@.len() / (CHUNK_SIZE as nat) + 1 <= u32::MAX as int,
                data@.len() < CHUNK_SIZE * (u32::MAX as int),
                CHUNK_SIZE == 500,
                TAG_LEN == 16,
        ;
    }
    let len: usize = data.len();
    let mut out: Vec<u8> = Vec::new();
    let mut pos: usize = 0;
    let mut counter: u32 = 0;
    proof {
        assert(data@.skip(0) =~= data@);
    }
    while len - pos >= CHUNK_SIZE
        invariant
            km.wf(),
            len == data@.len(),
            data@.len() < CHUNK_SIZE * (u32::MAX as int),
            pos <= len,
            pos == CHUNK_SIZE * (counter as int),
            out@ + sealed_stream(km.key@, km.nonce_prefix@, data@.skip(pos as int), counter)
                == sealed_stream(km.key@, km.nonce_prefix@, data@, 0),
        decreases len - pos,
    {
        proof {
            assert((counter as int) + 1 <= u32::MAX as int) by (nonlinear_arith)
                requires
                    pos == CHUNK_SIZE * (counter as int),
                    pos + CHUNK_SIZE <= CHUNK_SIZE * (u32::MAX as int),
                    CHUNK_SIZE == 500,
            ;
        }
        let chunk = subvec(data, pos, pos + CHUNK_SIZE);
        let nonce = build_nonce(&km.nonce_prefix, counter, false);
        let mut sealed = seal_chunk(&km.key, &nonce, &chunk);
        proof {
            lemma_sealed_chunk_raw(km.key@, nonce_for(km.nonce_prefix@, counter, false), chunk@);
            let tail = data@.skip(pos as int);
            assert(tail.take(CHUNK_SIZE as int) =~= chunk@);
            assert(tail.skip(CHUNK_SIZE as int) =~= data@.skip((pos + CHUNK_SIZE) as int));
            assert(sealed_stream(km.key@, km.nonce_prefix@, tail, counter) == sealed@
                + sealed_stream(
                km.key@,
                km.nonce_prefix@,
                data@.skip((pos + CHUNK_SIZE) as int),
                (counter + 1) as u32,
            ));
            assert((out@ + sealed@) + sealed_stream(
                km.key@,
                km.nonce_prefix@,
                data@.skip((pos + CHUNK_SIZE) as int),
                (counter + 1) as u32,
            ) =~= out@ + (sealed@ + sealed_stream(
                km.key@,
                km.nonce_prefix@,
                data@.skip((pos + CHUNK_SIZE) as int),
                (counter + 1) as u32,
            )));
        }
        out.append(&mut sealed);
        pos = pos + CHUNK_SIZE;
        counter = counter + 1;
    }
    let chunk = subvec(data, pos, len);
    let nonce = build_nonce(&km.nonce_prefix, counter, true);
    let mut sealed = seal_chunk(&km.key, &nonce, &chunk);
    proof {
        lemma_sealed_chunk_raw(km.key@, nonce_for(km.nonce_prefix@, counter, true), chunk@);
        assert(data@.skip(pos as int) =~= chunk@);
    }
    out.append(&mut sealed);
    out
}

/// How a remainder of more than one full sealed chunk splits: it must head
/// with a full "next" chunk of its plaintext tail.
proof fn lemma_mid_chunk_form(key: Seq<u8>, prefix: Seq<u8>, rest: Seq<u8>, tail: Seq<u8>, counter: u32)
    requires
        tail == sealed_stream(key, prefix, rest, counter),
        tail.len() >= CHUNK_SIZE + TAG_LEN + 1,
    ensures
        rest.len() >= CHUNK_SIZE,
        rest.take(CHUNK_SIZE as int).len() == CHUNK_SIZE,
        tail.take((CHUNK_SIZE + TAG_LEN) as int) == sealed_chunk(
            key,
            nonce_for(prefix, counter, false),
            rest.take(CHUNK_SIZE as int),
        ),
        tail.skip((CHUNK_SIZE + TAG_LEN) as int) == sealed_stream(
            key,
            prefix,
            rest.skip(CHUNK_SIZE as int),
            (counter + 1) as u32,
        ),
{
    lemma_tail_struct(key, prefix, rest, counter);
    if rest.len() < CHUNK_SIZE {
        assert(false);
    }
}

/// The possible lengths of a sealed stream: a lone final chunk stays under
/// one full sealed chunk, and anything longer carries at least one full
/// sealed chunk plus a final tag.
proof fn lemma_stream_len_shape(key: Seq<u8>, prefix: Seq<u8>, rest: Seq<u8>, counter: u32)
    ensures
        sealed_stream(key, prefix, rest, counter).len() >= TAG_LEN,
        sealed_stream(key, prefix, rest, counter).len() <= CHUNK_SIZE + TAG_LEN - 1
            || sealed_stream(key, prefix, rest, counter).len() >= CHUNK_SIZE + 2 * TAG_LEN,
        sealed_stream(key, prefix, rest, counter).len() <= CHUNK_SIZE + TAG_LEN - 1 ==> (rest.len()
            < CHUNK_SIZE && sealed_stream(key, prefix, rest, counter) == sealed_chunk(
            key,
            nonce_for(prefix, counter, true),
            rest,
        ) && rest.len() + TAG_LEN == sealed_stream(key, prefix, rest, counter).len()),
{
    lemma_tail_struct(key, prefix, rest, counter);
}


/// Decrypts a sealed chunk stream under `km`. Returns the plaintext only if
/// the whole stream authenticates: on success the input is exactly the
/// sealed stream of the returned bytes, so altered, reordered, truncated or
/// foreign input is never passed off as plaintext. Succeeds on every stream
/// that `encrypt` produced under the same key material, returning the
/// original bytes: together with `encrypt` this states the round trip
/// `decrypt(encrypt(x, km), km) == x`.
#[verifier::rlimit(100)]
pub fn decrypt(data: &Vec<u8>, km: &KeyMaterial) -> (r: Result<Vec<u8>, PipelineError>)
    requires
        km.wf(),
        data@.len() < (CHUNK_SIZE + TAG_LEN) * (u32::MAX as int),
    ensures
        r matches Ok(p) ==> data@ == sealed_stream(km.key@, km.nonce_prefix@, p@, 0),
        forall|p: Seq<u8>|
            (p.len() < CHUNK_SIZE * (u32::MAX as int) && data@ == sealed_stream(
                km.key@,
                km.nonce_prefix@,
                p,
                0,
            )) ==> (r matches Ok(q) && q@ == p),
        r matches Err(e) ==> e == PipelineError::Decryption,
{
    let len: usize = data.len();
    let mut out: Vec<u8> = Vec::new();
    let mut pos: usize = 0;
    let mut counter: u32 = 0;
    let ghost key = km.key@;
    let ghost prefix = km.nonce_prefix@;
    proof {
        assert(data@.take(0) =~= Seq::<u8>::empty());
        assert(sealed_next_run(key, prefix, out@, 0) =~= Seq::<u8>::empty());
        assert forall|p: Seq<u8>|
            (p.len() < CHUNK_SIZE * (u32::MAX as int) && data@ == #[trigger] sealed_stream(
                key,
                prefix,
                p,
                0,
            )) implies (p.len() >= CHUNK_SIZE * (0 as int) && out@ == p.take(
            CHUNK_SIZE * (0 as int),
        ) && data@.skip(0) == sealed_stream(key, prefix, p.skip(CHUNK_SIZE * (0 as int)), 0)) by {
            assert(p.take(0) =~= Seq::<u8>::empty());
            assert(p.skip(0) =~= p);
            assert(data@.skip(0) =~= data@);
        }
    }
    while len - pos >= CHUNK_SIZE + TAG_LEN + 1
        invariant
            km.wf(),
            key == km.key@,
            prefix == km.nonce_prefix@,
            len == data@.len(),
            data@.len() < (CHUNK_SIZE + TAG_LEN) * (u32::MAX as int),
            pos <= len,
            pos == (CHUNK_SIZE + TAG_LEN) * (counter as int),
            out@.len() == CHUNK_SIZE * (counter as int),
            data@.take(pos as int) == sealed_next_run(key, prefix, out@, 0),
            forall|p: Seq<u8>|
                (p.len() < CHUNK_SIZE * (u32::MAX as int) && data@ == #[trigger] sealed_stream(
                    key,
                    prefix,
                    p,
                    0,
                )) ==> (p.len() >= CHUNK_SIZE * (counter as int) && out@ == p.take(
                    CHUNK_SIZE * (counter as int),
                ) && data@.skip(pos as int) == sealed_stream(
                    key,
                    prefix,
                    p.skip(CHUNK_SIZE * (counter as int)),
                    counter,
                )),
        decreases len - pos,
    {
        proof {
            assert((counter as int) + 1 <= u32::MAX as int) by (nonlinear_arith)
                requires
                    pos == (CHUNK_SIZE + TAG_LEN) * (counter as int),
                    pos + CHUNK_SIZE + TAG_LEN + 1 <= (CHUNK_SIZE + TAG_LEN) * (u32::MAX as int),
                    CHUNK_SIZE == 500,
                    TAG_LEN == 16,
            ;
            assert((CHUNK_SIZE + TAG_LEN) * ((counter as int) + 1) == (CHUNK_SIZE + TAG_LEN) * (
            counter as int) + (CHUNK_SIZE + TAG_LEN) && CHUNK_SIZE * ((counter as int) + 1)
                == CHUNK_SIZE * (counter as int) + CHUNK_SIZE) by (nonlinear_arith);
            assert(out@.len() % (CHUNK_SIZE as nat) == 0 && out@.len() / (CHUNK_SIZE as nat)
                == counter as int) by (nonlinear_arith)
                requires
                    out@.len() == CHUNK_SIZE * (counter as int),
                    CHUNK_SIZE == 500,
            ;
        }
        let ct = subvec(data, pos, pos + (CHUNK_SIZE + TAG_LEN));
        let nonce = build_nonce(&km.nonce_prefix, counter, false);
        let opened = open_chunk(&km.key, &nonce, &ct);
        match opened {
            Option::None => {
                proof {
                    assert forall|p: Seq<u8>|
                        p.len() < CHUNK_SIZE * (u32::MAX as int) && data@
                            == #[trigger] sealed_stream(key, prefix, p, 0) implies false by {
                        let rest = p.skip(CHUNK_SIZE * (counter as int));
                        assert(data@.skip(pos as int) == sealed_stream(key, prefix, rest, counter));
                        assert(data@.skip(pos as int).len() == len - pos);
                        lemma_mid_chunk_form(key, prefix, rest, data@.skip(pos as int), counter);
                        assert(ct@ =~= data@.skip(pos as int).take((CHUNK_SIZE + TAG_LEN) as int));
                        assert(ct@ == sealed_chunk(
                            key,
                            nonce_for(prefix, counter, false),
                            rest.take(CHUNK_SIZE as int),
                        ));
                        assert(rest.take(CHUNK_SIZE as int).len() <= CHUNK_SIZE);
                    }
                }
                return Result::Err(PipelineError::Decryption);
            },
            Option::Some(q) => {
                let mut q = q;
                proof {
                    lemma_sealed_chunk_len(key, nonce_for(prefix, counter, false), q@);
                    assert(q@.len() == CHUNK_SIZE);
                    lemma_next_run_snoc(key, prefix, out@, q@, 0);
                    assert(data@.take((pos + (CHUNK_SIZE + TAG_LEN)) as int) =~= data@.take(
                        pos as int,
                    ) + ct@);
                    assert(sealed_next_run(key, prefix, out@ + q@, 0) == data@.take(
                        (pos + (CHUNK_SIZE + TAG_LEN)) as int,
                    ));
                    assert forall|p: Seq<u8>|
                        (p.len() < CHUNK_SIZE * (u32::MAX as int) && data@
                            == #[trigger] sealed_stream(key, prefix, p, 0)) implies (p.len()
                        >= CHUNK_SIZE * ((counter as int) + 1) && out@ + q@ == p.take(
                        CHUNK_SIZE * ((counter as int) + 1),
                    ) && data@.skip((pos + (CHUNK_SIZE + TAG_LEN)) as int) == sealed_stream(
                        key,
                        prefix,
                        p.skip(CHUNK_SIZE * ((counter as int) + 1)),
                        (counter + 1) as u32,
                    )) by {
                        let rest = p.skip(CHUNK_SIZE * (counter as int));
                        assert(data@.skip(pos as int) == sealed_stream(key, prefix, rest, counter));
                        assert(data@.skip(pos as int).len() == len - pos);
                        lemma_mid_chunk_form(key, prefix, rest, data@.skip(pos as int), counter);
                        assert(ct@ =~= data@.skip(pos as int).take((CHUNK_SIZE + TAG_LEN) as int));
                        assert(ct@ == sealed_chunk(
                            key,
                            nonce_for(prefix, counter, false),
                            rest.take(CHUNK_SIZE as int),
                        ));
                        assert(q@ == rest.take(CHUNK_SIZE as int));
                        assert(rest.len() == p.len() - CHUNK_SIZE * (counter as int));
                        assert(p.len() >= CHUNK_SIZE * (counter as int) + CHUNK_SIZE);
                        lemma_take_skip_take(p, CHUNK_SIZE * (counter as int), CHUNK_SIZE as int);
                        assert(out@ + q@ == p.take(CHUNK_SIZE * (counter as int) + CHUNK_SIZE));
                        assert(data@.skip((pos + (CHUNK_SIZE + TAG_LEN)) as int) =~= data@.skip(
                            pos as int,
                        ).skip((CHUNK_SIZE + TAG_LEN) as int));
                        assert(rest.skip(CHUNK_SIZE as int) =~= p.skip(
                            CHUNK_SIZE * (counter as int) + CHUNK_SIZE,
                        ));
                    }
                }
                out.append(&mut q);
                pos = pos + (CHUNK_SIZE + TAG_LEN);
                counter = counter + 1;
            },
        }
    }
    let remaining = len - pos;
    if remaining < TAG_LEN || remaining == CHUNK_SIZE + TAG_LEN {
        proof {
            assert forall|p: Seq<u8>|
                p.len() < CHUNK_SIZE * (u32::MAX as int) && data@ == #[trigger] sealed_stream(
                    key,
                    prefix,
                    p,
                    0,
                ) implies false by {
                let rest = p.skip(CHUNK_SIZE * (counter as int));
                assert(data@.skip(pos as int) == sealed_stream(key, prefix, rest, counter));
                assert(data@.skip(pos as int).len() == len - pos);
                lemma_stream_len_shape(key, prefix, rest, counter);
            }
        }
        return Result::Err(PipelineError::Decryption);
    }
    let ct = subvec(data, pos, len);
    let nonce = build_nonce(&km.nonce_prefix, counter, true);
    let opened = open_chunk(&km.key, &nonce, &ct);
    match opened {
        Option::None => {
            proof {
                assert forall|p: Seq<u8>|
                    p.len() < CHUNK_SIZE * (u32::MAX as int) && data@ == #[trigger] sealed_stream(
                        key,
                        prefix,
                        p,
                        0,
                    ) implies false by {
                    let rest = p.skip(CHUNK_SIZE * (counter as int));
                    assert(data@.skip(pos as int) == sealed_stream(key, prefix, rest, counter));
                    assert(data@.skip(pos as int).len() == len - pos);
                    lemma_stream_len_shape(key, prefix, rest, counter);
                    assert(ct@ =~= data@.skip(pos as int));
                    assert(ct@ == sealed_chunk(key, nonce_for(prefix, counter, true), rest));
                    assert(rest.len() <= CHUNK_SIZE);
                }
            }
            Result::Err(PipelineError::Decryption)
        },
        Option::Some(q) => {
            let mut q = q;
            proof {
                lemma_sealed_chunk_len(key, nonce_for(prefix, counter, true), q@);
                assert(q@.len() == remaining - TAG_LEN);
                assert(q@.len() < CHUNK_SIZE);
                assert(out@.len() % (CHUNK_SIZE as nat) == 0 && out@.len() / (CHUNK_SIZE as nat)
                    == counter as int) by (nonlinear_arith)
                    requires
                        out@.len() == CHUNK_SIZE * (counter as int),
                        CHUNK_SIZE == 500,
                ;
                lemma_stream_decompose(key, prefix, out@, q@, 0);
                assert(ct@ =~= data@.skip(pos as int));
                assert(sealed_stream(key, prefix, q@, counter) == ct@);
                assert(data@ =~= data@.take(pos as int) + data@.skip(pos as int));
                assert(sealed_stream(key, prefix, out@ + q@, 0) == data@);
                assert forall|p: Seq<u8>|
                    (p.len() < CHUNK_SIZE * (u32::MAX as int) && data@ == #[trigger] sealed_stream(
                        key,
                        prefix,
                        p,
                        0,
                    )) implies out@ + q@ == p by {
                    let rest = p.skip(CHUNK_SIZE * (counter as int));
                    assert(data@.skip(pos as int) == sealed_stream(key, prefix, rest, counter));
                    assert(data@.skip(pos as int).len() == len - pos);
                    lemma_stream_len_shape(key, prefix, rest, counter);
                    assert(ct@ == sealed_chunk(key, nonce_for(prefix, counter, true), rest));
                    assert(rest.len() <= CHUNK_SIZE);
                    assert(q@ == rest);
                    assert(out@ == p.take(CHUNK_SIZE * (counter as int)));
                    assert(p.take(CHUNK_SIZE * (counter as int)) + p.skip(
                        CHUNK_SIZE * (counter as int),
                    ) =~= p);
                }
            }
            out.append(&mut q);
            Result::Ok(out)
        },
    }
}

} // verus!
