//! The cipher pipeline: compress, then seal with AES-256-GCM-SIV under a
//! fresh nonce, then frame and armor; and the exact inverse.
use crate::codec::{b64_decode, b64_encode, decode, encode};
use crate::error::Error;
use crate::key_ring::{bytes_result, key_result, key_result_bytes, random_bytes, KeyRing, KeyRingView, KEY_LENGTH};
use aes_gcm_siv::aead::{Aead, KeyInit};
use vstd::prelude::*;
use vstd::utf8::*;

verus! {

/// Size in bytes of a nonce.
pub const NONCE_LENGTH: usize = 12;

/// The version byte of the blob format.
pub const BLOB_VERSION: u8 = 1;

/// The longest plaintext, in bytes, that the cipher seals.
pub const MAX_SEALED_PLAINTEXT: u64 = 0x10_0000_0000;

/// The longest key id, in UTF-8 bytes, that a blob can name.
pub const MAX_KEY_ID_BYTES: usize = 255;

/// The gzip stream that fast compression makes of `b`.
pub uninterp spec fn gzip_fast(b: Seq<u8>) -> Seq<u8>;

/// The bytes that the first gzip member of `b` decompresses to, if it is valid.
pub uninterp spec fn gunzip(b: Seq<u8>) -> Option<Seq<u8>>;

/// The ciphertext with its tag that AES-256-GCM-SIV makes of `pt`.
pub uninterp spec fn siv_seal(key: Seq<u8>, nonce: Seq<u8>, pt: Seq<u8>) -> Seq<u8>;

/// The plaintext that AES-256-GCM-SIV recovers from `ct`, if its tag checks.
pub uninterp spec fn siv_open(key: Seq<u8>, nonce: Seq<u8>, ct: Seq<u8>) -> Option<Seq<u8>>;

/// Relies on flate2's `GzEncoder` at `Compression::fast()` over a `Vec`: its
/// header carries no time stamp, so the stream depends on the input alone,
/// writing into a `Vec` cannot fail, and `GzDecoder` reads the input back
/// from the stream.
#[verifier::external_body]
fn compress(b: &[u8]) -> (r: Option<Vec<u8>>)
    ensures
        r is Some,
        r matches Some(v) ==> v@ == gzip_fast(b@) && gunzip(v@) == Some(b@),
{
    let mut e = flate2::write::GzEncoder::new(Vec::new(), flate2::Compression::fast());
    std::io::Write::write_all(&mut e, b).ok()?;
    e.finish().ok()
}

/// Relies on flate2's `read::GzDecoder`: decompresses the first gzip member,
/// failing on malformed data.
#[verifier::external_body]
fn decompress(b: &[u8]) -> (r: Option<Vec<u8>>)
    ensures
        match r {
            Some(v) => gunzip(b@) == Some(v@),
            None => gunzip(b@) is None,
        },
{
    let mut d = flate2::read::GzDecoder::new(b);
    let mut out = Vec::new();
    std::io::Read::read_to_end(&mut d, &mut out).ok()?;
    Some(out)
}

/// Relies on aes-gcm-siv's `Aead::encrypt` for `Aes256GcmSiv`: it refuses
/// exactly the plaintexts over `P_MAX` bytes, is deterministic in key, nonce
/// and plaintext, and `Aead::decrypt` recovers the plaintext.
#[verifier::external_body]
fn seal(key: &[u8], nonce: &[u8], pt: &[u8]) -> (r: Option<Vec<u8>>)
    requires
        key@.len() == KEY_LENGTH,
        nonce@.len() == NONCE_LENGTH,
    ensures
        r is Some <==> pt@.len() <= MAX_SEALED_PLAINTEXT,
        r matches Some(v) ==> v@ == siv_seal(key@, nonce@, pt@) && siv_open(key@, nonce@, v@)
            == Some(pt@),
{
    let cipher = aes_gcm_siv::Aes256GcmSiv::new(aes_gcm_siv::Key::<aes_gcm_siv::Aes256GcmSiv>::from_slice(key));
    cipher.encrypt(aes_gcm_siv::Nonce::from_slice(nonce), pt).ok()
}

/// Relies on aes-gcm-siv's `Aead::decrypt` for `Aes256GcmSiv`: the
/// plaintext when the tag checks, an error otherwise.
#[verifier::external_body]
fn open(key: &[u8], nonce: &[u8], ct: &[u8]) -> (r: Option<Vec<u8>>)
    requires
        key@.len() == KEY_LENGTH,
        nonce@.len() == NONCE_LENGTH,
    ensures
        match r {
            Some(v) => siv_open(key@, nonce@, ct@) == Some(v@),
            None => siv_open(key@, nonce@, ct@) is None,
        },
{
    let cipher = aes_gcm_siv::Aes256GcmSiv::new(aes_gcm_siv::Key::<aes_gcm_siv::Aes256GcmSiv>::from_slice(key));
    cipher.decrypt(aes_gcm_siv::Nonce::from_slice(nonce), ct).ok()
}

/// The fixed start of every frame: a magic tag and the version.
pub open spec fn frame_header() -> Seq<u8> {
    seq![0x49u8, 0x42u8, 0x58u8, BLOB_VERSION]
}

/// A frame: the header, the key id's length and bytes, the nonce, and the
/// sealed payload.
pub open spec fn frame_of(id: Seq<u8>, nonce: Seq<u8>, sealed: Seq<u8>) -> Seq<u8> {
    frame_header() + seq![id.len() as u8] + id + nonce + sealed
}

/// The key id, nonce and sealed payload of a frame, if `f` is one.
pub open spec fn parse_frame(f: Seq<u8>) -> Option<(Seq<u8>, Seq<u8>, Seq<u8>)> {
    if f.len() >= 5 && f.subrange(0, 4) == frame_header() && f.len() >= 5 + f[4] + NONCE_LENGTH {
        let n = f[4] as int;
        Some(
            (
                f.subrange(5, 5 + n),
                f.subrange(5 + n, 5 + n + NONCE_LENGTH),
                f.subrange(5 + n + NONCE_LENGTH, f.len() as int),
            ),
        )
    } else {
        None
    }
}

/// A frame reads back as the parts it was made of.
pub proof fn lemma_parse_frame(id: Seq<u8>, nonce: Seq<u8>, sealed: Seq<u8>)
    requires
        id.len() <= MAX_KEY_ID_BYTES,
        nonce.len() == NONCE_LENGTH,
    ensures
        parse_frame(frame_of(id, nonce, sealed)) == Some((id, nonce, sealed)),
{
    let f = frame_of(id, nonce, sealed);
    let n = id.len() as int;
    assert(f[4] as int == n);
    assert(f.subrange(0, 4) =~= frame_header());
    assert(f.subrange(5, 5 + n) =~= id);
    assert(f.subrange(5 + n, 5 + n + NONCE_LENGTH) =~= nonce);
    assert(f.subrange(5 + n + NONCE_LENGTH, f.len() as int) =~= sealed);
}

/// Appends `src` to `out`.
fn append_bytes(out: &mut Vec<u8>, src: &[u8])
    ensures
        final(out)@ == old(out)@ + src@,
{
    let mut i: usize = 0;
    while i < src.len()
        invariant
            i <= src@.len(),
            out@ == old(out)@ + src@.take(i as int),
        decreases src.len() - i,
    {
        out.push(src[i]);
        i = i + 1;
        assert(out@ =~= old(out)@ + src@.take(i as int));
    }
    assert(src@.take(i as int) =~= src@);
}

/// The bytes of `src` from `lo` up to `hi`.
fn copy_range(src: &[u8], lo: usize, hi: usize) -> (r: Vec<u8>)
    requires
        lo <= hi <= src@.len(),
    ensures
        r@ == src@.subrange(lo as int, hi as int),
{
    let mut r: Vec<u8> = Vec::new();
    let mut i: usize = lo;
    while i < hi
        invariant
            lo <= i <= hi <= src@.len(),
            r@ == src@.subrange(lo as int, i as int),
        decreases hi - i,
    {
        r.push(src[i]);
        i = i + 1;
        assert(r@ =~= src@.subrange(lo as int, i as int));
    }
    r
}

/// Builds the frame of a key id, a nonce and a sealed payload.
pub fn build_frame(id: &[u8], nonce: &[u8], sealed: &[u8]) -> (r: Vec<u8>)
    requires
        id@.len() <= MAX_KEY_ID_BYTES,
    ensures
        r@ == frame_of(id@, nonce@, sealed@),
{
    let mut f: Vec<u8> = Vec::new();
    f.push(0x49u8);
    f.push(0x42u8);
    f.push(0x58u8);
    f.push(BLOB_VERSION);
    f.push(id.len() as u8);
    append_bytes(&mut f, id);
    append_bytes(&mut f, nonce);
    append_bytes(&mut f, sealed);
    assert(f@ =~= frame_of(id@, nonce@, sealed@));
    f
}

/// Splits a frame into its key id, nonce and sealed payload.
pub fn split_frame(f: &[u8]) -> (r: Option<(Vec<u8>, Vec<u8>, Vec<u8>)>)
    ensures
        match r {
            Some((id, nonce, sealed)) => parse_frame(f@) == Some((id@, nonce@, sealed@)),
            None => parse_frame(f@) is None,
        },
{
    if f.len() < 5 {
        return None;
    }
    let n = f[4] as usize;
    if !(f[0] == 0x49u8 && f[1] == 0x42u8 && f[2] == 0x58u8 && f[3] == BLOB_VERSION) {
        assert(f@.subrange(0, 4) != frame_header()) by {
            assert(f@.subrange(0, 4)[0] == f@[0]);
            assert(f@.subrange(0, 4)[1] == f@[1]);
            assert(f@.subrange(0, 4)[2] == f@[2]);
            assert(f@.subrange(0, 4)[3] == f@[3]);
        }
        return None;
    }
    assert(f@.subrange(0, 4) =~= frame_header());
    if f.len() - 5 < n + NONCE_LENGTH {
        return None;
    }
    let id = copy_range(f, 5, 5 + n);
    let nonce = copy_range(f, 5 + n, 5 + n + NONCE_LENGTH);
    let sealed = copy_range(f, 5 + n + NONCE_LENGTH, f.len());
    Some((id, nonce, sealed))
}

/// What `decrypt` returns for `blob` against `ring`: the blob is unarmored
/// and split, the key it names is looked up, the payload is authenticated
/// and decrypted, then decompressed.
pub open spec fn decrypt_result(ring: KeyRingView, blob: Seq<char>) -> Result<Seq<u8>, Error> {
    match b64_decode(blob) {
        None => Err(Error::Decode),
        Some(f) => match parse_frame(f) {
            None => Err(Error::MalformedBlob),
            Some((id, nonce, sealed)) => match key_result_bytes(ring, id) {
                Err(e) => Err(e),
                Ok(key) => match siv_open(key, nonce, sealed) {
                    None => Err(Error::Authentication),
                    Some(z) => match gunzip(z) {
                        None => Err(Error::CorruptData),
                        Some(p) => Ok(p),
                    },
                },
            },
        },
    }
}

/// The blob that sealing `pt` under `key`, named `key_id`, with `nonce` gives.
pub open spec fn blob_of(key_id: Seq<char>, key: Seq<u8>, nonce: Seq<u8>, pt: Seq<u8>) -> Seq<
    char,
> {
    b64_encode(frame_of(encode_utf8(key_id), nonce, siv_seal(key, nonce, gzip_fast(pt))))
}

/// What `encrypt_with_nonce` returns: the key lookup's error, an error for
/// an over-long key id, a refusal of a compressed payload too long for the
/// cipher, or else the blob. The blob unarmors to its frame, which names the
/// key id and the nonce and carries the sealed compressed plaintext.
pub open spec fn encrypt_outcome(
    ring: KeyRingView,
    key_id: Seq<char>,
    nonce: Seq<u8>,
    pt: Seq<u8>,
    r: Result<Seq<char>, Error>,
) -> bool {
    match key_result(ring, key_id) {
        Err(e) => r == Err::<Seq<char>, Error>(e),
        Ok(key) => if encode_utf8(key_id).len() > MAX_KEY_ID_BYTES {
            r == Err::<Seq<char>, Error>(Error::KeyIdTooLong)
        } else {
            match r {
                Ok(b) => gzip_fast(pt).len() <= MAX_SEALED_PLAINTEXT && b == blob_of(
                    key_id,
                    key,
                    nonce,
                    pt,
                ) && b64_decode(b) == Some(
                    frame_of(encode_utf8(key_id), nonce, siv_seal(key, nonce, gzip_fast(pt))),
                ) && siv_open(key, nonce, siv_seal(key, nonce, gzip_fast(pt))) == Some(
                    gzip_fast(pt),
                ) && gunzip(gzip_fast(pt)) == Some(pt),
                Err(e) => e == Error::Encryption && gzip_fast(pt).len() > MAX_SEALED_PLAINTEXT,
            }
        },
    }
}

/// The view of a result that carries text.
pub open spec fn text_result(r: Result<String, Error>) -> Result<Seq<char>, Error> {
    match r {
        Ok(s) => Ok(s@),
        Err(e) => Err(e),
    }
}

/// Encrypts `plaintext` under the key stored as `key_id`, with the given
/// nonce; a blob that comes out decrypts back to the plaintext.
pub fn encrypt_with_nonce(ring: &KeyRing, key_id: &String, nonce: &[u8], plaintext: &[u8]) -> (r:
    Result<String, Error>)
    requires
        ring.wf(),
        nonce@.len() == NONCE_LENGTH,
    ensures
        encrypt_outcome(ring@, key_id@, nonce@, plaintext@, text_result(r)),
        r matches Ok(b) ==> decrypt_result(ring@, b@) == Ok::<Seq<u8>, Error>(plaintext@),
{
    let key = ring.key(key_id)?;
    let id: &[u8] = key_id.as_str().as_bytes();
    if id.len() > MAX_KEY_ID_BYTES {
        return Err(Error::KeyIdTooLong);
    }
    let compressed = compress(plaintext).unwrap();
    let sealed = match seal(key.as_slice(), nonce, compressed.as_slice()) {
        Some(s) => s,
        None => return Err(Error::Encryption),
    };
    let frame = build_frame(id, nonce, sealed.as_slice());
    let blob = encode(frame.as_slice());
    proof {
        lemma_parse_frame(id@, nonce@, sealed@);
        encode_utf8_valid_utf8(key_id@);
        encode_utf8_decode_utf8(key_id@);
    }
    Ok(blob)
}

/// Encrypts `plaintext` under the key stored as `key_id`, with a fresh
/// random nonce; a blob that comes out decrypts back to the plaintext.
pub fn encrypt(ring: &KeyRing, key_id: &String, plaintext: &[u8]) -> (r: Result<String, Error>)
    requires
        ring.wf(),
    ensures
        exists|nonce: Seq<u8>|
            nonce.len() == NONCE_LENGTH && encrypt_outcome(
                ring@,
                key_id@,
                nonce,
                plaintext@,
                text_result(r),
            ),
        r matches Ok(b) ==> decrypt_result(ring@, b@) == Ok::<Seq<u8>, Error>(plaintext@),
{
    let nonce = random_bytes(NONCE_LENGTH);
    encrypt_with_nonce(ring, key_id, nonce.as_slice(), plaintext)
}

/// The clean filter: seals file content under the key stored first in the
/// ring, failing with `NotFound` on an empty ring.
pub fn clean(ring: &KeyRing, input: &[u8]) -> (r: Result<String, Error>)
    requires
        ring.wf(),
    ensures
        ring@.entries.len() == 0 ==> r == Err::<String, Error>(Error::NotFound),
        ring@.entries.len() > 0 ==> exists|nonce: Seq<u8>|
            nonce.len() == NONCE_LENGTH && encrypt_outcome(
                ring@,
                ring.stored()[0].key_id,
                nonce,
                input@,
                text_result(r),
            ),
        r matches Ok(b) ==> decrypt_result(ring@, b@) == Ok::<Seq<u8>, Error>(input@),
{
    match ring.first_key_id() {
        Some(id) => encrypt(ring, &id, input),
        None => Err(Error::NotFound),
    }
}

/// Decrypts an armored blob with the key it names in `ring`; nothing but
/// the authenticated, decompressed plaintext is ever returned.
pub fn decrypt(ring: &KeyRing, blob: &str) -> (r: Result<Vec<u8>, Error>)
    requires
        ring.wf(),
    ensures
        bytes_result(r) == decrypt_result(ring@, blob@),
{
    let frame = match decode(blob) {
        Some(f) => f,
        None => return Err(Error::Decode),
    };
    let (id, nonce, sealed) = match split_frame(frame.as_slice()) {
        Some(parts) => parts,
        None => return Err(Error::MalformedBlob),
    };
    let key = ring.key_by_id_bytes(id.as_slice())?;
    let compressed = match open(key.as_slice(), nonce.as_slice(), sealed.as_slice()) {
        Some(z) => z,
        None => return Err(Error::Authentication),
    };
    match decompress(compressed.as_slice()) {
        Some(p) => Ok(p),
        None => Err(Error::CorruptData),
    }
}

/// A blob that names a key id which the ring does not hold fails to
/// decrypt with `NotFound`, whatever its nonce and payload.
pub proof fn lemma_missing_key_not_found(
    ring: KeyRingView,
    blob: Seq<char>,
    key_id: Seq<char>,
    nonce: Seq<u8>,
    sealed: Seq<u8>,
)
    requires
        b64_decode(blob) == Some(frame_of(encode_utf8(key_id), nonce, sealed)),
        encode_utf8(key_id).len() <= MAX_KEY_ID_BYTES,
        nonce.len() == NONCE_LENGTH,
        !ring.entries.contains_key(key_id),
    ensures
        decrypt_result(ring, blob) == Err::<Seq<u8>, Error>(Error::NotFound),
{
    lemma_parse_frame(encode_utf8(key_id), nonce, sealed);
    encode_utf8_valid_utf8(key_id);
    encode_utf8_decode_utf8(key_id);
}

} // verus!
