//! Vault encryption: AES-256-GCM with a random 12-byte nonce prepended to the
//! ciphertext, under a key expanded from the passphrase.
use vstd::prelude::*;

use aes_gcm::aead::{Aead, KeyInit};
use vstd::string::{StringExecFns, StringSliceAdditionalSpecFns};

use crate::system::fill_random;

verus! {

broadcast use vstd::string::group_string_axioms;

/// Length of the nonce that starts every sealed vault.
pub const NONCE_LEN: usize = 12;

/// Length of the AES-256 key.
pub const KEY_LEN: usize = 32;

/// Length of the authentication tag that AES-GCM appends.
pub const TAG_LEN: usize = 16;

/// The largest plaintext (in bytes) that AES-GCM accepts: 2^36.
pub const P_MAX: u64 = 68719476736;

// ---------------------------------------------------------------------------
// Outside items
// ---------------------------------------------------------------------------

#[verifier::external_type_specification]
#[verifier::external_body]
pub struct ExAeadError(aes_gcm::Error);

/// What AES-256-GCM encryption of `plaintext` under `key` and `nonce`, with no
/// associated data, produces: the ciphertext followed by the 16-byte tag.
pub uninterp spec fn aes_gcm_seal(key: Seq<u8>, nonce: Seq<u8>, plaintext: Seq<u8>) -> Seq<u8>;

/// What AES-256-GCM decryption of `ciphertext` (tag last) under `key` and
/// `nonce`, with no associated data, produces: the plaintext, or `None` when
/// the tag does not authenticate.
pub uninterp spec fn aes_gcm_open(key: Seq<u8>, nonce: Seq<u8>, ciphertext: Seq<u8>) -> Option<
    Seq<u8>,
>;

/// `Aes256Gcm::new` on the key, then `Aead::encrypt` (aes-gcm 0.10). The source
/// refuses a plaintext longer than 2^36 bytes and otherwise returns the
/// ciphertext with the 16-byte tag appended; opening it with the same key and
/// nonce gives the plaintext back (the keystream is applied twice and the tag
/// recomputed over the same data).
#[verifier::external_body]
fn aes256gcm_encrypt(key: &[u8; 32], nonce: &[u8; 12], plaintext: &[u8]) -> (res: Result<
    Vec<u8>,
    aes_gcm::Error,
>)
    ensures
        res is Err <==> plaintext@.len() > P_MAX,
        res matches Ok(c) ==> c@ == aes_gcm_seal(key@, nonce@, plaintext@),
        res matches Ok(c) ==> c@.len() == plaintext@.len() + TAG_LEN,
        res matches Ok(c) ==> aes_gcm_open(key@, nonce@, c@) == Some(plaintext@),
{
    let cipher = aes_gcm::Aes256Gcm::new(aes_gcm::Key::<aes_gcm::Aes256Gcm>::from_slice(key));
    cipher.encrypt(aes_gcm::Nonce::from_slice(nonce), plaintext)
}

/// `Aes256Gcm::new` on the key, then `Aead::decrypt` (aes-gcm 0.10). The
/// result is named; the source refuses any input shorter than the tag.
#[verifier::external_body]
fn aes256gcm_decrypt(key: &[u8; 32], nonce: &[u8; 12], ciphertext: &[u8]) -> (res: Result<
    Vec<u8>,
    aes_gcm::Error,
>)
    ensures
        res is Ok <==> aes_gcm_open(key@, nonce@, ciphertext@) is Some,
        res matches Ok(p) ==> Some(p@) == aes_gcm_open(key@, nonce@, ciphertext@),
        ciphertext@.len() < TAG_LEN ==> res is Err,
{
    let cipher = aes_gcm::Aes256Gcm::new(aes_gcm::Key::<aes_gcm::Aes256Gcm>::from_slice(key));
    cipher.decrypt(aes_gcm::Nonce::from_slice(nonce), ciphertext)
}

// ---------------------------------------------------------------------------
// Key expansion
// ---------------------------------------------------------------------------

/// The key expanded from the passphrase bytes `p`: byte `i` is
/// `p[i mod |p|] + i`, wrapping at 256.
pub open spec fn spec_derive_key(p: Seq<u8>) -> Seq<u8> {
    Seq::new(KEY_LEN as nat, |i: int| ((p[i % (p.len() as int)] as int + i) % 256) as u8)
}

/// The expanded key is the passphrase bytes repeated in order, each raised by
/// its position (mod 256): the first bytes are the passphrase's own bytes plus
/// their positions, and the byte one passphrase-length further on is the
/// earlier byte plus that length.
pub proof fn lemma_derive_key_laws(p: Seq<u8>)
    requires
        p.len() > 0,
    ensures
        spec_derive_key(p).len() == KEY_LEN,
        forall|k: int|
            0 <= k < p.len() && k < KEY_LEN ==> #[trigger] spec_derive_key(p)[k] as int == (p[k]
                as int + k) % 256,
        forall|k: int|
            0 <= k && k + p.len() < KEY_LEN ==> #[trigger] spec_derive_key(p)[k + p.len()] as int
                == (spec_derive_key(p)[k] as int + p.len()) % 256,
{
    let n = p.len() as int;
    let key = spec_derive_key(p);
    assert forall|k: int| 0 <= k < p.len() && k < KEY_LEN implies #[trigger] key[k] as int == (
    p[k] as int + k) % 256 by {
        vstd::arithmetic::div_mod::lemma_small_mod(k as nat, n as nat);
    }
    assert forall|k: int| 0 <= k && k + p.len() < KEY_LEN implies #[trigger] key[k + p.len()] as int
        == (key[k] as int + p.len()) % 256 by {
        vstd::arithmetic::div_mod::lemma_mod_add_multiples_vanish(k, n);
        assert((k + n) % n == k % n);
        let x = p[k % n] as int + k;
        vstd::arithmetic::div_mod::lemma_add_mod_noop(x, n, 256);
        vstd::arithmetic::div_mod::lemma_small_mod(n as nat, 256);
        assert(x + n == p[(k + n) % n] as int + (k + n));
    }
}

/// Expands the passphrase into a 32-byte key by repeating its bytes and adding
/// the position to each (wrapping).
pub fn derive_key(passphrase: &str) -> (key: [u8; 32])
    requires
        passphrase@.len() > 0,
    ensures
        key@ == spec_derive_key(passphrase.spec_bytes()),
{
    let bytes = passphrase.as_bytes();
    proof {
        vstd::utf8::encode_utf8_valid_utf8(passphrase@);
        lemma_encode_nonempty(passphrase@);
    }
    let n = bytes.len();
    let mut key = [0u8; 32];
    let mut i: usize = 0;
    while i < KEY_LEN
        invariant
            n == bytes@.len(),
            n > 0,
            bytes@ == passphrase.spec_bytes(),
            i <= KEY_LEN,
            key@.len() == KEY_LEN,
            forall|k: int| 0 <= k < i ==> key@[k] == #[trigger] spec_derive_key(bytes@)[k],
        decreases KEY_LEN - i,
    {
        let v = bytes[i % n].wrapping_add(i as u8);
        key[i] = v;
        i += 1;
    }
    assert(key@ =~= spec_derive_key(bytes@));
    key
}

proof fn lemma_encode_nonempty(s: Seq<char>)
    requires
        s.len() > 0,
    ensures
        vstd::utf8::encode_utf8(s).len() > 0,
{
    vstd::utf8::encode_utf8_decode_utf8(s);
    if vstd::utf8::encode_utf8(s).len() == 0 {
        assert(vstd::utf8::encode_utf8(s) =~= Seq::<u8>::empty());
        assert(vstd::utf8::decode_utf8(Seq::<u8>::empty()) =~= Seq::<char>::empty());
    }
}

// ---------------------------------------------------------------------------
// Sealing and opening
// ---------------------------------------------------------------------------

/// The message of the error for data too short to hold a nonce.
pub open spec fn corrupted_message() -> Seq<char> {
    "Corrupted vault data"@
}

/// The message of the error for data that does not authenticate.
pub open spec fn decryption_failed_message() -> Seq<char> {
    "Decryption failed — wrong passphrase or corrupted data"@
}

/// The message of the error for a plaintext that AES-GCM refuses.
pub open spec fn aead_error_message() -> Seq<char> {
    "aead::Error"@
}

/// What opening `data` (nonce, then ciphertext and tag) under `key` gives.
pub open spec fn spec_decrypt_with_key(key: Seq<u8>, data: Seq<u8>) -> Result<Seq<u8>, Seq<char>> {
    if data.len() < NONCE_LEN {
        Err(corrupted_message())
    } else {
        match aes_gcm_open(
            key,
            data.subrange(0, NONCE_LEN as int),
            data.subrange(NONCE_LEN as int, data.len() as int),
        ) {
            Some(p) => Ok(p),
            None => Err(decryption_failed_message()),
        }
    }
}

/// What opening `data` under the key expanded from the passphrase gives.
pub open spec fn spec_decrypt(passphrase: Seq<u8>, data: Seq<u8>) -> Result<Seq<u8>, Seq<char>> {
    if data.len() < NONCE_LEN {
        Err(corrupted_message())
    } else {
        spec_decrypt_with_key(spec_derive_key(passphrase), data)
    }
}

/// The view of a result that carries bytes or a message.
pub open spec fn result_view(r: Result<Vec<u8>, String>) -> Result<Seq<u8>, Seq<char>> {
    match r {
        Ok(v) => Ok(v@),
        Err(e) => Err(e@),
    }
}

/// Seals `plaintext` under `key` with a fresh random nonce: the output is the
/// nonce followed by the AES-GCM ciphertext and tag. Opening the output with
/// the same key gives the plaintext back.
pub fn encrypt_with_key(key: &[u8; 32], plaintext: &[u8]) -> (res: Result<Vec<u8>, String>)
    ensures
        plaintext@.len() > P_MAX ==> result_view(res) == Err::<Seq<u8>, Seq<char>>(
            aead_error_message(),
        ),
        plaintext@.len() <= P_MAX ==> res is Ok,
        res matches Ok(data) ==> data@.len() == NONCE_LEN + plaintext@.len() + TAG_LEN,
        res matches Ok(data) ==> data@.subrange(NONCE_LEN as int, data@.len() as int)
            == aes_gcm_seal(key@, data@.subrange(0, NONCE_LEN as int), plaintext@),
        res matches Ok(data) ==> spec_decrypt_with_key(key@, data@) == Ok::<Seq<u8>, Seq<char>>(
            plaintext@,
        ),
{
    let mut nonce = [0u8; 12];
    fill_random(&mut nonce);
    match aes256gcm_encrypt(key, &nonce, plaintext) {
        Ok(ciphertext) => {
            let mut output: Vec<u8> = Vec::new();
            let mut i: usize = 0;
            while i < NONCE_LEN
                invariant
                    i <= NONCE_LEN,
                    nonce@.len() == NONCE_LEN,
                    output@ == nonce@.subrange(0, i as int),
                decreases NONCE_LEN - i,
            {
                output.push(nonce[i]);
                i += 1;
                assert(output@ =~= nonce@.subrange(0, i as int));
            }
            let mut tail = ciphertext;
            let ghost c = tail@;
            output.append(&mut tail);
            proof {
                assert(nonce@.subrange(0, NONCE_LEN as int) =~= nonce@);
                assert(output@.subrange(0, NONCE_LEN as int) =~= nonce@);
                assert(output@.subrange(NONCE_LEN as int, output@.len() as int) =~= c);
            }
            Ok(output)
        },
        Err(_) => Err(String::from_str("aead::Error")),
    }
}

/// Opens data sealed by [`encrypt_with_key`] under `key`.
pub fn decrypt_with_key(key: &[u8; 32], data: &[u8]) -> (res: Result<Vec<u8>, String>)
    ensures
        result_view(res) == spec_decrypt_with_key(key@, data@),
{
    if data.len() < NONCE_LEN {
        return Err(String::from_str("Corrupted vault data"));
    }
    let mut nonce = [0u8; 12];
    let mut i: usize = 0;
    while i < NONCE_LEN
        invariant
            i <= NONCE_LEN,
            NONCE_LEN <= data@.len(),
            nonce@.len() == NONCE_LEN,
            forall|k: int| 0 <= k < i ==> nonce@[k] == data@[k],
        decreases NONCE_LEN - i,
    {
        nonce[i] = data[i];
        i += 1;
    }
    assert(nonce@ =~= data@.subrange(0, NONCE_LEN as int));
    let body = vstd::slice::slice_subrange(data, NONCE_LEN, data.len());
    match aes256gcm_decrypt(key, &nonce, body) {
        Ok(p) => Ok(p),
        Err(_) => Err(String::from_str("Decryption failed — wrong passphrase or corrupted data")),
    }
}

/// Encrypts `plaintext` under the key expanded from `passphrase`; see
/// [`encrypt_with_key`]. Decrypting the output with the same passphrase gives
/// the plaintext back.
pub fn encrypt(passphrase: &str, plaintext: &[u8]) -> (res: Result<Vec<u8>, String>)
    requires
        passphrase@.len() > 0,
    ensures
        plaintext@.len() > P_MAX ==> result_view(res) == Err::<Seq<u8>, Seq<char>>(
            aead_error_message(),
        ),
        plaintext@.len() <= P_MAX ==> res is Ok,
        res matches Ok(data) ==> data@.len() == NONCE_LEN + plaintext@.len() + TAG_LEN,
        res matches Ok(data) ==> data@.subrange(NONCE_LEN as int, data@.len() as int)
            == aes_gcm_seal(
            spec_derive_key(passphrase.spec_bytes()),
            data@.subrange(0, NONCE_LEN as int),
            plaintext@,
        ),
        res matches Ok(data) ==> spec_decrypt(passphrase.spec_bytes(), data@) == Ok::<
            Seq<u8>,
            Seq<char>,
        >(plaintext@),
{
    let key = derive_key(passphrase);
    encrypt_with_key(&key, plaintext)
}

/// Decrypts data produced by [`encrypt`] with the same passphrase; data too
/// short for a nonce is reported as corrupted before any key is derived.
pub fn decrypt(passphrase: &str, data: &[u8]) -> (res: Result<Vec<u8>, String>)
    requires
        data@.len() < NONCE_LEN || passphrase@.len() > 0,
    ensures
        result_view(res) == spec_decrypt(passphrase.spec_bytes(), data@),
{
    if data.len() < NONCE_LEN {
        return Err(String::from_str("Corrupted vault data"));
    }
    let key = derive_key(passphrase);
    decrypt_with_key(&key, data)
}

} // verus!
