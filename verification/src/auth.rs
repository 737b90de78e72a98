//! Sealing of the API token: AES-256-GCM under a key derived from the
//! machine id, stored as two base64 texts.

use vstd::prelude::*;
use vstd::utf8::{decode_utf8, encode_utf8, valid_utf8};

use crate::text::append_str;

verus! {

/// The stored form of a sealed token: nonce and ciphertext in base64.
#[derive(Debug)]
pub struct EncryptedToken {
    pub nonce: String,
    pub ciphertext: String,
}

/// Why a token could not be sealed or opened.
#[derive(Debug, Clone, Copy, PartialEq, Eq, Structural)]
pub enum TokenError {
    /// The token is longer than AES-GCM can encrypt.
    Encrypt,
    /// A stored text is not valid base64.
    Encoding,
    /// The stored nonce does not have the 12 bytes of an AES-GCM nonce.
    NonceLength,
    /// The ciphertext does not open under this machine's key.
    Decrypt,
    /// The opened bytes are not UTF-8.
    Utf8,
}

/// blake3's `hash`: the 32-byte BLAKE3 digest of the data.
pub uninterp spec fn blake3_hash(data: Seq<u8>) -> Seq<u8>;

/// The ciphertext (with its tag) that aes-gcm's `Aes256Gcm` produces for the
/// key, the nonce and the plaintext, without associated data.
pub uninterp spec fn aes256gcm_encrypt(key: Seq<u8>, nonce: Seq<u8>, plaintext: Seq<u8>) -> Seq<u8>;

/// The plaintext that aes-gcm's `Aes256Gcm` recovers from a ciphertext, or
/// `None` when the tag does not authenticate it.
pub uninterp spec fn aes256gcm_decrypt(key: Seq<u8>, nonce: Seq<u8>, ciphertext: Seq<u8>) -> Option<Seq<u8>>;

/// base64's standard engine: the padded base64 text of the bytes.
pub uninterp spec fn base64_encode(data: Seq<u8>) -> Seq<char>;

/// base64's standard engine: the bytes of a base64 text, or `None` when the
/// text is not valid padded base64.
pub uninterp spec fn base64_decode(text: Seq<char>) -> Option<Seq<u8>>;

/// The bytes of an optional byte vector.
pub open spec fn opt_bytes(o: Option<Vec<u8>>) -> Option<Seq<u8>> {
    match o {
        Some(v) => Some(v@),
        None => None,
    }
}

/// blake3's `hash(data)`, read through `Hash::as_bytes`.
#[verifier::external_body]
fn blake3_digest(data: &[u8]) -> (h: [u8; 32])
    ensures
        h@ == blake3_hash(data@),
{
    *blake3::hash(data).as_bytes()
}

/// aes-gcm's `Aead::encrypt` with an `Aes256Gcm` made from the key (by
/// `KeyInit::new`) and no associated data. The source refuses only a
/// plaintext over 2^36 bytes; what it returns opens again with
/// `Aead::decrypt` under the same key and nonce, as any AEAD does.
#[verifier::external_body]
fn aes_encrypt(key: &[u8; 32], nonce: &[u8; 12], plaintext: &[u8]) -> (c: Option<Vec<u8>>)
    ensures
        c is None <==> plaintext@.len() > 0x10_0000_0000,
        c matches Some(c) ==> c@ == aes256gcm_encrypt(key@, nonce@, plaintext@)
            && aes256gcm_decrypt(key@, nonce@, c@) == Some(plaintext@),
{
    let cipher = <aes_gcm::Aes256Gcm as aes_gcm::aead::KeyInit>::new(
        aes_gcm::Key::<aes_gcm::Aes256Gcm>::from_slice(key),
    );
    aes_gcm::aead::Aead::encrypt(&cipher, aes_gcm::Nonce::from_slice(nonce), plaintext).ok()
}

/// aes-gcm's `Aead::decrypt` with an `Aes256Gcm` made from the key and no
/// associated data; `Nonce::from_slice` panics unless the nonce has 12 bytes.
#[verifier::external_body]
fn aes_decrypt(key: &[u8; 32], nonce: &[u8], ciphertext: &[u8]) -> (p: Option<Vec<u8>>)
    requires
        nonce@.len() == 12,
    ensures
        opt_bytes(p) == aes256gcm_decrypt(key@, nonce@, ciphertext@),
{
    let cipher = <aes_gcm::Aes256Gcm as aes_gcm::aead::KeyInit>::new(
        aes_gcm::Key::<aes_gcm::Aes256Gcm>::from_slice(key),
    );
    aes_gcm::aead::Aead::decrypt(&cipher, aes_gcm::Nonce::from_slice(nonce), ciphertext).ok()
}

/// aes-gcm's `AeadCore::generate_nonce` with the OS random source. The nonce
/// is random; nothing is stated of it.
#[verifier::external_body]
fn random_nonce() -> (n: [u8; 12]) {
    let n = <aes_gcm::Aes256Gcm as aes_gcm::aead::AeadCore>::generate_nonce(&mut aes_gcm::aead::OsRng);
    n.into()
}

/// base64's `STANDARD.encode`; the standard engine decodes its own output back.
#[verifier::external_body]
fn b64_encode(data: &[u8]) -> (s: String)
    ensures
        s@ == base64_encode(data@),
        base64_decode(s@) == Some(data@),
{
    base64::Engine::encode(&base64::engine::general_purpose::STANDARD, data)
}

/// base64's `STANDARD.decode` of the text's bytes.
#[verifier::external_body]
fn b64_decode(text: &str) -> (d: Option<Vec<u8>>)
    ensures
        opt_bytes(d) == base64_decode(text@),
{
    base64::Engine::decode(&base64::engine::general_purpose::STANDARD, text).ok()
}

/// std's `String::from_utf8`: the text that the bytes encode in UTF-8.
#[verifier::external_body]
fn string_from_utf8(bytes: Vec<u8>) -> (s: Option<String>)
    ensures
        s is Some <==> valid_utf8(bytes@),
        s matches Some(s) ==> s@ == decode_utf8(bytes@),
{
    String::from_utf8(bytes).ok()
}

/// The text that the key is derived from: the machine id, or
/// `rdtool-fallback` when it is unknown, followed by `rdtool-v1`.
pub open spec fn key_seed(machine_id: Option<Seq<char>>) -> Seq<char> {
    match machine_id {
        Some(id) => id + "rdtool-v1"@,
        None => "rdtool-fallback"@ + "rdtool-v1"@,
    }
}

/// The key of a machine: the BLAKE3 digest of the UTF-8 bytes of its seed.
pub open spec fn machine_key(machine_id: Option<Seq<char>>) -> Seq<u8> {
    blake3_hash(encode_utf8(key_seed(machine_id)))
}

/// The view of an optional machine id.
pub open spec fn opt_str(o: Option<&str>) -> Option<Seq<char>> {
    match o {
        Some(s) => Some(s@),
        None => None,
    }
}

/// The seed text of a machine.
pub fn machine_seed(machine_id: Option<&str>) -> (s: String)
    ensures
        s@ == key_seed(opt_str(machine_id)),
{
    let mut s = String::new();
    match machine_id {
        Some(id) => append_str(&mut s, id),
        None => append_str(&mut s, "rdtool-fallback"),
    }
    append_str(&mut s, "rdtool-v1");
    assert(s@ =~= key_seed(opt_str(machine_id)));
    s
}

/// The token key of a machine.
pub fn derive_key(machine_id: Option<&str>) -> (k: [u8; 32])
    ensures
        k@ == machine_key(opt_str(machine_id)),
{
    let seed = machine_seed(machine_id);
    blake3_digest(seed.as_str().as_bytes())
}

/// What opening a stored token under a key gives: both texts decoded from
/// base64, the nonce checked for 12 bytes, the ciphertext decrypted, and the
/// plaintext read as UTF-8.
pub open spec fn opened(nonce: Seq<char>, ciphertext: Seq<char>, key: Seq<u8>) -> Result<Seq<char>, TokenError> {
    match (base64_decode(nonce), base64_decode(ciphertext)) {
        (Some(n), Some(c)) => if n.len() != 12 {
            Err(TokenError::NonceLength)
        } else {
            match aes256gcm_decrypt(key, n, c) {
                Some(p) => if valid_utf8(p) {
                    Ok(decode_utf8(p))
                } else {
                    Err(TokenError::Utf8)
                },
                None => Err(TokenError::Decrypt),
            }
        },
        _ => Err(TokenError::Encoding),
    }
}

/// The view of an opening's outcome.
pub open spec fn opened_view(r: Result<String, TokenError>) -> Result<Seq<char>, TokenError> {
    match r {
        Ok(s) => Ok(s@),
        Err(e) => Err(e),
    }
}

/// Decrypts a ciphertext under the key with a 12-byte nonce and reads the
/// plaintext as UTF-8.
pub fn decrypt_token(key: &[u8; 32], nonce: &[u8], ciphertext: &[u8]) -> (r: Result<String, TokenError>)
    requires
        nonce@.len() == 12,
    ensures
        opened_view(r) == match aes256gcm_decrypt(key@, nonce@, ciphertext@) {
            Some(p) => if valid_utf8(p) {
                Ok(decode_utf8(p))
            } else {
                Err(TokenError::Utf8)
            },
            None => Err(TokenError::Decrypt),
        },
{
    match aes_decrypt(key, nonce, ciphertext) {
        None => Err(TokenError::Decrypt),
        Some(p) => match string_from_utf8(p) {
            Some(s) => Ok(s),
            None => Err(TokenError::Utf8),
        },
    }
}

/// Opens a stored token under the key. A stored nonce that does not decode to
/// 12 bytes is answered with `NonceLength`.
pub fn open_token_with(stored: &EncryptedToken, key: &[u8; 32]) -> (r: Result<String, TokenError>)
    ensures
        opened_view(r) == opened(stored.nonce@, stored.ciphertext@, key@),
{
    let n = match b64_decode(stored.nonce.as_str()) {
        Some(n) => n,
        None => return Err(TokenError::Encoding),
    };
    let c = match b64_decode(stored.ciphertext.as_str()) {
        Some(c) => c,
        None => return Err(TokenError::Encoding),
    };
    if n.len() != 12 {
        return Err(TokenError::NonceLength);
    }
    decrypt_token(key, n.as_slice(), c.as_slice())
}

/// Opens a stored token with the key of the machine.
pub fn open_token(stored: &EncryptedToken, machine_id: Option<&str>) -> (r: Result<String, TokenError>)
    ensures
        opened_view(r) == opened(stored.nonce@, stored.ciphertext@, machine_key(opt_str(machine_id))),
{
    let key = derive_key(machine_id);
    open_token_with(stored, &key)
}

/// Seals a token under the key with the given nonce. The sealed token opens
/// again under the same key to the token itself.
pub fn seal_token_with(token: &str, key: &[u8; 32], nonce: &[u8; 12]) -> (r: Result<EncryptedToken, TokenError>)
    ensures
        match r {
            Ok(st) => {
                &&& encode_utf8(token@).len() <= 0x10_0000_0000
                &&& st.nonce@ == base64_encode(nonce@)
                &&& st.ciphertext@ == base64_encode(aes256gcm_encrypt(key@, nonce@, encode_utf8(token@)))
                &&& opened(st.nonce@, st.ciphertext@, key@) == Ok::<Seq<char>, TokenError>(token@)
            },
            Err(e) => e == TokenError::Encrypt && encode_utf8(token@).len() > 0x10_0000_0000,
        },
{
    let bytes = token.as_bytes();
    let c = match aes_encrypt(key, nonce, bytes) {
        Some(c) => c,
        None => return Err(TokenError::Encrypt),
    };
    let nonce_text = b64_encode(nonce);
    let ct_text = b64_encode(c.as_slice());
    proof {
        vstd::utf8::encode_utf8_valid_utf8(token@);
        vstd::utf8::encode_utf8_decode_utf8(token@);
        assert(nonce@.len() == 12);
    }
    Ok(EncryptedToken { nonce: nonce_text, ciphertext: ct_text })
}

/// Seals a token with the key of the machine under a fresh random nonce. The
/// sealed token opens again with the key of the same machine to the token
/// itself.
pub fn seal_token(token: &str, machine_id: Option<&str>) -> (r: Result<EncryptedToken, TokenError>)
    ensures
        match r {
            Ok(st) => encode_utf8(token@).len() <= 0x10_0000_0000 && opened(st.nonce@, st.ciphertext@,
                machine_key(opt_str(machine_id))) == Ok::<Seq<char>, TokenError>(token@),
            Err(e) => e == TokenError::Encrypt && encode_utf8(token@).len() > 0x10_0000_0000,
        },
{
    let key = derive_key(machine_id);
    let nonce = random_nonce();
    seal_token_with(token, &key, &nonce)
}

} // verus!
