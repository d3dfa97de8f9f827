//! Tokens are kept at rest encrypted with AES-256 in counter mode and
//! base64-encoded. The nonce is the first 16 bytes of the token's generated
//! name; the key is the configured key text, cut or zero-padded to 32 bytes.
use vstd::prelude::*;
use vstd::utf8::{decode_utf8, encode_utf8, valid_utf8};
use aes::Aes256;
use base64::engine::general_purpose::STANDARD;
use base64::Engine;
use cipher::{KeyIvInit, StreamCipher};
use ctr::Ctr128BE;

verus! {

broadcast use vstd::utf8::encode_utf8_valid_utf8, vstd::utf8::encode_utf8_decode_utf8;

/// What AES-256 in big-endian 128-bit counter mode makes of `data` under
/// `key` and `nonce`.
pub uninterp spec fn aes256_ctr_of(key: Seq<u8>, nonce: Seq<u8>, data: Seq<u8>) -> Seq<u8>;

/// The standard, padded base64 text of `data`.
pub uninterp spec fn base64_of(data: Seq<u8>) -> Seq<char>;

/// What standard base64 decoding makes of `text`: the bytes, or nothing when
/// the text is not valid padded base64.
pub uninterp spec fn base64_decoded(text: Seq<char>) -> Option<Seq<u8>>;

/// Relies on `ctr::Ctr128BE::<aes::Aes256>`: `new_from_slices` accepts a
/// 32-byte key with a 16-byte nonce, and `apply_keystream` XORs the keystream
/// into the buffer, which keeps its length and undoes itself when applied again.
#[verifier::external_body]
fn apply_aes256_ctr(key: &[u8; 32], nonce: &[u8], data: &[u8]) -> (r: Vec<u8>)
    requires
        nonce@.len() == 16,
    ensures
        r@ == aes256_ctr_of(key@, nonce@, data@),
        r@.len() == data@.len(),
        aes256_ctr_of(key@, nonce@, r@) == data@,
{
    let mut cipher = Ctr128BE::<Aes256>::new_from_slices(key, nonce).unwrap();
    let mut out = data.to_vec();
    cipher.apply_keystream(&mut out);
    out
}

/// Relies on `base64`'s `STANDARD.encode`: padded standard-alphabet text,
/// which `STANDARD.decode` maps back to the input.
#[verifier::external_body]
fn encode_base64(data: &[u8]) -> (r: String)
    ensures
        r@ == base64_of(data@),
        base64_decoded(r@) == Some(data@),
{
    STANDARD.encode(data)
}

/// Relies on `base64`'s `STANDARD.decode`: the bytes, or an error for text
/// that is not padded standard base64.
#[verifier::external_body]
fn decode_base64(text: &str) -> (r: Option<Vec<u8>>)
    ensures
        r is None <==> base64_decoded(text@) is None,
        r matches Some(v) ==> base64_decoded(text@) == Some(v@),
{
    STANDARD.decode(text).ok()
}

/// Relies on `String::from_utf8`: `Ok` exactly for valid UTF-8, holding the
/// decoded text.
#[verifier::external_body]
fn utf8_string(bytes: Vec<u8>) -> (r: Option<String>)
    ensures
        r is Some <==> valid_utf8(bytes@),
        r matches Some(s) ==> s@ == decode_utf8(bytes@),
{
    String::from_utf8(bytes).ok()
}

/// The 32 key bytes: the first 32 bytes of `key`, padded with zeros.
pub open spec fn fitted_key(key: Seq<u8>) -> Seq<u8> {
    Seq::new(32, |i: int| if i < key.len() { key[i] } else { 0u8 })
}

/// The nonce of a token: the first 16 bytes of its name.
pub open spec fn token_nonce(token_name: Seq<char>) -> Seq<u8> {
    encode_utf8(token_name).take(16)
}

/// A token name long enough to give a nonce.
pub open spec fn name_gives_nonce(token_name: Seq<char>) -> bool {
    encode_utf8(token_name).len() >= 16
}

/// The stored form of the secret `plain`.
pub open spec fn sealed_token(plain: Seq<char>, token_name: Seq<char>, key: Seq<char>) -> Seq<char> {
    base64_of(aes256_ctr_of(fitted_key(encode_utf8(key)), token_nonce(token_name), encode_utf8(plain)))
}

/// The secret behind a stored token, or nothing when the text is not base64
/// or does not decrypt to UTF-8.
pub open spec fn opened_token(sealed: Seq<char>, nonce: Seq<u8>, key: Seq<char>) -> Option<Seq<char>> {
    match base64_decoded(sealed) {
        None => None,
        Some(b) => {
            let p = aes256_ctr_of(fitted_key(encode_utf8(key)), nonce, b);
            if valid_utf8(p) {
                Some(decode_utf8(p))
            } else {
                None
            }
        },
    }
}

/// Fits the key text to 32 bytes: longer keys are cut, shorter ones padded
/// with zeros.
pub fn adjust_key(key: &str) -> (r: [u8; 32])
    ensures
        r@ == fitted_key(encode_utf8(key@)),
{
    let bytes = key.as_bytes();
    let mut array = [0u8; 32];
    let n: usize = if bytes.len() < 32 { bytes.len() } else { 32 };
    let mut i: usize = 0;
    while i < n
        invariant
            0 <= i <= n <= 32,
            n <= bytes@.len(),
            bytes@ == encode_utf8(key@),
            array@.len() == 32,
            forall|j: int| 0 <= j < i ==> array@[j] == bytes@[j],
            forall|j: int| i <= j < 32 ==> array@[j] == 0u8,
        decreases n - i,
    {
        array[i] = bytes[i];
        i = i + 1;
    }
    assert(array@ =~= fitted_key(encode_utf8(key@)));
    array
}

/// Applies the AES-256-CTR keystream for `key` and `nonce` to `data`; the same
/// call encrypts and decrypts.
pub fn encrypt_data(data: &[u8], nonce: &[u8], key: &str) -> (r: Vec<u8>)
    requires
        nonce@.len() == 16,
    ensures
        r@ == aes256_ctr_of(fitted_key(encode_utf8(key@)), nonce@, data@),
        r@.len() == data@.len(),
        aes256_ctr_of(fitted_key(encode_utf8(key@)), nonce@, r@) == data@,
{
    let k = adjust_key(key);
    apply_aes256_ctr(&k, nonce, data)
}

/// The secret behind a stored token: base64-decodes, decrypts, and reads the
/// result as UTF-8. `None` when either step fails.
pub fn decrypt_data(data: &str, nonce: &[u8], key: &str) -> (r: Option<String>)
    requires
        nonce@.len() == 16,
    ensures
        r is None <==> opened_token(data@, nonce@, key@) is None,
        r matches Some(s) ==> opened_token(data@, nonce@, key@) == Some(s@),
{
    match decode_base64(data) {
        None => None,
        Some(raw) => {
            let plain = encrypt_data(raw.as_slice(), nonce, key);
            utf8_string(plain)
        },
    }
}

/// The nonce of a token: the first 16 bytes of its name.
pub fn nonce_of(token_name: &str) -> (r: Vec<u8>)
    requires
        name_gives_nonce(token_name@),
    ensures
        r@ == token_nonce(token_name@),
        r@.len() == 16,
{
    let bytes = token_name.as_bytes();
    let mut out: Vec<u8> = Vec::new();
    let mut i: usize = 0;
    while i < 16
        invariant
            0 <= i <= 16,
            bytes@ == encode_utf8(token_name@),
            bytes@.len() >= 16,
            out@ == bytes@.take(i as int),
        decreases 16 - i,
    {
        out.push(bytes[i]);
        assert(out@ =~= bytes@.take(i + 1));
        i = i + 1;
    }
    out
}

/// Encrypts and encodes the secret `plain` for storage under the token's name.
/// Opening the result with the same name and key gives `plain` back.
pub fn seal_token(plain: &str, token_name: &str, key: &str) -> (r: String)
    requires
        name_gives_nonce(token_name@),
    ensures
        r@ == sealed_token(plain@, token_name@, key@),
        opened_token(r@, token_nonce(token_name@), key@) == Some(plain@),
{
    let nonce = nonce_of(token_name);
    let cipher_bytes = encrypt_data(plain.as_bytes(), nonce.as_slice(), key);
    encode_base64(cipher_bytes.as_slice())
}

/// Opens a stored token with the nonce taken from its name.
pub fn open_token(sealed: &str, token_name: &str, key: &str) -> (r: Option<String>)
    requires
        name_gives_nonce(token_name@),
    ensures
        r is None <==> opened_token(sealed@, token_nonce(token_name@), key@) is None,
        r matches Some(s) ==> opened_token(sealed@, token_nonce(token_name@), key@) == Some(s@),
{
    let nonce = nonce_of(token_name);
    decrypt_data(sealed, nonce.as_slice(), key)
}

} // verus!
