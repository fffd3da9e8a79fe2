//! Prompt sealing: derive a fixed-width key from a pass phrase and
//! seal or open prompts through an authenticated cipher.

use vstd::prelude::*;
use vstd::string::{StringSliceAdditionalSpecFns, StrSliceExecFns};
use aes_gcm::aead::{Aead, KeyInit};

verus! {

/// The byte at position `i` of the derived key: the phrase's byte, or
/// the padding byte `i * 0xAF` truncated.
pub open spec fn sp_key_byte(phrase: Seq<u8>, i: int) -> u8 {
    if i < phrase.len() {
        phrase[i]
    } else {
        ((i * 0xaf) % 256) as u8
    }
}

/// The full thirty-two byte key of a phrase.
pub open spec fn sp_derive_key(phrase: Seq<u8>) -> Seq<u8> {
    Seq::new(32, |i: int| sp_key_byte(phrase, i))
}

/// The sealed text of a plaintext under a key.  Relies on
/// `aes_gcm::Aes256Gcm::encrypt` with a fixed nonce and
/// `base64::Engine::encode`: the result depends on the key and the
/// plaintext alone.
pub uninterp spec fn sealed_of(key: Seq<u8>, plaintext: Seq<char>) -> Seq<char>;

/// Security utility for sealing prompts.
pub struct Shield;

impl Shield {
    /// Derive a thirty-two byte key from a pass phrase: its bytes,
    /// padded with a fixed pattern.
    pub fn derive_key(key_str: &str) -> (r: Vec<u8>)
        ensures
            r@ == sp_derive_key(key_str.spec_bytes()),
    {
        let bytes = key_str.as_bytes_vec();
        let mut key: Vec<u8> = Vec::new();
        let mut i: usize = 0;
        while i < 32
            invariant
                i <= 32,
                bytes@ == key_str.spec_bytes(),
                key@.len() == i,
                forall|t: int| 0 <= t < i ==> key@[t] == sp_key_byte(key_str.spec_bytes(), t),
            decreases 32 - i,
        {
            if i < bytes.len() {
                key.push(bytes[i]);
            } else {
                key.push(((i as u8) as u8).wrapping_mul(0xaf));
                proof {
                    assert(((i as u8) as int * 0xaf) % 256 == (i * 0xaf) % 256) by (nonlinear_arith)
                        requires
                            0 <= i < 32,
                    ;
                }
            }
            i = i + 1;
        }
        proof {
            assert(key@ =~= sp_derive_key(key_str.spec_bytes()));
        }
        key
    }

    /// Seal a prompt under a derived key.  The cipher caps one message
    /// at 2^36 bytes; a character is at most four bytes, whence the
    /// length bound.
    pub fn encrypt(prompt: &str, key_str: &str) -> (r: String)
        requires
            4 * prompt@.len() <= 0x10_0000_0000,
        ensures
            r@ == sealed_of(sp_derive_key(key_str.spec_bytes()), prompt@),
    {
        let key = Self::derive_key(key_str);
        seal_bytes(&key, prompt)
    }

    /// Open a sealed prompt under a derived key: the plaintext it was
    /// sealed from, or an error for text not sealed under this key.
    pub fn decrypt(encrypted_prompt: &str, key_str: &str) -> (r: Result<String, String>)
        ensures
            forall|p: Seq<char>|
                4 * p.len() <= 0x10_0000_0000 && encrypted_prompt@ == sealed_of(
                    sp_derive_key(key_str.spec_bytes()),
                    p,
                ) ==> r is Ok && (#[trigger] (r->Ok_0)@) == p,
    {
        let key = Self::derive_key(key_str);
        open_sealed(&key, encrypted_prompt)
    }
}

/// Relies on `aes_gcm::Aes256Gcm::encrypt` (with the fixed nonce) and
/// `base64::engine::general_purpose::STANDARD.encode`: sealing is a
/// function of the key and the plaintext.  The cipher rejects messages
/// above 2^36 bytes, so the length bound keeps the call from failing.
#[verifier::external_body]
fn seal_bytes(key: &Vec<u8>, plaintext: &str) -> (r: String)
    requires
        key@.len() == 32,
        4 * plaintext@.len() <= 0x10_0000_0000,
    ensures
        r@ == sealed_of(key@, plaintext@),
{
    let cipher = aes_gcm::Aes256Gcm::new_from_slice(key.as_slice()).unwrap();
    let nonce_bytes: [u8; 12] = *b"aether_nonce";
    let nonce = aes_gcm::Nonce::from_slice(&nonce_bytes);
    let ciphertext = cipher.encrypt(nonce, plaintext.as_bytes()).expect("Encryption failed");
    base64::Engine::encode(&base64::engine::general_purpose::STANDARD, ciphertext)
}

/// Relies on `base64::engine::general_purpose::STANDARD.decode` and
/// `aes_gcm::Aes256Gcm::decrypt`: opening inverts sealing under the
/// same key, and rejects text not sealed under it.
#[verifier::external_body]
fn open_sealed(key: &Vec<u8>, sealed: &str) -> (r: Result<String, String>)
    requires
        key@.len() == 32,
    ensures
        forall|p: Seq<char>|
            4 * p.len() <= 0x10_0000_0000 && sealed@ == sealed_of(key@, p) ==> r is Ok && (
            #[trigger] (r->Ok_0)@) == p,
{
    let cipher = aes_gcm::Aes256Gcm::new_from_slice(key.as_slice()).map_err(|e| e.to_string())?;
    let nonce_bytes: [u8; 12] = *b"aether_nonce";
    let nonce = aes_gcm::Nonce::from_slice(&nonce_bytes);
    let ciphertext = base64::Engine::decode(&base64::engine::general_purpose::STANDARD, sealed)
        .map_err(|e| e.to_string())?;
    let plaintext = cipher.decrypt(nonce, ciphertext.as_slice()).map_err(|e| e.to_string())?;
    String::from_utf8(plaintext).map_err(|e| e.to_string())
}

} // verus!
