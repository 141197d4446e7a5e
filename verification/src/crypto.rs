//! The cryptographic engine: AES-128-CBC with block padding, SHA-256, and the
//! random source for IVs. The primitives are OpenSSL's; this module states
//! what the rest of the library relies on and checks what they are handed.

use vstd::prelude::*;
use openssl::error::ErrorStack;
use crate::error::RfsError;
use crate::node::{NodeView, RFSNode};

verus! {

/// Key length of the cipher, in bytes.
pub const KEY_LEN: usize = 16;

/// Length of an initialization vector, in bytes: one cipher block.
pub const IV_LEN: usize = 16;

/// The most bytes that the cipher takes in one call.
pub const CIPHER_INPUT_MAX: usize = 0x7fff_ffff;

/// OpenSSL's error stack. Nothing is read from it: a failure of the cipher
/// or of the random source is reported by the library's own error type.
#[verifier::external_type_specification]
#[verifier::external_body]
pub struct ExErrorStack(ErrorStack);

/// What `openssl::symm::encrypt` returns for AES-128-CBC on a key, an IV and
/// a plaintext: the padded ciphertext, or `None` where it fails.
pub uninterp spec fn aes_128_cbc_encrypt(key: Seq<u8>, iv: Seq<u8>, plaintext: Seq<u8>) -> Option<
    Seq<u8>,
>;

/// What `openssl::symm::decrypt` returns for AES-128-CBC on a key, an IV and
/// a ciphertext: the plaintext with its padding removed, or `None` where it
/// fails, as it does on a ciphertext that is not a whole number of blocks or
/// that decrypts to invalid padding.
pub uninterp spec fn aes_128_cbc_decrypt(key: Seq<u8>, iv: Seq<u8>, ciphertext: Seq<u8>) -> Option<
    Seq<u8>,
>;

/// What `openssl::sha::sha256` returns: the SHA-256 digest of the data.
pub uninterp spec fn sha256(data: Seq<u8>) -> Seq<u8>;

/// Whether the cipher can be called on these inputs: the key and the IV have
/// the cipher's lengths and the data is not longer than one call takes.
pub open spec fn cipher_accepts(key: Seq<u8>, iv: Seq<u8>, data: Seq<u8>) -> bool {
    key.len() == KEY_LEN && iv.len() == IV_LEN && data.len() <= CIPHER_INPUT_MAX
}

/// What `encrypt` returns: the ciphertext, or `None` for a failure. A
/// ciphertext too long to be decrypted in one call counts as a failure.
pub open spec fn encrypt_spec(key: Seq<u8>, iv: Seq<u8>, plaintext: Seq<u8>) -> Option<Seq<u8>> {
    if cipher_accepts(key, iv, plaintext) {
        match aes_128_cbc_encrypt(key, iv, plaintext) {
            Some(c) => if c.len() <= CIPHER_INPUT_MAX {
                Some(c)
            } else {
                None
            },
            None => None,
        }
    } else {
        None
    }
}

/// What `decrypt` returns: the plaintext, or `None` for a failure.
pub open spec fn decrypt_spec(key: Seq<u8>, iv: Seq<u8>, ciphertext: Seq<u8>) -> Option<Seq<u8>> {
    if cipher_accepts(key, iv, ciphertext) {
        aes_128_cbc_decrypt(key, iv, ciphertext)
    } else {
        None
    }
}

/// `openssl::symm::encrypt` with `Cipher::aes_128_cbc()`. Trusted: the result
/// is a function of key, IV and plaintext alone, and a ciphertext that it
/// returns and that `openssl::symm::decrypt` can take decrypts under the same
/// key and IV to the plaintext it was made from. The call panics on an input
/// longer than a C `int` counts, which `requires` leaves out.
#[verifier::external_body]
fn aes_encrypt(key: &[u8], iv: &[u8], plaintext: &[u8]) -> (r: Result<Vec<u8>, ErrorStack>)
    requires
        cipher_accepts(key@, iv@, plaintext@),
    ensures
        match r {
            Ok(c) => aes_128_cbc_encrypt(key@, iv@, plaintext@) == Some(c@),
            Err(_) => aes_128_cbc_encrypt(key@, iv@, plaintext@) is None,
        },
        r matches Ok(c) ==> c@.len() <= CIPHER_INPUT_MAX ==> aes_128_cbc_decrypt(key@, iv@, c@)
            == Some(plaintext@),
{
    openssl::symm::encrypt(openssl::symm::Cipher::aes_128_cbc(), key, Some(iv), plaintext)
}

/// `openssl::symm::decrypt` with `Cipher::aes_128_cbc()`. Trusted: the result
/// is a function of key, IV and ciphertext alone. The call panics on an input
/// longer than a C `int` counts, which `requires` leaves out.
#[verifier::external_body]
fn aes_decrypt(key: &[u8], iv: &[u8], ciphertext: &[u8]) -> (r: Result<Vec<u8>, ErrorStack>)
    requires
        cipher_accepts(key@, iv@, ciphertext@),
    ensures
        match r {
            Ok(p) => aes_128_cbc_decrypt(key@, iv@, ciphertext@) == Some(p@),
            Err(_) => aes_128_cbc_decrypt(key@, iv@, ciphertext@) is None,
        },
{
    openssl::symm::decrypt(openssl::symm::Cipher::aes_128_cbc(), key, Some(iv), ciphertext)
}

/// `openssl::sha::sha256`. Trusted: the digest is a function of the data
/// alone.
#[verifier::external_body]
fn sha256_bytes(data: &[u8]) -> (r: [u8; 32])
    ensures
        r@ == sha256(data@),
{
    openssl::sha::sha256(data)
}

/// `openssl::rand::rand_bytes` on a buffer of one IV's length; `None` where
/// it fails. Nothing is claimed of the bytes: they are random.
#[verifier::external_body]
fn rand_iv() -> (r: Option<[u8; 16]>)
{
    let mut iv = [0u8; 16];
    openssl::rand::rand_bytes(&mut iv).ok().map(|_| iv)
}

/// Encrypts `plaintext` with AES-128-CBC and block padding. Fails with
/// `Crypto` where the key or the IV has the wrong length, where the plaintext
/// or its ciphertext is longer than the cipher takes in one call, and where
/// the cipher fails. A ciphertext that is returned decrypts, under the same
/// key and IV, to the plaintext.
pub fn encrypt(key: &[u8], iv: &[u8], plaintext: &[u8]) -> (r: Result<Vec<u8>, RfsError>)
    ensures
        match encrypt_spec(key@, iv@, plaintext@) {
            Some(c) => r matches Ok(v) && v@ == c,
            None => r == Err::<Vec<u8>, RfsError>(RfsError::Crypto),
        },
        r matches Ok(v) ==> decrypt_spec(key@, iv@, v@) == Some(plaintext@),
{
    if key.len() != KEY_LEN || iv.len() != IV_LEN || plaintext.len() > CIPHER_INPUT_MAX {
        return Err(RfsError::Crypto);
    }
    match aes_encrypt(key, iv, plaintext) {
        Ok(c) => if c.len() <= CIPHER_INPUT_MAX {
            Ok(c)
        } else {
            Err(RfsError::Crypto)
        },
        Err(_) => Err(RfsError::Crypto),
    }
}

/// Decrypts `ciphertext` with AES-128-CBC and removes the padding. Fails with
/// `Crypto` where the key or the IV has the wrong length, where the
/// ciphertext is longer than the cipher takes in one call, and where the
/// cipher fails: on a ciphertext that is not a whole number of blocks, or
/// whose padding is invalid after decryption.
pub fn decrypt(key: &[u8], iv: &[u8], ciphertext: &[u8]) -> (r: Result<Vec<u8>, RfsError>)
    ensures
        match decrypt_spec(key@, iv@, ciphertext@) {
            Some(p) => r matches Ok(v) && v@ == p,
            None => r == Err::<Vec<u8>, RfsError>(RfsError::Crypto),
        },
{
    if key.len() != KEY_LEN || iv.len() != IV_LEN || ciphertext.len() > CIPHER_INPUT_MAX {
        return Err(RfsError::Crypto);
    }
    match aes_decrypt(key, iv, ciphertext) {
        Ok(p) => Ok(p),
        Err(_) => Err(RfsError::Crypto),
    }
}

/// The SHA-256 digest of `data`.
pub fn digest(data: &[u8]) -> (r: [u8; 32])
    ensures
        r@ == sha256(data@),
{
    sha256_bytes(data)
}

/// A fresh random IV, or `Crypto` where the random source fails.
pub fn fresh_iv() -> (r: Result<[u8; 16], RfsError>)
    ensures
        r is Err ==> r == Err::<[u8; 16], RfsError>(RfsError::Crypto),
{
    iv_of_draw(rand_iv())
}

/// What becomes of a draw from the random source: the bytes that were drawn
/// are the IV, and a draw that failed is a `Crypto` error.
pub fn iv_of_draw(drawn: Option<[u8; 16]>) -> (r: Result<[u8; 16], RfsError>)
    ensures
        r == match drawn {
            Some(iv) => Ok::<[u8; 16], RfsError>(iv),
            None => Err::<[u8; 16], RfsError>(RfsError::Crypto),
        },
{
    match drawn {
        Some(iv) => Ok(iv),
        None => Err(RfsError::Crypto),
    }
}

/// Encrypts the contents of a ROSTER.FS node under the node's IV and sets
/// the node's `encrypted_size` to the length of the ciphertext. Where the
/// encryption fails the node is left as it was.
///
/// * `node` - the node to encrypt for
/// * `key` - the key to encrypt with
/// * `data` - the data to encrypt
pub fn encrypt_node(node: &mut RFSNode, key: &[u8; 16], data: &Vec<u8>) -> (r: Result<
    Vec<u8>,
    RfsError,
>)
    ensures
        match encrypt_spec(key@, old(node).iv@, data@) {
            Some(c) => r matches Ok(v) && v@ == c && final(node)@ == (NodeView {
                encrypted_size: c.len(),
                ..old(node)@
            }),
            None => r == Err::<Vec<u8>, RfsError>(RfsError::Crypto) && *final(node) == *old(node),
        },
        r matches Ok(v) ==> decrypt_spec(key@, old(node).iv@, v@) == Some(data@),
{
    let ciphertext = encrypt(key.as_slice(), node.iv.as_slice(), data.as_slice())?;
    node.encrypted_size = ciphertext.len();
    Ok(ciphertext)
}

/// Decrypts the contents of a ROSTER.FS node under the node's IV.
///
/// * `node` - the node to decrypt
/// * `key` - the key to decrypt with
/// * `data` - the data to decrypt
pub fn decrypt_node(node: &RFSNode, key: &[u8; 16], data: &Vec<u8>) -> (r: Result<
    Vec<u8>,
    RfsError,
>)
    ensures
        match decrypt_spec(key@, node.iv@, data@) {
            Some(p) => r matches Ok(v) && v@ == p,
            None => r == Err::<Vec<u8>, RfsError>(RfsError::Crypto),
        },
{
    decrypt(key.as_slice(), node.iv.as_slice(), data.as_slice())
}

} // verus!
