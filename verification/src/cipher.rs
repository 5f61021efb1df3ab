//! Sealing and opening of secrets with the Fernet scheme.
//!
//! The cryptography is the `fernet` crate's. What this module adds is the
//! rule that a text which the cipher does not take as a key seals nothing and
//! opens nothing.

use crate::error::VaultError;
use crate::text::lemma_bytes_not_fewer;
use vstd::prelude::*;
use vstd::string::*;
use vstd::utf8::encode_utf8;

verus! {

#[verifier::external_type_specification]
#[verifier::external_body]
pub struct ExFernet(fernet::Fernet);

#[verifier::external_type_specification]
#[verifier::external_body]
pub struct ExDecryptionError(fernet::DecryptionError);

/// Whether `fernet::Fernet::new` takes `key` as a key, which it does when the
/// text, but for `=` at its end, is the URL-safe base64 form of 32 bytes.
pub uninterp spec fn key_accepted(key: Seq<char>) -> bool;

/// `fernet::Fernet::new`: a cipher for `key`, or nothing where the text is
/// not taken as a key.
#[verifier::external_body]
fn open_key(key: &str) -> (cipher: Option<fernet::Fernet>)
    ensures
        cipher.is_some() == key_accepted(key@),
{
    fernet::Fernet::new(key)
}

/// `fernet::Fernet::generate_key`: 32 random bytes in URL-safe base64, which
/// `fernet::Fernet::new` takes as a key. It gives up only where the system
/// has no random bytes to give.
#[verifier::external_body]
fn fresh_key() -> (key: String)
    ensures
        key_accepted(key@),
{
    fernet::Fernet::generate_key()
}

/// `fernet::Fernet::encrypt`: a token for `data`. The token holds the time
/// and a random vector, so nothing is claimed of its content but its size: it
/// is the base64 form of a version byte, 8 bytes of time, 16 random bytes,
/// the data padded up to the next full block of 16 bytes, and 32 bytes of
/// authentication. That is at least 73 bytes, so at least 100 characters, and
/// more characters than the data has bytes. It gives up only where the
/// system's clock stands before 1970.
#[verifier::external_body]
fn seal(cipher: &fernet::Fernet, data: &[u8]) -> (token: String)
    ensures
        token@.len() >= 100,
        token@.len() > data@.len(),
{
    cipher.encrypt(data)
}

/// `fernet::Fernet::decrypt`: the bytes that `token` was made of, or the
/// cipher's refusal. A token stamped more than a minute ahead of the clock is
/// refused, so the outcome depends on the clock and nothing is claimed of it.
/// It gives up only where the system's clock stands before 1970.
#[verifier::external_body]
fn unseal(cipher: &fernet::Fernet, token: &str) -> (outcome: Result<Vec<u8>, fernet::DecryptionError>) {
    cipher.decrypt(token)
}

/// Fresh random key material that the cipher accepts.
pub fn create_key() -> (key: String)
    ensures
        key_accepted(key@),
{
    fresh_key()
}

/// The key to write where the user was asked whether to create one: a fresh
/// key where none exists and the user agreed, and nothing otherwise, so that
/// an existing key is never replaced.
pub fn prompt_key_creation(existing: Option<&str>, confirmed: bool) -> (key: Option<String>)
    ensures
        key.is_some() == (existing.is_none() && confirmed),
        key matches Some(k) ==> key_accepted(k@),
{
    if existing.is_none() && confirmed {
        Some(create_key())
    } else {
        None
    }
}

/// Whether the cipher takes `key` as a key.
pub fn is_usable_key(key: &str) -> (b: bool)
    ensures
        b == key_accepted(key@),
{
    open_key(key).is_some()
}

/// What holds of every token that seals `secret`: it has at least 100
/// characters, and more characters than the secret has bytes.
pub open spec fn sealed_for(token: Seq<char>, secret: Seq<char>) -> bool {
    token.len() >= 100 && token.len() > encode_utf8(secret).len()
}

/// A token that seals a secret is never the secret itself.
pub proof fn lemma_token_is_not_the_secret(token: Seq<char>, secret: Seq<char>)
    requires
        sealed_for(token, secret),
    ensures
        token != secret,
        token.len() > secret.len(),
{
    lemma_bytes_not_fewer(secret);
}

/// Seals `raw_text` under `key`. A token comes back exactly when the cipher
/// accepts the key; two calls on the same inputs need not give the same token.
/// Every token is longer than the text and so never the text itself.
pub fn encrypt_text(raw_text: &str, key: &str) -> (token: Option<String>)
    ensures
        token.is_some() == key_accepted(key@),
        token matches Some(t) ==> sealed_for(t@, raw_text@) && t@ != raw_text@,
{
    match open_key(key) {
        Some(cipher) => {
            let token = seal(&cipher, raw_text.as_bytes());
            proof {
                lemma_token_is_not_the_secret(token@, raw_text@);
            }
            Some(token)
        },
        None => None,
    }
}

/// What the caller is told once the cipher has answered: the bytes, or
/// `DecryptError` in place of the cipher's refusal.
pub fn opened(outcome: Result<Vec<u8>, fernet::DecryptionError>) -> (r: Result<Vec<u8>, VaultError>)
    ensures
        match outcome {
            Ok(bytes) => r == Ok::<Vec<u8>, VaultError>(bytes),
            Err(_) => r == Err::<Vec<u8>, VaultError>(VaultError::DecryptError),
        },
{
    match outcome {
        Ok(bytes) => Ok(bytes),
        Err(_) => Err(VaultError::DecryptError),
    }
}

/// Opens `token` with `key`. Every failure is `DecryptError`: a text that is
/// no key always fails, and so does whatever the cipher refuses.
pub fn decrypt_text(token: &str, key: &str) -> (r: Result<Vec<u8>, VaultError>)
    ensures
        !key_accepted(key@) ==> r is Err,
        r matches Err(e) ==> e == VaultError::DecryptError,
{
    match open_key(key) {
        Some(cipher) => opened(unseal(&cipher, token)),
        None => Err(VaultError::DecryptError),
    }
}

} // verus!
