//! Password-based key derivation with Argon2.
use vstd::prelude::*;
use argon2::password_hash::rand_core::{OsRng, RngCore};
use argon2::Argon2;
use crate::key::AesKey;
use vstd::utf8::encode_utf8;

verus! {

/// Length of the random salt drawn for each derivation, in bytes.
pub const SALT_LEN: usize = 16;

/// Longest passphrase, in bytes, that Argon2 accepts.
pub const MAX_PASSWORD_LEN: usize = 0xFFFF_FFFF;

/// The 32-byte Argon2 digest of `password` under `salt`, with Argon2's
/// default algorithm (Argon2id), version and cost parameters.
pub uninterp spec fn argon2_digest(password: Seq<u8>, salt: Seq<u8>) -> Seq<u8>;

/// Relies on `OsRng::fill_bytes` from argon2's password-hash re-export of
/// rand_core: fresh bytes from the operating system; nothing is known of them.
#[verifier::external_body]
fn random_salt() -> (r: [u8; 16]) {
    let mut salt = [0u8; 16];
    OsRng.fill_bytes(&mut salt);
    salt
}

/// Relies on argon2's `Argon2::hash_password_into` on `Argon2::default()`:
/// the output depends on the password and salt alone, and the call succeeds
/// for a password of at most `MAX_PASSWORD_LEN` bytes, a salt of 8 bytes or
/// more, and a 32-byte output.
#[verifier::external_body]
fn argon2_hash(password: &[u8], salt: &[u8; 16]) -> (r: [u8; 32])
    requires
        password@.len() <= MAX_PASSWORD_LEN,
    ensures
        r@ == argon2_digest(password@, salt@),
{
    let mut out = [0u8; 32];
    Argon2::default().hash_password_into(password, salt, &mut out).expect("argon2 hashing failed");
    out
}

/// Derive a key from a passphrase with a fresh random salt: the key is the
/// Argon2 digest of the passphrase under some 16-byte salt. Two derivations
/// of one passphrase draw their salts independently.
pub fn derive_key(password: &str) -> (r: AesKey)
    requires
        encode_utf8(password@).len() <= MAX_PASSWORD_LEN,
    ensures
        exists|salt: Seq<u8>|
            salt.len() == SALT_LEN && r@ == #[trigger] argon2_digest(encode_utf8(password@), salt),
{
    let salt = random_salt();
    let digest = argon2_hash(password.as_bytes(), &salt);
    let key = AesKey::new(digest);
    assert(salt@.len() == SALT_LEN);
    key
}

} // verus!
