//! Key material: 256-bit keys, initialization vectors, and wiping.
use vstd::prelude::*;
use rand::RngCore;
use zeroize::Zeroize;

verus! {

/// Initialization vector for CBC mode.
pub type Iv = [u8; 16];

/// A 256-bit symmetric key. Its bytes are overwritten with zeros when the
/// key is dropped.
pub struct AesKey(pub(crate) [u8; 32]);

impl View for AesKey {
    type V = Seq<u8>;

    closed spec fn view(&self) -> Seq<u8> {
        self.0@
    }
}

impl AesKey {
    /// Create a key from raw bytes.
    pub fn new(key: [u8; 32]) -> (r: Self)
        ensures
            r@ == key@,
    {
        AesKey(key)
    }

    /// Generate a new random key.
    pub fn random() -> (r: Self)
        ensures
            r@.len() == 32,
    {
        AesKey(random_bytes::<32>())
    }

    /// The key's bytes.
    pub fn as_bytes(&self) -> (r: &[u8; 32])
        ensures
            r@ == self@,
    {
        &self.0
    }
}

impl Drop for AesKey {
    fn drop(&mut self)
        opens_invariants none
        no_unwind
    {
        wipe_key_bytes(&mut self.0);
    }
}

/// Relies on rand's `ThreadRng::fill_bytes`, a cryptographically secure
/// generator; nothing is known of the bytes drawn.
#[verifier::external_body]
fn random_bytes<const N: usize>() -> (r: [u8; N]) {
    let mut bytes = [0u8; N];
    rand::thread_rng().fill_bytes(&mut bytes);
    bytes
}

/// Relies on zeroize's `Zeroize` for `[u8; N]`: every byte is set to zero.
#[verifier::external_body]
fn wipe_key_bytes(bytes: &mut [u8; 32])
    ensures
        final(bytes)@ == Seq::new(32, |_i: int| 0u8),
    opens_invariants none
    no_unwind
{
    bytes.zeroize();
}

/// Relies on zeroize's `Zeroize` for `Vec<u8>`: the bytes are overwritten
/// with zeros and the vector is left empty.
#[verifier::external_body]
pub(crate) fn wipe_buffer(buf: &mut Vec<u8>)
    ensures
        final(buf)@ == Seq::<u8>::empty(),
{
    buf.zeroize();
}

/// Generate a random AES-256 key.
pub fn generate_key() -> (r: AesKey)
    ensures
        r@.len() == 32,
{
    AesKey(random_bytes::<32>())
}

/// Generate a random IV for CBC mode.
pub fn generate_iv() -> (r: Iv)
    ensures
        r@.len() == 16,
{
    random_bytes::<16>()
}

} // verus!
