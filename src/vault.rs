//! The vault manager: encrypts a vault's encoded text for storage and
//! recovers it, under one key and one initialization vector.
use vstd::prelude::*;
use vstd::utf8::encode_utf8;
use crate::cbc::{decrypt_cbc, decrypt_spec, encrypt_cbc, encrypt_spec};
use crate::key::{generate_iv, AesKey, Iv};
use crate::padding::CryptoError;

verus! {

/// Failures of saving or loading a vault.
#[derive(Debug, PartialEq, Eq)]
pub enum VaultError {
    /// Reading or writing storage failed.
    Io(String),
    /// Encoding or decoding the vault's text failed.
    Serialization(String),
    /// The stored bytes could not be decrypted.
    Crypto(CryptoError),
}

/// Holds the key and storage location of one vault. One initialization
/// vector is drawn when the manager is made and used for every save: two
/// saves of texts with a common prefix show it.
pub struct VaultManager {
    key: AesKey,
    iv: Iv,
    path: String,
}

impl VaultManager {
    pub closed spec fn key_view(&self) -> Seq<u8> {
        self.key@
    }

    pub closed spec fn iv_view(&self) -> Seq<u8> {
        self.iv@
    }

    pub closed spec fn path_view(&self) -> Seq<char> {
        self.path@
    }

    /// A manager for the vault stored at `path`, with a fresh random IV.
    pub fn new(key: AesKey, path: String) -> (r: Self)
        ensures
            r.key_view() == key@,
            r.path_view() == path@,
            r.iv_view().len() == 16,
    {
        VaultManager { key, iv: generate_iv(), path }
    }

    /// Where the vault is stored.
    pub fn path(&self) -> (r: &str)
        ensures
            r@ == self.path_view(),
    {
        self.path.as_str()
    }

    /// Saving, less the write: the encrypted form of a vault's encoded text,
    /// as it is written to storage.
    pub fn save(&self, encoded: &str) -> (r: Vec<u8>)
        requires
            encode_utf8(encoded@).len() + 16 <= usize::MAX,
        ensures
            r@ == encrypt_spec(self.key_view(), self.iv_view(), encode_utf8(encoded@)),
    {
        encrypt_cbc(&self.key, &self.iv, encoded)
    }

    /// Loading, less the read: the encoded text of a vault recovered from
    /// stored bytes. Every cipher
    /// error comes back as `VaultError::Crypto`; text comes back only from
    /// bytes that are exactly its encryption under this manager's key and IV.
    pub fn load(&self, stored: &[u8]) -> (r: Result<String, VaultError>)
        ensures
            match (r, decrypt_spec(self.key_view(), self.iv_view(), stored@)) {
                (Ok(s), Ok(t)) => s@ == t,
                (Err(VaultError::Crypto(e)), Err(f)) => e == f,
                _ => false,
            },
            forall|m: Seq<char>|
                #[trigger] encrypt_spec(self.key_view(), self.iv_view(), encode_utf8(m))
                    == stored@ ==> r is Ok && r->Ok_0@ == m,
            r is Ok ==> stored@ == encrypt_spec(self.key_view(), self.iv_view(), encode_utf8(r->Ok_0@)),
    {
        match decrypt_cbc(&self.key, &self.iv, stored) {
            Ok(s) => Ok(s),
            Err(e) => Err(VaultError::Crypto(e)),
        }
    }
}

} // verus!
