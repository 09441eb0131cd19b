//! A local secrets vault: credential records encrypted at rest with
//! AES-256 in CBC mode under a key derived from a master passphrase.
pub mod auth;
pub mod cbc;
pub mod key;
pub mod models;
pub mod padding;
pub mod vault;

pub use auth::derive_key;
pub use cbc::{decrypt_cbc, encrypt_cbc};
pub use key::{generate_iv, generate_key, AesKey, Iv};
pub use models::{PasswordEntry, PasswordVault, Schema};
pub use padding::{pad_pkcs7, unpad_pkcs7, CryptoError};
pub use vault::{VaultError, VaultManager};
