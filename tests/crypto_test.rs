use password_vault::{
    decrypt_cbc, encrypt_cbc, generate_iv, generate_key, pad_pkcs7, unpad_pkcs7, AesKey,
    CryptoError,
};

use aes::cipher::generic_array::GenericArray;
use aes::cipher::{BlockEncrypt, KeyInit};
use aes::Aes256;

fn fixed_key() -> AesKey {
    let mut k = [0u8; 32];
    for (i, b) in k.iter_mut().enumerate() {
        *b = (i as u8).wrapping_mul(7).wrapping_add(3);
    }
    AesKey::new(k)
}

fn fixed_iv() -> [u8; 16] {
    let mut iv = [0u8; 16];
    for (i, b) in iv.iter_mut().enumerate() {
        *b = 0xa0 ^ (i as u8);
    }
    iv
}

/// CBC encryption of already padded bytes, block by block, with the aes crate.
fn reference_cbc(key: &[u8; 32], iv: &[u8; 16], padded: &[u8]) -> Vec<u8> {
    let cipher = Aes256::new(GenericArray::from_slice(key));
    let mut prev = *iv;
    let mut out = Vec::new();
    for chunk in padded.chunks(16) {
        let mut block = GenericArray::clone_from_slice(chunk);
        for (a, b) in block.iter_mut().zip(prev.iter()) {
            *a ^= b;
        }
        cipher.encrypt_block(&mut block);
        out.extend_from_slice(&block);
        prev.copy_from_slice(&block);
    }
    out
}

#[test]
fn test_cbc_roundtrip() {
    let key = generate_key();
    let iv = generate_iv();
    let msg = "Sensitive data ðŸš€";

    let encrypted = encrypt_cbc(&key, &iv, msg);
    let decrypted = decrypt_cbc(&key, &iv, &encrypted).unwrap();

    assert_eq!(decrypted, msg);
}

#[test]
fn test_padding_validation() {
    // Valid padding
    let valid = b"hello\x0b\x0b\x0b\x0b\x0b\x0b\x0b\x0b\x0b\x0b\x0b";
    assert!(unpad_pkcs7(valid).is_ok());

    // Invalid padding length (17 > block size)
    let invalid_len = b"\x11\x11\x11\x11\x11\x11\x11\x11\x11\x11\x11\x11\x11\x11\x11\x11\x11";
    assert!(unpad_pkcs7(invalid_len).is_err());

    // Corrupt padding (last byte doesn't match padding length)
    let corrupt = b"hello\x05\x05\x05\x03\x05";
    assert!(unpad_pkcs7(corrupt).is_err());
}

#[test]
fn test_zeroization() {
    let key = generate_key();
    let key_copy = *key.as_bytes(); // Copy before drop

    // Force drop
    std::mem::drop(key);

    // Verify the COPY wasn't zeroized (shouldn't be)
    assert!(
        key_copy.iter().any(|&x| x != 0),
        "Key copy was zeroized unexpectedly"
    );
}

#[test]
fn test_cbc_consistency() {
    let key = AesKey::random();
    let iv1 = generate_iv();
    let iv2 = generate_iv();
    let msg = "Test message";

    // Different IVs should produce different ciphertexts
    let encrypted1 = encrypt_cbc(&key, &iv1, msg);
    let encrypted2 = encrypt_cbc(&key, &iv2, msg);
    assert_ne!(encrypted1, encrypted2);

    // Same IV should produce same ciphertext
    let encrypted3 = encrypt_cbc(&key, &iv1, msg);
    assert_eq!(encrypted1, encrypted3);

    // Both should decrypt correctly
    assert_eq!(decrypt_cbc(&key, &iv1, &encrypted1).unwrap(), msg);
    assert_eq!(decrypt_cbc(&key, &iv2, &encrypted2).unwrap(), msg);
}

#[test]
fn test_key_zeroization() {
    let key = AesKey::random();
    let key_copy = *key.as_bytes(); // Copy before drop

    // Drop the key (should trigger zeroization)
    std::mem::drop(key);

    // Verify the copy still exists
    assert!(
        key_copy.iter().any(|&x| x != 0),
        "Key copy was zeroized unexpectedly"
    );
}

#[test]
fn pad_appends_pad_length_bytes() {
    let padded = pad_pkcs7(b"hello");
    let mut expected = b"hello".to_vec();
    expected.extend(std::iter::repeat(11u8).take(11));
    assert_eq!(padded, expected);
}

#[test]
fn pad_of_whole_block_adds_full_block() {
    let data = [0x41u8; 16];
    let padded = pad_pkcs7(&data);
    assert_eq!(padded.len(), 32);
    assert_eq!(&padded[..16], &data[..]);
    assert!(padded[16..].iter().all(|&b| b == 16));
}

#[test]
fn pad_of_empty_is_one_block_of_sixteens() {
    assert_eq!(pad_pkcs7(&[]), vec![16u8; 16]);
}

#[test]
fn unpad_strips_padding_exactly() {
    let valid = b"hello\x0b\x0b\x0b\x0b\x0b\x0b\x0b\x0b\x0b\x0b\x0b";
    assert_eq!(unpad_pkcs7(valid).unwrap(), b"hello".to_vec());
    assert_eq!(unpad_pkcs7(&[16u8; 16]).unwrap(), Vec::<u8>::new());
}

#[test]
fn unpad_error_kinds() {
    assert_eq!(unpad_pkcs7(&[]), Err(CryptoError::InvalidPaddingLength));
    assert_eq!(unpad_pkcs7(b"abc\x00"), Err(CryptoError::InvalidPaddingLength));
    assert_eq!(unpad_pkcs7(b"\x11\x11\x11\x11\x11\x11\x11\x11\x11\x11\x11\x11\x11\x11\x11\x11\x11"), Err(CryptoError::InvalidPaddingLength));
    assert_eq!(unpad_pkcs7(b"ab\x05"), Err(CryptoError::InvalidPaddingLength));
    assert_eq!(unpad_pkcs7(b"hello\x05\x05\x05\x03\x05"), Err(CryptoError::InvalidPaddingBytes));
}

#[test]
fn roundtrip_of_several_lengths() {
    let key = fixed_key();
    let iv = fixed_iv();
    let emoji = "Sensitive data \u{1F680}";
    for msg in ["", "a", "exactly16bytes!!", "seventeen bytes!!", emoji, "Sensitive data ðŸš€"] {
        let ct = encrypt_cbc(&key, &iv, msg);
        assert_eq!(decrypt_cbc(&key, &iv, &ct).unwrap(), msg);
    }
}

#[test]
fn ciphertext_lengths() {
    let key = fixed_key();
    let iv = fixed_iv();
    assert_eq!(encrypt_cbc(&key, &iv, "").len(), 16);
    assert_eq!(encrypt_cbc(&key, &iv, "fifteen bytes!!").len(), 16);
    assert_eq!(encrypt_cbc(&key, &iv, "exactly16bytes!!").len(), 32);
    assert_eq!(encrypt_cbc(&key, &iv, "seventeen bytes!!").len(), 32);
}

#[test]
fn encryption_matches_aes_cbc_block_by_block() {
    let key = fixed_key();
    let iv = fixed_iv();
    let msg = "Test message that spans more than one block";
    let padded = pad_pkcs7(msg.as_bytes());
    let expected = reference_cbc(key.as_bytes(), &iv, &padded);
    let ct = encrypt_cbc(&key, &iv, msg);
    assert_eq!(ct, expected);
    assert_ne!(ct, padded);
}

#[test]
fn decryption_of_reference_ciphertext() {
    let key = fixed_key();
    let iv = fixed_iv();
    let msg = "known plaintext";
    let padded = pad_pkcs7(msg.as_bytes());
    let ct = reference_cbc(key.as_bytes(), &iv, &padded);
    assert_eq!(decrypt_cbc(&key, &iv, &ct).unwrap(), msg);
}

#[test]
fn decrypt_rejects_bad_lengths() {
    let key = fixed_key();
    let iv = fixed_iv();
    assert_eq!(decrypt_cbc(&key, &iv, &[]), Err(CryptoError::InvalidCiphertextLength));
    assert_eq!(decrypt_cbc(&key, &iv, &[0u8; 15]), Err(CryptoError::InvalidCiphertextLength));
    assert_eq!(decrypt_cbc(&key, &iv, &[0u8; 17]), Err(CryptoError::InvalidCiphertextLength));
}

#[test]
fn decrypt_rejects_invalid_utf8() {
    let key = fixed_key();
    let iv = fixed_iv();
    let padded = pad_pkcs7(&[0xff, 0xfe, 0x41]);
    let ct = reference_cbc(key.as_bytes(), &iv, &padded);
    assert_eq!(decrypt_cbc(&key, &iv, &ct), Err(CryptoError::InvalidTextEncoding));
}

#[test]
fn decrypt_rejects_bad_padding() {
    let key = fixed_key();
    let iv = fixed_iv();
    let mut block = [0x41u8; 16];
    block[15] = 0;
    let ct = reference_cbc(key.as_bytes(), &iv, &block);
    assert_eq!(decrypt_cbc(&key, &iv, &ct), Err(CryptoError::InvalidPaddingLength));
    block[15] = 3;
    let ct = reference_cbc(key.as_bytes(), &iv, &block);
    assert_eq!(decrypt_cbc(&key, &iv, &ct), Err(CryptoError::InvalidPaddingBytes));
}

#[test]
fn flipped_bytes_never_yield_the_message() {
    let key = fixed_key();
    let iv = fixed_iv();
    let msg = "a message of two blocks";
    let ct = encrypt_cbc(&key, &iv, msg);
    for i in 0..ct.len() {
        let mut tampered = ct.clone();
        tampered[i] ^= 0x01;
        match decrypt_cbc(&key, &iv, &tampered) {
            Ok(text) => assert_ne!(text, msg),
            Err(_) => {}
        }
    }
}

#[test]
fn different_ivs_give_different_ciphertexts() {
    let key = fixed_key();
    let iv1 = fixed_iv();
    let mut iv2 = fixed_iv();
    iv2[0] ^= 1;
    assert_ne!(encrypt_cbc(&key, &iv1, "same text"), encrypt_cbc(&key, &iv2, "same text"));
    assert_eq!(encrypt_cbc(&key, &iv1, "same text"), encrypt_cbc(&key, &iv1, "same text"));
}

#[test]
fn error_messages() {
    assert_eq!(CryptoError::InvalidCiphertextLength.message(), "Invalid ciphertext length");
    assert_eq!(CryptoError::InvalidPaddingLength.message(), "Invalid padding length");
    assert_eq!(CryptoError::InvalidPaddingBytes.message(), "Invalid padding bytes");
    assert_eq!(CryptoError::InvalidTextEncoding.message(), "Invalid UTF-8");
}

#[test]
fn key_bytes_are_kept() {
    let key = AesKey::new([9u8; 32]);
    assert_eq!(key.as_bytes(), &[9u8; 32]);
}
