//! AES-256 in cipher-block-chaining mode with PKCS#7 padding.
use vstd::prelude::*;
use vstd::utf8::{decode_utf8, encode_utf8, valid_utf8};
use aes::cipher::generic_array::GenericArray;
use aes::cipher::{BlockDecrypt, BlockEncrypt, KeyInit};
use crate::key::{wipe_buffer, AesKey, Iv};
use crate::padding::{pad_pkcs7, pad_spec, pad_len_spec, padding_bytes_ok, unpad_pkcs7, unpad_spec, CryptoError};

verus! {

broadcast use {vstd::utf8::encode_utf8_valid_utf8, vstd::utf8::encode_utf8_decode_utf8};

/// aes's `Aes256` block cipher with its expanded key, opaque here.
#[verifier::external_type_specification]
#[verifier::external_body]
pub struct ExAes256(aes::Aes256);

/// The forward AES-256 transform of one 16-byte block under a 32-byte key.
pub uninterp spec fn aes256_encrypt(key: Seq<u8>, block: Seq<u8>) -> Seq<u8>;

/// The inverse AES-256 transform of one 16-byte block under a 32-byte key.
pub uninterp spec fn aes256_decrypt(key: Seq<u8>, block: Seq<u8>) -> Seq<u8>;

/// The forward transform as a 16-byte block.
pub open spec fn encrypt_block_spec(key: Seq<u8>, block: Seq<u8>) -> Seq<u8> {
    Seq::new(16, |i: int| aes256_encrypt(key, block)[i])
}

/// The inverse transform as a 16-byte block.
pub open spec fn decrypt_block_spec(key: Seq<u8>, block: Seq<u8>) -> Seq<u8> {
    Seq::new(16, |i: int| aes256_decrypt(key, block)[i])
}

/// An expanded AES-256 key, remembering the key it was made from.
pub(crate) struct BlockCipher {
    aes: aes::Aes256,
    key: Ghost<Seq<u8>>,
}

impl BlockCipher {
    pub(crate) closed spec fn key(&self) -> Seq<u8> {
        self.key@
    }

    /// Relies on aes's `KeyInit::new` for `Aes256`: expands the 32-byte key.
    #[verifier::external_body]
    pub(crate) fn new(key: &[u8; 32]) -> (r: Self)
        ensures
            r.key() == key@,
    {
        BlockCipher { aes: aes::Aes256::new(GenericArray::from_slice(key)), key: Ghost(key@) }
    }

    /// Relies on aes's `BlockEncrypt::encrypt_block` for `Aes256`: the result
    /// depends on the key and the block alone.
    #[verifier::external_body]
    pub(crate) fn encrypt_block(&self, block: &[u8; 16]) -> (r: [u8; 16])
        ensures
            r@ == aes256_encrypt(self.key(), block@),
    {
        let mut b = GenericArray::clone_from_slice(block);
        self.aes.encrypt_block(&mut b);
        let mut out = [0u8; 16];
        out.copy_from_slice(&b);
        out
    }

    /// Relies on aes's `BlockDecrypt::decrypt_block` for `Aes256`. Under one
    /// key AES is a permutation of 16-byte blocks and decryption is its
    /// inverse: encrypting the result gives back `block`, and the result is
    /// the one block that encrypts to `block`.
    #[verifier::external_body]
    pub(crate) fn decrypt_block(&self, block: &[u8; 16]) -> (r: [u8; 16])
        ensures
            r@ == aes256_decrypt(self.key(), block@),
            encrypt_block_spec(self.key(), r@) == block@,
            forall|p: Seq<u8>|
                p.len() == 16 && #[trigger] encrypt_block_spec(self.key(), p) == block@ ==> r@ == p,
    {
        let mut b = GenericArray::clone_from_slice(block);
        self.aes.decrypt_block(&mut b);
        let mut out = [0u8; 16];
        out.copy_from_slice(&b);
        out
    }
}

/// Relies on `String::from_utf8`: succeeds exactly on valid UTF-8, and
/// then holds the decoded characters; on failure the bytes are handed back.
#[verifier::external_body]
fn string_from_utf8(bytes: Vec<u8>) -> (r: Result<String, Vec<u8>>)
    ensures
        r is Ok <==> valid_utf8(bytes@),
        r is Ok ==> r->Ok_0@ == decode_utf8(bytes@),
        r is Err ==> r->Err_0@ == bytes@,
{
    String::from_utf8(bytes).map_err(|e| e.into_bytes())
}

/// Bytewise exclusive or of two blocks.
pub open spec fn xor16(a: Seq<u8>, b: Seq<u8>) -> Seq<u8> {
    Seq::new(16, |i: int| a[i] ^ b[i])
}

/// Block `i` of `data`.
pub open spec fn block_of(data: Seq<u8>, i: int) -> Seq<u8> {
    data.subrange(16 * i, 16 * i + 16)
}

/// Ciphertext block `i` of the CBC encryption of `data`.
pub open spec fn cbc_chain_block(key: Seq<u8>, iv: Seq<u8>, data: Seq<u8>, i: nat) -> Seq<u8>
    decreases i,
{
    let prev = if i == 0 {
        iv
    } else {
        cbc_chain_block(key, iv, data, (i - 1) as nat)
    };
    encrypt_block_spec(key, xor16(block_of(data, i as int), prev))
}

/// The first `n` ciphertext blocks of the CBC encryption of `data`.
pub open spec fn cbc_encrypt_blocks(key: Seq<u8>, iv: Seq<u8>, data: Seq<u8>, n: nat) -> Seq<u8>
    decreases n,
{
    if n == 0 {
        Seq::empty()
    } else {
        cbc_encrypt_blocks(key, iv, data, (n - 1) as nat) + cbc_chain_block(
            key,
            iv,
            data,
            (n - 1) as nat,
        )
    }
}

/// Recovered plaintext block `i` of the CBC decryption of `ct`.
pub open spec fn cbc_plain_block(key: Seq<u8>, iv: Seq<u8>, ct: Seq<u8>, i: int) -> Seq<u8> {
    let prev = if i == 0 {
        iv
    } else {
        block_of(ct, i - 1)
    };
    xor16(decrypt_block_spec(key, block_of(ct, i)), prev)
}

/// The first `n` recovered plaintext blocks of the CBC decryption of `ct`.
pub open spec fn cbc_decrypt_blocks(key: Seq<u8>, iv: Seq<u8>, ct: Seq<u8>, n: nat) -> Seq<u8>
    decreases n,
{
    if n == 0 {
        Seq::empty()
    } else {
        cbc_decrypt_blocks(key, iv, ct, (n - 1) as nat) + cbc_plain_block(
            key,
            iv,
            ct,
            n - 1,
        )
    }
}

/// The ciphertext of `text`: padded, then CBC-encrypted.
pub open spec fn encrypt_spec(key: Seq<u8>, iv: Seq<u8>, text: Seq<u8>) -> Seq<u8> {
    let p = pad_spec(text);
    cbc_encrypt_blocks(key, iv, p, p.len() / 16)
}

/// The result of decrypting `ct`: its length is checked, it is
/// CBC-decrypted, unpadded, and read as UTF-8.
pub open spec fn decrypt_spec(key: Seq<u8>, iv: Seq<u8>, ct: Seq<u8>) -> Result<Seq<char>, CryptoError> {
    if ct.len() == 0 || ct.len() % 16 != 0 {
        Err(CryptoError::InvalidCiphertextLength)
    } else {
        match unpad_spec(cbc_decrypt_blocks(key, iv, ct, ct.len() / 16)) {
            Err(e) => Err(e),
            Ok(b) => if valid_utf8(b) {
                Ok(decode_utf8(b))
            } else {
                Err(CryptoError::InvalidTextEncoding)
            },
        }
    }
}

/// Whether the forward and inverse transforms undo each other on
/// ciphertext block `c`.
pub open spec fn inverts_at(key: Seq<u8>, c: Seq<u8>) -> bool {
    &&& encrypt_block_spec(key, decrypt_block_spec(key, c)) == c
    &&& forall|p: Seq<u8>| p.len() == 16 && #[trigger] encrypt_block_spec(key, p) == c ==> decrypt_block_spec(key, c) == p
}

pub proof fn lemma_pad_len(data: Seq<u8>)
    ensures
        pad_spec(data).len() == data.len() + pad_len_spec(data.len()),
        1 <= pad_len_spec(data.len()) <= 16,
        pad_spec(data).len() % 16 == 0,
        pad_spec(data).len() > data.len(),
{
}

proof fn lemma_encrypt_blocks_shape(key: Seq<u8>, iv: Seq<u8>, data: Seq<u8>, n: nat)
    ensures
        cbc_encrypt_blocks(key, iv, data, n).len() == 16 * n,
        forall|j: int|
            0 <= j < n ==> #[trigger] block_of(cbc_encrypt_blocks(key, iv, data, n), j)
                == cbc_chain_block(key, iv, data, j as nat),
    decreases n,
{
    if n > 0 {
        let m = (n - 1) as nat;
        lemma_encrypt_blocks_shape(key, iv, data, m);
        let prefix = cbc_encrypt_blocks(key, iv, data, m);
        let whole = cbc_encrypt_blocks(key, iv, data, n);
        assert forall|j: int| 0 <= j < n implies #[trigger] block_of(whole, j)
            == cbc_chain_block(key, iv, data, j as nat) by {
            if j < m {
                assert(block_of(whole, j) =~= block_of(prefix, j));
            } else {
                assert(block_of(whole, j) =~= cbc_chain_block(key, iv, data, m));
            }
        }
    }
}

/// Encrypt `plaintext` with AES-256-CBC under `key` and `iv`, after PKCS#7
/// padding. The padded buffer is wiped before returning.
pub fn encrypt_cbc(key: &AesKey, iv: &Iv, plaintext: &str) -> (r: Vec<u8>)
    requires
        encode_utf8(plaintext@).len() + 16 <= usize::MAX,
    ensures
        r@ == encrypt_spec(key@, iv@, encode_utf8(plaintext@)),
        r@.len() % 16 == 0,
        r@.len() > encode_utf8(plaintext@).len(),
{
    let ghost k = key@;
    let cipher = BlockCipher::new(key.as_bytes());
    let bytes: &[u8] = plaintext.as_bytes();
    let mut padded = pad_pkcs7(bytes);
    proof {
        lemma_pad_len(bytes@);
    }
    let ghost p = padded@;
    let n_blocks: usize = padded.len() / 16;
    let mut out: Vec<u8> = Vec::new();
    let mut prev: [u8; 16] = *iv;
    let mut i: usize = 0;
    while i < n_blocks
        invariant
            cipher.key() == k,
            padded@ == p,
            p.len() == 16 * n_blocks,
            p.len() <= usize::MAX,
            i <= n_blocks,
            out@ == cbc_encrypt_blocks(k, iv@, p, i as nat),
            prev@ == (if i == 0 {
                iv@
            } else {
                cbc_chain_block(k, iv@, p, (i - 1) as nat)
            }),
        decreases n_blocks - i,
    {
        let base: usize = 16 * i;
        let mut blk: [u8; 16] = [0u8; 16];
        let mut t: usize = 0;
        while t < 16
            invariant
                padded@ == p,
                p.len() == 16 * n_blocks,
                i < n_blocks,
                base == 16 * i,
                t <= 16,
                blk@.len() == 16,
                forall|u: int| 0 <= u < t ==> blk@[u] == p[base + u] ^ prev@[u],
            decreases 16 - t,
        {
            blk[t] = padded[base + t] ^ prev[t];
            t += 1;
        }
        assert(blk@ =~= xor16(block_of(p, i as int), prev@));
        let c = cipher.encrypt_block(&blk);
        assert(c@ =~= cbc_chain_block(k, iv@, p, i as nat));
        let ghost before = out@;
        let mut t: usize = 0;
        while t < 16
            invariant
                t <= 16,
                c@.len() == 16,
                out@ == before + c@.subrange(0, t as int),
            decreases 16 - t,
        {
            out.push(c[t]);
            t += 1;
            assert(out@ =~= before + c@.subrange(0, t as int));
        }
        assert(c@.subrange(0, 16) =~= c@);
        prev = c;
        i += 1;
    }
    wipe_buffer(&mut padded);
    proof {
        lemma_encrypt_blocks_shape(k, iv@, p, n_blocks as nat);
    }
    out
}

/// The ciphertext of any text is a whole number of blocks, and longer than
/// the text.
pub proof fn lemma_ciphertext_expansion(key: Seq<u8>, iv: Seq<u8>, text: Seq<u8>)
    ensures
        encrypt_spec(key, iv, text).len() % 16 == 0,
        encrypt_spec(key, iv, text).len() > text.len(),
        encrypt_spec(key, iv, text).len() == pad_spec(text).len(),
{
    let p = pad_spec(text);
    lemma_pad_len(text);
    lemma_encrypt_blocks_shape(key, iv, p, p.len() / 16);
}

/// Encryption is a function of key, IV and text: equal inputs give equal
/// ciphertexts.
pub proof fn lemma_encrypt_deterministic(
    key1: Seq<u8>,
    iv1: Seq<u8>,
    text1: Seq<u8>,
    key2: Seq<u8>,
    iv2: Seq<u8>,
    text2: Seq<u8>,
)
    requires
        key1 == key2,
        iv1 == iv2,
        text1 == text2,
    ensures
        encrypt_spec(key1, iv1, text1) == encrypt_spec(key2, iv2, text2),
{
}

proof fn lemma_xor_involution(b: Seq<u8>, c: Seq<u8>)
    requires
        b.len() == 16,
        c.len() == 16,
    ensures
        xor16(xor16(b, c), c) == b,
{
    assert forall|i: int| 0 <= i < 16 implies #[trigger] xor16(xor16(b, c), c)[i] == b[i] by {
        let x = b[i];
        let y = c[i];
        assert((x ^ y) ^ y == x) by (bit_vector);
    }
    assert(xor16(xor16(b, c), c) =~= b);
}

proof fn lemma_decrypt_inverts(key: Seq<u8>, iv: Seq<u8>, p: Seq<u8>, n: nat, ct: Seq<u8>, m: nat)
    requires
        iv.len() == 16,
        p.len() == 16 * n,
        ct == cbc_encrypt_blocks(key, iv, p, n),
        m <= n,
        forall|j: int| 0 <= j < n ==> inverts_at(key, #[trigger] block_of(ct, j)),
    ensures
        cbc_decrypt_blocks(key, iv, ct, m) == p.subrange(0, 16 * m as int),
    decreases m,
{
    if m == 0 {
        assert(p.subrange(0, 0) =~= Seq::<u8>::empty());
    } else {
        let j = (m - 1) as nat;
        lemma_decrypt_inverts(key, iv, p, n, ct, j);
        lemma_encrypt_blocks_shape(key, iv, p, n);
        let prev = if j == 0 {
            iv
        } else {
            cbc_chain_block(key, iv, p, (j - 1) as nat)
        };
        if j > 0 {
            assert(block_of(ct, j - 1) == cbc_chain_block(key, iv, p, (j - 1) as nat));
        }
        let x = xor16(block_of(p, j as int), prev);
        assert(encrypt_block_spec(key, x) == block_of(ct, j as int));
        assert(inverts_at(key, block_of(ct, j as int)));
        assert(decrypt_block_spec(key, block_of(ct, j as int)) == x);
        lemma_xor_involution(block_of(p, j as int), prev);
        assert(cbc_plain_block(key, iv, ct, j as int) == block_of(p, j as int));
        assert(p.subrange(0, 16 * j as int) + block_of(p, j as int) =~= p.subrange(0, 16 * m as int));
    }
}

proof fn lemma_decrypt_blocks_shape(key: Seq<u8>, iv: Seq<u8>, ct: Seq<u8>, n: nat)
    ensures
        cbc_decrypt_blocks(key, iv, ct, n).len() == 16 * n,
        forall|j: int|
            0 <= j < n ==> #[trigger] block_of(cbc_decrypt_blocks(key, iv, ct, n), j)
                == cbc_plain_block(key, iv, ct, j),
    decreases n,
{
    if n > 0 {
        let m = (n - 1) as nat;
        lemma_decrypt_blocks_shape(key, iv, ct, m);
        let prefix = cbc_decrypt_blocks(key, iv, ct, m);
        let whole = cbc_decrypt_blocks(key, iv, ct, n);
        assert forall|j: int| 0 <= j < n implies #[trigger] block_of(whole, j)
            == cbc_plain_block(key, iv, ct, j) by {
            if j < m {
                assert(block_of(whole, j) =~= block_of(prefix, j));
            } else {
                assert(block_of(whole, j) =~= cbc_plain_block(key, iv, ct, m as int));
            }
        }
    }
}

proof fn lemma_encrypt_of_decrypt(key: Seq<u8>, iv: Seq<u8>, ct: Seq<u8>, n: nat, m: nat)
    requires
        iv.len() == 16,
        ct.len() == 16 * n,
        m <= n,
        forall|j: int| 0 <= j < n ==> inverts_at(key, #[trigger] block_of(ct, j)),
    ensures
        cbc_encrypt_blocks(key, iv, cbc_decrypt_blocks(key, iv, ct, n), m) == ct.subrange(0, 16 * m as int),
        m > 0 ==> cbc_chain_block(key, iv, cbc_decrypt_blocks(key, iv, ct, n), (m - 1) as nat)
            == block_of(ct, m - 1),
    decreases m,
{
    let p = cbc_decrypt_blocks(key, iv, ct, n);
    if m == 0 {
        assert(ct.subrange(0, 0) =~= Seq::<u8>::empty());
    } else {
        let j = (m - 1) as nat;
        lemma_encrypt_of_decrypt(key, iv, ct, n, j);
        lemma_decrypt_blocks_shape(key, iv, ct, n);
        let prev = if j == 0 {
            iv
        } else {
            block_of(ct, j - 1)
        };
        let d = decrypt_block_spec(key, block_of(ct, j as int));
        assert(block_of(p, j as int) == xor16(d, prev));
        lemma_xor_involution(d, prev);
        assert(inverts_at(key, block_of(ct, j as int)));
        assert(cbc_chain_block(key, iv, p, j) == block_of(ct, j as int));
        assert(ct.subrange(0, 16 * j as int) + block_of(ct, j as int) =~= ct.subrange(0, 16 * m as int));
    }
}

proof fn lemma_unpad_ok_is_padded(x: Seq<u8>)
    requires
        x.len() % 16 == 0,
        unpad_spec(x) is Ok,
    ensures
        x == pad_spec(unpad_spec(x)->Ok_0),
{
    let p = x.last() as int;
    let b = unpad_spec(x)->Ok_0;
    assert(b.len() == x.len() - p);
    assert(pad_len_spec(b.len()) == p);
    assert forall|j: int| 0 <= j < x.len() implies #[trigger] pad_spec(b)[j] == x[j] by {
        if j >= b.len() {
            assert(x[j] == p as u8);
        }
    }
    assert(pad_spec(b) =~= x);
}

proof fn lemma_unpad_pad(b: Seq<u8>)
    ensures
        unpad_spec(pad_spec(b)) == Ok::<Seq<u8>, CryptoError>(b),
{
    let p = pad_len_spec(b.len());
    let padded = pad_spec(b);
    lemma_pad_len(b);
    assert(padded.last() == p as u8);
    assert(padding_bytes_ok(padded, p as int));
    assert(padded.subrange(0, padded.len() - p) =~= b);
}

/// Decrypt AES-256-CBC `ciphertext` under `key` and `iv`, strip its PKCS#7
/// padding and read it as UTF-8. The recovered buffer is wiped before
/// returning.
///
/// The encryption of any text decrypts to that text, and a text is returned
/// only for the exact encryption of it: a ciphertext altered in any byte
/// is rejected or yields a different text.
pub fn decrypt_cbc(key: &AesKey, iv: &Iv, ciphertext: &[u8]) -> (r: Result<String, CryptoError>)
    ensures
        match (r, decrypt_spec(key@, iv@, ciphertext@)) {
            (Ok(s), Ok(t)) => s@ == t,
            (Err(e), Err(f)) => e == f,
            _ => false,
        },
        forall|m: Seq<char>|
            #[trigger] encrypt_spec(key@, iv@, encode_utf8(m)) == ciphertext@ ==> r is Ok
                && r->Ok_0@ == m,
        r is Ok ==> ciphertext@ == encrypt_spec(key@, iv@, encode_utf8(r->Ok_0@)),
{
    let ghost k = key@;
    let ghost ct = ciphertext@;
    proof {
        assert forall|m: Seq<char>| #[trigger]
            encrypt_spec(k, iv@, encode_utf8(m)) == ct implies ct.len() > 0 && ct.len() % 16
            == 0 by {
            lemma_ciphertext_expansion(k, iv@, encode_utf8(m));
        }
    }
    if ciphertext.len() == 0 || ciphertext.len() % 16 != 0 {
        return Err(CryptoError::InvalidCiphertextLength);
    }
    let cipher = BlockCipher::new(key.as_bytes());
    let n_blocks: usize = ciphertext.len() / 16;
    let mut decrypted: Vec<u8> = Vec::new();
    let mut prev: [u8; 16] = *iv;
    let mut i: usize = 0;
    while i < n_blocks
        invariant
            cipher.key() == k,
            ciphertext@ == ct,
            ct.len() == 16 * n_blocks,
            ct.len() <= usize::MAX,
            i <= n_blocks,
            decrypted@ == cbc_decrypt_blocks(k, iv@, ct, i as nat),
            prev@ == (if i == 0 {
                iv@
            } else {
                block_of(ct, i - 1)
            }),
            forall|j: int| 0 <= j < i ==> inverts_at(k, #[trigger] block_of(ct, j)),
        decreases n_blocks - i,
    {
        let base: usize = 16 * i;
        let mut cb: [u8; 16] = [0u8; 16];
        let mut t: usize = 0;
        while t < 16
            invariant
                ciphertext@ == ct,
                ct.len() == 16 * n_blocks,
                i < n_blocks,
                base == 16 * i,
                t <= 16,
                cb@.len() == 16,
                forall|u: int| 0 <= u < t ==> cb@[u] == ct[base + u],
            decreases 16 - t,
        {
            cb[t] = ciphertext[base + t];
            t += 1;
        }
        assert(cb@ =~= block_of(ct, i as int));
        let d = cipher.decrypt_block(&cb);
        assert(d@ =~= decrypt_block_spec(k, cb@));
        assert(inverts_at(k, cb@));
        let mut pb: [u8; 16] = [0u8; 16];
        let mut t: usize = 0;
        while t < 16
            invariant
                t <= 16,
                pb@.len() == 16,
                d@.len() == 16,
                prev@.len() == 16,
                forall|u: int| 0 <= u < t ==> pb@[u] == d@[u] ^ prev@[u],
            decreases 16 - t,
        {
            pb[t] = d[t] ^ prev[t];
            t += 1;
        }
        assert(pb@ =~= cbc_plain_block(k, iv@, ct, i as int));
        let ghost before = decrypted@;
        let mut t: usize = 0;
        while t < 16
            invariant
                t <= 16,
                pb@.len() == 16,
                decrypted@ == before + pb@.subrange(0, t as int),
            decreases 16 - t,
        {
            decrypted.push(pb[t]);
            t += 1;
            assert(decrypted@ =~= before + pb@.subrange(0, t as int));
        }
        assert(pb@.subrange(0, 16) =~= pb@);
        prev = cb;
        i += 1;
    }
    let unpadded = unpad_pkcs7(decrypted.as_slice());
    wipe_buffer(&mut decrypted);
    proof {
        assert forall|m: Seq<char>| #[trigger]
            encrypt_spec(k, iv@, encode_utf8(m)) == ct implies decrypt_spec(k, iv@, ct)
            == Ok::<Seq<char>, CryptoError>(m) by {
            let b = encode_utf8(m);
            let p = pad_spec(b);
            lemma_pad_len(b);
            let n = p.len() / 16;
            lemma_encrypt_blocks_shape(k, iv@, p, n);
            lemma_decrypt_inverts(k, iv@, p, n, ct, n);
            assert(p.subrange(0, 16 * n as int) =~= p);
            lemma_unpad_pad(b);
        }
        let x = cbc_decrypt_blocks(k, iv@, ct, n_blocks as nat);
        if unpad_spec(x) is Ok {
            let b = unpad_spec(x)->Ok_0;
            lemma_decrypt_blocks_shape(k, iv@, ct, n_blocks as nat);
            lemma_unpad_ok_is_padded(x);
            lemma_encrypt_of_decrypt(k, iv@, ct, n_blocks as nat, n_blocks as nat);
            assert(ct.subrange(0, 16 * n_blocks as int) =~= ct);
            assert(encrypt_spec(k, iv@, b) == ct);
        }
    }
    match unpadded {
        Err(e) => Err(e),
        Ok(v) => {
            let ghost b = v@;
            match string_from_utf8(v) {
                Ok(s) => {
                    proof {
                        vstd::utf8::decode_utf8_encode_utf8(b);
                    }
                    Ok(s)
                },
                Err(mut bytes) => {
                    wipe_buffer(&mut bytes);
                    Err(CryptoError::InvalidTextEncoding)
                },
            }
        },
    }
}

} // verus!
