//! PKCS#7 padding over 16-byte blocks.
use vstd::prelude::*;

verus! {

/// Block size of the cipher, in bytes.
pub const BLOCK_SIZE: usize = 16;

/// Errors of the block cipher engine.
#[derive(Debug, Clone, Copy, PartialEq, Eq, Structural)]
pub enum CryptoError {
    /// The ciphertext is empty or not a whole number of blocks.
    InvalidCiphertextLength,
    /// The last byte names a padding length of zero, above the block size,
    /// or above the length of the data.
    InvalidPaddingLength,
    /// A padding byte differs from the padding length.
    InvalidPaddingBytes,
    /// The unpadded plaintext is not valid UTF-8.
    InvalidTextEncoding,
}

impl CryptoError {
    /// A human-readable description of the error.
    pub fn message(&self) -> (r: &'static str)
        ensures
            r@ == self.message_spec(),
    {
        match self {
            CryptoError::InvalidCiphertextLength => "Invalid ciphertext length",
            CryptoError::InvalidPaddingLength => "Invalid padding length",
            CryptoError::InvalidPaddingBytes => "Invalid padding bytes",
            CryptoError::InvalidTextEncoding => "Invalid UTF-8",
        }
    }

    pub open spec fn message_spec(&self) -> Seq<char> {
        match self {
            CryptoError::InvalidCiphertextLength => "Invalid ciphertext length"@,
            CryptoError::InvalidPaddingLength => "Invalid padding length"@,
            CryptoError::InvalidPaddingBytes => "Invalid padding bytes"@,
            CryptoError::InvalidTextEncoding => "Invalid UTF-8"@,
        }
    }
}

/// Number of padding bytes appended to data of length `len`: always 1 to 16.
pub open spec fn pad_len_spec(len: nat) -> nat {
    (16 - len % 16) as nat
}

/// The PKCS#7 padding of `data`: `p` copies of the byte `p`, where `p` is
/// the padding length.
pub open spec fn pad_spec(data: Seq<u8>) -> Seq<u8> {
    let p = pad_len_spec(data.len());
    data + Seq::new(p, |_i: int| p as u8)
}

/// Whether every one of the last `p` bytes of `data` equals `p`.
pub open spec fn padding_bytes_ok(data: Seq<u8>, p: int) -> bool {
    forall|j: int| data.len() - p <= j < data.len() ==> data[j] == p as u8
}

/// Strip PKCS#7 padding, or say why it is malformed.
pub open spec fn unpad_spec(data: Seq<u8>) -> Result<Seq<u8>, CryptoError> {
    if data.len() == 0 {
        Err(CryptoError::InvalidPaddingLength)
    } else {
        let p = data.last() as int;
        if p == 0 || p > 16 || p > data.len() {
            Err(CryptoError::InvalidPaddingLength)
        } else if padding_bytes_ok(data, p) {
            Ok(data.subrange(0, data.len() - p))
        } else {
            Err(CryptoError::InvalidPaddingBytes)
        }
    }
}

/// Append PKCS#7 padding to `data`; a full block is added when `data` is
/// already a whole number of blocks.
pub fn pad_pkcs7(data: &[u8]) -> (r: Vec<u8>)
    requires
        data@.len() + BLOCK_SIZE <= usize::MAX,
    ensures
        r@ == pad_spec(data@),
{
    let pad_len: usize = BLOCK_SIZE - (data.len() % BLOCK_SIZE);
    let mut padded: Vec<u8> = Vec::new();
    let mut i: usize = 0;
    while i < data.len()
        invariant
            i <= data@.len(),
            padded@ == data@.subrange(0, i as int),
        decreases data@.len() - i,
    {
        padded.push(data[i]);
        i += 1;
    }
    let mut k: usize = 0;
    while k < pad_len
        invariant
            pad_len == pad_len_spec(data@.len()),
            1 <= pad_len <= 16,
            k <= pad_len,
            padded@ == data@ + Seq::new(k as nat, |_i: int| pad_len as u8),
        decreases pad_len - k,
    {
        padded.push(pad_len as u8);
        k += 1;
        assert(padded@ =~= data@ + Seq::new(k as nat, |_i: int| pad_len as u8));
    }
    padded
}

/// Validate and strip PKCS#7 padding. Every padding byte is examined, with
/// no early exit on the first mismatch.
pub fn unpad_pkcs7(data: &[u8]) -> (r: Result<Vec<u8>, CryptoError>)
    ensures
        match (r, unpad_spec(data@)) {
            (Ok(v), Ok(s)) => v@ == s,
            (Err(e), Err(f)) => e == f,
            _ => false,
        },
{
    if data.len() == 0 {
        return Err(CryptoError::InvalidPaddingLength);
    }
    let pad_len: usize = data[data.len() - 1] as usize;
    if pad_len == 0 || pad_len > BLOCK_SIZE || pad_len > data.len() {
        return Err(CryptoError::InvalidPaddingLength);
    }
    let start: usize = data.len() - pad_len;
    let pad_byte: u8 = pad_len as u8;
    let mut diff: u8 = 0;
    let mut j: usize = start;
    while j < data.len()
        invariant
            start == data@.len() - pad_len,
            start <= j <= data@.len(),
            pad_len == data@.last() as int,
            pad_byte == pad_len as u8,
            (diff == 0) == (forall|t: int| start <= t < j ==> data@[t] == pad_byte),
        decreases data@.len() - j,
    {
        let x: u8 = data[j];
        assert((diff | (x ^ pad_byte)) == 0u8 <==> (diff == 0u8 && x == pad_byte)) by (bit_vector);
        diff = diff | (x ^ pad_byte);
        j += 1;
    }
    if diff != 0 {
        return Err(CryptoError::InvalidPaddingBytes);
    }
    let mut out: Vec<u8> = Vec::new();
    let mut i: usize = 0;
    while i < start
        invariant
            start <= data@.len(),
            i <= start,
            out@ == data@.subrange(0, i as int),
        decreases start - i,
    {
        out.push(data[i]);
        i += 1;
    }
    Ok(out)
}

/// Unpadding tells apart any two buffers of one length: where a buffer
/// unpads to some text, every other buffer of its length either fails the
/// padding check or unpads to a different text. So a change to the recovered
/// bytes is never accepted as the plaintext that was padded.
pub proof fn lemma_unpad_detects_change(a: Seq<u8>, b: Seq<u8>)
    requires
        a.len() == b.len(),
        a != b,
        unpad_spec(a) is Ok,
    ensures
        unpad_spec(b) != unpad_spec(a),
{
    if unpad_spec(b) == unpad_spec(a) {
        let x = unpad_spec(a)->Ok_0;
        let p = a.last() as int;
        let q = b.last() as int;
        assert(a.subrange(0, a.len() - p).len() == x.len());
        assert(b.subrange(0, b.len() - q).len() == x.len());
        assert(p == q);
        assert forall|j: int| 0 <= j < a.len() implies a[j] == b[j] by {
            if j < a.len() - p {
                assert(a[j] == a.subrange(0, a.len() - p)[j]);
                assert(b[j] == b.subrange(0, b.len() - q)[j]);
            }
        }
        assert(a =~= b);
    }
}

} // verus!
