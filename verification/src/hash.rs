//! Content hashes: SHA-256 digests written as lowercase hexadecimal.

use vstd::prelude::*;
use sha2::{Digest, Sha256};

verus! {

/// The SHA-256 digest of a byte sequence.
pub uninterp spec fn sha256_digest(data: Seq<u8>) -> Seq<u8>;

/// `sha2::Sha256::digest`. Claims that the digest is a function of the
/// input and is 32 bytes long (the output size of SHA-256). The digest's
/// bytes themselves are not stated.
#[verifier::external_body]
fn sha256(data: &[u8]) -> (r: Vec<u8>)
    ensures
        r@ == sha256_digest(data@),
        r@.len() == 32,
{
    Sha256::digest(data).to_vec()
}

/// A lowercase hexadecimal digit.
pub open spec fn hex_digit(n: u8) -> char {
    if n < 10 {
        ((n + 48) as u8) as char
    } else {
        ((n - 10 + 97) as u8) as char
    }
}

/// Bytes written as lowercase hexadecimal, two digits per byte, high
/// nibble first (`{:x}` of a digest).
pub open spec fn hex_of(bytes: Seq<u8>) -> Seq<char>
    decreases bytes.len(),
{
    if bytes.len() == 0 {
        Seq::empty()
    } else {
        hex_of(bytes.drop_last()).push(hex_digit(bytes.last() / 16)).push(
            hex_digit(bytes.last() % 16),
        )
    }
}

fn hex_char(n: u8) -> (c: char)
    requires
        n < 16,
    ensures
        c == hex_digit(n),
{
    if n < 10 {
        (n + 48) as char
    } else {
        (n - 10 + 97) as char
    }
}

/// Bytes as lowercase hexadecimal.
pub fn to_hex(bytes: &Vec<u8>) -> (r: String)
    ensures
        r@ == hex_of(bytes@),
        r@.len() == 2 * bytes@.len(),
{
    let mut r = String::new();
    let mut i: usize = 0;
    while i < bytes.len()
        invariant
            i <= bytes.len(),
            r@ == hex_of(bytes@.take(i as int)),
            r@.len() == 2 * i,
        decreases bytes.len() - i,
    {
        assert(bytes@.take(i + 1 as int).drop_last() =~= bytes@.take(i as int));
        let b = bytes[i];
        r.push(hex_char(b / 16));
        r.push(hex_char(b % 16));
        i += 1;
    }
    assert(bytes@.take(bytes.len() as int) =~= bytes@);
    r
}

/// The SHA-256 content hash used to key the cache: the digest of the
/// content as 64 lowercase hexadecimal digits.
pub fn content_hash(content: &[u8]) -> (r: String)
    ensures
        r@ == hex_of(sha256_digest(content@)),
        r@.len() == 64,
{
    let digest = sha256(content);
    to_hex(&digest)
}

/// A content hash is made of lowercase hexadecimal digits, two per digest
/// byte, and depends on the content alone: equal contents hash equally.
pub proof fn lemma_hex_digits(bytes: Seq<u8>, other: Seq<u8>)
    ensures
        bytes == other ==> hex_of(sha256_digest(bytes)) == hex_of(sha256_digest(other)),
        hex_of(bytes).len() == 2 * bytes.len(),
        forall|k: int|
            0 <= k < hex_of(bytes).len() ==> ('0' <= #[trigger] hex_of(bytes)[k] <= '9') || ('a'
                <= hex_of(bytes)[k] <= 'f'),
    decreases bytes.len(),
{
    if bytes.len() > 0 {
        lemma_hex_digits(bytes.drop_last(), other);
        let b = bytes.last();
        assert(b / 16 < 16 && b % 16 < 16);
    }
}

} // verus!
