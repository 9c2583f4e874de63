//! Digests of a sequence of bytes, written in hexadecimal.

use crate::trusted::{md5_bytes, md5_of, sha256_bytes, sha256_of};
use vstd::prelude::*;

verus! {

/// The hexadecimal digit for `nibble`, in lower case.
pub open spec fn hex_digit(nibble: nat) -> char
    recommends
        nibble < 16,
{
    if nibble < 10 {
        ('0' as int + nibble) as char
    } else {
        ('a' as int + nibble - 10) as char
    }
}

/// The bytes written in hexadecimal: two digits in lower case for each byte,
/// the high half first.
pub open spec fn hex_lower(bytes: Seq<u8>) -> Seq<char>
    decreases bytes.len(),
{
    if bytes.len() == 0 {
        Seq::empty()
    } else {
        hex_lower(bytes.drop_last()).push(hex_digit(bytes.last() as nat / 16)).push(
            hex_digit(bytes.last() as nat % 16),
        )
    }
}

/// Hexadecimal text has two characters for each byte.
pub proof fn lemma_hex_lower_len(bytes: Seq<u8>)
    ensures
        hex_lower(bytes).len() == 2 * bytes.len(),
    decreases bytes.len(),
{
    if bytes.len() > 0 {
        lemma_hex_lower_len(bytes.drop_last());
    }
}

/// The hexadecimal digit for `nibble`, in lower case.
pub fn hex_digit_char(nibble: u8) -> (c: char)
    requires
        nibble < 16,
    ensures
        c == hex_digit(nibble as nat),
{
    if nibble < 10 {
        (48u8 + nibble) as char
    } else {
        (87u8 + nibble) as char
    }
}

/// Writes the bytes in hexadecimal.
pub fn to_hex_lower(bytes: &[u8]) -> (text: String)
    ensures
        text@ == hex_lower(bytes@),
{
    let mut text = String::new();
    let mut at: usize = 0;
    while at < bytes.len()
        invariant
            at <= bytes@.len(),
            text@ == hex_lower(bytes@.take(at as int)),
        decreases bytes@.len() - at,
    {
        let byte = bytes[at];
        proof {
            let next = bytes@.take(at + 1);
            assert(next.drop_last() =~= bytes@.take(at as int));
            assert(next.last() == byte);
        }
        text.push(hex_digit_char(byte / 16));
        text.push(hex_digit_char(byte % 16));
        at += 1;
    }
    assert(bytes@.take(at as int) =~= bytes@);
    text
}

/// The SHA-256 digest of `data` in hexadecimal, and the number of bytes that
/// were digested.
pub fn compute_hash_sha256(data: &[u8]) -> (hashed: (String, u64))
    ensures
        hashed.0@ == hex_lower(sha256_of(data@)),
        hashed.1 == data@.len(),
{
    let digest = sha256_bytes(data);
    (to_hex_lower(digest.as_slice()), data.len() as u64)
}

/// The MD5 digest of `data` in hexadecimal, and the number of bytes that were
/// digested.
pub fn compute_hash_md5(data: &[u8]) -> (hashed: (String, u64))
    ensures
        hashed.0@ == hex_lower(md5_of(data@)),
        hashed.1 == data@.len(),
{
    let digest = md5_bytes(data);
    (to_hex_lower(digest.as_slice()), data.len() as u64)
}

} // verus!
