//! What this library takes on trust: the contracts below are stated, not
//! proved. Each one describes a function that is defined elsewhere.

use md5::Md5;
use sha2::{Digest, Sha256};
use vstd::prelude::*;

verus! {

/// `String::push` of the standard library appends the character to the end of
/// the string.
pub assume_specification[ String::push ](s: &mut String, c: char)
    ensures
        final(s)@ == old(s)@.push(c),
;

/// The SHA-256 digest of `data`, as the `sha2` crate computes it.
pub uninterp spec fn sha256_of(data: Seq<u8>) -> Seq<u8>;

/// The MD5 digest of `data`, as the `md-5` crate computes it.
pub uninterp spec fn md5_of(data: Seq<u8>) -> Seq<u8>;

/// `Sha256::digest` of the `sha2` crate: a new hasher takes the whole of `data`
/// and is finalized. The bytes that it hands out are a function of `data`
/// alone; nothing else is claimed of them.
#[verifier::external_body]
pub(crate) fn sha256_bytes(data: &[u8]) -> (digest: Vec<u8>)
    ensures
        digest@ == sha256_of(data@),
{
    Sha256::digest(data).to_vec()
}

/// `Md5::digest` of the `md-5` crate: a new hasher takes the whole of `data`
/// and is finalized. The bytes that it hands out are a function of `data`
/// alone; nothing else is claimed of them.
#[verifier::external_body]
pub(crate) fn md5_bytes(data: &[u8]) -> (digest: Vec<u8>)
    ensures
        digest@ == md5_of(data@),
{
    Md5::digest(data).to_vec()
}

} // verus!
