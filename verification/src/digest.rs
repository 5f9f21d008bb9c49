//! Content fingerprints: SHA-1 and SHA-256 digests in hexadecimal.

use crate::text::{hex_lower, hex_of};
use vstd::prelude::*;

verus! {

/// The SHA-1 digest of `data`.
pub uninterp spec fn sha1_of(data: Seq<u8>) -> Seq<u8>;

/// The SHA-256 digest of `data`.
pub uninterp spec fn sha256_of(data: Seq<u8>) -> Seq<u8>;

/// Length of a SHA-1 digest, in bytes.
pub const SHA1_LENGTH: usize = 20;

/// Length of a SHA-256 digest, in bytes.
pub const SHA256_LENGTH: usize = 32;

/// Calls `sha1::Sha1::digest`, which hashes `data` in one step. The result is
/// the SHA-1 digest of the data, which has twenty bytes.
#[verifier::external_body]
fn sha1_digest(data: &[u8]) -> (r: Vec<u8>)
    ensures
        r@ == sha1_of(data@),
        r@.len() == SHA1_LENGTH,
{
    <sha1::Sha1 as sha1::Digest>::digest(data).to_vec()
}

/// Calls `sha2::Sha256::digest`, which hashes `data` in one step. The result
/// is the SHA-256 digest of the data, which has thirty-two bytes.
#[verifier::external_body]
fn sha256_digest(data: &[u8]) -> (r: Vec<u8>)
    ensures
        r@ == sha256_of(data@),
        r@.len() == SHA256_LENGTH,
{
    <sha2::Sha256 as sha2::Digest>::digest(data).to_vec()
}

/// The SHA-1 digest of `data` as forty hexadecimal digits in lower case.
pub fn sha1_hex(data: &[u8]) -> (r: String)
    ensures
        r@ == hex_of(sha1_of(data@)),
        r@.len() == 2 * SHA1_LENGTH,
{
    let digest = sha1_digest(data);
    hex_lower(digest.as_slice())
}

/// The SHA-256 digest of `data` as sixty-four hexadecimal digits in lower
/// case.
pub fn sha256_hex(data: &[u8]) -> (r: String)
    ensures
        r@ == hex_of(sha256_of(data@)),
        r@.len() == 2 * SHA256_LENGTH,
{
    let digest = sha256_digest(data);
    hex_lower(digest.as_slice())
}

/// The `n` low bytes of `value`, the most significant first.
pub open spec fn be_bytes(value: nat, n: nat) -> Seq<u8>
    decreases n,
{
    if n == 0 {
        Seq::<u8>::empty()
    } else {
        be_bytes(value / 256, (n - 1) as nat).push((value % 256) as u8)
    }
}

/// The unsigned number with the same 64 bits as `x` in two's complement.
pub open spec fn bits64(x: i64) -> nat {
    if x >= 0 {
        x as nat
    } else {
        (x + 0x1_0000_0000_0000_0000) as nat
    }
}

/// The unsigned number with the same 32 bits as `x` in two's complement.
pub open spec fn bits32(x: i32) -> nat {
    if x >= 0 {
        x as nat
    } else {
        (x + 0x1_0000_0000) as nat
    }
}

/// Calls `i64::to_be_bytes`, which gives the eight bytes of the two's
/// complement representation, the most significant first.
#[verifier::external_body]
fn be_bytes_i64(x: i64) -> (r: [u8; 8])
    ensures
        r@ == be_bytes(bits64(x), 8),
{
    x.to_be_bytes()
}

/// Calls `i32::to_be_bytes`, which gives the four bytes of the two's
/// complement representation, the most significant first.
#[verifier::external_body]
fn be_bytes_i32(x: i32) -> (r: [u8; 4])
    ensures
        r@ == be_bytes(bits32(x), 4),
{
    x.to_be_bytes()
}

/// The bytes that a session token is derived from: the clock reading and the
/// user, each in big-endian order.
pub open spec fn session_seed(timestamp: i64, user_id: i32) -> Seq<u8> {
    be_bytes(bits64(timestamp), 8) + be_bytes(bits32(user_id), 4)
}

/// The token of a session opened for `user_id` at `timestamp` (seconds): the
/// SHA-256 digest of the two numbers, in hexadecimal.
pub fn session_token(timestamp: i64, user_id: i32) -> (r: String)
    ensures
        r@ == hex_of(sha256_of(session_seed(timestamp, user_id))),
        r@.len() == 2 * SHA256_LENGTH,
{
    let high = be_bytes_i64(timestamp);
    let low = be_bytes_i32(user_id);
    let mut seed: Vec<u8> = Vec::with_capacity(12);
    let mut i: usize = 0;
    while i < 8
        invariant
            i <= 8,
            seed@ == high@.take(i as int),
        decreases 8 - i,
    {
        seed.push(high[i]);
        i += 1;
        assert(high@.take(i as int) == high@.take(i - 1).push(high@[i - 1]));
    }
    assert(high@.take(8) == high@);
    let mut j: usize = 0;
    while j < 4
        invariant
            j <= 4,
            seed@ == high@ + low@.take(j as int),
        decreases 4 - j,
    {
        seed.push(low[j]);
        j += 1;
        assert(low@.take(j as int) == low@.take(j - 1).push(low@[j - 1]));
        assert(seed@ =~= high@ + low@.take(j as int));
    }
    assert(low@.take(4) == low@);
    sha256_hex(seed.as_slice())
}

} // verus!
