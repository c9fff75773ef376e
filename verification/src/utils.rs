//! The few places the library meets the outside world's values: the wall
//! clock, random bytes, the SHA-1 digest and its hex spelling — each behind
//! one small trusted call, with the verified composition on top.

use vstd::prelude::*;

verus! {

/// Relies on std::time::SystemTime::now (read through duration_since and
/// as_millis): the wall clock as milliseconds since the Unix epoch. Nothing
/// is promised of the value; callers state what holds for every reading.
#[verifier::external_body]
pub fn current_time_ms() -> u64 {
    std::time::SystemTime::now().duration_since(std::time::SystemTime::UNIX_EPOCH).map(
        |d| d.as_millis() as u64,
    ).unwrap_or(0)
}

/// Relies on rand::random: twenty bytes from the thread-local generator.
/// Only the count is promised; the values depend on the generator's state.
#[verifier::external_body]
fn random_bytes_20() -> (r: Vec<u8>)
    ensures
        r@.len() == 20,
{
    let bytes: [u8; 20] = rand::random();
    bytes.to_vec()
}

/// What SHA-1 digests to: a function of the input bytes alone.
pub uninterp spec fn sha1_of(bytes: Seq<u8>) -> Seq<u8>;

/// Relies on sha1::Sha1 through its Digest impl: the 20-byte SHA-1 digest of
/// the input, a function of the input alone.
#[verifier::external_body]
fn sha1_digest(data: &[u8]) -> (r: Vec<u8>)
    ensures
        r@ == sha1_of(data@),
        r@.len() == 20,
{
    let digest = <sha1::Sha1 as sha1::Digest>::digest(data);
    digest.to_vec()
}

/// The lowercase hex digit of a value below 16.
pub open spec fn hex_char(n: u8) -> u8 {
    if n < 10 {
        (48 + n) as u8
    } else {
        (87 + n) as u8
    }
}

/// Lowercase hex of a byte string: two digits per byte, high nibble first.
pub open spec fn hex_of(bytes: Seq<u8>) -> Seq<u8>
    decreases bytes.len(),
{
    if bytes.len() == 0 {
        Seq::empty()
    } else {
        hex_of(bytes.drop_last()) + seq![
            hex_char(bytes.last() / 16),
            hex_char(bytes.last() % 16),
        ]
    }
}

/// A lowercase hex digit: `0`–`9` or `a`–`f`.
pub open spec fn is_hex_digit(b: u8) -> bool {
    (48 <= b <= 57) || (97 <= b <= 102)
}

/// Relies on hex::encode: two lowercase digits per input byte, in input
/// order.
#[verifier::external_body]
fn hex_encode(data: &[u8]) -> (r: Vec<u8>)
    ensures
        r@ == hex_of(data@),
{
    hex::encode(data).into_bytes()
}

/// Every character of a hex spelling is a lowercase hex digit, two per byte.
pub proof fn lemma_hex_of_props(bytes: Seq<u8>)
    ensures
        hex_of(bytes).len() == 2 * bytes.len(),
        forall|i: int|
            0 <= i < hex_of(bytes).len() ==> is_hex_digit(#[trigger] hex_of(bytes)[i]),
    decreases bytes.len(),
{
    if bytes.len() > 0 {
        lemma_hex_of_props(bytes.drop_last());
    }
}

/// The lowercase hex spelling of the SHA-1 digest of the input.
pub fn sha1_hex(data: &[u8]) -> (r: Vec<u8>)
    ensures
        r@ == hex_of(sha1_of(data@)),
        r@.len() == 40,
        forall|i: int| 0 <= i < r@.len() ==> is_hex_digit(#[trigger] r@[i]),
{
    let digest = sha1_digest(data);
    let out = hex_encode(digest.as_slice());
    proof {
        lemma_hex_of_props(digest@);
    }
    out
}

/// A fresh 40-hex-character replication id: the hex SHA-1 of twenty random
/// bytes. Its length and alphabet hold of every outcome.
pub fn random_sha1_hex() -> (r: Vec<u8>)
    ensures
        r@.len() == 40,
        forall|i: int| 0 <= i < r@.len() ==> is_hex_digit(#[trigger] r@[i]),
{
    let seed = random_bytes_20();
    sha1_hex(seed.as_slice())
}

} // verus!
