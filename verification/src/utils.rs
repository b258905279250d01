use vstd::prelude::*;
use sha2::Digest;

verus! {

/// The SHA-256 digest of a byte sequence, as the `sha2` crate computes it.
/// The digest depends on the input bytes alone.
pub uninterp spec fn sha256_of(data: Seq<u8>) -> Seq<u8>;

/// Relies on sha2::Sha256 (through Digest::digest): a 32-byte digest of the
/// input, a function of the input bytes alone.
#[verifier::external_body]
fn sha256(data: &[u8]) -> (r: Vec<u8>)
    ensures
        r@ == sha256_of(data@),
        r@.len() == 32,
{
    sha2::Sha256::digest(data).to_vec()
}

/// The lowercase hex character for a nibble value.
pub open spec fn hex_char(n: u8) -> char {
    match n {
        0 => '0',
        1 => '1',
        2 => '2',
        3 => '3',
        4 => '4',
        5 => '5',
        6 => '6',
        7 => '7',
        8 => '8',
        9 => '9',
        10 => 'a',
        11 => 'b',
        12 => 'c',
        13 => 'd',
        14 => 'e',
        15 => 'f',
        _ => '0',
    }
}

/// The lowercase hex rendering of a byte sequence: two characters per byte,
/// high nibble first.
pub open spec fn hex_of(bytes: Seq<u8>) -> Seq<char> {
    Seq::new(
        2 * bytes.len(),
        |i: int|
            if i % 2 == 0 {
                hex_char(bytes[i / 2] >> 4u8)
            } else {
                hex_char(bytes[i / 2] & 0x0fu8)
            },
    )
}

/// Relies on hex::encode: a lowercase hex string, two digits per byte, high
/// nibble first.
#[verifier::external_body]
fn hex_encode(bytes: &[u8]) -> (r: String)
    ensures
        r@ == hex_of(bytes@),
{
    hex::encode(bytes)
}

/// The content hash used throughout the chain: the SHA-256 digest of the
/// given bytes, rendered as 64 lowercase hex characters.
pub open spec fn spec_hash_hex(data: Seq<u8>) -> Seq<char> {
    hex_of(sha256_of(data))
}

/// Hashes arbitrary serialized bytes into their lowercase hex SHA-256 digest.
pub fn calculate_hash(data: &[u8]) -> (r: String)
    ensures
        r@ == spec_hash_hex(data@),
        r@.len() == 64,
{
    let digest = sha256(data);
    hex_encode(digest.as_slice())
}

/// Relies on std::time::SystemTime: the current time in milliseconds since
/// the Unix epoch. The result depends on the clock; nothing is promised of
/// it.
#[verifier::external_body]
pub fn now() -> u128 {
    std::time::SystemTime::now().duration_since(std::time::SystemTime::UNIX_EPOCH).map(
        |d| d.as_millis(),
    ).unwrap_or(0)
}

} // verus!
