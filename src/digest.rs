use vstd::prelude::*;

verus! {

/// The SHA-512 digest of a byte sequence.
pub uninterp spec fn sha512_of(data: Seq<u8>) -> Seq<u8>;

/// Relies on sha2's `Sha512::digest`: the 64-byte SHA-512 digest of `data`.
#[verifier::external_body]
fn sha512(data: &Vec<u8>) -> (r: Vec<u8>)
    ensures
        r@ == sha512_of(data@),
        r@.len() == 64,
{
    <sha2::Sha512 as sha2::Digest>::digest(data.as_slice()).to_vec()
}

/// The lowercase hexadecimal digit for a value below 16.
pub open spec fn hex_digit(n: int) -> char {
    seq!['0', '1', '2', '3', '4', '5', '6', '7', '8', '9', 'a', 'b', 'c', 'd', 'e', 'f'][n]
}

/// Each byte written as two lowercase hexadecimal digits, high digit first.
pub open spec fn hex_lower(b: Seq<u8>) -> Seq<char>
    decreases b.len(),
{
    if b.len() == 0 {
        seq![]
    } else {
        hex_lower(b.drop_last()) + seq![hex_digit(b.last() as int / 16), hex_digit(b.last() as int % 16)]
    }
}

/// Relies on hex's `encode`: each byte as two lowercase hexadecimal digits,
/// in order.
#[verifier::external_body]
fn hex_encode(b: &Vec<u8>) -> (r: String)
    ensures
        r@ == hex_lower(b@),
{
    hex::encode(b)
}

/// The content hash of a document: its SHA-512 digest in lowercase hexadecimal.
pub open spec fn content_hash_of(data: Seq<u8>) -> Seq<char> {
    hex_lower(sha512_of(data))
}

/// The content hash of a document: its SHA-512 digest in lowercase hexadecimal.
pub fn content_hash(data: &Vec<u8>) -> (r: String)
    ensures
        r@ == content_hash_of(data@),
{
    let digest = sha512(data);
    hex_encode(&digest)
}

} // verus!
