//! Content fingerprints: the SHA-1 digest of a text or of a file's bytes,
//! written as forty lower-case hexadecimal digits.

use vstd::prelude::*;
use vstd::string::StringSliceAdditionalSpecFns;
use sha1::{Digest, Sha1};
use crate::text::chars_string;

verus! {

/// The SHA-1 digest of `data`, as the `sha1` crate computes it.
pub uninterp spec fn sha1_digest(data: Seq<u8>) -> Seq<u8>;

/// `sha1::Sha1::digest`: the digest of the bytes, which for SHA-1 is twenty
/// bytes long.
#[verifier::external_body]
fn digest_bytes(data: &[u8]) -> (digest: Vec<u8>)
    ensures
        digest@ == sha1_digest(data@),
        digest@.len() == 20,
{
    Sha1::digest(data).to_vec()
}

/// Computes the SHA-1 digest of a run of bytes: twenty bytes.
pub fn sha1_bytes(data: &[u8]) -> (digest: Vec<u8>)
    ensures
        digest@ == sha1_digest(data@),
        digest@.len() == 20,
{
    digest_bytes(data)
}

/// The lower-case hexadecimal digit of a value below sixteen.
pub open spec fn hex_digit(n: int) -> char {
    if n == 0 {
        '0'
    } else if n == 1 {
        '1'
    } else if n == 2 {
        '2'
    } else if n == 3 {
        '3'
    } else if n == 4 {
        '4'
    } else if n == 5 {
        '5'
    } else if n == 6 {
        '6'
    } else if n == 7 {
        '7'
    } else if n == 8 {
        '8'
    } else if n == 9 {
        '9'
    } else if n == 10 {
        'a'
    } else if n == 11 {
        'b'
    } else if n == 12 {
        'c'
    } else if n == 13 {
        'd'
    } else if n == 14 {
        'e'
    } else {
        'f'
    }
}

/// Whether `c` is a lower-case hexadecimal digit.
pub open spec fn is_hex_digit(c: char) -> bool {
    ('0' <= c && c <= '9') || ('a' <= c && c <= 'f')
}

/// The bytes written as hexadecimal digits, two for each byte, the high half first.
pub open spec fn hex_lower(bytes: Seq<u8>) -> Seq<char> {
    Seq::new(
        2 * bytes.len(),
        |i: int|
            if i % 2 == 0 {
                hex_digit(bytes[i / 2] as int / 16)
            } else {
                hex_digit(bytes[i / 2] as int % 16)
            },
    )
}

/// A hexadecimal rendering holds nothing but hexadecimal digits.
pub proof fn lemma_hex_lower_digits(bytes: Seq<u8>)
    ensures
        hex_lower(bytes).len() == 2 * bytes.len(),
        forall|i: int| 0 <= i < hex_lower(bytes).len() ==> is_hex_digit(#[trigger] hex_lower(bytes)[i]),
{
}

/// The lower-case hexadecimal digit of `n`.
pub fn hex_char(n: u8) -> (c: char)
    requires
        n < 16,
    ensures
        c == hex_digit(n as int),
{
    match n {
        0 => '0',
        1 => '1',
        2 => '2',
        3 => '3',
        4 => '4',
        5 => '5',
        6 => '6',
        7 => '7',
        8 => '8',
        9 => '9',
        10 => 'a',
        11 => 'b',
        12 => 'c',
        13 => 'd',
        14 => 'e',
        _ => 'f',
    }
}

/// Writes bytes as lower-case hexadecimal digits.
pub fn to_hex(bytes: &Vec<u8>) -> (out: String)
    ensures
        out@ == hex_lower(bytes@),
{
    let mut digits: Vec<char> = Vec::new();
    let mut i: usize = 0;
    while i < bytes.len()
        invariant
            i <= bytes.len(),
            digits.len() == 2 * i,
            forall|k: int| 0 <= k < digits.len() ==> digits@[k] == hex_lower(bytes@)[k],
        decreases bytes.len() - i,
    {
        let b = bytes[i];
        digits.push(hex_char(b / 16));
        digits.push(hex_char(b % 16));
        i += 1;
    }
    let out = chars_string(&digits, 0, digits.len());
    assert(out@ =~= hex_lower(bytes@));
    out
}

/// The fingerprint of the bytes `data`: the hexadecimal rendering of their digest.
pub open spec fn fingerprint_of_bytes(data: Seq<u8>) -> Seq<char> {
    hex_lower(sha1_digest(data))
}

/// The fingerprint of a text: that of its UTF-8 bytes.
pub open spec fn fingerprint_of(text: Seq<char>) -> Seq<char> {
    fingerprint_of_bytes(vstd::utf8::encode_utf8(text))
}

/// Computes the fingerprint of a run of bytes.
pub fn fingerprint_bytes(data: &[u8]) -> (out: String)
    ensures
        out@ == fingerprint_of_bytes(data@),
        out@.len() == 40,
{
    let digest = digest_bytes(data);
    to_hex(&digest)
}

/// Computes the fingerprint of a text.
pub fn fingerprint(text: &str) -> (out: String)
    ensures
        out@ == fingerprint_of(text@),
        out@.len() == 40,
{
    fingerprint_bytes(text.as_bytes())
}

} // verus!
