//! Checksum verification for downloaded archives: the digest of the bytes
//! must match the checksum the cache records; a cache entry without a
//! checksum is accepted without verification.

use sha2::{Digest, Sha256};
use vstd::prelude::*;

verus! {

use crate::Error;
use crate::semver::push_char;

/// What the SHA-256 function returns on the given bytes; a function of the
/// bytes alone.
pub uninterp spec fn sha256_of(data: Seq<u8>) -> Seq<u8>;

/// Relies on sha2's Sha256 (through the Digest trait): the digest depends
/// on the input bytes alone and is 32 bytes long.
#[verifier::external_body]
fn sha256_digest(data: &Vec<u8>) -> (r: Vec<u8>)
    ensures
        r@ == sha256_of(data@),
        r@.len() == 32,
{
    let mut hasher = Sha256::new();
    hasher.update(data.as_slice());
    hasher.finalize().to_vec()
}

/// The lowercase hex digit for `d` in `0 .. 16`.
pub open spec fn hex_digit(d: int) -> char {
    if d == 0 {
        '0'
    } else if d == 1 {
        '1'
    } else if d == 2 {
        '2'
    } else if d == 3 {
        '3'
    } else if d == 4 {
        '4'
    } else if d == 5 {
        '5'
    } else if d == 6 {
        '6'
    } else if d == 7 {
        '7'
    } else if d == 8 {
        '8'
    } else if d == 9 {
        '9'
    } else if d == 10 {
        'a'
    } else if d == 11 {
        'b'
    } else if d == 12 {
        'c'
    } else if d == 13 {
        'd'
    } else if d == 14 {
        'e'
    } else {
        'f'
    }
}

/// Lowercase hex of a byte string, two digits per byte.
pub open spec fn hex_of(bytes: Seq<u8>) -> Seq<char>
    decreases bytes.len(),
{
    if bytes.len() == 0 {
        Seq::empty()
    } else {
        hex_of(bytes.drop_last()) + seq![
            hex_digit(bytes.last() as int / 16),
            hex_digit(bytes.last() as int % 16),
        ]
    }
}

/// The lowercase hex SHA-256 digest of the given bytes.
pub open spec fn sha256_hex_of(data: Seq<u8>) -> Seq<char> {
    hex_of(sha256_of(data))
}

fn hex_digit_exec(d: u8) -> (c: char)
    requires
        d < 16,
    ensures
        c == hex_digit(d as int),
{
    if d == 0 {
        '0'
    } else if d == 1 {
        '1'
    } else if d == 2 {
        '2'
    } else if d == 3 {
        '3'
    } else if d == 4 {
        '4'
    } else if d == 5 {
        '5'
    } else if d == 6 {
        '6'
    } else if d == 7 {
        '7'
    } else if d == 8 {
        '8'
    } else if d == 9 {
        '9'
    } else if d == 10 {
        'a'
    } else if d == 11 {
        'b'
    } else if d == 12 {
        'c'
    } else if d == 13 {
        'd'
    } else if d == 14 {
        'e'
    } else {
        'f'
    }
}

fn to_hex(bytes: &Vec<u8>) -> (s: String)
    ensures
        s@ == hex_of(bytes@),
{
    let mut s = String::new();
    let n = bytes.len();
    let mut i: usize = 0;
    while i < n
        invariant
            i <= n,
            n == bytes@.len(),
            s@ == hex_of(bytes@.subrange(0, i as int)),
        decreases n - i,
    {
        let b = bytes[i];
        push_char(&mut s, hex_digit_exec(b / 16));
        push_char(&mut s, hex_digit_exec(b % 16));
        proof {
            let pre = bytes@.subrange(0, i as int);
            let cur = bytes@.subrange(0, i + 1 as int);
            assert(cur.drop_last() =~= pre);
            assert(cur.last() == bytes@[i as int]);
            assert(s@ =~= hex_of(cur));
        }
        i = i + 1;
    }
    proof {
        assert(bytes@.subrange(0, n as int) =~= bytes@);
    }
    s
}

/// The lowercase hex SHA-256 digest of `data`.
pub fn sha256_hex(data: &Vec<u8>) -> (s: String)
    ensures
        s@ == sha256_hex_of(data@),
{
    let digest = sha256_digest(data);
    to_hex(&digest)
}

/// Whether `data` hashes to the recorded `expected` digest.
pub fn checksum_matches(expected: &String, data: &Vec<u8>) -> (r: bool)
    ensures
        r == (expected@ == sha256_hex_of(data@)),
{
    let h = sha256_hex(data);
    *expected == h
}

/// The acquisition gate. With a recorded checksum the downloaded bytes must
/// hash to it, else the download is rejected; without one no verification
/// takes place and the bytes are accepted as they are.
pub fn verify_download(expected: &Option<String>, data: &Vec<u8>) -> (r: Result<(), Error>)
    ensures
        match expected {
            Option::Some(c) => if c@ == sha256_hex_of(data@) {
                r == Result::<(), Error>::Ok(())
            } else {
                r == Result::<(), Error>::Err(Error::ChecksumMismatch)
            },
            Option::None => r == Result::<(), Error>::Ok(()),
        },
{
    match expected {
        Option::Some(c) => {
            if checksum_matches(c, data) {
                Result::Ok(())
            } else {
                Result::Err(Error::ChecksumMismatch)
            }
        },
        Option::None => Result::Ok(()),
    }
}

} // verus!
