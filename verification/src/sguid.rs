//! Session identifiers: 22 ASCII bytes drawn from `[A-Za-z0-9]`,
//! generated at session construction and immutable afterwards.
use vstd::prelude::*;

verus! {

/// Length, in bytes, of every session identifier.
pub const SGUID_LEN: usize = 22;

/// True for the bytes the identifier alphabet admits: ASCII letters
/// and digits.
pub open spec fn is_sguid_byte(b: u8) -> bool {
    (65 <= b && b <= 90) || (97 <= b && b <= 122) || (48 <= b && b <= 57)
}

/// A well-formed session identifier: exactly 22 bytes, each from the
/// identifier alphabet.
pub open spec fn sguid_wf(s: Seq<u8>) -> bool {
    &&& s.len() == 22
    &&& forall|i: int| 0 <= i < s.len() ==> is_sguid_byte(#[trigger] s[i])
}

/// Relies on rand::random (rand 0.8): draws a value of `T` from the
/// standard distribution; nothing is promised of the result.
pub assume_specification<T>[ rand::random::<T> ]() -> (r: T)
    where
        rand::distributions::Standard: rand::distributions::Distribution<T>,
;

/// The 62-byte identifier alphabet, upper-case letters first, then
/// lower-case letters, then digits.
fn sguid_alphabet() -> (r: Vec<u8>)
    ensures
        r@.len() == 62,
        forall|i: int| 0 <= i < r@.len() ==> is_sguid_byte(#[trigger] r@[i]),
{
    let mut v: Vec<u8> = Vec::new();
    let mut b: u8 = 65;
    while b <= 90
        invariant
            65 <= b <= 91,
            v@.len() == b - 65,
            forall|i: int| 0 <= i < v@.len() ==> is_sguid_byte(#[trigger] v@[i]),
        decreases 91 - b,
    {
        v.push(b);
        b = b + 1;
    }
    let mut c: u8 = 97;
    while c <= 122
        invariant
            97 <= c <= 123,
            v@.len() == 26 + c - 97,
            forall|i: int| 0 <= i < v@.len() ==> is_sguid_byte(#[trigger] v@[i]),
        decreases 123 - c,
    {
        v.push(c);
        c = c + 1;
    }
    let mut d: u8 = 48;
    while d <= 57
        invariant
            48 <= d <= 58,
            v@.len() == 52 + d - 48,
            forall|i: int| 0 <= i < v@.len() ==> is_sguid_byte(#[trigger] v@[i]),
        decreases 58 - d,
    {
        v.push(d);
        d = d + 1;
    }
    v
}

/// A fresh session identifier: 22 bytes drawn at random from the
/// identifier alphabet.
pub fn create_sguid() -> (r: Vec<u8>)
    ensures
        sguid_wf(r@),
{
    let alphabet = sguid_alphabet();
    let mut out: Vec<u8> = Vec::new();
    let mut k: usize = 0;
    while k < 22
        invariant
            k <= 22,
            out@.len() == k,
            alphabet@.len() == 62,
            forall|i: int| 0 <= i < alphabet@.len() ==> is_sguid_byte(#[trigger] alphabet@[i]),
            forall|i: int| 0 <= i < out@.len() ==> is_sguid_byte(#[trigger] out@[i]),
        decreases 22 - k,
    {
        let raw: u32 = rand::random::<u32>();
        let idx: usize = (raw % 62) as usize;
        out.push(alphabet[idx]);
        k = k + 1;
    }
    out
}

} // verus!
