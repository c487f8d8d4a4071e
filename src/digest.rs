//! Running SHA-256 over the downloaded image, and comparison of the result
//! with the advertised hex checksum.

use sha2::Digest;
use vstd::prelude::*;

verus! {

/// The SHA-256 digest of `data`: 32 bytes.
pub uninterp spec fn sha256_of(data: Seq<u8>) -> Seq<u8>;

/// The bytes that have been fed to a running digest, in order.
pub uninterp spec fn digest_input(s: Sha256Stream) -> Seq<u8>;

/// A running SHA-256 computation.
#[verifier::external_body]
pub struct Sha256Stream {
    hasher: sha2::Sha256,
}

impl Sha256Stream {
    /// Relies on `sha2::Sha256::new`: a hasher that has consumed nothing.
    #[verifier::external_body]
    pub(crate) fn new() -> (r: Sha256Stream)
        ensures
            digest_input(r) == Seq::<u8>::empty(),
    {
        Sha256Stream { hasher: sha2::Sha256::new() }
    }

    /// Relies on `sha2::Sha256::update`: the data is appended to what the
    /// hasher has consumed.
    #[verifier::external_body]
    pub(crate) fn update(&mut self, data: &[u8])
        ensures
            digest_input(*final(self)) == digest_input(*old(self)) + data@,
    {
        self.hasher.update(data);
    }

    /// Relies on `sha2::Sha256::finalize` (of a copy): the 32-byte digest of
    /// everything consumed so far.
    #[verifier::external_body]
    pub(crate) fn digest(&self) -> (r: Vec<u8>)
        ensures
            r@ == sha256_of(digest_input(*self)),
            r@.len() == 32,
    {
        self.hasher.clone().finalize().to_vec()
    }
}

/// The lowercase hexadecimal digit for a value below 16.
pub open spec fn hex_digit(n: u8) -> u8 {
    if n < 10 {
        (n + 48) as u8
    } else {
        (n + 87) as u8
    }
}

/// Lowercase hexadecimal text of `data`, two digits per byte, high nibble first.
pub open spec fn hex_of(data: Seq<u8>) -> Seq<u8> {
    Seq::new(
        2 * data.len(),
        |j: int|
            if j % 2 == 0 {
                hex_digit(data[j / 2] / 16)
            } else {
                hex_digit(data[j / 2] % 16)
            },
    )
}

/// An ASCII byte with upper case letters mapped to lower case.
pub open spec fn ascii_lower(b: u8) -> u8 {
    if 65 <= b && b <= 90 {
        (b + 32) as u8
    } else {
        b
    }
}

/// Whether `text` spells out `digest` in hexadecimal, ignoring letter case.
pub open spec fn checksum_agrees(digest: Seq<u8>, text: Seq<u8>) -> bool {
    text.map_values(|b: u8| ascii_lower(b)) == hex_of(digest)
}

fn hex_digit_exec(n: u8) -> (r: u8)
    requires
        n < 16,
    ensures
        r == hex_digit(n),
{
    if n < 10 {
        n + 48
    } else {
        n + 87
    }
}

fn ascii_lower_exec(b: u8) -> (r: u8)
    ensures
        r == ascii_lower(b),
{
    if 65 <= b && b <= 90 {
        b + 32
    } else {
        b
    }
}

/// Compares a computed digest with checksum text, case-insensitively.
pub fn checksum_matches(digest: &[u8], text: &[u8]) -> (r: bool)
    ensures
        r == checksum_agrees(digest@, text@),
{
    let ghost lowered = text@.map_values(|b: u8| ascii_lower(b));
    if text.len() % 2 != 0 || text.len() / 2 != digest.len() {
        assert(lowered.len() != hex_of(digest@).len());
        return false;
    }
    let mut i: usize = 0;
    while i < digest.len()
        invariant
            0 <= i <= digest@.len(),
            text@.len() == 2 * digest@.len(),
            lowered == text@.map_values(|b: u8| ascii_lower(b)),
            forall|j: int| 0 <= j < 2 * i ==> lowered[j] == #[trigger] hex_of(digest@)[j],
        decreases digest@.len() - i,
    {
        let b = digest[i];
        let hi = hex_digit_exec(b / 16);
        let lo = hex_digit_exec(b % 16);
        let k: usize = text.len() - 2 * (digest.len() - i);
        if ascii_lower_exec(text[k]) != hi || ascii_lower_exec(text[k + 1]) != lo {
            assert(lowered[2 * i] != hex_of(digest@)[2 * i] || lowered[2 * i + 1] != hex_of(
                digest@,
            )[2 * i + 1]);
            return false;
        }
        assert((2 * i + 1) / 2 == i as int);
        i = i + 1;
    }
    assert(lowered =~= hex_of(digest@));
    true
}

} // verus!
