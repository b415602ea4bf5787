//! Content digests: SHA-256 (through the `sha2` crate) and lowercase hex
//! encoding of digest bytes.

use vstd::prelude::*;
use sha2::Digest;

verus! {

/// The SHA-256 digest of a byte sequence.  The digest is a pure function of
/// the input bytes; its value is not stated here, only named.
pub uninterp spec fn sha256_of(data: Seq<u8>) -> Seq<u8>;

/// Relies on `sha2::Sha256` (through `Digest::digest`): the digest depends on
/// the input bytes alone, and is always 32 bytes long.
#[verifier::external_body]
pub(crate) fn sha256_bytes(data: &[u8]) -> (r: Vec<u8>)
    ensures
        r@ == sha256_of(data@),
        r@.len() == 32,
{
    sha2::Sha256::digest(data).to_vec()
}

/// The lowercase hex digit for a value below 16, as an ASCII byte.
pub open spec fn hex_digit(n: u8) -> u8
    recommends
        n < 16,
{
    if n < 10 {
        (48 + n) as u8
    } else {
        (87 + n) as u8
    }
}

/// Lowercase hex encoding of a byte sequence: two digits per byte, high
/// nibble first.
pub open spec fn hex_of(data: Seq<u8>) -> Seq<u8>
    decreases data.len(),
{
    if data.len() == 0 {
        Seq::empty()
    } else {
        hex_of(data.drop_last()) + seq![
            hex_digit((data.last() / 16) as u8),
            hex_digit((data.last() % 16) as u8),
        ]
    }
}

pub proof fn lemma_hex_of_len(data: Seq<u8>)
    ensures
        hex_of(data).len() == 2 * data.len(),
    decreases data.len(),
{
    if data.len() > 0 {
        lemma_hex_of_len(data.drop_last());
    }
}

/// Encodes bytes as lowercase hex.
pub fn hex_lower(data: &[u8]) -> (r: Vec<u8>)
    ensures
        r@ == hex_of(data@),
{
    let mut out: Vec<u8> = Vec::new();
    let mut i: usize = 0;
    while i < data.len()
        invariant
            i <= data@.len(),
            out@ == hex_of(data@.take(i as int)),
        decreases data@.len() - i,
    {
        let b = data[i];
        let hi = b / 16;
        let lo = b % 16;
        let hd: u8 = if hi < 10 { 48 + hi } else { 87 + hi };
        let ld: u8 = if lo < 10 { 48 + lo } else { 87 + lo };
        out.push(hd);
        out.push(ld);
        proof {
            let pre = data@.take(i as int);
            let cur = data@.take(i + 1 as int);
            assert(cur.drop_last() =~= pre);
            assert(cur.last() == data@[i as int]);
            assert(out@ =~= hex_of(cur));
        }
        i = i + 1;
    }
    proof {
        assert(data@.take(data@.len() as int) =~= data@);
    }
    out
}

/// The lowercase hex form of the SHA-256 digest of `data`: 64 hex digits.
pub fn sha256_hex(data: &[u8]) -> (r: Vec<u8>)
    ensures
        r@ == hex_of(sha256_of(data@)),
        r@.len() == 64,
{
    let d = sha256_bytes(data);
    let r = hex_lower(d.as_slice());
    proof {
        lemma_hex_of_len(sha256_of(data@));
    }
    r
}

} // verus!
