//! BLAKE2b-512 checksums as lowercase hex text.

use blake2::Digest;
use vstd::prelude::*;

use crate::text;

verus! {

/// The BLAKE2b-512 digest of some bytes.
pub uninterp spec fn blake2b512(data: Seq<u8>) -> Seq<u8>;

/// `blake2::Blake2b512::digest`: its result is named by `blake2b512`, and
/// the contract claims only that it is 64 bytes long (the digest size of
/// `Blake2b<U64>`).
#[verifier::external_body]
fn blake2b512_digest(data: &[u8]) -> (r: Vec<u8>)
    ensures
        r@ == blake2b512(data@),
        r@.len() == 64,
{
    blake2::Blake2b512::digest(data).to_vec()
}

/// The lowercase hex digit for a value below 16.
pub open spec fn hex_digit(n: int) -> char {
    if n < 10 {
        (48 + n) as char
    } else {
        (87 + n) as char
    }
}

/// Each byte as two lowercase hex digits, high nibble first.
pub open spec fn hex_lower(bytes: Seq<u8>) -> Seq<char>
    decreases bytes.len(),
{
    if bytes.len() == 0 {
        Seq::empty()
    } else {
        hex_lower(bytes.drop_last()) + seq![
            hex_digit(bytes.last() as int / 16),
            hex_digit(bytes.last() as int % 16),
        ]
    }
}

/// Hex text has two digits per byte.
pub proof fn lemma_hex_lower_len(bytes: Seq<u8>)
    ensures
        hex_lower(bytes).len() == 2 * bytes.len(),
    decreases bytes.len(),
{
    if bytes.len() > 0 {
        lemma_hex_lower_len(bytes.drop_last());
    }
}

/// `hex::encode`: each byte as two lowercase hex digits, high nibble
/// first, which is what the crate's `HEX_CHARS_LOWER` table produces.
#[verifier::external_body]
fn hex_encode(bytes: &[u8]) -> (r: String)
    ensures
        r@ == hex_lower(bytes@),
{
    hex::encode(bytes)
}

/// The BLAKE2b-512 checksum of `bytes` as lowercase hex: 128 characters.
pub fn hash_blake2b(bytes: &[u8]) -> (r: String)
    ensures
        r@ == hex_lower(blake2b512(bytes@)),
        r@.len() == 128,
{
    let digest = blake2b512_digest(bytes);
    proof {
        lemma_hex_lower_len(digest@);
    }
    hex_encode(digest.as_slice())
}

/// A character's code with ASCII upper case folded to lower case.
pub open spec fn fold_ascii(c: char) -> u32 {
    if 65 <= (c as u32) <= 90 {
        ((c as u32) + 32) as u32
    } else {
        c as u32
    }
}

/// Equality of two texts ignoring ASCII case.
pub open spec fn eq_ignore_ascii_case(a: Seq<char>, b: Seq<char>) -> bool {
    a.len() == b.len() && forall|i: int| 0 <= i < a.len() ==> fold_ascii(#[trigger] a[i]) == fold_ascii(b[i])
}

fn fold_ascii_exec(c: char) -> (r: u32)
    ensures
        r == fold_ascii(c),
{
    let u = c as u32;
    if 65 <= u && u <= 90 {
        u + 32
    } else {
        u
    }
}

/// Whether two texts are equal ignoring ASCII case.
pub fn str_eq_ignore_ascii_case(a: &str, b: &str) -> (r: bool)
    ensures
        r == eq_ignore_ascii_case(a@, b@),
{
    let x = text::chars_of(a);
    let y = text::chars_of(b);
    if x.len() != y.len() {
        return false;
    }
    let mut i: usize = 0;
    while i < x.len()
        invariant
            i <= x.len(),
            x.len() == y.len(),
            x@ == a@,
            y@ == b@,
            forall|j: int| 0 <= j < i ==> fold_ascii(#[trigger] x@[j]) == fold_ascii(y@[j]),
        decreases x.len() - i,
    {
        if fold_ascii_exec(x[i]) != fold_ascii_exec(y[i]) {
            assert(fold_ascii(a@[i as int]) != fold_ascii(b@[i as int]));
            return false;
        }
        i = i + 1;
    }
    true
}

/// A checksum that did not match.
#[derive(Debug)]
pub struct ChecksumMismatch {
    pub expected: String,
    pub actual: String,
}

/// Accepts `bytes` when their BLAKE2b-512 checksum equals `expected_hex`,
/// ignoring ASCII case.
pub fn verify_blake2b(bytes: &[u8], expected_hex: &str) -> (r: Result<(), ChecksumMismatch>)
    ensures
        r is Ok <==> eq_ignore_ascii_case(hex_lower(blake2b512(bytes@)), expected_hex@),
        r matches Err(e) ==> e.expected@ == expected_hex@ && e.actual@ == hex_lower(blake2b512(bytes@)),
        expected_hex@.len() != 128 ==> r is Err,
{
    let actual = hash_blake2b(bytes);
    if str_eq_ignore_ascii_case(actual.as_str(), expected_hex) {
        Ok(())
    } else {
        Err(ChecksumMismatch { expected: text::string_of(&text::chars_of(expected_hex)), actual })
    }
}

} // verus!
