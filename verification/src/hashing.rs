//! Content hashes.

use crate::text::{digit, digits_differ};
use vstd::prelude::*;

verus! {

/// What `sha2::Sha256` makes of a content.
pub uninterp spec fn sha256_digest(bytes: Seq<u8>) -> Seq<u8>;

/// `sha2::Sha256::digest`: the SHA-256 digest of the content, 32 bytes long and a
/// function of the content alone.
#[verifier::external_body]
fn sha256(bytes: &[u8]) -> (r: Vec<u8>)
    ensures
        r@ == sha256_digest(bytes@),
        r@.len() == 32,
{
    <sha2::Sha256 as sha2::Digest>::digest(bytes).to_vec()
}

/// Two lower-case hexadecimal digits for each byte.
pub open spec fn hex_digits(bytes: Seq<u8>) -> Seq<char> {
    Seq::new(
        2 * bytes.len(),
        |i: int|
            if i % 2 == 0 {
                digit((bytes[i / 2] / 16) as nat)
            } else {
                digit((bytes[i / 2] % 16) as nat)
            },
    )
}

/// `hex::encode`: the bytes as lower-case hexadecimal digits, the high half of each
/// first.
#[verifier::external_body]
fn hex_encode(bytes: &[u8]) -> (r: String)
    ensures
        r@ == hex_digits(bytes@),
{
    hex::encode(bytes)
}

/// The hash of a content as text.
pub open spec fn content_hash(bytes: Seq<u8>) -> Seq<char> {
    hex_digits(sha256_digest(bytes))
}

/// A digest as text.
pub fn digest_text(digest: &[u8]) -> (r: String)
    ensures
        r@ == hex_digits(digest@),
{
    hex_encode(digest)
}

/// The SHA-256 hash of a content as 64 lower-case hexadecimal digits.
pub fn sha256_hex(bytes: &[u8]) -> (r: String)
    ensures
        r@ == content_hash(bytes@),
        r@.len() == 64,
{
    digest_text(sha256(bytes).as_slice())
}

/// Different digests have different texts.
pub proof fn digest_texts_differ(a: Seq<u8>, b: Seq<u8>)
    requires
        hex_digits(a) == hex_digits(b),
    ensures
        a == b,
{
    assert(hex_digits(a).len() == 2 * a.len());
    assert(hex_digits(b).len() == 2 * b.len());
    assert(a.len() == b.len());
    assert forall|i: int| 0 <= i < a.len() implies a[i] == b[i] by {
        let x = hex_digits(a);
        let y = hex_digits(b);
        let j = 2 * i;
        assert(j % 2 == 0 && j / 2 == i);
        assert((j + 1) % 2 == 1 && (j + 1) / 2 == i);
        assert(0 <= j < 2 * a.len() && j + 1 < 2 * a.len());
        assert(x[j] == digit((a[j / 2] / 16) as nat));
        assert(x[j] == digit((a[i] / 16) as nat) && y[j] == digit((b[i] / 16) as nat));
        assert(x[j + 1] == digit((a[i] % 16) as nat) && y[j + 1] == digit((b[i] % 16) as nat));
        digits_differ((a[i] / 16) as nat, (b[i] / 16) as nat);
        digits_differ((a[i] % 16) as nat, (b[i] % 16) as nat);
    }
    assert(a =~= b);
}

/// Whatever `sha256_hex` gives, it tells the digest of all the bytes: two digits for
/// each byte of it, the high half first, in lower case.
pub proof fn hash_tells_the_digest(bytes: &[u8], r: String, i: int)
    requires
        call_ensures(sha256_hex, (bytes,), r),
        0 <= i < 32,
    ensures
        r@.len() == 64,
        sha256_digest(bytes@).len() == 32,
        ({
            let b = sha256_digest(bytes@)[i];
            let high = b / 16;
            let low = b % 16;
            &&& r@[2 * i] as u32 == if high < 10 {
                48 + high
            } else {
                87 + high
            }
            &&& r@[2 * i + 1] as u32 == if low < 10 {
                48 + low
            } else {
                87 + low
            }
        }),
{
    assert(hex_digits(sha256_digest(bytes@)).len() == 2 * sha256_digest(bytes@).len());
    assert((2 * i) % 2 == 0 && (2 * i) / 2 == i);
    assert((2 * i + 1) % 2 == 1 && (2 * i + 1) / 2 == i);
}

} // verus!
