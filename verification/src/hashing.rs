//! Fingerprints of source text: SHA-256 digests written as lowercase hex.
use vstd::prelude::*;

use crate::text::chars_of;

verus! {

/// The SHA-256 digest of the UTF-8 encoding of a text.
pub uninterp spec fn sha256_digest(text: Seq<char>) -> Seq<u8>;

/// `Sha256::digest` over the text's UTF-8 bytes (the `sha2` crate).  The
/// digest's bytes are only named; that there are 32 of them is what the
/// output type `GenericArray<u8, U32>` shows.
#[verifier::external_body]
fn digest_text(text: &str) -> (r: Vec<u8>)
    ensures
        r@ == sha256_digest(text@),
        r@.len() == 32,
{
    <sha2::Sha256 as sha2::Digest>::digest(text.as_bytes()).to_vec()
}

/// The lowercase hexadecimal digit for a value below 16.
pub open spec fn hex_digit(v: int) -> char {
    "0123456789abcdef"@[v]
}

/// The bytes as lowercase hex, two digits each, most significant first.
pub open spec fn hex_lower(bytes: Seq<u8>) -> Seq<char>
    decreases bytes.len(),
{
    if bytes.len() == 0 {
        Seq::empty()
    } else {
        hex_lower(bytes.drop_last()) + seq![
            hex_digit(bytes.last() as int / 16),
            hex_digit(bytes.last() as int % 16),
        ]
    }
}

pub proof fn lemma_hex_lower_len(bytes: Seq<u8>)
    ensures
        hex_lower(bytes).len() == 2 * bytes.len(),
    decreases bytes.len(),
{
    if bytes.len() > 0 {
        lemma_hex_lower_len(bytes.drop_last());
    }
}

/// Every character of a hex text is a lowercase hexadecimal digit.
pub proof fn lemma_hex_lower_digits(bytes: Seq<u8>)
    ensures
        forall|i: int|
            0 <= i < hex_lower(bytes).len() ==> "0123456789abcdef"@.contains(#[trigger] hex_lower(bytes)[i]),
    decreases bytes.len(),
{
    reveal_strlit("0123456789abcdef");
    if bytes.len() > 0 {
        let prev = hex_lower(bytes.drop_last());
        lemma_hex_lower_digits(bytes.drop_last());
        let b = bytes.last() as int;
        let h = hex_lower(bytes);
        let digits = "0123456789abcdef"@;
        assert(digits.len() == 16);
        assert forall|i: int| 0 <= i < h.len() implies digits.contains(#[trigger] h[i]) by {
            if i < prev.len() {
                assert(h[i] == prev[i]);
            } else if i == prev.len() {
                assert(h[i] == digits[b / 16]);
            } else {
                assert(h[i] == digits[b % 16]);
            }
        }
    }
}

pub fn hex_lower_exec(bytes: &[u8]) -> (r: String)
    ensures
        r@ == hex_lower(bytes@),
{
    let digits = chars_of("0123456789abcdef");
    proof {
        reveal_strlit("0123456789abcdef");
    }
    assert(digits@.len() == 16);
    let mut out = String::new();
    let mut i: usize = 0;
    while i < bytes.len()
        invariant
            i <= bytes@.len(),
            digits@ == "0123456789abcdef"@,
            digits@.len() == 16,
            out@ == hex_lower(bytes@.take(i as int)),
        decreases bytes.len() - i,
    {
        let b = bytes[i];
        let hi = (b / 16) as usize;
        let lo = (b % 16) as usize;
        crate::text::push_char(&mut out, digits[hi]);
        crate::text::push_char(&mut out, digits[lo]);
        assert(bytes@.take(i + 1).drop_last() =~= bytes@.take(i as int));
        assert(out@ =~= hex_lower(bytes@.take(i + 1)));
        i = i + 1;
    }
    assert(bytes@.take(bytes@.len() as int) =~= bytes@);
    out
}

/// The fingerprint of a text: its SHA-256 digest in lowercase hex (64
/// digits).
pub open spec fn text_hash(text: Seq<char>) -> Seq<char> {
    hex_lower(sha256_digest(text))
}

pub fn hash_text(text: &str) -> (r: String)
    ensures
        r@ == text_hash(text@),
        r@.len() == 64,
{
    let d = digest_text(text);
    proof {
        lemma_hex_lower_len(d@);
    }
    hex_lower_exec(d.as_slice())
}

/// A text's hash is written in lowercase hexadecimal digits only.
pub proof fn lemma_text_hash_digits(text: Seq<char>)
    ensures
        forall|i: int|
            0 <= i < text_hash(text).len() ==> "0123456789abcdef"@.contains(#[trigger] text_hash(text)[i]),
{
    lemma_hex_lower_digits(sha256_digest(text));
}

} // verus!
