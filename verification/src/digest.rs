//! Content hashing: the lowercase hex SHA-256 of a parameter's value, which
//! is what the state records to tell a real change from a no-op.
use vstd::prelude::*;

use sha2::{Digest, Sha256};

verus! {

/// The SHA-256 digest of `data`.
pub uninterp spec fn sha256(data: Seq<u8>) -> Seq<u8>;

/// Calls `sha2::Sha256::digest` on `data`.
/// Trusted: the result is the SHA-256 digest of exactly these bytes (named
/// `sha256`, a function of the bytes alone), and it is 32 bytes long, the
/// output size that `Sha256` declares.
#[verifier::external_body]
fn sha256_digest(data: &[u8]) -> (r: Vec<u8>)
    ensures
        r@ == sha256(data@),
        r@.len() == 32,
{
    Sha256::digest(data).to_vec()
}

/// The lowercase hex digit for `n < 16`.
pub open spec fn hex_digit(n: int) -> char {
    if n < 10 {
        ((n + 48) as u32) as char
    } else {
        ((n + 87) as u32) as char
    }
}

/// Lowercase hex rendering: two digits per byte, high nibble first.
pub open spec fn hex_text(b: Seq<u8>) -> Seq<char>
    decreases b.len(),
{
    if b.len() == 0 {
        Seq::empty()
    } else {
        hex_text(b.drop_last()) + seq![hex_digit(b.last() as int / 16), hex_digit(b.last() as int % 16)]
    }
}

/// Calls `hex::encode` on `data`.
/// Trusted: the result renders every byte, in order, as two lowercase hex
/// digits, high nibble first (the crate's table is "0123456789abcdef").
#[verifier::external_body]
fn hex_encode(data: &[u8]) -> (r: String)
    ensures
        r@ == hex_text(data@),
{
    hex::encode(data)
}

/// The recorded hash of a value: hex of the SHA-256 of its UTF-8 bytes.
pub open spec fn value_hash(value: Seq<char>) -> Seq<char> {
    hex_text(sha256(vstd::utf8::encode_utf8(value)))
}

/// Hashes a parameter value the way the state records it.
pub fn hash_value(value: &str) -> (h: String)
    ensures
        h@ == value_hash(value@),
        h@ == hex_text(sha256(vstd::utf8::encode_utf8(value@))),
        h@.len() == 64,
{
    let bytes = value.as_bytes();
    let digest = sha256_digest(bytes);
    let h = hex_encode(digest.as_slice());
    proof {
        lemma_hex_text_len(digest@);
    }
    h
}

proof fn lemma_hex_text_len(b: Seq<u8>)
    ensures
        hex_text(b).len() == 2 * b.len(),
    decreases b.len(),
{
    if b.len() > 0 {
        lemma_hex_text_len(b.drop_last());
    }
}

proof fn lemma_hex_digit_injective(x: int, y: int)
    requires
        0 <= x < 16,
        0 <= y < 16,
        hex_digit(x) == hex_digit(y),
    ensures
        x == y,
{
    let cx = hex_digit(x) as u32;
    let cy = hex_digit(y) as u32;
    assert(((if x < 10 { x + 48 } else { x + 87 }) as u32) as char == hex_digit(x));
    vstd::utf8::char_u32_cast(hex_digit(x), cx);
    vstd::utf8::char_u32_cast(hex_digit(y), cy);
}

/// Hex rendering loses nothing: two byte strings with the same rendering are
/// the same bytes.
pub proof fn lemma_hex_text_injective(x: Seq<u8>, y: Seq<u8>)
    requires
        hex_text(x) == hex_text(y),
    ensures
        x == y,
    decreases x.len(),
{
    lemma_hex_text_len(x);
    lemma_hex_text_len(y);
    if x.len() > 0 {
        let hx = hex_text(x);
        let n = hx.len() - 2;
        let a = x.last() as int;
        let b = y.last() as int;
        assert(hx[n] == hex_digit(a / 16));
        assert(hx[n + 1] == hex_digit(a % 16));
        assert(hex_text(y)[n] == hex_digit(b / 16));
        assert(hex_text(y)[n + 1] == hex_digit(b % 16));
        lemma_hex_digit_injective(a / 16, b / 16);
        lemma_hex_digit_injective(a % 16, b % 16);
        assert(hex_text(x.drop_last()) =~= hx.take(n));
        assert(hex_text(y.drop_last()) =~= hex_text(y).take(n));
        lemma_hex_text_injective(x.drop_last(), y.drop_last());
        assert(x =~= x.drop_last().push(x.last()));
        assert(y =~= y.drop_last().push(y.last()));
    } else {
        assert(x =~= y);
    }
}

/// The recorded hash tells values apart. It covers every byte of the value:
/// two values get the same recorded hash exactly when SHA-256 gives the same
/// digest for their whole UTF-8 encodings; distinct values have distinct
/// encodings, so only a SHA-256 collision could make a changed value look
/// unchanged. The recorded hash is always 64 hex digits.
pub proof fn law_hash_tells_values_apart(a: Seq<char>, b: Seq<char>)
    ensures
        value_hash(a) == value_hash(b) <==> sha256(vstd::utf8::encode_utf8(a)) == sha256(vstd::utf8::encode_utf8(b)),
        a != b ==> vstd::utf8::encode_utf8(a) != vstd::utf8::encode_utf8(b),
{
    if value_hash(a) == value_hash(b) {
        lemma_hex_text_injective(sha256(vstd::utf8::encode_utf8(a)), sha256(vstd::utf8::encode_utf8(b)));
    }
    vstd::utf8::encode_utf8_decode_utf8(a);
    vstd::utf8::encode_utf8_decode_utf8(b);
}

} // verus!
