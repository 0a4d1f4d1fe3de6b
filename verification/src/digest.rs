//! SHA-256 digests as lower-case hexadecimal text.
use vstd::prelude::*;

use sha2::{Digest, Sha256};

use crate::text::push_char;

verus! {

/// The SHA-256 digest of `bytes` (32 bytes).
pub uninterp spec fn sha256_of(bytes: Seq<u8>) -> Seq<u8>;

/// The SHA-256 digest of `bytes`: `sha2::Sha256::digest`, which hashes the
/// whole input in one update and returns the 32-byte output.
#[verifier::external_body]
fn sha256_bytes(bytes: &[u8]) -> (r: Vec<u8>)
    ensures
        r@ == sha256_of(bytes@),
        r@.len() == 32,
{
    Sha256::digest(bytes).to_vec()
}

/// The lower-case hexadecimal digit for `d < 16`.
pub open spec fn hex_digit(d: u8) -> char {
    if d < 10 {
        ((d + 48) as u8) as char
    } else {
        ((d + 87) as u8) as char
    }
}

/// `bytes` as lower-case hexadecimal text, two digits per byte.
pub open spec fn hex_text(bytes: Seq<u8>) -> Seq<char>
    decreases bytes.len(),
{
    if bytes.len() == 0 {
        seq![]
    } else {
        hex_text(bytes.drop_last()) + seq![
            hex_digit(bytes.last() / 16),
            hex_digit(bytes.last() % 16),
        ]
    }
}

fn hex_char(d: u8) -> (c: char)
    requires
        d < 16,
    ensures
        c == hex_digit(d),
{
    if d < 10 {
        (d + 48) as char
    } else {
        (d + 87) as char
    }
}

/// `bytes` as lower-case hexadecimal text, two digits per byte.
pub fn hex_of(bytes: &[u8]) -> (r: String)
    ensures
        r@ == hex_text(bytes@),
        r@.len() == 2 * bytes@.len(),
{
    let mut text = String::new();
    let mut i: usize = 0;
    while i < bytes.len()
        invariant
            i <= bytes.len(),
            text@ == hex_text(bytes@.take(i as int)),
            text@.len() == 2 * i,
        decreases bytes.len() - i,
    {
        let byte = bytes[i];
        push_char(&mut text, hex_char(byte / 16));
        push_char(&mut text, hex_char(byte % 16));
        i = i + 1;
        assert(bytes@.take(i as int).drop_last() =~= bytes@.take(i - 1));
        assert(text@ =~= hex_text(bytes@.take(i as int)));
    }
    assert(bytes@.take(bytes@.len() as int) =~= bytes@);
    text
}

/// The SHA-256 digest of `bytes` as 64 lower-case hexadecimal digits.
pub fn sha256_hex(bytes: &[u8]) -> (r: String)
    ensures
        r@ == hex_text(sha256_of(bytes@)),
        r@.len() == 64,
{
    let digest = sha256_bytes(bytes);
    hex_of(digest.as_slice())
}

proof fn lemma_hex_len(bytes: Seq<u8>)
    ensures
        hex_text(bytes).len() == 2 * bytes.len(),
    decreases bytes.len(),
{
    if bytes.len() > 0 {
        lemma_hex_len(bytes.drop_last());
    }
}

/// Digests are written in lower-case hexadecimal: a digit below ten is the
/// character `'0'` plus it, a digit from ten the character `'a'` plus its
/// excess over ten; each byte gives two digits, high then low, so two byte
/// strings with the same text are the same bytes.
pub proof fn hex_text_is_lowercase_and_faithful(d: u8, a: Seq<u8>, b: Seq<u8>)
    ensures
        d < 10 ==> hex_digit(d) as u32 == '0' as u32 + d,
        10 <= d < 16 ==> hex_digit(d) as u32 == 'a' as u32 + (d - 10),
        hex_text(a).len() == 2 * a.len(),
        hex_text(a) == hex_text(b) ==> a == b,
    decreases a.len(),
{
    lemma_hex_len(a);
    lemma_hex_len(b);
    if hex_text(a) == hex_text(b) && a.len() > 0 {
        let x = a.last();
        let y = b.last();
        let ta = hex_text(a);
        let tb = hex_text(b);
        let n = ta.len();
        assert(ta[n - 2] == hex_digit(x / 16) && ta[n - 1] == hex_digit(x % 16));
        assert(tb[n - 2] == hex_digit(y / 16) && tb[n - 1] == hex_digit(y % 16));
        assert(x / 16 == y / 16 && x % 16 == y % 16) by {
            assert(hex_digit(x / 16) == hex_digit(y / 16));
            assert(hex_digit(x % 16) == hex_digit(y % 16));
        }
        assert(x == y) by (nonlinear_arith)
            requires
                x / 16 == y / 16,
                x % 16 == y % 16,
        ;
        assert(hex_text(a.drop_last()) =~= ta.subrange(0, n - 2));
        assert(hex_text(b.drop_last()) =~= tb.subrange(0, n - 2));
        hex_text_is_lowercase_and_faithful(d, a.drop_last(), b.drop_last());
        assert(a =~= a.drop_last().push(x));
        assert(b =~= b.drop_last().push(y));
    }
}

} // verus!
