//! Content identities of source texts, used to detect that a text changed
//! between a preview and its application.

use vstd::prelude::*;

use crate::text::push_char;

verus! {

/// The SHA-256 digest of a byte string.
pub uninterp spec fn sha256_digest(bytes: Seq<u8>) -> Seq<u8>;

/// `sha2::Sha256::digest`: the contract claims that the result is the
/// 32-byte SHA-256 digest of `bytes`, named `sha256_digest`.
#[verifier::external_body]
pub(crate) fn sha256(bytes: &[u8]) -> (digest: Vec<u8>)
    ensures
        digest@ == sha256_digest(bytes@),
        digest@.len() == 32,
{
    <sha2::Sha256 as sha2::Digest>::digest(bytes).to_vec()
}

/// The lowercase hexadecimal digit of `n < 16`.
pub open spec fn hex_digit(n: u8) -> char {
    if n < 10 { (48 + n) as char } else { (87 + n) as char }
}

/// Two lowercase hexadecimal digits per byte, most significant first.
pub open spec fn hex_text(bytes: Seq<u8>) -> Seq<char>
    decreases bytes.len(),
{
    if bytes.len() == 0 {
        Seq::empty()
    } else {
        hex_text(bytes.drop_last()) + seq![hex_digit(bytes.last() / 16), hex_digit(bytes.last() % 16)]
    }
}

/// The identity of a source text: the hexadecimal SHA-256 digest of its
/// UTF-8 bytes.
pub open spec fn content_identity(source: Seq<char>) -> Seq<char> {
    hex_text(sha256_digest(vstd::utf8::encode_utf8(source)))
}

fn hex_digit_of(n: u8) -> (c: char)
    requires
        n < 16,
    ensures
        c == hex_digit(n),
{
    if n < 10 {
        (48u8 + n) as char
    } else {
        (87u8 + n) as char
    }
}

/// `digest` written as two lowercase hexadecimal digits per byte.
pub(crate) fn hex_string(digest: &Vec<u8>) -> (text: String)
    ensures
        text@ == hex_text(digest@),
        text@.len() == 2 * digest@.len(),
{
    let ghost bytes = digest@;
    let mut text = String::new();
    let mut i: usize = 0;
    proof {
        assert(bytes.take(0) =~= Seq::<u8>::empty());
    }
    while i < digest.len()
        invariant
            i <= digest@.len(),
            bytes == digest@,
            text@ == hex_text(bytes.take(i as int)),
            text@.len() == 2 * i,
        decreases digest@.len() - i,
    {
        let b = digest[i];
        push_char(&mut text, hex_digit_of(b / 16));
        push_char(&mut text, hex_digit_of(b % 16));
        proof {
            assert(bytes.take(i + 1).drop_last() =~= bytes.take(i as int));
            assert(bytes.take(i + 1).last() == b);
            assert(text@ =~= hex_text(bytes.take(i + 1)));
        }
        i = i + 1;
    }
    proof {
        assert(bytes.take(i as int) =~= bytes);
    }
    text
}

/// The content identity of a source text: 64 lowercase hexadecimal digits.
pub fn source_content_identity(source: &str) -> (identity: String)
    ensures
        identity@ == content_identity(source@),
        identity@.len() == 64,
{
    let digest = sha256(source.as_bytes());
    hex_string(&digest)
}

} // verus!
