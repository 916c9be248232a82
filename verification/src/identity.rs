//! Identities: the fixed-length hexadecimal digest that names a user's cache
//! file and keys each repository's record.

use sha2::{Digest, Sha256};
use vstd::prelude::*;
use vstd::utf8::encode_utf8;
use crate::text::{is_space, is_word, push_str, string_of};

verus! {

/// The SHA-256 digest of a byte string.
pub uninterp spec fn sha256(data: Seq<u8>) -> Seq<u8>;

/// The lower-case hexadecimal digit of a value below sixteen.
pub open spec fn hex_digit(n: int) -> char {
    if n < 10 {
        ((n + 48) as u8) as char
    } else {
        ((n + 87) as u8) as char
    }
}

pub open spec fn is_hex_digit(c: char) -> bool {
    ('0' <= c && c <= '9') || ('a' <= c && c <= 'f')
}

/// Two lower-case hexadecimal digits for every byte, the high half first.
pub open spec fn hex_text(bytes: Seq<u8>) -> Seq<char> {
    Seq::new(
        2 * bytes.len(),
        |i: int|
            if i % 2 == 0 {
                hex_digit(bytes[i / 2] as int / 16)
            } else {
                hex_digit(bytes[i / 2] as int % 16)
            },
    )
}

/// The shape of every identity: 64 lower-case hexadecimal digits.
pub open spec fn is_identity(s: Seq<char>) -> bool {
    &&& s.len() == 64
    &&& forall|i: int| 0 <= i < s.len() ==> is_hex_digit(#[trigger] s[i])
}

/// The identity of a name: the hexadecimal text of the SHA-256 digest of its
/// UTF-8 bytes.
pub open spec fn identity_of(input: Seq<char>) -> Seq<char> {
    hex_text(sha256(encode_utf8(input)))
}

/// The name of the cache file of a user.
pub open spec fn cache_path_of(user_name: Seq<char>) -> Seq<char> {
    "cache/"@ + identity_of(user_name) + ".txt"@
}

/// Calls `Sha256::digest` of the crate `sha2`: the result is the SHA-256
/// digest of `data`, which is 32 bytes long.
#[verifier::external_body]
fn sha256_digest(data: &[u8]) -> (r: Vec<u8>)
    ensures
        r@ == sha256(data@),
        r@.len() == 32,
{
    Sha256::digest(data).to_vec()
}

/// Calls `hex::encode`: every byte becomes two lower-case hexadecimal digits,
/// the high half first.
#[verifier::external_body]
fn hex_encode(data: &[u8]) -> (r: String)
    ensures
        r@ == hex_text(data@),
{
    hex::encode(data)
}

/// The hexadecimal text of 32 bytes has the shape of an identity.
pub proof fn lemma_hex_text_shape(bytes: Seq<u8>)
    requires
        bytes.len() == 32,
    ensures
        is_identity(hex_text(bytes)),
{
    let s = hex_text(bytes);
    assert forall|i: int| 0 <= i < s.len() implies is_hex_digit(#[trigger] s[i]) by {
        let b = bytes[i / 2] as int;
        assert(0 <= b / 16 < 16);
        assert(0 <= b % 16 < 16);
    }
}

/// An identity is a word: it is not empty and holds no whitespace.
pub proof fn lemma_identity_is_word(s: Seq<char>)
    requires
        is_identity(s),
    ensures
        is_word(s),
{
    assert forall|i: int| 0 <= i < s.len() implies !is_space(#[trigger] s[i]) by {
        assert(is_hex_digit(s[i]));
    }
}

/// The identity of a name. The same name always has the same identity.
pub fn identity(input: &str) -> (r: String)
    ensures
        r@ == identity_of(input@),
        is_identity(r@),
{
    let digest = sha256_digest(input.as_bytes());
    proof {
        lemma_hex_text_shape(digest@);
    }
    hex_encode(digest.as_slice())
}

/// The name of the cache file of a user: `cache/<identity>.txt`.
pub fn cache_path(user_name: &str) -> (r: String)
    ensures
        r@ == cache_path_of(user_name@),
{
    let id = identity(user_name);
    let mut out: Vec<char> = Vec::new();
    push_str(&mut out, "cache/");
    push_str(&mut out, id.as_str());
    push_str(&mut out, ".txt");
    string_of(&out)
}

} // verus!
