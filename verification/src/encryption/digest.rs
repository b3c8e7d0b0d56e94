//! Content hashing: the SHA-256 digest of a text, written in lowercase
//! hexadecimal. Equal texts get equal hashes, which is how repeated
//! clipboard content is recognised.
use vstd::prelude::*;
use vstd::string::StringSliceAdditionalSpecFns;
use sha2::Digest;
use crate::encryption::codec::{hex_encode, hex_encode_spec};

verus! {

broadcast use vstd::string::group_string_axioms;

/// The SHA-256 digest of `data`, as `sha2::Sha256` computes it.
pub uninterp spec fn sha256_digest(data: Seq<u8>) -> Seq<u8>;

/// `sha2::Sha256::digest`: the 32-byte SHA-256 digest of `data`. The
/// contract claims that the result is a function of `data` alone and is
/// 32 bytes long (the output size of `Sha256`).
#[verifier::external_body]
fn sha256(data: &[u8]) -> (d: Vec<u8>)
    ensures
        d@ == sha256_digest(data@),
        d@.len() == 32,
{
    sha2::Sha256::digest(data).to_vec()
}

/// What `hash_content` returns for a text with UTF-8 bytes `b`.
pub open spec fn content_hash_spec(b: Seq<u8>) -> Seq<char> {
    hex_encode_spec(sha256_digest(b))
}

/// The SHA-256 digest of `content`'s UTF-8 bytes, in lowercase hexadecimal
/// (64 characters).
pub fn hash_content(content: &str) -> (h: String)
    ensures
        h@ == content_hash_spec(content.spec_bytes()),
        h@.len() == 64,
{
    let d = sha256(content.as_bytes());
    hex_encode(d.as_slice())
}

/// Equal texts have equal hashes.
pub proof fn lemma_hash_deterministic(a: Seq<char>, b: Seq<char>)
    requires
        a == b,
    ensures
        content_hash_spec(vstd::utf8::encode_utf8(a)) == content_hash_spec(vstd::utf8::encode_utf8(b)),
{
}

} // verus!
