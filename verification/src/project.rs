//! Content hashing and project-relative path checks.

use vstd::prelude::*;
use vstd::string::StringExecFns;

use sha2::{Digest, Sha256};

use crate::text::{all_ascii, ascii_chars, ascii_string, hex_bytes, push_hex};

verus! {

/// The SHA-256 digest of a byte string.
pub uninterp spec fn spec_sha256(bytes: Seq<u8>) -> Seq<u8>;

/// Wraps `sha2::Sha256::digest` (through `digest::Digest::digest`): the
/// SHA-256 digest of `bytes`, whose output size is fixed at 32 bytes.
#[verifier::external_body]
fn sha256_digest(bytes: &[u8]) -> (digest: Vec<u8>)
    ensures
        digest@ == spec_sha256(bytes@),
        digest@.len() == 32,
{
    Sha256::digest(bytes).to_vec()
}

/// `sha256:` followed by the lower-case hex of the digest.
pub open spec fn sha256_text(bytes: Seq<u8>) -> Seq<char> {
    "sha256:"@ + ascii_chars(hex_bytes(spec_sha256(bytes)))
}

/// The content hash of a byte string, as `sha256:<64 hex digits>`.
pub fn sha256(bytes: &[u8]) -> (text: String)
    ensures
        text@ == sha256_text(bytes@),
        spec_sha256(bytes@).len() == 32,
{
    let digest = sha256_digest(bytes);
    let mut hex: Vec<u8> = Vec::new();
    push_hex(&mut hex, digest.as_slice());
    proof {
        assert(hex@ =~= hex_bytes(spec_sha256(bytes@)));
        assert(all_ascii(Seq::<u8>::empty()));
    }
    let mut text = String::from_str("sha256:");
    text.append(ascii_string(hex).as_str());
    text
}

} // verus!
