//! Content digests and the fingerprints made of them.

use sha2::Digest;
use vstd::prelude::*;

use crate::canonical::Fingerprint;
use crate::text;

verus! {

/// The SHA-256 digest of a byte string.
pub uninterp spec fn sha256_digest(content: Seq<u8>) -> Seq<u8>;

/// `sha2::Sha256::digest`: the digest depends on the content alone and is 32
/// bytes long.
#[verifier::external_body]
pub(crate) fn sha256(content: &[u8]) -> (result: Vec<u8>)
    ensures
        result@ == sha256_digest(content@),
        result@.len() == 32,
{
    sha2::Sha256::digest(content).to_vec()
}

/// A digest written as `sha256:<lowercase-hex>`.
pub open spec fn digest_text(digest: Seq<u8>) -> Seq<char> {
    "sha256:"@ + text::hex_text(digest)
}

/// The fingerprint text of a byte string.
pub open spec fn fingerprint_text(content: Seq<u8>) -> Seq<char> {
    digest_text(sha256_digest(content))
}

/// The fingerprint that writes out a digest.
pub fn digest_fingerprint(digest: &[u8]) -> (result: Fingerprint)
    ensures
        result@ == digest_text(digest@),
{
    Fingerprint::new(text::join_text("sha256:", text::hex(digest).as_str()))
}

/// The fingerprint of a byte string.
pub fn fingerprint_bytes(content: &[u8]) -> (result: Fingerprint)
    ensures
        result@ == fingerprint_text(content@),
{
    let digest = sha256(content);
    digest_fingerprint(digest.as_slice())
}

/// The UTF-8 bytes of a text.
pub fn bytes_of(value: &str) -> (result: Vec<u8>)
    ensures
        result@ == vstd::utf8::encode_utf8(value@),
{
    let bytes = value.as_bytes();
    let mut result: Vec<u8> = Vec::new();
    append_bytes(&mut result, bytes);
    assert(result@ =~= bytes@);
    result
}

/// Appends bytes to a buffer.
pub fn append_bytes(buffer: &mut Vec<u8>, bytes: &[u8])
    ensures
        final(buffer)@ == old(buffer)@ + bytes@,
{
    let ghost start = buffer@;
    let mut i: usize = 0;
    while i < bytes.len()
        invariant
            i <= bytes@.len(),
            buffer@ == start + bytes@.take(i as int),
        decreases bytes@.len() - i,
    {
        buffer.push(bytes[i]);
        i = i + 1;
        assert(start + bytes@.take(i as int) =~= (start + bytes@.take(i - 1)).push(bytes@[i - 1]));
    }
    assert(bytes@.take(bytes@.len() as int) =~= bytes@);
}

/// Whether both byte strings are the same.
pub fn same_bytes(a: &[u8], b: &[u8]) -> (result: bool)
    ensures
        result == (a@ == b@),
{
    if a.len() != b.len() {
        return false;
    }
    let mut i: usize = 0;
    while i < a.len()
        invariant
            i <= a@.len() == b@.len(),
            a@.take(i as int) == b@.take(i as int),
        decreases a@.len() - i,
    {
        if a[i] != b[i] {
            assert(a@[i as int] != b@[i as int]);
            return false;
        }
        i = i + 1;
        assert(a@.take(i as int) =~= a@.take(i - 1).push(a@[i - 1]));
        assert(b@.take(i as int) =~= b@.take(i - 1).push(b@[i - 1]));
    }
    assert(a@.take(a@.len() as int) =~= a@);
    assert(b@.take(b@.len() as int) =~= b@);
    true
}

} // verus!
