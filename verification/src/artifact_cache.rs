//! Keys, headers and promotion rules of the shared cache for immutable
//! dependency artifact payloads.
//!
//! A cache file is a fixed header followed by an opaque payload. The header
//! binds the payload length to the digest of the key, so that a file can only
//! be read back under the key it was published for.

use vstd::prelude::*;

use crate::canonical::{Fingerprint, Provenance};
use crate::dependency_identity;
use crate::dependency_identity::ResolvedDependencyIdentity;
use crate::digest;
use crate::protocol::{ArtifactDescriptor, ARTIFACT_BLOB_LAYOUT_VERSION};
use crate::shown::push;
use crate::text;

verus! {

/// Length of the header in front of every cached payload.
pub const BLOB_HEADER_SIZE: usize = 52;

/// Version of the header.
pub const BLOB_HEADER_VERSION: u32 = 1;

/// The complete compatibility key of a dependency artifact payload.
#[derive(Debug, PartialEq, Eq)]
pub struct ArtifactBlobKey {
    identity: ResolvedDependencyIdentity,
}

/// Timing and outcome of promoting a worker-produced staged artifact into the
/// immutable shared cache.
#[derive(Debug, Clone, Copy, PartialEq, Eq, Structural)]
pub struct ArtifactPromotionMetrics {
    pub promoted: bool,
    pub staged_checksum_millis: u64,
    pub cache_publish_millis: u64,
}

/// Why a cached or staged payload is refused.
#[derive(Debug, Clone, Copy, PartialEq, Eq, Structural)]
pub enum ArtifactBlobCacheError {
    InvalidHeader,
    TruncatedPayload { expected: u64 },
    StagedLengthMismatch { expected: u64, actual: u64 },
    StagedChecksumMismatch,
}

impl ArtifactBlobCacheError {
    /// The message that is shown for an error.
    pub open spec fn message_text(&self) -> Seq<char> {
        match self {
            ArtifactBlobCacheError::InvalidHeader => {
                "artifact blob has an incompatible or corrupt header"@
            },
            ArtifactBlobCacheError::TruncatedPayload { expected } => {
                "artifact blob stream ended before its declared "@
                + text::decimal_text(*expected as nat)
                + " byte payload"@
            },
            ArtifactBlobCacheError::StagedLengthMismatch { expected, actual } => {
                "staged artifact length "@
                + text::decimal_text(*actual as nat)
                + " does not match worker metadata "@
                + text::decimal_text(*expected as nat)
            },
            ArtifactBlobCacheError::StagedChecksumMismatch => {
                "staged artifact checksum does not match worker metadata"@
            },
        }
    }

    /// Computes `message_text`.
    pub fn message(&self) -> (result: String)
        ensures
            result@ == self.message_text(),
    {
        match self {
            ArtifactBlobCacheError::InvalidHeader => {
                "artifact blob has an incompatible or corrupt header".to_owned()
            },
            ArtifactBlobCacheError::TruncatedPayload { expected } => {
                let mut out = "artifact blob stream ended before its declared ".to_owned();
                push(&mut out, text::decimal(*expected as u64).as_str());
                push(&mut out, " byte payload");
                out
            },
            ArtifactBlobCacheError::StagedLengthMismatch { expected, actual } => {
                let mut out = "staged artifact length ".to_owned();
                push(&mut out, text::decimal(*actual as u64).as_str());
                push(&mut out, " does not match worker metadata ");
                push(&mut out, text::decimal(*expected as u64).as_str());
                out
            },
            ArtifactBlobCacheError::StagedChecksumMismatch => {
                "staged artifact checksum does not match worker metadata".to_owned()
            },
        }
    }
}

impl View for ArtifactBlobKey {
    type V = dependency_identity::IdentityView;

    closed spec fn view(&self) -> dependency_identity::IdentityView {
        self.identity@
    }
}

impl Clone for ArtifactBlobKey {
    fn clone(&self) -> (result: Self)
        ensures
            result == *self,
    {
        ArtifactBlobKey { identity: self.identity.clone() }
    }
}

/// The digest that a cache file carries for its key.
pub open spec fn key_digest(key: dependency_identity::IdentityView) -> Seq<u8> {
    digest::sha256_digest(vstd::utf8::encode_utf8(dependency_identity::identity_json(key)))
}

impl ArtifactBlobKey {
    /// The key of a payload whose worker reports no coordinate. Content alone
    /// is insufficient: a different build context or analysis-options
    /// fingerprint misses the shared cache.
    pub fn new(artifact: Fingerprint, context: Fingerprint, provenance: &Provenance) -> (result:
        Self)
        ensures
            result@ == dependency_identity::unattributed_view(
                artifact@,
                context@,
                provenance@,
                ARTIFACT_BLOB_LAYOUT_VERSION,
            ),
    {
        ArtifactBlobKey {
            identity: ResolvedDependencyIdentity::unattributed(
                artifact,
                context,
                provenance.clone(),
                ARTIFACT_BLOB_LAYOUT_VERSION,
            ),
        }
    }

    /// The key of a resolved identity.
    pub fn from_identity(identity: ResolvedDependencyIdentity) -> (result: Self)
        ensures
            result@ == identity@,
    {
        ArtifactBlobKey { identity }
    }

    /// The identity that the key stands for.
    pub fn identity(&self) -> (result: &ResolvedDependencyIdentity)
        ensures
            result@ == self@,
    {
        &self.identity
    }

    /// Opaque content-addressed identifier. It does not reveal a cache path.
    pub fn cache_key(&self) -> (result: Fingerprint)
        ensures
            result@ == dependency_identity::identity_cache_key(self@),
    {
        self.identity.cache_key()
    }

    /// The key of a described artifact.
    pub fn for_descriptor(descriptor: &ArtifactDescriptor) -> (result: Self)
        ensures
            result@ == descriptor.identity(),
    {
        Self::from_identity(descriptor.resolved_identity())
    }

    /// Computes `key_digest`.
    pub fn digest(&self) -> (result: Vec<u8>)
        ensures
            result@ == key_digest(self@),
            result@.len() == 32,
    {
        digest::sha256(self.identity.canonical_bytes().as_slice())
    }

    /// The name of the cache file: the digest in hexadecimal and `.blob`.
    pub fn filename(&self) -> (result: String)
        ensures
            result@ == text::hex_text(key_digest(self@)) + ".blob"@,
    {
        text::join_text(text::hex(self.digest().as_slice()).as_str(), ".blob")
    }
}

/// The eight bytes that every cache file begins with.
pub open spec fn blob_magic() -> Seq<u8> {
    seq![0x4bu8, 0x49u8, 0x44u8, 0x45u8, 0x42u8, 0x4cu8, 0x42u8, 0x31u8]
}

/// The header of a payload: magic, header version, key digest, payload length.
pub open spec fn blob_header(key: dependency_identity::IdentityView, payload_len: u64) -> Seq<u8> {
    blob_magic() + vstd::bytes::spec_u32_to_le_bytes(BLOB_HEADER_VERSION) + key_digest(key)
        + vstd::bytes::spec_u64_to_le_bytes(payload_len)
}

/// Writes the header of a payload.
pub fn encode_header(key: &ArtifactBlobKey, payload_len: u64) -> (result: Vec<u8>)
    ensures
        result@ == blob_header(key@, payload_len),
        result@.len() == BLOB_HEADER_SIZE,
{
    proof {
        vstd::bytes::lemma_auto_spec_u32_to_from_le_bytes();
        vstd::bytes::lemma_auto_spec_u64_to_from_le_bytes();
    }
    let mut header: Vec<u8> = vec![0x4b, 0x49, 0x44, 0x45, 0x42, 0x4c, 0x42, 0x31];
    assert(header@ =~= blob_magic());
    digest::append_bytes(&mut header, vstd::bytes::u32_to_le_bytes(BLOB_HEADER_VERSION).as_slice());
    digest::append_bytes(&mut header, key.digest().as_slice());
    digest::append_bytes(&mut header, vstd::bytes::u64_to_le_bytes(payload_len).as_slice());
    header
}

/// Reads the payload length out of a header, which must be the one written for
/// this key.
pub fn validate_header(bytes: &[u8], key: &ArtifactBlobKey) -> (result: Result<
    u64,
    ArtifactBlobCacheError,
>)
    ensures
        result matches Ok(payload_len) ==> bytes@ == blob_header(key@, payload_len),
        result matches Err(error) ==> error == ArtifactBlobCacheError::InvalidHeader && forall|
            payload_len: u64,
        |
            bytes@ != #[trigger] blob_header(key@, payload_len),
{
    proof {
        vstd::bytes::lemma_auto_spec_u32_to_from_le_bytes();
        vstd::bytes::lemma_auto_spec_u64_to_from_le_bytes();
    }
    let digest = key.digest();
    assert(digest@.len() == 32);
    if bytes.len() != BLOB_HEADER_SIZE {
        return Err(ArtifactBlobCacheError::InvalidHeader);
    }
    let length = &bytes[44..52];
    let payload_len: u64 = vstd::bytes::u64_from_le_bytes(length);
    let expected = encode_header(key, payload_len);
    if digest::same_bytes(bytes, expected.as_slice()) {
        Ok(payload_len)
    } else {
        assert forall|other: u64| bytes@ != #[trigger] blob_header(key@, other) by {
            if bytes@ == blob_header(key@, other) {
                assert(length@ =~= vstd::bytes::spec_u64_to_le_bytes(other));
                assert(payload_len == other);
            }
        }
        Err(ArtifactBlobCacheError::InvalidHeader)
    }
}

/// Whether a cache file with this header holds exactly its payload.
pub fn validate_file_length(payload_len: u64, file_len: u64) -> (result: Result<
    (),
    ArtifactBlobCacheError,
>)
    ensures
        result is Ok <==> file_len == BLOB_HEADER_SIZE + payload_len,
        result matches Err(error) ==> error == ArtifactBlobCacheError::InvalidHeader,
{
    if file_len >= BLOB_HEADER_SIZE as u64 && file_len - BLOB_HEADER_SIZE as u64 == payload_len {
        Ok(())
    } else {
        Err(ArtifactBlobCacheError::InvalidHeader)
    }
}

/// A payload whose header was validated. Sections are read by range, without
/// the whole payload in memory.
#[derive(Debug, Clone, Copy, PartialEq, Eq, Structural)]
pub struct ArtifactBlob {
    pub payload_len: u64,
}

impl ArtifactBlob {
    /// The length of the payload.
    pub fn len(&self) -> (result: u64)
        ensures
            result == self.payload_len,
    {
        self.payload_len
    }

    /// Whether the payload is empty.
    pub fn is_empty(&self) -> (result: bool)
        ensures
            result == (self.payload_len == 0),
    {
        self.payload_len == 0
    }

    /// Where in the cache file a range of the payload begins. A range that
    /// leaves the payload is refused.
    pub fn read_range(&self, offset: u64, length: usize) -> (result: Result<
        u64,
        ArtifactBlobCacheError,
    >)
        requires
            self.payload_len + BLOB_HEADER_SIZE <= u64::MAX,
        ensures
            result is Ok <==> offset + length <= self.payload_len,
            result matches Ok(position) ==> position == BLOB_HEADER_SIZE + offset,
            result matches Err(error) ==> error == ArtifactBlobCacheError::InvalidHeader,
    {
        let end = offset.checked_add(length as u64);
        match end {
            Some(end) => {
                if end > self.payload_len {
                    Err(ArtifactBlobCacheError::InvalidHeader)
                } else {
                    Ok(BLOB_HEADER_SIZE as u64 + offset)
                }
            },
            None => Err(ArtifactBlobCacheError::InvalidHeader),
        }
    }

    /// The range of the whole payload, where it can be addressed at all.
    pub fn read_all(&self) -> (result: Result<usize, ArtifactBlobCacheError>)
        ensures
            result is Ok <==> self.payload_len <= usize::MAX,
            result matches Ok(length) ==> length == self.payload_len,
            result matches Err(error) ==> error == ArtifactBlobCacheError::InvalidHeader,
    {
        if self.payload_len <= usize::MAX as u64 {
            Ok(self.payload_len as usize)
        } else {
            Err(ArtifactBlobCacheError::InvalidHeader)
        }
    }
}

/// Whether a stream delivered the payload that its header declares.
pub fn validate_copied_length(expected: u64, copied: u64) -> (result: Result<
    (),
    ArtifactBlobCacheError,
>)
    ensures
        result is Ok <==> copied == expected,
        result matches Err(error) ==> error == (ArtifactBlobCacheError::TruncatedPayload { expected }),
{
    if copied == expected {
        Ok(())
    } else {
        Err(ArtifactBlobCacheError::TruncatedPayload { expected })
    }
}

/// Whether a staged file may be published: its length first, then its digest,
/// must be the ones that the worker reported.
pub fn verify_staged(actual_length: u64, expected_length: u64, actual_sha256: &[u8], expected_sha256: &[u8]) -> (result:
    Result<(), ArtifactBlobCacheError>)
    ensures
        result is Ok <==> actual_length == expected_length && actual_sha256@ == expected_sha256@,
        result matches Err(error) ==> error == (if actual_length != expected_length {
            ArtifactBlobCacheError::StagedLengthMismatch {
                expected: expected_length,
                actual: actual_length,
            }
        } else {
            ArtifactBlobCacheError::StagedChecksumMismatch
        }),
{
    if actual_length != expected_length {
        Err(
            ArtifactBlobCacheError::StagedLengthMismatch {
                expected: expected_length,
                actual: actual_length,
            },
        )
    } else if !digest::same_bytes(actual_sha256, expected_sha256) {
        Err(ArtifactBlobCacheError::StagedChecksumMismatch)
    } else {
        Ok(())
    }
}

/// A cache file: the header of a payload and the payload.
pub open spec fn blob_file(key: dependency_identity::IdentityView, payload: Seq<u8>) -> Seq<u8> {
    blob_header(key, payload.len() as u64) + payload
}

/// The shared cache below a directory. Files are found by their key alone.
#[derive(Debug, PartialEq, Eq)]
pub struct ArtifactBlobCache {
    root: String,
}

impl View for ArtifactBlobCache {
    type V = Seq<char>;

    closed spec fn view(&self) -> Seq<char> {
        self.root@
    }
}

impl ArtifactBlobCache {
    /// The cache below a directory.
    pub fn open(root: String) -> (result: Self)
        ensures
            result@ == root@,
    {
        ArtifactBlobCache { root }
    }

    /// The directory that holds the cache files.
    pub fn directory(&self) -> (result: String)
        ensures
            result@ == self@ + "/v1"@,
    {
        text::join_text(self.root.as_str(), "/v1")
    }

    /// Where the payload of a key is kept.
    pub fn path_for(&self, key: &ArtifactBlobKey) -> (result: String)
        ensures
            result@ == self@ + "/v1/"@ + text::hex_text(key_digest(key@)) + ".blob"@,
    {
        let mut path = text::join_text(self.root.as_str(), "/v1/");
        path.append(key.filename().as_str());
        assert(path@ =~= self@ + "/v1/"@ + text::hex_text(key_digest(key@)) + ".blob"@);
        path
    }

    /// Where a process writes the payload of a key before it is published.
    pub fn temporary_for(&self, key: &ArtifactBlobKey, process: u32) -> (result: String)
        ensures
            result@ == self@ + "/v1/."@ + (text::hex_text(key_digest(key@)) + ".blob"@) + ".tmp-"@
                + text::decimal_text(process as nat),
    {
        let mut path = text::join_text(self.root.as_str(), "/v1/.");
        path.append(key.filename().as_str());
        path.append(".tmp-");
        path.append(text::decimal(process as u64).as_str());
        path
    }

    /// The payload in the file of a key, whose header could be read. A file that
    /// was not published for the key is refused.
    pub fn load(&self, key: &ArtifactBlobKey, file: Option<&[u8]>) -> (result: Result<
        Option<Vec<u8>>,
        ArtifactBlobCacheError,
    >)
        requires
            file matches Some(bytes) ==> bytes@.len() >= BLOB_HEADER_SIZE,
        ensures
            match file {
                None => result == Ok::<Option<Vec<u8>>, ArtifactBlobCacheError>(None),
                Some(bytes) => match result {
                    Ok(payload) => payload is Some && bytes@ == blob_file(
                        key@,
                        payload->Some_0@,
                    ),
                    Err(error) => error == ArtifactBlobCacheError::InvalidHeader && forall|
                        other: Seq<u8>,
                    |
                        other.len() <= u64::MAX ==> bytes@ != #[trigger] blob_file(key@, other),
                },
            },
    {
        let bytes = match file {
            Some(bytes) => bytes,
            None => {
                return Ok(None);
            },
        };
        let digest = key.digest();
        assert(digest@.len() == 32);
        proof {
            vstd::bytes::lemma_auto_spec_u32_to_from_le_bytes();
            vstd::bytes::lemma_auto_spec_u64_to_from_le_bytes();
        }
        let len: usize = bytes.len();
        let header = &bytes[0..BLOB_HEADER_SIZE];
        let payload_len: u64 = match validate_header(header, key) {
            Ok(payload_len) => payload_len,
            Err(error) => {
                assert forall|payload: Seq<u8>| payload.len() <= u64::MAX implies bytes@
                    != #[trigger] blob_file(key@, payload) by {
                    if bytes@ == blob_file(key@, payload) {
                        assert(header@ =~= blob_header(key@, payload.len() as u64));
                    }
                }
                return Err(error);
            },
        };
        match validate_file_length(payload_len, len as u64) {
            Ok(_) => {},
            Err(error) => {
                assert forall|payload: Seq<u8>| payload.len() <= u64::MAX implies bytes@
                    != #[trigger] blob_file(key@, payload) by {
                    if bytes@ == blob_file(key@, payload) {
                        assert(header@ =~= blob_header(key@, payload.len() as u64));
                        law_header_binds_its_key(key@, key@, payload_len, payload.len() as u64);
                    }
                }
                return Err(error);
            },
        }
        let mut payload: Vec<u8> = Vec::new();
        digest::append_bytes(&mut payload, &bytes[BLOB_HEADER_SIZE..len]);
        assert(payload@ =~= bytes@.skip(BLOB_HEADER_SIZE as int));
        assert(bytes@ =~= header@ + payload@);
        Ok(Some(payload))
    }

    /// The file to publish for a payload; none, where one is published already.
    pub fn publish(&self, key: &ArtifactBlobKey, payload: &[u8], exists: bool) -> (result: Option<
        Vec<u8>,
    >)
        ensures
            match result {
                Some(file) => !exists && file@ == blob_file(key@, payload@),
                None => exists,
            },
    {
        if exists {
            return None;
        }
        let mut file = encode_header(key, payload.len() as u64);
        digest::append_bytes(&mut file, payload);
        Some(file)
    }

    /// Verifies a staged payload and gives the file to publish for it, unless
    /// one is published already. A failed check never publishes anything.
    pub fn promote_staged(
        &self,
        key: &ArtifactBlobKey,
        staged: &[u8],
        expected_length: u64,
        expected_sha256: &[u8],
        exists: bool,
    ) -> (result: Result<Option<Vec<u8>>, ArtifactBlobCacheError>)
        ensures
            if staged@.len() != expected_length {
                result is Err && result->Err_0 == (ArtifactBlobCacheError::StagedLengthMismatch {
                    expected: expected_length,
                    actual: staged@.len() as u64,
                })
            } else if digest::sha256_digest(staged@) != expected_sha256@ {
                result is Err && result->Err_0 == ArtifactBlobCacheError::StagedChecksumMismatch
            } else {
                &&& result is Ok
                &&& match result->Ok_0 {
                    Some(file) => !exists && file@ == blob_file(key@, staged@),
                    None => exists,
                }
            },
    {
        let actual = digest::sha256(staged);
        match verify_staged(
            staged.len() as u64,
            expected_length,
            actual.as_slice(),
            expected_sha256,
        ) {
            Ok(_) => Ok(self.publish(key, staged, exists)),
            Err(error) => Err(error),
        }
    }
}

/// What is loaded from a file is what was published in it.
pub proof fn law_load_gives_back_what_was_published(
    key: dependency_identity::IdentityView,
    published: Seq<u8>,
    loaded: Seq<u8>,
)
    requires
        published.len() <= u64::MAX,
        loaded.len() <= u64::MAX,
        blob_file(key, published) == blob_file(key, loaded),
    ensures
        published == loaded,
{
    vstd::bytes::lemma_auto_spec_u32_to_from_le_bytes();
    vstd::bytes::lemma_auto_spec_u64_to_from_le_bytes();
    let a = blob_header(key, published.len() as u64);
    let b = blob_header(key, loaded.len() as u64);
    assert(a.len() == b.len());
    assert(blob_file(key, published).skip(a.len() as int) =~= published);
    assert(blob_file(key, loaded).skip(b.len() as int) =~= loaded);
}

/// A header is written for one key digest only: a file cannot be read back under
/// a key with another digest.
pub proof fn law_header_binds_its_key(
    a: dependency_identity::IdentityView,
    b: dependency_identity::IdentityView,
    m: u64,
    n: u64,
)
    requires
        blob_header(a, m) == blob_header(b, n),
    ensures
        key_digest(a) == key_digest(b),
        m == n,
{
    vstd::bytes::lemma_auto_spec_u32_to_from_le_bytes();
    vstd::bytes::lemma_auto_spec_u64_to_from_le_bytes();
    let x = blob_header(a, m);
    let y = blob_header(b, n);
    assert(x.subrange(12, x.len() - 8) =~= key_digest(a));
    assert(y.subrange(12, y.len() - 8) =~= key_digest(b));
    assert(x.skip(x.len() - 8) =~= vstd::bytes::spec_u64_to_le_bytes(m));
    assert(y.skip(y.len() - 8) =~= vstd::bytes::spec_u64_to_le_bytes(n));
}

/// A cache file starts with `KIDEBLB1`, the header version, the digest of the
/// key's identity and the length of the payload, and ends with the payload. A
/// published file is not written again.
pub proof fn law_cache_file_starts_with_its_header(
    cache: &ArtifactBlobCache,
    key: &ArtifactBlobKey,
    payload: &[u8],
    exists: bool,
    key_digest: Vec<u8>,
    result: Option<Vec<u8>>,
)
    requires
        call_ensures(ArtifactBlobKey::digest, (key,), key_digest),
        call_ensures(ArtifactBlobCache::publish, (cache, key, payload, exists), result),
    ensures
        result is None <==> exists,
        result is Some ==> {
            let file = result->0@;
            &&& file.len() == payload@.len() + 52
            &&& file.subrange(0, 8) == seq![
                'K' as u8,
                'I' as u8,
                'D' as u8,
                'E' as u8,
                'B' as u8,
                'L' as u8,
                'B' as u8,
                '1' as u8,
            ]
            &&& vstd::bytes::spec_u32_from_le_bytes(file.subrange(8, 12)) == BLOB_HEADER_VERSION
            &&& file.subrange(12, 44) == key_digest@
            &&& payload@.len() <= u64::MAX ==> vstd::bytes::spec_u64_from_le_bytes(
                file.subrange(44, 52),
            ) == payload@.len()
            &&& file.skip(52) == payload@
        },
{
    vstd::bytes::lemma_auto_spec_u32_to_from_le_bytes();
    vstd::bytes::lemma_auto_spec_u64_to_from_le_bytes();
    if result is Some {
        let file = result->0@;
        let digest = key_digest@;
        let length = vstd::bytes::spec_u64_to_le_bytes(payload@.len() as u64);
        assert(file.subrange(0, 8) =~= blob_magic());
        assert(file.subrange(8, 12) =~= vstd::bytes::spec_u32_to_le_bytes(BLOB_HEADER_VERSION));
        assert(file.subrange(12, 44) =~= digest);
        assert(file.subrange(44, 52) =~= length);
        assert(file.skip(52) =~= payload@);
    }
}

/// A staged payload is promoted exactly where its length and its digest are the
/// reported ones.
pub proof fn law_staged_payload_is_verified(
    cache: &ArtifactBlobCache,
    key: &ArtifactBlobKey,
    staged: &[u8],
    expected_length: u64,
    expected_sha256: &[u8],
    exists: bool,
    result: Result<Option<Vec<u8>>, ArtifactBlobCacheError>,
)
    requires
        call_ensures(
            ArtifactBlobCache::promote_staged,
            (cache, key, staged, expected_length, expected_sha256, exists),
            result,
        ),
    ensures
        result is Ok <==> staged@.len() == expected_length && digest::sha256_digest(staged@)
            == expected_sha256@,
        result is Ok ==> (result->Ok_0 is Some <==> !exists),
{
}

/// What was published for a key is loaded under it.
pub proof fn law_published_payload_is_loaded(
    cache: &ArtifactBlobCache,
    key: &ArtifactBlobKey,
    payload: &[u8],
    file: Vec<u8>,
    bytes: &[u8],
    loaded: Result<Option<Vec<u8>>, ArtifactBlobCacheError>,
)
    requires
        payload@.len() <= u64::MAX,
        call_ensures(ArtifactBlobCache::publish, (cache, key, payload, false), Some(file)),
        bytes@ == file@,
        call_ensures(ArtifactBlobCache::load, (cache, key, Some(bytes)), loaded),
        loaded is Ok ==> loaded->Ok_0->0@.len() <= u64::MAX,
    ensures
        loaded is Ok,
        loaded->Ok_0 is Some,
        loaded->Ok_0->0@ == payload@,
{
    assert(bytes@ == blob_file(key@, payload@));
    law_load_gives_back_what_was_published(key@, payload@, loaded->Ok_0->0@);
}

} // verus!
