//! Durable compatibility identity for one resolved dependency artifact.
//!
//! The identity is richer than a package coordinate: local files, platform
//! modules, and artifacts from other repositories have no reliable coordinate,
//! but can still be reused safely by content and analysis context.

use vstd::prelude::*;

use crate::canonical::{Fingerprint, Provenance, CANONICAL_SCHEMA_VERSION};
use crate::digest;
use crate::json;
use crate::text;
use crate::text::IntoText;

verus! {

/// Version of the serialized dependency identity contract.
pub const DEPENDENCY_IDENTITY_VERSION: u32 = 1;

/// Version of the immutable artifact payload layout expected by the consumer.
pub const ARTIFACT_BLOB_FORMAT_VERSION: u32 = 1;

/// Immutable compatibility identity for a resolved dependency analysis blob.
///
/// `canonical_coordinate` and `resolved_version` are optional: local artifacts
/// and platform modules do not invent a registry identity.
#[derive(Debug, PartialEq, Eq)]
pub struct ResolvedDependencyIdentity {
    pub identity_version: u32,
    pub ecosystem: String,
    pub canonical_coordinate: Option<String>,
    pub resolved_version: Option<String>,
    pub content: Fingerprint,
    pub context: Fingerprint,
    pub provenance: Provenance,
    pub canonical_schema_version: u32,
    pub blob_format_version: u32,
}

/// What a `ResolvedDependencyIdentity` says.
#[verifier::ext_equal]
pub struct IdentityView {
    pub identity_version: u32,
    pub ecosystem: Seq<char>,
    pub canonical_coordinate: Option<Seq<char>>,
    pub resolved_version: Option<Seq<char>>,
    pub content: Seq<char>,
    pub context: Seq<char>,
    pub provenance: crate::canonical::ProvenanceView,
    pub canonical_schema_version: u32,
    pub blob_format_version: u32,
}

/// The view of an optional text.
pub open spec fn option_view(value: Option<String>) -> Option<Seq<char>> {
    match value {
        Some(value) => Some(value@),
        None => None,
    }
}

/// Whether both optional texts say the same.
pub fn same_option(a: &Option<String>, b: &Option<String>) -> (result: bool)
    ensures
        result == (option_view(*a) == option_view(*b)),
{
    match (a, b) {
        (Some(a), Some(b)) => *a == *b,
        (None, None) => true,
        _ => false,
    }
}

impl View for ResolvedDependencyIdentity {
    type V = IdentityView;

    open spec fn view(&self) -> IdentityView {
        IdentityView {
            identity_version: self.identity_version,
            ecosystem: self.ecosystem@,
            canonical_coordinate: option_view(self.canonical_coordinate),
            resolved_version: option_view(self.resolved_version),
            content: self.content@,
            context: self.context@,
            provenance: self.provenance@,
            canonical_schema_version: self.canonical_schema_version,
            blob_format_version: self.blob_format_version,
        }
    }
}

impl Clone for ResolvedDependencyIdentity {
    fn clone(&self) -> (result: Self)
        ensures
            result == *self,
    {
        ResolvedDependencyIdentity {
            identity_version: self.identity_version,
            ecosystem: self.ecosystem.clone(),
            canonical_coordinate: self.canonical_coordinate.clone(),
            resolved_version: self.resolved_version.clone(),
            content: self.content.clone(),
            context: self.context.clone(),
            provenance: self.provenance.clone(),
            canonical_schema_version: self.canonical_schema_version,
            blob_format_version: self.blob_format_version,
        }
    }
}

/// An object member that is left out where it has no value.
pub open spec fn optional_member(name: Seq<char>, value: Option<Seq<char>>) -> Seq<char> {
    match value {
        Some(value) => json::text_member(name, value),
        None => Seq::empty(),
    }
}

/// The provenance as a JSON object.
pub open spec fn provenance_json(provenance: crate::canonical::ProvenanceView) -> Seq<char> {
    "{\"backend\":"@ + json::json_text(provenance.backend) + json::text_member(
        "backend_version"@,
        provenance.backend_version,
    ) + json::number_member("protocol_version"@, provenance.protocol_version as nat)
        + json::text_member("analysis_options"@, provenance.analysis_options) + "}"@
}

/// The identity as a JSON object: its fields in order, those without a value
/// left out.
pub open spec fn identity_json(identity: IdentityView) -> Seq<char> {
    "{\"identity_version\":"@ + text::decimal_text(identity.identity_version as nat)
        + json::text_member("ecosystem"@, identity.ecosystem) + optional_member(
        "canonical_coordinate"@,
        identity.canonical_coordinate,
    ) + optional_member("resolved_version"@, identity.resolved_version) + json::text_member(
        "content"@,
        identity.content,
    ) + json::text_member("context"@, identity.context) + ",\"provenance\":"@ + provenance_json(
        identity.provenance,
    ) + json::number_member(
        "canonical_schema_version"@,
        identity.canonical_schema_version as nat,
    ) + json::number_member("blob_format_version"@, identity.blob_format_version as nat) + "}"@
}

fn append_optional_member(out: &mut String, name: &str, value: &Option<String>)
    ensures
        final(out)@ == old(out)@ + optional_member(name@, option_view(*value)),
{
    match value {
        Some(value) => json::append_text_member(out, name, value.as_str()),
        None => {
            assert(out@ + Seq::<char>::empty() =~= out@);
        },
    }
}

fn provenance_object(provenance: &Provenance) -> (result: String)
    ensures
        result@ == provenance_json(provenance@),
{
    let mut out = text::join_text(
        "{\"backend\":",
        json::json_string(provenance.backend.as_str()).as_str(),
    );
    json::append_text_member(&mut out, "backend_version", provenance.backend_version.as_str());
    json::append_number_member(&mut out, "protocol_version", provenance.protocol_version);
    json::append_text_member(&mut out, "analysis_options", provenance.analysis_options.as_str());
    out.append("}");
    out
}

impl ResolvedDependencyIdentity {
    /// An identity under the current identity and canonical schema versions.
    pub fn new<T: IntoText>(
        ecosystem: T,
        canonical_coordinate: Option<String>,
        resolved_version: Option<String>,
        content: Fingerprint,
        context: Fingerprint,
        provenance: Provenance,
        blob_format_version: u32,
    ) -> (result: Self)
        ensures
            result.identity_version == DEPENDENCY_IDENTITY_VERSION,
            result.ecosystem@ == ecosystem.text(),
            result.canonical_coordinate == canonical_coordinate,
            result.resolved_version == resolved_version,
            result.content == content,
            result.context == context,
            result.provenance == provenance,
            result.canonical_schema_version == CANONICAL_SCHEMA_VERSION,
            result.blob_format_version == blob_format_version,
    {
        ResolvedDependencyIdentity {
            identity_version: DEPENDENCY_IDENTITY_VERSION,
            ecosystem: ecosystem.into_text(),
            canonical_coordinate,
            resolved_version,
            content,
            context,
            provenance,
            canonical_schema_version: CANONICAL_SCHEMA_VERSION,
            blob_format_version,
        }
    }

    /// The identity of an artifact whose worker reports no coordinate. Content,
    /// context, provenance, and both schema versions stay exact-match inputs.
    pub fn unattributed(
        content: Fingerprint,
        context: Fingerprint,
        provenance: Provenance,
        blob_format_version: u32,
    ) -> (result: Self)
        ensures
            result@ == unattributed_view(content@, context@, provenance@, blob_format_version),
    {
        Self::new("unknown", None, None, content, context, provenance, blob_format_version)
    }

    /// The JSON bytes that the opaque cache key is computed from.
    pub fn canonical_bytes(&self) -> (result: Vec<u8>)
        ensures
            result@ == vstd::utf8::encode_utf8(identity_json(self@)),
    {
        let mut out = text::join_text(
            "{\"identity_version\":",
            text::decimal(self.identity_version as u64).as_str(),
        );
        json::append_text_member(&mut out, "ecosystem", self.ecosystem.as_str());
        append_optional_member(&mut out, "canonical_coordinate", &self.canonical_coordinate);
        append_optional_member(&mut out, "resolved_version", &self.resolved_version);
        json::append_text_member(&mut out, "content", self.content.as_str());
        json::append_text_member(&mut out, "context", self.context.as_str());
        out.append(",\"provenance\":");
        out.append(provenance_object(&self.provenance).as_str());
        json::append_number_member(
            &mut out,
            "canonical_schema_version",
            self.canonical_schema_version,
        );
        json::append_number_member(&mut out, "blob_format_version", self.blob_format_version);
        out.append("}");
        digest::bytes_of(out.as_str())
    }

    /// The fingerprint of the canonical bytes.
    pub fn cache_key(&self) -> (result: Fingerprint)
        ensures
            result@ == identity_cache_key(self@),
    {
        digest::fingerprint_bytes(self.canonical_bytes().as_slice())
    }

    /// Whether both say the same.
    pub fn same(&self, other: &Self) -> (result: bool)
        ensures
            result == (self@ == other@),
    {
        self.identity_version == other.identity_version && self.ecosystem == other.ecosystem
            && same_option(&self.canonical_coordinate, &other.canonical_coordinate) && same_option(
            &self.resolved_version,
            &other.resolved_version,
        ) && self.content.same(&other.content) && self.context.same(&other.context)
            && self.provenance.same(&other.provenance) && self.canonical_schema_version
            == other.canonical_schema_version && self.blob_format_version
            == other.blob_format_version
    }
}

/// The cache key of an identity.
pub open spec fn identity_cache_key(identity: IdentityView) -> Seq<char> {
    digest::fingerprint_text(vstd::utf8::encode_utf8(identity_json(identity)))
}

/// What an identity without a coordinate says.
pub open spec fn unattributed_view(
    content: Seq<char>,
    context: Seq<char>,
    provenance: crate::canonical::ProvenanceView,
    blob_format_version: u32,
) -> IdentityView {
    IdentityView {
        identity_version: DEPENDENCY_IDENTITY_VERSION,
        ecosystem: "unknown"@,
        canonical_coordinate: None,
        resolved_version: None,
        content,
        context,
        provenance,
        canonical_schema_version: CANONICAL_SCHEMA_VERSION,
        blob_format_version,
    }
}

#[verifier::opaque]
spec fn versions_rest(identity: IdentityView) -> Seq<char> {
    json::number_member(
        "canonical_schema_version"@,
        identity.canonical_schema_version as nat,
    ) + (json::number_member("blob_format_version"@, identity.blob_format_version as nat) + "}"@)
}

#[verifier::opaque]
spec fn provenance_rest(provenance: crate::canonical::ProvenanceView, rest: Seq<char>) -> Seq<char> {
    "{\"backend\":"@ + (json::json_text(provenance.backend) + (json::text_member(
        "backend_version"@,
        provenance.backend_version,
    ) + (json::number_member("protocol_version"@, provenance.protocol_version as nat) + (
    json::text_member("analysis_options"@, provenance.analysis_options) + ("}"@ + rest)))))
}

#[verifier::opaque]
spec fn content_rest(identity: IdentityView) -> Seq<char> {
    json::text_member("content"@, identity.content) + (json::text_member(
        "context"@,
        identity.context,
    ) + (",\"provenance\":"@ + provenance_rest(identity.provenance, versions_rest(identity))))
}

#[verifier::opaque]
spec fn coordinate_rest(identity: IdentityView) -> Seq<char> {
    optional_member("canonical_coordinate"@, identity.canonical_coordinate) + (optional_member(
        "resolved_version"@,
        identity.resolved_version,
    ) + content_rest(identity))
}

spec fn nested_json(identity: IdentityView) -> Seq<char> {
    "{\"identity_version\":"@ + (text::decimal_text(identity.identity_version as nat) + (
    json::text_member("ecosystem"@, identity.ecosystem) + coordinate_rest(identity)))
}

proof fn lemma_regroup(a: Seq<char>, b: Seq<char>, c: Seq<char>)
    ensures
        (a + b) + c == a + (b + c),
{
    assert((a + b) + c =~= a + (b + c));
}

proof fn lemma_nested_provenance(
    provenance: crate::canonical::ProvenanceView,
    rest: Seq<char>,
)
    ensures
        provenance_json(provenance) + rest == provenance_rest(provenance, rest),
{
    reveal(provenance_rest);
    let a = "{\"backend\":"@;
    let b = json::json_text(provenance.backend);
    let c = json::text_member("backend_version"@, provenance.backend_version);
    let d = json::number_member("protocol_version"@, provenance.protocol_version as nat);
    let e = json::text_member("analysis_options"@, provenance.analysis_options);
    lemma_regroup(a + b + c + d + e, "}"@, rest);
    lemma_regroup(a + b + c + d, e, "}"@ + rest);
    lemma_regroup(a + b + c, d, e + ("}"@ + rest));
    lemma_regroup(a + b, c, d + (e + ("}"@ + rest)));
    lemma_regroup(a, b, c + (d + (e + ("}"@ + rest))));
}

proof fn lemma_nested_json(identity: IdentityView)
    ensures
        identity_json(identity) == nested_json(identity),
{
    reveal(versions_rest);
    reveal(content_rest);
    reveal(coordinate_rest);
    let a = "{\"identity_version\":"@;
    let b = text::decimal_text(identity.identity_version as nat);
    let c = json::text_member("ecosystem"@, identity.ecosystem);
    let d = optional_member("canonical_coordinate"@, identity.canonical_coordinate);
    let e = optional_member("resolved_version"@, identity.resolved_version);
    let f = json::text_member("content"@, identity.content);
    let g = json::text_member("context"@, identity.context);
    let h = ",\"provenance\":"@;
    let i = provenance_json(identity.provenance);
    let j = json::number_member(
        "canonical_schema_version"@,
        identity.canonical_schema_version as nat,
    );
    let k = json::number_member("blob_format_version"@, identity.blob_format_version as nat);
    let r = versions_rest(identity);
    lemma_nested_provenance(identity.provenance, r);
    lemma_regroup(a + b + c + d + e + f + g + h + i + j, k, "}"@);
    lemma_regroup(a + b + c + d + e + f + g + h + i, j, k + "}"@);
    lemma_regroup(a + b + c + d + e + f + g + h, i, r);
    lemma_regroup(a + b + c + d + e + f + g, h, i + r);
    lemma_regroup(a + b + c + d + e + f, g, h + (i + r));
    lemma_regroup(a + b + c + d + e, f, g + (h + (i + r)));
    let t = content_rest(identity);
    lemma_regroup(a + b + c + d, e, t);
    lemma_regroup(a + b + c, d, e + t);
    lemma_regroup(a + b, c, d + (e + t));
    lemma_regroup(a, b, c + (d + (e + t)));
}

proof fn lemma_provenance_prefix(
    a: crate::canonical::ProvenanceView,
    b: crate::canonical::ProvenanceView,
    x: Seq<char>,
    y: Seq<char>,
)
    requires
        provenance_rest(a, x) == provenance_rest(b, y),
    ensures
        a == b,
        x == y,
{
    reveal(provenance_rest);
    reveal_strlit(",\"");
    reveal_strlit("}");
    let x4 = "}"@ + x;
    let y4 = "}"@ + y;
    let x3 = json::text_member("analysis_options"@, a.analysis_options) + x4;
    let y3 = json::text_member("analysis_options"@, b.analysis_options) + y4;
    let x2 = json::number_member("protocol_version"@, a.protocol_version as nat) + x3;
    let y2 = json::number_member("protocol_version"@, b.protocol_version as nat) + y3;
    let x1 = json::text_member("backend_version"@, a.backend_version) + x2;
    let y1 = json::text_member("backend_version"@, b.backend_version) + y2;
    let x0 = json::json_text(a.backend) + x1;
    let y0 = json::json_text(b.backend) + y1;
    let label = "{\"backend\":"@;
    assert((label + x0).skip(label.len() as int) =~= x0);
    assert((label + y0).skip(label.len() as int) =~= y0);
    json::lemma_json_text_prefix(a.backend, b.backend, x1, y1);
    json::lemma_text_member_prefix(
        "backend_version"@,
        a.backend_version,
        b.backend_version,
        x2,
        y2,
    );
    assert(x3[0] == ',');
    assert(y3[0] == ',');
    json::lemma_number_member_prefix(
        "protocol_version"@,
        a.protocol_version as nat,
        b.protocol_version as nat,
        x3,
        y3,
    );
    json::lemma_text_member_prefix(
        "analysis_options"@,
        a.analysis_options,
        b.analysis_options,
        x4,
        y4,
    );
    assert(x4.skip(1) =~= x);
    assert(y4.skip(1) =~= y);
    assert(a =~= b);
}

proof fn lemma_content_prefix(a: IdentityView, b: IdentityView)
    requires
        content_rest(a) == content_rest(b),
    ensures
        a.content == b.content,
        a.context == b.context,
        a.provenance == b.provenance,
        a.canonical_schema_version == b.canonical_schema_version,
        a.blob_format_version == b.blob_format_version,
{
    reveal(content_rest);
    reveal(versions_rest);
    reveal_strlit(",\"");
    reveal_strlit("}");
    let label = ",\"provenance\":"@;
    let p = provenance_rest(a.provenance, versions_rest(a));
    let q = provenance_rest(b.provenance, versions_rest(b));
    let x1 = json::text_member("context"@, a.context) + (label + p);
    let y1 = json::text_member("context"@, b.context) + (label + q);
    json::lemma_text_member_prefix("content"@, a.content, b.content, x1, y1);
    json::lemma_text_member_prefix("context"@, a.context, b.context, label + p, label + q);
    assert((label + p).skip(label.len() as int) =~= p);
    assert((label + q).skip(label.len() as int) =~= q);
    lemma_provenance_prefix(a.provenance, b.provenance, versions_rest(a), versions_rest(b));
    let x2 = json::number_member("blob_format_version"@, a.blob_format_version as nat) + "}"@;
    let y2 = json::number_member("blob_format_version"@, b.blob_format_version as nat) + "}"@;
    assert(x2[0] == ',');
    assert(y2[0] == ',');
    json::lemma_number_member_prefix(
        "canonical_schema_version"@,
        a.canonical_schema_version as nat,
        b.canonical_schema_version as nat,
        x2,
        y2,
    );
    json::lemma_number_member_prefix(
        "blob_format_version"@,
        a.blob_format_version as nat,
        b.blob_format_version as nat,
        "}"@,
        "}"@,
    );
}

proof fn lemma_content_begins(identity: IdentityView)
    ensures
        content_rest(identity).len() > 4,
        content_rest(identity)[2] == 'c',
        content_rest(identity)[3] == 'o',
{
    reveal(content_rest);
    reveal_strlit(",\"");
    reveal_strlit("content");
}

proof fn lemma_optional_begins(value: Option<Seq<char>>, rest: Seq<char>)
    ensures
        value is Some ==> (optional_member("resolved_version"@, value) + rest)[2] == 'r',
        value is Some ==> (optional_member("canonical_coordinate"@, value) + rest)[2] == 'c',
        value is Some ==> (optional_member("canonical_coordinate"@, value) + rest)[3] == 'a',
        value is None ==> optional_member("resolved_version"@, value) + rest == rest,
        value is None ==> optional_member("canonical_coordinate"@, value) + rest == rest,
{
    reveal_strlit(",\"");
    reveal_strlit("resolved_version");
    reveal_strlit("canonical_coordinate");
    if value is None {
        assert(Seq::<char>::empty() + rest =~= rest);
    }
}

proof fn lemma_coordinate_prefix(a: IdentityView, b: IdentityView)
    requires
        coordinate_rest(a) == coordinate_rest(b),
    ensures
        a.canonical_coordinate == b.canonical_coordinate,
        a.resolved_version == b.resolved_version,
        content_rest(a) == content_rest(b),
{
    reveal(coordinate_rest);
    let p = optional_member("resolved_version"@, a.resolved_version) + content_rest(a);
    let q = optional_member("resolved_version"@, b.resolved_version) + content_rest(b);
    lemma_content_begins(a);
    lemma_content_begins(b);
    lemma_optional_begins(a.resolved_version, content_rest(a));
    lemma_optional_begins(b.resolved_version, content_rest(b));
    lemma_optional_begins(a.canonical_coordinate, p);
    lemma_optional_begins(b.canonical_coordinate, q);
    if a.canonical_coordinate is Some && b.canonical_coordinate is Some {
        json::lemma_text_member_prefix(
            "canonical_coordinate"@,
            a.canonical_coordinate->Some_0,
            b.canonical_coordinate->Some_0,
            p,
            q,
        );
    }
    assert(p == q);
    if a.resolved_version is Some && b.resolved_version is Some {
        json::lemma_text_member_prefix(
            "resolved_version"@,
            a.resolved_version->Some_0,
            b.resolved_version->Some_0,
            content_rest(a),
            content_rest(b),
        );
    }
}

/// Every field is an exact-match input: identities with the same canonical
/// bytes say the same.
pub proof fn law_canonical_bytes_identify(a: IdentityView, b: IdentityView)
    requires
        vstd::utf8::encode_utf8(identity_json(a)) == vstd::utf8::encode_utf8(identity_json(b)),
    ensures
        a == b,
{
    vstd::utf8::encode_utf8_decode_utf8(identity_json(a));
    vstd::utf8::encode_utf8_decode_utf8(identity_json(b));
    assert(identity_json(a) == identity_json(b));
    lemma_nested_json(a);
    lemma_nested_json(b);
    let label = "{\"identity_version\":"@;
    let x1 = json::text_member("ecosystem"@, a.ecosystem) + coordinate_rest(a);
    let y1 = json::text_member("ecosystem"@, b.ecosystem) + coordinate_rest(b);
    let x0 = text::decimal_text(a.identity_version as nat) + x1;
    let y0 = text::decimal_text(b.identity_version as nat) + y1;
    assert((label + x0).skip(label.len() as int) =~= x0);
    assert((label + y0).skip(label.len() as int) =~= y0);
    reveal_strlit(",\"");
    assert(x1[0] == ',');
    assert(y1[0] == ',');
    text::lemma_decimal_prefix(a.identity_version as nat, b.identity_version as nat, x1, y1);
    json::lemma_text_member_prefix(
        "ecosystem"@,
        a.ecosystem,
        b.ecosystem,
        coordinate_rest(a),
        coordinate_rest(b),
    );
    lemma_coordinate_prefix(a, b);
    lemma_content_prefix(a, b);
    assert(a =~= b);
}

} // verus!
