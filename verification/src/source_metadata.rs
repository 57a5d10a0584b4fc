//! Cheap identity checks of source files.

use vstd::prelude::*;

use crate::canonical::{Fingerprint, WorkspacePath};
use crate::digest;
use crate::digest::fingerprint_bytes;
use crate::ordered_map::OrderedMap;
use crate::text;

verus! {

/// What was last seen of a source file.
#[derive(Debug, PartialEq, Eq)]
pub struct SourceFileMetadata {
    pub path: WorkspacePath,
    pub byte_size: i64,
    pub modified_nanos: i128,
    pub content: Fingerprint,
}

/// What the file system says of a source file.
#[derive(Debug, PartialEq, Eq)]
pub struct SourceFileStamp {
    pub path: WorkspacePath,
    pub byte_size: i64,
    pub modified_nanos: i128,
}

/// A path of a workspace with `/` between its parts.
pub open spec fn slashed(path: Seq<char>) -> Seq<char> {
    Seq::new(
        path.len(),
        |i: int|
            if path[i] == '\\' {
                '/'
            } else {
                path[i]
            },
    )
}

/// The key of a path under which its metadata is kept.
pub fn source_key(relative: &str) -> (result: String)
    ensures
        result@ == slashed(relative@),
{
    let chars = text::chars_of(relative);
    let mut kept: Vec<char> = Vec::new();
    let mut i: usize = 0;
    while i < chars.len()
        invariant
            chars@ == relative@,
            i <= chars@.len(),
            kept@.len() == i,
            forall|j: int| 0 <= j < i ==> #[trigger] kept@[j] == slashed(relative@)[j],
        decreases chars@.len() - i,
    {
        if chars[i] == '\\' {
            kept.push('/');
        } else {
            kept.push(chars[i]);
        }
        i = i + 1;
    }
    assert(kept@ =~= slashed(relative@));
    text::text_of(kept.as_slice())
}

/// The stamp of a source file; none, where its size or its time does not fit.
pub fn stamp_of(relative: &str, byte_size: u64, modified_nanos: u128) -> (result: Option<
    SourceFileStamp,
>)
    ensures
        match result {
            Some(stamp) => {
                &&& stamp.path@ == slashed(relative@)
                &&& stamp.byte_size == byte_size
                &&& stamp.modified_nanos == modified_nanos
            },
            None => byte_size > i64::MAX || modified_nanos > i128::MAX,
        },
{
    if byte_size > i64::MAX as u64 || modified_nanos > i128::MAX as u128 {
        return None;
    }
    Some(
        SourceFileStamp {
            path: WorkspacePath::new(source_key(relative)),
            byte_size: byte_size as i64,
            modified_nanos: modified_nanos as i128,
        },
    )
}

/// Whether what is kept of a file can stand for its content: its size and its
/// time are both unchanged.
pub open spec fn is_unchanged(stamp: SourceFileStamp, kept: SourceFileMetadata) -> bool {
    kept.byte_size == stamp.byte_size && kept.modified_nanos == stamp.modified_nanos
}

/// The kept fingerprint of a file that is unchanged. Without one, the file has
/// to be read.
pub fn known_content(stamp: &SourceFileStamp, cached: &OrderedMap<SourceFileMetadata>) -> (result:
    Option<Fingerprint>)
    requires
        cached.wf(),
    ensures
        result == (if cached@.dom().contains(stamp.path@) && is_unchanged(
            *stamp,
            cached@[stamp.path@],
        ) {
            Some(cached@[stamp.path@].content)
        } else {
            None
        }),
{
    match cached.get(stamp.path.as_str()) {
        Some(kept) => if kept.byte_size == stamp.byte_size && kept.modified_nanos
            == stamp.modified_nanos {
            Some(kept.content.clone())
        } else {
            None
        },
        None => None,
    }
}

/// The metadata of a file: with its kept fingerprint where it is unchanged,
/// with that of the bytes read otherwise.
pub fn observe_source_file(
    stamp: SourceFileStamp,
    cached: &OrderedMap<SourceFileMetadata>,
    read: &[u8],
) -> (result: SourceFileMetadata)
    requires
        cached.wf(),
    ensures
        result.path == stamp.path,
        result.byte_size == stamp.byte_size,
        result.modified_nanos == stamp.modified_nanos,
        result.content@ == (if cached@.dom().contains(stamp.path@) && is_unchanged(
            stamp,
            cached@[stamp.path@],
        ) {
            cached@[stamp.path@].content@
        } else {
            digest::fingerprint_text(read@)
        }),
{
    let content = match known_content(&stamp, cached) {
        Some(content) => content,
        None => fingerprint_bytes(read),
    };
    SourceFileMetadata {
        path: stamp.path,
        byte_size: stamp.byte_size,
        modified_nanos: stamp.modified_nanos,
        content,
    }
}

/// A fingerprint that was kept stands for a file exactly where its size and its
/// time are unchanged; otherwise the bytes that were read are digested.
pub proof fn law_kept_fingerprint_needs_an_unchanged_file(
    stamp: SourceFileStamp,
    cached: &OrderedMap<SourceFileMetadata>,
    read: &[u8],
    known: Option<Fingerprint>,
    observed: SourceFileMetadata,
)
    requires
        cached.wf(),
        call_ensures(known_content, (&stamp, cached), known),
        call_ensures(observe_source_file, (stamp, cached, read), observed),
    ensures
        known is Some <==> cached@.dom().contains(stamp.path@) && cached@[stamp.path@].byte_size
            == stamp.byte_size && cached@[stamp.path@].modified_nanos == stamp.modified_nanos,
        known is Some ==> known->0@ == cached@[stamp.path@].content@ && observed.content@
            == known->0@,
        known is None ==> observed.content@ == digest::fingerprint_text(read@),
        observed.byte_size == stamp.byte_size && observed.modified_nanos == stamp.modified_nanos,
        observed.path@ == stamp.path@,
{
}

/// The key of a path is the path with a slash for each backslash.
pub proof fn law_keys_use_slashes(relative: &str, key: String, i: int)
    requires
        call_ensures(source_key, (relative,), key),
        0 <= i < relative@.len(),
    ensures
        key@.len() == relative@.len(),
        relative@[i] == '\\' ==> key@[i] == '/',
        relative@[i] != '\\' ==> key@[i] == relative@[i],
{
}

} // verus!
