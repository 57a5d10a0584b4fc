//! Language-neutral text documents and lexical matches for workspace search.

use vstd::prelude::*;

use crate::canonical::{ByteRange, Fingerprint, TextPosition, WorkspacePath};
use crate::digest;
use crate::digest::fingerprint_bytes;
use crate::discovery::WorkspaceFile;
use crate::ordering;
use crate::ordering::stable_sort;
use crate::position;
use crate::position::{byte_length, find_index, line_and_column, trim_part, width_of};
use crate::text;

verus! {

pub const MAX_TEXT_DOCUMENT_BYTES: usize = 1_048_576;

/// A searchable text of a workspace.
#[derive(Debug, Clone, PartialEq, Eq)]
pub struct TextDocument {
    pub path: WorkspacePath,
    pub content: String,
    pub fingerprint: Fingerprint,
}

/// A lexical term found in a document.
#[derive(Debug, Clone, PartialEq, Eq)]
pub struct LexicalMatch {
    pub path: WorkspacePath,
    pub range: ByteRange,
    pub position: TextPosition,
    pub snippet: String,
}

/// Why a file is no document.
#[derive(Debug, Clone, Copy, PartialEq, Eq, Structural)]
pub enum TextDocumentSkip {
    Binary,
    Oversized { bytes: usize },
    InvalidUtf8,
}

/// The documents of a workspace, and the files that are none.
#[derive(Debug, Clone, PartialEq, Eq)]
pub struct WorkspaceTextInventory {
    pub documents: Vec<TextDocument>,
    pub skipped: Vec<(WorkspacePath, TextDocumentSkip)>,
}

/// `String::from_utf8` takes the bytes as the text that they encode, and
/// refuses exactly the bytes that are not valid UTF-8.
#[verifier::external_body]
fn utf8_text(bytes: Vec<u8>) -> (result: Option<String>)
    ensures
        match result {
            Some(content) => vstd::utf8::valid_utf8(bytes@) && vstd::utf8::encode_utf8(content@)
                == bytes@,
            None => !vstd::utf8::valid_utf8(bytes@),
        },
{
    String::from_utf8(bytes).ok()
}

/// What `char::is_alphanumeric` says of a scalar value.
pub uninterp spec fn alphanumeric(c: char) -> bool;

/// `char::is_alphanumeric` is a function of the scalar value alone.
#[verifier::external_body]
pub(crate) fn is_alphanumeric(c: char) -> (result: bool)
    ensures
        result == alphanumeric(c),
{
    c.is_alphanumeric()
}

/// Why bytes are no document: their size first, then a zero byte, then their
/// encoding.
pub open spec fn skip_reason(bytes: Seq<u8>) -> Option<TextDocumentSkip> {
    if bytes.len() > MAX_TEXT_DOCUMENT_BYTES {
        Some(TextDocumentSkip::Oversized { bytes: bytes.len() as usize })
    } else if bytes.contains(0u8) {
        Some(TextDocumentSkip::Binary)
    } else if !vstd::utf8::valid_utf8(bytes) {
        Some(TextDocumentSkip::InvalidUtf8)
    } else {
        None
    }
}

/// Whether a document is of a path and holds the text of the bytes.
pub open spec fn is_document_of(document: TextDocument, path: Seq<char>, bytes: Seq<u8>) -> bool {
    &&& document.path@ == path
    &&& vstd::utf8::encode_utf8(document.content@) == bytes
    &&& document.fingerprint@ == digest::fingerprint_text(bytes)
}

fn holds_zero(bytes: &[u8]) -> (result: bool)
    ensures
        result == bytes@.contains(0u8),
{
    let mut i: usize = 0;
    while i < bytes.len()
        invariant
            i <= bytes@.len(),
            forall|j: int| 0 <= j < i ==> bytes@[j] != 0,
        decreases bytes@.len() - i,
    {
        if bytes[i] == 0 {
            assert(bytes@[i as int] == 0);
            return true;
        }
        i = i + 1;
    }
    false
}

/// Reads a document from the bytes of a file.
pub fn document_from_bytes(path: WorkspacePath, bytes: Vec<u8>) -> (result: Result<
    TextDocument,
    TextDocumentSkip,
>)
    ensures
        match skip_reason(bytes@) {
            Some(reason) => result == Err::<TextDocument, TextDocumentSkip>(reason),
            None => result is Ok && is_document_of(result->Ok_0, path@, bytes@),
        },
{
    if bytes.len() > MAX_TEXT_DOCUMENT_BYTES {
        return Err(TextDocumentSkip::Oversized { bytes: bytes.len() });
    }
    if holds_zero(bytes.as_slice()) {
        return Err(TextDocumentSkip::Binary);
    }
    let fingerprint = fingerprint_bytes(bytes.as_slice());
    match utf8_text(bytes) {
        Some(content) => Ok(TextDocument { path, content, fingerprint }),
        None => Err(TextDocumentSkip::InvalidUtf8),
    }
}

/// The files of a sorted list that are documents.
pub open spec fn document_files(files: Seq<WorkspaceFile>) -> Seq<WorkspaceFile> {
    files.filter(|file: WorkspaceFile| skip_reason(file.content@) is None)
}

/// The files of a sorted list that are no documents.
pub open spec fn skipped_files(files: Seq<WorkspaceFile>) -> Seq<WorkspaceFile> {
    files.filter(|file: WorkspaceFile| skip_reason(file.content@) is Some)
}

/// Whether an inventory lists the documents and the skipped files of sorted
/// files, in their order.
pub open spec fn is_inventory_of(
    inventory: WorkspaceTextInventory,
    files: Seq<WorkspaceFile>,
) -> bool {
    let documents = document_files(files);
    let skipped = skipped_files(files);
    &&& inventory.documents@.len() == documents.len()
    &&& forall|i: int|
        0 <= i < documents.len() ==> is_document_of(
            #[trigger] inventory.documents@[i],
            documents[i].path@,
            documents[i].content@,
        )
    &&& inventory.skipped@.len() == skipped.len()
    &&& forall|i: int|
        0 <= i < skipped.len() ==> (#[trigger] inventory.skipped@[i]).0@ == skipped[i].path@ && Some(
            inventory.skipped@[i].1,
        ) == skip_reason(skipped[i].content@)
}

/// Collects the documents of listed files in the order of their paths. Every
/// file is either a document or named with the reason why it is none.
pub fn collect_workspace_text(files: Vec<WorkspaceFile>) -> (result: WorkspaceTextInventory)
    ensures
        is_inventory_of(result, ordering::stable_sorted(files@)),
{
    let sorted = stable_sort(files);
    let mut documents: Vec<TextDocument> = Vec::new();
    let mut skipped: Vec<(WorkspacePath, TextDocumentSkip)> = Vec::new();
    let mut i: usize = 0;
    while i < sorted.len()
        invariant
            i <= sorted@.len(),
            is_inventory_of(
                (WorkspaceTextInventory { documents, skipped }),
                sorted@.take(i as int),
            ),
        decreases sorted@.len() - i,
    {
        let path = sorted[i].path.clone();
        proof {
            let file = sorted@[i as int];
            let before = sorted@.take(i as int);
            assert(sorted@.take(i + 1) =~= before.push(file));
            assert(before.push(file).drop_last() =~= before);
            reveal(Seq::filter);
        }
        let bytes = sorted[i].content.clone();
        assert(bytes@ =~= sorted@[i as int].content@);
        match document_from_bytes(path.clone(), bytes) {
            Ok(document) => {
                documents.push(document);
            },
            Err(reason) => {
                skipped.push((path, reason));
            },
        }
        i = i + 1;
    }
    assert(sorted@.take(i as int) =~= sorted@);
    WorkspaceTextInventory { documents, skipped }
}

/// The line and column of a byte offset, both one-based, columns counted in
/// scalar values; none inside a scalar value or after the end.
pub fn position_at(text: &str, offset: usize) -> (result: Option<TextPosition>)
    requires
        text@.len() < u32::MAX,
    ensures
        match result {
            Some(found) => {
                let k = position::index_at(text@, offset as int);
                &&& position::is_index_at(text@, offset as int, k)
                &&& found.line == position::line_of(text@, k)
                &&& found.column == position::column_of(text@, k)
            },
            None => !position::is_boundary(text@, offset as int),
        },
{
    let chars = text::chars_of(text);
    let total: usize = byte_length(text);
    match find_index(chars.as_slice(), total, offset) {
        Some(k) => {
            let (line, column) = line_and_column(chars.as_slice(), k);
            Some(TextPosition { line: line as u32, column: column as u32 })
        },
        None => None,
    }
}

/// The line or lines that a range of scalar values touches, without the white
/// space around them.
pub open spec fn snippet_text(s: Seq<char>, start: int, end: int) -> Seq<char> {
    position::trimmed(
        s.subrange(position::line_start(s, start), end + position::line_length(s, end)),
    )
}

/// The trimmed line around a byte range that lies on boundaries.
pub fn snippet_at(text: &str, start: usize, end: usize) -> (result: String)
    requires
        start <= end,
        position::is_boundary(text@, start as int),
        position::is_boundary(text@, end as int),
    ensures
        result@ == snippet_text(
            text@,
            position::index_at(text@, start as int),
            position::index_at(text@, end as int),
        ),
{
    let chars = text::chars_of(text);
    let len: usize = chars.len();
    let total: usize = byte_length(text);
    match (
        find_index(chars.as_slice(), total, start),
        find_index(chars.as_slice(), total, end),
    ) {
        (Some(low), Some(high)) => {
            proof {
                if high < low {
                    position::lemma_offset_increases(text@, high as int, low as int);
                }
                text::lemma_last_position(text@.take(low as int), '\n');
                text::lemma_first_position(text@.skip(high as int), '\n');
                assert(chars@.subrange(0, low as int) =~= text@.take(low as int));
                assert(chars@.subrange(high as int, len as int) =~= text@.skip(high as int));
            }
            let line_start: usize = match text::find_last_char(&chars[0..low], '\n') {
                Some(p) => p + 1,
                None => 0,
            };
            let line_end: usize = high + text::find_char(&chars[high..len], '\n');
            trim_part(chars.as_slice(), line_start, line_end)
        },
        _ => String::new(),
    }
}

/// Whether a range of flags is a run: all set, and not to be extended.
pub open spec fn is_run(flags: Seq<bool>, run: (int, int)) -> bool {
    &&& 0 <= run.0 < run.1 <= flags.len()
    &&& forall|k: int| run.0 <= k < run.1 ==> #[trigger] flags[k]
    &&& run.0 == 0 || !flags[run.0 - 1]
    &&& run.1 == flags.len() || !flags[run.1]
}

/// Whether a list holds every run of the flags, in order.
pub open spec fn are_runs(flags: Seq<bool>, runs: Seq<(int, int)>) -> bool {
    &&& forall|i: int| 0 <= i < runs.len() ==> is_run(flags, #[trigger] runs[i])
    &&& forall|i: int, j: int|
        #![trigger runs[i], runs[j]]
        0 <= i < j < runs.len() ==> runs[i].1 < runs[j].0
    &&& forall|k: int|
        0 <= k < flags.len() && #[trigger] flags[k] ==> exists|i: int|
            0 <= i < runs.len() && (#[trigger] runs[i]).0 <= k < runs[i].1
}

/// Whether scalar values belong to a lexical term.
pub open spec fn term_flags(s: Seq<char>) -> Seq<bool> {
    Seq::new(s.len(), |i: int| alphanumeric(s[i]) || s[i] == '_')
}

/// Whether terms are the texts of runs, with their byte offsets.
pub open spec fn are_terms_of(
    terms: Seq<(String, usize, usize)>,
    s: Seq<char>,
    runs: Seq<(int, int)>,
) -> bool {
    &&& terms.len() == runs.len()
    &&& forall|i: int|
        0 <= i < runs.len() ==> {
            &&& (#[trigger] terms[i]).0@ == s.subrange(runs[i].0, runs[i].1)
            &&& terms[i].1 == position::offset_of(s, runs[i].0)
            &&& terms[i].2 == position::offset_of(s, runs[i].1)
        }
}

/// Whether terms are exactly the runs of flagged scalar values of a text.
pub open spec fn are_flagged_terms(
    terms: Seq<(String, usize, usize)>,
    s: Seq<char>,
    flags: Seq<bool>,
) -> bool {
    exists|runs: Seq<(int, int)>| #[trigger]
        are_runs(flags, runs) && are_terms_of(terms, s, runs)
}

fn flag_terms(chars: &[char]) -> (result: Vec<bool>)
    ensures
        result@ == term_flags(chars@),
{
    let mut result: Vec<bool> = Vec::new();
    let mut i: usize = 0;
    while i < chars.len()
        invariant
            i <= chars@.len(),
            result@.len() == i,
            forall|j: int| 0 <= j < i ==> #[trigger] result@[j] == term_flags(chars@)[j],
        decreases chars@.len() - i,
    {
        result.push(is_alphanumeric(chars[i]) || chars[i] == '_');
        i = i + 1;
    }
    assert(result@ =~= term_flags(chars@));
    result
}

/// Cuts a text into the runs of its flagged scalar values.
pub fn terms_between(text: &str, flags: &[bool]) -> (result: Vec<(String, usize, usize)>)
    requires
        flags@.len() == text@.len(),
    ensures
        are_flagged_terms(result@, text@, flags@),
{
    let chars = text::chars_of(text);
    let total: usize = byte_length(text);
    let mut terms: Vec<(String, usize, usize)> = Vec::new();
    let ghost mut runs: Seq<(int, int)> = Seq::empty();
    let mut open: Option<(usize, usize)> = None;
    let mut here: usize = 0;
    let mut i: usize = 0;
    assert(chars@.take(0) =~= Seq::<char>::empty());
    while i < chars.len()
        invariant
            chars@ == text@,
            flags@.len() == text@.len(),
            total == text::byte_len(text@),
            i <= chars@.len(),
            here == position::offset_of(text@, i as int),
            are_terms_of(terms@, text@, runs),
            forall|r: int| 0 <= r < runs.len() ==> is_run(flags@, #[trigger] runs[r]),
            forall|r: int, q: int|
                #![trigger runs[r], runs[q]]
                0 <= r < q < runs.len() ==> runs[r].1 < runs[q].0,
            match open {
                Some((start, offset)) => {
                    &&& start < i
                    &&& offset == position::offset_of(text@, start as int)
                    &&& start == 0 || !flags@[start - 1]
                    &&& forall|k: int| start <= k < i ==> #[trigger] flags@[k]
                    &&& forall|r: int| 0 <= r < runs.len() ==> (#[trigger] runs[r]).1 < start
                },
                None => {
                    &&& i == 0 || !flags@[i - 1]
                    &&& forall|r: int| 0 <= r < runs.len() ==> (#[trigger] runs[r]).1 < i
                },
            },
            forall|k: int|
                0 <= k < (match open {
                    Some((start, _)) => start as int,
                    None => i as int,
                }) && #[trigger] flags@[k] ==> exists|r: int|
                    0 <= r < runs.len() && (#[trigger] runs[r]).0 <= k < runs[r].1,
        decreases chars@.len() - i,
    {
        proof {
            position::lemma_offset_step(text@, i as int);
            position::lemma_offset_increases(text@, i + 1, text@.len() as int);
        }
        if flags[i] {
            if open.is_none() {
                open = Some((i, here));
            }
        } else {
            let ghost old_runs = runs;
            if let Some((start, offset)) = open {
                terms.push((text::slice_text(chars.as_slice(), start, i), offset, here));
                proof {
                    runs = runs.push((start as int, i as int));
                    assert(is_run(flags@, (start as int, i as int)));
                    assert forall|k: int| 0 <= k < i && #[trigger] flags@[k] implies exists|r: int|
                        0 <= r < runs.len() && (#[trigger] runs[r]).0 <= k < runs[r].1 by {
                        if k < start {
                            let r = choose|r: int|
                                0 <= r < old_runs.len() && (#[trigger] old_runs[r]).0 <= k
                                    < old_runs[r].1;
                            assert(runs[r] == old_runs[r]);
                        } else {
                            assert(runs[old_runs.len() as int] == (start as int, i as int));
                        }
                    }
                }
                open = None;
            }
        }
        here = here + width_of(chars[i]);
        i = i + 1;
    }
    let ghost old_runs = runs;
    if let Some((start, offset)) = open {
        terms.push((text::slice_text(chars.as_slice(), start, i), offset, here));
        proof {
            runs = runs.push((start as int, i as int));
            assert(is_run(flags@, (start as int, i as int)));
            assert forall|k: int| 0 <= k < i && #[trigger] flags@[k] implies exists|r: int|
                0 <= r < runs.len() && (#[trigger] runs[r]).0 <= k < runs[r].1 by {
                if k < start {
                    let r = choose|r: int|
                        0 <= r < old_runs.len() && (#[trigger] old_runs[r]).0 <= k
                            < old_runs[r].1;
                    assert(runs[r] == old_runs[r]);
                } else {
                    assert(runs[old_runs.len() as int] == (start as int, i as int));
                }
            }
        }
    }
    assert(are_runs(flags@, runs));
    terms
}

/// The lexical terms of a text with their byte ranges: the longest runs of
/// alphanumeric scalar values and underscores.
pub fn lexical_terms(text: &str) -> (result: Vec<(String, usize, usize)>)
    ensures
        are_flagged_terms(result@, text@, term_flags(text@)),
{
    let chars = text::chars_of(text);
    let flags = flag_terms(chars.as_slice());
    terms_between(text, flags.as_slice())
}

/// At most one list holds the runs of given flags.
pub proof fn law_runs_are_unique(flags: Seq<bool>, a: Seq<(int, int)>, b: Seq<(int, int)>)
    requires
        are_runs(flags, a),
        are_runs(flags, b),
    ensures
        a == b,
    decreases a.len(),
{
    if a.len() == 0 {
        if b.len() > 0 {
            assert(flags[b[0].0]);
        }
    } else {
        assert(flags[a[0].0]);
        assert(b.len() > 0);
        lemma_run_in(flags, a, b);
        lemma_run_in(flags, b, a);
        let cut = a[0].1;
        let rest = Seq::new(flags.len(), |i: int| cut <= i && flags[i]);
        lemma_drop_run(flags, a);
        lemma_drop_run(flags, b);
        law_runs_are_unique(rest, a.drop_first(), b.drop_first());
        assert(a =~= seq![a[0]] + a.drop_first());
        assert(b =~= seq![b[0]] + b.drop_first());
    }
}

proof fn lemma_run_in(flags: Seq<bool>, a: Seq<(int, int)>, b: Seq<(int, int)>)
    requires
        are_runs(flags, a),
        are_runs(flags, b),
        a.len() > 0,
        b.len() > 0,
    ensures
        a[0] == b[0],
{
    assert(is_run(flags, a[0]) && is_run(flags, b[0]));
    assert(flags[a[0].0] && flags[b[0].0]);
    let i = choose|i: int| 0 <= i < b.len() && (#[trigger] b[i]).0 <= a[0].0 < b[i].1;
    let j = choose|j: int| 0 <= j < a.len() && (#[trigger] a[j]).0 <= b[0].0 < a[j].1;
    assert(is_run(flags, b[i]) && is_run(flags, a[j]));
    if b[0].0 < a[0].0 {
        assert(a[j].0 <= b[0].0);
        if j > 0 {
            assert(a[0].1 < a[j].0);
        }
        assert(false);
    }
    if a[0].0 < b[0].0 {
        if i > 0 {
            assert(b[0].1 < b[i].0);
        }
        assert(false);
    }
    if a[0].1 < b[0].1 {
        assert(flags[a[0].1]);
    }
    if b[0].1 < a[0].1 {
        assert(flags[b[0].1]);
    }
}

proof fn lemma_drop_run(flags: Seq<bool>, runs: Seq<(int, int)>)
    requires
        are_runs(flags, runs),
        runs.len() > 0,
    ensures
        are_runs(
            Seq::new(flags.len(), |i: int| runs[0].1 <= i && flags[i]),
            runs.drop_first(),
        ),
{
    let cut = runs[0].1;
    let rest = Seq::new(flags.len(), |i: int| cut <= i && flags[i]);
    let tail = runs.drop_first();
    assert forall|i: int| 0 <= i < tail.len() implies is_run(rest, #[trigger] tail[i]) by {
        assert(tail[i] == runs[i + 1]);
        assert(is_run(flags, runs[i + 1]));
        assert(runs[0].1 < runs[i + 1].0);
        assert forall|k: int| tail[i].0 <= k < tail[i].1 implies #[trigger] rest[k] by {
            assert(flags[k]);
        }
    }
    assert forall|i: int, j: int|
        #![trigger tail[i], tail[j]]
        0 <= i < j < tail.len() implies tail[i].1 < tail[j].0 by {
        assert(tail[i] == runs[i + 1] && tail[j] == runs[j + 1]);
    }
    assert forall|k: int| 0 <= k < rest.len() && #[trigger] rest[k] implies exists|i: int|
        0 <= i < tail.len() && (#[trigger] tail[i]).0 <= k < tail[i].1 by {
        assert(flags[k]);
        let i = choose|i: int| 0 <= i < runs.len() && (#[trigger] runs[i]).0 <= k < runs[i].1;
        assert(i > 0);
        assert(tail[i - 1] == runs[i]);
    }
}

/// Bytes are a document exactly where they are not too many, hold no zero byte
/// and are valid text. The document holds that text and is fingerprinted by its
/// bytes.
pub proof fn law_documents_are_readable_text(
    path: WorkspacePath,
    bytes: Vec<u8>,
    result: Result<TextDocument, TextDocumentSkip>,
)
    requires
        call_ensures(document_from_bytes, (path, bytes), result),
    ensures
        result is Ok <==> bytes@.len() <= MAX_TEXT_DOCUMENT_BYTES && !bytes@.contains(0u8)
            && vstd::utf8::valid_utf8(bytes@),
        result is Ok ==> result->Ok_0.path@ == path@ && vstd::utf8::encode_utf8(
            result->Ok_0.content@,
        ) == bytes@ && result->Ok_0.fingerprint@ == digest::fingerprint_text(bytes@),
        bytes@.len() > MAX_TEXT_DOCUMENT_BYTES ==> result->Err_0 is Oversized,
        bytes@.len() <= MAX_TEXT_DOCUMENT_BYTES && bytes@.contains(0u8)
            ==> result->Err_0 is Binary,
{
}

/// A term of a text is a longest run of alphanumeric scalar values and
/// underscores: each of its scalar values is one, and its byte range is where it
/// stands.
pub proof fn law_terms_are_longest_runs(
    text: &str,
    terms: Vec<(String, usize, usize)>,
    i: int,
) -> (run: (int, int))
    requires
        call_ensures(lexical_terms, (text,), terms),
        0 <= i < terms@.len(),
    ensures
        0 <= run.0 < run.1 <= text@.len(),
        terms@[i].0@ == text@.subrange(run.0, run.1),
        terms@[i].1 == vstd::utf8::encode_utf8(text@.take(run.0)).len(),
        terms@[i].2 == vstd::utf8::encode_utf8(text@.take(run.1)).len(),
        forall|k: int|
            run.0 <= k < run.1 ==> alphanumeric(#[trigger] text@[k]) || text@[k] == '_',
        run.0 > 0 ==> !alphanumeric(text@[run.0 - 1]) && text@[run.0 - 1] != '_',
        run.1 < text@.len() ==> !alphanumeric(text@[run.1]) && text@[run.1] != '_',
{
    let flags = term_flags(text@);
    let runs = choose|runs: Seq<(int, int)>| #[trigger]
        are_runs(flags, runs) && are_terms_of(terms@, text@, runs);
    let run = runs[i];
    assert(is_run(flags, run));
    assert(terms@[i].0@ == text@.subrange(run.0, run.1));
    assert forall|k: int| run.0 <= k < run.1 implies alphanumeric(#[trigger] text@[k]) || text@[k]
        == '_' by {
        assert(flags[k]);
    }
    run
}

/// Every alphanumeric scalar value and every underscore of a text lies in a term.
pub proof fn law_every_word_is_a_term(
    text: &str,
    terms: Vec<(String, usize, usize)>,
    k: int,
) -> (i: int)
    requires
        call_ensures(lexical_terms, (text,), terms),
        0 <= k < text@.len(),
        alphanumeric(text@[k]) || text@[k] == '_',
    ensures
        0 <= i < terms@.len(),
        terms@[i].1 <= vstd::utf8::encode_utf8(text@.take(k)).len() < terms@[i].2,
        terms@[i].0@.contains(text@[k]),
{
    let flags = term_flags(text@);
    let runs = choose|runs: Seq<(int, int)>| #[trigger]
        are_runs(flags, runs) && are_terms_of(terms@, text@, runs);
    assert(flags[k]);
    let i = choose|i: int| 0 <= i < runs.len() && (#[trigger] runs[i]).0 <= k < runs[i].1;
    assert(is_run(flags, runs[i]));
    assert(terms@[i].0@ == text@.subrange(runs[i].0, runs[i].1));
    assert(terms@[i].0@[k - runs[i].0] == text@[k]);
    if runs[i].0 < k {
        position::lemma_offset_increases(text@, runs[i].0, k);
    }
    position::lemma_offset_increases(text@, k, runs[i].1);
    i
}

/// Every file of a workspace is either a document, with its path and its text,
/// or named as skipped.
pub proof fn law_every_file_is_accounted_for(
    files: Vec<WorkspaceFile>,
    inventory: WorkspaceTextInventory,
    i: int,
) -> (k: int)
    requires
        call_ensures(collect_workspace_text, (files,), inventory),
        0 <= i < files@.len(),
    ensures
        ({
            let bytes = files@[i].content@;
            let readable = bytes.len() <= MAX_TEXT_DOCUMENT_BYTES && !bytes.contains(0u8)
                && vstd::utf8::valid_utf8(bytes);
            &&& readable ==> 0 <= k < inventory.documents@.len()
                && inventory.documents@[k].path@ == files@[i].path@ && vstd::utf8::encode_utf8(
                inventory.documents@[k].content@,
            ) == bytes
            &&& !readable ==> 0 <= k < inventory.skipped@.len() && inventory.skipped@[k].0@
                == files@[i].path@
        }),
{
    let sorted = ordering::stable_sorted(files@);
    let file = files@[i];
    assert(files@.contains(file));
    ordering::lemma_stable_sorted_contains(files@, file);
    let kept = |file: WorkspaceFile| skip_reason(file.content@) is None;
    let left = |file: WorkspaceFile| skip_reason(file.content@) is Some;
    if skip_reason(file.content@) is None {
        lemma_filter_keeps(sorted, kept, file);
        let k = document_files(sorted).index_of(file);
        assert(is_document_of(inventory.documents@[k], file.path@, file.content@));
        k
    } else {
        lemma_filter_keeps(sorted, left, file);
        let k = skipped_files(sorted).index_of(file);
        assert(inventory.skipped@[k].0@ == file.path@);
        k
    }
}

proof fn lemma_filter_keeps(s: Seq<WorkspaceFile>, f: spec_fn(WorkspaceFile) -> bool, x: WorkspaceFile)
    requires
        s.contains(x),
        f(x),
    ensures
        s.filter(f).contains(x),
    decreases s.len(),
{
    reveal(Seq::filter);
    let rest = s.drop_last();
    let kept = rest.filter(f);
    let now = s.filter(f);
    if rest.contains(x) {
        lemma_filter_keeps(rest, f, x);
        assert(now[kept.index_of(x)] == x);
    } else {
        let i = s.index_of(x);
        if i < rest.len() {
            assert(rest[i] == x);
        }
        assert(now[kept.len() as int] == x);
    }
}

} // verus!
