//! Building the documents of a session.
//!
//! A session holds, file by file, the deltas recorded on that file in
//! order, and the content that each file had before the session. Every
//! delta becomes one document: the text of the file is replayed through the
//! delta, and the document carries what the delta changed.

use crate::diff::{change_text, extract_change, word_diff, DIFF_LIMIT};
use crate::replay::{operation_views, replay, replayed, Operation, OperationView, ReplayFailure};
use crate::schema::{
    entry_views, fits_the_schema, number_entry, schema_fields, text_entry, FieldEntry,
    FieldEntryView, FieldValueView,
};
use crate::text::{chars_of, string_of};
use vstd::prelude::*;

verus! {

/// One recorded edit of one file: operations in order, and when it was made.
#[derive(Debug)]
pub struct Delta {
    pub operations: Vec<Operation>,
    pub timestamp_ms: u128,
}

/// A delta as a mathematical value.
pub struct DeltaView {
    pub operations: Seq<OperationView>,
    pub timestamp_ms: int,
}

impl View for Delta {
    type V = DeltaView;

    open spec fn view(&self) -> DeltaView {
        DeltaView {
            operations: operation_views(self.operations@),
            timestamp_ms: self.timestamp_ms as int,
        }
    }
}

/// The deltas of a list as mathematical values.
pub open spec fn delta_views(deltas: Seq<Delta>) -> Seq<DeltaView> {
    deltas.map_values(|d: Delta| d@)
}

/// The deltas recorded on one file during a session, in order.
#[derive(Debug)]
pub struct FileDeltas {
    pub file_path: String,
    pub deltas: Vec<Delta>,
}

/// The deltas of one file as a mathematical value.
pub struct FileDeltasView {
    pub file_path: Seq<char>,
    pub deltas: Seq<DeltaView>,
}

impl View for FileDeltas {
    type V = FileDeltasView;

    open spec fn view(&self) -> FileDeltasView {
        FileDeltasView { file_path: self.file_path@, deltas: delta_views(self.deltas@) }
    }
}

/// The files of a list as mathematical values.
pub open spec fn file_deltas_views(files: Seq<FileDeltas>) -> Seq<FileDeltasView> {
    files.map_values(|f: FileDeltas| f@)
}

/// The content that a file had before a session.
#[derive(Debug)]
pub struct FileContent {
    pub file_path: String,
    pub content: String,
}

/// The content of a file as a mathematical value.
pub struct FileContentView {
    pub file_path: Seq<char>,
    pub content: Seq<char>,
}

impl View for FileContent {
    type V = FileContentView;

    open spec fn view(&self) -> FileContentView {
        FileContentView { file_path: self.file_path@, content: self.content@ }
    }
}

/// The contents of a list as mathematical values.
pub open spec fn file_content_views(files: Seq<FileContent>) -> Seq<FileContentView> {
    files.map_values(|f: FileContent| f@)
}

/// A session as the history hands it over.
#[derive(Debug)]
pub struct Session {
    pub id: String,
    /// The deltas of the session, file by file, in the order to index them.
    pub deltas: Vec<FileDeltas>,
    /// The content of files before the session. A file that is not listed
    /// was empty.
    pub files: Vec<FileContent>,
}

/// A session as a mathematical value.
pub struct SessionView {
    pub id: Seq<char>,
    pub deltas: Seq<FileDeltasView>,
    pub files: Seq<FileContentView>,
}

impl View for Session {
    type V = SessionView;

    open spec fn view(&self) -> SessionView {
        SessionView {
            id: self.id@,
            deltas: file_deltas_views(self.deltas@),
            files: file_content_views(self.files@),
        }
    }
}

/// The searchable unit: what one delta changed in one file.
#[derive(Debug)]
pub struct IndexedDocument {
    pub version: u64,
    pub project_id: String,
    pub session_id: String,
    pub file_path: String,
    /// Position of the delta among the deltas of its file.
    pub delta_index: u64,
    /// The change text of the delta.
    pub diff: String,
    pub timestamp_ms: u64,
}

/// A document as a mathematical value.
pub struct DocumentView {
    pub version: u64,
    pub project_id: Seq<char>,
    pub session_id: Seq<char>,
    pub file_path: Seq<char>,
    pub delta_index: int,
    pub diff: Seq<char>,
    pub timestamp_ms: int,
}

impl View for IndexedDocument {
    type V = DocumentView;

    open spec fn view(&self) -> DocumentView {
        DocumentView {
            version: self.version,
            project_id: self.project_id@,
            session_id: self.session_id@,
            file_path: self.file_path@,
            delta_index: self.delta_index as int,
            diff: self.diff@,
            timestamp_ms: self.timestamp_ms as int,
        }
    }
}

/// What a document holds field by field, in the order in which the fields
/// are written: each field of the schema that the document has a value
/// for, by its name.
pub open spec fn document_entries(document: DocumentView) -> Seq<FieldEntryView> {
    seq![
        FieldEntryView { name: "version"@, value: FieldValueView::U64(document.version) },
        FieldEntryView {
            name: "delta_index"@,
            value: FieldValueView::U64(document.delta_index as u64),
        },
        FieldEntryView { name: "session_id"@, value: FieldValueView::Text(document.session_id) },
        FieldEntryView { name: "file_path"@, value: FieldValueView::Text(document.file_path) },
        FieldEntryView { name: "project_id"@, value: FieldValueView::Text(document.project_id) },
        FieldEntryView {
            name: "timestamp_ms"@,
            value: FieldValueView::U64(document.timestamp_ms as u64),
        },
        FieldEntryView { name: "diff"@, value: FieldValueView::Text(document.diff) },
    ]
}

/// Every field that a document has a value for is a field of the schema,
/// of the kind of the value.
pub proof fn lemma_document_fits_the_schema(document: DocumentView)
    ensures
        forall|k: int|
            0 <= k < document_entries(document).len() ==> fits_the_schema(
                #[trigger] document_entries(document)[k],
            ),
{
    let entries = document_entries(document);
    let fields = schema_fields();
    assert(fields[0].name == entries[0].name && fits_the_schema(entries[0]));
    assert(fields[3].name == entries[1].name && fits_the_schema(entries[1]));
    assert(fields[2].name == entries[2].name && fits_the_schema(entries[2]));
    assert(fields[4].name == entries[3].name && fits_the_schema(entries[3]));
    assert(fields[1].name == entries[4].name && fits_the_schema(entries[4]));
    assert(fields[8].name == entries[5].name && fits_the_schema(entries[5]));
    assert(fields[5].name == entries[6].name && fits_the_schema(entries[6]));
}

impl IndexedDocument {
    /// What the document holds, field by field, for the engine to write.
    pub fn entries(&self) -> (entries: Vec<FieldEntry>)
        ensures
            entry_views(entries@) == document_entries(self@),
    {
        let mut entries: Vec<FieldEntry> = Vec::new();
        entries.push(number_entry("version", self.version));
        entries.push(number_entry("delta_index", self.delta_index));
        entries.push(text_entry("session_id", self.session_id.as_str()));
        entries.push(text_entry("file_path", self.file_path.as_str()));
        entries.push(text_entry("project_id", self.project_id.as_str()));
        entries.push(number_entry("timestamp_ms", self.timestamp_ms));
        entries.push(text_entry("diff", self.diff.as_str()));
        assert(entry_views(entries@) =~= document_entries(self@));
        entries
    }
}

/// The documents of a list as mathematical values.
pub open spec fn document_views(documents: Seq<IndexedDocument>) -> Seq<DocumentView> {
    documents.map_values(|d: IndexedDocument| d@)
}

/// Why a delta gives no document.
#[derive(Debug, Clone, Copy, PartialEq, Eq, Structural)]
pub enum DeltaError {
    /// The timestamp does not fit the 64 bits of the schema's field.
    TimestampOutOfRange,
    /// An operation of the delta does not fit the text it met.
    InapplicableOperation(ReplayFailure),
    /// The texts before and after the delta are together longer than the
    /// word diff takes.
    TextTooLong,
}

/// Why a session gives no documents: the first delta that failed.
#[derive(Debug, Clone, Copy, PartialEq, Eq, Structural)]
pub struct IndexError {
    /// Position of the file among the files of the session.
    pub file: usize,
    /// Position of the delta among the deltas of that file.
    pub delta: usize,
    pub cause: DeltaError,
}

/// Where a document comes from: the same for all documents of one file in
/// one session.
pub struct Origin {
    pub version: u64,
    pub project_id: Seq<char>,
    pub session_id: Seq<char>,
    pub file_path: Seq<char>,
}

/// The document of one delta, on the text `before` that the file had when
/// the delta was made; or why there is none. The timestamp is looked at
/// first, then the operations, then the length of the two texts.
pub open spec fn delta_document(origin: Origin, index: int, before: Seq<char>, delta: DeltaView)
    -> Result<DocumentView, DeltaError> {
    if delta.timestamp_ms > u64::MAX {
        Err(DeltaError::TimestampOutOfRange)
    } else {
        match replayed(before, delta.operations) {
            Err(failure) => Err(DeltaError::InapplicableOperation(failure)),
            Ok(after) => if before.len() + after.len() > DIFF_LIMIT {
                Err(DeltaError::TextTooLong)
            } else {
                Ok(
                    DocumentView {
                        version: origin.version,
                        project_id: origin.project_id,
                        session_id: origin.session_id,
                        file_path: origin.file_path,
                        delta_index: index,
                        diff: change_text(word_diff(before, after)),
                        timestamp_ms: delta.timestamp_ms,
                    },
                )
            },
        }
    }
}

/// The documents of a file's deltas, and the text of the file after them.
pub struct FileOutcome {
    pub documents: Seq<DocumentView>,
    pub text: Seq<char>,
}

/// The first delta of a file that failed, and why.
pub struct FileError {
    pub delta: usize,
    pub cause: DeltaError,
}

/// The outcome of indexing the deltas of one file in order, starting from
/// the text `initial`: one document per delta, each on the text that the
/// deltas before it made; or the first delta that gives none.
pub open spec fn file_outcome(origin: Origin, initial: Seq<char>, deltas: Seq<DeltaView>) -> Result<
    FileOutcome,
    FileError,
>
    decreases deltas.len(),
{
    if deltas.len() == 0 {
        Ok(FileOutcome { documents: Seq::empty(), text: initial })
    } else {
        match file_outcome(origin, initial, deltas.drop_last()) {
            Err(error) => Err(error),
            Ok(reached) => match delta_document(
                origin,
                deltas.len() - 1,
                reached.text,
                deltas.last(),
            ) {
                Err(cause) => Err(FileError { delta: (deltas.len() - 1) as usize, cause }),
                Ok(document) => Ok(
                    FileOutcome {
                        documents: reached.documents.push(document),
                        text: replayed(reached.text, deltas.last().operations)->Ok_0,
                    },
                ),
            },
        }
    }
}

/// The content that `files` lists for `file_path`: that of the first entry
/// with this path, the empty text where there is none.
pub open spec fn content_before(files: Seq<FileContentView>, file_path: Seq<char>) -> Seq<char>
    decreases files.len(),
{
    if files.len() == 0 {
        Seq::empty()
    } else if files.first().file_path == file_path {
        files.first().content
    } else {
        content_before(files.drop_first(), file_path)
    }
}

/// The outcome of indexing the given files of a session in order: the
/// documents of each file one after the other, or the first delta that
/// gives none.
pub open spec fn files_outcome(
    version: u64,
    project_id: Seq<char>,
    session_id: Seq<char>,
    contents: Seq<FileContentView>,
    files: Seq<FileDeltasView>,
) -> Result<Seq<DocumentView>, IndexError>
    decreases files.len(),
{
    if files.len() == 0 {
        Ok(Seq::empty())
    } else {
        match files_outcome(version, project_id, session_id, contents, files.drop_last()) {
            Err(error) => Err(error),
            Ok(documents) => match file_outcome(
                Origin { version, project_id, session_id, file_path: files.last().file_path },
                content_before(contents, files.last().file_path),
                files.last().deltas,
            ) {
                Err(error) => Err(
                    IndexError {
                        file: (files.len() - 1) as usize,
                        delta: error.delta,
                        cause: error.cause,
                    },
                ),
                Ok(reached) => Ok(documents + reached.documents),
            },
        }
    }
}

/// The documents of a session under schema version `version`, or the first
/// delta that gives none.
pub open spec fn session_outcome(version: u64, project_id: Seq<char>, session: SessionView)
    -> Result<Seq<DocumentView>, IndexError> {
    files_outcome(version, project_id, session.id, session.files, session.deltas)
}

/// A failure among the first `k` deltas of a file is the failure of the file.
pub proof fn lemma_file_failure_stays(
    origin: Origin,
    initial: Seq<char>,
    deltas: Seq<DeltaView>,
    k: int,
)
    requires
        0 <= k <= deltas.len(),
        file_outcome(origin, initial, deltas.take(k)) is Err,
    ensures
        file_outcome(origin, initial, deltas) == file_outcome(origin, initial, deltas.take(k)),
    decreases deltas.len() - k,
{
    if k == deltas.len() {
        assert(deltas.take(k) == deltas);
    } else {
        assert(deltas.take(k + 1).drop_last() == deltas.take(k));
        lemma_file_failure_stays(origin, initial, deltas, k + 1);
    }
}

/// A failure among the first `k` files of a session is the failure of the
/// session.
pub proof fn lemma_session_failure_stays(
    version: u64,
    project_id: Seq<char>,
    session_id: Seq<char>,
    contents: Seq<FileContentView>,
    files: Seq<FileDeltasView>,
    k: int,
)
    requires
        0 <= k <= files.len(),
        files_outcome(version, project_id, session_id, contents, files.take(k)) is Err,
    ensures
        files_outcome(version, project_id, session_id, contents, files) == files_outcome(
            version,
            project_id,
            session_id,
            contents,
            files.take(k),
        ),
    decreases files.len() - k,
{
    if k == files.len() {
        assert(files.take(k) == files);
    } else {
        assert(files.take(k + 1).drop_last() == files.take(k));
        lemma_session_failure_stays(version, project_id, session_id, contents, files, k + 1);
    }
}

/// Whether no path is listed twice among the files of a session.
pub open spec fn distinct_paths(files: Seq<FileDeltasView>) -> bool {
    forall|i: int, j: int|
        0 <= i < j < files.len() ==> (#[trigger] files[i]).file_path != (
        #[trigger] files[j]).file_path
}

/// Whether a file with this path is among `files`.
pub open spec fn listed(files: Seq<FileDeltasView>, file_path: Seq<char>) -> bool {
    exists|f: int| 0 <= f < files.len() && (#[trigger] files[f]).file_path == file_path
}

/// Whether no two documents stand for the same delta of the same file.
pub open spec fn distinct_documents(documents: Seq<DocumentView>) -> bool {
    forall|a: int, b: int|
        0 <= a < b < documents.len() ==> !((#[trigger] documents[a]).file_path == (
        #[trigger] documents[b]).file_path && documents[a].delta_index == documents[b].delta_index)
}

/// The documents of a file carry where they come from, and each the
/// position of its delta: the document of delta `k` is document `k`.
pub proof fn lemma_documents_of_a_file(origin: Origin, initial: Seq<char>, deltas: Seq<DeltaView>)
    requires
        file_outcome(origin, initial, deltas) is Ok,
    ensures
        file_outcome(origin, initial, deltas)->Ok_0.documents.len() == deltas.len(),
        forall|k: int|
            0 <= k < deltas.len() ==> {
                let document = #[trigger] file_outcome(origin, initial, deltas)->Ok_0.documents[k];
                &&& document.version == origin.version
                &&& document.project_id == origin.project_id
                &&& document.session_id == origin.session_id
                &&& document.file_path == origin.file_path
                &&& document.delta_index == k
                &&& document.timestamp_ms == deltas[k].timestamp_ms
            },
    decreases deltas.len(),
{
    if deltas.len() > 0 {
        lemma_documents_of_a_file(origin, initial, deltas.drop_last());
    }
}

/// The documents of a session whose files have distinct paths: each comes
/// from one of the files, and no two stand for the same delta of the same
/// file.
pub proof fn lemma_documents_are_distinct(
    version: u64,
    project_id: Seq<char>,
    session_id: Seq<char>,
    contents: Seq<FileContentView>,
    files: Seq<FileDeltasView>,
)
    requires
        distinct_paths(files),
        files_outcome(version, project_id, session_id, contents, files) is Ok,
    ensures
        forall|a: int|
            0 <= a < files_outcome(version, project_id, session_id, contents, files)->Ok_0.len()
                ==> listed(
                files,
                (#[trigger] files_outcome(
                    version,
                    project_id,
                    session_id,
                    contents,
                    files,
                )->Ok_0[a]).file_path,
            ),
        distinct_documents(files_outcome(version, project_id, session_id, contents, files)->Ok_0),
    decreases files.len(),
{
    if files.len() > 0 {
        let earlier = files.drop_last();
        let last = files.last();
        let before = files_outcome(version, project_id, session_id, contents, earlier)->Ok_0;
        let origin = Origin { version, project_id, session_id, file_path: last.file_path };
        let initial = content_before(contents, last.file_path);
        let more = file_outcome(origin, initial, last.deltas)->Ok_0.documents;
        let all = files_outcome(version, project_id, session_id, contents, files)->Ok_0;
        assert(all == before + more);
        assert(distinct_paths(earlier)) by {
            assert forall|i: int, j: int| 0 <= i < j < earlier.len() implies (
            #[trigger] earlier[i]).file_path != (#[trigger] earlier[j]).file_path by {
                assert(earlier[i] == files[i] && earlier[j] == files[j]);
            }
        }
        lemma_documents_are_distinct(version, project_id, session_id, contents, earlier);
        lemma_documents_of_a_file(origin, initial, last.deltas);
        assert forall|a: int| 0 <= a < all.len() implies listed(
            files,
            (#[trigger] all[a]).file_path,
        ) by {
            if a < before.len() {
                lemma_listed_among_more(earlier, files, before[a].file_path);
            } else {
                assert(all[a] == more[a - before.len()]);
                assert(files[files.len() - 1].file_path == all[a].file_path);
            }
        }
        assert forall|a: int, b: int| 0 <= a < b < all.len() implies !((#[trigger] all[a]).file_path
            == (#[trigger] all[b]).file_path && all[a].delta_index == all[b].delta_index) by {
            if b < before.len() {
                // Both come from earlier files.
                assert(all[a] == before[a] && all[b] == before[b]);
            } else if a >= before.len() {
                // Both come from the last file, from different deltas.
                assert(all[a] == more[a - before.len()]);
                assert(all[b] == more[b - before.len()]);
            } else {
                // One comes from an earlier file, one from the last.
                assert(all[a] == before[a]);
                assert(all[b] == more[b - before.len()]);
                assert(listed(earlier, before[a].file_path));
                let f = choose|f: int|
                    0 <= f < earlier.len() && (#[trigger] earlier[f]).file_path
                        == before[a].file_path;
                assert(files[f] == earlier[f]);
                assert(files[f].file_path != files[files.len() - 1].file_path);
            }
        }
    }
}

/// A path that is among the first files of a list is among the files of
/// the list.
proof fn lemma_listed_among_more(
    earlier: Seq<FileDeltasView>,
    files: Seq<FileDeltasView>,
    file_path: Seq<char>,
)
    requires
        earlier == files.drop_last(),
        files.len() > 0,
        listed(earlier, file_path),
    ensures
        listed(files, file_path),
{
    let f = choose|f: int| 0 <= f < earlier.len() && (#[trigger] earlier[f]).file_path == file_path;
    assert(files[f] == earlier[f]);
}

/// Whether no path is listed twice among the files.
pub fn has_distinct_paths(files: &Vec<FileDeltas>) -> (distinct: bool)
    ensures
        distinct == distinct_paths(file_deltas_views(files@)),
{
    let ghost views = file_deltas_views(files@);
    let mut j: usize = 0;
    while j < files.len()
        invariant
            j <= files.len(),
            views == file_deltas_views(files@),
            forall|a: int, b: int|
                0 <= a < b < j ==> (#[trigger] views[a]).file_path != (#[trigger] views[b]).file_path,
        decreases files.len() - j,
    {
        let mut i: usize = 0;
        while i < j
            invariant
                i <= j < files.len(),
                views == file_deltas_views(files@),
                forall|a: int| 0 <= a < i ==> (#[trigger] views[a]).file_path != views[j as int].file_path,
            decreases j - i,
        {
            if files[i].file_path == files[j].file_path {
                assert(views[i as int].file_path == views[j as int].file_path);
                return false;
            }
            i = i + 1;
        }
        j = j + 1;
    }
    true
}

/// Builds the document of one delta and brings the text of its file up to
/// date.
///
/// `file_text` comes in as the text before the delta. On success it goes
/// out as the text after it, the text that the next delta of the file is
/// made on. With a timestamp out of range it is not touched. After a failed
/// operation it holds what the operations before that one made of it, a
/// state to discard.
pub fn index_delta(
    version: u64,
    project_id: &str,
    session_id: &str,
    file_text: &mut Vec<char>,
    file_path: &str,
    i: usize,
    delta: &Delta,
) -> (outcome: Result<IndexedDocument, DeltaError>)
    ensures
        match outcome {
            Ok(document) => {
                &&& delta_document(
                    Origin {
                        version,
                        project_id: project_id@,
                        session_id: session_id@,
                        file_path: file_path@,
                    },
                    i as int,
                    old(file_text)@,
                    delta@,
                ) == Ok::<DocumentView, DeltaError>(document@)
                &&& replayed(old(file_text)@, delta@.operations) == Ok::<
                    Seq<char>,
                    ReplayFailure,
                >(final(file_text)@)
                &&& final(file_text)@ == old(file_text)@ ==> document@.diff == Seq::<char>::empty()
            },
            Err(error) => {
                &&& delta_document(
                    Origin {
                        version,
                        project_id: project_id@,
                        session_id: session_id@,
                        file_path: file_path@,
                    },
                    i as int,
                    old(file_text)@,
                    delta@,
                ) == Err::<DocumentView, DeltaError>(error)
                &&& error == DeltaError::TimestampOutOfRange ==> final(file_text)@ == old(
                    file_text,
                )@
                &&& error matches DeltaError::InapplicableOperation(failure) ==> replayed(
                    old(file_text)@,
                    delta@.operations.take(failure.operation as int),
                ) == Ok::<Seq<char>, ReplayFailure>(final(file_text)@)
                &&& error == DeltaError::TextTooLong ==> replayed(
                    old(file_text)@,
                    delta@.operations,
                ) == Ok::<Seq<char>, ReplayFailure>(final(file_text)@)
            },
        },
{
    if delta.timestamp_ms > 0xffff_ffff_ffff_ffff {
        return Err(DeltaError::TimestampOutOfRange);
    }
    let timestamp_ms: u64 = delta.timestamp_ms as u64;
    let before = string_of(file_text);
    let before_len: usize = file_text.len();
    match replay(file_text, &delta.operations) {
        Ok(()) => {},
        Err(failure) => {
            return Err(DeltaError::InapplicableOperation(failure));
        },
    }
    if before_len as u64 > DIFF_LIMIT || file_text.len() as u64 > DIFF_LIMIT - before_len as u64 {
        return Err(DeltaError::TextTooLong);
    }
    let after = string_of(file_text);
    let diff = extract_change(before.as_str(), after.as_str());
    Ok(
        IndexedDocument {
            version,
            project_id: project_id.to_owned(),
            session_id: session_id.to_owned(),
            file_path: file_path.to_owned(),
            delta_index: i as u64,
            diff,
            timestamp_ms,
        },
    )
}

/// The content that `files` lists for `file_path`, as characters.
fn text_before(files: &Vec<FileContent>, file_path: &String) -> (text: Vec<char>)
    ensures
        text@ == content_before(file_content_views(files@), file_path@),
{
    let ghost views = file_content_views(files@);
    let mut i: usize = 0;
    assert(views.subrange(0, views.len() as int) == views);
    while i < files.len()
        invariant
            i <= files.len(),
            views == file_content_views(files@),
            content_before(views, file_path@) == content_before(
                views.subrange(i as int, views.len() as int),
                file_path@,
            ),
        decreases files.len() - i,
    {
        let ghost rest = views.subrange(i as int, views.len() as int);
        proof {
            assert(rest.drop_first() == views.subrange(i + 1, views.len() as int));
        }
        if files[i].file_path == *file_path {
            return chars_of(files[i].content.as_str());
        }
        i = i + 1;
    }
    Vec::new()
}

/// Builds the documents of one file of a session.
fn index_file(
    version: u64,
    project_id: &str,
    session_id: &str,
    contents: &Vec<FileContent>,
    file: &FileDeltas,
) -> (outcome: Result<Vec<IndexedDocument>, FileError>)
    ensures
        match outcome {
            Ok(documents) => {
                let expected = file_outcome(
                    Origin {
                        version,
                        project_id: project_id@,
                        session_id: session_id@,
                        file_path: file.file_path@,
                    },
                    content_before(file_content_views(contents@), file.file_path@),
                    file@.deltas,
                );
                expected is Ok && expected->Ok_0.documents == document_views(documents@)
            },
            Err(error) => file_outcome(
                Origin {
                    version,
                    project_id: project_id@,
                    session_id: session_id@,
                    file_path: file.file_path@,
                },
                content_before(file_content_views(contents@), file.file_path@),
                file@.deltas,
            ) == Err::<FileOutcome, FileError>(error),
        },
{
    let ghost origin = Origin {
        version,
        project_id: project_id@,
        session_id: session_id@,
        file_path: file.file_path@,
    };
    let ghost initial = content_before(file_content_views(contents@), file.file_path@);
    let ghost deltas = file@.deltas;
    let mut file_text = text_before(contents, &file.file_path);
    let mut documents: Vec<IndexedDocument> = Vec::new();
    let mut i: usize = 0;
    assert(document_views(documents@) == Seq::<DocumentView>::empty());
    while i < file.deltas.len()
        invariant
            i <= file.deltas.len(),
            deltas == delta_views(file.deltas@),
            initial == content_before(file_content_views(contents@), file.file_path@),
            origin == (Origin {
                version,
                project_id: project_id@,
                session_id: session_id@,
                file_path: file.file_path@,
            }),
            file_outcome(origin, initial, deltas.take(i as int)) == Ok::<FileOutcome, FileError>(
                FileOutcome { documents: document_views(documents@), text: file_text@ },
            ),
        decreases file.deltas.len() - i,
    {
        proof {
            assert(deltas.take(i + 1).drop_last() == deltas.take(i as int));
        }
        let ghost so_far = document_views(documents@);
        match index_delta(
            version,
            project_id,
            session_id,
            &mut file_text,
            file.file_path.as_str(),
            i,
            &file.deltas[i],
        ) {
            Ok(document) => {
                documents.push(document);
                assert(document_views(documents@) == so_far.push(document@));
            },
            Err(cause) => {
                let error = FileError { delta: i, cause };
                proof {
                    lemma_file_failure_stays(origin, initial, deltas, i + 1);
                }
                return Err(error);
            },
        }
        i = i + 1;
    }
    assert(deltas.take(i as int) == deltas);
    Ok(documents)
}

/// Builds the documents of a session under schema version `version`: for
/// each file in order, one document per delta in order, the text of the
/// file carried from each delta to the next.
///
/// The documents come out together or not at all: the first delta that
/// gives no document fails the session. A session without deltas gives no
/// documents and does not fail.
pub fn index_session(version: u64, project_id: &str, session: &Session) -> (outcome: Result<
    Vec<IndexedDocument>,
    IndexError,
>)
    ensures
        match outcome {
            Ok(documents) => session_outcome(version, project_id@, session@) == Ok::<
                Seq<DocumentView>,
                IndexError,
            >(document_views(documents@)),
            Err(error) => session_outcome(version, project_id@, session@) == Err::<
                Seq<DocumentView>,
                IndexError,
            >(error),
        },
{
    let ghost files = session@.deltas;
    let ghost contents = session@.files;
    let mut documents: Vec<IndexedDocument> = Vec::new();
    let mut i: usize = 0;
    assert(document_views(documents@) == Seq::<DocumentView>::empty());
    while i < session.deltas.len()
        invariant
            i <= session.deltas.len(),
            files == file_deltas_views(session.deltas@),
            contents == file_content_views(session.files@),
            files_outcome(version, project_id@, session.id@, contents, files.take(i as int))
                == Ok::<Seq<DocumentView>, IndexError>(document_views(documents@)),
        decreases session.deltas.len() - i,
    {
        proof {
            assert(files.take(i + 1).drop_last() == files.take(i as int));
        }
        let ghost so_far = document_views(documents@);
        match index_file(version, project_id, session.id.as_str(), &session.files, &session.deltas[i]) {
            Ok(more) => {
                let mut more = more;
                let ghost added = document_views(more@);
                documents.append(&mut more);
                assert(document_views(documents@) == so_far + added);
            },
            Err(error) => {
                let error = IndexError { file: i, delta: error.delta, cause: error.cause };
                proof {
                    lemma_session_failure_stays(
                        version,
                        project_id@,
                        session.id@,
                        contents,
                        files,
                        i + 1,
                    );
                }
                return Err(error);
            },
        }
        i = i + 1;
    }
    assert(files.take(i as int) == files);
    Ok(documents)
}

} // verus!
