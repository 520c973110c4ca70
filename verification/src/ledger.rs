//! The version ledger: which schema version last indexed each session.
//!
//! The ledger keeps one entry per project and session in a key/value store.
//! The key is a path of two segments below `indexes/meta`, one made of the
//! project's id and one of the session's. An id is taken as it is, but for
//! a slash and a percent sign, which are written as `%2F` and `%25`, for a
//! dot at its start, written as `%2E`, and for the empty id, written as
//! `%`. So two pairs of ids never share a key, whatever the ids hold, and
//! every segment is a name that a file can have: it is not empty, holds no
//! slash and is neither `.` nor `..`. The value is the version in decimal.
//! An entry whose value is no such number counts as no entry.

use crate::decimal::{decimal, format_u64, lemma_parse_decimal_of_decimal, parse_decimal, parse_u64};
use crate::storage::{answer, number_above, spells_above, Storage, StorageError};
use crate::text::chars_of;
use vstd::prelude::*;
use vstd::string::StringExecFns;

verus! {

/// How one character of an id is written in a segment of a key.
pub open spec fn escaped_char(c: char) -> Seq<char> {
    if c == '%' {
        seq!['%', '2', '5']
    } else if c == '/' {
        seq!['%', '2', 'F']
    } else {
        seq![c]
    }
}

/// The characters of `text` one after the other, each as `escaped_char`
/// writes it.
pub open spec fn written(text: Seq<char>) -> Seq<char>
    decreases text.len(),
{
    if text.len() == 0 {
        Seq::empty()
    } else {
        escaped_char(text.first()) + written(text.drop_first())
    }
}

/// The segment of a key that stands for `id`: its characters as they are
/// written, but a dot at the start as `%2E`, and the empty id as `%`.
pub open spec fn escaped(id: Seq<char>) -> Seq<char> {
    if id.len() == 0 {
        seq!['%']
    } else if id.first() == '.' {
        seq!['%', '2', 'E'] + written(id.drop_first())
    } else {
        written(id)
    }
}

/// The key made of two segments.
pub open spec fn joined_key(project: Seq<char>, session: Seq<char>) -> Seq<char> {
    "indexes/meta/"@ + project + seq!['/'] + session
}

/// The key under which the ledger keeps the entry of a session.
pub open spec fn ledger_key(project_id: Seq<char>, session_hash: Seq<char>) -> Seq<char> {
    joined_key(escaped(project_id), escaped(session_hash))
}

/// The version that `entries` records under `key`: the number that the
/// stored text spells, none where nothing or no number is stored.
pub open spec fn recorded_at(entries: Map<Seq<char>, Seq<char>>, key: Seq<char>) -> Option<u64> {
    if entries.contains_key(key) {
        parse_decimal(entries[key])
    } else {
        None
    }
}

/// What the ledger answers under `key`, with these entries and these keys
/// that could not be read: the version recorded, none where nothing or no
/// number is stored, and an error where the entry could not be read.
pub open spec fn looked_up(
    entries: Map<Seq<char>, Seq<char>>,
    unreadable: Set<Seq<char>>,
    key: Seq<char>,
) -> Result<Option<u64>, StorageError> {
    match answer(entries, unreadable, key) {
        Ok(Some(text)) => Ok(parse_decimal(text)),
        Ok(None) => Ok(None),
        Err(error) => Err(error),
    }
}

/// Whether a recorded version is at most `version`; no version is.
pub open spec fn at_most(found: Option<u64>, version: u64) -> bool {
    match found {
        None => true,
        Some(high) => high <= version,
    }
}

/// Whether `entries` records no version above `version`.
pub open spec fn within(entries: Map<Seq<char>, Seq<char>>, version: u64) -> bool {
    forall|key: Seq<char>| at_most(#[trigger] recorded_at(entries, key), version)
}

/// What is written of a text with one more character at its end.
pub proof fn lemma_written_push(text: Seq<char>, c: char)
    ensures
        written(text.push(c)) == written(text) + escaped_char(c),
    decreases text.len(),
{
    let longer = text.push(c);
    if text.len() == 0 {
        assert(longer.drop_first() == text);
    } else {
        assert(longer.drop_first() == text.drop_first().push(c));
        lemma_written_push(text.drop_first(), c);
    }
}

/// What is written holds no slash.
pub proof fn lemma_written_has_no_slash(text: Seq<char>)
    ensures
        forall|i: int| 0 <= i < written(text).len() ==> #[trigger] written(text)[i] != '/',
    decreases text.len(),
{
    if text.len() > 0 {
        lemma_written_has_no_slash(text.drop_first());
        let head = escaped_char(text.first());
        let tail = written(text.drop_first());
        assert forall|i: int| 0 <= i < written(text).len() implies #[trigger] written(text)[i]
            != '/' by {
            if i >= head.len() {
                assert(written(text)[i] == tail[i - head.len()]);
            }
        }
    }
}

/// How what is written of a text with a character starts, and how it goes
/// on: with what its first character is written as, then with what is
/// written of the rest.
proof fn lemma_written_starts(text: Seq<char>)
    requires
        text.len() > 0,
    ensures
        written(text).len() == escaped_char(text.first()).len() + written(text.drop_first()).len(),
        written(text)[0] == escaped_char(text.first())[0],
        escaped_char(text.first()).len() == 3 ==> written(text)[2] == escaped_char(
            text.first(),
        )[2],
        written(text.drop_first()) == written(text).subrange(
            escaped_char(text.first()).len() as int,
            written(text).len() as int,
        ),
{
    let head = escaped_char(text.first());
    let tail = written(text.drop_first());
    assert(written(text) == head + tail);
    assert(tail =~= (head + tail).subrange(head.len() as int, (head + tail).len() as int));
}

/// Two texts that are written the same are the same text.
pub proof fn lemma_written_is_one_to_one(a: Seq<char>, b: Seq<char>)
    requires
        written(a) == written(b),
    ensures
        a == b,
    decreases a.len(),
{
    if a.len() == 0 && b.len() == 0 {
        assert(a =~= b);
    } else if a.len() == 0 {
        // A text with a character is written with a character.
        lemma_written_starts(b);
    } else if b.len() == 0 {
        lemma_written_starts(a);
    } else {
        // The first character written tells whether the first character of
        // the text is written out, the third which one it is.
        lemma_written_starts(a);
        lemma_written_starts(b);
        assert(a.first() == b.first());
        lemma_written_is_one_to_one(a.drop_first(), b.drop_first());
        assert(a =~= seq![a.first()] + a.drop_first());
        assert(b =~= seq![b.first()] + b.drop_first());
    }
}

/// A segment is a name that a file can have: it is not empty, holds no
/// slash and does not start with a dot, so that it is neither `.` nor `..`.
pub proof fn lemma_escaped_names_a_file(id: Seq<char>)
    ensures
        escaped(id).len() > 0,
        escaped(id)[0] != '.',
        forall|i: int| 0 <= i < escaped(id).len() ==> #[trigger] escaped(id)[i] != '/',
{
    if id.len() > 0 {
        let rest = id.drop_first();
        lemma_written_has_no_slash(rest);
        lemma_written_has_no_slash(id);
        let head = if id.first() == '.' {
            seq!['%', '2', 'E']
        } else {
            escaped_char(id.first())
        };
        assert(escaped(id) == head + written(rest));
        assert(escaped(id)[0] == head[0]);
        assert forall|i: int| 0 <= i < escaped(id).len() implies #[trigger] escaped(id)[i]
            != '/' by {
            if i >= head.len() {
                assert(escaped(id)[i] == written(rest)[i - head.len()]);
            }
        }
    }
}

/// Two ids with the same segment are the same id.
pub proof fn lemma_escaped_is_one_to_one(a: Seq<char>, b: Seq<char>)
    requires
        escaped(a) == escaped(b),
    ensures
        a == b,
{
    let dot = seq!['%', '2', 'E'];
    if a.len() == 0 || b.len() == 0 {
        // Only the empty id is written as a lone percent sign.
        if a.len() > 0 {
            lemma_segment_starts(a);
        }
        if b.len() > 0 {
            lemma_segment_starts(b);
        }
        assert(a =~= b);
    } else {
        lemma_segment_starts(a);
        lemma_segment_starts(b);
        if a.first() == '.' && b.first() == '.' {
            let whole = escaped(a);
            assert(written(a.drop_first()) == whole.subrange(3, whole.len() as int));
            assert(written(b.drop_first()) == whole.subrange(3, whole.len() as int));
            lemma_written_is_one_to_one(a.drop_first(), b.drop_first());
            assert(a =~= seq![a.first()] + a.drop_first());
            assert(b =~= seq![b.first()] + b.drop_first());
        } else if a.first() != '.' && b.first() != '.' {
            lemma_written_is_one_to_one(a, b);
        }
    }
}

/// How the segment of an id with a character starts: with the character
/// itself, which is then no percent sign, or with a percent sign, a `2` and
/// the letter that tells a dot, a slash and a percent sign apart.
proof fn lemma_segment_starts(id: Seq<char>)
    requires
        id.len() > 0,
    ensures
        id.first() != '.' && id.first() != '/' && id.first() != '%' ==> escaped(id)[0]
            == id.first(),
        id.first() == '.' ==> escaped(id).len() >= 3 && escaped(id)[0] == '%' && escaped(id)[2]
            == 'E',
        id.first() == '/' ==> escaped(id).len() >= 3 && escaped(id)[0] == '%' && escaped(id)[2]
            == 'F',
        id.first() == '%' ==> escaped(id).len() >= 3 && escaped(id)[0] == '%' && escaped(id)[2]
            == '5',
{
    let head = if id.first() == '.' {
        seq!['%', '2', 'E']
    } else {
        escaped_char(id.first())
    };
    assert(escaped(id) == head + written(id.drop_first()));
    assert(escaped(id)[0] == head[0]);
    if head.len() == 3 {
        assert(escaped(id)[2] == head[2]);
    }
}

/// Two keys made of segments without a slash are the same only if their
/// segments are.
pub proof fn lemma_joined_key_is_one_to_one(
    project: Seq<char>,
    session: Seq<char>,
    other_project: Seq<char>,
    other_session: Seq<char>,
)
    requires
        joined_key(project, session) == joined_key(other_project, other_session),
        forall|i: int| 0 <= i < project.len() ==> project[i] != '/',
        forall|i: int| 0 <= i < other_project.len() ==> other_project[i] != '/',
    ensures
        project == other_project,
        session == other_session,
{
    let root = "indexes/meta/"@;
    let key = joined_key(project, session);
    let rest = project + seq!['/'] + session;
    let other_rest = other_project + seq!['/'] + other_session;
    assert(rest == key.subrange(root.len() as int, key.len() as int));
    assert(other_rest == key.subrange(root.len() as int, key.len() as int));
    // The first slash after the root ends the project's segment.
    assert(rest[project.len() as int] == '/');
    assert(other_rest[other_project.len() as int] == '/');
    if project.len() < other_project.len() {
        assert(other_rest[project.len() as int] == other_project[project.len() as int]);
    }
    if other_project.len() < project.len() {
        assert(rest[other_project.len() as int] == project[other_project.len() as int]);
    }
    assert(project =~= rest.subrange(0, project.len() as int));
    assert(other_project =~= other_rest.subrange(0, project.len() as int));
    assert(session =~= rest.subrange(project.len() as int + 1, rest.len() as int));
    assert(other_session =~= other_rest.subrange(project.len() as int + 1, rest.len() as int));
}

/// The key is one-to-one: two sessions share a key only if they are the
/// same session of the same project.
pub proof fn lemma_ledger_key_is_one_to_one(
    project_id: Seq<char>,
    session_hash: Seq<char>,
    other_project: Seq<char>,
    other_session: Seq<char>,
)
    requires
        ledger_key(project_id, session_hash) == ledger_key(other_project, other_session),
    ensures
        project_id == other_project,
        session_hash == other_session,
{
    lemma_escaped_names_a_file(project_id);
    lemma_escaped_names_a_file(other_project);
    lemma_joined_key_is_one_to_one(
        escaped(project_id),
        escaped(session_hash),
        escaped(other_project),
        escaped(other_session),
    );
    lemma_escaped_is_one_to_one(project_id, other_project);
    lemma_escaped_is_one_to_one(session_hash, other_session);
}

/// Recording a version changes what the ledger records under that key
/// into that version, and nothing under any other key.
pub proof fn lemma_recorded_after_insert(
    entries: Map<Seq<char>, Seq<char>>,
    key: Seq<char>,
    version: u64,
    other: Seq<char>,
)
    ensures
        recorded_at(entries.insert(key, decimal(version as nat)), other) == if other == key {
            Some(version)
        } else {
            recorded_at(entries, other)
        },
{
    lemma_parse_decimal_of_decimal(version);
}

/// The entries record no version above `version` exactly if no value of
/// theirs spells a number above it.
pub proof fn lemma_within_iff_none_above(entries: Map<Seq<char>, Seq<char>>, version: u64)
    ensures
        within(entries, version) <==> !spells_above(entries, version),
{
    if within(entries, version) {
        assert forall|key: Seq<char>| #[trigger] entries.contains_key(key) implies !number_above(
            entries[key],
            version,
        ) by {
            assert(at_most(recorded_at(entries, key), version));
        }
    }
    if !spells_above(entries, version) {
        assert forall|key: Seq<char>| at_most(#[trigger] recorded_at(entries, key), version) by {}
    }
}

/// The segment of a key that stands for `id`.
pub fn escape(id: &str) -> (segment: String)
    ensures
        segment@ == escaped(id@),
{
    let chars = chars_of(id);
    let n: usize = chars.len();
    proof {
        reveal_strlit("%");
        reveal_strlit("%25");
        reveal_strlit("%2F");
        reveal_strlit("%2E");
    }
    if n == 0 {
        let lone = String::from_str("%");
        assert(lone@ =~= seq!['%']);
        return lone;
    }
    let mut segment = String::new();
    let mut i: usize = 0;
    if chars[0] == '.' {
        segment.append("%2E");
        i = 1;
    }
    let first: usize = i;
    let ghost head = segment@;
    assert(head =~= if chars@[0] == '.' {
        seq!['%', '2', 'E']
    } else {
        Seq::<char>::empty()
    });
    assert(segment@ =~= head + written(chars@.subrange(first as int, i as int)));
    while i < n
        invariant
            first <= i <= n,
            n == chars.len(),
            segment@ == head + written(chars@.subrange(first as int, i as int)),
        decreases n - i,
    {
        let ghost done = chars@.subrange(first as int, i as int);
        proof {
            reveal_strlit("%25");
            reveal_strlit("%2F");
            assert(chars@.subrange(first as int, i + 1) == done.push(chars@[i as int]));
            lemma_written_push(done, chars@[i as int]);
        }
        let c: char = chars[i];
        if c == '%' {
            segment.append("%25");
            assert(segment@ =~= head + (written(done) + seq!['%', '2', '5']));
        } else if c == '/' {
            segment.append("%2F");
            assert(segment@ =~= head + (written(done) + seq!['%', '2', 'F']));
        } else {
            segment.push(c);
            assert(segment@ =~= head + (written(done) + seq![c]));
        }
        i = i + 1;
    }
    proof {
        if first == 1 {
            assert(chars@.subrange(1, n as int) == chars@.drop_first());
        } else {
            assert(chars@.subrange(0, n as int) == chars@);
            assert(Seq::<char>::empty() + written(chars@) == written(chars@));
        }
    }
    segment
}

/// The version ledger.
pub struct MetaStorage {
    storage: Storage,
}

impl View for MetaStorage {
    type V = Map<Seq<char>, Seq<char>>;

    /// The entries of the underlying store.
    closed spec fn view(&self) -> Map<Seq<char>, Seq<char>> {
        self.storage@
    }
}

impl MetaStorage {
    /// The keys whose entries could not be read from the disk.
    pub closed spec fn unreadable(&self) -> Set<Seq<char>> {
        self.storage.marked()
    }

    /// What the ledger answers for a session.
    pub open spec fn answers(&self, project_id: Seq<char>, session_hash: Seq<char>) -> Result<
        Option<u64>,
        StorageError,
    > {
        looked_up(self@, self.unreadable(), ledger_key(project_id, session_hash))
    }

    /// The version recorded for a session, if any.
    pub open spec fn recorded(&self, project_id: Seq<char>, session_hash: Seq<char>) -> Option<
        u64,
    > {
        recorded_at(self@, ledger_key(project_id, session_hash))
    }

    /// A ledger over the entries that `storage` holds.
    pub fn new(storage: Storage) -> (ledger: Self)
        ensures
            ledger@ == storage@,
            ledger.unreadable() == storage.marked(),
    {
        MetaStorage { storage }
    }

    /// The directory below which the entries are kept, one directory per
    /// project and one file per session.
    pub fn root() -> (root: String)
        ensures
            root@ == "indexes/meta"@,
    {
        String::from_str("indexes/meta")
    }

    /// The key made of the two segments as they stand: the key of the file
    /// `session` in the directory `project` below the root.
    pub fn joined(project: &str, session: &str) -> (key: String)
        ensures
            key@ == joined_key(project@, session@),
    {
        let mut key = String::from_str("indexes/meta/");
        key.append(project);
        key.append("/");
        key.append(session);
        proof {
            reveal_strlit("/");
        }
        key
    }

    /// The key of a session's entry.
    pub fn key(project_id: &str, session_hash: &str) -> (key: String)
        ensures
            key@ == ledger_key(project_id@, session_hash@),
    {
        let project = escape(project_id);
        let session = escape(session_hash);
        Self::joined(project.as_str(), session.as_str())
    }

    /// The version that last indexed the session, or `None` if the ledger
    /// records none; an error if the entry of the session could not be
    /// read. The ledger is not changed.
    pub fn get(&self, project_id: &str, session_hash: &str) -> (version: Result<
        Option<u64>,
        StorageError,
    >)
        ensures
            version == self.answers(project_id@, session_hash@),
            version is Ok ==> version == Ok::<Option<u64>, StorageError>(
                self.recorded(project_id@, session_hash@),
            ),
    {
        let key = Self::key(project_id, session_hash);
        match self.storage.read(key.as_str()) {
            Ok(None) => Ok(None),
            Ok(Some(text)) => Ok(parse_u64(text.as_str())),
            Err(error) => Err(error),
        }
    }

    /// Records `version` for the session, in place of what was recorded.
    /// What is recorded for any other session, of this project or another,
    /// stays as it is.
    pub fn set(&mut self, project_id: &str, session_hash: &str, version: u64)
        ensures
            final(self)@ == old(self)@.insert(
                ledger_key(project_id@, session_hash@),
                decimal(version as nat),
            ),
            final(self).recorded(project_id@, session_hash@) == Some(version),
            final(self).answers(project_id@, session_hash@) == Ok::<Option<u64>, StorageError>(
                Some(version),
            ),
            final(self).unreadable() == old(self).unreadable(),
            forall|other_project: Seq<char>, other_session: Seq<char>|
                other_project != project_id@ || other_session != session_hash@
                    ==> #[trigger] final(self).recorded(other_project, other_session)
                    == old(self).recorded(other_project, other_session),
    {
        let key = Self::key(project_id, session_hash);
        let text = format_u64(version);
        self.storage.write(key.as_str(), text.as_str());
        proof {
            lemma_parse_decimal_of_decimal(version);
            assert forall|other_project: Seq<char>, other_session: Seq<char>|
                other_project != project_id@ || other_session != session_hash@ implies
                #[trigger] self.recorded(other_project, other_session) == old(self).recorded(
                other_project,
                other_session,
            ) by {
                if ledger_key(other_project, other_session) == ledger_key(
                    project_id@,
                    session_hash@,
                ) {
                    lemma_ledger_key_is_one_to_one(
                        other_project,
                        other_session,
                        project_id@,
                        session_hash@,
                    );
                }
            }
        }
    }

    /// Whether the ledger records a version above `version` for some
    /// session: an entry that a later release has written.
    pub fn records_above(&self, version: u64) -> (found: bool)
        ensures
            found == !within(self@, version),
    {
        proof {
            lemma_within_iff_none_above(self@, version);
        }
        self.storage.any_number_above(version)
    }
}

} // verus!
