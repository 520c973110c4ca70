//! A small key/value store of texts, keyed by path-like strings.
//!
//! The store holds in memory what a durable store holds on disk. Whoever
//! owns the disk fills it on start and writes through what changes. What
//! could not be read from the disk is marked: a mark is the start of a key,
//! and a key under a mark that the store holds no value for cannot be read.

use crate::decimal::{parse_decimal, parse_u64};
use crate::text::chars_of;
use vstd::prelude::*;

verus! {

/// One entry of the store.
struct Entry {
    key: String,
    value: String,
}

/// A key/value store of texts.
pub struct Storage {
    entries: Vec<Entry>,
    /// The starts of the keys that could not be read.
    marks: Vec<String>,
}

/// Why a key has no answer.
#[derive(Debug, Clone, Copy, PartialEq, Eq, Structural)]
pub enum StorageError {
    /// What the disk holds under the key could not be read.
    Unreadable,
}

/// Whether one of `marks` is the start of `key`.
spec fn under_a_mark(marks: Seq<String>, key: Seq<char>) -> bool {
    exists|i: int| 0 <= i < marks.len() && (#[trigger] marks[i])@.is_prefix_of(key)
}

/// What a store with these values and these marked keys answers for `key`:
/// the value where it holds one, an error where it holds none and the key
/// is marked, and else that there is none.
pub open spec fn answer(
    values: Map<Seq<char>, Seq<char>>,
    marked: Set<Seq<char>>,
    key: Seq<char>,
) -> Result<Option<Seq<char>>, StorageError> {
    if values.contains_key(key) {
        Ok(Some(values[key]))
    } else if marked.contains(key) {
        Err(StorageError::Unreadable)
    } else {
        Ok(None)
    }
}

/// The value of the first entry at or after position `from` whose key is
/// `key`, if there is one.
spec fn found_from(entries: Seq<Entry>, key: Seq<char>, from: int) -> Option<Seq<char>>
    decreases entries.len() - from,
{
    if from < 0 || from >= entries.len() {
        None
    } else if entries[from].key@ == key {
        Some(entries[from].value@)
    } else {
        found_from(entries, key, from + 1)
    }
}

/// The position of the first entry at or after position `from` whose key
/// is `key`; the number of entries where there is none.
spec fn place_from(entries: Seq<Entry>, key: Seq<char>, from: int) -> int
    decreases entries.len() - from,
{
    if from < 0 || from >= entries.len() {
        entries.len() as int
    } else if entries[from].key@ == key {
        from
    } else {
        place_from(entries, key, from + 1)
    }
}

/// What is found under a key is the value of the entry at its place.
proof fn lemma_found_at_place(entries: Seq<Entry>, key: Seq<char>, from: int)
    requires
        0 <= from <= entries.len(),
    ensures
        from <= place_from(entries, key, from) <= entries.len(),
        forall|j: int| from <= j < place_from(entries, key, from) ==> entries[j].key@ != key,
        place_from(entries, key, from) < entries.len() ==> entries[place_from(
            entries,
            key,
            from,
        )].key@ == key && found_from(entries, key, from) == Some(
            entries[place_from(entries, key, from)].value@,
        ),
        place_from(entries, key, from) == entries.len() ==> found_from(entries, key, from)
            == None::<Seq<char>>,
    decreases entries.len() - from,
{
    if from < entries.len() && entries[from].key@ != key {
        lemma_found_at_place(entries, key, from + 1);
    }
}

/// Whether `text` spells a number above `bound`.
pub open spec fn number_above(text: Seq<char>, bound: u64) -> bool {
    parse_decimal(text) matches Some(number) && number > bound
}

/// Whether some value of `entries` spells a number above `bound`.
pub open spec fn spells_above(entries: Map<Seq<char>, Seq<char>>, bound: u64) -> bool {
    exists|key: Seq<char>| #[trigger] entries.contains_key(key) && number_above(entries[key], bound)
}

/// Giving the first entry with `key` a new value changes what is found
/// under `key`, and nothing else.
proof fn lemma_found_after_update(
    entries: Seq<Entry>,
    at: int,
    entry: Entry,
    key: Seq<char>,
    from: int,
)
    requires
        0 <= from <= at < entries.len(),
        entries[at].key@ == entry.key@,
        forall|j: int| from <= j < at ==> entries[j].key@ != entry.key@,
    ensures
        found_from(entries.update(at, entry), key, from) == if key == entry.key@ {
            Some(entry.value@)
        } else {
            found_from(entries, key, from)
        },
    decreases entries.len() - from,
{
    let updated = entries.update(at, entry);
    if from < at {
        lemma_found_after_update(entries, at, entry, key, from + 1);
    } else {
        if key != entry.key@ {
            lemma_found_same_tail(entries, updated, key, from + 1);
        }
    }
}

/// Two lists that agree from `from` on hold the same from there on.
proof fn lemma_found_same_tail(a: Seq<Entry>, b: Seq<Entry>, key: Seq<char>, from: int)
    requires
        a.len() == b.len(),
        0 <= from,
        forall|j: int| from <= j < a.len() ==> a[j] == b[j],
    ensures
        found_from(a, key, from) == found_from(b, key, from),
    decreases a.len() - from,
{
    if from < a.len() {
        lemma_found_same_tail(a, b, key, from + 1);
    }
}

/// A new entry at the end, under a key that no entry has yet, adds that
/// key and changes nothing else.
proof fn lemma_found_after_push(entries: Seq<Entry>, entry: Entry, key: Seq<char>, from: int)
    requires
        0 <= from <= entries.len(),
        forall|j: int| from <= j < entries.len() ==> entries[j].key@ != entry.key@,
    ensures
        found_from(entries.push(entry), key, from) == if key == entry.key@ {
            Some(entry.value@)
        } else {
            found_from(entries, key, from)
        },
    decreases entries.len() - from,
{
    let pushed = entries.push(entry);
    if from < entries.len() {
        lemma_found_after_push(entries, entry, key, from + 1);
    } else {
        assert(found_from(pushed, key, from + 1) == None::<Seq<char>>);
    }
}

impl View for Storage {
    type V = Map<Seq<char>, Seq<char>>;

    /// The store as a map from key to value.
    closed spec fn view(&self) -> Map<Seq<char>, Seq<char>> {
        Map::new(
            |key: Seq<char>| found_from(self.entries@, key, 0) is Some,
            |key: Seq<char>| found_from(self.entries@, key, 0)->0,
        )
    }
}

/// Whether `start` is the start of `text`.
fn starts(text: &str, start: &str) -> (is_start: bool)
    ensures
        is_start == start@.is_prefix_of(text@),
{
    let whole = chars_of(text);
    let head = chars_of(start);
    if head.len() > whole.len() {
        return false;
    }
    let mut i: usize = 0;
    while i < head.len()
        invariant
            i <= head.len() <= whole.len(),
            head@ == start@,
            whole@ == text@,
            forall|j: int| 0 <= j < i ==> head@[j] == whole@[j],
        decreases head.len() - i,
    {
        if head[i] != whole[i] {
            assert(whole@.subrange(0, head.len() as int)[i as int] != head@[i as int]);
            return false;
        }
        i = i + 1;
    }
    assert(head@ =~= whole@.subrange(0, head.len() as int));
    true
}

impl Storage {
    /// The keys that are marked as not read: those that start with a mark.
    pub closed spec fn marked(&self) -> Set<Seq<char>> {
        Set::new(|key: Seq<char>| under_a_mark(self.marks@, key))
    }

    /// An empty store, with no key marked.
    pub fn new() -> (store: Storage)
        ensures
            store@ == Map::<Seq<char>, Seq<char>>::empty(),
            store.marked() == Set::<Seq<char>>::empty(),
    {
        let store = Storage { entries: Vec::new(), marks: Vec::new() };
        assert(store.marked() =~= Set::<Seq<char>>::empty());
        store
    }

    /// Marks every key that starts with `start` as not read. The values
    /// that the store holds stay.
    pub fn mark_unreadable(&mut self, start: &str)
        ensures
            final(self)@ == old(self)@,
            final(self).marked() == old(self).marked().union(
                Set::new(|key: Seq<char>| start@.is_prefix_of(key)),
            ),
    {
        let mark = start.to_owned();
        let ghost before = self.marks@;
        self.marks.push(mark);
        assert forall|key: Seq<char>| under_a_mark(self.marks@, key) == (under_a_mark(before, key)
            || start@.is_prefix_of(key)) by {
            if under_a_mark(before, key) {
                let i = choose|i: int|
                    0 <= i < before.len() && (#[trigger] before[i])@.is_prefix_of(key);
                assert(self.marks@[i] == before[i]);
            }
            if start@.is_prefix_of(key) {
                assert(self.marks@[before.len() as int]@ == start@);
            }
            if under_a_mark(self.marks@, key) {
                let i = choose|i: int|
                    0 <= i < self.marks@.len() && (#[trigger] self.marks@[i])@.is_prefix_of(key);
                if i < before.len() {
                    assert(before[i] == self.marks@[i]);
                }
            }
        }
        assert(self.marked() =~= old(self).marked().union(
            Set::new(|key: Seq<char>| start@.is_prefix_of(key)),
        ));
    }

    /// Whether `key` starts with a mark.
    fn is_marked(&self, key: &str) -> (marked: bool)
        ensures
            marked == self.marked().contains(key@),
    {
        let mut i: usize = 0;
        while i < self.marks.len()
            invariant
                i <= self.marks.len(),
                forall|j: int| 0 <= j < i ==> !(#[trigger] self.marks@[j])@.is_prefix_of(key@),
            decreases self.marks.len() - i,
        {
            if starts(key, self.marks[i].as_str()) {
                return true;
            }
            i = i + 1;
        }
        false
    }

    /// The position of the first entry with `key`, or the number of
    /// entries where there is none.
    fn position(&self, key: &String) -> (at: usize)
        ensures
            at <= self.entries.len(),
            forall|j: int| 0 <= j < at ==> self.entries[j].key@ != key@,
            at < self.entries.len() ==> self.entries[at as int].key@ == key@,
            found_from(self.entries@, key@, 0) == found_from(self.entries@, key@, at as int),
            at == place_from(self.entries@, key@, 0),
    {
        proof {
            lemma_found_at_place(self.entries@, key@, 0);
        }
        let mut at: usize = 0;
        while at < self.entries.len() && self.entries[at].key != *key
            invariant
                at <= self.entries.len(),
                forall|j: int| 0 <= j < at ==> self.entries[j].key@ != key@,
                found_from(self.entries@, key@, 0) == found_from(self.entries@, key@, at as int),
            decreases self.entries.len() - at,
        {
            at = at + 1;
        }
        at
    }

    /// What the store answers for `key`: the value stored under it; or
    /// that there is none; or, for a key that is marked and has no value,
    /// that it could not be read.
    pub fn read(&self, key: &str) -> (value: Result<Option<String>, StorageError>)
        ensures
            match value {
                Ok(Some(text)) => answer(self@, self.marked(), key@) == Ok::<
                    Option<Seq<char>>,
                    StorageError,
                >(Some(text@)),
                Ok(None) => answer(self@, self.marked(), key@) == Ok::<
                    Option<Seq<char>>,
                    StorageError,
                >(None),
                Err(error) => answer(self@, self.marked(), key@) == Err::<
                    Option<Seq<char>>,
                    StorageError,
                >(error),
            },
    {
        let wanted = key.to_owned();
        let at = self.position(&wanted);
        if at < self.entries.len() {
            Ok(Some(self.entries[at].value.clone()))
        } else if self.is_marked(key) {
            Err(StorageError::Unreadable)
        } else {
            Ok(None)
        }
    }

    /// Whether some value of the store spells a number above `bound`.
    pub fn any_number_above(&self, bound: u64) -> (found: bool)
        ensures
            found == spells_above(self@, bound),
    {
        let mut i: usize = 0;
        while i < self.entries.len()
            invariant
                i <= self.entries.len(),
                forall|j: int|
                    0 <= j < i ==> !(place_from(self.entries@, (#[trigger] self.entries@[j]).key@, 0)
                        == j && number_above(self.entries@[j].value@, bound)),
            decreases self.entries.len() - i,
        {
            let above = match parse_u64(self.entries[i].value.as_str()) {
                Some(number) => number > bound,
                None => false,
            };
            if above && self.position(&self.entries[i].key) == i {
                proof {
                    let key = self.entries@[i as int].key@;
                    lemma_found_at_place(self.entries@, key, 0);
                    assert(self@.contains_key(key) && number_above(self@[key], bound));
                }
                return true;
            }
            i = i + 1;
        }
        proof {
            assert forall|key: Seq<char>| #[trigger] self@.contains_key(key) implies !number_above(
                self@[key],
                bound,
            ) by {
                // The entry at the key's place was looked at in the loop.
                lemma_found_at_place(self.entries@, key, 0);
                let at = place_from(self.entries@, key, 0);
                assert(self.entries@[at].key@ == key);
            }
        }
        false
    }

    /// Stores `value` under `key`, in place of what was stored there. The
    /// marks stay; the key has a value now and can be read.
    pub fn write(&mut self, key: &str, value: &str)
        ensures
            final(self)@ == old(self)@.insert(key@, value@),
            final(self).marked() == old(self).marked(),
    {
        let entry = Entry { key: key.to_owned(), value: value.to_owned() };
        let at = self.position(&entry.key);
        proof {
            assert forall|k: Seq<char>|
                found_from(
                    if at < self.entries.len() {
                        self.entries@.update(at as int, entry)
                    } else {
                        self.entries@.push(entry)
                    },
                    k,
                    0,
                ) == if k == key@ {
                    Some(value@)
                } else {
                    found_from(self.entries@, k, 0)
                } by {
                if at < self.entries.len() {
                    lemma_found_after_update(self.entries@, at as int, entry, k, 0);
                } else {
                    lemma_found_after_push(self.entries@, entry, k, 0);
                }
            }
        }
        if at < self.entries.len() {
            self.entries[at] = entry;
        } else {
            self.entries.push(entry);
        }
    }
}

} // verus!
