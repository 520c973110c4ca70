use delta_search::ledger::{escape, MetaStorage};
use delta_search::storage::{Storage, StorageError};

#[test]
fn an_empty_store_holds_nothing() {
    let store = Storage::new();
    assert_eq!(store.read("any"), Ok(None));
    assert_eq!(store.read(""), Ok(None));
}

#[test]
fn a_store_gives_back_what_was_written() {
    let mut store = Storage::new();
    store.write("a/b", "one");
    assert_eq!(store.read("a/b"), Ok(Some("one".to_string())));
    assert_eq!(store.read("a"), Ok(None));
    assert_eq!(store.read("a/b/"), Ok(None));
}

#[test]
fn a_write_replaces_the_value() {
    let mut store = Storage::new();
    store.write("key", "old");
    store.write("other", "kept");
    store.write("key", "new");
    assert_eq!(store.read("key"), Ok(Some("new".to_string())));
    assert_eq!(store.read("other"), Ok(Some("kept".to_string())));
}

#[test]
fn a_store_takes_the_empty_key_and_value() {
    let mut store = Storage::new();
    store.write("", "");
    assert_eq!(store.read(""), Ok(Some(String::new())));
}

#[test]
fn the_key_of_a_session() {
    assert_eq!(MetaStorage::key("project", "session"), "indexes/meta/project/session");
    assert_eq!(MetaStorage::key("", ""), "indexes/meta/%/%");
}

#[test]
fn a_new_ledger_records_nothing() {
    let ledger = MetaStorage::new(Storage::new());
    assert_eq!(ledger.get("p", "s"), Ok(None));
}

#[test]
fn a_ledger_records_what_was_set() {
    let mut ledger = MetaStorage::new(Storage::new());
    ledger.set("p", "s", 3);
    assert_eq!(ledger.get("p", "s"), Ok(Some(3)));
}

#[test]
fn a_set_replaces_the_version() {
    let mut ledger = MetaStorage::new(Storage::new());
    ledger.set("p", "s", 2);
    ledger.set("p", "s", 3);
    assert_eq!(ledger.get("p", "s"), Ok(Some(3)));
    ledger.set("p", "s", 1);
    assert_eq!(ledger.get("p", "s"), Ok(Some(1)));
}

#[test]
fn sessions_are_recorded_apart() {
    let mut ledger = MetaStorage::new(Storage::new());
    ledger.set("p", "s1", 3);
    ledger.set("p", "s2", 2);
    ledger.set("q", "s1", 1);
    assert_eq!(ledger.get("p", "s1"), Ok(Some(3)));
    assert_eq!(ledger.get("p", "s2"), Ok(Some(2)));
    assert_eq!(ledger.get("q", "s1"), Ok(Some(1)));
    assert_eq!(ledger.get("q", "s2"), Ok(None));
}

#[test]
fn a_ledger_reads_the_entries_of_its_store() {
    let mut store = Storage::new();
    store.write("indexes/meta/p/s", "2");
    store.write("indexes/meta/p/zero", "0");
    store.write("indexes/meta/p/big", "18446744073709551615");
    let ledger = MetaStorage::new(store);
    assert_eq!(ledger.get("p", "s"), Ok(Some(2)));
    assert_eq!(ledger.get("p", "zero"), Ok(Some(0)));
    assert_eq!(ledger.get("p", "big"), Ok(Some(u64::MAX)));
}

#[test]
fn an_entry_that_is_no_number_counts_as_none() {
    let mut store = Storage::new();
    store.write("indexes/meta/p/broken", "three");
    store.write("indexes/meta/p/empty", "");
    store.write("indexes/meta/p/spaced", "3\n");
    store.write("indexes/meta/p/huge", "18446744073709551616");
    let ledger = MetaStorage::new(store);
    assert_eq!(ledger.get("p", "broken"), Ok(None));
    assert_eq!(ledger.get("p", "empty"), Ok(None));
    assert_eq!(ledger.get("p", "spaced"), Ok(None));
    assert_eq!(ledger.get("p", "huge"), Ok(None));
}

#[test]
fn a_set_repairs_an_entry_that_is_no_number() {
    let mut store = Storage::new();
    store.write("indexes/meta/p/s", "garbage");
    let mut ledger = MetaStorage::new(store);
    assert_eq!(ledger.get("p", "s"), Ok(None));
    ledger.set("p", "s", 3);
    assert_eq!(ledger.get("p", "s"), Ok(Some(3)));
}

#[test]
fn a_plain_id_is_its_own_segment() {
    assert_eq!(escape("project-1_x.y"), "project-1_x.y");
    assert_eq!(escape("a."), "a.");
    assert_eq!(escape("a..b"), "a..b");
    assert_eq!(escape("ä€ 2F25"), "ä€ 2F25");
}

#[test]
fn a_slash_and_a_percent_sign_are_written_out() {
    assert_eq!(escape("a/b"), "a%2Fb");
    assert_eq!(escape("100%"), "100%25");
    assert_eq!(escape("%2F"), "%252F");
    assert_eq!(escape("/%/"), "%2F%25%2F");
}

#[test]
fn different_ids_have_different_segments() {
    let ids = [
        "", "/", "%", "%2F", "%252F", "a/b", "a%2Fb", "a%252Fb", "ab", "2F", "%25", "%2", ".", "..",
        "...", "%2E", "%2E.", ".%2E", "%2E%2E", ".a", "a.", "2E", "./", "/.",
    ];
    for (i, one) in ids.iter().enumerate() {
        for (j, other) in ids.iter().enumerate() {
            assert_eq!(escape(one) == escape(other), i == j);
        }
    }
}

#[test]
fn the_key_of_ids_with_slashes() {
    assert_eq!(MetaStorage::key("a/b", "c"), "indexes/meta/a%2Fb/c");
    assert_eq!(MetaStorage::key("a", "b/c"), "indexes/meta/a/b%2Fc");
    assert_eq!(MetaStorage::key("a%2Fb", "c"), "indexes/meta/a%252Fb/c");
}

#[test]
fn the_key_made_of_segments_as_they_stand() {
    assert_eq!(MetaStorage::joined("a%2Fb", "c"), "indexes/meta/a%2Fb/c");
    assert_eq!(MetaStorage::joined("p", "s"), MetaStorage::key("p", "s"));
    assert_eq!(MetaStorage::root(), "indexes/meta");
}

#[test]
fn two_pairs_never_share_a_key() {
    let pairs = [
        ("a/b", "c"), ("a", "b/c"), ("a", "b"), ("a/b/c", ""), ("", "a/b/c"), ("a%2Fb", "c"),
        ("", ""), (".", ""), ("", "."), ("..", "."), (".", ".."), ("%", ""), ("", "%"),
    ];
    for (i, (p, s)) in pairs.iter().enumerate() {
        for (j, (q, t)) in pairs.iter().enumerate() {
            assert_eq!(MetaStorage::key(p, s) == MetaStorage::key(q, t), i == j);
        }
    }
}

#[test]
fn a_set_leaves_the_records_of_other_pairs_untouched() {
    let mut ledger = MetaStorage::new(Storage::new());
    ledger.set("a", "b/c", 1);
    assert_eq!(ledger.get("a/b", "c"), Ok(None));
    ledger.set("a/b", "c", 7);
    assert_eq!(ledger.get("a/b", "c"), Ok(Some(7)));
    assert_eq!(ledger.get("a", "b/c"), Ok(Some(1)));
    ledger.set("a", "b/c", 2);
    assert_eq!(ledger.get("a/b", "c"), Ok(Some(7)));
    assert_eq!(ledger.get("a", "b/c"), Ok(Some(2)));
}

#[test]
fn a_store_knows_whether_a_number_is_above_a_bound() {
    let mut store = Storage::new();
    assert!(!store.any_number_above(0));
    store.write("one", "3");
    store.write("two", "not a number");
    store.write("three", "5");
    assert!(store.any_number_above(4));
    assert!(!store.any_number_above(5));
    store.write("three", "4");
    assert!(!store.any_number_above(4));
    assert!(store.any_number_above(3));
}

#[test]
fn a_ledger_knows_whether_it_records_a_later_version() {
    let mut ledger = MetaStorage::new(Storage::new());
    assert!(!ledger.records_above(0));
    ledger.set("p", "s1", 3);
    ledger.set("p", "s2", 2);
    assert!(!ledger.records_above(3));
    assert!(ledger.records_above(2));
    ledger.set("q", "s", 7);
    assert!(ledger.records_above(3));
    ledger.set("q", "s", 3);
    assert!(!ledger.records_above(3));
}

#[test]
fn the_empty_id_and_a_dot_at_the_start_are_written_out() {
    assert_eq!(escape(""), "%");
    assert_eq!(escape("."), "%2E");
    assert_eq!(escape(".."), "%2E.");
    assert_eq!(escape(".hidden"), "%2Ehidden");
    assert_eq!(escape("./x"), "%2E%2Fx");
}

#[test]
fn every_segment_is_a_name_that_a_file_can_have() {
    let ids = ["", ".", "..", "...", "/", "//", "a/b", "./..", "%", "plain", "../../etc"];
    for id in ids {
        let segment = escape(id);
        assert!(!segment.is_empty());
        assert!(!segment.contains('/'));
        assert!(!segment.starts_with('.'));
    }
    assert_eq!(MetaStorage::key("..", ".."), "indexes/meta/%2E./%2E.");
}

#[test]
fn a_marked_key_without_a_value_cannot_be_read() {
    let mut store = Storage::new();
    store.write("dir/known", "1");
    store.mark_unreadable("dir/broken");
    assert_eq!(store.read("dir/broken"), Err(StorageError::Unreadable));
    assert_eq!(store.read("dir/known"), Ok(Some("1".to_string())));
    assert_eq!(store.read("dir/other"), Ok(None));
    assert_eq!(store.read("dir/broke"), Ok(None));
}

#[test]
fn a_mark_covers_every_key_that_starts_with_it() {
    let mut store = Storage::new();
    store.write("dir/a/known", "1");
    store.mark_unreadable("dir/a/");
    assert_eq!(store.read("dir/a/x"), Err(StorageError::Unreadable));
    assert_eq!(store.read("dir/a/"), Err(StorageError::Unreadable));
    assert_eq!(store.read("dir/a/known"), Ok(Some("1".to_string())));
    assert_eq!(store.read("dir/a"), Ok(None));
    assert_eq!(store.read("dir/b/x"), Ok(None));
    store.mark_unreadable("");
    assert_eq!(store.read("dir/b/x"), Err(StorageError::Unreadable));
    assert_eq!(store.read("dir/a/known"), Ok(Some("1".to_string())));
}

#[test]
fn a_write_makes_a_marked_key_readable() {
    let mut store = Storage::new();
    store.mark_unreadable("key");
    assert_eq!(store.read("key"), Err(StorageError::Unreadable));
    store.write("key", "now");
    assert_eq!(store.read("key"), Ok(Some("now".to_string())));
    assert_eq!(store.read("key2"), Err(StorageError::Unreadable));
}

#[test]
fn a_ledger_entry_that_could_not_be_read_is_an_error() {
    let mut store = Storage::new();
    store.write("indexes/meta/p/good", "3");
    store.mark_unreadable("indexes/meta/p/bad");
    let mut ledger = MetaStorage::new(store);
    assert_eq!(ledger.get("p", "bad"), Err(StorageError::Unreadable));
    assert_eq!(ledger.get("p", "good"), Ok(Some(3)));
    assert_eq!(ledger.get("p", "new"), Ok(None));
    assert_eq!(ledger.get("q", "bad"), Ok(None));
    ledger.set("p", "bad", 3);
    assert_eq!(ledger.get("p", "bad"), Ok(Some(3)));
}
