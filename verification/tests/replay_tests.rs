use delta_search::replay::{replay, Operation, ReplayError, ReplayFailure};

fn chars(s: &str) -> Vec<char> {
    s.chars().collect()
}

fn text(v: &Vec<char>) -> String {
    v.iter().collect()
}

#[test]
fn insert_at_the_start() {
    let mut buffer = chars("world");
    let outcome = Operation::Insert((0, "hello ".to_string())).apply(&mut buffer);
    assert_eq!(outcome, Ok(()));
    assert_eq!(text(&buffer), "hello world");
}

#[test]
fn insert_in_the_middle() {
    let mut buffer = chars("held");
    let outcome = Operation::Insert((3, "lo wor".to_string())).apply(&mut buffer);
    assert_eq!(outcome, Ok(()));
    assert_eq!(text(&buffer), "hello word");
}

#[test]
fn insert_at_the_end() {
    let mut buffer = chars("hello");
    let outcome = Operation::Insert((5, " world".to_string())).apply(&mut buffer);
    assert_eq!(outcome, Ok(()));
    assert_eq!(text(&buffer), "hello world");
}

#[test]
fn insert_into_an_empty_text() {
    let mut buffer = chars("");
    let outcome = Operation::Insert((0, "a".to_string())).apply(&mut buffer);
    assert_eq!(outcome, Ok(()));
    assert_eq!(text(&buffer), "a");
}

#[test]
fn insert_counts_characters_not_bytes() {
    let mut buffer = chars("äö");
    let outcome = Operation::Insert((1, "ß".to_string())).apply(&mut buffer);
    assert_eq!(outcome, Ok(()));
    assert_eq!(text(&buffer), "äßö");
}

#[test]
fn insert_beyond_the_end_is_refused() {
    let mut buffer = chars("abc");
    let outcome = Operation::Insert((4, "x".to_string())).apply(&mut buffer);
    assert_eq!(outcome, Err(ReplayError::IndexOutOfBounds { index: 4, len: 3 }));
    assert_eq!(text(&buffer), "abc");
}

#[test]
fn delete_a_range() {
    let mut buffer = chars("hello world");
    let outcome = Operation::Delete((5, 6)).apply(&mut buffer);
    assert_eq!(outcome, Ok(()));
    assert_eq!(text(&buffer), "hello");
}

#[test]
fn delete_nothing_at_the_end() {
    let mut buffer = chars("abc");
    let outcome = Operation::Delete((3, 0)).apply(&mut buffer);
    assert_eq!(outcome, Ok(()));
    assert_eq!(text(&buffer), "abc");
}

#[test]
fn delete_from_beyond_the_end_is_refused() {
    let mut buffer = chars("abc");
    let outcome = Operation::Delete((4, 0)).apply(&mut buffer);
    assert_eq!(outcome, Err(ReplayError::IndexOutOfBounds { index: 4, len: 3 }));
    assert_eq!(text(&buffer), "abc");
}

#[test]
fn delete_past_the_end_is_refused() {
    let mut buffer = chars("abc");
    let outcome = Operation::Delete((1, 3)).apply(&mut buffer);
    assert_eq!(outcome, Err(ReplayError::RangeOutOfBounds { index: 1, count: 3, len: 3 }));
    assert_eq!(text(&buffer), "abc");
}

#[test]
fn delete_with_the_largest_count_is_refused() {
    let mut buffer = chars("abcdefghij");
    let outcome = Operation::Delete((5, u32::MAX)).apply(&mut buffer);
    assert_eq!(
        outcome,
        Err(ReplayError::RangeOutOfBounds { index: 5, count: u32::MAX, len: 10 })
    );
    assert_eq!(text(&buffer), "abcdefghij");
}

#[test]
fn replay_applies_in_order() {
    let mut buffer = chars("");
    let operations = vec![
        Operation::Insert((0, "hello".to_string())),
        Operation::Insert((5, " world".to_string())),
        Operation::Delete((0, 6)),
        Operation::Insert((5, "!".to_string())),
    ];
    assert_eq!(replay(&mut buffer, &operations), Ok(()));
    assert_eq!(text(&buffer), "world!");
}

#[test]
fn replay_of_nothing_keeps_the_text() {
    let mut buffer = chars("same");
    assert_eq!(replay(&mut buffer, &Vec::new()), Ok(()));
    assert_eq!(text(&buffer), "same");
}

#[test]
fn replay_stops_at_the_first_operation_that_does_not_fit() {
    let mut buffer = chars("abc");
    let operations = vec![
        Operation::Delete((0, 1)),
        Operation::Insert((7, "x".to_string())),
        Operation::Insert((0, "never".to_string())),
    ];
    let outcome = replay(&mut buffer, &operations);
    assert_eq!(
        outcome,
        Err(ReplayFailure {
            operation: 1,
            cause: ReplayError::IndexOutOfBounds { index: 7, len: 2 },
        })
    );
    assert_eq!(text(&buffer), "bc");
}

#[test]
fn replay_twice_gives_the_same_text() {
    let operations = vec![
        Operation::Insert((0, "one two".to_string())),
        Operation::Delete((3, 1)),
        Operation::Insert((3, "-".to_string())),
    ];
    let mut first = chars("start ");
    let mut second = chars("start ");
    assert_eq!(replay(&mut first, &operations), Ok(()));
    assert_eq!(replay(&mut second, &operations), Ok(()));
    assert_eq!(first, second);
    assert_eq!(text(&first), "one-twostart ");
}

#[test]
fn replay_twice_fails_the_same_way() {
    let operations = vec![Operation::Insert((0, "ab".to_string())), Operation::Delete((1, 9))];
    let mut first = chars("");
    let mut second = chars("");
    let one = replay(&mut first, &operations);
    let two = replay(&mut second, &operations);
    assert_eq!(one, two);
    assert_eq!(
        one,
        Err(ReplayFailure {
            operation: 1,
            cause: ReplayError::RangeOutOfBounds { index: 1, count: 9, len: 2 },
        })
    );
    assert_eq!(first, second);
}

#[test]
fn a_cloned_operation_does_the_same() {
    let operation = Operation::Insert((1, "xy".to_string()));
    let copy = operation.clone();
    let mut first = chars("ab");
    let mut second = chars("ab");
    assert_eq!(operation.apply(&mut first), Ok(()));
    assert_eq!(copy.apply(&mut second), Ok(()));
    assert_eq!(text(&first), "axyb");
    assert_eq!(first, second);
}
