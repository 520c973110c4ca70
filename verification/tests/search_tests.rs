use delta_search::schema::{number_entry, text_entry};
use delta_search::search::{
    cut, engine_query, plan, search, EngineReply, Hit, Plan, SearchError, SearchQuery,
};

fn query(text: &str, project: &str, start: u64, end: u64) -> SearchQuery {
    SearchQuery {
        q: text.to_string(),
        project_id: project.to_string(),
        limit: 10,
        offset: None,
        range: start..end,
    }
}

fn hit(version: u64, project: &str, session: &str, timestamp_ms: u64) -> Hit {
    Hit {
        version,
        project_id: project.to_string(),
        session_id: session.to_string(),
        file_path: "src/lib.rs".to_string(),
        index: 2,
        timestamp_ms,
        fragment: "one two three".to_string(),
        highlighted: vec![4..7],
    }
}

fn sessions_of(outcome: Result<Vec<delta_search::search::SearchResult>, SearchError>) -> Vec<String> {
    outcome.unwrap().into_iter().map(|r| r.session_id).collect()
}

#[test]
fn the_query_text() {
    let asked = engine_query(3, &query("foo bar", "proj", 10, 20));
    assert_eq!(
        asked.text,
        "version:\"3\" AND project_id:\"proj\" AND timestamp_ms:[10 TO 20} AND (foo bar)"
    );
}

#[test]
fn the_query_text_with_the_widest_range() {
    let asked = engine_query(0, &query("", "", 0, u64::MAX));
    assert_eq!(
        asked.text,
        "version:\"0\" AND project_id:\"\" AND timestamp_ms:[0 TO 18446744073709551615} AND ()"
    );
}

#[test]
fn the_query_is_ranked_by_timestamp() {
    let asked = engine_query(3, &query("x", "p", 0, 1));
    assert_eq!(asked.order_by, "timestamp_ms");
}

#[test]
fn the_query_takes_limit_and_offset() {
    let mut q = query("x", "p", 0, 1);
    q.limit = 25;
    let without = engine_query(3, &q);
    assert_eq!(without.limit, 25);
    assert_eq!(without.offset, 0);
    q.offset = Some(50);
    let with = engine_query(3, &q);
    assert_eq!(with.limit, 25);
    assert_eq!(with.offset, 50);
}

#[test]
fn a_hit_becomes_a_result() {
    let outcome = search(3, &query("two", "proj", 0, 100), EngineReply::Hits(vec![hit(3, "proj", "s1", 50)]));
    let results = outcome.unwrap();
    assert_eq!(results.len(), 1);
    assert_eq!(results[0].project_id, "proj");
    assert_eq!(results[0].session_id, "s1");
    assert_eq!(results[0].file_path, "src/lib.rs");
    assert_eq!(results[0].index, 2);
    assert_eq!(results[0].highlighted, vec!["two".to_string()]);
}

#[test]
fn highlights_come_from_left_to_right() {
    let mut h = hit(3, "proj", "s1", 50);
    h.highlighted = vec![0..3, 4..7, 8..13];
    let results = search(3, &query("x", "proj", 0, 100), EngineReply::Hits(vec![h])).unwrap();
    assert_eq!(results[0].highlighted, vec!["one".to_string(), "two".to_string(), "three".to_string()]);
}

#[test]
fn a_hit_without_highlights() {
    let mut h = hit(3, "proj", "s1", 50);
    h.fragment = String::new();
    h.highlighted = Vec::new();
    let results = search(3, &query("x", "proj", 0, 100), EngineReply::Hits(vec![h])).unwrap();
    assert_eq!(results.len(), 1);
    assert_eq!(results[0].highlighted, Vec::<String>::new());
}

#[test]
fn no_hits_no_results() {
    let results = search(3, &query("x", "proj", 0, 100), EngineReply::Hits(Vec::new())).unwrap();
    assert_eq!(results.len(), 0);
}

#[test]
fn results_keep_the_order_of_the_hits() {
    let hits = vec![hit(3, "proj", "c", 30), hit(3, "proj", "a", 20), hit(3, "proj", "b", 10)];
    let got = sessions_of(search(3, &query("x", "proj", 0, 100), EngineReply::Hits(hits)));
    assert_eq!(got, vec!["c", "a", "b"]);
}

#[test]
fn a_search_in_one_project_gives_nothing_of_another() {
    let hits = vec![
        hit(3, "proj", "mine", 10),
        hit(3, "other", "theirs", 10),
        hit(3, "PROJ", "upper", 10),
        hit(3, "proj ", "spaced", 10),
        hit(3, "", "none", 10),
        hit(3, "proj", "mine too", 11),
    ];
    let results = search(3, &query("x", "proj", 0, 100), EngineReply::Hits(hits)).unwrap();
    assert_eq!(results.len(), 2);
    for r in &results {
        assert_eq!(r.project_id, "proj");
    }
    assert_eq!(results[0].session_id, "mine");
    assert_eq!(results[1].session_id, "mine too");
}

#[test]
fn a_search_in_a_time_range_gives_nothing_from_outside() {
    let hits = vec![
        hit(3, "proj", "before", 99),
        hit(3, "proj", "at start", 100),
        hit(3, "proj", "inside", 150),
        hit(3, "proj", "last inside", 199),
        hit(3, "proj", "at end", 200),
        hit(3, "proj", "after", 5000),
    ];
    let got = sessions_of(search(3, &query("x", "proj", 100, 200), EngineReply::Hits(hits)));
    assert_eq!(got, vec!["at start", "inside", "last inside"]);
}

#[test]
fn an_empty_time_range_gives_nothing() {
    let hits = vec![hit(3, "proj", "s", 100)];
    let got = sessions_of(search(3, &query("x", "proj", 100, 100), EngineReply::Hits(hits)));
    assert_eq!(got.len(), 0);
    let hits = vec![hit(3, "proj", "s", 100)];
    let got = sessions_of(search(3, &query("x", "proj", 200, 100), EngineReply::Hits(hits)));
    assert_eq!(got.len(), 0);
}

#[test]
fn a_stale_document_never_comes_back() {
    let hits = vec![hit(3, "proj", "old", 10), hit(4, "proj", "new", 10), hit(5, "proj", "newer", 10)];
    let got = sessions_of(search(4, &query("x", "proj", 0, 100), EngineReply::Hits(hits)));
    assert_eq!(got, vec!["new"]);
}

#[test]
fn after_a_version_bump_the_old_documents_are_gone() {
    let under_three = sessions_of(search(
        3,
        &query("x", "proj", 0, 100),
        EngineReply::Hits(vec![hit(3, "proj", "s", 10)]),
    ));
    assert_eq!(under_three, vec!["s"]);
    let under_four = sessions_of(search(
        4,
        &query("x", "proj", 0, 100),
        EngineReply::Hits(vec![hit(3, "proj", "s", 10)]),
    ));
    assert_eq!(under_four.len(), 0);
}

#[test]
fn a_query_that_the_engine_cannot_read_is_a_syntax_error() {
    let outcome = search(
        3,
        &query("(unbalanced", "proj", 0, 100),
        EngineReply::SyntaxError("Syntax Error".to_string()),
    );
    assert!(matches!(outcome, Err(SearchError::QuerySyntax(ref m)) if m == "Syntax Error"));
}

#[test]
fn an_engine_failure_is_an_engine_error() {
    let outcome = search(3, &query("x", "proj", 0, 100), EngineReply::Failure("io".to_string()));
    assert!(matches!(outcome, Err(SearchError::Engine(ref m)) if m == "io"));
}

#[test]
fn a_highlight_beyond_the_fragment_is_a_malformed_hit() {
    let mut bad = hit(3, "proj", "s", 10);
    bad.highlighted = vec![4..7, 8..14];
    let outcome = search(
        3,
        &query("x", "proj", 0, 100),
        EngineReply::Hits(vec![hit(3, "proj", "ok", 10), bad]),
    );
    assert!(matches!(outcome, Err(SearchError::MalformedHit(1))));
}

#[test]
fn a_highlight_that_cuts_a_character_is_a_malformed_hit() {
    let mut bad = hit(3, "proj", "s", 10);
    bad.fragment = "zäh".to_string();
    bad.highlighted = vec![0..2];
    let outcome = search(3, &query("x", "proj", 0, 100), EngineReply::Hits(vec![bad]));
    assert!(matches!(outcome, Err(SearchError::MalformedHit(0))));
}

#[test]
fn a_malformed_hit_that_is_not_asked_for_is_left_out() {
    let mut bad = hit(3, "other", "s", 10);
    bad.highlighted = vec![90..95];
    let got = sessions_of(search(
        3,
        &query("x", "proj", 0, 100),
        EngineReply::Hits(vec![bad, hit(3, "proj", "ok", 10)]),
    ));
    assert_eq!(got, vec!["ok"]);
}

#[test]
fn cut_a_piece() {
    assert_eq!(cut("one two three", 4, 7), Some("two".to_string()));
    assert_eq!(cut("one two three", 0, 13), Some("one two three".to_string()));
    assert_eq!(cut("one", 3, 3), Some(String::new()));
    assert_eq!(cut("", 0, 0), Some(String::new()));
}

#[test]
fn cut_counts_bytes() {
    assert_eq!(cut("zäh €5", 1, 3), Some("ä".to_string()));
    assert_eq!(cut("zäh €5", 5, 8), Some("€".to_string()));
    assert_eq!(cut("zäh €5", 0, 9), Some("zäh €5".to_string()));
}

#[test]
fn cut_refuses_what_is_no_piece() {
    assert_eq!(cut("abc", 2, 1), None);
    assert_eq!(cut("abc", 0, 4), None);
    assert_eq!(cut("abc", 4, 4), None);
    assert_eq!(cut("zäh", 1, 2), None);
    assert_eq!(cut("zäh", 2, 3), None);
    assert_eq!(cut("€", 1, 3), None);
}

#[test]
fn a_request_for_no_results_is_answered_at_once() {
    let mut q = query("anything", "proj", 0, 100);
    q.limit = 0;
    assert!(matches!(plan(3, &q), Plan::Answer(ref results) if results.is_empty()));
    q.offset = Some(4);
    assert!(matches!(plan(3, &q), Plan::Answer(ref results) if results.is_empty()));
}

#[test]
fn any_other_request_is_put_to_the_engine() {
    let mut q = query("foo", "proj", 10, 20);
    q.limit = 1;
    match plan(3, &q) {
        Plan::Ask(asked) => {
            assert_eq!(asked.text, engine_query(3, &q).text);
            assert_eq!(asked.limit, 1);
            assert_eq!(asked.offset, 0);
            assert_eq!(asked.order_by, "timestamp_ms");
        }
        other => panic!("expected a query for the engine, got {:?}", other),
    }
}

#[test]
fn the_query_names_the_fields_for_the_engine() {
    let asked = engine_query(3, &query("x", "proj", 0, 1));
    assert_eq!(asked.default_fields, vec!["diff".to_string(), "file_path".to_string()]);
    assert_eq!(asked.snippet_field, "diff");
    assert_eq!(asked.order_by, "timestamp_ms");
}

#[test]
fn a_hit_from_what_the_engine_has_stored() {
    let stored = vec![
        text_entry("project_id", "proj"),
        text_entry("session_id", "sess"),
        number_entry("delta_index", 5),
        text_entry("file_path", "a.txt"),
        text_entry("diff", "one two"),
        text_entry("session_id", "second value"),
    ];
    let hit = Hit::from_stored(&stored, 3, 99, "one two".to_string(), vec![0..3]).unwrap();
    assert_eq!(hit.version, 3);
    assert_eq!(hit.project_id, "proj");
    assert_eq!(hit.session_id, "sess");
    assert_eq!(hit.file_path, "a.txt");
    assert_eq!(hit.index, 5);
    assert_eq!(hit.timestamp_ms, 99);
    assert_eq!(hit.fragment, "one two");
    assert_eq!(hit.highlighted, vec![0..3]);
}

#[test]
fn no_hit_where_a_stored_field_is_missing_or_of_the_wrong_kind() {
    let whole = || {
        vec![
            text_entry("project_id", "proj"),
            text_entry("session_id", "sess"),
            number_entry("delta_index", 5),
            text_entry("file_path", "a.txt"),
        ]
    };
    assert!(Hit::from_stored(&whole(), 3, 9, String::new(), Vec::new()).is_some());
    for missing in 0..4 {
        let mut stored = whole();
        stored.remove(missing);
        assert!(Hit::from_stored(&stored, 3, 9, String::new(), Vec::new()).is_none());
    }
    let mut wrong = whole();
    wrong[2] = text_entry("delta_index", "5");
    assert!(Hit::from_stored(&wrong, 3, 9, String::new(), Vec::new()).is_none());
    let mut wrong = whole();
    wrong[0] = number_entry("project_id", 1);
    assert!(Hit::from_stored(&wrong, 3, 9, String::new(), Vec::new()).is_none());
    assert!(Hit::from_stored(&Vec::new(), 3, 9, String::new(), Vec::new()).is_none());
}

#[test]
fn the_query_names_the_version_field() {
    assert_eq!(engine_query(3, &query("x", "proj", 0, 1)).version_field, "version");
}
