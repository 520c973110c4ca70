use delta_search::schema::{build_schema, FieldKind, CURRENT_VERSION};

fn has(name: &str, kind: FieldKind, indexed: bool, stored: bool, fast: bool) -> bool {
    build_schema().iter().any(|f| {
        f.name == name && f.kind == kind && f.indexed == indexed && f.stored == stored && f.fast == fast
    })
}

#[test]
fn the_schema_has_nine_fields_in_order() {
    let names: Vec<String> = build_schema().into_iter().map(|f| f.name).collect();
    assert_eq!(
        names,
        vec![
            "version",
            "project_id",
            "session_id",
            "delta_index",
            "file_path",
            "diff",
            "is_addition",
            "is_deletion",
            "timestamp_ms"
        ]
    );
}

#[test]
fn the_number_fields() {
    assert!(has("version", FieldKind::U64, true, false, true));
    assert!(has("delta_index", FieldKind::U64, false, true, false));
    assert!(has("timestamp_ms", FieldKind::U64, true, false, true));
}

#[test]
fn the_text_fields() {
    assert!(has("project_id", FieldKind::Text, true, true, true));
    assert!(has("session_id", FieldKind::Text, false, true, false));
    assert!(has("file_path", FieldKind::Text, true, true, true));
    assert!(has("diff", FieldKind::Text, true, true, false));
}

#[test]
fn the_flag_fields() {
    assert!(has("is_addition", FieldKind::Bool, false, false, true));
    assert!(has("is_deletion", FieldKind::Bool, false, false, true));
}

#[test]
fn the_current_version() {
    assert_eq!(CURRENT_VERSION, 3);
}
