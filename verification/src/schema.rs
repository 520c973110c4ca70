//! The shape of an indexed document.
//!
//! The schema is fixed once an index is created. A new shape takes a new
//! schema version, and with it a new index generation.

use vstd::prelude::*;
use vstd::string::StringExecFns;

verus! {

/// The schema version of this release. It never decreases between releases:
/// search tells current documents from stale ones by equality with it.
pub const CURRENT_VERSION: u64 = 3;

/// What a field holds.
#[derive(Debug, Clone, Copy, PartialEq, Eq, Structural)]
pub enum FieldKind {
    U64,
    Text,
    Bool,
}

/// One field of the schema.
#[derive(Debug)]
pub struct FieldSpec {
    pub name: String,
    pub kind: FieldKind,
    /// The field can be searched.
    pub indexed: bool,
    /// The field's value comes back with a hit.
    pub stored: bool,
    /// The field is kept in columns, to filter and order by.
    pub fast: bool,
}

/// A field of the schema as a mathematical value.
pub struct FieldSpecView {
    pub name: Seq<char>,
    pub kind: FieldKind,
    pub indexed: bool,
    pub stored: bool,
    pub fast: bool,
}

impl View for FieldSpec {
    type V = FieldSpecView;

    open spec fn view(&self) -> FieldSpecView {
        FieldSpecView {
            name: self.name@,
            kind: self.kind,
            indexed: self.indexed,
            stored: self.stored,
            fast: self.fast,
        }
    }
}

/// The fields of a list as mathematical values.
pub open spec fn field_views(fields: Seq<FieldSpec>) -> Seq<FieldSpecView> {
    fields.map_values(|f: FieldSpec| f@)
}

/// The fields of the schema, in the order in which they are declared.
pub open spec fn schema_fields() -> Seq<FieldSpecView> {
    seq![
        FieldSpecView {
            name: "version"@,
            kind: FieldKind::U64,
            indexed: true,
            stored: false,
            fast: true,
        },
        FieldSpecView {
            name: "project_id"@,
            kind: FieldKind::Text,
            indexed: true,
            stored: true,
            fast: true,
        },
        FieldSpecView {
            name: "session_id"@,
            kind: FieldKind::Text,
            indexed: false,
            stored: true,
            fast: false,
        },
        FieldSpecView {
            name: "delta_index"@,
            kind: FieldKind::U64,
            indexed: false,
            stored: true,
            fast: false,
        },
        FieldSpecView {
            name: "file_path"@,
            kind: FieldKind::Text,
            indexed: true,
            stored: true,
            fast: true,
        },
        FieldSpecView {
            name: "diff"@,
            kind: FieldKind::Text,
            indexed: true,
            stored: true,
            fast: false,
        },
        FieldSpecView {
            name: "is_addition"@,
            kind: FieldKind::Bool,
            indexed: false,
            stored: false,
            fast: true,
        },
        FieldSpecView {
            name: "is_deletion"@,
            kind: FieldKind::Bool,
            indexed: false,
            stored: false,
            fast: true,
        },
        FieldSpecView {
            name: "timestamp_ms"@,
            kind: FieldKind::U64,
            indexed: true,
            stored: false,
            fast: true,
        },
    ]
}

/// One field.
fn field(name: &str, kind: FieldKind, indexed: bool, stored: bool, fast: bool) -> (made: FieldSpec)
    ensures
        made@ == (FieldSpecView { name: name@, kind, indexed, stored, fast }),
{
    FieldSpec { name: String::from_str(name), kind, indexed, stored, fast }
}

/// The schema: its fields, in order.
pub fn build_schema() -> (fields: Vec<FieldSpec>)
    ensures
        field_views(fields@) == schema_fields(),
{
    let mut fields: Vec<FieldSpec> = Vec::new();
    fields.push(field("version", FieldKind::U64, true, false, true));
    fields.push(field("project_id", FieldKind::Text, true, true, true));
    fields.push(field("session_id", FieldKind::Text, false, true, false));
    fields.push(field("delta_index", FieldKind::U64, false, true, false));
    fields.push(field("file_path", FieldKind::Text, true, true, true));
    fields.push(field("diff", FieldKind::Text, true, true, false));
    fields.push(field("is_addition", FieldKind::Bool, false, false, true));
    fields.push(field("is_deletion", FieldKind::Bool, false, false, true));
    fields.push(field("timestamp_ms", FieldKind::U64, true, false, true));
    fields
}

/// The value of one field of a document.
#[derive(Debug)]
pub enum FieldValue {
    U64(u64),
    Text(String),
}

/// A field's value as a mathematical value.
pub enum FieldValueView {
    U64(u64),
    Text(Seq<char>),
}

impl View for FieldValue {
    type V = FieldValueView;

    open spec fn view(&self) -> FieldValueView {
        match self {
            FieldValue::U64(number) => FieldValueView::U64(*number),
            FieldValue::Text(text) => FieldValueView::Text(text@),
        }
    }
}

/// One field of a document, by the field's name, with its value.
#[derive(Debug)]
pub struct FieldEntry {
    pub name: String,
    pub value: FieldValue,
}

/// A field of a document as a mathematical value.
pub struct FieldEntryView {
    pub name: Seq<char>,
    pub value: FieldValueView,
}

impl View for FieldEntry {
    type V = FieldEntryView;

    open spec fn view(&self) -> FieldEntryView {
        FieldEntryView { name: self.name@, value: self.value@ }
    }
}

/// The entries of a list as mathematical values.
pub open spec fn entry_views(entries: Seq<FieldEntry>) -> Seq<FieldEntryView> {
    entries.map_values(|e: FieldEntry| e@)
}

/// The kind of field that a value is written to.
pub open spec fn kind_of(value: FieldValueView) -> FieldKind {
    match value {
        FieldValueView::U64(_) => FieldKind::U64,
        FieldValueView::Text(_) => FieldKind::Text,
    }
}

/// Whether the schema has a field of the entry's name that holds values
/// of the entry's kind.
pub open spec fn fits_the_schema(entry: FieldEntryView) -> bool {
    exists|f: int|
        0 <= f < schema_fields().len() && (#[trigger] schema_fields()[f]).name == entry.name
            && schema_fields()[f].kind == kind_of(entry.value)
}

/// An entry with a number.
pub fn number_entry(name: &str, number: u64) -> (entry: FieldEntry)
    ensures
        entry@ == (FieldEntryView { name: name@, value: FieldValueView::U64(number) }),
{
    FieldEntry { name: String::from_str(name), value: FieldValue::U64(number) }
}

/// An entry with a text.
pub fn text_entry(name: &str, text: &str) -> (entry: FieldEntry)
    ensures
        entry@ == (FieldEntryView { name: name@, value: FieldValueView::Text(text@) }),
{
    FieldEntry { name: String::from_str(name), value: FieldValue::Text(String::from_str(text)) }
}

} // verus!
