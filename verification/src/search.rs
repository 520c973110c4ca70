//! Searching: from a request to the engine's query, from the engine's hits
//! to results.
//!
//! The index engine matches the free text and ranks the hits. This module
//! writes the query that the engine is given, and turns what the engine
//! answers into results: it lets through only hits of the project, the time
//! range and the schema version that were asked for, and cuts the
//! highlighted pieces out of each hit's fragment.

use crate::decimal::{decimal, format_u64};
use crate::schema::{entry_views, FieldEntry, FieldEntryView, FieldValue, FieldValueView};
use std::ops::Range;
use vstd::prelude::*;
use vstd::string::StringExecFns;
use vstd::string::StringSliceAdditionalSpecFns;
use vstd::utf8::{
    decode_utf8, encode_utf8, encode_utf8_decode_utf8, encode_utf8_valid_utf8, is_char_boundary,
    is_char_boundary_iff_not_is_continuation_byte, is_char_boundary_start_end_of_seq,
    valid_utf8_split,
};

verus! {

/// A search request.
#[derive(Debug)]
pub struct SearchQuery {
    /// The free text to look for.
    pub q: String,
    /// The project to search in.
    pub project_id: String,
    /// The largest number of results wanted.
    pub limit: usize,
    /// The number of leading results to leave out; none where absent.
    pub offset: Option<usize>,
    /// The timestamps to search in, in milliseconds: from `start` on and
    /// below `end`.
    pub range: Range<u64>,
}

/// A search request as a mathematical value.
pub struct QueryView {
    pub q: Seq<char>,
    pub project_id: Seq<char>,
    pub limit: int,
    pub offset: Option<int>,
    pub start: int,
    pub end: int,
}

impl View for SearchQuery {
    type V = QueryView;

    open spec fn view(&self) -> QueryView {
        QueryView {
            q: self.q@,
            project_id: self.project_id@,
            limit: self.limit as int,
            offset: match self.offset {
                Some(n) => Some(n as int),
                None => None,
            },
            start: self.range.start as int,
            end: self.range.end as int,
        }
    }
}

/// One result of a search.
#[derive(Debug)]
pub struct SearchResult {
    pub project_id: String,
    pub session_id: String,
    pub file_path: String,
    /// Position of the delta among the deltas of its file.
    pub index: u64,
    /// The matched pieces of the change text, from left to right.
    pub highlighted: Vec<String>,
}

/// A result as a mathematical value.
pub struct ResultView {
    pub project_id: Seq<char>,
    pub session_id: Seq<char>,
    pub file_path: Seq<char>,
    pub index: int,
    pub highlighted: Seq<Seq<char>>,
}

/// The texts of a list as mathematical values.
pub open spec fn text_views(texts: Seq<String>) -> Seq<Seq<char>> {
    texts.map_values(|t: String| t@)
}

impl View for SearchResult {
    type V = ResultView;

    open spec fn view(&self) -> ResultView {
        ResultView {
            project_id: self.project_id@,
            session_id: self.session_id@,
            file_path: self.file_path@,
            index: self.index as int,
            highlighted: text_views(self.highlighted@),
        }
    }
}

/// The results of a list as mathematical values.
pub open spec fn result_views(results: Seq<SearchResult>) -> Seq<ResultView> {
    results.map_values(|r: SearchResult| r@)
}

/// What the engine is asked.
#[derive(Debug)]
pub struct EngineQuery {
    /// The query in the engine's query language.
    pub text: String,
    /// The fields in which the engine looks for free text that names no
    /// field.
    pub default_fields: Vec<String>,
    /// The field by which the engine ranks the hits.
    pub order_by: String,
    /// The field whose text the engine cuts the snippets from.
    pub snippet_field: String,
    /// The field that holds the schema version of a document.
    pub version_field: String,
    pub limit: usize,
    pub offset: usize,
}

/// An engine query as a mathematical value.
pub struct EngineQueryView {
    pub text: Seq<char>,
    pub default_fields: Seq<Seq<char>>,
    pub order_by: Seq<char>,
    pub snippet_field: Seq<char>,
    pub version_field: Seq<char>,
    pub limit: int,
    pub offset: int,
}

impl View for EngineQuery {
    type V = EngineQueryView;

    open spec fn view(&self) -> EngineQueryView {
        EngineQueryView {
            text: self.text@,
            default_fields: text_views(self.default_fields@),
            order_by: self.order_by@,
            snippet_field: self.snippet_field@,
            version_field: self.version_field@,
            limit: self.limit as int,
            offset: self.offset as int,
        }
    }
}

/// The query text for a request under schema version `version`: the
/// version, the project and the time range as exact clauses, and the free
/// text in brackets, all joined by `AND`. Free text that names no field is
/// looked for in the default fields of the query.
pub open spec fn query_text(version: u64, query: QueryView) -> Seq<char> {
    "version:\""@ + decimal(version as nat) + "\" AND project_id:\""@ + query.project_id
        + "\" AND timestamp_ms:["@ + decimal(query.start as nat) + " TO "@ + decimal(
        query.end as nat,
    ) + "} AND ("@ + query.q + ")"@
}

/// What the engine is asked for a request under schema version `version`.
pub open spec fn engine_query_of(version: u64, query: QueryView) -> EngineQueryView {
    EngineQueryView {
        text: query_text(version, query),
        default_fields: seq!["diff"@, "file_path"@],
        order_by: "timestamp_ms"@,
        snippet_field: "diff"@,
        version_field: "version"@,
        limit: query.limit,
        offset: match query.offset {
            Some(n) => n,
            None => 0,
        },
    }
}

/// Writes the engine's query for a request.
pub fn engine_query(version: u64, query: &SearchQuery) -> (asked: EngineQuery)
    ensures
        asked@ == engine_query_of(version, query@),
{
    let mut text = String::from_str("version:\"");
    text.append(format_u64(version).as_str());
    text.append("\" AND project_id:\"");
    text.append(query.project_id.as_str());
    text.append("\" AND timestamp_ms:[");
    text.append(format_u64(query.range.start).as_str());
    text.append(" TO ");
    text.append(format_u64(query.range.end).as_str());
    text.append("} AND (");
    text.append(query.q.as_str());
    text.append(")");
    let offset: usize = match query.offset {
        Some(n) => n,
        None => 0,
    };
    let mut default_fields: Vec<String> = Vec::new();
    default_fields.push(String::from_str("diff"));
    default_fields.push(String::from_str("file_path"));
    assert(text_views(default_fields@) =~= seq!["diff"@, "file_path"@]);
    EngineQuery {
        text,
        default_fields,
        order_by: String::from_str("timestamp_ms"),
        snippet_field: String::from_str("diff"),
        version_field: String::from_str("version"),
        limit: query.limit,
        offset,
    }
}

/// How to go about a request.
#[derive(Debug)]
pub enum Plan {
    /// Ask the engine this, and hand its reply to `search`.
    Ask(EngineQuery),
    /// The engine need not be asked: these are the results.
    Answer(Vec<SearchResult>),
}

/// A plan as a mathematical value.
pub enum PlanView {
    Ask(EngineQueryView),
    Answer(Seq<ResultView>),
}

impl View for Plan {
    type V = PlanView;

    open spec fn view(&self) -> PlanView {
        match self {
            Plan::Ask(asked) => PlanView::Ask(asked@),
            Plan::Answer(results) => PlanView::Answer(result_views(results@)),
        }
    }
}

/// How to go about a request under schema version `version`: a request
/// for at most no results has none, and the engine is not asked; any other
/// request is put to the engine.
pub open spec fn plan_of(version: u64, query: QueryView) -> PlanView {
    if query.limit == 0 {
        PlanView::Answer(Seq::empty())
    } else {
        PlanView::Ask(engine_query_of(version, query))
    }
}

/// Plans a request.
pub fn plan(version: u64, query: &SearchQuery) -> (planned: Plan)
    ensures
        planned@ == plan_of(version, query@),
{
    if query.limit == 0 {
        let results: Vec<SearchResult> = Vec::new();
        assert(result_views(results@) == Seq::<ResultView>::empty());
        Plan::Answer(results)
    } else {
        Plan::Ask(engine_query(version, query))
    }
}

/// One document that the engine found, with the snippet it made of the
/// change text.
#[derive(Debug)]
pub struct Hit {
    pub version: u64,
    pub project_id: String,
    pub session_id: String,
    pub file_path: String,
    pub index: u64,
    pub timestamp_ms: u64,
    /// The part of the change text that the snippet shows.
    pub fragment: String,
    /// The matched pieces, as byte ranges of the fragment, from left to
    /// right.
    pub highlighted: Vec<Range<usize>>,
}

/// A hit as a mathematical value.
pub struct HitView {
    pub version: u64,
    pub project_id: Seq<char>,
    pub session_id: Seq<char>,
    pub file_path: Seq<char>,
    pub index: int,
    pub timestamp_ms: int,
    pub fragment: Seq<char>,
    pub highlighted: Seq<Range<usize>>,
}

impl View for Hit {
    type V = HitView;

    open spec fn view(&self) -> HitView {
        HitView {
            version: self.version,
            project_id: self.project_id@,
            session_id: self.session_id@,
            file_path: self.file_path@,
            index: self.index as int,
            timestamp_ms: self.timestamp_ms as int,
            fragment: self.fragment@,
            highlighted: self.highlighted@,
        }
    }
}

/// The value of the first of `stored` that has the name `name`, if there
/// is one.
pub open spec fn first_value(stored: Seq<FieldEntryView>, name: Seq<char>) -> Option<
    FieldValueView,
>
    decreases stored.len(),
{
    if stored.len() == 0 {
        None
    } else if stored.first().name == name {
        Some(stored.first().value)
    } else {
        first_value(stored.drop_first(), name)
    }
}

/// The text that `stored` holds under `name`: the first value of that
/// name, if it is a text.
pub open spec fn stored_text(stored: Seq<FieldEntryView>, name: Seq<char>) -> Option<Seq<char>> {
    match first_value(stored, name) {
        Some(FieldValueView::Text(text)) => Some(text),
        _ => None,
    }
}

/// The number that `stored` holds under `name`: the first value of that
/// name, if it is a number.
pub open spec fn stored_number(stored: Seq<FieldEntryView>, name: Seq<char>) -> Option<u64> {
    match first_value(stored, name) {
        Some(FieldValueView::U64(number)) => Some(number),
        _ => None,
    }
}

/// The hit that a found document makes: the project, the session, the file
/// and the delta index from what the engine has stored of it, under the
/// names of the schema. There is none where one of the four is missing or
/// of the wrong kind.
pub open spec fn hit_of(
    stored: Seq<FieldEntryView>,
    version: u64,
    timestamp_ms: u64,
    fragment: Seq<char>,
    highlighted: Seq<Range<usize>>,
) -> Option<HitView> {
    if stored_text(stored, "project_id"@) is Some && stored_text(stored, "session_id"@) is Some
        && stored_text(stored, "file_path"@) is Some && stored_number(stored, "delta_index"@)
        is Some {
        Some(
            HitView {
                version,
                project_id: stored_text(stored, "project_id"@)->0,
                session_id: stored_text(stored, "session_id"@)->0,
                file_path: stored_text(stored, "file_path"@)->0,
                index: stored_number(stored, "delta_index"@)->0 as int,
                timestamp_ms: timestamp_ms as int,
                fragment,
                highlighted,
            },
        )
    } else {
        None
    }
}

/// The position of the first of `stored` that has the name `name`, or the
/// number of entries where there is none.
fn place_of(stored: &Vec<FieldEntry>, name: &str) -> (at: usize)
    ensures
        at <= stored.len(),
        at < stored.len() ==> first_value(entry_views(stored@), name@) == Some(
            stored@[at as int]@.value,
        ),
        at == stored.len() ==> first_value(entry_views(stored@), name@) == None::<FieldValueView>,
{
    let ghost views = entry_views(stored@);
    let wanted = String::from_str(name);
    let mut at: usize = 0;
    assert(views.subrange(0, views.len() as int) == views);
    while at < stored.len()
        invariant
            at <= stored.len(),
            wanted@ == name@,
            views == entry_views(stored@),
            first_value(views, name@) == first_value(
                views.subrange(at as int, views.len() as int),
                name@,
            ),
        decreases stored.len() - at,
    {
        let ghost rest = views.subrange(at as int, views.len() as int);
        assert(rest.first() == stored@[at as int]@);
        assert(rest.drop_first() == views.subrange(at + 1, views.len() as int));
        if stored[at].name == wanted {
            return at;
        }
        at = at + 1;
    }
    at
}

/// The text that `stored` holds under `name`.
fn text_of(stored: &Vec<FieldEntry>, name: &str) -> (text: Option<String>)
    ensures
        match text {
            Some(found) => stored_text(entry_views(stored@), name@) == Some(found@),
            None => stored_text(entry_views(stored@), name@) == None::<Seq<char>>,
        },
{
    let at = place_of(stored, name);
    if at == stored.len() {
        return None;
    }
    match &stored[at].value {
        FieldValue::Text(text) => Some(text.clone()),
        FieldValue::U64(_) => None,
    }
}

/// The number that `stored` holds under `name`.
fn number_of(stored: &Vec<FieldEntry>, name: &str) -> (number: Option<u64>)
    ensures
        number == stored_number(entry_views(stored@), name@),
{
    let at = place_of(stored, name);
    if at == stored.len() {
        return None;
    }
    match &stored[at].value {
        FieldValue::U64(number) => Some(*number),
        FieldValue::Text(_) => None,
    }
}

impl Hit {
    /// The hit that a found document makes, from what the engine has
    /// stored of it and what it says of it besides: the version it holds
    /// for the document, the timestamp it has ranked it by, and the
    /// snippet.
    pub fn from_stored(
        stored: &Vec<FieldEntry>,
        version: u64,
        timestamp_ms: u64,
        fragment: String,
        highlighted: Vec<Range<usize>>,
    ) -> (hit: Option<Hit>)
        ensures
            match hit {
                Some(made) => hit_of(
                    entry_views(stored@),
                    version,
                    timestamp_ms,
                    fragment@,
                    highlighted@,
                ) == Some(made@),
                None => hit_of(
                    entry_views(stored@),
                    version,
                    timestamp_ms,
                    fragment@,
                    highlighted@,
                ) == None::<HitView>,
            },
    {
        let project_id = match text_of(stored, "project_id") {
            Some(text) => text,
            None => {
                return None;
            },
        };
        let session_id = match text_of(stored, "session_id") {
            Some(text) => text,
            None => {
                return None;
            },
        };
        let file_path = match text_of(stored, "file_path") {
            Some(text) => text,
            None => {
                return None;
            },
        };
        let index = match number_of(stored, "delta_index") {
            Some(number) => number,
            None => {
                return None;
            },
        };
        Some(
            Hit {
                version,
                project_id,
                session_id,
                file_path,
                index,
                timestamp_ms,
                fragment,
                highlighted,
            },
        )
    }
}

/// The hits of a list as mathematical values.
pub open spec fn hit_views(hits: Seq<Hit>) -> Seq<HitView> {
    hits.map_values(|h: Hit| h@)
}

/// What the engine answered.
#[derive(Debug)]
pub enum EngineReply {
    /// The hits, in the engine's ranking.
    Hits(Vec<Hit>),
    /// The engine could not read the query text; its message.
    SyntaxError(String),
    /// The engine failed otherwise; its message.
    Failure(String),
}

/// Why a search gives no results.
#[derive(Debug)]
pub enum SearchError {
    /// The free text is not in the engine's query language.
    QuerySyntax(String),
    /// The engine failed.
    Engine(String),
    /// A hit, given by its position, names a highlighted piece that is no
    /// piece of its fragment.
    MalformedHit(usize),
}

/// A search error as a mathematical value.
pub enum SearchErrorView {
    QuerySyntax(Seq<char>),
    Engine(Seq<char>),
    MalformedHit(int),
}

impl View for SearchError {
    type V = SearchErrorView;

    open spec fn view(&self) -> SearchErrorView {
        match self {
            SearchError::QuerySyntax(message) => SearchErrorView::QuerySyntax(message@),
            SearchError::Engine(message) => SearchErrorView::Engine(message@),
            SearchError::MalformedHit(hit) => SearchErrorView::MalformedHit(*hit as int),
        }
    }
}

/// An engine's answer as a mathematical value.
pub enum EngineReplyView {
    Hits(Seq<HitView>),
    SyntaxError(Seq<char>),
    Failure(Seq<char>),
}

impl View for EngineReply {
    type V = EngineReplyView;

    open spec fn view(&self) -> EngineReplyView {
        match self {
            EngineReply::Hits(hits) => EngineReplyView::Hits(hit_views(hits@)),
            EngineReply::SyntaxError(message) => EngineReplyView::SyntaxError(message@),
            EngineReply::Failure(message) => EngineReplyView::Failure(message@),
        }
    }
}

/// Whether the bytes from `start` up to `end` are a piece of `text`: the
/// range lies within the UTF-8 bytes of the text and cuts no character.
pub open spec fn is_piece(text: Seq<char>, start: int, end: int) -> bool {
    &&& 0 <= start <= end <= encode_utf8(text).len()
    &&& is_char_boundary(encode_utf8(text), start)
    &&& is_char_boundary(encode_utf8(text), end)
}

/// The piece of `text` that its UTF-8 bytes from `start` up to `end` spell.
pub open spec fn piece(text: Seq<char>, start: int, end: int) -> Seq<char> {
    decode_utf8(encode_utf8(text).subrange(start, end))
}

/// Whether a hit is one that the request asked for: of the schema version
/// `version`, of the request's project, and made within its time range.
pub open spec fn admissible(version: u64, query: QueryView, hit: HitView) -> bool {
    &&& hit.version == version
    &&& hit.project_id == query.project_id
    &&& query.start <= hit.timestamp_ms < query.end
}

/// Whether every highlighted range of a hit is a piece of its fragment.
pub open spec fn well_formed(hit: HitView) -> bool {
    forall|k: int|
        0 <= k < hit.highlighted.len() ==> is_piece(
            hit.fragment,
            (#[trigger] hit.highlighted[k]).start as int,
            hit.highlighted[k].end as int,
        )
}

/// The result that a hit becomes.
pub open spec fn result_of(hit: HitView) -> ResultView {
    ResultView {
        project_id: hit.project_id,
        session_id: hit.session_id,
        file_path: hit.file_path,
        index: hit.index,
        highlighted: Seq::new(
            hit.highlighted.len(),
            |k: int| piece(hit.fragment, hit.highlighted[k].start as int, hit.highlighted[k].end as int),
        ),
    }
}

/// The results of a list of hits: the admissible hits, in the order of the
/// list, each as a result; or the position of the first admissible hit that
/// is not well formed.
pub open spec fn collected(version: u64, query: QueryView, hits: Seq<HitView>) -> Result<
    Seq<ResultView>,
    int,
>
    decreases hits.len(),
{
    if hits.len() == 0 {
        Ok(Seq::empty())
    } else {
        match collected(version, query, hits.drop_last()) {
            Err(position) => Err(position),
            Ok(results) => if !admissible(version, query, hits.last()) {
                Ok(results)
            } else if !well_formed(hits.last()) {
                Err(hits.len() - 1)
            } else {
                Ok(results.push(result_of(hits.last())))
            },
        }
    }
}

/// The outcome of a search, from what the engine answered.
pub open spec fn search_outcome(version: u64, query: QueryView, reply: EngineReplyView) -> Result<
    Seq<ResultView>,
    SearchErrorView,
> {
    match reply {
        EngineReplyView::SyntaxError(message) => Err(SearchErrorView::QuerySyntax(message)),
        EngineReplyView::Failure(message) => Err(SearchErrorView::Engine(message)),
        EngineReplyView::Hits(hits) => match collected(version, query, hits) {
            Ok(results) => Ok(results),
            Err(position) => Err(SearchErrorView::MalformedHit(position)),
        },
    }
}

/// Whether `result` is what the admissible hit `hit` becomes.
pub open spec fn stems_from(version: u64, query: QueryView, result: ResultView, hit: HitView)
    -> bool {
    admissible(version, query, hit) && result == result_of(hit)
}

/// Whether `result` is what one of `hits` becomes, an admissible one.
pub open spec fn has_source(
    version: u64,
    query: QueryView,
    result: ResultView,
    hits: Seq<HitView>,
) -> bool {
    exists|j: int| 0 <= j < hits.len() && #[trigger] stems_from(version, query, result, hits[j])
}

/// Whether `result` is what one of `hits` becomes whose timestamp lies in
/// the time range of `query`: at or after its start and before its end.
pub open spec fn made_in_range(
    version: u64,
    query: QueryView,
    result: ResultView,
    hits: Seq<HitView>,
) -> bool {
    exists|j: int|
        0 <= j < hits.len() && #[trigger] stems_from(version, query, result, hits[j])
            && query.start <= hits[j].timestamp_ms < query.end
}

/// Whether `result` is what one of `hits` becomes that was written under
/// schema version `version`.
pub open spec fn written_under(
    version: u64,
    query: QueryView,
    result: ResultView,
    hits: Seq<HitView>,
) -> bool {
    exists|j: int|
        0 <= j < hits.len() && #[trigger] stems_from(version, query, result, hits[j])
            && hits[j].version == version
}

/// Every result is what one of the hits becomes, and that hit is
/// admissible.
pub proof fn lemma_results_stem_from_hits(version: u64, query: QueryView, hits: Seq<HitView>)
    requires
        collected(version, query, hits) is Ok,
    ensures
        forall|i: int|
            0 <= i < collected(version, query, hits)->Ok_0.len() ==> has_source(
                version,
                query,
                #[trigger] collected(version, query, hits)->Ok_0[i],
                hits,
            ),
    decreases hits.len(),
{
    if hits.len() > 0 {
        let shorter = hits.drop_last();
        let before = collected(version, query, shorter)->Ok_0;
        let results = collected(version, query, hits)->Ok_0;
        lemma_results_stem_from_hits(version, query, shorter);
        assert forall|i: int| 0 <= i < results.len() implies has_source(
            version,
            query,
            #[trigger] results[i],
            hits,
        ) by {
            if i >= before.len() {
                assert(stems_from(version, query, results[i], hits[hits.len() - 1]));
            }
        }
    }
}

/// A search in one project gives no result of another project.
pub proof fn lemma_results_are_scoped(version: u64, query: QueryView, hits: Seq<HitView>)
    requires
        collected(version, query, hits) is Ok,
    ensures
        forall|i: int|
            0 <= i < collected(version, query, hits)->Ok_0.len() ==> (#[trigger] collected(
                version,
                query,
                hits,
            )->Ok_0[i]).project_id == query.project_id,
{
    let results = collected(version, query, hits)->Ok_0;
    lemma_results_stem_from_hits(version, query, hits);
    assert forall|i: int| 0 <= i < results.len() implies (#[trigger] results[i]).project_id
        == query.project_id by {}
}

/// A search in a time range gives no result made outside it: every result
/// is what a hit becomes whose timestamp is at or after the start of the
/// range and before its end.
pub proof fn lemma_results_are_in_time_range(version: u64, query: QueryView, hits: Seq<HitView>)
    requires
        collected(version, query, hits) is Ok,
    ensures
        forall|i: int|
            0 <= i < collected(version, query, hits)->Ok_0.len() ==> made_in_range(
                version,
                query,
                #[trigger] collected(version, query, hits)->Ok_0[i],
                hits,
            ),
{
    let results = collected(version, query, hits)->Ok_0;
    lemma_results_stem_from_hits(version, query, hits);
    assert forall|i: int| 0 <= i < results.len() implies made_in_range(
        version,
        query,
        #[trigger] results[i],
        hits,
    ) by {}
}

/// A search under one schema version gives no result written under
/// another: every result is what a hit of that very version becomes. A
/// document of a stale version, still held by the engine, never comes back.
pub proof fn lemma_results_are_of_the_version(version: u64, query: QueryView, hits: Seq<HitView>)
    requires
        collected(version, query, hits) is Ok,
    ensures
        forall|i: int|
            0 <= i < collected(version, query, hits)->Ok_0.len() ==> written_under(
                version,
                query,
                #[trigger] collected(version, query, hits)->Ok_0[i],
                hits,
            ),
{
    let results = collected(version, query, hits)->Ok_0;
    lemma_results_stem_from_hits(version, query, hits);
    assert forall|i: int| 0 <= i < results.len() implies written_under(
        version,
        query,
        #[trigger] results[i],
        hits,
    ) by {}
}

/// A failure among the first `k` hits is the failure of the whole list.
pub proof fn lemma_malformed_stays(version: u64, query: QueryView, hits: Seq<HitView>, k: int)
    requires
        0 <= k <= hits.len(),
        collected(version, query, hits.take(k)) is Err,
    ensures
        collected(version, query, hits) == collected(version, query, hits.take(k)),
    decreases hits.len() - k,
{
    if k == hits.len() {
        assert(hits.take(k) == hits);
    } else {
        assert(hits.take(k + 1).drop_last() == hits.take(k));
        lemma_malformed_stays(version, query, hits, k + 1);
    }
}

/// A character boundary of a text, taken from an earlier boundary on, is
/// a boundary of the rest of the text.
proof fn lemma_boundary_of_rest(bytes: Seq<u8>, start: int, end: int)
    requires
        vstd::utf8::valid_utf8(bytes),
        0 <= start <= end <= bytes.len(),
        is_char_boundary(bytes, start),
        is_char_boundary(bytes, end),
    ensures
        vstd::utf8::valid_utf8(bytes.subrange(start, bytes.len() as int)),
        is_char_boundary(bytes.subrange(start, bytes.len() as int), end - start),
{
    let rest = bytes.subrange(start, bytes.len() as int);
    valid_utf8_split(bytes, start);
    if end == bytes.len() {
        is_char_boundary_start_end_of_seq(rest);
    } else {
        is_char_boundary_iff_not_is_continuation_byte(bytes, end);
        is_char_boundary_iff_not_is_continuation_byte(rest, end - start);
    }
}

/// Cuts the piece from byte `start` up to byte `end` out of `text`, if the
/// range is a piece of it.
pub fn cut(text: &str, start: usize, end: usize) -> (cut: Option<String>)
    ensures
        match cut {
            Some(found) => is_piece(text@, start as int, end as int) && found@ == piece(
                text@,
                start as int,
                end as int,
            ),
            None => !is_piece(text@, start as int, end as int),
        },
{
    let len: usize = text.as_bytes().len();
    if start > end || end > len {
        return None;
    }
    if !text.is_char_boundary(start) || !text.is_char_boundary(end) {
        return None;
    }
    let ghost bytes = encode_utf8(text@);
    proof {
        encode_utf8_valid_utf8(text@);
        lemma_boundary_of_rest(bytes, start as int, end as int);
    }
    let (_, rest) = text.split_at(start);
    let (found, _) = rest.split_at(end - start);
    proof {
        assert(found.spec_bytes() == bytes.subrange(start as int, end as int));
        encode_utf8_decode_utf8(found@);
    }
    Some(found.to_owned())
}

/// Turns a hit into a result, if the hit is well formed.
fn result_from(hit: &Hit) -> (result: Option<SearchResult>)
    ensures
        match result {
            Some(made) => well_formed(hit@) && made@ == result_of(hit@),
            None => !well_formed(hit@),
        },
{
    let mut highlighted: Vec<String> = Vec::new();
    let mut k: usize = 0;
    while k < hit.highlighted.len()
        invariant
            k <= hit.highlighted.len(),
            highlighted.len() == k,
            forall|n: int|
                0 <= n < k ==> is_piece(
                    hit.fragment@,
                    (#[trigger] hit.highlighted@[n]).start as int,
                    hit.highlighted@[n].end as int,
                ),
            forall|n: int|
                0 <= n < k ==> (#[trigger] highlighted@[n])@ == piece(
                    hit.fragment@,
                    hit.highlighted@[n].start as int,
                    hit.highlighted@[n].end as int,
                ),
        decreases hit.highlighted.len() - k,
    {
        let start: usize = hit.highlighted[k].start;
        let end: usize = hit.highlighted[k].end;
        match cut(hit.fragment.as_str(), start, end) {
            None => {
                assert(!is_piece(
                    hit@.fragment,
                    hit@.highlighted[k as int].start as int,
                    hit@.highlighted[k as int].end as int,
                ));
                return None;
            },
            Some(found) => {
                highlighted.push(found);
            },
        }
        k = k + 1;
    }
    let made = SearchResult {
        project_id: hit.project_id.clone(),
        session_id: hit.session_id.clone(),
        file_path: hit.file_path.clone(),
        index: hit.index,
        highlighted,
    };
    assert(made@.highlighted == result_of(hit@).highlighted);
    Some(made)
}

/// Finishes a search: turns what the engine answered to the query of
/// `engine_query` into results.
///
/// Only hits of schema version `version`, of the request's project and of
/// its time range become results, in the engine's order; other hits are
/// left out. A query that the engine could not read is a query-syntax
/// error.
pub fn search(version: u64, query: &SearchQuery, reply: EngineReply) -> (outcome: Result<
    Vec<SearchResult>,
    SearchError,
>)
    ensures
        match outcome {
            Ok(results) => search_outcome(version, query@, reply@) == Ok::<
                Seq<ResultView>,
                SearchErrorView,
            >(result_views(results@)),
            Err(error) => search_outcome(version, query@, reply@) == Err::<
                Seq<ResultView>,
                SearchErrorView,
            >(error@),
        },
{
    let ghost answered = reply@;
    let hits = match reply {
        EngineReply::SyntaxError(message) => {
            return Err(SearchError::QuerySyntax(message));
        },
        EngineReply::Failure(message) => {
            return Err(SearchError::Engine(message));
        },
        EngineReply::Hits(hits) => hits,
    };
    let ghost views = hit_views(hits@);
    let mut results: Vec<SearchResult> = Vec::new();
    let mut i: usize = 0;
    assert(result_views(results@) == Seq::<ResultView>::empty());
    while i < hits.len()
        invariant
            i <= hits.len(),
            views == hit_views(hits@),
            answered == EngineReplyView::Hits(views),
            answered == reply@,
            collected(version, query@, views.take(i as int)) == Ok::<Seq<ResultView>, int>(
                result_views(results@),
            ),
        decreases hits.len() - i,
    {
        proof {
            assert(views.take(i + 1).drop_last() == views.take(i as int));
        }
        let hit = &hits[i];
        if hit.version == version && hit.project_id == query.project_id && query.range.start
            <= hit.timestamp_ms && hit.timestamp_ms < query.range.end {
            let ghost so_far = result_views(results@);
            match result_from(hit) {
                None => {
                    proof {
                        lemma_malformed_stays(version, query@, views, i + 1);
                    }
                    return Err(SearchError::MalformedHit(i));
                },
                Some(made) => {
                    results.push(made);
                    assert(result_views(results@) == so_far.push(made@));
                },
            }
        }
        i = i + 1;
    }
    assert(views.take(i as int) == views);
    Ok(results)
}

} // verus!
