//! Runs and traces by id.

use crate::query::Query;
use crate::query::RunKey;
use crate::query::RunQuery;
use crate::query::RunSummary;
use crate::query::SEGMENT_COLUMNS_SQL;
use crate::query::SegmentSource;
use crate::query::attributes_json_sql;
use crate::query::keys_of;
use crate::query::matching::StoredRun;
use crate::query::matching::is_wanted;
use crate::query::object_path;
use crate::query::payload_column;
use crate::query::plain_query;
use crate::query::planner::SegmentId;
use crate::query::planner::SegmentKey;
use crate::query::planner::insert_segment;
use crate::query::planner::segment_order;
use crate::query::scan::LATEST_RUNS_SQL;
use crate::query::scan::ObjectStoreReadSnapshot;
use crate::query::scan::QueryTimes;
use crate::query::scan::RunQueryDiagnostics;
use crate::query::scan::enforce_runtime_object_store_limits;
use crate::query::scan::keep_runs;
use crate::query::scan::listed;
use crate::query::scan::page_datafusion_runs;
use crate::query::sql_object_store_path;
use crate::record::RunEventKind;
use crate::sorting::ordered_set;
use crate::sql::literal;
use crate::sql::sql_string_literal;
use crate::statement::Call;
use crate::statement::Param;
use crate::statement::Statement;
use crate::statement::call;
use crate::text::int_text;
use crate::text::integer_text;
use crate::text::opt_text;
use crate::text::same;
use crate::time::Duration;
use vstd::prelude::*;
use vstd::string::StringExecFns;

verus! {

/// From which version on the rows of a segment have an index.
pub const ROW_INDEXED_SPAN_SEGMENT_SCHEMA_VERSION: i64 = 2;

/// How much of a run is loaded.
#[derive(Debug, Clone, Copy, PartialEq, Eq, Structural)]
pub enum RunProjection {
    Summary,
    FullPayload,
    Events,
}

impl RunProjection {
    /// Whether the payload is loaded.
    pub fn include_payload(self) -> (r: bool)
        ensures
            r == (self == RunProjection::FullPayload),
    {
        matches!(self, RunProjection::FullPayload)
    }

    /// Whether the events are loaded.
    pub fn include_events(self) -> (r: bool)
        ensures
            r == (self == RunProjection::Events),
    {
        matches!(self, RunProjection::Events)
    }
}

/// An event of a run.
#[derive(Debug, PartialEq, Eq)]
pub struct RunEventSummary {
    pub project_name: String,
    pub run_id: Option<String>,
    pub generated_run_id: String,
    pub trace_id: String,
    pub span_id: String,
    pub event_type: String,
    pub event_time_unix_nano: i64,
    pub segment_uri: String,
    pub row_index: i64,
}

/// A run that was asked for by id, and what it cost.
#[derive(Debug, PartialEq, Eq)]
pub struct RunLoadResult {
    pub run: Option<RunSummary>,
    pub events: Vec<RunEventSummary>,
    pub diagnostics: RunQueryDiagnostics,
}

/// The runs of a trace, and what it cost.
#[derive(Debug, PartialEq, Eq)]
pub struct TraceLoadResult {
    pub runs: Vec<RunSummary>,
    pub events: Vec<RunEventSummary>,
    pub diagnostics: RunQueryDiagnostics,
}

/// Where the latest version of a run is stored.
#[derive(Debug, PartialEq, Eq)]
pub struct RunLocator {
    pub segment_uri: String,
    pub project_name: String,
    pub stored_run_id: String,
    pub generated_run_id: String,
    pub trace_id: String,
    pub span_id: String,
    pub row_index: i64,
    pub schema_version: i64,
}

pub const RUN_LOCATOR_SQL: &'static str = "SELECT
                    trace_segments.uri,
                    run_locators.project_name,
                    run_locators.run_id,
                    run_locators.generated_run_id,
                    run_locators.trace_id,
                    run_locators.span_id,
                    run_locators.row_index,
                    trace_segments.schema_version
                FROM run_locators
                INNER JOIN trace_segments
                    ON trace_segments.id = run_locators.trace_segment_id
                INNER JOIN run_heads
                    ON run_heads.project_name = run_locators.project_name
                    AND run_heads.trace_id = run_locators.trace_id
                    AND run_heads.span_id = run_locators.span_id
                LEFT JOIN run_deletions
                    ON run_deletions.project_name = run_locators.project_name
                    AND run_deletions.trace_id = run_locators.trace_id
                    AND run_deletions.span_id = run_locators.span_id
                WHERE (run_locators.run_id = $1 OR run_locators.generated_run_id = $1)
                    AND trace_segments.compacted_at IS NULL
                    ";

pub const NOT_DELETED_SQL: &'static str = "AND run_heads.deleted_at_unix_nano IS NULL
                AND run_deletions.span_id IS NULL";

pub const LATEST_LOCATOR_SQL: &'static str = "
                ORDER BY
                    run_locators.event_time_unix_nano DESC,
                    run_locators.run_event_id DESC NULLS LAST
                LIMIT 1";

pub const TRACE_SEGMENTS_SQL: &'static str = "SELECT DISTINCT trace_segments.uri, trace_segments.schema_version
            FROM trace_locators
            INNER JOIN trace_segments
                ON trace_segments.id = trace_locators.trace_segment_id
            LEFT JOIN run_deletions
                ON run_deletions.project_name = trace_locators.project_name
                AND run_deletions.trace_id = trace_locators.trace_id
                AND run_deletions.span_id = trace_locators.span_id
            WHERE trace_locators.project_name = $1
                AND trace_locators.trace_id = $2
                AND trace_segments.compacted_at IS NULL
                AND run_deletions.span_id IS NULL
            ORDER BY trace_segments.uri, trace_segments.schema_version";

pub const EVENTS_SQL: &'static str = "SELECT
                run_events.project_name,
                run_events.run_id,
                run_locators.generated_run_id,
                run_events.trace_id,
                run_events.span_id,
                run_events.event_type,
                run_events.event_time_unix_nano,
                trace_segments.uri,
                run_events.row_index
            FROM run_events
            INNER JOIN trace_segments
                ON trace_segments.id = run_events.trace_segment_id
            INNER JOIN run_locators
                ON run_locators.project_name = run_events.project_name
                AND run_locators.trace_id = run_events.trace_id
                AND run_locators.span_id = run_events.span_id
            WHERE run_events.project_name = $1
                AND run_events.trace_id = $2";

pub const LATEST_EVENT_SQL: &'static str = "SELECT
                trace_segments.uri,
                run_locators.project_name,
                run_locators.run_id,
                run_locators.generated_run_id,
                run_locators.trace_id,
                run_locators.span_id,
                run_events.row_index,
                trace_segments.schema_version,
                run_events.event_type
            FROM run_events
            INNER JOIN trace_segments
                ON trace_segments.id = run_events.trace_segment_id
            INNER JOIN run_locators
                ON run_locators.project_name = run_events.project_name
                AND run_locators.trace_id = run_events.trace_id
                AND run_locators.span_id = run_events.span_id
            WHERE run_events.project_name = $1
                AND run_events.trace_id = $2
                AND run_events.span_id = $3
            ORDER BY run_events.event_time_unix_nano DESC, run_events.id DESC
            LIMIT 1";

/// The statement for the locator of a run.
pub open spec fn locator_call(run_id: Seq<char>, include_deleted: bool) -> Call {
    call(
        "load run locator"@,
        RUN_LOCATOR_SQL@ + (if include_deleted {
            Seq::empty()
        } else {
            NOT_DELETED_SQL@
        }) + LATEST_LOCATOR_SQL@,
    ).text(run_id)
}

/// The statement for the locator of a run: none for an empty id, which no run
/// has.
pub fn run_locator_statement(run_id: &str, include_deleted: bool) -> (r: Option<Statement>)
    ensures
        match r {
            Some(statement) => run_id@.len() > 0 && statement@ == locator_call(
                run_id@,
                include_deleted,
            ),
            None => run_id@.len() == 0,
        },
{
    if run_id.is_empty() {
        return None;
    }
    let mut sql = RUN_LOCATOR_SQL.to_owned();
    if include_deleted {
        let none = String::new();
        sql.append(none.as_str());
    } else {
        sql.append(NOT_DELETED_SQL);
    }
    sql.append(LATEST_LOCATOR_SQL);
    Some(Statement::new("load run locator", sql.as_str()).text(run_id))
}

/// That a row is of the run.
pub open spec fn locator_predicate(locator: RunLocator) -> Seq<char> {
    let run = if locator.stored_run_id@.len() == 0 {
        "run_id = '' AND span_id = "@ + literal(locator.span_id@)
    } else {
        "run_id = "@ + literal(locator.stored_run_id@)
    };
    let row = if locator.schema_version >= ROW_INDEXED_SPAN_SEGMENT_SCHEMA_VERSION {
        " AND row_index = "@ + int_text(locator.row_index as int)
    } else {
        Seq::empty()
    };
    run + row
}

/// The segment of the run, as one whose rows have no index.
pub open spec fn unindexed_rows(uri: Seq<char>, include_payload: bool) -> Seq<char> {
    SEGMENT_COLUMNS_SQL@ + payload_column(include_payload) + "\n        FROM "@ + object_path(uri)
        + "\n        WHERE true"@
}

pub const INDEXED_COLUMNS_SQL: &'static str = "SELECT
                    project_name,
                    run_id,
                    trace_id,
                    span_id,
                    parent_run_id,
                    parent_span_id,
                    name,
                    run_type,
                    start_time_unix_nano,
                    end_time_unix_nano,
                    status_code,
                    event_type,
                    event_time_unix_nano,
                    row_index,
                    ";

/// The rows of the segment that holds the run.
pub open spec fn locator_source(locator: RunLocator, include_payload: bool) -> Seq<char> {
    if locator.schema_version >= ROW_INDEXED_SPAN_SEGMENT_SCHEMA_VERSION {
        INDEXED_COLUMNS_SQL@ + payload_column(include_payload) + "\n                FROM "@
            + object_path(locator.segment_uri@)
    } else {
        unindexed_rows(locator.segment_uri@, include_payload)
    }
}

/// The latest version of a run in its segment.
pub open spec fn locator_sql(locator: RunLocator, include_payload: bool) -> Seq<char> {
    LATEST_RUNS_SQL@ + locator_source(locator, include_payload)
        + ") AS segment_spans\n                WHERE\n                    project_name = "@ + literal(
        locator.project_name@,
    ) + "\n                    AND trace_id = "@ + literal(locator.trace_id@)
        + "\n                    AND "@ + locator_predicate(locator)
        + "\n            ) AS versioned_runs\n        ) AS runs\n        WHERE run_version = 1\n        LIMIT 1"@
}

fn locator_predicate_sql(locator: &RunLocator) -> (r: String)
    ensures
        r@ == locator_predicate(*locator),
{
    let mut out = if locator.stored_run_id.as_str().is_empty() {
        let mut run = "run_id = '' AND span_id = ".to_owned();
        run.append(sql_string_literal(locator.span_id.as_str()).as_str());
        run
    } else {
        let mut run = "run_id = ".to_owned();
        run.append(sql_string_literal(locator.stored_run_id.as_str()).as_str());
        run
    };
    let row = if locator.schema_version >= ROW_INDEXED_SPAN_SEGMENT_SCHEMA_VERSION {
        let mut row = " AND row_index = ".to_owned();
        row.append(integer_text(locator.row_index).as_str());
        row
    } else {
        String::new()
    };
    out.append(row.as_str());
    out
}

fn locator_source_sql(locator: &RunLocator, include_payload: bool) -> (r: String)
    ensures
        r@ == locator_source(*locator, include_payload),
{
    if locator.schema_version >= ROW_INDEXED_SPAN_SEGMENT_SCHEMA_VERSION {
        let mut out = INDEXED_COLUMNS_SQL.to_owned();
        out.append(attributes_json_sql(include_payload));
        out.append("\n                FROM ");
        out.append(sql_object_store_path(locator.segment_uri.as_str()).as_str());
        out
    } else {
        let mut out = SEGMENT_COLUMNS_SQL.to_owned();
        out.append(attributes_json_sql(include_payload));
        out.append("\n        FROM ");
        out.append(sql_object_store_path(locator.segment_uri.as_str()).as_str());
        out.append("\n        WHERE true");
        out
    }
}

/// The latest version of a run in its segment.
pub fn run_locator_datafusion_sql(locator: &RunLocator, include_payload: bool) -> (r: String)
    ensures
        r@ == locator_sql(*locator, include_payload),
{
    let mut out = LATEST_RUNS_SQL.to_owned();
    out.append(locator_source_sql(locator, include_payload).as_str());
    out.append(") AS segment_spans\n                WHERE\n                    project_name = ");
    out.append(sql_string_literal(locator.project_name.as_str()).as_str());
    out.append("\n                    AND trace_id = ");
    out.append(sql_string_literal(locator.trace_id.as_str()).as_str());
    out.append("\n                    AND ");
    out.append(locator_predicate_sql(locator).as_str());
    out.append(
        "\n            ) AS versioned_runs\n        ) AS runs\n        WHERE run_version = 1\n        LIMIT 1",
    );
    out
}

/// What is said when the segment of a run cannot be read.
pub open spec fn locator_read_failure(segment_uri: Seq<char>, object_missing: bool) -> Seq<char> {
    if object_missing {
        "run locator object is missing: "@ + segment_uri
    } else {
        "read run locator segment "@ + segment_uri
    }
}

/// What is said when the segment of a run cannot be read.
pub fn locator_read_failure_text(segment_uri: &str, object_missing: bool) -> (r: String)
    ensures
        r@ == locator_read_failure(segment_uri@, object_missing),
{
    let mut out = if object_missing {
        "run locator object is missing: ".to_owned()
    } else {
        "read run locator segment ".to_owned()
    };
    out.append(segment_uri);
    out
}

/// The last of the runs, if there is one.
pub fn last_run(runs: Vec<RunSummary>) -> (r: Option<RunSummary>)
    ensures
        match r {
            Some(run) => runs@.len() > 0 && run == runs@.last(),
            None => runs@.len() == 0,
        },
{
    let mut runs = runs;
    runs.pop()
}

/// What a lookup by id gives, when no locator was found.
pub fn run_not_found(postgres_query_time: Duration) -> (r: RunLoadResult)
    ensures
        r.run is None,
        r.events@.len() == 0,
        r.diagnostics == (RunQueryDiagnostics {
            postgres_query_time,
            ..RunQueryDiagnostics::nothing()
        }),
{
    let mut diagnostics = RunQueryDiagnostics::default();
    diagnostics.postgres_query_time = postgres_query_time;
    RunLoadResult { run: None, events: Vec::new(), diagnostics }
}

/// What a lookup by id gives, when the segment of the run was scanned.
pub fn run_load_result(
    runs: Vec<RunSummary>,
    events: Vec<RunEventSummary>,
    times: QueryTimes,
) -> (r: RunLoadResult)
    ensures
        match r.run {
            Some(run) => runs@.len() > 0 && run == runs@.last(),
            None => runs@.len() == 0,
        },
        r.events@ == events@,
        r.diagnostics == (RunQueryDiagnostics {
            candidate_segments: 1,
            vortex_files_opened: 1,
            rows_returned: if runs@.len() > 0 {
                1
            } else {
                0
            },
            postgres_query_time: times.postgres,
            datafusion_planning_time: times.planning,
            datafusion_execution_time: times.execution,
            ..RunQueryDiagnostics::nothing()
        }),
{
    let mut diagnostics = RunQueryDiagnostics::default();
    diagnostics.candidate_segments = 1;
    diagnostics.vortex_files_opened = 1;
    diagnostics.rows_returned = if runs.len() > 0 {
        1
    } else {
        0
    };
    diagnostics.postgres_query_time = times.postgres;
    diagnostics.datafusion_planning_time = times.planning;
    diagnostics.datafusion_execution_time = times.execution;
    RunLoadResult { run: last_run(runs), events, diagnostics }
}

/// The statement for the segments of a trace.
pub fn trace_segments_statement(project_name: &str, trace_id: &str) -> (r: Statement)
    ensures
        r@ == call("load trace locator segment uris"@, TRACE_SEGMENTS_SQL@).text(
            project_name@,
        ).text(trace_id@),
{
    Statement::new("load trace locator segment uris", TRACE_SEGMENTS_SQL).text(project_name).text(
        trace_id,
    )
}

pub open spec fn segment_key_ids(keys: Seq<SegmentKey>) -> Seq<SegmentId> {
    keys.map_values(|key: SegmentKey| key@)
}

/// Whether the segment is the one with this id, read without a restriction to
/// some of its rows.
pub open spec fn is_whole_segment(segment: SegmentSource, id: SegmentId) -> bool {
    &&& segment.uri@ == id.uri
    &&& segment.schema_version == id.schema_version
    &&& segment.total_bytes == 0
    &&& segment.search_index_uri is None
    &&& segment.search_index_bytes == 0
    &&& segment.search_index_schema_version == 0
    &&& segment.candidate_rows@.len() == 0
}

/// The different segments of a trace, by uri and version.
pub fn trace_segment_sources(keys: &Vec<SegmentKey>) -> (r: Vec<SegmentSource>)
    ensures
        ({
            let ids = ordered_set(segment_key_ids(keys@), segment_order());
            &&& r@.len() == ids.len()
            &&& forall|i: int| 0 <= i < ids.len() ==> is_whole_segment(#[trigger] r@[i], ids[i])
        }),
{
    let ghost all = segment_key_ids(keys@);
    let mut distinct: Vec<SegmentKey> = Vec::new();
    let mut i: usize = 0;
    assert(all.take(0) =~= Seq::<SegmentId>::empty());
    assert(segment_key_ids(distinct@) =~= Seq::<SegmentId>::empty());
    while i < keys.len()
        invariant
            i <= keys.len(),
            all == segment_key_ids(keys@),
            segment_key_ids(distinct@) == ordered_set(all.take(i as int), segment_order()),
        decreases keys.len() - i,
    {
        assert(all.take(i + 1).drop_last() =~= all.take(i as int));
        assert(all.take(i + 1).last() == keys@[i as int]@);
        insert_segment(
            &mut distinct,
            SegmentKey { uri: keys[i].uri.clone(), schema_version: keys[i].schema_version },
        );
        i += 1;
    }
    assert(all.take(i as int) =~= all);
    let ghost ids = ordered_set(all, segment_order());
    let mut out: Vec<SegmentSource> = Vec::new();
    let mut k: usize = 0;
    while k < distinct.len()
        invariant
            k <= distinct.len(),
            segment_key_ids(distinct@) == ids,
            out@.len() == k,
            forall|j: int| 0 <= j < k ==> is_whole_segment(#[trigger] out@[j], ids[j]),
        decreases distinct.len() - k,
    {
        assert(segment_key_ids(distinct@)[k as int] == distinct@[k as int]@);
        out.push(
            SegmentSource {
                uri: distinct[k].uri.clone(),
                total_bytes: 0,
                schema_version: distinct[k].schema_version,
                search_index_uri: None,
                search_index_bytes: 0,
                search_index_schema_version: 0,
                candidate_rows: Vec::new(),
            },
        );
        k += 1;
    }
    assert(segment_key_ids(distinct@).len() == distinct@.len());
    out
}

/// The query for all runs of a trace.
pub open spec fn trace_query(project_name: Seq<char>, trace_id: Seq<char>) -> Query {
    Query { trace_id: Some(trace_id), ..plain_query(seq![project_name]) }
}

/// The query for all runs of a trace.
pub fn query_for_trace(project_name: &str, trace_id: &str) -> (r: RunQuery)
    ensures
        r@ == trace_query(project_name@, trace_id@),
{
    let mut query = RunQuery::new(project_name);
    query.trace_id = Some(trace_id.to_owned());
    query
}

/// The runs of a trace, when its segments have been scanned: why they are refused,
/// or those that are kept.
pub fn trace_load_result(
    query: &RunQuery,
    segments: usize,
    deleted_run_keys: &Vec<RunKey>,
    runs: Vec<RunSummary>,
    events: Vec<RunEventSummary>,
    reads: ObjectStoreReadSnapshot,
    times: QueryTimes,
) -> (r: Result<TraceLoadResult, String>)
    requires
        reads.requests() <= u64::MAX,
    ensures
        ({
            let result = listed(query@, runs@, None, keys_of(deleted_run_keys@), reads);
            match r {
                Ok(found) => {
                    &&& result == Ok::<_, Seq<char>>(found.runs@)
                    &&& found.events@ == events@
                    &&& found.diagnostics == (RunQueryDiagnostics {
                        candidate_segments: segments,
                        candidate_runs: found.runs@.len() as usize,
                        vortex_files_opened: segments,
                        rows_returned: found.runs@.len() as usize,
                        postgres_query_time: times.postgres,
                        datafusion_planning_time: times.planning,
                        datafusion_execution_time: times.execution,
                        ..RunQueryDiagnostics::nothing()
                    })
                },
                Err(message) => result == Err::<Seq<RunSummary>, _>(message@),
            }
        }),
{
    match enforce_runtime_object_store_limits(query, reads) {
        Ok(_) => {},
        Err(message) => {
            return Err(message);
        },
    }
    let page = page_datafusion_runs(runs, query);
    let kept = keep_runs(page, None, deleted_run_keys, query);
    let mut diagnostics = RunQueryDiagnostics::default();
    diagnostics.candidate_segments = segments;
    diagnostics.candidate_runs = kept.len();
    diagnostics.vortex_files_opened = segments;
    diagnostics.rows_returned = kept.len();
    diagnostics.postgres_query_time = times.postgres;
    diagnostics.datafusion_planning_time = times.planning;
    diagnostics.datafusion_execution_time = times.execution;
    Ok(TraceLoadResult { runs: kept, events, diagnostics })
}

/// The statement for the events of a run, in the order they came.
pub open spec fn run_events_call(locator: RunLocator) -> Call {
    call(
        "load run events"@,
        EVENTS_SQL@
            + "\n                AND run_events.span_id = $3\n            ORDER BY run_events.event_time_unix_nano ASC, run_events.id ASC"@,
    ).text(locator.project_name@).text(locator.trace_id@).text(locator.span_id@)
}

/// The statement for the events of a run, in the order they came.
pub fn run_events_statement(locator: &RunLocator) -> (r: Statement)
    ensures
        r@ == run_events_call(*locator),
{
    let mut sql = EVENTS_SQL.to_owned();
    sql.append(
        "\n                AND run_events.span_id = $3\n            ORDER BY run_events.event_time_unix_nano ASC, run_events.id ASC",
    );
    Statement::new("load run events", sql.as_str()).text(locator.project_name.as_str()).text(
        locator.trace_id.as_str(),
    ).text(locator.span_id.as_str())
}

/// The statement for the events of a trace, in the order they came.
pub open spec fn trace_events_call(project_name: Seq<char>, trace_id: Seq<char>) -> Call {
    call(
        "load trace events"@,
        EVENTS_SQL@
            + "\n            ORDER BY\n                run_events.event_time_unix_nano ASC,\n                run_events.id ASC"@,
    ).text(project_name).text(trace_id)
}

/// The statement for the events of a trace, in the order they came.
pub fn trace_events_statement(project_name: &str, trace_id: &str) -> (r: Statement)
    ensures
        r@ == trace_events_call(project_name@, trace_id@),
{
    let mut sql = EVENTS_SQL.to_owned();
    sql.append(
        "\n            ORDER BY\n                run_events.event_time_unix_nano ASC,\n                run_events.id ASC",
    );
    Statement::new("load trace events", sql.as_str()).text(project_name).text(trace_id)
}

/// A text, unless it is empty.
pub open spec fn nonempty(text: Seq<char>) -> Option<Seq<char>> {
    if text.len() == 0 {
        None
    } else {
        Some(text)
    }
}

/// A text, unless it is empty.
pub fn nonempty_text(text: String) -> (r: Option<String>)
    ensures
        opt_text(r) == nonempty(text@),
{
    if text.as_str().is_empty() {
        None
    } else {
        Some(text)
    }
}

/// The statement for the latest event of a run.
pub fn latest_event_statement(locator: &RunLocator) -> (r: Statement)
    ensures
        r@ == call("load latest run event"@, LATEST_EVENT_SQL@).text(locator.project_name@).text(
            locator.trace_id@,
        ).text(locator.span_id@),
{
    Statement::new("load latest run event", LATEST_EVENT_SQL).text(
        locator.project_name.as_str(),
    ).text(locator.trace_id.as_str()).text(locator.span_id.as_str())
}

/// Where the latest event of a run left it, and what that event was.
#[derive(Debug, PartialEq, Eq)]
pub struct LatestEvent {
    pub locator: RunLocator,
    pub event_type: String,
}

/// Where a replay finds the run: where its latest event left it, unless that was
/// a tombstone.
pub fn replayed_locator(latest: Option<LatestEvent>) -> (r: Option<RunLocator>)
    ensures
        match (r, latest) {
            (Some(locator), Some(event)) => event.event_type@ != RunEventKind::Tombstone.word()
                && locator == event.locator,
            (Some(_), None) => false,
            (None, Some(event)) => event.event_type@ == RunEventKind::Tombstone.word(),
            (None, None) => true,
        },
{
    match latest {
        Some(event) => if same(event.event_type.as_str(), RunEventKind::Tombstone.as_str()) {
            None
        } else {
            Some(event.locator)
        },
        None => None,
    }
}

/// A trace is loaded by asking for the runs of that trace in that project that were not deleted,
/// whole, all of them, and in the order in which they started.
pub proof fn law_trace_is_asked_for(
    project_name: Seq<char>,
    trace_id: Seq<char>,
    stored: StoredRun,
)
    ensures
        ({
            let query = trace_query(project_name, trace_id);
            &&& is_wanted(query, stored) <==> {
                &&& stored.run.project_name@ == project_name
                &&& stored.run.trace_id@ == trace_id
                &&& !stored.is_replaced && !stored.is_marked && !stored.is_on_record
            }
            &&& query.include_payload
            &&& !query.newest_first
            &&& query.limit is None && query.offset is None
            &&& query.filter is None && query.trace_filter is None && query.tree_filter is None
        }),
{
    let names = seq![project_name];
    assert(names.contains(stored.run.project_name@) <==> stored.run.project_name@
        == project_name) by {
        assert(names[0] == project_name);
    }
}

/// A run is looked up by its id, whether it has it of its own or not; and unless deleted runs are
/// wanted too, the statement is the same with a condition that leaves them out.
pub proof fn law_deleted_runs_are_not_looked_up(run_id: Seq<char>)
    ensures
        locator_call(run_id, true).params == seq![Param::Text(run_id)],
        locator_call(run_id, false).params == seq![Param::Text(run_id)],
        exists|before: Seq<char>, after: Seq<char>|
            {
                &&& locator_call(run_id, true).sql == #[trigger] (before + after)
                &&& locator_call(run_id, false).sql == before + NOT_DELETED_SQL@ + after
            },
{
    let before = RUN_LOCATOR_SQL@;
    let after = LATEST_LOCATOR_SQL@;
    assert(before + Seq::<char>::empty() + after =~= before + after);
    assert(locator_call(run_id, true).sql == before + after);
    assert(locator_call(run_id, true).params =~= seq![Param::Text(run_id)]);
    assert(locator_call(run_id, false).params =~= seq![Param::Text(run_id)]);
}

} // verus!
