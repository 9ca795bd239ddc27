//! Scans of segments: the SQL that reads them, and what is kept of the runs that
//! come back.

use crate::query::Key;
use crate::query::MAX_DATAFUSION_SEGMENTS_PER_BATCH;
use crate::query::Query;
use crate::query::RunKey;
use crate::query::RunQuery;
use crate::query::RunSummary;
use crate::query::SegmentSource;
use crate::query::all_predicates;
use crate::query::direction;
use crate::query::direction_sql;
use crate::query::has_run_key;
use crate::query::keys_of;
use crate::query::limit_clause;
use crate::query::limit_sql;
use crate::query::offset_clause;
use crate::query::offset_sql;
use crate::query::opt_keys;
use crate::query::planner::RunQueryPlan;
use crate::query::planner::end_of_page;
use crate::query::planner::page_end;
use crate::query::planner::query_predicates;
use crate::query::planner::rejection;
use crate::query::planner::run_matches_retention_filter;
use crate::query::planner::run_query_where_sql;
use crate::query::planner::within_retention;
use crate::query::run_key;
use crate::query::run_source_pushdown_where_sql;
use crate::query::segment_rows;
use crate::query::segment_source_sql;
use crate::query::source_predicate;
use crate::sorting::all_of;
use crate::sorting::first;
use crate::sorting::first_of_each;
use crate::sorting::law_first_of_parts;
use crate::sorting::law_sort_keeps_elements;
use crate::sorting::law_sort_sorts;
use crate::sorting::lemma_filter_members;
use crate::sorting::sort_by;
use crate::sorting::stable_sort;
use crate::sorting::strict_order;
use crate::text::int_text;
use crate::text::integer_text;
use crate::text::is_less;
use crate::text::join;
use crate::text::joined;
use crate::text::law_text_order_is_total;
use crate::text::law_text_order_is_transitive;
use crate::text::nat_text;
use crate::text::no_texts;
use crate::text::push_text;
use crate::text::text_less;
use crate::text::texts;
use crate::text::unsigned_text;
use crate::time::Duration;
use vstd::prelude::*;
use vstd::string::StringExecFns;

verus! {

/// The latest version of each run among the rows that follow.
pub const LATEST_RUNS_SQL: &'static str = "SELECT
            project_name, run_id, trace_id, span_id, parent_run_id, parent_span_id,
            name, run_type, status,
            start_time_unix_nano, end_time_unix_nano, is_root, attributes_json
        FROM (
            SELECT
                *,
                ROW_NUMBER() OVER (
                    PARTITION BY project_name, trace_id, span_id
                    ORDER BY event_time_unix_nano DESC, end_time_unix_nano DESC, start_time_unix_nano DESC, row_index DESC
                ) AS run_version
            FROM (
                SELECT
                    project_name,
                    NULLIF(run_id, '') AS run_id,
                    trace_id,
                    span_id,
                    parent_run_id,
                    parent_span_id,
                    name,
                    run_type,
                    CASE
                        WHEN status_code = 2 THEN 'error'
                        WHEN end_time_unix_nano = 0 THEN 'pending'
                        ELSE 'success'
                    END AS status,
                    start_time_unix_nano,
                    end_time_unix_nano,
                    event_time_unix_nano,
                    row_index,
                    parent_span_id IS NULL AS is_root,
                    attributes_json
                FROM (";

pub open spec fn segment_sources(
    segments: Seq<SegmentSource>,
    include_payload: bool,
    source: Seq<char>,
) -> Seq<Seq<char>> {
    segments.map_values(|segment: SegmentSource| segment_rows(segment, include_payload, source))
}

/// The keys that the rows of segments are restricted to: none, if each segment
/// has candidate rows of its own.
pub open spec fn pushed_keys(segments: Seq<SegmentSource>, keys: Option<Seq<Key>>) -> Option<
    Seq<Key>,
> {
    if exists|i: int| 0 <= i < segments.len() && #[trigger] segments[i].candidate_rows@.len() == 0 {
        keys
    } else {
        None
    }
}

/// The latest version of each run in the segments, as far as the query asks for
/// it.
pub open spec fn run_heads_sql(
    segments: Seq<SegmentSource>,
    query: Query,
    include_payload: bool,
    keys: Option<Seq<Key>>,
) -> Seq<char> {
    LATEST_RUNS_SQL@ + join(
        segment_sources(
            segments,
            include_payload,
            source_predicate(query, pushed_keys(segments, keys)),
        ),
        " UNION ALL "@,
    )
        + ") AS segment_spans\n            ) AS versioned_runs\n        ) AS runs\n        WHERE run_version = 1 AND "@
        + all_predicates(query_predicates(query, Seq::empty()))
        + "\n        ORDER BY start_time_unix_nano "@ + direction(query.newest_first)
        + ", span_id ASC"@ + limit_clause(query.limit) + offset_clause(query.offset)
}

fn segment_sources_sql(
    segments: &Vec<SegmentSource>,
    include_payload: bool,
    source_where_sql: &str,
) -> (r: Vec<String>)
    ensures
        texts(r@) == segment_sources(segments@, include_payload, source_where_sql@),
{
    let ghost wanted = segment_sources(segments@, include_payload, source_where_sql@);
    let mut out = no_texts();
    let mut i: usize = 0;
    while i < segments.len()
        invariant
            i <= segments.len(),
            wanted == segment_sources(segments@, include_payload, source_where_sql@),
            texts(out@) == wanted.take(i as int),
        decreases segments.len() - i,
    {
        push_text(&mut out, segment_source_sql(&segments[i], include_payload, source_where_sql));
        i += 1;
        assert(wanted.take(i as int) =~= wanted.take(i - 1).push(wanted[i - 1]));
    }
    assert(wanted.take(i as int) =~= wanted);
    out
}

/// Whether some segment has no candidate rows of its own.
pub fn some_segment_is_unrestricted(segments: &Vec<SegmentSource>) -> (r: bool)
    ensures
        r == exists|i: int|
            0 <= i < segments@.len() && #[trigger] segments@[i].candidate_rows@.len() == 0,
{
    let mut i: usize = 0;
    while i < segments.len()
        invariant
            i <= segments.len(),
            forall|j: int| 0 <= j < i ==> #[trigger] segments@[j].candidate_rows@.len() > 0,
        decreases segments.len() - i,
    {
        if segments[i].candidate_rows.len() == 0 {
            assert(segments@[i as int].candidate_rows@.len() == 0);
            return true;
        }
        i += 1;
    }
    false
}

/// The latest version of each run in the segments, as far as the query asks for
/// it.
pub fn run_head_datafusion_sql(
    segments: &Vec<SegmentSource>,
    query: &RunQuery,
    include_payload: bool,
    candidate_run_keys: Option<&Vec<RunKey>>,
) -> (r: String)
    ensures
        r@ == run_heads_sql(segments@, query@, include_payload, opt_keys(candidate_run_keys)),
{
    let source_keys = if some_segment_is_unrestricted(segments) {
        candidate_run_keys
    } else {
        None
    };
    let source_where_sql = run_source_pushdown_where_sql(query, source_keys);
    let sources = segment_sources_sql(segments, include_payload, source_where_sql.as_str());
    let mut out = LATEST_RUNS_SQL.to_owned();
    out.append(joined(&sources, " UNION ALL ").as_str());
    out.append(
        ") AS segment_spans\n            ) AS versioned_runs\n        ) AS runs\n        WHERE run_version = 1 AND ",
    );
    out.append(run_query_where_sql(query).as_str());
    out.append("\n        ORDER BY start_time_unix_nano ");
    out.append(direction_sql(query.newest_first));
    out.append(", span_id ASC");
    out.append(limit_sql(query.limit).as_str());
    out.append(offset_sql(query.offset).as_str());
    out
}

/// The query for one batch of segments: all that the page may need, from the
/// start.
pub open spec fn batch_query(query: Query) -> Query {
    Query { limit: page_end(query.limit, query.offset), offset: None, ..query }
}

/// The query for one batch of segments: all that the page may need, from the
/// start.
pub fn datafusion_batch_query(query: &RunQuery) -> (r: RunQuery)
    ensures
        r@ == batch_query(query@),
{
    let mut batch = query.copy();
    batch.limit = end_of_page(query.limit, query.offset);
    batch.offset = None;
    batch
}

/// Where the batch of segments that starts at `from` ends.
pub open spec fn batch_end(segments: int, from: int) -> int {
    if from + MAX_DATAFUSION_SEGMENTS_PER_BATCH <= segments {
        from + MAX_DATAFUSION_SEGMENTS_PER_BATCH
    } else {
        segments
    }
}

/// Where the batch of segments that starts at `from` ends.
pub fn end_of_batch(segments: usize, from: usize) -> (r: usize)
    requires
        from <= segments,
    ensures
        r == batch_end(segments as int, from as int),
{
    if segments - from >= MAX_DATAFUSION_SEGMENTS_PER_BATCH {
        from + MAX_DATAFUSION_SEGMENTS_PER_BATCH
    } else {
        segments
    }
}

/// Whether one run comes before another on a page.
pub open spec fn page_less(a: RunSummary, b: RunSummary, newest_first: bool) -> bool {
    if a.start_time_unix_nano != b.start_time_unix_nano {
        (a.start_time_unix_nano < b.start_time_unix_nano) != newest_first
    } else {
        text_less(a.span_id@, b.span_id@)
    }
}

/// The order of runs on a page: by start time, then by span.
pub open spec fn page_order(newest_first: bool) -> spec_fn(RunSummary, RunSummary) -> bool {
    |a: RunSummary, b: RunSummary| page_less(a, b, newest_first)
}

fn is_run_older(a: &RunSummary, b: &RunSummary) -> (r: bool)
    ensures
        r == page_less(*a, *b, false),
{
    if a.start_time_unix_nano != b.start_time_unix_nano {
        a.start_time_unix_nano < b.start_time_unix_nano
    } else {
        is_less(a.span_id.as_str(), b.span_id.as_str())
    }
}

fn is_run_newer(a: &RunSummary, b: &RunSummary) -> (r: bool)
    ensures
        r == page_less(*a, *b, true),
{
    if a.start_time_unix_nano != b.start_time_unix_nano {
        a.start_time_unix_nano > b.start_time_unix_nano
    } else {
        is_less(a.span_id.as_str(), b.span_id.as_str())
    }
}

/// The page of `items` behind the first `offset`, of at most `limit`.
pub open spec fn page_of<T>(items: Seq<T>, limit: Option<usize>, offset: Option<usize>) -> Seq<T> {
    let start = match offset {
        Some(n) => if n < items.len() {
            n as int
        } else {
            items.len() as int
        },
        None => 0,
    };
    let rest = items.skip(start);
    match limit {
        Some(n) => if n < rest.len() {
            rest.take(n as int)
        } else {
            rest
        },
        None => rest,
    }
}

/// The page of runs that a query asks for.
pub open spec fn page_of_runs(runs: Seq<RunSummary>, query: Query) -> Seq<RunSummary> {
    page_of(stable_sort(runs, page_order(query.newest_first)), query.limit, query.offset)
}

/// The page of runs that a query asks for.
pub fn page_datafusion_runs(runs: Vec<RunSummary>, query: &RunQuery) -> (r: Vec<RunSummary>)
    ensures
        r@ == page_of_runs(runs@, query@),
{
    let ghost less = page_order(query.newest_first);
    let sorted = if query.newest_first {
        sort_by(runs, is_run_newer, Ghost(less))
    } else {
        sort_by(runs, is_run_older, Ghost(less))
    };
    let ghost wanted = page_of_runs(runs@, query@);
    let start: usize = match query.offset {
        Some(n) => if n < sorted.len() {
            n
        } else {
            sorted.len()
        },
        None => 0,
    };
    let end: usize = match query.limit {
        Some(n) => if n < sorted.len() - start {
            start + n
        } else {
            sorted.len()
        },
        None => sorted.len(),
    };
    let mut out: Vec<RunSummary> = Vec::new();
    let mut i: usize = start;
    while i < end
        invariant
            start <= i <= end <= sorted.len(),
            out@ =~= sorted@.subrange(start as int, i as int),
        decreases end - i,
    {
        out.push(sorted[i].clone());
        i += 1;
    }
    assert(out@ =~= wanted);
    out
}

/// Whether a run that a scan gives back is kept: it is a candidate if there are
/// candidates, it is not deleted, and it is not past the retention cutoff.
pub open spec fn is_kept(
    run: RunSummary,
    candidates: Option<Seq<Key>>,
    deleted: Seq<Key>,
    query: Query,
) -> bool {
    &&& candidates is Some ==> candidates->0.contains(run_key(run))
    &&& !deleted.contains(run_key(run))
    &&& within_retention(run, query.retention_cutoff_unix_nano)
}

/// The runs that are kept, in order.
pub open spec fn kept_runs(
    runs: Seq<RunSummary>,
    candidates: Option<Seq<Key>>,
    deleted: Seq<Key>,
    query: Query,
) -> Seq<RunSummary> {
    runs.filter(|run: RunSummary| is_kept(run, candidates, deleted, query))
}

/// The runs of a scan that are kept, in order.
pub fn keep_runs(
    runs: Vec<RunSummary>,
    candidate_run_keys: Option<&Vec<RunKey>>,
    deleted_run_keys: &Vec<RunKey>,
    query: &RunQuery,
) -> (r: Vec<RunSummary>)
    ensures
        r@ == kept_runs(runs@, opt_keys(candidate_run_keys), keys_of(deleted_run_keys@), query@),
{
    let ghost candidates = opt_keys(candidate_run_keys);
    let ghost deleted = keys_of(deleted_run_keys@);
    let ghost kept = |run: RunSummary| is_kept(run, candidates, deleted, query@);
    let mut out: Vec<RunSummary> = Vec::new();
    let mut i: usize = 0;
    proof {
        reveal(Seq::filter);
    }
    assert(runs@.take(0).filter(kept) =~= Seq::<RunSummary>::empty());
    while i < runs.len()
        invariant
            i <= runs.len(),
            candidates == opt_keys(candidate_run_keys),
            deleted == keys_of(deleted_run_keys@),
            kept == (|run: RunSummary| is_kept(run, candidates, deleted, query@)),
            out@ == runs@.take(i as int).filter(kept),
        decreases runs.len() - i,
    {
        proof {
            reveal(Seq::filter);
        }
        assert(runs@.take(i + 1).drop_last() =~= runs@.take(i as int));
        let run = &runs[i];
        let is_candidate = match candidate_run_keys {
            Some(keys) => has_run_key(keys, run),
            None => true,
        };
        if is_candidate && !has_run_key(deleted_run_keys, run) && run_matches_retention_filter(
            run,
            query,
        ) {
            out.push(run.clone());
        }
        i += 1;
    }
    assert(runs@.take(i as int) =~= runs@);
    out
}

/// What was read of the object store.
#[derive(Debug, Clone, Copy, PartialEq, Eq, Structural)]
pub struct ObjectStoreReadSnapshot {
    pub get_requests: u64,
    pub get_ranges_requests: u64,
    pub head_requests: u64,
    pub list_requests: u64,
    pub bytes_read: u64,
}

/// A read of the object store.
#[derive(Debug, Clone, Copy, PartialEq, Eq, Structural)]
pub enum ObjectStoreRead {
    Get,
    GetRanges,
    Head,
    List,
    Bytes(u64),
}

impl Default for ObjectStoreReadSnapshot {
    fn default() -> (r: Self)
        ensures
            r == ObjectStoreReadSnapshot::nothing(),
    {
        ObjectStoreReadSnapshot {
            get_requests: 0,
            get_ranges_requests: 0,
            head_requests: 0,
            list_requests: 0,
            bytes_read: 0,
        }
    }
}

impl ObjectStoreReadSnapshot {
    /// Nothing was read.
    pub open spec fn nothing() -> Self {
        ObjectStoreReadSnapshot {
            get_requests: 0,
            get_ranges_requests: 0,
            head_requests: 0,
            list_requests: 0,
            bytes_read: 0,
        }
    }

    /// How many requests were made.
    pub open spec fn requests(self) -> int {
        self.get_requests + self.get_ranges_requests + self.head_requests + self.list_requests
    }

    /// What was read in all, after one more read. The counts wrap around.
    pub open spec fn after(self, read: ObjectStoreRead) -> Self {
        match read {
            ObjectStoreRead::Get => ObjectStoreReadSnapshot {
                get_requests: ((self.get_requests + 1) % 0x1_0000_0000_0000_0000) as u64,
                ..self
            },
            ObjectStoreRead::GetRanges => ObjectStoreReadSnapshot {
                get_ranges_requests: ((self.get_ranges_requests + 1)
                    % 0x1_0000_0000_0000_0000) as u64,
                ..self
            },
            ObjectStoreRead::Head => ObjectStoreReadSnapshot {
                head_requests: ((self.head_requests + 1) % 0x1_0000_0000_0000_0000) as u64,
                ..self
            },
            ObjectStoreRead::List => ObjectStoreReadSnapshot {
                list_requests: ((self.list_requests + 1) % 0x1_0000_0000_0000_0000) as u64,
                ..self
            },
            ObjectStoreRead::Bytes(amount) => ObjectStoreReadSnapshot {
                bytes_read: ((self.bytes_read + amount) % 0x1_0000_0000_0000_0000) as u64,
                ..self
            },
        }
    }

    /// Counts one more read.
    pub fn count(&mut self, read: ObjectStoreRead)
        ensures
            *final(self) == old(self).after(read),
    {
        match read {
            ObjectStoreRead::Get => {
                self.get_requests = self.get_requests.wrapping_add(1);
            },
            ObjectStoreRead::GetRanges => {
                self.get_ranges_requests = self.get_ranges_requests.wrapping_add(1);
            },
            ObjectStoreRead::Head => {
                self.head_requests = self.head_requests.wrapping_add(1);
            },
            ObjectStoreRead::List => {
                self.list_requests = self.list_requests.wrapping_add(1);
            },
            ObjectStoreRead::Bytes(amount) => {
                self.bytes_read = self.bytes_read.wrapping_add(amount);
            },
        }
    }

    /// How many requests were made.
    pub fn request_count(self) -> (r: u64)
        requires
            self.requests() <= u64::MAX,
        ensures
            r == self.requests(),
    {
        self.get_requests + self.get_ranges_requests + self.head_requests + self.list_requests
    }
}

/// Why a scan is refused after it ran: it read more than the query lets it. A
/// limit on bytes counts as an unsigned number.
pub open spec fn runtime_fault(query: Query, reads: ObjectStoreReadSnapshot) -> Option<Seq<char>> {
    let requests = query.limits.max_estimated_object_store_requests;
    let bytes = query.limits.max_candidate_bytes;
    if requests is Some && reads.requests() > requests->0 {
        Some(
            "query rejected: actual object-store requests "@ + nat_text(reads.requests() as nat)
                + " exceed limit "@ + nat_text(requests->0 as nat),
        )
    } else if bytes is Some && reads.bytes_read > bytes->0 as u64 {
        Some(
            "query rejected: actual bytes read "@ + nat_text(reads.bytes_read as nat)
                + " exceed limit "@ + int_text(bytes->0 as int),
        )
    } else {
        None
    }
}

/// Refuses a scan that read more than the query lets it.
pub fn enforce_runtime_object_store_limits(
    query: &RunQuery,
    object_store_reads: ObjectStoreReadSnapshot,
) -> (r: Result<(), String>)
    requires
        object_store_reads.requests() <= u64::MAX,
    ensures
        match r {
            Ok(_) => runtime_fault(query@, object_store_reads) is None,
            Err(message) => runtime_fault(query@, object_store_reads) == Some(message@),
        },
{
    if let Some(limit) = query.limits.max_estimated_object_store_requests {
        let actual: u64 = object_store_reads.request_count();
        if actual > limit as u64 {
            return Err(
                rejection(
                    "query rejected: actual object-store requests ",
                    unsigned_text(actual as u128).as_str(),
                    unsigned_text(limit as u128).as_str(),
                ),
            );
        }
    }
    if let Some(limit) = query.limits.max_candidate_bytes {
        if object_store_reads.bytes_read > limit as u64 {
            return Err(
                rejection(
                    "query rejected: actual bytes read ",
                    unsigned_text(object_store_reads.bytes_read as u128).as_str(),
                    integer_text(limit).as_str(),
                ),
            );
        }
    }
    Ok(())
}

/// What a query cost.
#[derive(Debug, Clone, Copy, PartialEq, Eq)]
pub struct RunQueryDiagnostics {
    pub candidate_segments: usize,
    pub candidate_runs: usize,
    pub candidate_bytes: i64,
    pub estimated_object_store_requests: usize,
    pub actual_object_store_requests: u64,
    pub actual_object_store_bytes_read: u64,
    pub vortex_files_opened: usize,
    pub rows_returned: usize,
    pub postgres_query_time: Duration,
    pub datafusion_planning_time: Duration,
    pub datafusion_execution_time: Duration,
}

impl RunQueryDiagnostics {
    /// Nothing was done.
    pub open spec fn nothing() -> Self {
        RunQueryDiagnostics {
            candidate_segments: 0,
            candidate_runs: 0,
            candidate_bytes: 0,
            estimated_object_store_requests: 0,
            actual_object_store_requests: 0,
            actual_object_store_bytes_read: 0,
            vortex_files_opened: 0,
            rows_returned: 0,
            postgres_query_time: Duration { nanos: 0 },
            datafusion_planning_time: Duration { nanos: 0 },
            datafusion_execution_time: Duration { nanos: 0 },
        }
    }
}

impl Default for RunQueryDiagnostics {
    fn default() -> (r: Self)
        ensures
            r == RunQueryDiagnostics::nothing(),
    {
        RunQueryDiagnostics {
            candidate_segments: 0,
            candidate_runs: 0,
            candidate_bytes: 0,
            estimated_object_store_requests: 0,
            actual_object_store_requests: 0,
            actual_object_store_bytes_read: 0,
            vortex_files_opened: 0,
            rows_returned: 0,
            postgres_query_time: Duration::zero(),
            datafusion_planning_time: Duration::zero(),
            datafusion_execution_time: Duration::zero(),
        }
    }
}

/// What a query cost that only asked the metadata database.
pub open spec fn metadata_diagnostics(rows: int, postgres_query_time: Duration) -> RunQueryDiagnostics {
    RunQueryDiagnostics {
        candidate_runs: rows as usize,
        rows_returned: rows as usize,
        postgres_query_time,
        ..RunQueryDiagnostics::nothing()
    }
}

/// What a query cost that only asked the metadata database.
pub fn metastore_only_diagnostics(rows_returned: usize, postgres_query_time: Duration) -> (r:
    RunQueryDiagnostics)
    ensures
        r == metadata_diagnostics(rows_returned as int, postgres_query_time),
{
    let mut diagnostics = RunQueryDiagnostics::default();
    diagnostics.candidate_runs = rows_returned;
    diagnostics.rows_returned = rows_returned;
    diagnostics.postgres_query_time = postgres_query_time;
    diagnostics
}

/// How long the parts of a query took.
#[derive(Debug, Clone, Copy, PartialEq, Eq)]
pub struct QueryTimes {
    pub postgres: Duration,
    pub planning: Duration,
    pub execution: Duration,
}

/// The runs that a query gives, and what it cost.
#[derive(Debug, PartialEq, Eq)]
pub struct RunQueryResult {
    pub runs: Vec<RunSummary>,
    pub diagnostics: RunQueryDiagnostics,
}

impl Clone for RunQueryResult {
    fn clone(&self) -> (r: Self)
        ensures
            r.runs@ == self.runs@,
            r.diagnostics == self.diagnostics,
    {
        RunQueryResult { runs: copy_runs(&self.runs), diagnostics: self.diagnostics }
    }
}

/// The same runs again.
pub fn copy_runs(runs: &Vec<RunSummary>) -> (r: Vec<RunSummary>)
    ensures
        r@ == runs@,
{
    let mut out: Vec<RunSummary> = Vec::new();
    let mut i: usize = 0;
    while i < runs.len()
        invariant
            i <= runs.len(),
            out@ =~= runs@.take(i as int),
        decreases runs.len() - i,
    {
        out.push(runs[i].clone());
        i += 1;
    }
    assert(out@ =~= runs@);
    out
}

/// What a query gives, when its scan has given `runs`: why it is refused, or the
/// runs of its page that are kept.
pub open spec fn listed(
    query: Query,
    runs: Seq<RunSummary>,
    candidates: Option<Seq<Key>>,
    deleted: Seq<Key>,
    reads: ObjectStoreReadSnapshot,
) -> Result<Seq<RunSummary>, Seq<char>> {
    match runtime_fault(query, reads) {
        Some(message) => Err(message),
        None => Ok(kept_runs(page_of_runs(runs, query), candidates, deleted, query)),
    }
}

/// What a query cost.
pub open spec fn listing_diagnostics(
    plan: RunQueryPlan,
    rows: int,
    reads: ObjectStoreReadSnapshot,
    times: QueryTimes,
) -> RunQueryDiagnostics {
    RunQueryDiagnostics {
        candidate_segments: plan.segments@.len() as usize,
        candidate_runs: plan.candidate_runs,
        candidate_bytes: plan.candidate_bytes,
        estimated_object_store_requests: plan.estimated_object_store_requests,
        actual_object_store_requests: reads.requests() as u64,
        actual_object_store_bytes_read: reads.bytes_read,
        vortex_files_opened: plan.segments@.len() as usize,
        rows_returned: rows as usize,
        postgres_query_time: times.postgres,
        datafusion_planning_time: times.planning,
        datafusion_execution_time: times.execution,
    }
}

/// What a planned query gives, when its scan has given `runs` and made `reads`.
pub fn list_runs_result(
    query: &RunQuery,
    plan: &RunQueryPlan,
    deleted_run_keys: &Vec<RunKey>,
    runs: Vec<RunSummary>,
    reads: ObjectStoreReadSnapshot,
    times: QueryTimes,
) -> (r: Result<RunQueryResult, String>)
    requires
        reads.requests() <= u64::MAX,
    ensures
        ({
            let result = listed(
                query@,
                runs@,
                Some(keys_of(plan.candidate_run_keys@)),
                keys_of(deleted_run_keys@),
                reads,
            );
            match r {
                Ok(found) => result == Ok::<_, Seq<char>>(found.runs@) && found.diagnostics
                    == listing_diagnostics(*plan, found.runs@.len() as int, reads, times),
                Err(message) => result == Err::<Seq<RunSummary>, _>(message@),
            }
        }),
{
    match enforce_runtime_object_store_limits(query, reads) {
        Ok(_) => {},
        Err(message) => {
            return Err(message);
        },
    }
    let page = page_datafusion_runs(runs, query);
    let kept = keep_runs(page, Some(&plan.candidate_run_keys), deleted_run_keys, query);
    let rows_returned = kept.len();
    Ok(
        RunQueryResult {
            runs: kept,
            diagnostics: RunQueryDiagnostics {
                candidate_segments: plan.segments.len(),
                candidate_runs: plan.candidate_runs,
                candidate_bytes: plan.candidate_bytes,
                estimated_object_store_requests: plan.estimated_object_store_requests,
                actual_object_store_requests: reads.request_count(),
                actual_object_store_bytes_read: reads.bytes_read,
                vortex_files_opened: plan.segments.len(),
                rows_returned,
                postgres_query_time: times.postgres,
                datafusion_planning_time: times.planning,
                datafusion_execution_time: times.execution,
            },
        },
    )
}

/// The order of runs on a page is a strict one.
pub proof fn law_page_order(newest_first: bool)
    ensures
        strict_order(page_order(newest_first)),
{
    let less = page_order(newest_first);
    assert forall|a: RunSummary, b: RunSummary| #[trigger] less(a, b) implies !less(b, a) by {
        law_text_order_is_total(a.span_id@, b.span_id@);
    }
    assert forall|a: RunSummary, b: RunSummary, c: RunSummary|
        !#[trigger] less(b, a) && !#[trigger] less(c, b) implies !less(c, a) by {
        if a.start_time_unix_nano == b.start_time_unix_nano && b.start_time_unix_nano
            == c.start_time_unix_nano {
            law_text_order_is_total(a.span_id@, b.span_id@);
            law_text_order_is_total(b.span_id@, c.span_id@);
            law_text_order_is_total(a.span_id@, c.span_id@);
            if text_less(c.span_id@, a.span_id@) {
                if a.span_id@ != b.span_id@ {
                    law_text_order_is_transitive(c.span_id@, a.span_id@, b.span_id@);
                }
            }
        }
    }
}

/// What each of several parts gives to the page of a query.
pub open spec fn pages_of_parts(parts: Seq<Seq<RunSummary>>, query: Query) -> Seq<Seq<RunSummary>> {
    parts.map_values(|part: Seq<RunSummary>| page_of_runs(part, batch_query(query)))
}

/// The page of a query over several parts, batches of segments or the shares of
/// workers, is the page of what each part gives to the query that reaches from
/// the start to the end of the page.
pub proof fn law_page_of_parts(parts: Seq<Seq<RunSummary>>, query: Query)
    requires
        all_of(parts).len() <= usize::MAX,
    ensures
        page_of_runs(all_of(parts), query) == page_of_runs(
            all_of(pages_of_parts(parts, query)),
            query,
        ),
{
    let less = page_order(query.newest_first);
    let end = page_end(query.limit, query.offset);
    let n = match end {
        Some(k) => k as int,
        None => usize::MAX as int,
    };
    law_page_order(query.newest_first);
    law_first_of_parts(parts, n, less);
    let pages = pages_of_parts(parts, query);
    assert(pages =~= first_of_each(parts, n, less)) by {
        assert forall|i: int| 0 <= i < parts.len() implies pages[i] == first_of_each(
            parts,
            n,
            less,
        )[i] by {
            let sorted_part = stable_sort(parts[i], less);
            lemma_part_len(parts, i);
            law_sort_keeps_elements(parts[i], less);
            assert(sorted_part.skip(0) =~= sorted_part);
        }
    }
    lemma_firsts_len(parts, n, less);
    let all = stable_sort(all_of(parts), less);
    let some = stable_sort(all_of(pages), less);
    law_sort_keeps_elements(all_of(parts), less);
    law_sort_keeps_elements(all_of(pages), less);
    lemma_page_of_first(all, query.limit, query.offset);
    lemma_page_of_first(some, query.limit, query.offset);
}

proof fn lemma_part_len<T>(parts: Seq<Seq<T>>, i: int)
    requires
        0 <= i < parts.len(),
    ensures
        parts[i].len() <= all_of(parts).len(),
    decreases parts.len(),
{
    if i < parts.len() - 1 {
        lemma_part_len(parts.drop_last(), i);
    }
}

proof fn lemma_firsts_len<T>(parts: Seq<Seq<T>>, n: int, less: spec_fn(T, T) -> bool)
    requires
        n >= 0,
    ensures
        all_of(first_of_each(parts, n, less)).len() <= all_of(parts).len(),
    decreases parts.len(),
{
    if parts.len() > 0 {
        let firsts = first_of_each(parts, n, less);
        assert(firsts.drop_last() =~= first_of_each(parts.drop_last(), n, less));
        lemma_firsts_len(parts.drop_last(), n, less);
        law_sort_keeps_elements(parts.last(), less);
    }
}

proof fn lemma_page_of_first<T>(items: Seq<T>, limit: Option<usize>, offset: Option<usize>)
    requires
        items.len() <= usize::MAX,
    ensures
        ({
            let n = match page_end(limit, offset) {
                Some(k) => k as int,
                None => usize::MAX as int,
            };
            page_of(items, limit, offset) == page_of(first(items, n), limit, offset)
        }),
{
    let n = match page_end(limit, offset) {
        Some(k) => k as int,
        None => usize::MAX as int,
    };
    if n < items.len() {
        assert(page_of(items, limit, offset) =~= page_of(items.take(n), limit, offset));
    }
}

/// A page is the part of all runs that stands behind those that are skipped and is as long as
/// the limit allows; what the limit cuts off is on the page behind it.
pub proof fn law_pages_follow_each_other(
    runs: Seq<RunSummary>,
    query: Query,
    limit: usize,
    offset: usize,
)
    requires
        limit + offset <= usize::MAX,
    ensures
        ({
            let page = page_of_runs(
                runs,
                Query { limit: Some(limit), offset: Some(offset), ..query },
            );
            let before = page_of_runs(runs, Query { limit: Some(offset), offset: None, ..query });
            let behind = page_of_runs(
                runs,
                Query { limit: None, offset: Some((limit + offset) as usize), ..query },
            );
            let all = page_of_runs(runs, Query { limit: None, offset: None, ..query });
            &&& before + page + behind == all
            &&& page.len() <= limit
            &&& before.len() <= offset
            &&& behind.len() > 0 ==> page.len() == limit && before.len() == offset
            &&& page.len() > 0 ==> before.len() == offset
            &&& all.to_multiset() == runs.to_multiset()
        }),
{
    let order = page_order(query.newest_first);
    law_sort_keeps_elements(runs, order);
    let sorted_runs = stable_sort(runs, order);
    let page = page_of_runs(runs, Query { limit: Some(limit), offset: Some(offset), ..query });
    let before = page_of_runs(runs, Query { limit: Some(offset), offset: None, ..query });
    let behind = page_of_runs(
        runs,
        Query { limit: None, offset: Some((limit + offset) as usize), ..query },
    );
    assert(sorted_runs.skip(0) =~= sorted_runs);
    assert(before + page + behind =~= sorted_runs);
}

/// The runs of a page come in the order of their start, the newest first or the oldest first,
/// as is asked; of two that started together the one with the lower id comes first.
pub proof fn law_page_is_in_order(runs: Seq<RunSummary>, query: Query)
    ensures
        ({
            let page = page_of_runs(runs, query);
            forall|i: int, j: int|
                0 <= i < j < page.len() ==> {
                    let a = #[trigger] page[i];
                    let b = #[trigger] page[j];
                    &&& query.newest_first ==> a.start_time_unix_nano >= b.start_time_unix_nano
                    &&& !query.newest_first ==> a.start_time_unix_nano <= b.start_time_unix_nano
                    &&& a.start_time_unix_nano == b.start_time_unix_nano ==> a.span_id@
                        == b.span_id@ || text_less(a.span_id@, b.span_id@)
                }
        }),
{
    let order = page_order(query.newest_first);
    law_page_order(query.newest_first);
    law_sort_sorts(runs, order);
    let all = stable_sort(runs, order);
    let page = page_of_runs(runs, query);
    let start = all.len() - page_of(all, None, query.offset).len();
    assert forall|i: int, j: int| 0 <= i < j < page.len() implies {
        let a = #[trigger] page[i];
        let b = #[trigger] page[j];
        &&& query.newest_first ==> a.start_time_unix_nano >= b.start_time_unix_nano
        &&& !query.newest_first ==> a.start_time_unix_nano <= b.start_time_unix_nano
        &&& a.start_time_unix_nano == b.start_time_unix_nano ==> a.span_id@ == b.span_id@
            || text_less(a.span_id@, b.span_id@)
    } by {
        assert(page[i] == all[start + i]);
        assert(page[j] == all[start + j]);
        assert(!order(all[start + j], all[start + i]));
        law_text_order_is_total(page[i].span_id@, page[j].span_id@);
    }
}

/// A run is kept just if it is one of the candidates, it was not deleted and it is not older
/// than what is retained. The kept runs stay in order.
pub proof fn law_kept_runs(
    runs: Seq<RunSummary>,
    candidates: Option<Seq<Key>>,
    deleted: Seq<Key>,
    query: Query,
    run: RunSummary,
)
    ensures
        kept_runs(runs, candidates, deleted, query).contains(run) <==> {
            &&& runs.contains(run)
            &&& candidates matches Some(keys) ==> keys.contains(run_key(run))
            &&& !deleted.contains(run_key(run))
            &&& query.retention_cutoff_unix_nano matches Some(time) ==> time
                <= run.start_time_unix_nano
        },
        kept_runs(runs.push(run), candidates, deleted, query) == kept_runs(
            runs,
            candidates,
            deleted,
            query,
        ) + kept_runs(seq![run], candidates, deleted, query),
{
    let keeps = |one: RunSummary| is_kept(one, candidates, deleted, query);
    let kept = kept_runs(runs, candidates, deleted, query);
    lemma_filter_members(runs, keeps, run);
    runs.lemma_filter_push(run, keeps);
    Seq::<RunSummary>::empty().lemma_filter_push(run, keeps);
    reveal(Seq::filter);
    assert(Seq::<RunSummary>::empty().push(run) =~= seq![run]);
    assert(kept_runs(runs.push(run), candidates, deleted, query) =~= kept + kept_runs(
        seq![run],
        candidates,
        deleted,
        query,
    ));
}

/// A batch is not empty while there are segments left, it holds no more than a batch can, and
/// it is full unless it is the last.
pub proof fn law_batches_are_full(segments: int, from: int)
    requires
        0 <= from < segments,
    ensures
        from < batch_end(segments, from) <= segments,
        batch_end(segments, from) - from <= MAX_DATAFUSION_SEGMENTS_PER_BATCH,
        batch_end(segments, from) < segments ==> batch_end(segments, from) - from
            == MAX_DATAFUSION_SEGMENTS_PER_BATCH,
{
}

/// A read counts once, as what it is, and the bytes that it brought are added to the bytes.
pub proof fn law_reads_are_counted(reads: ObjectStoreReadSnapshot, read: ObjectStoreRead)
    requires
        reads.requests() < u64::MAX,
        read matches ObjectStoreRead::Bytes(amount) ==> reads.bytes_read + amount <= u64::MAX,
    ensures
        ({
            let now = reads.after(read);
            match read {
                ObjectStoreRead::Bytes(amount) => now.requests() == reads.requests()
                    && now.bytes_read == reads.bytes_read + amount,
                _ => now.requests() == reads.requests() + 1 && now.bytes_read == reads.bytes_read,
            }
        }),
        read is Get <==> reads.after(read).get_requests != reads.get_requests,
        read is GetRanges <==> reads.after(read).get_ranges_requests != reads.get_ranges_requests,
        read is Head <==> reads.after(read).head_requests != reads.head_requests,
        read is List <==> reads.after(read).list_requests != reads.list_requests,
        ObjectStoreReadSnapshot::nothing().requests() == 0,
        ObjectStoreReadSnapshot::nothing().bytes_read == 0,
{
}

/// A query is stopped just if it took more requests or brought more bytes than it may.
pub proof fn law_reads_stay_in_limits(query: Query, reads: ObjectStoreReadSnapshot)
    requires
        query.limits.max_candidate_bytes matches Some(most) ==> 0 <= most,
    ensures
        runtime_fault(query, reads) is None <==> {
            &&& query.limits.max_estimated_object_store_requests matches Some(most)
                ==> reads.requests() <= most
            &&& query.limits.max_candidate_bytes matches Some(most) ==> reads.bytes_read <= most
        },
{
}

/// What is told of a listing adds up: each segment of the plan was opened, what was planned is told
/// as it was planned, and what was read as it was counted.
pub proof fn law_listing_is_told(
    plan: RunQueryPlan,
    rows: usize,
    reads: ObjectStoreReadSnapshot,
    times: QueryTimes,
)
    requires
        reads.requests() <= u64::MAX,
    ensures
        ({
            let told = listing_diagnostics(plan, rows as int, reads, times);
            &&& told.candidate_segments == plan.segments@.len()
            &&& told.vortex_files_opened == told.candidate_segments
            &&& told.candidate_runs == plan.candidate_runs
            &&& told.candidate_bytes == plan.candidate_bytes
            &&& told.estimated_object_store_requests == plan.estimated_object_store_requests
            &&& told.actual_object_store_requests == reads.get_requests + reads.get_ranges_requests
                + reads.head_requests + reads.list_requests
            &&& told.actual_object_store_bytes_read == reads.bytes_read
            &&& told.rows_returned == rows
            &&& (told.postgres_query_time, told.datafusion_planning_time) == (
                times.postgres,
                times.planning,
            )
            &&& told.datafusion_execution_time == times.execution
        }),
        ({
            let told = metadata_diagnostics(rows as int, times.postgres);
            &&& told.rows_returned == rows && told.candidate_runs == rows
            &&& told.postgres_query_time == times.postgres
            &&& told.candidate_segments == 0 && told.vortex_files_opened == 0
        }),
{
    assert(plan.segments.len() == plan.segments@.len());
}

} // verus!
