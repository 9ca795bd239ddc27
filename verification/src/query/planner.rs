//! The plan of a query: which runs and segments may answer it, and what that may
//! cost.

use crate::query::Key;
use crate::query::Query;
use crate::query::RunKey;
use crate::query::RunQuery;
use crate::query::RunQueryLimits;
use crate::query::RunSummary;
use crate::query::SegmentCandidateRow;
use crate::query::SegmentSource;
use crate::query::all_predicates;
use crate::query::all_predicates_sql;
use crate::query::direction;
use crate::query::direction_sql;
use crate::query::filter::compile::predicate_of;
use crate::query::filter::fault_text;
use crate::query::filter::phase6::prefilter_of;
use crate::query::insert_key;
use crate::query::key_order;
use crate::query::keys_of;
use crate::query::law_key_order;
use crate::query::number_is;
use crate::query::number_is_sql;
use crate::query::text_in;
use crate::query::text_in_sql;
use crate::query::text_is;
use crate::query::text_is_sql;
use crate::sorting::insert_distinct;
use crate::sorting::law_ordered_set_holds_its_elements;
use crate::sorting::lemma_ordered_insert_map;
use crate::sorting::ordered_insert;
use crate::sorting::ordered_set;
use crate::sorting::total_order;
use crate::statement::Statement;
use crate::statement::call;
use crate::text::copy_option;
use crate::text::int_text;
use crate::text::integer_text;
use crate::text::is_less;
use crate::text::join;
use crate::text::joined;
use crate::text::law_text_order_is_total;
use crate::text::law_text_order_is_transitive;
use crate::text::nat_text;
use crate::text::no_texts;
use crate::text::opt_text;
use crate::text::push_some;
use crate::text::push_text;
use crate::text::same;
use crate::text::text_less;
use crate::text::texts;
use crate::text::unsigned_text;
use crate::text::with;
use vstd::prelude::*;
use vstd::string::StringExecFns;

verus! {

/// How many requests the read of one segment is taken to need.
pub const OBJECT_STORE_REQUESTS_PER_SEGMENT: usize = 48;

/// How many requests the read of segments is taken to need.
pub open spec fn estimated_requests(segments: int) -> int {
    if segments * 48 > usize::MAX {
        usize::MAX as int
    } else {
        segments * 48
    }
}

/// How many requests the read of segments is taken to need.
pub fn estimate_vortex_object_store_requests(segments: usize) -> (r: usize)
    ensures
        r == estimated_requests(segments as int),
{
    match segments.checked_mul(OBJECT_STORE_REQUESTS_PER_SEGMENT) {
        Some(n) => n,
        None => usize::MAX,
    }
}

/// A column, of a table if one is named.
pub open spec fn qualified(alias: Seq<char>, name: Seq<char>) -> Seq<char> {
    if alias.len() == 0 {
        name
    } else {
        alias + "."@ + name
    }
}

fn qualified_sql(alias: &str, name: &str) -> (r: String)
    ensures
        r@ == qualified(alias@, name@),
{
    if alias.is_empty() {
        name.to_owned()
    } else {
        let mut out = alias.to_owned();
        out.append(".");
        out.append(name);
        out
    }
}

/// That the column is true, or false, if one of them is asked for.
pub open spec fn flag_is(column: Seq<char>, value: Option<bool>) -> Option<Seq<char>> {
    match value {
        Some(b) => Some(
            column + " = "@ + (if b {
                "true"@
            } else {
                "false"@
            }),
        ),
        None => None,
    }
}

/// That the run is an error, or none, if one of them is asked for.
pub open spec fn error_is(column: Seq<char>, value: Option<bool>) -> Option<Seq<char>> {
    match value {
        Some(error) => Some(
            if error {
                column + " = 'error'"@
            } else {
                column + " <> 'error'"@
            },
        ),
        None => None,
    }
}

fn flag_is_sql(column: &str, value: Option<bool>) -> (r: Option<String>)
    ensures
        opt_text(r) == flag_is(column@, value),
{
    match value {
        Some(b) => {
            let mut out = column.to_owned();
            out.append(" = ");
            out.append(
                if b {
                    "true"
                } else {
                    "false"
                },
            );
            Some(out)
        },
        None => None,
    }
}

fn error_is_sql(column: &str, value: Option<bool>) -> (r: Option<String>)
    ensures
        opt_text(r) == error_is(column@, value),
{
    match value {
        Some(error) => {
            let mut out = column.to_owned();
            out.append(
                if error {
                    " = 'error'"
                } else {
                    " <> 'error'"
                },
            );
            Some(out)
        },
        None => None,
    }
}

/// The predicates over runs that a query comes to.
pub open spec fn query_predicates(query: Query, alias: Seq<char>) -> Seq<Seq<char>> {
    let start = qualified(alias, "start_time_unix_nano"@);
    let p0 = Seq::<Seq<char>>::empty();
    let p1 = with(p0, text_in(qualified(alias, "project_name"@), query.project_names));
    let p2 = with(p1, text_is(qualified(alias, "trace_id"@), query.trace_id));
    let p3 = with(p2, text_is(qualified(alias, "parent_run_id"@), query.parent_run_id));
    let p4 = with(p3, text_is(qualified(alias, "parent_span_id"@), query.parent_span_id));
    let p5 = with(p4, text_is(qualified(alias, "run_type"@), query.run_type));
    let p6 = with(p5, flag_is(qualified(alias, "is_root"@), query.is_root));
    let p7 = with(p6, error_is(qualified(alias, "status"@), query.error));
    let p8 = with(p7, number_is(start, " >= "@, query.start_time_min_unix_nano));
    with(p8, number_is(start, " <= "@, query.start_time_max_unix_nano))
}

/// The predicates over runs that a query comes to.
pub fn run_query_predicates(query: &RunQuery, table_alias: &str) -> (r: Vec<String>)
    ensures
        texts(r@) == query_predicates(query@, table_alias@),
{
    let start = qualified_sql(table_alias, "start_time_unix_nano");
    let mut predicates = no_texts();
    push_some(
        &mut predicates,
        text_in_sql(qualified_sql(table_alias, "project_name").as_str(), &query.project_names),
    );
    push_some(
        &mut predicates,
        text_is_sql(qualified_sql(table_alias, "trace_id").as_str(), &query.trace_id),
    );
    push_some(
        &mut predicates,
        text_is_sql(qualified_sql(table_alias, "parent_run_id").as_str(), &query.parent_run_id),
    );
    push_some(
        &mut predicates,
        text_is_sql(qualified_sql(table_alias, "parent_span_id").as_str(), &query.parent_span_id),
    );
    push_some(
        &mut predicates,
        text_is_sql(qualified_sql(table_alias, "run_type").as_str(), &query.run_type),
    );
    push_some(
        &mut predicates,
        flag_is_sql(qualified_sql(table_alias, "is_root").as_str(), query.is_root),
    );
    push_some(
        &mut predicates,
        error_is_sql(qualified_sql(table_alias, "status").as_str(), query.error),
    );
    push_some(
        &mut predicates,
        number_is_sql(start.as_str(), " >= ", query.start_time_min_unix_nano),
    );
    push_some(
        &mut predicates,
        number_is_sql(start.as_str(), " <= ", query.start_time_max_unix_nano),
    );
    predicates
}

/// The predicate over runs that a query comes to.
pub fn run_query_where_sql(query: &RunQuery) -> (r: String)
    ensures
        r@ == all_predicates(query_predicates(query@, Seq::empty())),
{
    let none = String::new();
    let predicates = run_query_predicates(query, none.as_str());
    all_predicates_sql(&predicates)
}

pub const ROOT_EXISTS_SQL: &'static str = "EXISTS (
                SELECT 1 FROM run_heads root_filter
                WHERE root_filter.project_name = run_heads.project_name
                    AND root_filter.trace_id = run_heads.trace_id
                    AND root_filter.is_root = true
                    AND ";

/// That the root of a run's trace meets a predicate.
pub open spec fn root_exists(predicate: Seq<char>) -> Seq<char> {
    ROOT_EXISTS_SQL@
        + predicate + "\n            )"@
}

/// The predicates over run heads before the filters of a query.
pub open spec fn head_predicates(query: Query) -> Seq<Seq<char>> {
    let p0 = query_predicates(query, "run_heads"@).push("trace_segments.compacted_at IS NULL"@);
    let p1 = if query.include_deleted {
        p0
    } else {
        p0.push("run_heads.deleted_at_unix_nano IS NULL"@).push("run_deletions.span_id IS NULL"@)
    };
    with(
        p1,
        number_is("run_heads.start_time_unix_nano"@, " >= "@, query.retention_cutoff_unix_nano),
    )
}

/// The predicate over run heads that a query comes to, as far as they answer it;
/// or what its filters are refused for.
pub open spec fn head_where(query: Query) -> Result<Seq<char>, Seq<char>> {
    let p0 = head_predicates(query);
    let filtered = match query.filter {
        Some(filter) => match prefilter_of(filter, "run_heads"@, query.project_names) {
            Ok(predicate) => Ok(with(p0, predicate)),
            Err(fault) => Err(fault_text(fault)),
        },
        None => Ok(p0),
    };
    match filtered {
        Ok(p1) => match query.trace_filter {
            Some(filter) => match predicate_of(filter, "root_filter"@, None) {
                Ok(predicate) => Ok(join(p1.push(root_exists(predicate)), " AND "@)),
                Err(fault) => Err(fault_text(fault)),
            },
            None => Ok(join(p1, " AND "@)),
        },
        Err(message) => Err(message),
    }
}

/// The predicate over run heads that a query comes to, as far as they answer it.
pub fn run_head_where_sql(query: &RunQuery) -> (r: Result<String, String>)
    ensures
        match r {
            Ok(sql) => head_where(query@) == Ok::<_, Seq<char>>(sql@),
            Err(message) => head_where(query@) == Err::<Seq<char>, _>(message@),
        },
{
    let mut predicates = run_query_predicates(query, "run_heads");
    push_text(&mut predicates, "trace_segments.compacted_at IS NULL".to_owned());
    if !query.include_deleted {
        push_text(&mut predicates, "run_heads.deleted_at_unix_nano IS NULL".to_owned());
        push_text(&mut predicates, "run_deletions.span_id IS NULL".to_owned());
    }
    push_some(
        &mut predicates,
        number_is_sql(
            "run_heads.start_time_unix_nano",
            " >= ",
            query.retention_cutoff_unix_nano,
        ),
    );
    if let Some(filter) = &query.filter {
        match filter.compile_run_head_prefilter_for_projects("run_heads", &query.project_names) {
            Ok(Some(compiled)) => {
                push_text(&mut predicates, compiled.predicate_sql);
            },
            Ok(None) => {},
            Err(error) => {
                return Err(error.to_text());
            },
        }
    }
    if let Some(filter) = &query.trace_filter {
        match filter.compile_run_head_filter("root_filter") {
            Ok(compiled) => {
                let mut exists =
                    ROOT_EXISTS_SQL.to_owned();
                exists.append(compiled.predicate_sql.as_str());
                exists.append("\n            )");
                push_text(&mut predicates, exists);
            },
            Err(error) => {
                return Err(error.to_text());
            },
        }
    }
    Ok(joined(&predicates, " AND "))
}

pub const DELETIONS_JOIN_SQL: &'static str = "
            LEFT JOIN run_deletions
                ON run_deletions.project_name = run_heads.project_name
                AND run_deletions.trace_id = run_heads.trace_id
                AND run_deletions.span_id = run_heads.span_id";

/// The joins that the predicates over run heads need.
pub open spec fn head_joins(include_deleted: bool) -> Seq<char> {
    if include_deleted {
        Seq::empty()
    } else {
        DELETIONS_JOIN_SQL@
    }
}

/// The joins that the predicates over run heads need.
pub fn run_head_join_sql(query: &RunQuery) -> (r: String)
    ensures
        r@ == head_joins(query@.include_deleted),
{
    if query.include_deleted {
        String::new()
    } else {
        DELETIONS_JOIN_SQL.to_owned()
    }
}

/// The sum of two sizes, within the range of a size.
pub open spec fn size_sum(a: usize, b: usize) -> usize {
    if a + b > usize::MAX {
        usize::MAX
    } else {
        (a + b) as usize
    }
}

/// A page and what stands before it: how many there are up to its end, if there
/// is an end.
pub open spec fn page_end(limit: Option<usize>, offset: Option<usize>) -> Option<usize> {
    match limit {
        Some(n) => Some(
            size_sum(
                n,
                match offset {
                    Some(skipped) => skipped,
                    None => 0,
                },
            ),
        ),
        None => None,
    }
}

/// A page and what stands before it.
pub fn end_of_page(limit: Option<usize>, offset: Option<usize>) -> (r: Option<usize>)
    ensures
        r == page_end(limit, offset),
{
    match limit {
        Some(n) => {
            let skipped: usize = match offset {
                Some(skipped) => skipped,
                None => 0,
            };
            Some(n.saturating_add(skipped))
        },
        None => None,
    }
}

/// The limit on candidates: none for an empty page.
pub open spec fn candidate_limit(end: Option<usize>) -> Seq<char> {
    match end {
        Some(n) => if n > 0 {
            " LIMIT "@ + nat_text(n as nat)
        } else {
            Seq::empty()
        },
        None => Seq::empty(),
    }
}

fn candidate_limit_sql(end: Option<usize>) -> (r: String)
    ensures
        r@ == candidate_limit(end),
{
    match end {
        Some(n) => if n > 0 {
            let mut out = " LIMIT ".to_owned();
            out.append(unsigned_text(n as u128).as_str());
            out
        } else {
            String::new()
        },
        None => String::new(),
    }
}

pub const CANDIDATE_RUNS_SQL: &'static str = "SELECT
            candidate.uri,
            candidate.schema_version,
            candidate.total_bytes,
            candidate.search_index_uri,
            candidate.search_index_bytes,
            candidate.search_index_schema_version,
            candidate.project_name,
            candidate.trace_id,
            candidate.span_id,
            candidate.last_row_index
        FROM (
            SELECT
                trace_segments.uri,
                trace_segments.schema_version,
                trace_segments.total_bytes,
                trace_segments.search_index_uri,
                trace_segments.search_index_bytes,
                trace_segments.search_index_schema_version,
                run_heads.project_name,
                run_heads.trace_id,
                run_heads.span_id,
                run_heads.start_time_unix_nano,
                run_heads.last_row_index
            FROM run_heads
            INNER JOIN trace_segments
                ON trace_segments.id = run_heads.last_trace_segment_id
            ";

/// The candidates of a query, each with the segment that holds it.
pub open spec fn candidate_runs_sql(query: Query, where_sql: Seq<char>) -> Seq<char> {
    CANDIDATE_RUNS_SQL@
        + head_joins(query.include_deleted) + "\n            WHERE "@ + where_sql
        + "\n            ORDER BY\n                run_heads.start_time_unix_nano "@ + direction(
        query.newest_first,
    ) + ",\n                run_heads.span_id ASC,\n                run_heads.last_row_index ASC"@
        + candidate_limit(page_end(query.limit, query.offset))
        + "\n        ) AS candidate\n        ORDER BY\n            candidate.start_time_unix_nano "@
        + direction(query.newest_first)
        + ",\n            candidate.span_id ASC,\n            candidate.last_row_index ASC"@
}

/// The candidates of a query, each with the segment that holds it.
pub fn run_candidate_runs_sql(query: &RunQuery) -> (r: Result<String, String>)
    ensures
        match r {
            Ok(sql) => head_where(query@) is Ok && sql@ == candidate_runs_sql(
                query@,
                head_where(query@)->Ok_0,
            ),
            Err(message) => head_where(query@) == Err::<Seq<char>, _>(message@),
        },
{
    let where_sql = match run_head_where_sql(query) {
        Ok(sql) => sql,
        Err(message) => {
            return Err(message);
        },
    };
    let mut out =
        CANDIDATE_RUNS_SQL.to_owned();
    out.append(run_head_join_sql(query).as_str());
    out.append("\n            WHERE ");
    out.append(where_sql.as_str());
    out.append("\n            ORDER BY\n                run_heads.start_time_unix_nano ");
    out.append(direction_sql(query.newest_first));
    out.append(",\n                run_heads.span_id ASC,\n                run_heads.last_row_index ASC");
    out.append(candidate_limit_sql(end_of_page(query.limit, query.offset)).as_str());
    out.append("\n        ) AS candidate\n        ORDER BY\n            candidate.start_time_unix_nano ");
    out.append(direction_sql(query.newest_first));
    out.append(",\n            candidate.span_id ASC,\n            candidate.last_row_index ASC");
    Ok(out)
}

/// The deleted runs of the projects of a query, of its trace if it has one.
pub open spec fn deleted_keys(query: Query) -> Seq<char> {
    let p0 = seq!["project_name IN ("@ + crate::sql::literal_list(query.project_names) + ")"@];
    "SELECT project_name, trace_id, span_id\n                FROM run_deletions\n                WHERE "@
        + join(with(p0, text_is("trace_id"@, query.trace_id)), " AND "@)
}

/// The deleted runs of the projects of a query, of its trace if it has one.
pub fn deleted_run_keys_sql(query: &RunQuery) -> (r: String)
    ensures
        r@ == deleted_keys(query@),
{
    let mut projects = "project_name IN (".to_owned();
    projects.append(crate::sql::sql_string_list(&query.project_names).as_str());
    projects.append(")");
    let mut predicates = crate::text::one_text(projects);
    push_some(&mut predicates, text_is_sql("trace_id", &query.trace_id));
    let mut out =
        "SELECT project_name, trace_id, span_id\n                FROM run_deletions\n                WHERE ".to_owned();
    out.append(joined(&predicates, " AND ").as_str());
    out
}

/// Whether the retention cutoff of a query, if it has one, lets a run pass.
pub open spec fn within_retention(run: RunSummary, cutoff: Option<i64>) -> bool {
    match cutoff {
        Some(time) => run.start_time_unix_nano >= time,
        None => true,
    }
}

/// Whether the retention cutoff of a query, if it has one, lets a run pass.
pub fn run_matches_retention_filter(run: &RunSummary, query: &RunQuery) -> (r: bool)
    ensures
        r == within_retention(*run, query@.retention_cutoff_unix_nano),
{
    match query.retention_cutoff_unix_nano {
        Some(cutoff) => run.start_time_unix_nano >= cutoff,
        None => true,
    }
}

/// Why a plan is refused: the first of its limits that it exceeds.
pub open spec fn limits_fault(
    limits: RunQueryLimits,
    segments: int,
    requests: int,
    bytes: int,
) -> Option<Seq<char>> {
    if limits.max_candidate_segments is Some && segments > limits.max_candidate_segments->0 {
        Some(
            "query rejected: candidate segments "@ + nat_text(segments as nat)
                + " exceed limit "@ + nat_text(limits.max_candidate_segments->0 as nat),
        )
    } else if limits.max_estimated_object_store_requests is Some && requests
        > limits.max_estimated_object_store_requests->0 {
        Some(
            "query rejected: estimated object-store requests "@ + nat_text(requests as nat)
                + " exceed limit "@ + nat_text(
                limits.max_estimated_object_store_requests->0 as nat,
            ),
        )
    } else if limits.max_candidate_bytes is Some && bytes > limits.max_candidate_bytes->0 {
        Some(
            "query rejected: candidate bytes "@ + int_text(bytes) + " exceed limit "@ + int_text(
                limits.max_candidate_bytes->0 as int,
            ),
        )
    } else {
        None
    }
}

/// What is said of an exceeded limit.
pub fn rejection(what: &str, actual: &str, limit: &str) -> (r: String)
    ensures
        r@ == what@ + actual@ + " exceed limit "@ + limit@,
{
    let mut out = what.to_owned();
    out.append(actual);
    out.append(" exceed limit ");
    out.append(limit);
    out
}

/// Refuses a plan that exceeds one of its limits.
pub fn enforce_limits(
    limits: &RunQueryLimits,
    candidate_segments: usize,
    estimated_object_store_requests: usize,
    candidate_bytes: i64,
) -> (r: Result<(), String>)
    ensures
        match r {
            Ok(_) => limits_fault(
                *limits,
                candidate_segments as int,
                estimated_object_store_requests as int,
                candidate_bytes as int,
            ) is None,
            Err(message) => limits_fault(
                *limits,
                candidate_segments as int,
                estimated_object_store_requests as int,
                candidate_bytes as int,
            ) == Some(message@),
        },
{
    if let Some(limit) = limits.max_candidate_segments {
        if candidate_segments > limit {
            return Err(
                rejection(
                    "query rejected: candidate segments ",
                    unsigned_text(candidate_segments as u128).as_str(),
                    unsigned_text(limit as u128).as_str(),
                ),
            );
        }
    }
    if let Some(limit) = limits.max_estimated_object_store_requests {
        if estimated_object_store_requests > limit {
            return Err(
                rejection(
                    "query rejected: estimated object-store requests ",
                    unsigned_text(estimated_object_store_requests as u128).as_str(),
                    unsigned_text(limit as u128).as_str(),
                ),
            );
        }
    }
    if let Some(limit) = limits.max_candidate_bytes {
        if candidate_bytes > limit {
            return Err(
                rejection(
                    "query rejected: candidate bytes ",
                    integer_text(candidate_bytes).as_str(),
                    integer_text(limit).as_str(),
                ),
            );
        }
    }
    Ok(())
}

/// A run that may be asked for, with the segment that holds it.
#[derive(Debug, PartialEq, Eq)]
pub struct RunCandidate {
    pub uri: String,
    pub schema_version: i64,
    pub total_bytes: i64,
    pub search_index_uri: Option<String>,
    pub search_index_bytes: i64,
    pub search_index_schema_version: i64,
    pub project_name: String,
    pub trace_id: String,
    pub span_id: String,
    pub row_index: i64,
}

/// What tells a segment from every other.
#[derive(Debug, PartialEq, Eq)]
pub struct SegmentKey {
    pub uri: String,
    pub schema_version: i64,
}

/// What a [`SegmentKey`] holds.
pub struct SegmentId {
    pub uri: Seq<char>,
    pub schema_version: i64,
}

impl View for SegmentKey {
    type V = SegmentId;

    open spec fn view(&self) -> SegmentId {
        SegmentId { uri: self.uri@, schema_version: self.schema_version }
    }
}

pub open spec fn segment_id(candidate: RunCandidate) -> SegmentId {
    SegmentId { uri: candidate.uri@, schema_version: candidate.schema_version }
}

pub open spec fn segment_ids(candidates: Seq<RunCandidate>) -> Seq<SegmentId> {
    candidates.map_values(|candidate: RunCandidate| segment_id(candidate))
}

pub open spec fn segment_less(a: SegmentId, b: SegmentId) -> bool {
    if a.uri != b.uri {
        text_less(a.uri, b.uri)
    } else {
        a.schema_version < b.schema_version
    }
}

/// The order of segments: by uri, then by schema version.
pub open spec fn segment_order() -> spec_fn(SegmentId, SegmentId) -> bool {
    |a: SegmentId, b: SegmentId| segment_less(a, b)
}

/// The order of segments is an order of all different segments.
pub proof fn law_segment_order()
    ensures
        total_order(segment_order()),
{
    let less = segment_order();
    assert forall|a: SegmentId, b: SegmentId| #[trigger] less(a, b) implies !less(b, a) by {
        law_text_order_is_total(a.uri, b.uri);
    }
    assert forall|a: SegmentId, b: SegmentId| !#[trigger] less(a, b) && !less(b, a) implies a
        == b by {
        law_text_order_is_total(a.uri, b.uri);
    }
    assert forall|a: SegmentId, b: SegmentId, c: SegmentId| #[trigger] less(a, b) && #[trigger] less(
        b,
        c,
    ) implies less(a, c) by {
        law_text_order_is_total(a.uri, b.uri);
        if a.uri != b.uri && b.uri != c.uri {
            law_text_order_is_transitive(a.uri, b.uri, c.uri);
            law_text_order_is_total(a.uri, c.uri);
        }
    }
}

fn is_segment_less(a: &SegmentKey, b: &SegmentKey) -> (r: bool)
    ensures
        r == segment_less(a@, b@),
{
    if same(a.uri.as_str(), b.uri.as_str()) {
        a.schema_version < b.schema_version
    } else {
        is_less(a.uri.as_str(), b.uri.as_str())
    }
}

pub open spec fn row_of(candidate: RunCandidate) -> SegmentCandidateRow {
    SegmentCandidateRow {
        project_name: candidate.project_name,
        trace_id: candidate.trace_id,
        span_id: candidate.span_id,
        row_index: candidate.row_index,
    }
}

pub open spec fn candidate_key(candidate: RunCandidate) -> Key {
    Key {
        project_name: candidate.project_name@,
        trace_id: candidate.trace_id@,
        span_id: candidate.span_id@,
    }
}

pub open spec fn candidate_keys(candidates: Seq<RunCandidate>) -> Seq<Key> {
    candidates.map_values(|candidate: RunCandidate| candidate_key(candidate))
}

/// The candidates that the segment holds, in order.
pub open spec fn held_by(candidates: Seq<RunCandidate>, id: SegmentId) -> Seq<RunCandidate>
    decreases candidates.len(),
{
    if candidates.len() == 0 {
        candidates
    } else {
        let rest = held_by(candidates.drop_last(), id);
        if segment_id(candidates.last()) == id {
            rest.push(candidates.last())
        } else {
            rest
        }
    }
}

pub open spec fn rows_of(candidates: Seq<RunCandidate>) -> Seq<SegmentCandidateRow> {
    candidates.map_values(|candidate: RunCandidate| row_of(candidate))
}

/// Whether `segment` is the one with this id, as the first of the candidates that
/// it holds says, and with all of them as its candidate rows.
pub open spec fn is_segment_of(
    segment: SegmentSource,
    candidates: Seq<RunCandidate>,
    id: SegmentId,
) -> bool {
    let held = held_by(candidates, id);
    &&& held.len() > 0
    &&& segment.uri@ == id.uri
    &&& segment.schema_version == id.schema_version
    &&& segment.total_bytes == held[0].total_bytes
    &&& segment.search_index_uri == held[0].search_index_uri
    &&& segment.search_index_bytes == held[0].search_index_bytes
    &&& segment.search_index_schema_version == held[0].search_index_schema_version
    &&& segment.candidate_rows@ == rows_of(held)
}

/// The sizes of segments, as the first candidates that they hold say.
pub open spec fn sizes_of(candidates: Seq<RunCandidate>, ids: Seq<SegmentId>) -> Seq<i64> {
    ids.map_values(|id: SegmentId| held_by(candidates, id)[0].total_bytes)
}

pub open spec fn sum_of(sizes: Seq<i64>) -> int
    decreases sizes.len(),
{
    if sizes.len() == 0 {
        0
    } else {
        sum_of(sizes.drop_last()) + sizes.last()
    }
}

/// The segments of candidates, in order.
pub open spec fn planned_ids(candidates: Seq<RunCandidate>) -> Seq<SegmentId> {
    ordered_set(segment_ids(candidates), segment_order())
}

/// Whether each sum of the sizes of the first segments is in the range of an `i64`.
pub open spec fn bytes_fit(sizes: Seq<i64>) -> bool {
    forall|n: int|
        0 <= n <= sizes.len() ==> i64::MIN <= sum_of(#[trigger] sizes.take(n)) <= i64::MAX
}

/// The plan of a query.
#[derive(Debug, PartialEq, Eq)]
pub struct RunQueryPlan {
    pub segments: Vec<SegmentSource>,
    pub candidate_run_keys: Vec<RunKey>,
    pub candidate_runs: usize,
    pub candidate_bytes: i64,
    pub estimated_object_store_requests: usize,
}

/// Puts `key` among `keys`, which are in order, if it is not one of them.
pub fn insert_segment(keys: &mut Vec<SegmentKey>, key: SegmentKey)
    ensures
        final(keys)@.map_values(|k: SegmentKey| k@) == ordered_insert(
            old(keys)@.map_values(|k: SegmentKey| k@),
            key@,
            segment_order(),
        ),
{
    let ghost less = |a: SegmentKey, b: SegmentKey| segment_less(a@, b@);
    let ghost held = |k: SegmentKey| k@;
    proof {
        assert forall|a: SegmentKey, b: SegmentKey| #[trigger] less(a, b) == segment_order()(
            held(a),
            held(b),
        ) by {}
        lemma_ordered_insert_map(keys@, key, held, less, segment_order());
    }
    insert_distinct(keys, key, is_segment_less, Ghost(less));
}

fn distinct_segments(candidates: &Vec<RunCandidate>) -> (r: Vec<SegmentKey>)
    ensures
        r@.map_values(|key: SegmentKey| key@) == planned_ids(candidates@),
{
    let ghost all = segment_ids(candidates@);
    let ghost held = |k: SegmentKey| k@;
    let mut out: Vec<SegmentKey> = Vec::new();
    let mut i: usize = 0;
    assert(all.take(0) =~= Seq::<SegmentId>::empty());
    assert(out@.map_values(held) =~= Seq::<SegmentId>::empty());
    while i < candidates.len()
        invariant
            i <= candidates.len(),
            all == segment_ids(candidates@),
            held == (|k: SegmentKey| k@),
            out@.map_values(held) == ordered_set(all.take(i as int), segment_order()),
        decreases candidates.len() - i,
    {
        let ghost now = all.take(i + 1);
        assert(now.drop_last() =~= all.take(i as int));
        assert(now.last() == segment_id(candidates@[i as int]));
        insert_segment(
            &mut out,
            SegmentKey {
                uri: candidates[i].uri.clone(),
                schema_version: candidates[i].schema_version,
            },
        );
        i += 1;
    }
    assert(all.take(i as int) =~= all);
    out
}

fn segment_of(candidates: &Vec<RunCandidate>, key: &SegmentKey) -> (r: SegmentSource)
    requires
        segment_ids(candidates@).contains(key@),
    ensures
        is_segment_of(r, candidates@, key@),
{
    let mut rows: Vec<SegmentCandidateRow> = Vec::new();
    let mut first: Option<usize> = None;
    let mut i: usize = 0;
    assert(candidates@.take(0) =~= Seq::<RunCandidate>::empty());
    assert(rows@ =~= rows_of(Seq::<RunCandidate>::empty()));
    while i < candidates.len()
        invariant
            i <= candidates.len(),
            rows@ == rows_of(held_by(candidates@.take(i as int), key@)),
            match first {
                Some(f) => f < candidates.len() && held_by(candidates@.take(i as int), key@).len()
                    > 0 && held_by(candidates@.take(i as int), key@)[0] == candidates@[f as int],
                None => held_by(candidates@.take(i as int), key@).len() == 0,
            },
        decreases candidates.len() - i,
    {
        let ghost now = candidates@.take(i + 1);
        assert(now.drop_last() =~= candidates@.take(i as int));
        let ghost held = held_by(candidates@.take(i as int), key@);
        let candidate = &candidates[i];
        if candidate.schema_version == key.schema_version && same(
            candidate.uri.as_str(),
            key.uri.as_str(),
        ) {
            if first.is_none() {
                first = Some(i);
            }
            rows.push(
                SegmentCandidateRow {
                    project_name: candidate.project_name.clone(),
                    trace_id: candidate.trace_id.clone(),
                    span_id: candidate.span_id.clone(),
                    row_index: candidate.row_index,
                },
            );
            assert(rows@ =~= rows_of(held.push(candidates@[i as int])));
        }
        i += 1;
    }
    assert(candidates@.take(i as int) =~= candidates@);
    proof {
        let k = choose|k: int|
            0 <= k < segment_ids(candidates@).len() && segment_ids(candidates@)[k] == key@;
        lemma_held_nonempty(candidates@, key@, k);
    }
    let at: usize = first.unwrap();
    let candidate = &candidates[at];
    proof {
        lemma_held_has_id(candidates@, key@, 0);
    }
    SegmentSource {
        uri: candidate.uri.clone(),
        total_bytes: candidate.total_bytes,
        schema_version: candidate.schema_version,
        search_index_uri: copy_option(&candidate.search_index_uri),
        search_index_bytes: candidate.search_index_bytes,
        search_index_schema_version: candidate.search_index_schema_version,
        candidate_rows: rows,
    }
}

proof fn lemma_held_nonempty(candidates: Seq<RunCandidate>, id: SegmentId, k: int)
    requires
        0 <= k < candidates.len(),
        segment_id(candidates[k]) == id,
    ensures
        held_by(candidates, id).len() > 0,
    decreases candidates.len(),
{
    if k < candidates.len() - 1 {
        lemma_held_nonempty(candidates.drop_last(), id, k);
    }
}

proof fn lemma_held_has_id(candidates: Seq<RunCandidate>, id: SegmentId, n: int)
    requires
        0 <= n < held_by(candidates, id).len(),
    ensures
        segment_id(held_by(candidates, id)[n]) == id,
    decreases candidates.len(),
{
    if candidates.len() > 0 {
        if n < held_by(candidates.drop_last(), id).len() {
            lemma_held_has_id(candidates.drop_last(), id, n);
        }
    }
}

/// Whether `plan` is the plan that the candidates of a query come to: their
/// segments and keys in order, and what they may cost.
pub open spec fn is_plan_of(plan: RunQueryPlan, candidates: Seq<RunCandidate>) -> bool {
    let ids = planned_ids(candidates);
    &&& plan.segments.len() == ids.len()
    &&& forall|i: int|
        0 <= i < ids.len() ==> is_segment_of(#[trigger] plan.segments@[i], candidates, ids[i])
    &&& keys_of(plan.candidate_run_keys@) == ordered_set(candidate_keys(candidates), key_order())
    &&& plan.candidate_runs == plan.candidate_run_keys.len()
    &&& plan.candidate_bytes == sum_of(sizes_of(candidates, ids))
    &&& plan.estimated_object_store_requests == estimated_requests(ids.len() as int)
}

/// The plan that the candidates of a query come to, if it is within the limits of
/// the query.
pub fn plan_from_candidates(candidates: &Vec<RunCandidate>, limits: &RunQueryLimits) -> (r: Result<
    RunQueryPlan,
    String,
>)
    requires
        bytes_fit(sizes_of(candidates@, planned_ids(candidates@))),
    ensures
        ({
            let ids = planned_ids(candidates@);
            let fault = limits_fault(
                *limits,
                ids.len() as int,
                estimated_requests(ids.len() as int),
                sum_of(sizes_of(candidates@, ids)),
            );
            match r {
                Ok(plan) => fault is None && is_plan_of(plan, candidates@),
                Err(message) => fault == Some(message@),
            }
        }),
{
    let keys = distinct_segments(candidates);
    let ghost ids = planned_ids(candidates@);
    let ghost sizes = sizes_of(candidates@, ids);
    let ghost held = |key: SegmentKey| key@;
    assert(keys@.map_values(held) == ids);
    assert(keys.len() == ids.len());
    proof {
        law_segment_order();
        law_ordered_set_holds_its_elements(segment_ids(candidates@), segment_order());
    }
    let mut segments: Vec<SegmentSource> = Vec::new();
    let mut bytes: i64 = 0;
    let mut i: usize = 0;
    assert(sizes.take(0) =~= Seq::<i64>::empty());
    while i < keys.len()
        invariant
            i <= keys.len(),
            keys.len() == ids.len(),
            ids == planned_ids(candidates@),
            sizes == sizes_of(candidates@, ids),
            held == (|key: SegmentKey| key@),
            keys@.map_values(held) == ids,
            bytes_fit(sizes),
            forall|x: SegmentId| #[trigger] ids.contains(x) <==> segment_ids(candidates@).contains(x),
            segments.len() == i,
            forall|j: int|
                0 <= j < i ==> is_segment_of(#[trigger] segments@[j], candidates@, ids[j]),
            bytes == sum_of(sizes.take(i as int)),
        decreases keys.len() - i,
    {
        assert(keys@.map_values(held)[i as int] == keys@[i as int]@);
        assert(ids.contains(ids[i as int]));
        let segment = segment_of(candidates, &keys[i]);
        assert(sizes.take(i + 1).drop_last() =~= sizes.take(i as int));
        assert(sizes.take(i + 1).last() == segment.total_bytes);
        assert(i64::MIN <= sum_of(sizes.take(i + 1)) <= i64::MAX);
        bytes = bytes + segment.total_bytes;
        segments.push(segment);
        i += 1;
    }
    assert(sizes.take(i as int) =~= sizes);
    let count = segments.len();
    let requests = estimate_vortex_object_store_requests(count);
    match enforce_limits(limits, count, requests, bytes) {
        Ok(_) => {},
        Err(message) => {
            return Err(message);
        },
    }
    let mut run_keys: Vec<RunKey> = Vec::new();
    let ghost all = candidate_keys(candidates@);
    let mut k: usize = 0;
    assert(all.take(0) =~= Seq::<Key>::empty());
    assert(keys_of(run_keys@) =~= Seq::<Key>::empty());
    while k < candidates.len()
        invariant
            k <= candidates.len(),
            all == candidate_keys(candidates@),
            keys_of(run_keys@) == ordered_set(all.take(k as int), key_order()),
        decreases candidates.len() - k,
    {
        let ghost now = all.take(k + 1);
        assert(now.drop_last() =~= all.take(k as int));
        assert(now.last() == candidate_key(candidates@[k as int]));
        insert_key(
            &mut run_keys,
            RunKey {
                project_name: candidates[k].project_name.clone(),
                trace_id: candidates[k].trace_id.clone(),
                span_id: candidates[k].span_id.clone(),
            },
        );
        k += 1;
    }
    assert(all.take(k as int) =~= all);
    let candidate_runs = run_keys.len();
    Ok(
        RunQueryPlan {
            segments,
            candidate_run_keys: run_keys,
            candidate_runs,
            candidate_bytes: bytes,
            estimated_object_store_requests: requests,
        },
    )
}

/// The statement for the candidates of a query: none, if it names no project.
pub fn candidates_statement(query: &RunQuery) -> (r: Result<Option<Statement>, String>)
    ensures
        match r {
            Ok(Some(statement)) => {
                &&& query@.project_names.len() > 0
                &&& head_where(query@) is Ok
                &&& statement@ == call(
                    "load run query candidates"@,
                    candidate_runs_sql(query@, head_where(query@)->Ok_0),
                )
            },
            Ok(None) => query@.project_names.len() == 0,
            Err(message) => query@.project_names.len() > 0 && head_where(query@) == Err::<
                Seq<char>,
                _,
            >(message@),
        },
{
    assert(query@.project_names.len() == query.project_names@.len());
    if query.project_names.len() == 0 {
        return Ok(None);
    }
    match run_candidate_runs_sql(query) {
        Ok(sql) => Ok(Some(Statement::new("load run query candidates", sql.as_str()))),
        Err(message) => Err(message),
    }
}

/// Whether a query leaves out deleted runs that there may be.
pub open spec fn hides_deleted(query: Query) -> bool {
    query.project_names.len() > 0 && !query.include_deleted
}

/// The statement for the deleted runs that a query leaves out: none, if it names no
/// project or wants deleted runs too.
pub fn deleted_runs_statement(query: &RunQuery) -> (r: Option<Statement>)
    ensures
        match r {
            Some(statement) => hides_deleted(query@) && statement@ == call(
                "load deleted runs"@,
                deleted_keys(query@),
            ),
            None => !hides_deleted(query@),
        },
{
    assert(query@.project_names.len() == query.project_names@.len());
    if query.project_names.len() == 0 || query.include_deleted {
        return None;
    }
    Some(Statement::new("load deleted runs", deleted_run_keys_sql(query).as_str()))
}

/// A query is refused just if it goes beyond a limit that there is.
pub proof fn law_limits_are_kept(limits: RunQueryLimits, segments: int, requests: int, bytes: int)
    ensures
        limits_fault(limits, segments, requests, bytes) is None <==> {
            &&& limits.max_candidate_segments matches Some(most) ==> segments <= most
            &&& limits.max_estimated_object_store_requests matches Some(most) ==> requests <= most
            &&& limits.max_candidate_bytes matches Some(most) ==> bytes <= most
        },
        limits_fault(RunQueryLimits::none(), segments, requests, bytes) is None,
{
}

/// A segment takes 48 requests, however many others there are: none take none, and one more
/// takes 48 more, as long as the number can be said.
pub proof fn law_requests_go_by_segment(segments: int)
    requires
        0 <= segments,
    ensures
        estimated_requests(0) == 0,
        (segments + 1) * 48 <= usize::MAX ==> estimated_requests(segments + 1)
            == estimated_requests(segments) + 48,
        estimated_requests(segments) <= estimated_requests(segments + 1),
{
}

/// What is read for a page ends where the page does: behind what is skipped come as many as
/// the limit says.
pub proof fn law_page_ends_behind_its_limit(limit: usize, offset: usize)
    requires
        limit + offset <= usize::MAX,
    ensures
        page_end(Some(limit), Some(offset)) == Some((limit + offset) as usize),
        page_end(Some(limit), None) == Some(limit),
        page_end(None, Some(offset)) is None,
        page_end(None, None) is None,
{
}

/// Whether a candidate is in a segment.
pub open spec fn is_in(candidate: RunCandidate, segment: SegmentSource) -> bool {
    candidate.uri@ == segment.uri@ && candidate.schema_version == segment.schema_version
}

/// Each candidate is among the rows of a segment of the plan, the one that it is in; and no two
/// segments of the plan are the same.
pub proof fn law_candidates_are_planned(
    plan: RunQueryPlan,
    candidates: Seq<RunCandidate>,
    candidate: RunCandidate,
)
    requires
        is_plan_of(plan, candidates),
        candidates.contains(candidate),
    ensures
        exists|i: int|
            {
                &&& 0 <= i < plan.segments@.len()
                &&& #[trigger] is_in(candidate, plan.segments@[i])
                &&& plan.segments@[i].candidate_rows@.contains(row_of(candidate))
            },
        forall|i: int, j: int|
            0 <= i < j < plan.segments@.len() && #[trigger] is_in(candidate, plan.segments@[i])
                ==> !#[trigger] is_in(candidate, plan.segments@[j]),
        keys_of(plan.candidate_run_keys@).contains(candidate_key(candidate)),
{
    let ids = planned_ids(candidates);
    let all = segment_ids(candidates);
    law_segment_order();
    law_ordered_set_holds_its_elements(all, segment_order());
    let k = choose|k: int| 0 <= k < candidates.len() && candidates[k] == candidate;
    assert(all[k] == segment_id(candidate));
    assert(all.contains(all[k]));
    assert(ids.contains(all[k]));
    let i = choose|i: int| 0 <= i < ids.len() && ids[i] == all[k];
    let held = held_by(candidates, ids[i]);
    lemma_held_by(candidates, ids[i]);
    assert(is_segment_of(plan.segments@[i], candidates, ids[i]));
    assert(held.contains(candidate));
    let j = choose|j: int| 0 <= j < held.len() && held[j] == candidate;
    assert(plan.segments@[i].candidate_rows@[j] == row_of(candidate));
    assert(is_in(candidate, plan.segments@[i]));
    assert forall|i: int, j: int|
        0 <= i < j < plan.segments@.len() && #[trigger] is_in(
            candidate,
            plan.segments@[i],
        ) implies !#[trigger] is_in(candidate, plan.segments@[j]) by {
        assert(is_segment_of(plan.segments@[i], candidates, ids[i]));
        assert(is_segment_of(plan.segments@[j], candidates, ids[j]));
        assert(segment_order()(ids[i], ids[j]));
    }
    let keys = candidate_keys(candidates);
    law_key_order();
    law_ordered_set_holds_its_elements(keys, key_order());
    assert(keys[k] == candidate_key(candidate));
    assert(keys.contains(keys[k]));
}

/// A row of a segment of the plan is one of the candidates that are in that segment.
pub proof fn law_planned_rows_are_candidates(
    plan: RunQueryPlan,
    candidates: Seq<RunCandidate>,
    i: int,
    j: int,
)
    requires
        is_plan_of(plan, candidates),
        0 <= i < plan.segments@.len(),
        0 <= j < plan.segments@[i].candidate_rows@.len(),
    ensures
        exists|k: int|
            {
                &&& 0 <= k < candidates.len()
                &&& #[trigger] is_in(candidates[k], plan.segments@[i])
                &&& row_of(candidates[k]) == plan.segments@[i].candidate_rows@[j]
            },
{
    let ids = planned_ids(candidates);
    let held = held_by(candidates, ids[i]);
    lemma_held_by(candidates, ids[i]);
    assert(is_segment_of(plan.segments@[i], candidates, ids[i]));
    assert(held.contains(held[j]));
    let k = choose|k: int| 0 <= k < candidates.len() && candidates[k] == held[j];
    assert(is_in(candidates[k], plan.segments@[i]));
}

proof fn lemma_held_by(candidates: Seq<RunCandidate>, id: SegmentId)
    ensures
        forall|one: RunCandidate| #[trigger]
            held_by(candidates, id).contains(one) <==> candidates.contains(one) && segment_id(one)
                == id,
    decreases candidates.len(),
{
    if candidates.len() > 0 {
        let before = candidates.drop_last();
        lemma_held_by(before, id);
        let rest = held_by(before, id);
        let held = held_by(candidates, id);
        assert forall|one: RunCandidate| #[trigger]
            held.contains(one) <==> candidates.contains(one) && segment_id(one) == id by {
            if held.contains(one) {
                let i = choose|i: int| 0 <= i < held.len() && held[i] == one;
                if i < rest.len() {
                    assert(rest[i] == one);
                    assert(rest.contains(one));
                    let k = choose|k: int| 0 <= k < before.len() && before[k] == one;
                    assert(candidates[k] == one);
                } else {
                    assert(candidates[candidates.len() - 1] == one);
                }
            }
            if candidates.contains(one) && segment_id(one) == id {
                let k = choose|k: int| 0 <= k < candidates.len() && candidates[k] == one;
                if k < before.len() {
                    assert(before[k] == one);
                    assert(rest.contains(one));
                    let i = choose|i: int| 0 <= i < rest.len() && rest[i] == one;
                    assert(held[i] == one);
                } else {
                    assert(held[rest.len() as int] == one);
                }
            }
        }
    }
}

} // verus!
