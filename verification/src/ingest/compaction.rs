//! Compaction: the segments of an hour become fewer.

use crate::float::FloatReadings;
use crate::float::Reading;
use crate::ingest::pending::FlushReceipt;
use crate::ingest::records::PartitionRecords;
use crate::ingest::records::are_grouped;
use crate::ingest::records::group_records_by_partition;
use crate::ingest::records::hash_of;
use crate::ingest::records::stable_hash;
use crate::ingest::records::status_of;
use crate::json::Json;
use crate::json::JsonValue;
use crate::json::json_text;
use crate::json::lemma_json_view;
use crate::query::Query;
use crate::query::RunQuery;
use crate::query::RunQueryLimits;
use crate::query::RunSummary;
use crate::query::filter::Filter;
use crate::query::filter::FilterExpr;
use crate::record::RunEventKind;
use crate::record::SpanRecord;
use crate::sql::integer_list;
use crate::sql::joined_integers;
use crate::statement::Call;
use crate::statement::Statement;
use crate::statement::call;
use crate::text::copy_option;
use crate::text::hex_text;
use crate::text::hexadecimal_text;
use crate::text::int_text;
use crate::text::integer_text;
use crate::text::opt_text;
use crate::text::same;
use crate::text::texts;
use crate::text::trim;
use crate::text::trimmed;
use crate::time::Duration;
use crate::json::values_of;
use crate::json::write_json;
use crate::query::filter::parser::parse_spec;
use crate::query::plain_query;
use vstd::prelude::*;
use vstd::string::StringExecFns;
use vstd::utf8::encode_utf8;

verus! {

/// How many records a segment may hold that replaces others.
pub const MAX_COMPACTION_SPANS_PER_SEGMENT: usize = 8192;

pub const OLDEST_CANDIDATE_SQL: &'static str = "SELECT time_bucket_start_unix_nano
                FROM (
                    SELECT time_bucket_start_unix_nano
                    FROM trace_segments
                    WHERE project_name = $1 AND compacted_at IS NULL
                    GROUP BY time_bucket_start_unix_nano
                    HAVING count(*) > 1
                ) AS compactable_buckets
                ORDER BY time_bucket_start_unix_nano
                LIMIT 1";

pub const ACTIVE_SEGMENTS_SQL: &'static str = "SELECT id
                FROM trace_segments
                WHERE project_name = $1
                    AND time_bucket_start_unix_nano = $2
                    AND compacted_at IS NULL
                ORDER BY id
                LIMIT $3";

pub const COMPACTION_PROJECTS_SQL: &'static str = "SELECT DISTINCT project_name
                FROM (
                    SELECT project_name
                    FROM trace_segments
                    WHERE compacted_at IS NULL
                    GROUP BY project_name, time_bucket_start_unix_nano
                    HAVING count(*) > 1
                ) AS compactable_projects
                ORDER BY project_name";

pub const CLEAR_LEASE_SQL: &'static str = "DELETE FROM compaction_leases
            WHERE project_name = $1
                AND (
                    lease_expires_at_unix_nano <= $2
                    OR holder_id = $3
                )";

pub const ACQUIRE_LEASE_SQL: &'static str = "INSERT INTO compaction_leases(
                    project_name, holder_id, lease_expires_at_unix_nano, updated_at
                )
                VALUES ($1, $2, $3, CURRENT_TIMESTAMP)
                ON CONFLICT (project_name) DO NOTHING
                RETURNING holder_id";

pub const RELEASE_LEASE_SQL: &'static str = "DELETE FROM compaction_leases
                WHERE project_name = $1 AND holder_id = $2";

/// What a compaction did.
#[derive(Debug, PartialEq, Eq)]
pub struct CompactReceipt {
    pub compacted_runs: usize,
    pub compacted_segments: usize,
    pub written_segments: usize,
    pub flushes: Vec<FlushReceipt>,
}

/// An hour of a project with several segments.
#[derive(Debug, PartialEq, Eq)]
pub struct CompactionCandidate {
    pub project_name: String,
    pub time_bucket_start_unix_nano: i64,
}

/// The statement for the oldest hour of a project with several segments.
pub fn oldest_candidate_statement(project_name: &str) -> (r: Statement)
    ensures
        r@ == call("load oldest compaction candidate"@, OLDEST_CANDIDATE_SQL@).text(project_name@),
{
    Statement::new("load oldest compaction candidate", OLDEST_CANDIDATE_SQL).text(project_name)
}

/// The statement for the segments of an hour, no more than may be compacted at once.
pub fn active_segments_statement(candidate: &CompactionCandidate, max_segments: i64) -> (r:
    Statement)
    ensures
        r@ == call("load active project segments"@, ACTIVE_SEGMENTS_SQL@).text(
            candidate.project_name@,
        ).integer(candidate.time_bucket_start_unix_nano as int).integer(max_segments as int),
{
    Statement::new("load active project segments", ACTIVE_SEGMENTS_SQL).text(
        candidate.project_name.as_str(),
    ).integer(candidate.time_bucket_start_unix_nano).integer(max_segments)
}

/// The statement for the runs whose latest version is in segments.
pub open spec fn segment_runs_call(segment_ids: Seq<i64>) -> Call {
    call(
        "load bounded compaction run ids"@,
        "SELECT run_id FROM run_heads\n                    WHERE deleted_at_unix_nano IS NULL\n                        AND last_trace_segment_id IN ("@
            + integer_list(segment_ids, ", "@) + ")\n                    ORDER BY run_id"@,
    )
}

/// The statement for the runs whose latest version is in segments: none, if there are
/// no segments.
pub fn segment_runs_statement(segment_ids: &Vec<i64>) -> (r: Option<Statement>)
    ensures
        match r {
            Some(statement) => segment_ids@.len() > 0 && statement@ == segment_runs_call(
                segment_ids@,
            ),
            None => segment_ids@.len() == 0,
        },
{
    if segment_ids.len() == 0 {
        return None;
    }
    let mut sql =
        "SELECT run_id FROM run_heads\n                    WHERE deleted_at_unix_nano IS NULL\n                        AND last_trace_segment_id IN (".to_owned();
    sql.append(joined_integers(segment_ids, ", ").as_str());
    sql.append(")\n                    ORDER BY run_id");
    Some(Statement::new("load bounded compaction run ids", sql.as_str()))
}

/// The statement that marks segments compacted.
pub open spec fn mark_compacted_call(segment_ids: Seq<i64>, now: i64) -> Call {
    call(
        "mark segments compacted"@,
        "UPDATE trace_segments\n            SET compacted_at = CURRENT_TIMESTAMP,\n                compacted_at_unix_nano = $1\n            WHERE id IN ("@
            + integer_list(segment_ids, ", "@) + ") AND compacted_at IS NULL"@,
    ).integer(now as int)
}

/// The statement that marks segments compacted: none, if there are no segments.
pub fn mark_compacted_statement(segment_ids: &Vec<i64>, compacted_at_unix_nano: i64) -> (r: Option<
    Statement,
>)
    ensures
        match r {
            Some(statement) => segment_ids@.len() > 0 && statement@ == mark_compacted_call(
                segment_ids@,
                compacted_at_unix_nano,
            ),
            None => segment_ids@.len() == 0,
        },
{
    if segment_ids.len() == 0 {
        return None;
    }
    let mut sql =
        "UPDATE trace_segments\n            SET compacted_at = CURRENT_TIMESTAMP,\n                compacted_at_unix_nano = $1\n            WHERE id IN (".to_owned();
    sql.append(joined_integers(segment_ids, ", ").as_str());
    sql.append(") AND compacted_at IS NULL");
    Some(
        Statement::new("mark segments compacted", sql.as_str()).integer(compacted_at_unix_nano),
    )
}

/// Texts as a JSON array.
pub open spec fn text_array(items: Seq<Seq<char>>) -> JsonValue {
    JsonValue::Array(items.map_values(|text: Seq<char>| JsonValue::Text(text)))
}

/// The filter for runs with these ids, as text.
pub open spec fn ids_filter_text(run_ids: Seq<Seq<char>>) -> Seq<char> {
    "in(id, "@ + json_text(text_array(run_ids)) + ")"@
}

fn ids_filter(run_ids: &Vec<String>) -> (r: String)
    ensures
        r@ == ids_filter_text(texts(run_ids@)),
{
    let mut items: Vec<Json> = Vec::new();
    let ghost wanted = texts(run_ids@).map_values(|text: Seq<char>| JsonValue::Text(text));
    let mut i: usize = 0;
    assert(values_of(items@) =~= wanted.take(0));
    while i < run_ids.len()
        invariant
            i <= run_ids.len(),
            wanted == texts(run_ids@).map_values(|text: Seq<char>| JsonValue::Text(text)),
            values_of(items@) =~= wanted.take(i as int),
        decreases run_ids.len() - i,
    {
        let ghost before = items@;
        let item = Json::Text(run_ids[i].clone());
        assert(texts(run_ids@)[i as int] == run_ids@[i as int]@);
        assert(item@ == wanted[i as int]);
        items.push(item);
        assert(values_of(items@) =~= values_of(before).push(item@));
        i += 1;
    }
    assert(texts(run_ids@).len() == run_ids@.len());
    assert(wanted.take(i as int) =~= wanted);
    let array = Json::Array(items);
    proof {
        lemma_json_view(array);
    }
    let mut out = "in(id, ".to_owned();
    out.append(write_json(&array).as_str());
    out.append(")");
    out
}

/// The query for the runs of segments that are compacted, when their filter is given:
/// no more segments and runs than there are.
pub open spec fn compaction_query_of(
    project_name: Seq<char>,
    filter: Filter,
    segments: usize,
    runs: usize,
) -> Query {
    Query {
        filter: Some(filter),
        limits: RunQueryLimits {
            max_candidate_segments: Some(segments),
            max_candidate_runs: Some(runs),
            ..RunQueryLimits::none()
        },
        ..plain_query(seq![project_name])
    }
}

/// The query for runs that pass a filter, of so many segments.
pub fn bounded_query(project_name: &str, filter: FilterExpr, segments: usize, runs: usize) -> (r:
    RunQuery)
    ensures
        r@ == compaction_query_of(project_name@, filter@, segments, runs),
{
    let mut query = RunQuery::new(project_name);
    query.filter = Some(filter);
    query.limits.max_candidate_segments = Some(segments);
    query.limits.max_candidate_runs = Some(runs);
    query
}

/// The query for the runs of segments that are compacted.
pub fn compaction_query(project_name: &str, run_ids: &Vec<String>, segment_ids: &Vec<i64>) -> (r:
    Result<RunQuery, String>)
    ensures
        ({
            let parsed = parse_spec(
                ids_filter_text(texts(run_ids@)),
                Map::<Seq<char>, Reading>::empty(),
            );
            match r {
                Ok(query) => parsed is Ok && query@ == compaction_query_of(
                    project_name@,
                    parsed->Ok_0,
                    segment_ids@.len() as usize,
                    run_ids@.len() as usize,
                ),
                Err(message) => parsed is Err && message@ == "build bounded compaction filter"@,
            }
        }),
{
    let text = ids_filter(run_ids);
    let readings = FloatReadings::new();
    match FilterExpr::parse(text.as_str(), &readings) {
        Ok(filter) => Ok(
            bounded_query(project_name, filter, segment_ids.len(), run_ids.len()),
        ),
        Err(_) => Err("build bounded compaction filter".to_owned()),
    }
}

/// The segments that are compacted, as text.
pub fn compaction_batch_key(segment_ids: &Vec<i64>) -> (r: String)
    ensures
        r@ == integer_list(segment_ids@, ","@),
{
    joined_integers(segment_ids, ",")
}

/// The key of the record that keeps a run through a compaction.
pub open spec fn compaction_key(run: RunSummary, batch: Seq<char>) -> Seq<char> {
    "compact:"@ + batch + ":"@ + run.project_name@ + ":"@ + run.trace_id@ + ":"@ + run.span_id@
        + ":"@ + int_text(run.start_time_unix_nano as int) + ":"@ + int_text(
        run.end_time_unix_nano as int,
    ) + ":"@ + run.status@ + ":"@ + hex_text(
        hash_of(encode_utf8(run.attributes_json@)) as nat,
        16,
    )
}

/// The key of the record that keeps a run through a compaction.
pub fn compaction_idempotency_key(run: &RunSummary, compaction_batch_key: &str) -> (r: String)
    ensures
        r@ == compaction_key(*run, compaction_batch_key@),
{
    let mut out = "compact:".to_owned();
    out.append(compaction_batch_key);
    out.append(":");
    out.append(run.project_name.as_str());
    out.append(":");
    out.append(run.trace_id.as_str());
    out.append(":");
    out.append(run.span_id.as_str());
    out.append(":");
    out.append(integer_text(run.start_time_unix_nano).as_str());
    out.append(":");
    out.append(integer_text(run.end_time_unix_nano).as_str());
    out.append(":");
    out.append(run.status.as_str());
    out.append(":");
    out.append(hexadecimal_text(stable_hash(run.attributes_json.as_str()), 16).as_str());
    out
}

/// The status code that stands for the status of a run.
pub open spec fn code_of(status: Seq<char>, end: i64) -> i32 {
    if status == "error"@ {
        2
    } else if end == 0 {
        0
    } else {
        1
    }
}

/// Whether a record keeps a run through a compaction.
pub open spec fn keeps_run(record: SpanRecord, run: RunSummary, batch: Seq<char>) -> bool {
    &&& record.project_name@ == run.project_name@
    &&& record.run_id@ == match run.run_id {
        Some(id) => id@,
        None => Seq::empty(),
    }
    &&& record.trace_id@ == run.trace_id@
    &&& record.span_id@ == run.span_id@
    &&& opt_text(record.parent_run_id) == opt_text(run.parent_run_id)
    &&& opt_text(record.parent_span_id) == opt_text(run.parent_span_id)
    &&& record.name@ == run.name@
    &&& record.run_type@ == run.run_type@
    &&& record.start_time_unix_nano == run.start_time_unix_nano
    &&& record.end_time_unix_nano == run.end_time_unix_nano
    &&& record.status_code == code_of(run.status@, run.end_time_unix_nano)
    &&& record.event_kind == RunEventKind::Compact
    &&& record.attributes_json@ == run.attributes_json@
    &&& opt_text(record.idempotency_key) == Some(compaction_key(run, batch))
}

/// The record that keeps a run through a compaction.
pub fn span_record_from_run_summary(run: &RunSummary, compaction_batch_key: &str) -> (r: SpanRecord)
    ensures
        keeps_run(r, *run, compaction_batch_key@),
{
    let run_id = match &run.run_id {
        Some(id) => id.clone(),
        None => String::new(),
    };
    let status_code: i32 = if same(run.status.as_str(), "error") {
        2
    } else if run.end_time_unix_nano == 0 {
        0
    } else {
        1
    };
    SpanRecord {
        project_name: run.project_name.clone(),
        run_id,
        trace_id: run.trace_id.clone(),
        span_id: run.span_id.clone(),
        parent_run_id: copy_option(&run.parent_run_id),
        parent_span_id: copy_option(&run.parent_span_id),
        name: run.name.clone(),
        run_type: run.run_type.clone(),
        start_time_unix_nano: run.start_time_unix_nano,
        end_time_unix_nano: run.end_time_unix_nano,
        status_code,
        event_kind: RunEventKind::Compact,
        attributes_json: run.attributes_json.clone(),
        idempotency_key: Some(compaction_idempotency_key(run, compaction_batch_key)),
    }
}

/// A run has the same status after a compaction as before.
pub proof fn law_compaction_keeps_status(run: RunSummary, record: SpanRecord, batch: Seq<char>)
    requires
        keeps_run(record, run, batch),
        exists|code: i32| run.status@ == #[trigger] status_of(code, run.end_time_unix_nano),
    ensures
        status_of(record.status_code, record.end_time_unix_nano) == run.status@,
{
    reveal_strlit("error");
    reveal_strlit("pending");
    reveal_strlit("success");
    let code = choose|code: i32|
        run.status@ == #[trigger] status_of(code, run.end_time_unix_nano);
    assert("error"@.len() == 5 && "pending"@.len() == 7 && "success"@.len() == 7);
}

/// Whether records keep runs through a compaction, one for one.
pub open spec fn keep_runs_of(
    records: Seq<SpanRecord>,
    runs: Seq<RunSummary>,
    batch: Seq<char>,
) -> bool {
    &&& records.len() == runs.len()
    &&& forall|i: int|
        0 <= i < runs.len() ==> keeps_run(#[trigger] records[i], runs[i], batch)
}

/// The records that keep runs through a compaction.
pub fn compaction_records(runs: &Vec<RunSummary>, segment_ids: &Vec<i64>) -> (r: Vec<SpanRecord>)
    ensures
        keep_runs_of(r@, runs@, integer_list(segment_ids@, ","@)),
{
    let batch = compaction_batch_key(segment_ids);
    let mut out: Vec<SpanRecord> = Vec::new();
    let mut i: usize = 0;
    while i < runs.len()
        invariant
            i <= runs.len(),
            out@.len() == i,
            batch@ == integer_list(segment_ids@, ","@),
            forall|k: int| 0 <= k < i ==> keeps_run(#[trigger] out@[k], runs@[k], batch@),
        decreases runs.len() - i,
    {
        out.push(span_record_from_run_summary(&runs[i], batch.as_str()));
        i += 1;
    }
    out
}

/// Whether these are the records, partition by partition, that keep runs through a
/// compaction.
pub open spec fn are_compacted(
    groups: Seq<PartitionRecords>,
    runs: Seq<RunSummary>,
    batch: Seq<char>,
) -> bool {
    exists|records: Seq<SpanRecord>|
        #![trigger are_grouped(groups, records)]
        keep_runs_of(records, runs, batch) && are_grouped(groups, records)
}

/// What a compaction writes, partition by partition: nothing, if there are no runs or
/// there is only one segment.
pub fn compaction_plan(runs: &Vec<RunSummary>, segment_ids: &Vec<i64>) -> (r: Option<
    Vec<PartitionRecords>,
>)
    ensures
        match r {
            Some(groups) => {
                &&& runs@.len() > 0
                &&& segment_ids@.len() > 1
                &&& are_compacted(groups@, runs@, integer_list(segment_ids@, ","@))
            },
            None => runs@.len() == 0 || segment_ids@.len() <= 1,
        },
{
    if runs.len() == 0 || segment_ids.len() <= 1 {
        return None;
    }
    let records = compaction_records(runs, segment_ids);
    let groups = group_records_by_partition(&records);
    assert(are_grouped(groups@, records@));
    assert(are_compacted(groups@, runs@, integer_list(segment_ids@, ","@)));
    Some(groups)
}

/// What a compaction did that had nothing to write.
pub fn nothing_compacted(compacted_runs: usize) -> (r: CompactReceipt)
    ensures
        r.compacted_runs == compacted_runs,
        r.compacted_segments == 0,
        r.written_segments == 0,
        r.flushes@.len() == 0,
{
    CompactReceipt { compacted_runs, compacted_segments: 0, written_segments: 0, flushes: Vec::new() }
}

/// What a compaction did.
pub fn compact_receipt(
    compacted_runs: usize,
    compacted_segments: usize,
    flushes: Vec<FlushReceipt>,
) -> (r: CompactReceipt)
    ensures
        r.compacted_runs == compacted_runs,
        r.compacted_segments == compacted_segments,
        r.written_segments == flushes@.len(),
        r.flushes@ == flushes@,
{
    CompactReceipt {
        compacted_runs,
        compacted_segments,
        written_segments: flushes.len(),
        flushes,
    }
}

/// What is said of a compaction that could not write a segment.
pub fn compaction_failure_text(project_name: &str, error: &str) -> (r: String)
    ensures
        r@ == "compact project "@ + project_name@
            + " failed while writing replacement segment: "@ + error@,
{
    let mut out = "compact project ".to_owned();
    out.append(project_name);
    out.append(" failed while writing replacement segment: ");
    out.append(error);
    out
}

/// Who compacts, and for how long a project is theirs.
#[derive(Debug, PartialEq, Eq)]
pub struct CompactionServiceConfig {
    pub holder_id: String,
    pub lease_duration: Duration,
}

/// What a round of compactions did.
#[derive(Debug, Clone, Copy, PartialEq, Eq)]
pub struct CompactionServiceReceipt {
    pub projects_scanned: usize,
    pub leases_acquired: usize,
    pub compacted_runs: usize,
    pub compacted_segments: usize,
    pub written_segments: usize,
}

impl CompactionServiceReceipt {
    /// Nothing was done yet.
    pub open spec fn nothing() -> Self {
        CompactionServiceReceipt {
            projects_scanned: 0,
            leases_acquired: 0,
            compacted_runs: 0,
            compacted_segments: 0,
            written_segments: 0,
        }
    }
}

impl Default for CompactionServiceReceipt {
    fn default() -> (r: Self)
        ensures
            r == CompactionServiceReceipt::nothing(),
    {
        CompactionServiceReceipt {
            projects_scanned: 0,
            leases_acquired: 0,
            compacted_runs: 0,
            compacted_segments: 0,
            written_segments: 0,
        }
    }
}

/// The name of who compacts, as it is kept.
pub fn normalize_holder_id(holder_id: &str) -> (r: Result<String, String>)
    ensures
        match r {
            Ok(holder) => trim(holder_id@).len() > 0 && holder@ == trim(holder_id@),
            Err(message) => trim(holder_id@).len() == 0 && message@
                == "compaction holder_id must not be empty"@,
        },
{
    let plain = trimmed(holder_id);
    if plain.as_str().is_empty() {
        Err("compaction holder_id must not be empty".to_owned())
    } else {
        Ok(plain)
    }
}

/// A lease in nanoseconds, or why it is none.
pub open spec fn lease_length(lease: Duration) -> Result<i64, Seq<char>> {
    if lease.nanos == 0 {
        Err("compaction lease duration must be greater than zero"@)
    } else if lease.nanos > i64::MAX {
        Err("compaction lease duration does not fit in i64 nanos"@)
    } else {
        Ok(lease.nanos as i64)
    }
}

/// A lease in nanoseconds.
pub fn lease_nanos(lease: Duration) -> (r: Result<i64, String>)
    ensures
        match r {
            Ok(nanos) => lease_length(lease) == Ok::<_, Seq<char>>(nanos),
            Err(message) => lease_length(lease) == Err::<i64, _>(message@),
        },
{
    if lease.is_zero() {
        Err("compaction lease duration must be greater than zero".to_owned())
    } else if lease.nanos > i64::MAX as u128 {
        Err("compaction lease duration does not fit in i64 nanos".to_owned())
    } else {
        Ok(lease.nanos as i64)
    }
}

/// The statement for the projects with an hour of several segments.
pub fn compaction_projects_statement() -> (r: Statement)
    ensures
        r@ == call("list compaction projects"@, COMPACTION_PROJECTS_SQL@),
{
    Statement::new("list compaction projects", COMPACTION_PROJECTS_SQL)
}

/// The statements that take the lease of a project: the first clears one that ran out
/// or that is the holder's own, the second takes it unless somebody has it. Until when
/// it holds must be a time that there is.
pub fn lease_statements(project_name: &str, holder_id: &str, lease_nanos: i64, now_unix_nano: i64)
    -> (r: Result<(Statement, Statement), String>)
    ensures
        match r {
            Ok((clear, acquire)) => {
                &&& i64::MIN <= now_unix_nano + lease_nanos <= i64::MAX
                &&& clear@ == call("clear expired compaction lease"@, CLEAR_LEASE_SQL@).text(
                    project_name@,
                ).integer(now_unix_nano as int).text(holder_id@)
                &&& acquire@ == call("acquire compaction lease"@, ACQUIRE_LEASE_SQL@).text(
                    project_name@,
                ).text(holder_id@).integer(now_unix_nano + lease_nanos)
            },
            Err(message) => {
                &&& !(i64::MIN <= now_unix_nano + lease_nanos <= i64::MAX)
                &&& message@ == "compaction lease expiry overflow"@
            },
        },
{
    match now_unix_nano.checked_add(lease_nanos) {
        Some(expires) => Ok(
            (
                Statement::new("clear expired compaction lease", CLEAR_LEASE_SQL).text(
                    project_name,
                ).integer(now_unix_nano).text(holder_id),
                Statement::new("acquire compaction lease", ACQUIRE_LEASE_SQL).text(
                    project_name,
                ).text(holder_id).integer(expires),
            ),
        ),
        None => Err("compaction lease expiry overflow".to_owned()),
    }
}

/// The statement that gives the lease of a project back.
pub fn release_lease_statement(project_name: &str, holder_id: &str) -> (r: Statement)
    ensures
        r@ == call("release compaction lease"@, RELEASE_LEASE_SQL@).text(project_name@).text(
            holder_id@,
        ),
{
    Statement::new("release compaction lease", RELEASE_LEASE_SQL).text(project_name).text(
        holder_id,
    )
}

/// Counts a lease that was acquired.
pub fn count_lease(total: &mut CompactionServiceReceipt)
    requires
        old(total).leases_acquired < usize::MAX,
    ensures
        *final(total) == (CompactionServiceReceipt {
            leases_acquired: (old(total).leases_acquired + 1) as usize,
            ..*old(total)
        }),
{
    total.leases_acquired = total.leases_acquired + 1;
}

/// Adds what a compaction did to what the round did.
pub fn add_compaction_receipt(total: &mut CompactionServiceReceipt, next: &CompactReceipt)
    requires
        old(total).compacted_runs + next.compacted_runs <= usize::MAX,
        old(total).compacted_segments + next.compacted_segments <= usize::MAX,
        old(total).written_segments + next.written_segments <= usize::MAX,
    ensures
        *final(total) == (CompactionServiceReceipt {
            compacted_runs: (old(total).compacted_runs + next.compacted_runs) as usize,
            compacted_segments: (old(total).compacted_segments + next.compacted_segments) as usize,
            written_segments: (old(total).written_segments + next.written_segments) as usize,
            ..*old(total)
        }),
{
    total.compacted_runs = total.compacted_runs + next.compacted_runs;
    total.compacted_segments = total.compacted_segments + next.compacted_segments;
    total.written_segments = total.written_segments + next.written_segments;
}

/// The record that takes the place of a run is of the same run: it has the same key, the same
/// parents, name, type, times and attributes. A run that failed is still one that did, and one
/// that has not ended still has not.
pub proof fn law_compaction_keeps_the_run(run: RunSummary, record: SpanRecord, batch: Seq<char>)
    requires
        keeps_run(record, run, batch),
    ensures
        (record.project_name@, record.trace_id@, record.span_id@) == (
            run.project_name@,
            run.trace_id@,
            run.span_id@,
        ),
        run.run_id matches Some(id) ==> record.run_id@ == id@,
        run.run_id is None ==> record.run_id@.len() == 0,
        opt_text(record.parent_run_id) == opt_text(run.parent_run_id),
        opt_text(record.parent_span_id) == opt_text(run.parent_span_id),
        (record.name@, record.run_type@, record.attributes_json@) == (
            run.name@,
            run.run_type@,
            run.attributes_json@,
        ),
        record.end_time_unix_nano - record.start_time_unix_nano == run.end_time_unix_nano
            - run.start_time_unix_nano,
        record.start_time_unix_nano == run.start_time_unix_nano,
        status_of(record.status_code, record.end_time_unix_nano) == "error"@ <==> run.status@
            == "error"@,
        run.status@ != "error"@ ==> (status_of(record.status_code, record.end_time_unix_nano)
            == "pending"@ <==> run.end_time_unix_nano == 0),
{
    reveal_strlit("error");
    reveal_strlit("pending");
    reveal_strlit("success");
    assert("error"@.len() == 5);
    assert("pending"@.len() == 7 && "pending"@[0] == 'p');
    assert("success"@.len() == 7 && "success"@[0] == 's');
}

/// A lease is as long as is asked for, if it is one: not nothing, and not more than can be said.
pub proof fn law_leases(lease: Duration)
    ensures
        lease_length(lease) is Ok <==> 0 < lease.nanos <= i64::MAX,
        lease_length(lease) matches Ok(nanos) ==> nanos == lease.nanos,
{
}

} // verus!
