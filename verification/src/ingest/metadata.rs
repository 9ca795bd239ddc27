//! What is written to the metadata database for a segment, step by step.

use crate::float::FloatReadings;
use crate::ingest::indexes::Indexes;
use crate::ingest::indexes::PARENT_ROOT_SQL;
use crate::ingest::indexes::ParentHead;
use crate::ingest::indexes::ScalarIndexes;
use crate::ingest::indexes::indexes_in;
use crate::ingest::indexes::parent_head_statement;
use crate::ingest::indexes::replace_indexes_calls;
use crate::ingest::indexes::replace_indexes_statements;
use crate::ingest::indexes::root_locator_for_record;
use crate::ingest::indexes::root_of;
use crate::ingest::refresh::project_lock_call;
use crate::ingest::refresh::project_lock_statement;
use crate::ingest::records::Partition;
use crate::ingest::records::PartitionKey;
use crate::ingest::records::event_time;
use crate::ingest::records::event_time_unix_nano;
use crate::ingest::records::record_key;
use crate::ingest::records::run_event_idempotency_key;
use crate::ingest::records::status_from_record;
use crate::ingest::records::status_of;
use crate::ingest::thread::greatest;
use crate::ingest::thread::greatest_of;
use crate::ingest::thread::least;
use crate::ingest::thread::least_of;
use crate::ingest::thread_store::preview_call;
use crate::ingest::thread_store::run_preview_statement;
use crate::json::json_reading;
use crate::query::generated_id;
use crate::query::generated_run_id;
use crate::query::retention::ENSURE_PROJECT_SQL;
use crate::query::routing::record_project_route_statement;
use crate::query::routing::record_route_call;
use crate::record::SpanRecord;
use crate::statement::Call;
use crate::statement::Statement;
use crate::statement::call;
use crate::statement::calls_of;
use crate::statement::push_statement;
use crate::text::opt_text;
use vstd::prelude::*;

verus! {

pub const INSERT_SEGMENT_SQL: &'static str = "INSERT INTO trace_segments(
                project_name, uri, etag, total_bytes, span_count,
                min_start_time_unix_nano, max_end_time_unix_nano,
                time_bucket_start_unix_nano, schema_version,
                search_index_uri, search_index_bytes, search_index_schema_version
            )
            VALUES ($1, $2, $3, $4, $5, $6, $7, $8, $9, $10, $11, $12)
            RETURNING id";

pub const INSERT_EVENT_SQL: &'static str = "INSERT INTO run_events(
                trace_segment_id, project_name, run_id, trace_id, span_id,
                event_type, event_time_unix_nano, row_index, idempotency_key
            )
            VALUES ($1, $2, $3, $4, $5, $6, $7, $8, $9)
            ON CONFLICT (project_name, idempotency_key) DO NOTHING
            RETURNING id";

pub const INSERT_SPAN_SQL: &'static str = "INSERT INTO trace_segment_spans(
                trace_segment_id, project_name, run_id, trace_id, span_id,
                parent_run_id, parent_span_id,
                name, run_type, start_time_unix_nano, end_time_unix_nano,
                status_code, status, is_root, row_index, event_type, event_time_unix_nano
            )
            VALUES ($1, $2, $3, $4, $5, $6, $7, $8, $9, $10, $11, $12, $13, $14, $15, $16, $17)";

pub const UPSERT_HEAD_SQL: &'static str = "INSERT INTO run_heads(
                project_name, run_id, generated_run_id,
                trace_id, span_id, parent_run_id, parent_span_id,
                name, run_type,
                start_time_unix_nano, end_time_unix_nano, status_code, status, is_root,
                root_run_id, root_span_id, latency_nanos,
                prompt_tokens, completion_tokens, total_tokens,
                prompt_cost, completion_cost, total_cost,
                first_token_latency_nanos, evaluator_score,
                model_name, provider_name,
                last_trace_segment_id, last_row_index,
                last_event_type, last_event_time_unix_nano, last_run_event_id, updated_at
            )
            VALUES (
                $1, $2, $3, $4, $5, $6, $7, $8, $9, $10, $11, $12, $13,
                $14, $15, $16, $17, $18, $19, $20, $21, $22, $23, $24, $25,
                $26, $27, $28, $29, $30, $31, $32, CURRENT_TIMESTAMP
            )
            ON CONFLICT (project_name, trace_id, span_id)
            DO UPDATE SET
                run_id = EXCLUDED.run_id,
                generated_run_id = EXCLUDED.generated_run_id,
                parent_run_id = EXCLUDED.parent_run_id,
                parent_span_id = EXCLUDED.parent_span_id,
                name = EXCLUDED.name,
                run_type = EXCLUDED.run_type,
                start_time_unix_nano = EXCLUDED.start_time_unix_nano,
                end_time_unix_nano = EXCLUDED.end_time_unix_nano,
                status_code = EXCLUDED.status_code,
                status = EXCLUDED.status,
                is_root = EXCLUDED.is_root,
                root_run_id = EXCLUDED.root_run_id,
                root_span_id = EXCLUDED.root_span_id,
                latency_nanos = EXCLUDED.latency_nanos,
                prompt_tokens = EXCLUDED.prompt_tokens,
                completion_tokens = EXCLUDED.completion_tokens,
                total_tokens = EXCLUDED.total_tokens,
                prompt_cost = EXCLUDED.prompt_cost,
                completion_cost = EXCLUDED.completion_cost,
                total_cost = EXCLUDED.total_cost,
                first_token_latency_nanos = EXCLUDED.first_token_latency_nanos,
                evaluator_score = EXCLUDED.evaluator_score,
                model_name = EXCLUDED.model_name,
                provider_name = EXCLUDED.provider_name,
                last_trace_segment_id = EXCLUDED.last_trace_segment_id,
                last_row_index = EXCLUDED.last_row_index,
                last_event_type = EXCLUDED.last_event_type,
                last_event_time_unix_nano = EXCLUDED.last_event_time_unix_nano,
                last_run_event_id = EXCLUDED.last_run_event_id,
                deleted_at_unix_nano = NULL,
                deletion_reason = NULL,
                updated_at = CURRENT_TIMESTAMP
            WHERE run_heads.last_event_time_unix_nano < EXCLUDED.last_event_time_unix_nano
                OR (
                    run_heads.last_event_time_unix_nano = EXCLUDED.last_event_time_unix_nano
                    AND COALESCE(run_heads.last_run_event_id, 0) <= EXCLUDED.last_run_event_id
                )";

pub const UPSERT_RUN_LOCATOR_SQL: &'static str = "INSERT INTO run_locators(
                project_name, run_id, generated_run_id, trace_id, span_id,
                trace_segment_id, row_index, event_type, event_time_unix_nano, run_event_id
            )
            VALUES ($1, $2, $3, $4, $5, $6, $7, $8, $9, $10)
            ON CONFLICT (project_name, trace_id, span_id)
            DO UPDATE SET
                run_id = EXCLUDED.run_id,
                generated_run_id = EXCLUDED.generated_run_id,
                trace_segment_id = EXCLUDED.trace_segment_id,
                row_index = EXCLUDED.row_index,
                event_type = EXCLUDED.event_type,
                event_time_unix_nano = EXCLUDED.event_time_unix_nano,
                run_event_id = EXCLUDED.run_event_id,
                updated_at = CURRENT_TIMESTAMP
            WHERE run_locators.event_time_unix_nano < EXCLUDED.event_time_unix_nano
                OR (
                    run_locators.event_time_unix_nano = EXCLUDED.event_time_unix_nano
                    AND COALESCE(run_locators.run_event_id, 0) <= EXCLUDED.run_event_id
                )";

pub const UPSERT_TRACE_LOCATOR_SQL: &'static str = "INSERT INTO trace_locators(
                project_name, trace_id, span_id, trace_segment_id, row_index,
                event_type, event_time_unix_nano, run_event_id
            )
            VALUES ($1, $2, $3, $4, $5, $6, $7, $8)
            ON CONFLICT (project_name, trace_id, span_id)
            DO UPDATE SET
                trace_segment_id = EXCLUDED.trace_segment_id,
                row_index = EXCLUDED.row_index,
                event_type = EXCLUDED.event_type,
                event_time_unix_nano = EXCLUDED.event_time_unix_nano,
                run_event_id = EXCLUDED.run_event_id,
                updated_at = CURRENT_TIMESTAMP
            WHERE trace_locators.event_time_unix_nano < EXCLUDED.event_time_unix_nano
                OR (
                    trace_locators.event_time_unix_nano = EXCLUDED.event_time_unix_nano
                    AND COALESCE(trace_locators.run_event_id, 0) <= EXCLUDED.run_event_id
                )";

/// The objects of a segment, as they were written.
#[derive(Debug, PartialEq, Eq)]
pub struct SegmentObject {
    pub segment_uri: String,
    pub etag: String,
    pub total_bytes: i64,
    pub schema_version: i64,
    pub search_index_uri: String,
    pub search_index_bytes: i64,
    pub search_index_schema_version: i64,
}

/// When the first of the records started.
pub open spec fn first_start(records: Seq<SpanRecord>) -> i64 {
    least(records.map_values(|record: SpanRecord| record.start_time_unix_nano))
}

/// When the last of the records ended.
pub open spec fn last_end(records: Seq<SpanRecord>) -> i64 {
    greatest(records.map_values(|record: SpanRecord| record.end_time_unix_nano))
}

fn find_first_start(records: &Vec<SpanRecord>) -> (r: i64)
    requires
        records@.len() > 0,
    ensures
        r == first_start(records@),
{
    let ghost wanted = records@.map_values(|record: SpanRecord| record.start_time_unix_nano);
    let mut times: Vec<i64> = Vec::new();
    let mut i: usize = 0;
    while i < records.len()
        invariant
            i <= records.len(),
            wanted == records@.map_values(|record: SpanRecord| record.start_time_unix_nano),
            times@ =~= wanted.take(i as int),
        decreases records.len() - i,
    {
        times.push(records[i].start_time_unix_nano);
        i += 1;
    }
    assert(times@ =~= wanted);
    least_of(&times)
}

fn find_last_end(records: &Vec<SpanRecord>) -> (r: i64)
    requires
        records@.len() > 0,
    ensures
        r == last_end(records@),
{
    let ghost wanted = records@.map_values(|record: SpanRecord| record.end_time_unix_nano);
    let mut times: Vec<i64> = Vec::new();
    let mut i: usize = 0;
    while i < records.len()
        invariant
            i <= records.len(),
            wanted == records@.map_values(|record: SpanRecord| record.end_time_unix_nano),
            times@ =~= wanted.take(i as int),
        decreases records.len() - i,
    {
        times.push(records[i].end_time_unix_nano);
        i += 1;
    }
    assert(times@ =~= wanted);
    greatest_of(&times)
}

/// The statement that adds a segment.
pub open spec fn segment_call(
    partition: Partition,
    object: SegmentObject,
    records: Seq<SpanRecord>,
) -> Call {
    call("insert trace segment"@, INSERT_SEGMENT_SQL@).text(records[0].project_name@).text(
        object.segment_uri@,
    ).text(object.etag@).integer(object.total_bytes as int).integer(records.len() as int).integer(
        first_start(records) as int,
    ).integer(last_end(records) as int).integer(partition.hour as int).integer(
        object.schema_version as int,
    ).text(object.search_index_uri@).integer(object.search_index_bytes as int).integer(
        object.search_index_schema_version as int,
    )
}

/// The statement that adds the event of a record.
pub open spec fn event_call(segment_id: i64, row: int, record: SpanRecord) -> Call {
    call("insert run event"@, INSERT_EVENT_SQL@).integer(segment_id as int).text(
        record.project_name@,
    ).text(record.run_id@).text(record.trace_id@).text(record.span_id@).text(
        record.event_kind.word(),
    ).integer(event_time(record) as int).integer(row).text(record_key(record))
}

/// The statement that adds the span of a record.
pub open spec fn span_call(segment_id: i64, row: int, record: SpanRecord) -> Call {
    call("insert trace segment span"@, INSERT_SPAN_SQL@).integer(segment_id as int).text(
        record.project_name@,
    ).text(record.run_id@).text(record.trace_id@).text(record.span_id@).optional_text(
        opt_text(record.parent_run_id),
    ).optional_text(opt_text(record.parent_span_id)).text(record.name@).text(
        record.run_type@,
    ).integer(record.start_time_unix_nano as int).integer(record.end_time_unix_nano as int).small(
        record.status_code as int,
    ).text(status_of(record.status_code, record.end_time_unix_nano)).flag(
        record.parent_span_id is None,
    ).integer(row).text(record.event_kind.word()).integer(event_time(record) as int)
}

/// The id that a record's run is generated.
pub open spec fn record_generated_id(record: SpanRecord) -> Seq<char> {
    generated_id(record.project_name@, record.trace_id@, record.span_id@)
}

/// The statement that brings the head of a run up to date, unless a later event did.
pub open spec fn upsert_head_call(
    segment_id: i64,
    row: int,
    record: SpanRecord,
    event_id: i64,
    indexes: Indexes,
) -> Call {
    call("upsert run head"@, UPSERT_HEAD_SQL@).text(record.project_name@).text(
        record.run_id@,
    ).text(record_generated_id(record)).text(record.trace_id@).text(record.span_id@).optional_text(
        opt_text(record.parent_run_id),
    ).optional_text(opt_text(record.parent_span_id)).text(record.name@).text(
        record.run_type@,
    ).integer(record.start_time_unix_nano as int).integer(record.end_time_unix_nano as int).small(
        record.status_code as int,
    ).text(status_of(record.status_code, record.end_time_unix_nano)).flag(
        record.parent_span_id is None,
    ).text(indexes.root_run_id).text(indexes.root_span_id).integer(
        indexes.metrics.latency_nanos as int,
    ).optional_integer(indexes.metrics.prompt_tokens).optional_integer(
        indexes.metrics.completion_tokens,
    ).optional_integer(indexes.metrics.total_tokens).optional_float(
        indexes.metrics.prompt_cost,
    ).optional_float(indexes.metrics.completion_cost).cost(
        indexes.metrics.total_cost,
    ).optional_integer(indexes.metrics.first_token_latency_nanos).optional_float(
        indexes.metrics.evaluator_score,
    ).optional_text(
        indexes.metrics.model_name,
    ).optional_text(indexes.metrics.provider_name).integer(segment_id as int).integer(row).text(
        record.event_kind.word(),
    ).integer(event_time(record) as int).integer(event_id as int)
}

/// The statement that brings the locator of a run up to date, unless a later event
/// did.
pub open spec fn run_locator_call(
    segment_id: i64,
    row: int,
    record: SpanRecord,
    event_id: i64,
) -> Call {
    call("upsert run locator"@, UPSERT_RUN_LOCATOR_SQL@).text(record.project_name@).text(
        record.run_id@,
    ).text(record_generated_id(record)).text(record.trace_id@).text(record.span_id@).integer(
        segment_id as int,
    ).integer(row).text(record.event_kind.word()).integer(event_time(record) as int).integer(
        event_id as int,
    )
}

/// The statement that brings the locator of a run in its trace up to date, unless a
/// later event did.
pub open spec fn trace_locator_call(
    segment_id: i64,
    row: int,
    record: SpanRecord,
    event_id: i64,
) -> Call {
    call("upsert trace locator"@, UPSERT_TRACE_LOCATOR_SQL@).text(record.project_name@).text(
        record.trace_id@,
    ).text(record.span_id@).integer(segment_id as int).integer(row).text(
        record.event_kind.word(),
    ).integer(event_time(record) as int).integer(event_id as int)
}

fn segment_statement(
    partition: &PartitionKey,
    object: &SegmentObject,
    records: &Vec<SpanRecord>,
) -> (r: Statement)
    requires
        0 < records@.len() <= i64::MAX,
    ensures
        r@ == segment_call(partition@, *object, records@),
{
    Statement::new("insert trace segment", INSERT_SEGMENT_SQL).text(
        records[0].project_name.as_str(),
    ).text(object.segment_uri.as_str()).text(object.etag.as_str()).integer(
        object.total_bytes,
    ).integer(records.len() as i64).integer(find_first_start(records)).integer(
        find_last_end(records),
    ).integer(partition.time_bucket_start_unix_nano).integer(object.schema_version).text(
        object.search_index_uri.as_str(),
    ).integer(object.search_index_bytes).integer(object.search_index_schema_version)
}

fn event_statement(segment_id: i64, row: i64, record: &SpanRecord) -> (r: Statement)
    ensures
        r@ == event_call(segment_id, row as int, *record),
{
    Statement::new("insert run event", INSERT_EVENT_SQL).integer(segment_id).text(
        record.project_name.as_str(),
    ).text(record.run_id.as_str()).text(record.trace_id.as_str()).text(
        record.span_id.as_str(),
    ).text(record.event_kind.as_str()).integer(event_time_unix_nano(record)).integer(row).text(
        run_event_idempotency_key(record).as_str(),
    )
}

fn span_statement(segment_id: i64, row: i64, record: &SpanRecord) -> (r: Statement)
    ensures
        r@ == span_call(segment_id, row as int, *record),
{
    Statement::new("insert trace segment span", INSERT_SPAN_SQL).integer(segment_id).text(
        record.project_name.as_str(),
    ).text(record.run_id.as_str()).text(record.trace_id.as_str()).text(
        record.span_id.as_str(),
    ).optional_text(&record.parent_run_id).optional_text(&record.parent_span_id).text(
        record.name.as_str(),
    ).text(record.run_type.as_str()).integer(record.start_time_unix_nano).integer(
        record.end_time_unix_nano,
    ).small(record.status_code).text(status_from_record(record)).flag(
        record.parent_span_id.is_none(),
    ).integer(row).text(record.event_kind.as_str()).integer(event_time_unix_nano(record))
}

fn generated_id_of(record: &SpanRecord) -> (r: String)
    ensures
        r@ == record_generated_id(*record),
{
    generated_run_id(
        record.project_name.as_str(),
        record.trace_id.as_str(),
        record.span_id.as_str(),
    )
}

fn head_statement(
    segment_id: i64,
    row: i64,
    record: &SpanRecord,
    event_id: i64,
    indexes: &ScalarIndexes,
) -> (r: Statement)
    ensures
        r@ == upsert_head_call(segment_id, row as int, *record, event_id, indexes@),
{
    let metrics = &indexes.metrics;
    Statement::new("upsert run head", UPSERT_HEAD_SQL).text(record.project_name.as_str()).text(
        record.run_id.as_str(),
    ).text(generated_id_of(record).as_str()).text(record.trace_id.as_str()).text(
        record.span_id.as_str(),
    ).optional_text(&record.parent_run_id).optional_text(&record.parent_span_id).text(
        record.name.as_str(),
    ).text(record.run_type.as_str()).integer(record.start_time_unix_nano).integer(
        record.end_time_unix_nano,
    ).small(record.status_code).text(status_from_record(record)).flag(
        record.parent_span_id.is_none(),
    ).text(indexes.root_run_id.as_str()).text(indexes.root_span_id.as_str()).integer(
        metrics.latency_nanos,
    ).optional_integer(metrics.prompt_tokens).optional_integer(
        metrics.completion_tokens,
    ).optional_integer(metrics.total_tokens).optional_float(metrics.prompt_cost).optional_float(
        metrics.completion_cost,
    ).cost(metrics.total_cost).optional_integer(metrics.first_token_latency_nanos).optional_float(
        metrics.evaluator_score,
    ).optional_text(
        &metrics.model_name,
    ).optional_text(&metrics.provider_name).integer(segment_id).integer(row).text(
        record.event_kind.as_str(),
    ).integer(event_time_unix_nano(record)).integer(event_id)
}

fn run_locator_upsert(segment_id: i64, row: i64, record: &SpanRecord, event_id: i64) -> (r:
    Statement)
    ensures
        r@ == run_locator_call(segment_id, row as int, *record, event_id),
{
    Statement::new("upsert run locator", UPSERT_RUN_LOCATOR_SQL).text(
        record.project_name.as_str(),
    ).text(record.run_id.as_str()).text(generated_id_of(record).as_str()).text(
        record.trace_id.as_str(),
    ).text(record.span_id.as_str()).integer(segment_id).integer(row).text(
        record.event_kind.as_str(),
    ).integer(event_time_unix_nano(record)).integer(event_id)
}

fn trace_locator_upsert(segment_id: i64, row: i64, record: &SpanRecord, event_id: i64) -> (r:
    Statement)
    ensures
        r@ == trace_locator_call(segment_id, row as int, *record, event_id),
{
    Statement::new("upsert trace locator", UPSERT_TRACE_LOCATOR_SQL).text(
        record.project_name.as_str(),
    ).text(record.trace_id.as_str()).text(record.span_id.as_str()).integer(segment_id).integer(
        row,
    ).text(record.event_kind.as_str()).integer(event_time_unix_nano(record)).integer(event_id)
}

/// Which step comes next.
#[derive(Debug, Clone, Copy, PartialEq, Eq, Structural)]
pub enum MetadataStage {
    Project,
    Lock,
    Segment,
    Event,
    Parent,
    Span,
    Head,
    Indexes,
    Refresh,
    RunLocator,
    TraceLocator,
    Route,
    Written,
    Duplicate,
    Failed,
}

/// What to do next.
#[derive(Debug, PartialEq, Eq)]
pub enum MetadataAction {
    Execute(Statement),
    ExecuteAll(Vec<Statement>),
    /// Ask for an id, which there may not be.
    QueryId(Statement),
    QueryParent(Statement),
    /// Bring the tree, the threads and the rollups of a trace up to date.
    Refresh { project_name: String, trace_id: String, start_time_unix_nano: i64 },
    /// All is written; or nothing counts, because an event was there already.
    Finished(bool),
    Failed(String),
}

/// What a [`MetadataAction`] holds.
pub enum Action {
    Execute(Call),
    ExecuteAll(Seq<Call>),
    QueryId(Call),
    QueryParent(Call),
    Refresh { project_name: Seq<char>, trace_id: Seq<char>, start: i64 },
    Finished(bool),
    Failed(Seq<char>),
}

impl View for MetadataAction {
    type V = Action;

    open spec fn view(&self) -> Action {
        match *self {
            MetadataAction::Execute(statement) => Action::Execute(statement@),
            MetadataAction::ExecuteAll(statements) => Action::ExecuteAll(calls_of(statements@)),
            MetadataAction::QueryId(statement) => Action::QueryId(statement@),
            MetadataAction::QueryParent(statement) => Action::QueryParent(statement@),
            MetadataAction::Refresh { project_name, trace_id, start_time_unix_nano } =>
                Action::Refresh {
                project_name: project_name@,
                trace_id: trace_id@,
                start: start_time_unix_nano,
            },
            MetadataAction::Finished(written) => Action::Finished(written),
            MetadataAction::Failed(message) => Action::Failed(message@),
        }
    }
}

/// What came back from a step.
#[derive(Debug, PartialEq, Eq)]
pub enum MetadataReply {
    Done,
    /// How many rows a statement changed.
    Affected(u64),
    Id(Option<i64>),
    Parent(Option<ParentHead>),
}

/// The metadata of a segment on their way into the database.
pub struct MetadataWriter {
    pub partition: PartitionKey,
    pub object: SegmentObject,
    pub node_id: Option<String>,
    pub records: Vec<SpanRecord>,
    pub readings: FloatReadings,
    pub stage: MetadataStage,
    /// Whether the project is locked, so that no other writer brings its trees,
    /// threads and rollups up to date at the same time.
    pub locked: bool,
    pub row: usize,
    pub segment_id: i64,
    pub event_id: i64,
    pub indexes: Option<ScalarIndexes>,
    pub error: String,
}

/// Whether a step is about one record.
pub open spec fn about_record(stage: MetadataStage) -> bool {
    ||| stage == MetadataStage::Event
    ||| stage == MetadataStage::Parent
    ||| after_lookup(stage)
}

/// Whether a step comes after what a record is found by was told.
pub open spec fn after_lookup(stage: MetadataStage) -> bool {
    ||| stage == MetadataStage::Span
    ||| stage == MetadataStage::Head
    ||| stage == MetadataStage::Indexes
    ||| stage == MetadataStage::Refresh
    ||| stage == MetadataStage::RunLocator
    ||| stage == MetadataStage::TraceLocator
}

/// Whether a step comes once the project is locked.
pub open spec fn comes_locked(stage: MetadataStage) -> bool {
    stage != MetadataStage::Project && stage != MetadataStage::Lock
}

/// Whether a reply answers a step.
pub open spec fn answers_stage(stage: MetadataStage, reply: MetadataReply) -> bool {
    match stage {
        MetadataStage::Segment => reply matches MetadataReply::Id(Some(_)),
        MetadataStage::Event => reply is Id,
        MetadataStage::Parent => reply is Parent,
        MetadataStage::Head => reply is Affected,
        MetadataStage::Written => false,
        MetadataStage::Duplicate => false,
        MetadataStage::Failed => false,
        _ => reply is Done,
    }
}

impl MetadataWriter {
    /// Whether the writer is about a record that there is, and has written all of them
    /// when it says so.
    pub open spec fn is_valid(self) -> bool {
        &&& 0 < self.records@.len() <= i64::MAX
        &&& self.row <= self.records@.len()
        &&& self.locked == comes_locked(self.stage)
        &&& about_record(self.stage) ==> self.row < self.records@.len()
        &&& self.stage == MetadataStage::Parent ==> self.records@[
            self.row as int
        ].parent_span_id is Some
        &&& after_lookup(self.stage) ==> self.indexes is Some
        &&& (self.stage == MetadataStage::Route || self.stage == MetadataStage::Written)
            ==> self.row == self.records@.len()
        &&& self.stage == MetadataStage::Route ==> self.node_id is Some
    }

    pub open spec fn record(self) -> SpanRecord {
        self.records@[self.row as int]
    }

    /// What is to be done.
    pub open spec fn next(self) -> Action {
        match self.stage {
            MetadataStage::Project => Action::Execute(
                call("upsert project"@, ENSURE_PROJECT_SQL@).text(
                    self.records@[0].project_name@,
                ),
            ),
            MetadataStage::Lock => Action::Execute(
                project_lock_call(self.records@[0].project_name@),
            ),
            MetadataStage::Segment => Action::QueryId(
                segment_call(self.partition@, self.object, self.records@),
            ),
            MetadataStage::Event => Action::QueryId(
                event_call(self.segment_id, self.row as int, self.record()),
            ),
            MetadataStage::Parent => Action::QueryParent(
                call("load parent root locator"@, PARENT_ROOT_SQL@).text(
                    self.record().project_name@,
                ).text(self.record().trace_id@).text(self.record().parent_span_id->0@),
            ),
            MetadataStage::Span => Action::Execute(
                span_call(self.segment_id, self.row as int, self.record()),
            ),
            MetadataStage::Head => Action::Execute(
                upsert_head_call(
                    self.segment_id,
                    self.row as int,
                    self.record(),
                    self.event_id,
                    self.indexes->0@,
                ),
            ),
            MetadataStage::Indexes => Action::ExecuteAll(
                replace_indexes_calls(
                    self.record(),
                    self.indexes->0@.tags,
                    self.indexes->0@.metadata,
                ).push(preview_call(self.record())),
            ),
            MetadataStage::Refresh => Action::Refresh {
                project_name: self.record().project_name@,
                trace_id: self.record().trace_id@,
                start: self.record().start_time_unix_nano,
            },
            MetadataStage::RunLocator => Action::Execute(
                run_locator_call(
                    self.segment_id,
                    self.row as int,
                    self.record(),
                    self.event_id,
                ),
            ),
            MetadataStage::TraceLocator => Action::Execute(
                trace_locator_call(
                    self.segment_id,
                    self.row as int,
                    self.record(),
                    self.event_id,
                ),
            ),
            MetadataStage::Route => Action::Execute(
                record_route_call(
                    self.records@[0].project_name@,
                    self.node_id->0@,
                    self.object.segment_uri@,
                ),
            ),
            MetadataStage::Written => Action::Finished(true),
            MetadataStage::Duplicate => Action::Finished(false),
            MetadataStage::Failed => Action::Failed(self.error@),
        }
    }

    /// The metadata of a segment, none of them written.
    pub fn new(
        partition: PartitionKey,
        object: SegmentObject,
        node_id: Option<String>,
        records: Vec<SpanRecord>,
        readings: FloatReadings,
    ) -> (r: Result<Self, String>)
        requires
            records@.len() <= i64::MAX,
        ensures
            match r {
                Ok(writer) => {
                    &&& records@.len() > 0
                    &&& writer.is_valid()
                    &&& writer.stage == MetadataStage::Project
                    &&& writer.row == 0
                    &&& writer.partition@ == partition@
                    &&& writer.object == object
                    &&& writer.node_id == node_id
                    &&& writer.records@ == records@
                    &&& writer.readings@ == readings@
                },
                Err(message) => records@.len() == 0 && message@ == "cannot persist empty segment"@,
            },
    {
        if records.len() == 0 {
            return Err("cannot persist empty segment".to_owned());
        }
        Ok(
            MetadataWriter {
                partition,
                object,
                node_id,
                records,
                readings,
                stage: MetadataStage::Project,
                locked: false,
                row: 0,
                segment_id: 0,
                event_id: 0,
                indexes: None,
                error: String::new(),
            },
        )
    }

    /// What is to be done.
    pub fn action(&self) -> (r: MetadataAction)
        requires
            self.is_valid(),
        ensures
            r@ == self.next(),
    {
        match self.stage {
            MetadataStage::Project => MetadataAction::Execute(
                Statement::new("upsert project", ENSURE_PROJECT_SQL).text(
                    self.records[0].project_name.as_str(),
                ),
            ),
            MetadataStage::Lock => MetadataAction::Execute(
                project_lock_statement(self.records[0].project_name.as_str()),
            ),
            MetadataStage::Segment => MetadataAction::QueryId(
                segment_statement(&self.partition, &self.object, &self.records),
            ),
            MetadataStage::Event => MetadataAction::QueryId(
                event_statement(self.segment_id, self.row as i64, &self.records[self.row]),
            ),
            MetadataStage::Parent => match parent_head_statement(&self.records[self.row]) {
                Some(statement) => MetadataAction::QueryParent(statement),
                None => MetadataAction::Finished(false),
            },
            MetadataStage::Span => MetadataAction::Execute(
                span_statement(self.segment_id, self.row as i64, &self.records[self.row]),
            ),
            MetadataStage::Head => match &self.indexes {
                Some(indexes) => MetadataAction::Execute(
                    head_statement(
                        self.segment_id,
                        self.row as i64,
                        &self.records[self.row],
                        self.event_id,
                        indexes,
                    ),
                ),
                None => MetadataAction::Finished(false),
            },
            MetadataStage::Indexes => match &self.indexes {
                Some(indexes) => {
                    let record = &self.records[self.row];
                    let mut statements = replace_indexes_statements(record, indexes);
                    push_statement(&mut statements, run_preview_statement(record));
                    MetadataAction::ExecuteAll(statements)
                },
                None => MetadataAction::Finished(false),
            },
            MetadataStage::Refresh => MetadataAction::Refresh {
                project_name: self.records[self.row].project_name.clone(),
                trace_id: self.records[self.row].trace_id.clone(),
                start_time_unix_nano: self.records[self.row].start_time_unix_nano,
            },
            MetadataStage::RunLocator => MetadataAction::Execute(
                run_locator_upsert(
                    self.segment_id,
                    self.row as i64,
                    &self.records[self.row],
                    self.event_id,
                ),
            ),
            MetadataStage::TraceLocator => MetadataAction::Execute(
                trace_locator_upsert(
                    self.segment_id,
                    self.row as i64,
                    &self.records[self.row],
                    self.event_id,
                ),
            ),
            MetadataStage::Route => match &self.node_id {
                Some(node_id) => MetadataAction::Execute(
                    record_project_route_statement(
                        self.records[0].project_name.as_str(),
                        node_id.as_str(),
                        self.object.segment_uri.as_str(),
                    ),
                ),
                None => MetadataAction::Finished(false),
            },
            MetadataStage::Written => MetadataAction::Finished(true),
            MetadataStage::Duplicate => MetadataAction::Finished(false),
            MetadataStage::Failed => MetadataAction::Failed(self.error.clone()),
        }
    }

    /// Whether what does not change did not.
    pub open spec fn same_job(self, other: Self) -> bool {
        &&& self.partition == other.partition
        &&& self.object == other.object
        &&& self.node_id == other.node_id
        &&& self.records@ == other.records@
        &&& self.readings@ == other.readings@
    }

    /// Whether the record is told what it is found by: its span comes next, unless its
    /// attributes are no JSON.
    pub open spec fn looked_up(self, before: Self, parent: Option<ParentHead>) -> bool {
        let record = before.record();
        match json_reading(record.attributes_json@) {
            Some(value) => {
                &&& self.stage == MetadataStage::Span
                &&& self.indexes is Some
                &&& self.indexes->0@ == indexes_in(
                    value,
                    record,
                    root_of(record, parent),
                    before.readings@,
                )
            },
            None => {
                &&& self.stage == MetadataStage::Failed
                &&& self.error@ == "parse attributes_json for scalar indexes"@
            },
        }
    }

    /// Whether the next record comes, or the end.
    pub open spec fn moved_on(self, before: Self) -> bool {
        &&& self.row == before.row + 1
        &&& self.segment_id == before.segment_id
        &&& self.stage == if before.row + 1 < before.records@.len() {
            MetadataStage::Event
        } else if before.node_id is Some {
            MetadataStage::Route
        } else {
            MetadataStage::Written
        }
    }

    /// Whether the step of the writer is the one that follows a reply.
    pub open spec fn follows(self, before: Self, reply: MetadataReply) -> bool {
        match before.stage {
            MetadataStage::Project => self.stage == MetadataStage::Lock && self.row == before.row,
            MetadataStage::Lock => self.stage == MetadataStage::Segment && self.row == before.row,
            MetadataStage::Segment => {
                &&& self.stage == MetadataStage::Event
                &&& self.row == 0
                &&& reply == MetadataReply::Id(Some(self.segment_id))
            },
            MetadataStage::Event => {
                &&& self.row == before.row
                &&& self.segment_id == before.segment_id
                &&& match reply {
                    MetadataReply::Id(Some(id)) => {
                        &&& self.event_id == id
                        &&& if before.record().parent_span_id is Some {
                            self.stage == MetadataStage::Parent
                        } else {
                            self.looked_up(before, None)
                        }
                    },
                    _ => self.stage == MetadataStage::Duplicate,
                }
            },
            MetadataStage::Parent => {
                &&& self.row == before.row
                &&& self.segment_id == before.segment_id
                &&& self.event_id == before.event_id
                &&& reply matches MetadataReply::Parent(parent) && self.looked_up(before, parent)
            },
            MetadataStage::TraceLocator => self.moved_on(before),
            MetadataStage::Route => self.stage == MetadataStage::Written && self.row
                == before.row,
            _ => {
                &&& self.row == before.row
                &&& self.segment_id == before.segment_id
                &&& self.event_id == before.event_id
                &&& self.indexes == before.indexes
                &&& self.stage == match before.stage {
                    MetadataStage::Span => MetadataStage::Head,
                    MetadataStage::Head => if reply matches MetadataReply::Affected(n) && n > 0 {
                        MetadataStage::Indexes
                    } else {
                        MetadataStage::RunLocator
                    },
                    MetadataStage::Indexes => MetadataStage::Refresh,
                    MetadataStage::Refresh => MetadataStage::RunLocator,
                    MetadataStage::RunLocator => MetadataStage::TraceLocator,
                    _ => before.stage,
                }
            },
        }
    }

    fn look_up(&mut self, parent: &Option<ParentHead>)
        requires
            old(self).row < old(self).records@.len(),
        ensures
            final(self).same_job(*old(self)),
            final(self).row == old(self).row,
            final(self).segment_id == old(self).segment_id,
            final(self).event_id == old(self).event_id,
            final(self).locked == old(self).locked,
            final(self).looked_up(*old(self), *parent),
    {
        let root = root_locator_for_record(&self.records[self.row], parent);
        match ScalarIndexes::from_record(&self.records[self.row], root, &self.readings) {
            Ok(indexes) => {
                self.indexes = Some(indexes);
                self.stage = MetadataStage::Span;
            },
            Err(message) => {
                self.error = message;
                self.stage = MetadataStage::Failed;
            },
        }
    }

    /// Goes on to the step that follows a reply.
    pub fn advance(&mut self, reply: MetadataReply)
        requires
            old(self).is_valid(),
            answers_stage(old(self).stage, reply),
        ensures
            final(self).is_valid(),
            final(self).same_job(*old(self)),
            final(self).follows(*old(self), reply),
    {
        match self.stage {
            MetadataStage::Project => {
                self.stage = MetadataStage::Lock;
            },
            MetadataStage::Lock => {
                self.locked = true;
                self.stage = MetadataStage::Segment;
            },
            MetadataStage::Segment => {
                if let MetadataReply::Id(Some(id)) = reply {
                    self.segment_id = id;
                    self.row = 0;
                    self.stage = MetadataStage::Event;
                }
            },
            MetadataStage::Event => {
                match reply {
                    MetadataReply::Id(Some(id)) => {
                        self.event_id = id;
                        if self.records[self.row].parent_span_id.is_some() {
                            self.stage = MetadataStage::Parent;
                        } else {
                            self.look_up(&None);
                        }
                    },
                    _ => {
                        self.stage = MetadataStage::Duplicate;
                    },
                }
            },
            MetadataStage::Parent => {
                if let MetadataReply::Parent(parent) = reply {
                    self.look_up(&parent);
                }
            },
            MetadataStage::Span => {
                self.stage = MetadataStage::Head;
            },
            MetadataStage::Head => {
                let changed = match reply {
                    MetadataReply::Affected(n) => n > 0,
                    _ => false,
                };
                if changed {
                    self.stage = MetadataStage::Indexes;
                } else {
                    self.stage = MetadataStage::RunLocator;
                }
            },
            MetadataStage::Indexes => {
                self.stage = MetadataStage::Refresh;
            },
            MetadataStage::Refresh => {
                self.stage = MetadataStage::RunLocator;
            },
            MetadataStage::RunLocator => {
                self.stage = MetadataStage::TraceLocator;
            },
            MetadataStage::TraceLocator => {
                let count: usize = self.records.len();
                self.row = self.row + 1;
                if self.row < count {
                    self.stage = MetadataStage::Event;
                } else if self.node_id.is_some() {
                    self.stage = MetadataStage::Route;
                } else {
                    self.stage = MetadataStage::Written;
                }
            },
            MetadataStage::Route => {
                self.stage = MetadataStage::Written;
            },
            _ => {},
        }
    }
}

/// A segment is said to be written only when the last of its records is through, and
/// one event that was there already is enough for it not to count.
pub proof fn law_all_records_or_none(
    before: MetadataWriter,
    after: MetadataWriter,
    reply: MetadataReply,
)
    requires
        before.is_valid(),
        answers_stage(before.stage, reply),
        after.is_valid(),
        after.same_job(before),
        after.follows(before, reply),
    ensures
        after.next() == Action::Finished(true) ==> after.row == after.records@.len(),
        before.stage == MetadataStage::Event && reply == MetadataReply::Id(None) ==> after.next()
            == Action::Finished(false),
        after.next() == Action::Finished(false) ==> before.stage == MetadataStage::Event && reply
            == MetadataReply::Id(None),
{
}

/// A writer brings nothing up to date before it has locked the project, which is the
/// first thing that it does once the project is there.
pub proof fn law_refresh_is_locked(writer: MetadataWriter)
    requires
        writer.is_valid(),
    ensures
        writer.next() is Refresh ==> writer.locked,
        !writer.locked ==> writer.stage == MetadataStage::Project || writer.next()
            == Action::Execute(project_lock_call(writer.records@[0].project_name@)),
{
}

} // verus!
