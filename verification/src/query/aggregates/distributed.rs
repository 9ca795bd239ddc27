//! Aggregates whose segments are shared out among workers.

use crate::query::Query;
use crate::query::RunKey;
use crate::query::RunQuery;
use crate::query::aggregates::RunAggregateQuery;
use crate::query::aggregates::RunAggregateSource;
use crate::query::aggregates::grouping::RunAggregateRow;
use crate::query::aggregates::grouping::RunFeedback;
use crate::query::aggregates::grouping::RunTag;
use crate::query::aggregates::grouping::aggregate_rows;
use crate::query::aggregates::grouping::are_aggregates_of;
use crate::query::aggregates::grouping::buckets_fit;
use crate::query::aggregates::grouping::counted_runs;
use crate::query::aggregates::scan::ScannedRun;
use crate::query::aggregates::scan::candidate_runs;
use crate::query::aggregates::scan::keep_candidates;
use crate::query::aggregates::scan::rows_of_scan;
use crate::query::aggregates::scan::scanned_rows;
use crate::query::distributed::DistributedQueryConfig;
use crate::query::distributed::DistributedQueryDiagnostics;
use crate::query::distributed::DistributedQueryPartitionDiagnostics;
use crate::query::distributed::PartitionExecutionResult;
use crate::query::distributed::PlanFigures;
use crate::query::distributed::add_snapshots;
use crate::query::distributed::first_failure;
use crate::query::distributed::gather;
use crate::query::distributed::gathered;
use crate::query::distributed::reads_sum;
use crate::query::distributed::times_fit;
use crate::query::distributed::worker_limit;
use crate::query::distributed::workers_at_once;
use crate::query::keys_of;
use crate::query::scan::ObjectStoreReadSnapshot;
use crate::query::scan::RunQueryDiagnostics;
use crate::query::scan::enforce_runtime_object_store_limits;
use crate::query::scan::runtime_fault;
use crate::time::Duration;
use vstd::prelude::*;

verus! {

/// An aggregate, and what it cost.
#[derive(Debug, PartialEq, Eq)]
pub struct DistributedRunAggregateResult {
    pub rows: Vec<RunAggregateRow>,
    pub diagnostics: RunQueryDiagnostics,
    pub distributed: DistributedQueryDiagnostics,
    pub source: RunAggregateSource,
}

/// How an aggregate was shared out that rollups answered: not at all.
pub fn rollup_distribution(config: &DistributedQueryConfig) -> (r: DistributedQueryDiagnostics)
    ensures
        r.workers_configured == config.worker_count,
        r.partitions_planned == 0,
        r.partitions_executed == 0,
        r.max_in_flight_partitions == config.max_in_flight_partitions,
        !r.load_shed,
        !r.cancelled,
        r.partitions@.len() == 0,
{
    DistributedQueryDiagnostics {
        workers_configured: config.worker_count,
        partitions_planned: 0,
        partitions_executed: 0,
        max_in_flight_partitions: config.max_in_flight_partitions,
        load_shed: false,
        cancelled: false,
        partitions: Vec::new(),
    }
}

/// What the workers gave back together for an aggregate, of the candidates.
#[derive(Debug, PartialEq, Eq)]
pub struct GatheredCandidates {
    pub runs: Vec<ScannedRun>,
    pub partitions: Vec<DistributedQueryPartitionDiagnostics>,
    pub planning_time: Duration,
    pub execution_time: Duration,
    pub reads: ObjectStoreReadSnapshot,
}

/// Why an aggregate is refused once its workers are done: one of them failed, or
/// more was read than the query lets it.
pub open spec fn gathering_fault(
    query: Query,
    results: Seq<Result<PartitionExecutionResult<ScannedRun>, String>>,
    search_index_reads: ObjectStoreReadSnapshot,
) -> Option<Seq<char>> {
    match first_failure(results) {
        Some(message) => Some(message),
        None => runtime_fault(query, reads_sum(gathered(results).reads, search_index_reads)),
    }
}

/// What the workers gave back together for an aggregate, of the candidates.
pub fn gather_candidates(
    query: &RunQuery,
    candidate_run_keys: &Vec<RunKey>,
    results: Vec<Result<PartitionExecutionResult<ScannedRun>, String>>,
    search_index_reads: ObjectStoreReadSnapshot,
) -> (r: Result<GatheredCandidates, String>)
    requires
        times_fit(results@),
        reads_sum(gathered(results@).reads, search_index_reads).requests() <= u64::MAX,
    ensures
        ({
            let all = gathered(results@);
            let fault = gathering_fault(query@, results@, search_index_reads);
            match r {
                Ok(found) => {
                    &&& fault is None
                    &&& found.runs@ == candidate_runs(all.rows, keys_of(candidate_run_keys@))
                    &&& found.partitions@ == all.told
                    &&& found.planning_time.nanos == all.planning
                    &&& found.execution_time.nanos == all.execution
                    &&& found.reads == reads_sum(all.reads, search_index_reads)
                },
                Err(message) => fault == Some(message@),
            }
        }),
{
    let all = match gather(results) {
        Ok(all) => all,
        Err(message) => {
            return Err(message);
        },
    };
    let reads = add_snapshots(all.reads, search_index_reads);
    match enforce_runtime_object_store_limits(query, reads) {
        Ok(_) => {},
        Err(message) => {
            return Err(message);
        },
    }
    Ok(
        GatheredCandidates {
            runs: keep_candidates(all.rows, candidate_run_keys),
            partitions: all.partitions,
            planning_time: all.planning_time,
            execution_time: all.execution_time,
            reads,
        },
    )
}

/// A shared-out aggregate, from the candidates that the workers gave back, with
/// their tags and scores.
pub fn distributed_aggregate_result(
    query: &RunAggregateQuery,
    config: &DistributedQueryConfig,
    figures: PlanFigures,
    found: GatheredCandidates,
    tags: &Vec<RunTag>,
    feedback: &Vec<RunFeedback>,
    postgres_query_time: Duration,
) -> (r: DistributedRunAggregateResult)
    requires
        buckets_fit(rows_of_scan(found.runs@), query@),
        found.reads.requests() <= u64::MAX,
    ensures
        are_aggregates_of(
            r.rows@,
            counted_runs(rows_of_scan(found.runs@), query@, tags@, feedback@),
        ),
        r.diagnostics == (RunQueryDiagnostics {
            candidate_segments: figures.candidate_segments,
            candidate_runs: figures.candidate_runs,
            candidate_bytes: figures.candidate_bytes,
            estimated_object_store_requests: figures.estimated_object_store_requests,
            actual_object_store_requests: found.reads.requests() as u64,
            actual_object_store_bytes_read: found.reads.bytes_read,
            vortex_files_opened: figures.candidate_segments,
            rows_returned: r.rows@.len() as usize,
            postgres_query_time,
            datafusion_planning_time: found.planning_time,
            datafusion_execution_time: found.execution_time,
        }),
        r.distributed.workers_configured == config.worker_count,
        r.distributed.partitions_planned == figures.partitions,
        r.distributed.partitions_executed == found.partitions@.len(),
        r.distributed.max_in_flight_partitions == workers_at_once(*config),
        !r.distributed.load_shed,
        !r.distributed.cancelled,
        r.distributed.partitions@ == found.partitions@,
        r.source == RunAggregateSource::Vortex,
{
    let rows = scanned_rows(found.runs);
    let aggregated = aggregate_rows(&rows, query, tags, feedback);
    let rows_returned = aggregated.len();
    let partitions_executed = found.partitions.len();
    DistributedRunAggregateResult {
        rows: aggregated,
        diagnostics: RunQueryDiagnostics {
            candidate_segments: figures.candidate_segments,
            candidate_runs: figures.candidate_runs,
            candidate_bytes: figures.candidate_bytes,
            estimated_object_store_requests: figures.estimated_object_store_requests,
            actual_object_store_requests: found.reads.request_count(),
            actual_object_store_bytes_read: found.reads.bytes_read,
            vortex_files_opened: figures.candidate_segments,
            rows_returned,
            postgres_query_time,
            datafusion_planning_time: found.planning_time,
            datafusion_execution_time: found.execution_time,
        },
        distributed: DistributedQueryDiagnostics {
            workers_configured: config.worker_count,
            partitions_planned: figures.partitions,
            partitions_executed,
            max_in_flight_partitions: worker_limit(config),
            load_shed: false,
            cancelled: false,
            partitions: found.partitions,
        },
        source: RunAggregateSource::Vortex,
    }
}

} // verus!
