use kevindb::query::aggregates::distributed::{
    distributed_aggregate_result, gather_candidates, rollup_distribution,
};
use kevindb::query::aggregates::grouping::AggregateRunRow;
use kevindb::query::aggregates::rollups::rollup_diagnostics;
use kevindb::query::aggregates::scan::{aggregate_result, scanned_rows, ScannedRun};
use kevindb::query::aggregates::{
    aggregate_query_without_wall_time_limit, RunAggregateQuery, RunAggregateSource,
};
use kevindb::query::distributed::{
    plan_partitions, worker_rows, DistributedQueryConfig, PlanFigures,
};
use kevindb::query::index_search::{
    materialize_term_data, plan_dictionary_ranges, plan_term_data_ranges, ByteRange,
    SearchIndexGroupDirectory, SearchIndexGroupTermSlices, SearchIndexRange, SearchIndexTermInfo,
    SearchIndexTermSlice,
};
use kevindb::query::planner::{
    deleted_runs_statement, plan_from_candidates, run_matches_retention_filter, RunCandidate,
    RunQueryPlan, SegmentKey,
};
use kevindb::query::random_access::{
    latest_event_statement, nonempty_text, query_for_trace, run_events_statement, run_load_result,
    run_not_found, trace_events_statement, trace_load_result, trace_segment_sources,
    trace_segments_statement, RunLocator,
};
use kevindb::query::retention::{list_policies_statement, load_policy_statement};
use kevindb::query::scan::{end_of_batch, list_runs_result, ObjectStoreReadSnapshot, QueryTimes};
use kevindb::query::threads::{
    thread_list_page, thread_messages_statement, thread_trace_page, thread_traces_statement,
    threads_statement, ThreadListQuery, ThreadTraceQuery, ThreadTraceSummary,
};
use kevindb::query::tree::{trace_tree_result, trace_tree_runs_statement};
use kevindb::query::{
    query_without_wall_time_limit, RunKey, RunQuery, RunQueryLimits, RunSummary, SegmentSource,
};
use kevindb::statement::SqlParam;
use kevindb::time::Duration;

fn run(span_id: &str, start_time_unix_nano: i64) -> RunSummary {
    RunSummary {
        project_name: "demo".to_owned(),
        run_id: None,
        trace_id: "trace".to_owned(),
        span_id: span_id.to_owned(),
        parent_run_id: None,
        parent_span_id: None,
        name: span_id.to_owned(),
        run_type: "llm".to_owned(),
        status: "success".to_owned(),
        start_time_unix_nano,
        end_time_unix_nano: start_time_unix_nano + 1,
        is_root: true,
        attributes_json: "{}".to_owned(),
    }
}

fn key(span_id: &str) -> RunKey {
    RunKey {
        project_name: "demo".to_owned(),
        trace_id: "trace".to_owned(),
        span_id: span_id.to_owned(),
    }
}

fn millis(n: u64) -> Duration {
    Duration::from_millis(n)
}

fn times() -> QueryTimes {
    QueryTimes {
        postgres: millis(1),
        planning: millis(2),
        execution: millis(3),
    }
}

fn reads(get_requests: u64) -> ObjectStoreReadSnapshot {
    ObjectStoreReadSnapshot {
        get_requests,
        bytes_read: 7,
        ..ObjectStoreReadSnapshot::default()
    }
}

fn plan() -> RunQueryPlan {
    let candidate = |span_id: &str, row_index: i64| RunCandidate {
        uri: "a.vortex".to_owned(),
        schema_version: 2,
        total_bytes: 100,
        search_index_uri: None,
        search_index_bytes: 0,
        search_index_schema_version: 0,
        project_name: "demo".to_owned(),
        trace_id: "trace".to_owned(),
        span_id: span_id.to_owned(),
        row_index,
    };
    plan_from_candidates(
        &vec![candidate("a", 0), candidate("b", 1)],
        &RunQueryLimits::default(),
    )
    .expect("plan")
}

#[test]
fn a_listing_says_what_it_cost() {
    let mut query = RunQuery::new("demo");
    let result = list_runs_result(
        &query,
        &plan(),
        &vec![key("b")],
        vec![run("b", 2), run("a", 1), run("stranger", 3)],
        reads(2),
        times(),
    )
    .expect("result");
    assert_eq!(result.runs, vec![run("a", 1)]);
    assert_eq!(result.diagnostics.candidate_segments, 1);
    assert_eq!(result.diagnostics.candidate_runs, 2);
    assert_eq!(result.diagnostics.rows_returned, 1);
    assert_eq!(result.diagnostics.actual_object_store_requests, 2);
    assert_eq!(result.diagnostics.actual_object_store_bytes_read, 7);
    assert_eq!(result.diagnostics.datafusion_planning_time, millis(2));
    query.limits.max_candidate_bytes = Some(6);
    assert_eq!(
        list_runs_result(&query, &plan(), &Vec::new(), Vec::new(), reads(2), times())
            .expect_err("bytes"),
        "query rejected: actual bytes read 7 exceed limit 6"
    );
}

#[test]
fn wall_time_is_taken_out_of_a_query() {
    let mut query = RunQuery::new("demo");
    query.limits.max_wall_time = Some(millis(5));
    assert_eq!(query_without_wall_time_limit(query).limits.max_wall_time, None);
    let mut query = RunAggregateQuery::new("demo");
    query.limits.max_wall_time = Some(millis(5));
    assert_eq!(
        aggregate_query_without_wall_time_limit(query)
            .limits
            .max_wall_time,
        None
    );
    assert_eq!(end_of_batch(20, 0), 8);
    assert_eq!(end_of_batch(20, 16), 20);
}

#[test]
fn old_runs_are_behind_the_retention_cutoff() {
    let mut query = RunQuery::new("demo");
    assert!(run_matches_retention_filter(&run("a", 5), &query));
    query.retention_cutoff_unix_nano = Some(6);
    assert!(!run_matches_retention_filter(&run("a", 5), &query));
    assert!(run_matches_retention_filter(&run("a", 6), &query));
    assert!(deleted_runs_statement(&query).is_some());
    query.include_deleted = true;
    assert!(deleted_runs_statement(&query).is_none());
}

fn locator() -> RunLocator {
    RunLocator {
        segment_uri: "a.vortex".to_owned(),
        project_name: "demo".to_owned(),
        stored_run_id: "run".to_owned(),
        generated_run_id: "generated".to_owned(),
        trace_id: "trace".to_owned(),
        span_id: "span".to_owned(),
        row_index: 0,
        schema_version: 2,
    }
}

#[test]
fn a_run_is_the_last_that_its_segment_gives() {
    let result = run_load_result(vec![run("a", 1), run("b", 2)], Vec::new(), times());
    assert_eq!(result.run, Some(run("b", 2)));
    assert_eq!(result.diagnostics.rows_returned, 1);
    assert_eq!(result.diagnostics.candidate_segments, 1);
    let missing = run_not_found(millis(4));
    assert_eq!(missing.run, None);
    assert_eq!(missing.diagnostics.postgres_query_time, millis(4));
    assert_eq!(run_events_statement(&locator()).params.len(), 3);
    assert_eq!(latest_event_statement(&locator()).params.len(), 3);
    assert_eq!(nonempty_text(String::new()), None);
    assert_eq!(nonempty_text("a".to_owned()), Some("a".to_owned()));
}

#[test]
fn a_trace_is_read_from_all_its_segments() {
    let query = query_for_trace("demo", "trace");
    assert_eq!(query.trace_id.as_deref(), Some("trace"));
    assert_eq!(query.project_names, vec!["demo"]);
    let sources = trace_segment_sources(&vec![SegmentKey {
        uri: "a.vortex".to_owned(),
        schema_version: 2,
    }]);
    assert_eq!(sources.len(), 1);
    assert_eq!(sources[0].uri, "a.vortex");
    let result = trace_load_result(
        &query,
        1,
        &vec![key("b")],
        vec![run("a", 1), run("b", 2)],
        Vec::new(),
        reads(1),
        times(),
    )
    .expect("trace");
    assert_eq!(result.runs, vec![run("a", 1)]);
    assert_eq!(result.diagnostics.vortex_files_opened, 1);
    assert_eq!(trace_segments_statement("demo", "trace").params.len(), 2);
    assert_eq!(trace_events_statement("demo", "trace").params.len(), 2);
}

#[test]
fn a_tree_comes_from_the_metadata_alone() {
    let result = trace_tree_result("demo", "trace", &vec![run("a", 1)], millis(3));
    assert_eq!(result.trace_tree.roots.len(), 1);
    assert_eq!(result.diagnostics.rows_returned, 1);
    assert_eq!(result.diagnostics.actual_object_store_requests, 0);
    assert_eq!(trace_tree_runs_statement("demo", "trace").params.len(), 2);
    assert_eq!(load_policy_statement("demo").params.len(), 1);
    assert!(list_policies_statement().params.is_empty());
}

#[test]
fn threads_come_in_pages() {
    let mut query = ThreadTraceQuery::new("demo", "thread");
    query.page_size = 1;
    let trace = |trace_id: &str, start: i64| ThreadTraceSummary {
        thread_id: "thread".to_owned(),
        trace_id: trace_id.to_owned(),
        root_run_id: String::new(),
        root_span_id: String::new(),
        name: None,
        start_time_unix_nano: start,
        end_time_unix_nano: start,
        latency_nanos: 0,
        first_token_time_unix_nano: None,
        inputs_preview: None,
        outputs_preview: None,
        error_preview: None,
        prompt_tokens: None,
        completion_tokens: None,
        total_tokens: None,
        prompt_cost: None,
        completion_cost: None,
        total_cost: None,
    };
    assert!(thread_traces_statement(&query)
        .expect("statement")
        .sql
        .ends_with("LIMIT 2"));
    let page = thread_trace_page(&query, vec![trace("a", 1), trace("b", 2)], millis(1));
    assert_eq!(page.items.len(), 1);
    assert_eq!(page.next_cursor.as_deref(), Some("trace:1:a"));
    assert_eq!(page.diagnostics.rows_returned, 1);
    query.cursor = page.next_cursor;
    assert!(thread_traces_statement(&query).is_ok());
    query.cursor = Some("broken".to_owned());
    assert!(thread_traces_statement(&query).is_err());
    let list = ThreadListQuery::new("demo");
    assert!(threads_statement(&list).is_ok());
    let page = thread_list_page(&list, Vec::new(), millis(1));
    assert_eq!(page.next_cursor, None);
    assert_eq!(
        thread_messages_statement("demo", "thread", 5).params[2],
        SqlParam::Integer(5)
    );
}

fn scanned(span_id: &str) -> ScannedRun {
    ScannedRun {
        run_id: None,
        row: AggregateRunRow {
            project_name: "demo".to_owned(),
            trace_id: "trace".to_owned(),
            span_id: span_id.to_owned(),
            run_type: "llm".to_owned(),
            status: "success".to_owned(),
            start_time_unix_nano: 1,
            latency_nanos: 4,
            prompt_tokens: None,
            completion_tokens: None,
            total_tokens: None,
            prompt_cost: None,
            completion_cost: None,
            total_cost: None,
            first_token_latency_nanos: None,
            evaluator_score: None,
            model_name: None,
            provider_name: None,
        },
    }
}

#[test]
fn an_aggregate_is_the_same_when_it_is_shared_out() {
    let query = RunAggregateQuery::new("demo");
    let plan = plan();
    let alone = aggregate_result(
        &query,
        &plan,
        &scanned_rows(vec![scanned("a"), scanned("b")]),
        &Vec::new(),
        &Vec::new(),
        reads(3),
        times(),
    );
    assert_eq!(alone.source, RunAggregateSource::Vortex);
    assert_eq!(alone.rows.len(), 1);
    assert_eq!(alone.rows[0].metrics.count, 2);

    let config = DistributedQueryConfig::default();
    let run_query = query.to_run_query();
    let segments: Vec<SegmentSource> = plan.segments;
    let partition = plan_partitions(&segments, &config).remove(0);
    let results = vec![worker_rows(
        partition,
        &run_query,
        vec![scanned("a"), scanned("stranger"), scanned("b")],
        reads(3),
        millis(2),
        millis(3),
    )];
    let found = gather_candidates(
        &run_query,
        &plan.candidate_run_keys,
        results,
        ObjectStoreReadSnapshot::default(),
    )
    .expect("found");
    assert_eq!(found.runs.len(), 2);
    let shared = distributed_aggregate_result(
        &query,
        &config,
        PlanFigures {
            candidate_segments: 1,
            candidate_runs: 2,
            candidate_bytes: 100,
            estimated_object_store_requests: 48,
            partitions: 1,
        },
        found,
        &Vec::new(),
        &Vec::new(),
        millis(1),
    );
    assert_eq!(shared.rows, alone.rows);
    assert_eq!(shared.diagnostics, alone.diagnostics);
    assert_eq!(shared.distributed.partitions_executed, 1);
    assert_eq!(rollup_distribution(&config).partitions_planned, 0);
    assert_eq!(rollup_diagnostics(3, millis(1)).rows_returned, 3);
}

fn index_range(offset: u64, len: u64) -> SearchIndexRange {
    SearchIndexRange { offset, len }
}

fn term(postings_offset: u32, postings_len: u32, positions_len: u32) -> SearchIndexTermInfo {
    SearchIndexTermInfo {
        doc_count: 1,
        postings_offset,
        postings_len,
        positions_offset: 0,
        positions_len,
    }
}

#[test]
fn terms_are_loaded_and_put_together() {
    let directories = vec![SearchIndexGroupDirectory {
        fst: index_range(0, 4),
        term_infos: index_range(4, 8),
        term_info_count: 2,
        postings: index_range(100, 10),
        positions: index_range(200, 10),
    }];
    let mut ranges = Vec::new();
    let plans = plan_dictionary_ranges(&vec![0, 5], &directories, &mut ranges);
    assert_eq!(plans.len(), 1);
    assert_eq!(
        ranges,
        vec![ByteRange { start: 0, end: 4 }, ByteRange { start: 4, end: 12 }]
    );

    let groups = |info: SearchIndexTermInfo| {
        vec![SearchIndexGroupTermSlices {
            group_index: 0,
            fst_bytes: vec![9],
            term_info_count: 2,
            terms: vec![SearchIndexTermSlice {
                ordinal: 1,
                info,
                include_positions: true,
            }],
        }]
    };
    let mut ranges = Vec::new();
    let plans =
        plan_term_data_ranges(&groups(term(3, 2, 1)), &directories, true, &mut ranges)
            .expect("plans");
    assert_eq!(
        ranges,
        vec![
            ByteRange { start: 103, end: 105 },
            ByteRange { start: 200, end: 201 }
        ]
    );
    let data = materialize_term_data(&plans[0], &vec![vec![1, 2], vec![3]]).expect("data");
    assert_eq!(data.postings, vec![1, 2]);
    assert_eq!(data.positions, vec![3]);
    assert_eq!(data.infos.len(), 2);
    assert_eq!(data.infos[0].doc_count, 0);
    assert_eq!(data.infos[1].postings_len, 2);
    assert_eq!(data.infos[1].postings_offset, 0);

    assert_eq!(
        materialize_term_data(&plans[0], &Vec::new()).expect_err("no chunks"),
        "missing postings chunk for selected term"
    );
    let mut ranges = Vec::new();
    assert_eq!(
        plan_term_data_ranges(&groups(term(9, 2, 0)), &directories, true, &mut ranges)
            .expect_err("outside"),
        "search term range exceeds row group range"
    );
    let mut ranges = Vec::new();
    assert_eq!(
        plan_term_data_ranges(&groups(term(0, 1, 0)), &Vec::new(), true, &mut ranges)
            .expect_err("no group"),
        "term data plan group out of bounds"
    );
}
