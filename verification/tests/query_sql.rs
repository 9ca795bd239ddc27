use kevindb::float::FloatReadings;
use kevindb::query::filter::FilterExpr;
use kevindb::query::planner::{
    candidates_statement, enforce_limits, estimate_vortex_object_store_requests,
    plan_from_candidates, run_head_where_sql, run_query_where_sql, RunCandidate,
};
use kevindb::query::random_access::{
    last_run, locator_read_failure_text, replayed_locator, run_locator_datafusion_sql,
    run_locator_statement, LatestEvent, RunLocator, RunProjection,
    ROW_INDEXED_SPAN_SEGMENT_SCHEMA_VERSION,
};
use kevindb::query::scan::{
    datafusion_batch_query, enforce_runtime_object_store_limits, keep_runs, page_datafusion_runs,
    run_head_datafusion_sql, ObjectStoreRead, ObjectStoreReadSnapshot,
};
use kevindb::query::threads::{
    normalized_page_size, page_thread_trace_rows, thread_sql, thread_trace_sql, ThreadCursor,
    ThreadListQuery, ThreadTraceQuery, ThreadTraceSummary, TraceCursor,
};
use kevindb::query::tree::trace_tree_from_runs;
use kevindb::query::{
    candidate_run_source_pushdown_sql, generated_run_id, run_source_pushdown_where_sql,
    sql_object_store_path, RunKey, RunQuery, RunQueryLimits, RunSummary, SegmentCandidateRow,
    SegmentSource,
};
use kevindb::sql::{escape_like_pattern, joined_integers, sql_string_list, sql_string_literal};

const TRACE_ID: &str = "aaaaaaaaaaaaaaaaaaaaaaaaaaaaaaaa";

fn run(
    project_name: &str,
    trace_id: &str,
    name: &str,
    parent_span_id: Option<&str>,
    start_time_unix_nano: i64,
) -> RunSummary {
    RunSummary {
        project_name: project_name.to_owned(),
        run_id: None,
        trace_id: trace_id.to_owned(),
        span_id: name.to_owned(),
        parent_run_id: None,
        parent_span_id: parent_span_id.map(str::to_owned),
        name: name.to_owned(),
        run_type: if parent_span_id.is_some() {
            "llm".to_owned()
        } else {
            "chain".to_owned()
        },
        status: "success".to_owned(),
        start_time_unix_nano,
        end_time_unix_nano: start_time_unix_nano + 5,
        is_root: parent_span_id.is_none(),
        attributes_json: "{}".to_owned(),
    }
}

fn key(span_id: &str) -> RunKey {
    RunKey {
        project_name: "demo".to_owned(),
        trace_id: TRACE_ID.to_owned(),
        span_id: span_id.to_owned(),
    }
}

fn segment(uri: &str) -> SegmentSource {
    SegmentSource {
        uri: uri.to_owned(),
        total_bytes: 0,
        schema_version: ROW_INDEXED_SPAN_SEGMENT_SCHEMA_VERSION,
        search_index_uri: None,
        search_index_bytes: 0,
        search_index_schema_version: 0,
        candidate_rows: Vec::new(),
    }
}

fn candidate(uri: &str, span_id: &str, row_index: i64) -> RunCandidate {
    RunCandidate {
        uri: uri.to_owned(),
        schema_version: 2,
        total_bytes: 100,
        search_index_uri: None,
        search_index_bytes: 0,
        search_index_schema_version: 0,
        project_name: "demo".to_owned(),
        trace_id: TRACE_ID.to_owned(),
        span_id: span_id.to_owned(),
        row_index,
    }
}

#[test]
fn builds_trace_tree_from_runs() {
    let tree = trace_tree_from_runs(
        "demo",
        TRACE_ID,
        &vec![
            run("demo", TRACE_ID, "child", Some("root"), 20),
            run("demo", TRACE_ID, "root", None, 10),
            run("demo", TRACE_ID, "orphan", Some("missing"), 30),
        ],
    );

    assert_eq!(tree.project_name, "demo");
    assert_eq!(tree.trace_id, TRACE_ID);
    assert_eq!(tree.roots.len(), 2);
    assert_eq!(tree.roots[0].run.name, "root");
    assert_eq!(tree.roots[0].children.len(), 1);
    assert_eq!(tree.roots[0].children[0].run.name, "child");
    assert_eq!(tree.roots[1].run.name, "orphan");
}

#[test]
fn escapes_sql_string_literals() {
    assert_eq!(sql_string_literal("project's trace"), "'project''s trace'");
    assert_eq!(
        sql_object_store_path("projects/project's/test.vortex"),
        "'/projects/project''s/test.vortex'"
    );
    let mut query = RunQuery::new("demo");
    query.trace_id = Some("trace".to_owned());
    query.parent_run_id = Some("parent-run".to_owned());
    query.parent_span_id = Some("parent-span".to_owned());
    query.run_type = Some("llm".to_owned());
    query.is_root = Some(false);
    query.error = Some(false);
    query.start_time_min_unix_nano = Some(10);
    query.start_time_max_unix_nano = Some(20);
    query.limit = None;
    query.offset = None;
    query.include_deleted = false;
    query.include_payload = true;
    query.newest_first = false;
    assert_eq!(
        run_query_where_sql(&query),
        "project_name IN ('demo') AND trace_id = 'trace' AND parent_run_id = 'parent-run' AND parent_span_id = 'parent-span' AND run_type = 'llm' AND is_root = false AND status <> 'error' AND start_time_unix_nano >= 10 AND start_time_unix_nano <= 20"
    );
}

#[test]
fn datafusion_sql_pushes_projection_and_source_predicates() {
    let mut query = RunQuery::new("demo");
    query.project_names.push("other's".to_owned());
    query.trace_id = Some(TRACE_ID.to_owned());
    query.run_type = Some("llm".to_owned());
    query.start_time_min_unix_nano = Some(10);
    query.start_time_max_unix_nano = Some(20);

    let source_where = run_source_pushdown_where_sql(&query, None);
    assert_eq!(
        source_where,
        "project_name IN ('demo', 'other''s') AND trace_id = 'aaaaaaaaaaaaaaaaaaaaaaaaaaaaaaaa' AND run_type = 'llm' AND start_time_unix_nano >= 10 AND start_time_unix_nano <= 20"
    );

    let sql = run_head_datafusion_sql(
        &vec![
            segment("projects/demo/trace-segments/a.vortex"),
            segment("projects/demo/trace-segments/b.vortex"),
        ],
        &query,
        false,
        None,
    );

    assert_eq!(sql.matches(&format!("WHERE {source_where}")).count(), 2);
    assert!(sql.contains("'{}' AS attributes_json"));
    assert!(sql.contains("WHERE run_version = 1 AND project_name IN ('demo', 'other''s')"));
}

#[test]
fn datafusion_sql_pushes_candidate_run_keys_to_sources() {
    let query = RunQuery::new("demo");
    let candidate_run_keys = vec![key("root"), key("child")];

    let sql = run_head_datafusion_sql(
        &vec![segment("projects/demo/trace-segments/a.vortex")],
        &query,
        false,
        Some(&candidate_run_keys),
    );

    assert!(sql.contains("span_id IN ('child', 'root')"));
    assert!(sql.contains("trace_id = 'aaaaaaaaaaaaaaaaaaaaaaaaaaaaaaaa'"));
}

#[test]
fn datafusion_sql_pushes_segment_candidate_rows_to_sources() {
    let query = RunQuery::new("demo");
    let mut source = segment("projects/demo/trace-segments/a.vortex");
    source.total_bytes = 123;
    source.candidate_rows = vec![
        SegmentCandidateRow {
            project_name: "demo".to_owned(),
            trace_id: TRACE_ID.to_owned(),
            span_id: "root".to_owned(),
            row_index: 7,
        },
        SegmentCandidateRow {
            project_name: "demo".to_owned(),
            trace_id: TRACE_ID.to_owned(),
            span_id: "child".to_owned(),
            row_index: 11,
        },
    ];
    let sql = run_head_datafusion_sql(&vec![source], &query, false, None);

    assert!(sql.contains("span_id = 'root' AND row_index = 7"));
    assert!(sql.contains("span_id = 'child' AND row_index = 11"));
}

#[test]
fn candidate_run_key_source_pushdown_is_not_capped_at_legacy_threshold() {
    let candidate_run_keys: Vec<RunKey> = (0..1025)
        .map(|index| key(&format!("span-{index}")))
        .collect();

    let predicate = candidate_run_source_pushdown_sql(Some(&candidate_run_keys))
        .expect("candidate pushdown should be emitted");

    assert!(predicate.contains("span-1024"));
}

fn locator(stored_run_id: &str, schema_version: i64) -> RunLocator {
    RunLocator {
        segment_uri: "projects/demo/trace-segments/test.vortex".to_owned(),
        project_name: "demo".to_owned(),
        stored_run_id: stored_run_id.to_owned(),
        generated_run_id: "generated".to_owned(),
        trace_id: TRACE_ID.to_owned(),
        span_id: "1111111111111111".to_owned(),
        row_index: 7,
        schema_version,
    }
}

#[test]
fn schema_v2_run_locator_sql_filters_by_row_index() {
    let sql = run_locator_datafusion_sql(
        &RunLocator {
            segment_uri: "projects/demo/trace-segments/test.vortex".to_owned(),
            project_name: "demo".to_owned(),
            stored_run_id: "1111111111111111".to_owned(),
            generated_run_id: "generated".to_owned(),
            trace_id: "aaaaaaaaaaaaaaaaaaaaaaaaaaaaaaaa".to_owned(),
            span_id: "1111111111111111".to_owned(),
            row_index: 7,
            schema_version: ROW_INDEXED_SPAN_SEGMENT_SCHEMA_VERSION,
        },
        true,
    );

    assert!(sql.contains("row_index = 7"));
    assert!(sql.contains("AND run_id = '1111111111111111'"));
}

#[test]
fn generated_run_locator_sql_filters_by_empty_run_id_and_span_id() {
    let sql = run_locator_datafusion_sql(
        &RunLocator {
            segment_uri: "projects/demo/trace-segments/test.vortex".to_owned(),
            project_name: "demo".to_owned(),
            stored_run_id: String::new(),
            generated_run_id: "generated".to_owned(),
            trace_id: "aaaaaaaaaaaaaaaaaaaaaaaaaaaaaaaa".to_owned(),
            span_id: "1111111111111111".to_owned(),
            row_index: 7,
            schema_version: ROW_INDEXED_SPAN_SEGMENT_SCHEMA_VERSION,
        },
        true,
    );

    assert!(sql.contains("run_id = '' AND span_id = '1111111111111111'"));
}

#[test]
fn legacy_run_locator_sql_does_not_filter_by_missing_row_index() {
    let sql = run_locator_datafusion_sql(
        &RunLocator {
            segment_uri: "projects/demo/trace-segments/test.vortex".to_owned(),
            project_name: "demo".to_owned(),
            stored_run_id: "1111111111111111".to_owned(),
            generated_run_id: "generated".to_owned(),
            trace_id: "aaaaaaaaaaaaaaaaaaaaaaaaaaaaaaaa".to_owned(),
            span_id: "1111111111111111".to_owned(),
            row_index: 7,
            schema_version: 1,
        },
        true,
    );

    assert!(!sql.contains("row_index = 7"));
}

#[test]
fn encodes_and_decodes_trace_cursors() {
    let cursor = TraceCursor {
        start_time_unix_nano: 42,
        trace_id: "trace-a".to_owned(),
    };

    assert_eq!(
        TraceCursor::decode(&cursor.encode()).expect("decode trace cursor"),
        cursor
    );
}

#[test]
fn thread_trace_sql_uses_root_run_filter_and_cursor() {
    let mut query = ThreadTraceQuery::new("demo", "thread-a");
    query.cursor = Some("trace:10:trace-a".to_owned());
    query.filter = Some(
        FilterExpr::parse(r#"eq(status, "success")"#, &FloatReadings::new()).expect("filter"),
    );

    let sql = thread_trace_sql(&query, 21).expect("compile thread trace sql");

    assert!(sql.contains("traces.thread_id = 'thread-a'"));
    assert!(sql.contains("traces.start_time_unix_nano > 10"));
    assert!(sql.contains("FROM run_heads filter_heads"));
    assert!(sql.contains("filter_heads.status = 'success'"));
}

#[test]
fn thread_cursors_read_back_and_reject_other_texts() {
    let cursor = ThreadCursor {
        max_start_time_unix_nano: -7,
        thread_id: "a:b".to_owned(),
    };
    assert_eq!(cursor.encode(), "thread:-7:a:b");
    assert_eq!(ThreadCursor::decode("thread:-7:a:b"), Ok(cursor));
    assert!(ThreadCursor::decode("trace:1:a").is_err());
    assert!(TraceCursor::decode("trace:x:a").is_err());
    assert!(TraceCursor::decode("trace:1").is_err());
    let mut query = ThreadListQuery::new("demo");
    query.cursor = Some("nonsense".to_owned());
    assert!(thread_sql(&query, 10).is_err());
}

#[test]
fn page_sizes_are_bounded() {
    assert_eq!(normalized_page_size(0), 1);
    assert_eq!(normalized_page_size(7), 7);
    assert_eq!(normalized_page_size(100_000), 100);
}

fn thread_trace(trace_id: &str, start_time_unix_nano: i64) -> ThreadTraceSummary {
    ThreadTraceSummary {
        thread_id: "thread".to_owned(),
        trace_id: trace_id.to_owned(),
        root_run_id: String::new(),
        root_span_id: String::new(),
        name: None,
        start_time_unix_nano,
        end_time_unix_nano: start_time_unix_nano,
        latency_nanos: 0,
        first_token_time_unix_nano: None,
        inputs_preview: None,
        outputs_preview: None,
        error_preview: None,
        prompt_tokens: None,
        completion_tokens: None,
        total_tokens: None,
        prompt_cost: None,
        completion_cost: None,
        total_cost: None,
    }
}

#[test]
fn a_full_page_ends_with_a_cursor() {
    let (items, next) = page_thread_trace_rows(
        vec![thread_trace("a", 1), thread_trace("b", 2), thread_trace("c", 3)],
        2,
    );
    assert_eq!(items.len(), 2);
    assert_eq!(next.as_deref(), Some("trace:2:b"));
    let (items, next) = page_thread_trace_rows(vec![thread_trace("a", 1)], 2);
    assert_eq!(items.len(), 1);
    assert_eq!(next, None);
}

#[test]
fn texts_and_numbers_are_listed_for_sql() {
    assert_eq!(
        sql_string_list(&vec!["a".to_owned(), "b'c".to_owned()]),
        "'a', 'b''c'"
    );
    assert_eq!(escape_like_pattern(r"50%_\"), r"50\%\_\\");
    assert_eq!(joined_integers(&vec![3, -1, 20], ","), "3,-1,20");
}

#[test]
fn generated_ids_are_name_based() {
    let id = generated_run_id("demo", TRACE_ID, "1111111111111111");
    assert_eq!(id, generated_run_id("demo", TRACE_ID, "1111111111111111"));
    assert_ne!(id, generated_run_id("demo", TRACE_ID, "2222222222222222"));
    assert_eq!(id, "73d15a34-ed8b-5c97-bc05-d85b768eff58");
}

#[test]
fn a_plan_holds_each_segment_once() {
    let plan = plan_from_candidates(
        &vec![
            candidate("a", "root", 0),
            candidate("b", "child", 0),
            candidate("a", "child", 1),
        ],
        &RunQueryLimits::default(),
    )
    .expect("plan");
    assert_eq!(plan.segments.len(), 2);
    assert_eq!(plan.candidate_bytes, 200);
    assert_eq!(plan.candidate_run_keys.len(), 2);
    assert_eq!(
        plan.estimated_object_store_requests,
        estimate_vortex_object_store_requests(2)
    );
    let rows: Vec<usize> = plan
        .segments
        .iter()
        .map(|source| source.candidate_rows.len())
        .collect();
    assert_eq!(rows, vec![2, 1]);
}

#[test]
fn a_plan_is_rejected_beyond_each_limit() {
    let candidates = vec![candidate("a", "root", 0), candidate("b", "child", 0)];
    let mut limits = RunQueryLimits::default();
    limits.max_candidate_segments = Some(1);
    assert_eq!(
        plan_from_candidates(&candidates, &limits).expect_err("segments"),
        "query rejected: candidate segments 2 exceed limit 1"
    );
    let mut limits = RunQueryLimits::default();
    limits.max_candidate_bytes = Some(199);
    assert_eq!(
        plan_from_candidates(&candidates, &limits).expect_err("bytes"),
        "query rejected: candidate bytes 200 exceed limit 199"
    );
    let mut limits = RunQueryLimits::default();
    limits.max_estimated_object_store_requests = Some(95);
    assert_eq!(
        plan_from_candidates(&candidates, &limits).expect_err("requests"),
        "query rejected: estimated object-store requests 96 exceed limit 95"
    );
    assert!(enforce_limits(&RunQueryLimits::default(), 1, 48, 1).is_ok());
}

#[test]
fn queries_without_projects_ask_nothing() {
    let mut query = RunQuery::new("demo");
    query.project_names = Vec::new();
    assert!(candidates_statement(&query).expect("statement").is_none());
    assert!(candidates_statement(&RunQuery::new("demo"))
        .expect("statement")
        .is_some());
}

#[test]
fn search_filters_leave_their_scalar_part_to_the_database() {
    let mut query = RunQuery::new("demo");
    query.filter = Some(
        FilterExpr::parse(
            r#"and(eq(run_type, "llm"), search("invoice"))"#,
            &FloatReadings::new(),
        )
        .expect("filter"),
    );
    let sql = run_head_where_sql(&query).expect("where");
    assert!(sql.contains("run_heads.run_type = 'llm'"));
    assert!(!sql.contains("invoice"));
}

#[test]
fn a_batch_takes_the_rows_up_to_the_end_of_the_page() {
    let mut query = RunQuery::new("demo");
    query.limit = Some(5);
    query.offset = Some(3);
    let batch = datafusion_batch_query(&query);
    assert_eq!((batch.limit, batch.offset), (Some(8), None));
}

#[test]
fn pages_are_cut_from_runs_in_order() {
    let mut query = RunQuery::new("demo");
    query.limit = Some(2);
    query.offset = Some(1);
    let names = |runs: Vec<RunSummary>| -> Vec<String> {
        runs.into_iter().map(|run| run.span_id).collect()
    };
    let runs = || {
        vec![
            run("demo", TRACE_ID, "c", None, 30),
            run("demo", TRACE_ID, "a", None, 10),
            run("demo", TRACE_ID, "d", None, 40),
            run("demo", TRACE_ID, "b", None, 20),
        ]
    };
    query.newest_first = false;
    assert_eq!(names(page_datafusion_runs(runs(), &query)), vec!["b", "c"]);
    query.newest_first = true;
    assert_eq!(names(page_datafusion_runs(runs(), &query)), vec!["c", "b"]);
}

#[test]
fn deleted_runs_are_left_out() {
    let query = RunQuery::new("demo");
    let kept = keep_runs(
        vec![
            run("demo", TRACE_ID, "a", None, 10),
            run("demo", TRACE_ID, "b", None, 20),
            run("demo", TRACE_ID, "c", None, 30),
        ],
        Some(&vec![key("a"), key("b")]),
        &vec![key("b")],
        &query,
    );
    assert_eq!(kept.len(), 1);
    assert_eq!(kept[0].span_id, "a");
}

#[test]
fn reads_are_counted_and_limited() {
    let mut reads = ObjectStoreReadSnapshot::default();
    reads.count(ObjectStoreRead::Get);
    reads.count(ObjectStoreRead::GetRanges);
    reads.count(ObjectStoreRead::Head);
    reads.count(ObjectStoreRead::List);
    reads.count(ObjectStoreRead::Bytes(9));
    assert_eq!(reads.request_count(), 4);
    assert_eq!(reads.bytes_read, 9);
    let mut query = RunQuery::new("demo");
    query.limits.max_estimated_object_store_requests = Some(3);
    assert!(enforce_runtime_object_store_limits(&query, reads).is_err());
    query.limits.max_estimated_object_store_requests = Some(4);
    assert!(enforce_runtime_object_store_limits(&query, reads).is_ok());
}

#[test]
fn a_run_is_located_and_replayed() {
    assert!(run_locator_statement("", false).is_none());
    let statement = run_locator_statement("run", false).expect("statement");
    assert!(statement.sql.contains("run_deletions"));
    assert!(RunProjection::FullPayload.include_payload());
    assert!(!RunProjection::Summary.include_payload());
    assert!(RunProjection::Events.include_events());
    assert_eq!(
        last_run(vec![
            run("demo", TRACE_ID, "a", None, 10),
            run("demo", TRACE_ID, "b", None, 20)
        ])
        .expect("run")
        .span_id,
        "b"
    );
    assert_eq!(
        locator_read_failure_text("a.vortex", true),
        "run locator object is missing: a.vortex"
    );
    let live = LatestEvent {
        locator: locator("run", 2),
        event_type: "end".to_owned(),
    };
    assert_eq!(replayed_locator(Some(live)), Some(locator("run", 2)));
    let gone = LatestEvent {
        locator: locator("run", 2),
        event_type: "tombstone".to_owned(),
    };
    assert_eq!(replayed_locator(Some(gone)), None);
    assert_eq!(replayed_locator(None), None);
}
