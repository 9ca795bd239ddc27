use kevindb::query::cleanup::{
    candidate_bytes, cleanup_candidates_statement, cleanup_receipt, mark_cleaned_statement,
    objects_to_delete, orphan_candidates, orphan_cleanup_receipt, ObjectCleanupCandidate,
    OrphanObjectCandidate,
};
use kevindb::ingest::refresh::RefreshStep;
use kevindb::query::deleting::{DeletionAction, DeletionReply, DeletionWriter};
use kevindb::query::deletion::{count_yes, DeletedHead, RunDeletion};
use kevindb::query::distributed::{
    add_snapshots, distributed_result, gather, partition_result, plan_partitions,
    reject_if_cancelled, share_out, shed_if_overloaded, validate_distributed_config,
    worker_limit, DistributedQueryConfig, PlanFigures,
};
use kevindb::query::index_search::{
    coalesce_ranges, cut_ranges, directory_range, filter_candidate_rows, narrow_plan,
    search_index_of, subrange, ByteRange, SearchIndexRange, COALESCE_GAP_BYTES,
};
use kevindb::query::retention::{
    next_retention_action, retention_period_nanos, set_policy_statements, ProjectRetentionPolicy,
    RetentionAction,
};
use kevindb::query::routing::{project_route_statement, record_project_route_statement};
use kevindb::query::scan::ObjectStoreReadSnapshot;
use kevindb::query::{RunKey, RunQuery, RunQueryLimits, RunSummary, SegmentCandidateRow, SegmentSource};
use kevindb::statement::SqlParam;
use kevindb::time::{parse_rfc3339_nanos, Duration};

fn candidate_row(span_id: &str, row_index: i64) -> SegmentCandidateRow {
    SegmentCandidateRow {
        project_name: "demo".to_owned(),
        trace_id: "trace".to_owned(),
        span_id: span_id.to_owned(),
        row_index,
    }
}

fn segment(uri: &str, rows: Vec<SegmentCandidateRow>) -> SegmentSource {
    SegmentSource {
        uri: uri.to_owned(),
        total_bytes: 100,
        schema_version: 2,
        search_index_uri: Some(format!("{uri}.index")),
        search_index_bytes: 10,
        search_index_schema_version: 1,
        candidate_rows: rows,
    }
}

fn run(span_id: &str, start_time_unix_nano: i64) -> RunSummary {
    RunSummary {
        project_name: "demo".to_owned(),
        run_id: None,
        trace_id: "trace".to_owned(),
        span_id: span_id.to_owned(),
        parent_run_id: None,
        parent_span_id: None,
        name: span_id.to_owned(),
        run_type: "llm".to_owned(),
        status: "success".to_owned(),
        start_time_unix_nano,
        end_time_unix_nano: start_time_unix_nano + 1,
        is_root: true,
        attributes_json: "{}".to_owned(),
    }
}

fn key(span_id: &str) -> RunKey {
    RunKey {
        project_name: "demo".to_owned(),
        trace_id: "trace".to_owned(),
        span_id: span_id.to_owned(),
    }
}

fn reads(get_requests: u64, bytes_read: u64) -> ObjectStoreReadSnapshot {
    ObjectStoreReadSnapshot {
        get_requests,
        bytes_read,
        ..ObjectStoreReadSnapshot::default()
    }
}

#[test]
fn segments_are_shared_out_over_workers() {
    let mut config = DistributedQueryConfig::default();
    config.max_segments_per_partition = 2;
    config.worker_count = 2;
    let segments = vec![
        segment("a", vec![candidate_row("1", 0)]),
        segment("b", vec![candidate_row("2", 0)]),
        segment("c", vec![candidate_row("1", 0)]),
    ];
    let partitions = plan_partitions(&segments, &config);
    assert_eq!(partitions.len(), 2);
    let uris: Vec<Vec<&str>> = partitions
        .iter()
        .map(|partition| partition.segments.iter().map(|s| s.uri.as_str()).collect())
        .collect();
    assert_eq!(uris, vec![vec!["a", "b"], vec!["c"]]);
    assert_eq!(partitions[0].candidate_runs, 2);
    assert_eq!(partitions[0].candidate_bytes, 200);
    assert_eq!(partitions[1].worker_index, 1);
    config.max_candidate_bytes_per_worker = Some(150);
    assert_eq!(
        share_out(&segments, &config, "query rejected").expect_err("budget"),
        "query rejected: worker 0 candidate bytes 200 exceed per-worker limit 150"
    );
    config.max_candidate_bytes_per_worker = None;
    config.max_estimated_object_store_requests_per_worker = Some(1);
    assert_eq!(
        share_out(&segments, &config, "aggregate query rejected").expect_err("budget"),
        "aggregate query rejected: worker 0 estimated object-store requests 96 exceed per-worker limit 1"
    );
}

#[test]
fn configurations_and_load_are_checked() {
    let mut config = DistributedQueryConfig::default();
    assert_eq!(validate_distributed_config(&config), Ok(()));
    config.max_queued_partitions = Some(1);
    config.max_in_flight_partitions = 1;
    config.worker_count = 4;
    assert_eq!(worker_limit(&config), 1);
    assert!(shed_if_overloaded(1, &config).is_ok());
    assert_eq!(
        shed_if_overloaded(3, &config),
        Err("query load-shed: planned partitions 3 exceed queue limit 1".to_owned())
    );
    config.worker_count = 0;
    assert!(validate_distributed_config(&config).is_err());
    assert!(reject_if_cancelled(true).is_err());
    assert_eq!(reject_if_cancelled(false), Ok(()));
}

#[test]
fn pages_do_not_depend_on_the_workers() {
    let config = DistributedQueryConfig {
        max_segments_per_partition: 1,
        ..DistributedQueryConfig::default()
    };
    let segments = vec![segment("a", Vec::new()), segment("b", Vec::new())];
    let mut query = RunQuery::new("demo");
    query.limit = Some(2);
    query.newest_first = true;
    let answer = |flip: bool| {
        let mut results = Vec::new();
        for (n, partition) in plan_partitions(&segments, &config).into_iter().enumerate() {
            let runs = if (n == 0) != flip {
                vec![run("x", 10), run("y", 30)]
            } else {
                vec![run("z", 20)]
            };
            results.push(partition_result(
                partition,
                &query,
                runs,
                reads(1, 5),
                Duration::zero(),
                Duration::zero(),
            ));
        }
        distributed_result(
            &query,
            &config,
            PlanFigures {
                candidate_segments: 2,
                candidate_runs: 3,
                candidate_bytes: 200,
                estimated_object_store_requests: 96,
                partitions: 2,
            },
            &vec![key("x"), key("y"), key("z")],
            &Vec::new(),
            results,
            ObjectStoreReadSnapshot::default(),
            Duration::zero(),
        )
        .expect("result")
    };
    let first = answer(false);
    let spans: Vec<&str> = first.runs.iter().map(|run| run.span_id.as_str()).collect();
    assert_eq!(spans, vec!["y", "z"]);
    assert_eq!(first.runs, answer(true).runs);
    assert_eq!(first.diagnostics.actual_object_store_requests, 2);
    assert_eq!(first.diagnostics.actual_object_store_bytes_read, 10);
    assert_eq!(first.distributed.partitions_executed, 2);
}

#[test]
fn a_failed_worker_fails_the_query() {
    let results: Vec<Result<kevindb::query::distributed::PartitionExecutionResult<RunSummary>, String>> =
        vec![Err("worker failed".to_owned())];
    assert_eq!(gather(results).err(), Some("worker failed".to_owned()));
    assert_eq!(add_snapshots(reads(1, 2), reads(3, 4)), reads(4, 6));
}

#[test]
fn near_ranges_are_read_together() {
    let range = |start: u64, end: u64| ByteRange { start, end };
    let ranges = vec![range(10, 20), range(0, 5), range(1_000_000_000, 1_000_000_004)];
    let plan = coalesce_ranges(&ranges);
    assert_eq!(plan.ranges, vec![range(0, 20), range(1_000_000_000, 1_000_000_004)]);
    assert!(COALESCE_GAP_BYTES >= 5);
    let chunks = vec![(0..20).collect::<Vec<u8>>(), vec![7, 8, 9, 10]];
    let cut = cut_ranges(&ranges, &chunks).expect("cut");
    assert_eq!(cut[0], (10..20).collect::<Vec<u8>>());
    assert_eq!(cut[1], vec![0, 1, 2, 3, 4]);
    assert_eq!(cut[2], vec![7, 8, 9, 10]);
}

#[test]
fn parts_of_a_search_index_stay_inside_it() {
    let base = SearchIndexRange { offset: 100, len: 10 };
    assert_eq!(subrange(base, 2, 8), Ok(SearchIndexRange { offset: 102, len: 8 }));
    assert!(subrange(base, 3, 8).is_err());
    assert_eq!(
        directory_range(16, 4),
        Some(ByteRange { start: 16, end: 20 })
    );
    let source = segment("a", Vec::new());
    assert_eq!(search_index_of(&source, 1), Ok("a.index".to_owned()));
    assert_eq!(
        search_index_of(&source, 2),
        Err("query rejected: segment a has unsupported search index schema version 1".to_owned())
    );
    let mut bare = segment("a", Vec::new());
    bare.search_index_uri = None;
    assert!(search_index_of(&bare, 1)
        .expect_err("missing")
        .contains("missing its Phase 6 search index"));
}

#[test]
fn a_search_narrows_a_plan() {
    let segments = vec![
        segment("a", vec![candidate_row("1", 0), candidate_row("2", 4)]),
        segment("b", vec![candidate_row("3", 1)]),
    ];
    let kept = filter_candidate_rows(&segments[0].candidate_rows, &vec![4, 9]);
    assert_eq!(kept.len(), 1);
    assert_eq!(kept[0].span_id, "2");
    let plan = narrow_plan(
        &segments,
        &vec![vec![4], Vec::new()],
        &RunQueryLimits::default(),
    )
    .expect("plan");
    assert_eq!(plan.segments.len(), 1);
    assert_eq!(plan.candidate_run_keys, vec![key("2")]);
    assert_eq!(plan.candidate_bytes, 110);
    let mut limits = RunQueryLimits::default();
    limits.max_candidate_runs = Some(0);
    assert_eq!(
        narrow_plan(&segments, &vec![vec![4], Vec::new()], &limits).expect_err("limit"),
        "query rejected: candidate runs 1 exceed limit 0"
    );
}

#[test]
fn deletions_leave_a_tombstone() {
    let deletion = RunDeletion::new("demo", "trace", "span", 9, &Some("asked".to_owned()));
    assert!(deletion.tombstone_statement(&None).is_none());
    let head = DeletedHead {
        run_id: "run".to_owned(),
        trace_segment_id: 4,
        row_index: 2,
    };
    assert!(deletion.tombstone_statement(&Some(head)).is_some());
    assert!(!deletion.follow_up_statements(7).is_empty());
    assert!(!deletion.mark_statement().sql.is_empty());
    assert_eq!(count_yes(&vec![true, false, true]), 2);
    let expired = RunDeletion::expired("demo", "trace", "span", 9);
    assert_ne!(expired, deletion);
}

/// Runs a deletion against heads that are there or not, and notes what it does.
fn deletion_log(runs: Vec<RunDeletion>, there: &[&str]) -> (Vec<String>, usize) {
    let mut writer = DeletionWriter::new("demo", runs);
    let mut log = Vec::new();
    loop {
        let reply = match writer.action() {
            DeletionAction::Execute(statement) => {
                log.push(statement.purpose);
                DeletionReply::Done
            }
            DeletionAction::ExecuteAll(statements) => {
                log.extend(statements.into_iter().map(|statement| statement.purpose));
                DeletionReply::Done
            }
            DeletionAction::QueryHead(statement) => {
                let span = match &statement.params[2] {
                    SqlParam::Text(span) => span.clone(),
                    other => panic!("{other:?}"),
                };
                log.push(format!("{} {span}", statement.purpose));
                DeletionReply::Head(there.contains(&span.as_str()).then_some(DeletedHead {
                    run_id: "run".to_owned(),
                    trace_segment_id: 4,
                    row_index: 2,
                }))
            }
            DeletionAction::QueryId(statement) => {
                log.push(statement.purpose);
                DeletionReply::Id(7)
            }
            DeletionAction::QueryTimes(statement) => {
                log.push(statement.purpose);
                DeletionReply::Times(vec![3_600_000_000_001, 5])
            }
            DeletionAction::Refresh(step) => {
                log.push(match step {
                    RefreshStep::Tree(trace) => format!("tree {trace}"),
                    RefreshStep::Threads(trace) => format!("threads {trace}"),
                    RefreshStep::Rollups(hour) => format!("rollups {hour}"),
                });
                DeletionReply::Done
            }
            DeletionAction::Finished(deleted) => return (log, deleted),
        };
        writer.advance(reply);
        assert!(log.len() < 100);
    }
}

#[test]
fn a_deleted_run_is_refreshed() {
    let run = RunDeletion::new("demo", "trace", "span", 9, &None);
    let (log, deleted) = deletion_log(vec![run], &["span"]);
    assert_eq!(deleted, 1);
    assert_eq!(
        log,
        vec![
            "lock project",
            "mark run head deleted span",
            "insert tombstone run event",
            "upsert run deletion",
            "write trace segment delete vectors",
            "advance deleted run head tombstone",
            "advance deleted run locator tombstone",
            "advance deleted trace locator tombstone",
            "load trace aggregate buckets",
            "tree trace",
            "threads trace",
            "rollups 0",
            "rollups 3600000000000",
        ]
    );
}

#[test]
fn a_run_that_is_not_there_is_not_deleted() {
    let run = RunDeletion::new("demo", "trace", "span", 9, &None);
    let (log, deleted) = deletion_log(vec![run], &[]);
    assert_eq!(deleted, 0);
    assert_eq!(log, vec!["lock project", "mark run head deleted span"]);
    assert_eq!(deletion_log(Vec::new(), &[]), (Vec::new(), 0));
}

#[test]
fn expired_runs_are_refreshed_once() {
    let runs = vec![
        RunDeletion::expired("demo", "b", "1", 9),
        RunDeletion::expired("demo", "a", "2", 9),
        RunDeletion::expired("demo", "b", "3", 9),
        RunDeletion::expired("demo", "c", "gone", 9),
    ];
    let (log, deleted) = deletion_log(runs, &["1", "2", "3"]);
    assert_eq!(deleted, 3);
    let refreshed: Vec<&String> = log
        .iter()
        .filter(|line| line.starts_with("tree") || line.starts_with("threads"))
        .collect();
    assert_eq!(refreshed, vec!["tree a", "threads a", "tree b", "threads b"]);
    assert_eq!(log.iter().filter(|line| *line == "lock project").count(), 1);
}

#[test]
fn retention_goes_through_the_policies() {
    assert_eq!(retention_period_nanos(Duration::from_millis(1)), Ok(1_000_000));
    assert!(retention_period_nanos(Duration::zero()).is_err());
    assert!(set_policy_statements("demo", Duration::zero()).is_err());
    assert_eq!(
        set_policy_statements("demo", Duration::from_millis(1))
            .expect("statements")
            .len(),
        2
    );
    let policies = || {
        vec![ProjectRetentionPolicy {
            project_name: "demo".to_owned(),
            retention_period_nanos: 30,
        }]
    };
    assert_eq!(
        next_retention_action(&policies(), 100, &Vec::new()),
        RetentionAction::Expire {
            project_name: "demo".to_owned(),
            cutoff_unix_nano: 70
        }
    );
    match next_retention_action(&policies(), 100, &vec![5]) {
        RetentionAction::Finished(receipt) => {
            assert_eq!(receipt.projects_checked, 1);
            assert_eq!(receipt.expired_runs, 5);
        }
        other => panic!("{other:?}"),
    }
    assert!(matches!(
        next_retention_action(&policies(), i64::MIN, &Vec::new()),
        RetentionAction::Failed(_)
    ));
}

fn cleanup_candidate(id: i64, index: Option<&str>) -> ObjectCleanupCandidate {
    ObjectCleanupCandidate {
        trace_segment_id: id,
        segment_uri: format!("segment-{id}"),
        segment_bytes: 10,
        search_index_uri: index.map(str::to_owned),
        search_index_bytes: 3,
    }
}

#[test]
fn compacted_objects_are_deleted_with_their_indexes() {
    let candidates = || vec![cleanup_candidate(1, Some("index-1")), cleanup_candidate(2, None)];
    assert_eq!(
        objects_to_delete(&candidates(), false),
        vec!["segment-1", "index-1", "segment-2"]
    );
    assert!(objects_to_delete(&candidates(), true).is_empty());
    assert!(mark_cleaned_statement(&candidates(), true, 5).is_none());
    assert!(mark_cleaned_statement(&candidates(), false, 5).is_some());
    assert_eq!(candidate_bytes(&cleanup_candidate(1, Some("index-1"))), 13);
    let receipt = cleanup_receipt(false, candidates(), &vec![true, false, true]);
    assert_eq!(receipt.deleted_objects, 2);
    assert_eq!(receipt.candidates.len(), 2);
    assert!(cleanup_candidates_statement(0, Duration { nanos: u128::MAX }).is_err());
}

#[test]
fn orphans_are_objects_that_nothing_names() {
    let object = |uri: &str| OrphanObjectCandidate {
        uri: uri.to_owned(),
        bytes: 4,
    };
    let found = orphan_candidates(
        vec![object("a"), object("b"), object("c")],
        &vec!["a".to_owned()],
        &vec!["c".to_owned()],
    )
    .expect("orphans");
    assert_eq!(found, vec![object("b")]);
    let receipt = orphan_cleanup_receipt(true, found, &Vec::new());
    assert_eq!(receipt.reclaimable_bytes, 4);
    assert_eq!(receipt.deleted_objects, 0);
}

#[test]
fn routes_are_stored_and_loaded() {
    assert_eq!(project_route_statement("demo").params.len(), 1);
    assert_eq!(
        record_project_route_statement("demo", "node", "uri").params.len(),
        3
    );
}

#[test]
fn times_and_orders_are_read() {
    assert_eq!(
        parse_rfc3339_nanos("1970-01-01T01:00:00.5+01:00"),
        Some(500_000_000)
    );
    assert_eq!(parse_rfc3339_nanos("yesterday"), None);
}
