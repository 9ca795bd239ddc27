use kevindb::float::{Cost, Float};
use kevindb::ingest::rollups::{affected_hours, rollup_statements, rollup_time_bucket, RollupRun};
use kevindb::query::aggregates::grouping::{
    aggregate_rows, time_bucket, AggregateRunRow, FeedbackScore, RunAggregateRow, RunFeedback,
    RunTag,
};
use kevindb::query::aggregates::rollups::{
    feedback_rollup_row, rollup_eligible, rollup_kind, rollup_sql, run_rollup_row, FeedbackRollup,
    RollupKind, RollupSum, RunRollup,
};
use kevindb::query::aggregates::scan::{
    aggregate_datafusion_sql, feedback_by_run, feedback_statement, keep_candidates,
    tags_statement, LoadedScore, ScannedRun,
};
use kevindb::query::aggregates::stats::{
    feedback_distribution, float_stats, integer_stats, percentile_place, FeedbackScoreStats,
};
use kevindb::query::aggregates::{
    reject_old_metric_segments, validate_aggregate_query, RunAggregateGroup, RunAggregateQuery,
    RunAggregateSource, AGGREGATE_ROLLUP_BUCKET_UNIX_NANOS,
};
use kevindb::query::{RunKey, RunQuery, SegmentSource};
use kevindb::statement::SqlParam;

const TRACE_ID: &str = "aaaaaaaaaaaaaaaaaaaaaaaaaaaaaaaa";

fn float(number: f64) -> Float {
    Float {
        bits: number.to_bits(),
    }
}

fn number(float: Float) -> f64 {
    f64::from_bits(float.bits)
}

fn row(span_id: &str, run_type: &str, start_time_unix_nano: i64) -> AggregateRunRow {
    AggregateRunRow {
        project_name: "demo".to_owned(),
        trace_id: TRACE_ID.to_owned(),
        span_id: span_id.to_owned(),
        run_type: run_type.to_owned(),
        status: "success".to_owned(),
        start_time_unix_nano,
        latency_nanos: 20,
        prompt_tokens: None,
        completion_tokens: None,
        total_tokens: None,
        prompt_cost: None,
        completion_cost: None,
        total_cost: None,
        first_token_latency_nanos: None,
        evaluator_score: None,
        model_name: None,
        provider_name: None,
    }
}

fn feedback(row: &AggregateRunRow, key: &str, score: f64) -> RunFeedback {
    RunFeedback {
        run: row.run_key(),
        score: FeedbackScore {
            key: key.to_owned(),
            score: float(score),
        },
    }
}

fn score_count(row: &RunAggregateRow, key: &str) -> Option<usize> {
    row.metrics
        .feedback_scores
        .iter()
        .find(|scores| scores.key == key)
        .map(|scores| scores.stats.values.len())
}

#[test]
fn ungrouped_feedback_aggregates_keep_all_requested_keys_without_recounting_runs() {
    let row = row("span-a", "llm", 10);
    let mut query = RunAggregateQuery::new("demo");
    query.feedback_keys = vec!["quality".to_owned(), "cost".to_owned()];
    let feedback_scores = vec![feedback(&row, "quality", 0.8), feedback(&row, "cost", 0.2)];

    let rows = aggregate_rows(&vec![row], &query, &Vec::new(), &feedback_scores);

    assert_eq!(rows.len(), 1);
    assert_eq!(rows[0].metrics.count, 1);
    assert_eq!(score_count(&rows[0], "quality"), Some(1));
    assert_eq!(score_count(&rows[0], "cost"), Some(1));
}

#[test]
fn grouped_feedback_aggregates_keep_requested_score_metrics() {
    let row = row("span-a", "llm", 10);
    let mut query = RunAggregateQuery::new("demo");
    query.group_by = vec![RunAggregateGroup::RunType];
    query.feedback_keys = vec!["quality".to_owned()];
    let feedback_scores = vec![feedback(&row, "quality", 0.8)];

    let rows = aggregate_rows(&vec![row], &query, &Vec::new(), &feedback_scores);

    assert_eq!(rows.len(), 1);
    assert_eq!(rows[0].group.get("run_type").as_deref(), Some("llm"));
    assert_eq!(rows[0].metrics.count, 1);
    assert_eq!(score_count(&rows[0], "quality"), Some(1));
}

#[test]
fn groups_split_the_runs() {
    let mut failed = row("b", "tool", 15);
    failed.status = "error".to_owned();
    failed.latency_nanos = 40;
    failed.total_tokens = Some(7);
    let rows = vec![row("a", "llm", 10), failed, row("c", "llm", 20)];
    let mut query = RunAggregateQuery::new("demo");
    query.group_by = vec![RunAggregateGroup::RunType, RunAggregateGroup::Error];
    let groups = aggregate_rows(&rows, &query, &Vec::new(), &Vec::new());
    assert_eq!(groups.len(), 2);
    assert_eq!(groups.iter().map(|group| group.metrics.count).sum::<u64>(), 3);
    let tool = groups
        .iter()
        .find(|group| group.group.get("run_type").as_deref() == Some("tool"))
        .expect("tool");
    assert_eq!(tool.group.get("error").as_deref(), Some("true"));
    assert_eq!(tool.metrics.error_count, 1);
    let latency = tool.metrics.latency_nanos.as_ref().expect("latency");
    assert_eq!(latency.values, vec![40]);
    assert_eq!((latency.min, latency.max), (40, 40));
    assert_eq!(
        tool.metrics.total_tokens.as_ref().expect("tokens").values,
        vec![7]
    );
}

#[test]
fn a_run_counts_in_each_of_its_tags() {
    let tagged = row("a", "llm", 10);
    let tags = vec![
        RunTag {
            key: tagged.run_key(),
            tag: "prod".to_owned(),
        },
        RunTag {
            key: tagged.run_key(),
            tag: "beta".to_owned(),
        },
    ];
    let mut query = RunAggregateQuery::new("demo");
    query.group_by = vec![RunAggregateGroup::Tag];
    let groups = aggregate_rows(&vec![tagged], &query, &tags, &Vec::new());
    let names: Vec<Option<String>> = groups.iter().map(|group| group.group.get("tag")).collect();
    assert_eq!(names, vec![Some("beta".to_owned()), Some("prod".to_owned())]);
}

#[test]
fn times_fall_into_buckets() {
    assert_eq!(time_bucket(25, Some(10)), 20);
    assert_eq!(time_bucket(-1, Some(10)), -10);
    assert_eq!(rollup_time_bucket(3_600_000_000_005), 3_600_000_000_000);
    assert_eq!(
        affected_hours(&vec![3_600_000_000_005, 1, 2]),
        vec![0, 3_600_000_000_000]
    );
}

#[test]
fn percentiles_are_values_that_occur() {
    assert_eq!(percentile_place(1, 99), 0);
    assert_eq!(percentile_place(100, 50), 50);
    let stats = integer_stats(vec![30, 10, 20], true).expect("stats");
    assert_eq!((stats.min, stats.max), (10, 30));
    assert_eq!(stats.p50, Some(20));
    assert_eq!(stats.p99, Some(30));
    assert!(integer_stats(Vec::new(), true).is_none());
    let stats = float_stats(vec![float(0.5), float(-1.0)], false).expect("stats");
    assert_eq!((number(stats.min), number(stats.max)), (-1.0, 0.5));
    assert_eq!(stats.p95, None);
}

#[test]
fn scores_are_distributed_over_quarters() {
    let scores: Vec<Float> = [-0.1, 0.0, 0.1, 0.25, 0.5, 0.75, 1.0, 1.5]
        .iter()
        .map(|score| float(*score))
        .collect();
    let parts = feedback_distribution(&scores);
    assert_eq!(parts.lt_0, 1);
    assert_eq!(parts.from_0_to_0_25, 2);
    assert_eq!(parts.from_0_25_to_0_5, 1);
    assert_eq!(parts.from_0_5_to_0_75, 1);
    assert_eq!(parts.from_0_75_to_1, 2);
    assert_eq!(parts.gt_1, 1);
}

#[test]
fn builds_rollup_sql_for_dashboard_shape() {
    let mut query = RunAggregateQuery::new("demo");
    query.group_by = vec![
        RunAggregateGroup::Project,
        RunAggregateGroup::TimeBucket,
        RunAggregateGroup::RunType,
    ];
    query.time_bucket_nanos = Some(AGGREGATE_ROLLUP_BUCKET_UNIX_NANOS);

    let (sql, source) = rollup_sql(&query).expect("rollup sql");

    assert_eq!(source, RunAggregateSource::Rollup);
    assert!(sql.contains("FROM run_metric_rollups"));
    assert!(sql.contains("rollup_kind = 'run_type'"));
}

#[test]
fn rollups_are_ineligible_for_filters_not_encoded_by_the_rollup() {
    let mut project_rollup = RunAggregateQuery::new("demo");
    project_rollup.group_by = vec![RunAggregateGroup::Project, RunAggregateGroup::TimeBucket];
    project_rollup.time_bucket_nanos = Some(AGGREGATE_ROLLUP_BUCKET_UNIX_NANOS);
    project_rollup.run_type = Some("llm".to_owned());
    assert!(!rollup_eligible(&project_rollup));

    let mut run_type_rollup = project_rollup;
    run_type_rollup.group_by.push(RunAggregateGroup::RunType);
    assert!(rollup_eligible(&run_type_rollup));

    run_type_rollup.error = Some(true);
    assert!(!rollup_eligible(&run_type_rollup));
}

#[test]
fn rollups_are_ineligible_for_partial_time_buckets() {
    let mut query = RunAggregateQuery::new("demo");
    query.group_by = vec![RunAggregateGroup::Project, RunAggregateGroup::TimeBucket];
    query.time_bucket_nanos = Some(AGGREGATE_ROLLUP_BUCKET_UNIX_NANOS);
    assert!(rollup_eligible(&query));

    query.start_time_min_unix_nano = Some(1);
    assert!(!rollup_eligible(&query));

    query.start_time_min_unix_nano = Some(AGGREGATE_ROLLUP_BUCKET_UNIX_NANOS);
    query.start_time_max_unix_nano = Some(2 * AGGREGATE_ROLLUP_BUCKET_UNIX_NANOS - 1);
    assert!(rollup_eligible(&query));

    query.start_time_max_unix_nano = Some(2 * AGGREGATE_ROLLUP_BUCKET_UNIX_NANOS);
    assert!(!rollup_eligible(&query));
}

#[test]
fn a_rollup_kind_answers_one_shape() {
    let mut query = RunAggregateQuery::new("demo");
    query.group_by = vec![RunAggregateGroup::Project, RunAggregateGroup::TimeBucket];
    query.time_bucket_nanos = Some(AGGREGATE_ROLLUP_BUCKET_UNIX_NANOS);
    assert_eq!(rollup_kind(&query), Some(RollupKind::Project));
    query.group_by.push(RunAggregateGroup::Model);
    assert_eq!(rollup_kind(&query), Some(RollupKind::Model));
    query.group_by.push(RunAggregateGroup::Tag);
    assert_eq!(rollup_kind(&query), None);
}

fn run_rollup() -> RunRollup {
    RunRollup {
        project_name: "demo".to_owned(),
        time_bucket_start_unix_nano: 0,
        rollup_kind: "run_type".to_owned(),
        group_value: "llm".to_owned(),
        run_count: 3,
        error_count: -1,
        latency_min_nanos: Some(1),
        latency_max_nanos: Some(9),
        latency_avg_nanos: Some(float(4.0)),
        latency_p50_nanos: None,
        latency_p95_nanos: None,
        latency_p99_nanos: None,
        prompt_tokens_sum: Some(6),
        prompt_tokens_avg: None,
        completion_tokens_sum: None,
        completion_tokens_avg: None,
        total_tokens_sum: None,
        total_tokens_avg: None,
        prompt_cost_sum: None,
        prompt_cost_avg: None,
        completion_cost_sum: None,
        completion_cost_avg: None,
        total_cost_sum: Some(float(0.5)),
        total_cost_avg: None,
        evaluator_score_avg: None,
    }
}

#[test]
fn a_stored_rollup_is_read_as_an_aggregate() {
    let row = run_rollup_row(&run_rollup());
    assert_eq!(row.count, 3);
    assert_eq!(row.error_count, 0);
    assert_eq!(row.group.get("run_type").as_deref(), Some("llm"));
    assert_eq!(
        row.prompt_tokens.expect("tokens").sum,
        Some(RollupSum::Integer(6))
    );
    assert_eq!(row.completion_tokens, None);
    assert_eq!(row.latency_nanos.max, Some(9));
}

fn feedback_rollup(distribution: &str) -> FeedbackRollup {
    FeedbackRollup {
        project_name: "demo".to_owned(),
        time_bucket_start_unix_nano: 0,
        feedback_key: "quality".to_owned(),
        feedback_count: 4,
        score_count: 3,
        score_min: None,
        score_max: None,
        score_avg: Some(float(0.5)),
        score_p50: None,
        score_p95: None,
        score_p99: None,
        score_distribution_json: distribution.to_owned(),
    }
}

#[test]
fn a_stored_distribution_is_read_in_the_order_of_keys() {
    let row = feedback_rollup_row(&feedback_rollup(r#"{"gt_1": 2, "a": 1}"#)).expect("row");
    assert_eq!(
        row.distribution,
        vec![("a".to_owned(), 1), ("gt_1".to_owned(), 2)]
    );
    assert_eq!((row.count, row.score_count), (4, 3));
    assert!(feedback_rollup_row(&feedback_rollup(r#"{"a": -1}"#)).is_err());
}

#[test]
fn aggregate_queries_are_checked_first() {
    let mut query = RunAggregateQuery::new("demo");
    assert_eq!(validate_aggregate_query(&query), Ok(()));
    query.group_by = vec![RunAggregateGroup::TimeBucket];
    assert_eq!(
        validate_aggregate_query(&query),
        Err(
            "aggregate query rejected: time_bucket_nanos is required for time_bucket grouping"
                .to_owned()
        )
    );
    query.project_names = Vec::new();
    assert_eq!(
        validate_aggregate_query(&query),
        Err("aggregate query rejected: project_names is required".to_owned())
    );
    let old = SegmentSource {
        uri: "old.vortex".to_owned(),
        total_bytes: 1,
        schema_version: 2,
        search_index_uri: None,
        search_index_bytes: 0,
        search_index_schema_version: 0,
        candidate_rows: Vec::new(),
    };
    assert_eq!(
        reject_old_metric_segments(&vec![old], 3),
        Err(
            "aggregate query rejected: segment old.vortex has schema version 2, typed metric columns require version 3"
                .to_owned()
        )
    );
}

fn scanned(span_id: &str, run_id: Option<&str>) -> ScannedRun {
    ScannedRun {
        run_id: run_id.map(str::to_owned),
        row: row(span_id, "llm", 1),
    }
}

#[test]
fn scans_load_tags_and_feedback_where_asked() {
    let mut query = RunAggregateQuery::new("demo");
    let key = RunKey {
        project_name: "demo".to_owned(),
        trace_id: TRACE_ID.to_owned(),
        span_id: "a".to_owned(),
    };
    assert!(tags_statement(&query, &vec![key]).is_none());
    let key = RunKey {
        project_name: "demo".to_owned(),
        trace_id: TRACE_ID.to_owned(),
        span_id: "a".to_owned(),
    };
    query.group_by = vec![RunAggregateGroup::Tag];
    assert!(tags_statement(&query, &vec![key]).is_some());
    let runs = vec![scanned("a", Some("run-a")), scanned("b", None)];
    assert!(feedback_statement(&RunAggregateQuery::new("demo"), &runs).is_none());
    query.feedback_keys = vec!["quality".to_owned()];
    assert!(feedback_statement(&query, &runs)
        .expect("statement")
        .sql
        .contains("'run-a'"));
    let loaded = vec![LoadedScore {
        run_id: "run-a".to_owned(),
        score: FeedbackScore {
            key: "quality".to_owned(),
            score: float(0.5),
        },
    }];
    let given = feedback_by_run(&runs, &loaded);
    assert_eq!(given.len(), 1);
    assert_eq!(given[0].run.span_id, "a");
    let twice = vec![scanned("a", Some("run-a")), scanned("a", Some("run-a"))];
    let given = feedback_by_run(&twice, &loaded);
    assert_eq!(given.len(), 1);
    let key = RunKey {
        project_name: "demo".to_owned(),
        trace_id: TRACE_ID.to_owned(),
        span_id: "b".to_owned(),
    };
    let kept = keep_candidates(runs, &vec![key]);
    assert_eq!(kept.len(), 1);
    assert_eq!(kept[0].row.span_id, "b");
    let sql = aggregate_datafusion_sql(&Vec::new(), &RunQuery::new("demo"), None);
    assert!(sql.contains("project_name IN ('demo')"));
}

#[test]
fn rollups_are_written_for_each_kind() {
    let run = RollupRun {
        run_type: "llm".to_owned(),
        status: "success".to_owned(),
        start_time_unix_nano: 5,
        latency_nanos: 7,
        prompt_tokens: Some(3),
        completion_tokens: None,
        total_tokens: None,
        prompt_cost: Some(float(0.25)),
        completion_cost: None,
        total_cost: None,
        evaluator_score: None,
        model_name: Some("m".to_owned()),
    };
    let statements = rollup_statements("demo", &vec![run]);
    assert_eq!(statements.len(), 4);
    assert!(statements
        .iter()
        .all(|statement| statement.params[0] == SqlParam::Text("demo".to_owned())));
    assert_eq!(Cost::Stated(float(0.25)), Cost::Stated(float(0.25)));
}

#[test]
fn score_statistics_hold_all_scores() {
    let row = row("a", "llm", 1);
    let mut query = RunAggregateQuery::new("demo");
    query.group_by = vec![RunAggregateGroup::FeedbackKey];
    query.feedback_keys = vec!["quality".to_owned()];
    let scores = vec![feedback(&row, "quality", 0.25), feedback(&row, "quality", 0.75)];
    let rows = aggregate_rows(&vec![row], &query, &Vec::new(), &scores);
    assert_eq!(rows.len(), 1);
    assert_eq!(rows[0].group.get("feedback_key").as_deref(), Some("quality"));
    let stats: &FeedbackScoreStats = &rows[0].metrics.feedback_scores[0].stats;
    assert_eq!(stats.values.len(), 2);
    assert_eq!(stats.min.map(number), Some(0.25));
    assert_eq!(stats.max.map(number), Some(0.75));
}
