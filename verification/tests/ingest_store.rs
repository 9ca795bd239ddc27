use kevindb::float::Float;
use kevindb::ingest::rollups::rollup_load_statements;
use kevindb::ingest::thread::{build_thread_trace_upsert, ThreadRunRow};
use kevindb::ingest::thread_store::{
    affected_threads, clear_trace_statements, old_threads_statement, run_preview_statement,
    thread_statements, thread_summary_statement, thread_traces_of_statement,
    trace_runs_statement, trace_tags_statement, ThreadTraceSummaryRow,
};
use kevindb::ingest::tree::RunTreeInput;
use kevindb::ingest::tree_store::{replace_tree_statements, tree_runs_statement};
use kevindb::record::{RunEventKind, SpanRecord};
use kevindb::statement::SqlParam;

fn text(value: &str) -> SqlParam {
    SqlParam::Text(value.to_owned())
}

fn float(number: f64) -> Float {
    Float {
        bits: number.to_bits(),
    }
}

fn thread_run(span_id: &str, thread_id: Option<&str>, start_time_unix_nano: i64) -> ThreadRunRow {
    ThreadRunRow {
        span_id: span_id.to_owned(),
        run_id: format!("run-{span_id}"),
        root_run_id: String::new(),
        root_span_id: "root".to_owned(),
        name: span_id.to_owned(),
        status: "success".to_owned(),
        is_root: span_id == "root",
        start_time_unix_nano,
        end_time_unix_nano: start_time_unix_nano + 10,
        prompt_tokens: Some(3),
        completion_tokens: None,
        total_tokens: None,
        prompt_cost: Some(float(0.5)),
        completion_cost: None,
        total_cost: None,
        trace_segment_id: Some(1),
        row_index: Some(0),
        thread_id: thread_id.map(str::to_owned),
        inputs_preview: Some(format!("in {span_id}")),
        outputs_preview: Some(format!("out {span_id}")),
        error_preview: None,
        first_token_time_unix_nano: None,
    }
}

#[test]
fn a_thread_trace_sums_its_runs() {
    let upsert = build_thread_trace_upsert(&vec![
        thread_run("root", Some("t"), 5),
        thread_run("child", Some("t"), 7),
    ]);
    assert_eq!(upsert.start_time_unix_nano, 5);
    assert_eq!(upsert.end_time_unix_nano, 17);
    assert_eq!(upsert.latency_nanos, 12);
    assert_eq!(upsert.prompt_tokens, Some(6));
    assert_eq!(upsert.completion_tokens, None);
    assert_eq!(upsert.prompt_costs, vec![float(0.5), float(0.5)]);
    assert_eq!(upsert.name, "root");
}

#[test]
fn threads_are_written_in_order() {
    let runs = vec![
        thread_run("root", Some("b"), 5),
        thread_run("child", Some("a"), 7),
        thread_run("loose", None, 9),
    ];
    let statements = thread_statements("demo", "trace", &runs);
    let threads: Vec<&SqlParam> = statements
        .iter()
        .filter(|statement| statement.purpose.contains("thread trace"))
        .map(|statement| &statement.params[1])
        .collect();
    assert_eq!(threads, vec![&text("a"), &text("b")]);
    assert!(statements
        .iter()
        .all(|statement| statement.params[0] == text("demo")));
    assert_eq!(
        affected_threads(&vec!["c".to_owned(), "a".to_owned()], &runs),
        vec!["a", "b", "c"]
    );
}

fn thread_trace(trace_id: &str, latency_nanos: i64) -> ThreadTraceSummaryRow {
    ThreadTraceSummaryRow {
        trace_id: trace_id.to_owned(),
        start_time_unix_nano: 1,
        latency_nanos,
        inputs_preview: Some(format!("in {trace_id}")),
        outputs_preview: None,
        error_preview: None,
        prompt_tokens: Some(2),
        completion_tokens: None,
        total_tokens: Some(2),
        prompt_cost: None,
        completion_cost: None,
        total_cost: Some(float(0.25)),
    }
}

#[test]
fn a_thread_without_traces_is_deleted() {
    let gone = thread_summary_statement("demo", "thread", &Vec::new());
    assert_eq!(gone.purpose, "delete empty thread summary");
    let kept = thread_summary_statement(
        "demo",
        "thread",
        &vec![thread_trace("a", 1_000_000_000), thread_trace("b", 3_000_000_000)],
    );
    assert!(kept.sql.starts_with("UPDATE threads"));
    assert!(kept.params.contains(&SqlParam::Integer(2)));
    assert!(kept
        .params
        .contains(&SqlParam::FloatSum(vec![float(0.25), float(0.25)])));
}

#[test]
fn traces_are_looked_up_by_project_and_id() {
    let own = vec![text("demo"), text("trace")];
    assert_eq!(old_threads_statement("demo", "trace").params, own);
    assert_eq!(trace_tags_statement("demo", "trace").params, own);
    assert_eq!(trace_runs_statement("demo", "trace").params, own);
    assert_eq!(tree_runs_statement("demo", "trace").params, own);
    for statement in clear_trace_statements("demo", "trace") {
        assert!(statement.sql.starts_with("DELETE FROM"));
        assert_eq!(statement.params, own);
    }
    assert_eq!(
        thread_traces_of_statement("demo", "thread").params,
        vec![text("demo"), text("thread")]
    );
}

#[test]
fn an_hour_of_rollups_is_replaced() {
    let (delete, load) = rollup_load_statements("demo", 3_600_000_000_000);
    assert!(delete.sql.starts_with("DELETE FROM run_metric_rollups"));
    assert_eq!(
        load.params,
        vec![
            text("demo"),
            SqlParam::Integer(3_600_000_000_000),
            SqlParam::Integer(7_200_000_000_000)
        ]
    );
    let (_, last) = rollup_load_statements("demo", i64::MAX - 1);
    assert_eq!(last.params[2], SqlParam::Integer(i64::MAX));
}

#[test]
fn a_tree_is_replaced_as_a_whole() {
    let run = |span_id: &str, parent: Option<&str>, start: i64| RunTreeInput {
        span_id: span_id.to_owned(),
        parent_span_id: parent.map(str::to_owned),
        run_id: format!("run-{span_id}"),
        start_time_unix_nano: start,
    };
    let statements = replace_tree_statements(
        "demo",
        "trace",
        vec![run("child", Some("root"), 2), run("root", None, 1)],
    );
    let purposes: Vec<&str> = statements
        .iter()
        .map(|statement| statement.purpose.as_str())
        .collect();
    assert_eq!(
        purposes
            .iter()
            .filter(|purpose| **purpose == "insert run tree node")
            .count(),
        2
    );
    assert!(statements[0].sql.starts_with("DELETE FROM"));
    assert!(statements[1].sql.starts_with("DELETE FROM"));
}

#[test]
fn previews_are_stored_with_their_run() {
    let statement = run_preview_statement(&SpanRecord {
        project_name: "demo".to_owned(),
        run_id: "run".to_owned(),
        trace_id: "trace".to_owned(),
        span_id: "span".to_owned(),
        parent_run_id: None,
        parent_span_id: None,
        name: "run".to_owned(),
        run_type: "llm".to_owned(),
        start_time_unix_nano: 1,
        end_time_unix_nano: 2,
        status_code: 1,
        event_kind: RunEventKind::End,
        attributes_json: r#"{"inputs": {"prompt": "hi"}}"#.to_owned(),
        idempotency_key: None,
    });
    assert!(statement
        .params
        .contains(&SqlParam::OptionalText(Some("hi".to_owned()))));
}
