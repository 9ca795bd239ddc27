use kevindb::float::{Cost, Float, FloatReading, FloatReadings};
use kevindb::ingest::indexes::{MetadataPair, RootLocator, ScalarIndexes};
use kevindb::ingest::preview::{bounded_preview, RunPreview, MAX_PREVIEW_BYTES};
use kevindb::ingest::thread::{clean_thread_id, thread_id_from_tags, thread_id_of};
use kevindb::ingest::tree::{build_trace_tree_index, RunTreeIndexNode, RunTreeInput};
use kevindb::metrics::{metric_number_texts, TypedRunMetrics};
use kevindb::record::{RunEventKind, SpanRecord};

fn readings_of(texts: &[String]) -> FloatReadings {
    let mut readings = FloatReadings::new();
    for text in texts {
        if let Ok(number) = text.parse::<f64>() {
            let nanos = number * 1_000_000_000.0;
            readings.insert(
                text.clone(),
                FloatReading {
                    bits: number.to_bits(),
                    text: number.to_string(),
                    debug: format!("{number:?}"),
                    whole: number as i64,
                    nanos: nanos as i64,
                    rounded_nanos: if nanos >= 0.0 && nanos <= i64::MAX as f64 {
                        Some(nanos.round() as i64)
                    } else {
                        None
                    },
                },
            );
        }
    }
    readings
}

fn number(float: Float) -> f64 {
    f64::from_bits(float.bits)
}

fn cost_number(cost: Cost) -> Option<f64> {
    match cost {
        Cost::Unknown => None,
        Cost::Stated(stated) => Some(number(stated)),
        Cost::Summed(prompt, completion) => Some(number(prompt) + number(completion)),
    }
}

fn metric_record(attributes_json: &str) -> SpanRecord {
    SpanRecord {
        project_name: "demo".to_owned(),
        run_id: "run".to_owned(),
        trace_id: "trace".to_owned(),
        span_id: "span".to_owned(),
        parent_run_id: None,
        parent_span_id: None,
        name: "llm".to_owned(),
        run_type: "llm".to_owned(),
        start_time_unix_nano: 100,
        end_time_unix_nano: 1000,
        status_code: 1,
        event_kind: RunEventKind::End,
        attributes_json: attributes_json.to_owned(),
        idempotency_key: None,
    }
}

fn metrics_of(record: &SpanRecord) -> TypedRunMetrics {
    let readings = readings_of(&metric_number_texts(&record.attributes_json));
    TypedRunMetrics::from_record(record, &readings)
}

#[test]
fn extracts_bounded_scalar_indexes() {
    let large = "x".repeat(kevindb::ingest::indexes::MAX_METADATA_VALUE_BYTES + 1);
    let mut record = metric_record(&format!(
        r#"{{
            "tags": ["prod", "prod", "llm"],
            "metadata": {{
                "thread_id": "thread-1",
                "temperature": 0.7,
                "large": "{large}",
                "object": {{"skip": true}}
            }},
            "metrics": {{
                "prompt_tokens": 12,
                "completion_tokens": 4,
                "total_tokens": 16,
                "total_cost": 0.002
            }},
            "gen_ai.request.model": "gpt-test",
            "gen_ai.system": "openai"
        }}"#
    ));
    record.start_time_unix_nano = 10;
    record.end_time_unix_nano = 42;

    let readings = readings_of(&metric_number_texts(&record.attributes_json));
    let indexes = ScalarIndexes::from_record(
        &record,
        RootLocator {
            run_id: "run".to_owned(),
            span_id: "span".to_owned(),
        },
        &readings,
    )
    .expect("build scalar indexes");

    assert_eq!(indexes.metrics.latency_nanos, 32);
    assert_eq!(indexes.tags, vec!["llm", "prod"]);
    assert!(indexes.metadata.contains(&MetadataPair {
        key: "thread_id".to_owned(),
        value: "thread-1".to_owned()
    }));
    assert!(indexes.metadata.contains(&MetadataPair {
        key: "temperature".to_owned(),
        value: "0.7".to_owned()
    }));
    assert!(!indexes.metadata.iter().any(|pair| pair.key == "large"));
    assert!(!indexes.metadata.iter().any(|pair| pair.key == "object"));
    assert_eq!(indexes.metrics.prompt_tokens, Some(12));
    assert_eq!(indexes.metrics.completion_tokens, Some(4));
    assert_eq!(indexes.metrics.total_tokens, Some(16));
    assert_eq!(cost_number(indexes.metrics.total_cost), Some(0.002));
    assert_eq!(indexes.metrics.model_name.as_deref(), Some("gpt-test"));
    assert_eq!(indexes.metrics.provider_name.as_deref(), Some("openai"));
}

#[test]
fn indexes_need_attributes_that_are_json() {
    let record = metric_record("{not json");
    let error = ScalarIndexes::from_record(
        &record,
        RootLocator {
            run_id: "run".to_owned(),
            span_id: "span".to_owned(),
        },
        &FloatReadings::new(),
    )
    .expect_err("attributes are not JSON");
    assert_eq!(error, "parse attributes_json for scalar indexes");
}

#[test]
fn extracts_thread_previews_from_common_message_shapes() {
    let preview = RunPreview::from_attributes_json(
        r#"{
            "langsmith.inputs": {
                "messages": [
                    {"role": "system", "content": "ignore"},
                    {"role": "user", "content": "hello"}
                ]
            },
            "langsmith.outputs": {
                "choices": [
                    {"message": {"role": "assistant", "content": "world"}}
                ]
            },
            "first_token_time": "1970-01-01T00:00:00.000000123Z"
        }"#,
    );

    assert_eq!(preview.inputs_preview.as_deref(), Some("hello"));
    assert_eq!(preview.outputs_preview.as_deref(), Some("world"));
    assert_eq!(preview.first_token_time_unix_nano, Some(123));
}

#[test]
fn bounds_preview_bytes() {
    let prompt = "x".repeat(MAX_PREVIEW_BYTES + 20);
    let preview =
        RunPreview::from_attributes_json(&format!(r#"{{"inputs": {{"prompt": "{prompt}"}}}}"#));

    assert_eq!(
        preview.inputs_preview.expect("preview").len(),
        MAX_PREVIEW_BYTES
    );
}

#[test]
fn a_preview_is_cut_between_characters() {
    let text = "é".repeat(MAX_PREVIEW_BYTES);
    let preview = bounded_preview(&text).expect("preview");
    assert!(preview.len() <= MAX_PREVIEW_BYTES);
    assert!(preview.len() + 2 > MAX_PREVIEW_BYTES);
    assert!(text.starts_with(&preview));
    assert_eq!(bounded_preview("   "), None);
}

#[test]
fn extracts_thread_ids_from_tags() {
    assert_eq!(
        thread_id_from_tags(&vec!["prod".to_owned(), "thread_id:abc".to_owned()]).as_deref(),
        Some("abc")
    );
    assert_eq!(
        thread_id_from_tags(&vec!["session_id=def".to_owned()]).as_deref(),
        Some("def")
    );
}

#[test]
fn a_thread_id_of_the_metadata_comes_first() {
    let tags = vec!["thread_id:abc".to_owned()];
    assert_eq!(
        thread_id_of(&Some(" meta ".to_owned()), &Some("session".to_owned()), &tags).as_deref(),
        Some("meta")
    );
    assert_eq!(
        thread_id_of(&Some("  ".to_owned()), &Some("session".to_owned()), &tags).as_deref(),
        Some("session")
    );
    assert_eq!(thread_id_of(&None, &None, &tags).as_deref(), Some("abc"));
    assert_eq!(thread_id_of(&None, &None, &vec!["prod".to_owned()]), None);
    assert_eq!(clean_thread_id(&Some("".to_owned())), None);
}

#[test]
fn extracts_langsmith_and_provider_metrics() {
    let record = metric_record(
        r#"{
            "usage": {
                "input_tokens": "12",
                "output_tokens": 4
            },
            "metrics": {
                "prompt_cost": 0.001,
                "completion_cost": "0.002",
                "first_token_latency": 0.25
            },
            "score": "0.9",
            "metadata": {
                "ls_model_name": " GPT-Test ",
                "ls_provider": "Open-AI"
            }
        }"#,
    );

    let metrics = metrics_of(&record);

    assert_eq!(metrics.latency_nanos, 900);
    assert_eq!(metrics.prompt_tokens, Some(12));
    assert_eq!(metrics.completion_tokens, Some(4));
    assert_eq!(metrics.total_tokens, Some(16));
    assert_eq!(metrics.prompt_cost.map(number), Some(0.001));
    assert_eq!(metrics.completion_cost.map(number), Some(0.002));
    assert_eq!(cost_number(metrics.total_cost), Some(0.003));
    assert_eq!(metrics.first_token_latency_nanos, Some(250_000_000));
    assert_eq!(metrics.evaluator_score.map(number), Some(0.9));
    assert_eq!(metrics.model_name.as_deref(), Some("gpt-test"));
    assert_eq!(metrics.provider_name.as_deref(), Some("openai"));
}

#[test]
fn ignores_missing_malformed_and_negative_metrics() {
    let record = metric_record(
        r#"{
            "prompt_tokens": "nope",
            "completion_tokens": -1,
            "total_cost": "NaN",
            "first_token_time_unix_nano": 99,
            "score": {"nested": true}
        }"#,
    );

    let metrics = metrics_of(&record);

    assert_eq!(metrics.prompt_tokens, None);
    assert_eq!(metrics.completion_tokens, None);
    assert_eq!(metrics.total_tokens, None);
    assert_eq!(cost_number(metrics.total_cost), None);
    assert_eq!(metrics.first_token_latency_nanos, None);
    assert_eq!(metrics.evaluator_score, None);
}

#[test]
fn derives_first_token_latency_from_rfc3339_time() {
    let mut record = metric_record(r#"{"first_token_time": "1970-01-01T00:00:01.000000123Z"}"#);
    record.start_time_unix_nano = 1_000_000_000;

    let metrics = metrics_of(&record);

    assert_eq!(metrics.first_token_latency_nanos, Some(123));
}

#[test]
fn attributes_that_are_not_json_have_no_metrics() {
    let record = metric_record("{");
    let metrics = metrics_of(&record);
    assert_eq!(metrics.latency_nanos, 900);
    assert_eq!(metrics.total_tokens, None);
    assert_eq!(metrics.total_cost, Cost::Unknown);
    assert_eq!(metrics.model_name, None);
}

fn input(
    span_id: &str,
    parent_span_id: Option<&str>,
    start_time_unix_nano: i64,
) -> RunTreeInput {
    RunTreeInput {
        span_id: span_id.to_owned(),
        parent_span_id: parent_span_id.map(str::to_owned),
        run_id: format!("run-{span_id}"),
        start_time_unix_nano,
    }
}

fn node<'a>(nodes: &'a [RunTreeIndexNode], span_id: &str) -> &'a RunTreeIndexNode {
    nodes
        .iter()
        .find(|node| node.span_id == span_id)
        .expect("tree node")
}

#[test]
fn builds_nested_set_tree_with_multiple_roots() {
    let nodes = build_trace_tree_index(vec![
        input("child", Some("root"), 20),
        input("root", None, 10),
        input("orphan", Some("missing"), 30),
    ]);

    let root = node(&nodes, "root");
    let child = node(&nodes, "child");
    let orphan = node(&nodes, "orphan");
    assert_eq!(root.root_span_id, "root");
    assert_eq!(root.depth, 0);
    assert_eq!(root.descendant_count, 1);
    assert!(root.subtree_start < child.subtree_start);
    assert!(root.subtree_end > child.subtree_end);
    assert_eq!(child.parent_span_id.as_deref(), Some("root"));
    assert_eq!(child.depth, 1);
    assert_eq!(orphan.parent_span_id, None);
    assert!(orphan.unresolved_parent);
}

#[test]
fn guards_cycle_edges_without_losing_nodes() {
    let nodes = build_trace_tree_index(vec![
        input("a", Some("b"), 10),
        input("b", Some("a"), 20),
        input("c", Some("a"), 30),
    ]);

    assert_eq!(nodes.len(), 3);
    assert!(node(&nodes, "a").cycle_detected);
    assert!(node(&nodes, "b").cycle_detected);
    assert_eq!(node(&nodes, "a").parent_span_id, None);
    assert_eq!(node(&nodes, "b").parent_span_id, None);
    assert_eq!(node(&nodes, "c").parent_span_id.as_deref(), Some("a"));
}

#[test]
fn subtrees_are_nested_intervals() {
    let nodes = build_trace_tree_index(vec![
        input("root", None, 1),
        input("late", Some("root"), 9),
        input("early", Some("root"), 2),
        input("leaf", Some("early"), 3),
    ]);
    let root = node(&nodes, "root");
    let early = node(&nodes, "early");
    let leaf = node(&nodes, "leaf");
    let late = node(&nodes, "late");
    assert_eq!((root.subtree_start, root.subtree_end), (0, 7));
    assert_eq!((early.subtree_start, early.subtree_end), (1, 4));
    assert_eq!((leaf.subtree_start, leaf.subtree_end), (2, 3));
    assert_eq!((late.subtree_start, late.subtree_end), (5, 6));
    assert_eq!((early.sibling_order, late.sibling_order), (0, 1));
    assert_eq!((root.descendant_count, early.descendant_count), (3, 1));
    assert_eq!(leaf.root_run_id, "run-root");
}
