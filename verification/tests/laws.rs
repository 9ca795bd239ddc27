use kevindb::float::{Float, FloatReadings};
use kevindb::ingest::indexes::{
    RootLocator, ScalarIndexes, MAX_METADATA_PAIRS, MAX_METADATA_VALUE_BYTES, MAX_TAGS,
    MAX_TAG_BYTES,
};
use kevindb::ingest::records::{
    escape_path_component, group_records_by_partition, record_partition_key, segment_uri,
};
use kevindb::ingest::thread::{greatest_of, least_of};
use kevindb::ingest::tree::{build_trace_tree_index, RunTreeInput};
use kevindb::query::aggregates::grouping::{aggregate_rows, AggregateRunRow};
use kevindb::query::aggregates::{RunAggregateGroup, RunAggregateQuery};
use kevindb::query::cleanup::{orphan_candidates, OrphanObjectCandidate};
use kevindb::query::distributed::{plan_partitions, DistributedQueryConfig};
use kevindb::query::filter::FilterExpr;
use kevindb::query::scan::page_datafusion_runs;
use kevindb::query::tree::{trace_tree_from_runs, RunNode};
use kevindb::query::{
    candidate_run_source_pushdown_sql, RunKey, RunQuery, RunSummary, SegmentSource,
};
use kevindb::record::{RunEventKind, SpanRecord};
use kevindb::sql::{escape_like_pattern, sql_string_literal};
use kevindb::text::{integer_text, parsed_i64, truncate_utf8};
use kevindb::time::bucket_start_of;

fn record(project_name: &str, span_id: &str, start_time_unix_nano: i64) -> SpanRecord {
    SpanRecord {
        project_name: project_name.to_owned(),
        run_id: String::new(),
        trace_id: "trace".to_owned(),
        span_id: span_id.to_owned(),
        parent_run_id: None,
        parent_span_id: None,
        name: "run".to_owned(),
        run_type: "llm".to_owned(),
        start_time_unix_nano,
        end_time_unix_nano: start_time_unix_nano,
        status_code: 1,
        event_kind: RunEventKind::End,
        attributes_json: "{}".to_owned(),
        idempotency_key: None,
    }
}

fn run(span_id: &str, parent_span_id: Option<&str>, start_time_unix_nano: i64) -> RunSummary {
    RunSummary {
        project_name: "demo".to_owned(),
        run_id: None,
        trace_id: "trace".to_owned(),
        span_id: span_id.to_owned(),
        parent_run_id: None,
        parent_span_id: parent_span_id.map(str::to_owned),
        name: span_id.to_owned(),
        run_type: "llm".to_owned(),
        status: "success".to_owned(),
        start_time_unix_nano,
        end_time_unix_nano: start_time_unix_nano,
        is_root: parent_span_id.is_none(),
        attributes_json: "{}".to_owned(),
    }
}

fn key(span_id: &str) -> RunKey {
    RunKey {
        project_name: "demo".to_owned(),
        trace_id: "trace".to_owned(),
        span_id: span_id.to_owned(),
    }
}

#[test]
fn a_literal_ends_where_its_text_does() {
    assert_eq!(sql_string_literal("a' OR '1'='1"), "'a'' OR ''1''=''1'");
    assert_eq!(sql_string_literal(""), "''");
}

#[test]
fn an_escaped_pattern_has_no_wildcard() {
    let pattern = escape_like_pattern("a%b_c\\");
    let mut plain = String::new();
    let mut chars = pattern.chars();
    while let Some(c) = chars.next() {
        assert!(c != '%' && c != '_');
        plain.push(if c == '\\' { chars.next().expect("escaped") } else { c });
    }
    assert_eq!(plain, "a%b_c\\");
}

#[test]
fn integers_read_back() {
    for n in [0, 7, -7, 10, i64::MAX, i64::MIN] {
        assert_eq!(integer_text(n), n.to_string());
        assert_eq!(parsed_i64(&integer_text(n)), Some(n));
    }
}

#[test]
fn a_cut_text_fits() {
    assert_eq!(truncate_utf8("aé", 2), "a");
    assert_eq!(truncate_utf8("aé", 3), "aé");
    assert_eq!(truncate_utf8("", 3), "");
    assert_eq!(truncate_utf8("aé", usize::MAX), "aé");
    assert_eq!(truncate_utf8("aé", 0), "");
}

#[test]
fn names_in_the_object_store_tell_projects_apart() {
    let names: Vec<String> = ["a/b", "a%2Fb", "a%b", "a b", "ä"]
        .iter()
        .map(|name| escape_path_component(name))
        .collect();
    for (i, name) in names.iter().enumerate() {
        assert!(!name.contains('/'));
        assert!(!names[i + 1..].contains(name));
    }
    let records = vec![record("demo", "a", 1)];
    let partition = record_partition_key(&records[0]);
    let uri = |now, number| segment_uri(&partition, &records, now, number).expect("uri");
    assert_ne!(uri(11, 1), uri(1, 11));
    assert_ne!(uri(1, 1), uri(1, 2));
    assert_eq!(
        uri(5, 6),
        "projects/demo/time-buckets/0/trace-segments/5-6-trace.vortex"
    );
}

#[test]
fn indexes_never_outgrow_their_bounds() {
    let tags: Vec<String> = (0..MAX_TAGS + 5).map(|n| format!("\"tag-{n:04}\"")).collect();
    let pairs: Vec<String> = (0..MAX_METADATA_PAIRS + 5)
        .map(|n| format!("\"key-{n:04}\": \"v\""))
        .collect();
    let mut long = record("demo", "a", 1);
    long.attributes_json = format!(
        r#"{{"tags": ["{}", "", {}], "metadata": {{"long": "{}", {}}}}}"#,
        "t".repeat(MAX_TAG_BYTES + 1),
        tags.join(","),
        "v".repeat(MAX_METADATA_VALUE_BYTES + 1),
        pairs.join(",")
    );
    let indexes = ScalarIndexes::from_record(
        &long,
        RootLocator {
            run_id: String::new(),
            span_id: "a".to_owned(),
        },
        &FloatReadings::new(),
    )
    .expect("indexes");
    assert_eq!(indexes.tags.len(), MAX_TAGS);
    assert_eq!(indexes.tags[0], "tag-0000");
    assert_eq!(indexes.metadata.len(), MAX_METADATA_PAIRS);
    assert!(indexes.metadata.iter().all(|pair| pair.key != "long"));
}

#[test]
fn grouping_keeps_every_record() {
    let records = vec![
        record("b", "1", 1),
        record("a", "2", 7_200_000_000_000),
        record("b", "3", 2),
    ];
    let groups = group_records_by_partition(&records);
    assert_eq!(groups.iter().map(|group| group.records.len()).sum::<usize>(), 3);
}

#[test]
fn least_and_greatest_are_among_the_values() {
    assert_eq!(least_of(&vec![3, -2, 9]), -2);
    assert_eq!(greatest_of(&vec![3, -2, 9]), 9);
}

#[test]
fn a_bucket_starts_at_or_before_its_time() {
    for time in [-7, -6, 0, 5, 6, i64::MAX] {
        let start = bucket_start_of(time, 6);
        assert!(start <= time as i128 && (time as i128) < start + 6);
        assert_eq!(start.rem_euclid(6), 0);
    }
}

fn spans_of(node: &RunNode, out: &mut Vec<String>) {
    out.push(node.run.span_id.clone());
    for child in &node.children {
        assert_eq!(
            child.run.parent_span_id.as_deref(),
            Some(node.run.span_id.as_str())
        );
        spans_of(child, out);
    }
}

#[test]
fn a_tree_holds_each_span_once() {
    let runs = vec![
        run("leaf", Some("mid"), 3),
        run("mid", Some("root"), 2),
        run("root", None, 1),
        run("lost", Some("nowhere"), 4),
    ];
    let tree = trace_tree_from_runs("demo", "trace", &runs);
    let mut spans = Vec::new();
    for root in &tree.roots {
        spans_of(root, &mut spans);
    }
    assert_eq!(spans, vec!["root", "mid", "leaf", "lost"]);
}

#[test]
fn the_page_of_all_is_the_page_of_the_pages() {
    let mut query = RunQuery::new("demo");
    query.limit = Some(2);
    let page = |runs: Vec<RunSummary>| page_datafusion_runs(runs, &query);
    let mut parts = page(vec![run("d", None, 4), run("a", None, 1), run("c", None, 3)]);
    parts.extend(page(vec![run("b", None, 2), run("e", None, 5)]));
    assert_eq!(
        page(parts),
        page(vec![
            run("a", None, 1),
            run("b", None, 2),
            run("c", None, 3),
            run("d", None, 4),
            run("e", None, 5)
        ])
    );
}

#[test]
fn candidates_are_named_in_one_order() {
    assert_eq!(
        candidate_run_source_pushdown_sql(Some(&vec![key("b"), key("a")])),
        candidate_run_source_pushdown_sql(Some(&vec![key("a"), key("b"), key("a")]))
    );
    assert_eq!(candidate_run_source_pushdown_sql(None), None);
}

#[test]
fn each_segment_goes_to_one_worker() {
    let segment = |uri: &str| SegmentSource {
        uri: uri.to_owned(),
        total_bytes: 1,
        schema_version: 2,
        search_index_uri: None,
        search_index_bytes: 0,
        search_index_schema_version: 0,
        candidate_rows: Vec::new(),
    };
    let config = DistributedQueryConfig {
        max_segments_per_partition: 2,
        ..DistributedQueryConfig::default()
    };
    let uris: Vec<String> = plan_partitions(
        &vec![segment("a"), segment("b"), segment("c")],
        &config,
    )
    .into_iter()
    .flat_map(|partition| partition.segments)
    .map(|source| source.uri)
    .collect();
    assert_eq!(uris, vec!["a", "b", "c"]);
}

#[test]
fn a_scalar_filter_is_its_own_prefilter() {
    let expr = FilterExpr::parse(
        r#"and(eq(name, "a"), has(tags, "b"))"#,
        &FloatReadings::new(),
    )
    .expect("filter");
    let projects = vec!["demo".to_owned()];
    assert_eq!(
        expr.compile_run_head_prefilter_for_projects("heads", &projects),
        expr.compile_run_head_filter_for_projects("heads", &projects)
            .map(Some)
    );
    assert_eq!(expr.phase6_search_predicate(), Ok(None));
}

#[test]
fn an_orphan_is_not_referenced() {
    let objects = vec![
        OrphanObjectCandidate {
            uri: "kept".to_owned(),
            bytes: 1,
        },
        OrphanObjectCandidate {
            uri: "lost".to_owned(),
            bytes: 2,
        },
    ];
    let found = orphan_candidates(objects, &Vec::new(), &vec!["kept".to_owned()]).expect("orphans");
    assert_eq!(found.len(), 1);
    assert_eq!(found[0].uri, "lost");
}

#[test]
fn a_late_parent_stands_where_it_would_have_stood() {
    let input = |span_id: &str, parent: Option<&str>, start: i64| RunTreeInput {
        span_id: span_id.to_owned(),
        parent_span_id: parent.map(str::to_owned),
        run_id: span_id.to_owned(),
        start_time_unix_nano: start,
    };
    let early = build_trace_tree_index(vec![
        input("root", None, 1),
        input("mid", Some("root"), 2),
        input("leaf", Some("mid"), 3),
    ]);
    let late = build_trace_tree_index(vec![
        input("leaf", Some("mid"), 3),
        input("mid", Some("root"), 2),
        input("root", None, 1),
    ]);
    assert_eq!(early, late);
    assert_eq!(late[2].depth, 2);
}

#[test]
fn siblings_are_in_order() {
    let input = |span_id: &str, parent: Option<&str>, start: i64| RunTreeInput {
        span_id: span_id.to_owned(),
        parent_span_id: parent.map(str::to_owned),
        run_id: span_id.to_owned(),
        start_time_unix_nano: start,
    };
    let index = build_trace_tree_index(vec![
        input("c", Some("root"), 2),
        input("under-a", Some("a"), 3),
        input("a", Some("root"), 5),
        input("b", Some("root"), 2),
        input("root", None, 1),
        input("alone", None, 0),
    ]);
    let place = |span_id: &str| {
        let node = index.iter().find(|node| node.span_id == span_id).expect("node");
        (node.sibling_order, node.subtree_start)
    };
    assert_eq!(place("alone"), (0, 0));
    assert_eq!(place("root"), (1, 2));
    assert_eq!(place("b"), (0, 3));
    assert_eq!(place("c"), (1, 5));
    assert_eq!(place("a"), (2, 7));
    assert_eq!(place("under-a"), (0, 8));
}

#[test]
fn the_child_of_a_deleted_run_is_a_root() {
    let index = build_trace_tree_index(vec![RunTreeInput {
        span_id: "child".to_owned(),
        parent_span_id: Some("deleted".to_owned()),
        run_id: "run".to_owned(),
        start_time_unix_nano: 2,
    }]);
    assert_eq!(index.len(), 1);
    assert_eq!(index[0].parent_span_id, None);
    assert_eq!(index[0].root_span_id, "child");
    assert_eq!(index[0].root_run_id, "run");
    assert_eq!(index[0].depth, 0);
    assert!(index[0].unresolved_parent);
}

fn metric_row(span_id: &str, run_type: &str, latency_nanos: i64, cost: f64) -> AggregateRunRow {
    AggregateRunRow {
        project_name: "demo".to_owned(),
        trace_id: "trace".to_owned(),
        span_id: span_id.to_owned(),
        run_type: run_type.to_owned(),
        status: "success".to_owned(),
        start_time_unix_nano: 1,
        latency_nanos,
        prompt_tokens: None,
        completion_tokens: None,
        total_tokens: None,
        prompt_cost: None,
        completion_cost: None,
        total_cost: Some(Float {
            bits: cost.to_bits(),
        }),
        first_token_latency_nanos: None,
        evaluator_score: None,
        model_name: None,
        provider_name: None,
    }
}

#[test]
fn an_aggregate_does_not_depend_on_the_order_of_runs() {
    let mut query = RunAggregateQuery::new("demo");
    query.group_by = vec![RunAggregateGroup::RunType];
    let rows = |order: &[usize]| -> Vec<AggregateRunRow> {
        order
            .iter()
            .map(|n| match n {
                0 => metric_row("a", "llm", 30, 0.5),
                1 => metric_row("b", "tool", 10, -0.0),
                _ => metric_row("c", "llm", 20, 0.25),
            })
            .collect()
    };
    let aggregate =
        |order: &[usize]| aggregate_rows(&rows(order), &query, &Vec::new(), &Vec::new());
    assert_eq!(aggregate(&[0, 1, 2]), aggregate(&[2, 1, 0]));
    assert_eq!(aggregate(&[0, 1, 2]), aggregate(&[1, 2, 0]));
    assert_eq!(aggregate(&[0, 1, 2]).len(), 2);
}
