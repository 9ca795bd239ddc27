use kevindb::float::FloatReadings;
use kevindb::ingest::compaction::{
    active_segments_statement, add_compaction_receipt, compact_receipt, compaction_batch_key,
    compaction_failure_text, compaction_idempotency_key, compaction_plan, compaction_query,
    count_lease, lease_nanos, lease_statements, mark_compacted_statement, normalize_holder_id,
    nothing_compacted, segment_runs_statement, span_record_from_run_summary, CompactionCandidate,
    CompactionServiceReceipt,
};
use kevindb::ingest::indexes::{
    parent_head_statement, root_locator_for_record, ParentHead, RootLocator,
};
use kevindb::ingest::metadata::{
    MetadataAction, MetadataReply, MetadataWriter, SegmentObject,
};
use kevindb::ingest::pending::{
    flushes_from_news, receipt_from_flushes, FlushNews, FlushReceipt, FlushStep, IngestConfig,
    PendingState,
};
use kevindb::ingest::persist::{
    prepare_segment, segment_outcome, PersistAction, PersistState, SegmentOutcome,
};
use kevindb::ingest::records::{
    deduplicate_records, escape_path_component, event_time_unix_nano, existing_keys_statement,
    group_records_by_partition, normalize_node_id, record_partition_key,
    run_event_idempotency_key, segment_uri, stable_hash, status_from_record, validate_attributes,
    validate_partition_records, without_existing, PartitionKey, INGEST_TIME_BUCKET_UNIX_NANOS,
};
use kevindb::ingest::refresh::{refresh_steps, trace_start_times_statement, RefreshStep};
use kevindb::query::RunSummary;
use kevindb::record::{RunEventKind, SpanRecord};
use kevindb::statement::{SqlParam, Statement};
use kevindb::time::Duration;

fn sample_record(span_id: &str, start_time_unix_nano: i64) -> SpanRecord {
    SpanRecord {
        project_name: "demo".to_owned(),
        run_id: span_id.to_owned(),
        trace_id: "aaaaaaaaaaaaaaaaaaaaaaaaaaaaaaaa".to_owned(),
        span_id: span_id.to_owned(),
        parent_run_id: None,
        parent_span_id: None,
        name: "agent.run".to_owned(),
        run_type: "chain".to_owned(),
        start_time_unix_nano,
        end_time_unix_nano: start_time_unix_nano + 1,
        status_code: 1,
        event_kind: RunEventKind::End,
        attributes_json: "{}".to_owned(),
        idempotency_key: None,
    }
}

fn partition() -> PartitionKey {
    PartitionKey {
        project_name: "demo".to_owned(),
        time_bucket_start_unix_nano: 0,
    }
}

fn receipt(uri: &str, span_count: usize) -> FlushReceipt {
    FlushReceipt {
        segment_uri: uri.to_owned(),
        span_count,
        total_bytes: 10,
    }
}

fn span_ids(records: &[SpanRecord]) -> Vec<&str> {
    records
        .iter()
        .map(|record| record.span_id.as_str())
        .collect()
}

#[test]
fn deduplicates_idempotency_keys_within_a_flush() {
    let mut first = sample_record("1111111111111111", 10);
    first.idempotency_key = Some("same-request".to_owned());
    let mut duplicate = sample_record("2222222222222222", 20);
    duplicate.idempotency_key = Some("same-request".to_owned());

    let records = deduplicate_records(vec![first.clone(), duplicate]);

    assert_eq!(records, vec![first]);
}

#[test]
fn segment_uri_escapes_project_name() {
    let mut record = sample_record("1111111111111111", 1);
    record.project_name = "demo/project".to_owned();
    record.run_id = String::new();
    record.name = "root".to_owned();
    record.run_type = "span".to_owned();
    record.end_time_unix_nano = 2;
    let partition = record_partition_key(&record);
    let uri = segment_uri(&partition, &vec![record], 1234, 5).expect("segment uri");

    assert!(uri.starts_with("projects/demo%2Fproject/time-buckets/0/trace-segments/"));
    assert!(uri.ends_with("-aaaaaaaaaaaaaaaaaaaaaaaaaaaaaaaa.vortex"));
    assert!(uri.contains("1234"));
}

#[test]
fn a_segment_needs_a_record() {
    assert!(segment_uri(&partition(), &Vec::new(), 0, 0).is_err());
}

#[test]
fn path_components_keep_plain_characters_only() {
    assert_eq!(escape_path_component("aZ-_.9"), "aZ-_.9");
    assert_eq!(escape_path_component("a b/ü"), "a%20b%2F%C3%BC");
}

#[test]
fn keys_and_hashes_are_stable() {
    assert_eq!(stable_hash(""), 0xcbf2_9ce4_8422_2325);
    assert_eq!(stable_hash("a"), 0xaf63_dc4c_8601_ec8c);
    let record = sample_record("1111111111111111", 10);
    let mut other = record.clone();
    other.attributes_json = r#"{"a":1}"#.to_owned();
    assert_eq!(
        run_event_idempotency_key(&record),
        run_event_idempotency_key(&record.clone())
    );
    assert_ne!(
        run_event_idempotency_key(&record),
        run_event_idempotency_key(&other)
    );
    other.idempotency_key = Some("own".to_owned());
    assert_eq!(run_event_idempotency_key(&other), "own");
}

#[test]
fn known_events_are_left_out() {
    let records = vec![sample_record("a", 1), sample_record("b", 2)];
    let known = vec![run_event_idempotency_key(&records[0])];
    assert_eq!(span_ids(&without_existing(records, &known)), vec!["b"]);
    assert!(existing_keys_statement(&Vec::new()).is_none());
    let statement = existing_keys_statement(&vec![sample_record("a", 1)]).expect("statement");
    assert!(statement
        .sql
        .contains(&run_event_idempotency_key(&sample_record("a", 1))));
}

#[test]
fn status_follows_the_code_and_the_end() {
    let mut record = sample_record("a", 10);
    assert_eq!(status_from_record(&record), "success");
    record.status_code = 2;
    assert_eq!(status_from_record(&record), "error");
    record.status_code = 0;
    record.end_time_unix_nano = 0;
    assert_eq!(status_from_record(&record), "pending");
    record.status_code = 2;
    assert_eq!(status_from_record(&record), "error");
}

#[test]
fn an_event_happens_at_the_start_or_the_end() {
    let mut record = sample_record("a", 10);
    record.end_time_unix_nano = 40;
    assert_eq!(event_time_unix_nano(&record), 40);
    record.end_time_unix_nano = 0;
    assert_eq!(event_time_unix_nano(&record), 10);
}

#[test]
fn records_are_grouped_by_project_and_hour() {
    let mut other = sample_record("c", 3);
    other.project_name = "other".to_owned();
    let records = vec![
        other,
        sample_record("a", INGEST_TIME_BUCKET_UNIX_NANOS + 5),
        sample_record("b", 1),
        sample_record("d", 2),
    ];
    let groups = group_records_by_partition(&records);
    let names: Vec<(&str, i64, Vec<&str>)> = groups
        .iter()
        .map(|group| {
            (
                group.partition.project_name.as_str(),
                group.partition.time_bucket_start_unix_nano,
                span_ids(&group.records),
            )
        })
        .collect();
    assert_eq!(
        names,
        vec![
            ("demo", 0, vec!["b", "d"]),
            ("demo", INGEST_TIME_BUCKET_UNIX_NANOS, vec!["a"]),
            ("other", 0, vec!["c"]),
        ]
    );
    assert!(validate_partition_records(&groups[0].partition, &groups[0].records).is_ok());
    assert!(validate_partition_records(&groups[0].partition, &groups[1].records).is_err());
}

#[test]
fn attributes_have_to_be_json() {
    let mut record = sample_record("a", 1);
    assert_eq!(validate_attributes(&vec![record.clone()]), Ok(()));
    record.attributes_json = "{".to_owned();
    assert_eq!(
        validate_attributes(&vec![record]),
        Err("parse attributes_json for scalar indexes".to_owned())
    );
}

#[test]
fn node_ids_are_trimmed() {
    assert_eq!(normalize_node_id(" node-a "), Some("node-a".to_owned()));
    assert_eq!(normalize_node_id("  "), None);
}

#[test]
fn receipts_keep_the_first_flush() {
    let got = receipt_from_flushes(3, vec![receipt("a", 2), receipt("b", 1)]);
    assert_eq!(got.accepted_spans, 3);
    assert_eq!(got.flushed_segments, 2);
    assert_eq!(got.flush, Some(receipt("a", 2)));
    assert_eq!(
        flushes_from_news(vec![
            FlushNews::Written(vec![receipt("a", 2)]),
            FlushNews::Written(vec![receipt("b", 1)])
        ]),
        Ok(vec![receipt("a", 2), receipt("b", 1)])
    );
    assert_eq!(
        flushes_from_news(vec![
            FlushNews::Written(vec![receipt("a", 2)]),
            FlushNews::Failed("no disk".to_owned())
        ]),
        Err("no disk".to_owned())
    );
    assert!(flushes_from_news(vec![FlushNews::Dropped]).is_err());
}

#[test]
fn a_failed_flush_keeps_its_records_in_front() {
    let config = IngestConfig {
        max_spans_per_segment: 2,
        max_flush_delay: Duration::from_millis(500),
    };
    let mut state = PendingState::new();
    assert_eq!(state.next_step(), FlushStep::Done);
    let full = state.accept(
        group_records_by_partition(&vec![sample_record("a", 1)]),
        0,
        &config,
    );
    assert!(!full);
    let full = state.accept(
        group_records_by_partition(&vec![sample_record("b", 2)]),
        1,
        &config,
    );
    assert!(full);
    let batch = match state.next_step() {
        FlushStep::Write(batch) => batch,
        other => panic!("{other:?}"),
    };
    assert_eq!(span_ids(&batch.records), vec!["a", "b"]);
    assert_eq!(batch.waiters, vec![0, 1]);
    state.accept(
        group_records_by_partition(&vec![sample_record("c", 3)]),
        2,
        &config,
    );
    assert_eq!(state.next_step(), FlushStep::Wait);
    let told = state.failed(batch.partition, batch.records, batch.waiters);
    assert_eq!(told, vec![0, 1, 2]);
    let batch = match state.next_step() {
        FlushStep::Write(batch) => batch,
        other => panic!("{other:?}"),
    };
    assert_eq!(span_ids(&batch.records), vec!["a", "b", "c"]);
    state.written(&batch.partition);
    assert_eq!(state.next_step(), FlushStep::Done);
}

#[test]
fn segments_are_cut_to_size() {
    let records: Vec<SpanRecord> = ["a", "b", "c"]
        .iter()
        .map(|id| sample_record(id, 1))
        .collect();
    let mut state = PersistState::new(records, 2);
    state.without_duplicates(&Vec::new());
    let first = match state.next_action() {
        PersistAction::Write(records) => records,
        other => panic!("{other:?}"),
    };
    assert_eq!(span_ids(&first), vec!["a", "b"]);
    let outcome = segment_outcome(first, "uri-1", 10, true);
    assert_eq!(outcome, SegmentOutcome::Written(receipt("uri-1", 2)));
    state.note(outcome).expect("written");
    let second = match state.next_action() {
        PersistAction::Write(records) => records,
        other => panic!("{other:?}"),
    };
    assert_eq!(span_ids(&second), vec!["c"]);
    let conflict = segment_outcome(second, "uri-2", 10, false);
    state.note(conflict).expect("tried again");
    state.without_duplicates(&vec![run_event_idempotency_key(&sample_record("c", 1))]);
    assert_eq!(
        state.next_action(),
        PersistAction::Done(vec![receipt("uri-1", 2)])
    );
}

#[test]
fn segments_count_the_new_records() {
    let ids = ["a", "b", "a", "c", "d", "known", "e", "f", "g"];
    let records: Vec<SpanRecord> = ids.iter().map(|id| sample_record(id, 1)).collect();
    let known = vec![run_event_idempotency_key(&sample_record("known", 1))];
    for (size, counts) in [
        (3, vec![3, 3, 1]),
        (7, vec![7]),
        (8, vec![7]),
        (0, vec![1; 7]),
    ] {
        let mut state = PersistState::new(records.clone(), size);
        let receipts = loop {
            state.without_duplicates(&known);
            match state.next_action() {
                PersistAction::Write(records) => {
                    let outcome = segment_outcome(records, "uri", 10, true);
                    state.note(outcome).expect("written");
                }
                PersistAction::Done(receipts) => break receipts,
            }
        };
        let spans: Vec<usize> = receipts.iter().map(|receipt| receipt.span_count).collect();
        assert_eq!(spans, counts);
    }
    let mut none = PersistState::new(Vec::new(), 3);
    assert_eq!(none.next_action(), PersistAction::Done(Vec::new()));
}

#[test]
fn conflicts_are_not_tried_forever() {
    let mut state = PersistState::new(vec![sample_record("a", 1)], 2);
    let mut rounds = 0;
    let failure = loop {
        let records = match state.next_action() {
            PersistAction::Write(records) => records,
            other => panic!("{other:?}"),
        };
        rounds += 1;
        if let Err(failure) = state.note(SegmentOutcome::DuplicateConflict(records)) {
            break failure;
        }
        assert!(rounds < 100);
    };
    assert_eq!(span_ids(&failure.records), vec!["a"]);
    assert!(rounds > 1);
}

#[test]
fn a_segment_is_named_for_its_first_record() {
    let (uri, records) =
        prepare_segment(&partition(), vec![sample_record("a", 1)], 7, 3).expect("prepared");
    assert!(uri.starts_with("projects/demo/time-buckets/0/trace-segments/"));
    assert_eq!(records.len(), 1);
    let mut foreign = sample_record("b", 1);
    foreign.project_name = "other".to_owned();
    let failure = prepare_segment(&partition(), vec![foreign], 7, 3).expect_err("foreign");
    assert_eq!(span_ids(&failure.records), vec!["b"]);
}

fn object() -> SegmentObject {
    SegmentObject {
        segment_uri: "segment.vortex".to_owned(),
        etag: "etag".to_owned(),
        total_bytes: 10,
        schema_version: 5,
        search_index_uri: "segment.index".to_owned(),
        search_index_bytes: 4,
        search_index_schema_version: 1,
    }
}

#[test]
fn metadata_is_written_step_by_step() {
    let mut child = sample_record("child", 2);
    child.parent_span_id = Some("root".to_owned());
    let mut writer = MetadataWriter::new(
        partition(),
        object(),
        Some("node-a".to_owned()),
        vec![sample_record("root", 1), child],
        FloatReadings::new(),
    )
    .expect("writer");
    let mut purposes: Vec<String> = Vec::new();
    let mut next_id = 1;
    let finished = loop {
        let reply = match writer.action() {
            MetadataAction::Execute(statement) => {
                purposes.push(statement.purpose);
                if purposes.last().map(String::as_str) == Some("upsert run head") {
                    MetadataReply::Affected(1)
                } else {
                    MetadataReply::Done
                }
            }
            MetadataAction::ExecuteAll(statements) => {
                for statement in statements {
                    purposes.push(statement.purpose);
                }
                MetadataReply::Done
            }
            MetadataAction::QueryId(statement) => {
                purposes.push(statement.purpose);
                next_id += 1;
                MetadataReply::Id(Some(next_id))
            }
            MetadataAction::QueryParent(statement) => {
                purposes.push(statement.purpose);
                MetadataReply::Parent(None)
            }
            MetadataAction::Refresh { trace_id, .. } => {
                purposes.push(format!("refresh {trace_id}"));
                MetadataReply::Done
            }
            MetadataAction::Finished(finished) => break finished,
            MetadataAction::Failed(error) => panic!("{error}"),
        };
        writer.advance(reply);
        assert!(purposes.len() < 200);
    };
    assert!(finished);
    let count = |purpose: &str| purposes.iter().filter(|p| p.contains(purpose)).count();
    assert_eq!(count("upsert run head"), 2);
    assert_eq!(count("insert run event"), 2);
    assert_eq!(count("project route"), 1);
    assert!(count("refresh aaaaaaaaaaaaaaaaaaaaaaaaaaaaaaaa") >= 1);
    assert_eq!(purposes[..2], ["upsert project", "lock project"]);
}

/// The statements that are executed for the record of one segment.
fn statements_for(record: SpanRecord, event_id: i64) -> Vec<Statement> {
    let mut writer = MetadataWriter::new(
        partition(),
        object(),
        None,
        vec![record],
        FloatReadings::new(),
    )
    .expect("writer");
    let mut statements = Vec::new();
    loop {
        let reply = match writer.action() {
            MetadataAction::Execute(statement) => {
                let is_head = statement.purpose == "upsert run head";
                statements.push(statement);
                if is_head {
                    MetadataReply::Affected(0)
                } else {
                    MetadataReply::Done
                }
            }
            MetadataAction::QueryId(_) => MetadataReply::Id(Some(event_id)),
            MetadataAction::Finished(_) => return statements,
            other => panic!("{other:?}"),
        };
        writer.advance(reply);
    }
}

#[test]
fn heads_and_locators_are_of_one_event() {
    let statements = statements_for(sample_record("root", 1), 70);
    let stamps: Vec<&[SqlParam]> = statements
        .iter()
        .filter(|statement| {
            ["upsert run head", "upsert run locator", "upsert trace locator"]
                .contains(&statement.purpose.as_str())
        })
        .map(|statement| &statement.params[statement.params.len() - 5..])
        .collect();
    assert_eq!(stamps.len(), 3);
    assert_eq!(stamps[0], stamps[1]);
    assert_eq!(stamps[1], stamps[2]);
    assert_eq!(
        stamps[0],
        [
            SqlParam::Integer(70),
            SqlParam::Integer(0),
            SqlParam::Text("end".to_owned()),
            SqlParam::Integer(2),
            SqlParam::Integer(70),
        ]
    );
    for statement in &statements {
        if statement.purpose.starts_with("upsert run") {
            assert!(statement.sql.contains("event_time_unix_nano < EXCLUDED."));
        }
    }
}

#[test]
fn heads_hold_the_first_token_latency() {
    let mut record = sample_record("root", 1);
    record.end_time_unix_nano = 11;
    record.attributes_json = r#"{"first_token_time_unix_nano": 8}"#.to_owned();
    let statements = statements_for(record, 70);
    let head = statements
        .iter()
        .find(|statement| statement.purpose == "upsert run head")
        .expect("head");
    assert_eq!(head.params.len(), 32);
    assert_eq!(head.params[23], SqlParam::OptionalInteger(Some(7)));
    assert_eq!(head.params[24], SqlParam::OptionalFloat(None));
    assert!(head
        .sql
        .contains("first_token_latency_nanos = EXCLUDED.first_token_latency_nanos"));
}

#[test]
fn an_event_that_is_there_stops_the_segment() {
    let mut writer = MetadataWriter::new(
        partition(),
        object(),
        None,
        vec![sample_record("root", 1)],
        FloatReadings::new(),
    )
    .expect("writer");
    let mut asked = 0;
    loop {
        let reply = match writer.action() {
            MetadataAction::Execute(_) | MetadataAction::ExecuteAll(_) => MetadataReply::Done,
            MetadataAction::QueryId(_) => {
                asked += 1;
                MetadataReply::Id(if asked == 1 { Some(1) } else { None })
            }
            MetadataAction::Finished(finished) => {
                assert!(!finished);
                break;
            }
            other => panic!("{other:?}"),
        };
        writer.advance(reply);
    }
    assert_eq!(asked, 2);
}

#[test]
fn a_root_is_taken_from_the_parent() {
    let mut record = sample_record("child", 1);
    assert!(parent_head_statement(&record).is_none());
    assert_eq!(
        root_locator_for_record(&record, &None),
        RootLocator {
            run_id: "child".to_owned(),
            span_id: "child".to_owned()
        }
    );
    record.parent_span_id = Some("mid".to_owned());
    assert!(parent_head_statement(&record).is_some());
    assert_eq!(
        root_locator_for_record(
            &record,
            &Some(ParentHead {
                root_run_id: "root-run".to_owned(),
                root_span_id: "root".to_owned(),
                run_id: "mid-run".to_owned(),
                span_id: "mid".to_owned()
            })
        ),
        RootLocator {
            run_id: "root-run".to_owned(),
            span_id: "root".to_owned()
        }
    );
}

#[test]
fn changed_traces_and_hours_are_refreshed_once() {
    assert_eq!(
        refresh_steps(
            &vec!["b".to_owned(), "a".to_owned(), "b".to_owned()],
            &vec![1, 3_600_000_000_001, 2]
        ),
        vec![
            RefreshStep::Tree("a".to_owned()),
            RefreshStep::Threads("a".to_owned()),
            RefreshStep::Tree("b".to_owned()),
            RefreshStep::Threads("b".to_owned()),
            RefreshStep::Rollups(0),
            RefreshStep::Rollups(3_600_000_000_000),
        ]
    );
    assert_eq!(
        trace_start_times_statement("demo", "trace").params,
        vec![
            SqlParam::Text("demo".to_owned()),
            SqlParam::Text("trace".to_owned())
        ]
    );
}

fn run_summary(span_id: &str, status: &str) -> RunSummary {
    RunSummary {
        project_name: "demo".to_owned(),
        run_id: Some("run".to_owned()),
        trace_id: "trace".to_owned(),
        span_id: span_id.to_owned(),
        parent_run_id: None,
        parent_span_id: None,
        name: "name".to_owned(),
        run_type: "llm".to_owned(),
        status: status.to_owned(),
        start_time_unix_nano: 5,
        end_time_unix_nano: 9,
        is_root: true,
        attributes_json: "{}".to_owned(),
    }
}

#[test]
fn compacted_runs_keep_what_they_are() {
    let record = span_record_from_run_summary(&run_summary("a", "error"), "batch");
    assert_eq!(record.event_kind, RunEventKind::Compact);
    assert_eq!(record.status_code, 2);
    assert_eq!(status_from_record(&record), "error");
    assert_eq!(record.run_id, "run");
    assert_eq!(
        record.idempotency_key,
        Some(compaction_idempotency_key(&run_summary("a", "error"), "batch"))
    );
    let mut generated = run_summary("a", "success");
    generated.run_id = None;
    assert_eq!(span_record_from_run_summary(&generated, "batch").run_id, "");
}

#[test]
fn a_compaction_reads_the_runs_of_its_segments() {
    let query =
        compaction_query("demo", &vec!["r1".to_owned(), "r2".to_owned()], &vec![4, 7])
            .expect("query");
    assert_eq!(query.project_names, vec!["demo"]);
    assert_eq!(query.limits.max_candidate_runs, Some(2));
    let sql = query
        .filter
        .expect("filter")
        .compile_run_head_filter("heads")
        .expect("compiled")
        .predicate_sql;
    assert_eq!(
        sql,
        "((NULLIF(heads.run_id, '') = 'r1' OR heads.generated_run_id = 'r1') \
         OR (NULLIF(heads.run_id, '') = 'r2' OR heads.generated_run_id = 'r2'))"
    );
    assert_ne!(compaction_batch_key(&vec![4, 7]), compaction_batch_key(&vec![7, 4, 1]));
    assert!(segment_runs_statement(&Vec::new()).is_none());
    assert!(segment_runs_statement(&vec![4, 7])
        .expect("statement")
        .sql
        .contains("4"));
    assert!(mark_compacted_statement(&Vec::new(), 9).is_none());
    let candidate = CompactionCandidate {
        project_name: "demo".to_owned(),
        time_bucket_start_unix_nano: 0,
    };
    assert_eq!(active_segments_statement(&candidate, 16).params.len(), 3);
}

#[test]
fn a_plan_groups_the_compacted_runs() {
    let plan = compaction_plan(
        &vec![run_summary("a", "success"), run_summary("b", "pending")],
        &vec![4, 7],
    )
    .expect("plan");
    assert_eq!(plan.len(), 1);
    assert_eq!(span_ids(&plan[0].records), vec!["a", "b"]);
    assert!(compaction_plan(&Vec::new(), &vec![4, 7]).is_none());
}

#[test]
fn compaction_receipts_add_up() {
    let mut total = CompactionServiceReceipt::default();
    count_lease(&mut total);
    add_compaction_receipt(&mut total, &compact_receipt(3, 2, vec![receipt("a", 3)]));
    count_lease(&mut total);
    add_compaction_receipt(&mut total, &nothing_compacted(0));
    assert_eq!(total.leases_acquired, 2);
    assert_eq!(total.compacted_runs, 3);
    assert_eq!(total.compacted_segments, 2);
    assert_eq!(total.written_segments, 1);
    assert!(compaction_failure_text("demo", "broken").contains("demo"));
}

#[test]
fn leases_have_a_holder_and_a_length() {
    assert_eq!(normalize_holder_id(" a "), Ok("a".to_owned()));
    assert!(normalize_holder_id("  ").is_err());
    assert_eq!(lease_nanos(Duration::from_millis(2)), Ok(2_000_000));
    assert!(lease_nanos(Duration::zero()).is_err());
    let (clear, acquire) = lease_statements("demo", "a", 5, 10).expect("lease");
    assert_eq!(clear.params[1], SqlParam::Integer(10));
    assert_eq!(acquire.params[2], SqlParam::Integer(15));
    assert_eq!(
        lease_statements("demo", "a", 5, i64::MAX),
        Err("compaction lease expiry overflow".to_owned())
    );
}
