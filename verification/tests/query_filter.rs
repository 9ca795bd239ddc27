use kevindb::float::{FloatReading, FloatReadings};
use kevindb::query::filter::lexer::filter_number_texts;
use kevindb::query::filter::{CompiledFilter, FilterError, FilterExpr, MAX_FILTER_DEPTH, MAX_FILTER_NODES};
use kevindb::query::tree_filter::{TreeFilterExpr, TreeFilterMode, TreeFilterScope};
use kevindb::search::SearchPredicate;

fn readings_of(texts: &[String]) -> FloatReadings {
    let mut readings = FloatReadings::new();
    for text in texts {
        if let Ok(number) = text.parse::<f64>() {
            let nanos = number * 1_000_000_000.0;
            readings.insert(
                text.clone(),
                FloatReading {
                    bits: number.to_bits(),
                    text: number.to_string(),
                    debug: format!("{number:?}"),
                    whole: number as i64,
                    nanos: nanos as i64,
                    rounded_nanos: if nanos >= 0.0 && nanos <= i64::MAX as f64 {
                        Some(nanos.round() as i64)
                    } else {
                        None
                    },
                },
            );
        }
    }
    readings
}

fn parse(input: &str) -> Result<FilterExpr, FilterError> {
    FilterExpr::parse(input, &readings_of(&filter_number_texts(input)))
}

fn compile(input: &str) -> Result<CompiledFilter, FilterError> {
    parse(input).and_then(|expr| expr.compile_run_head_filter("run_heads"))
}

fn parse_tree(input: &str) -> Result<TreeFilterExpr, FilterError> {
    TreeFilterExpr::parse(input, &readings_of(&TreeFilterExpr::number_texts(input)))
}

#[test]
fn parses_and_compiles_documented_examples() {
    let examples = [
        r#"eq(name, "my_chain")"#,
        r#"neq(status, "error")"#,
        r#"gt(latency, "5s")"#,
        r#"and(gt(start_time, "2024-01-01T00:00:00Z"), lt(start_time, "2024-02-01T00:00:00Z"))"#,
        r#"has(tags, "production")"#,
        r#"and(eq(metadata_key, "thread_id"), eq(metadata_value, "abc"))"#,
        r#"and(eq(feedback_key, "correctness"), lt(feedback_score, 0.5))"#,
        r#"and(eq(model, "gpt-test"), gte(total_tokens, 100))"#,
        r#"and(eq(provider, "openai"), lt(total_cost, 0.01))"#,
        r#"eq(error, true)"#,
        r#"in(root_run_id, ["root-a","root-b"])"#,
    ];

    for example in examples {
        let compiled = compile(example).expect(example);
        assert!(!compiled.predicate_sql.is_empty());
    }
}

#[test]
fn compiles_phase2_materialized_scalar_fields() {
    let compiled = compile(
        r#"and(eq(model_name, "gpt-test"), eq(provider_name, "openai"), gte(total_tokens, 42), lt(total_cost, 0.01), eq(error, false))"#,
    )
    .expect("compile scalar fields");

    assert!(compiled
        .predicate_sql
        .contains("run_heads.model_name = 'gpt-test'"));
    assert!(compiled
        .predicate_sql
        .contains("run_heads.provider_name = 'openai'"));
    assert!(compiled
        .predicate_sql
        .contains("run_heads.total_tokens >= 42"));
    assert!(compiled
        .predicate_sql
        .contains("run_heads.total_cost < 0.01"));
    assert!(compiled
        .predicate_sql
        .contains("run_heads.status <> 'error'"));
}

#[test]
fn rejects_full_text_and_payload_filters() {
    assert!(matches!(
        compile(r#"search("invoice")"#),
        Err(FilterError::Unsupported(message)) if message.contains("full-text search")
    ));
    assert!(matches!(
        compile(r#"eq(inputs, "value")"#),
        Err(FilterError::Unsupported(message)) if message.contains("payload JSON")
    ));
    assert!(matches!(
        compile(r#"gt(id, "00000000-0000-0000-0000-000000000000")"#),
        Err(FilterError::Unsupported(message)) if message.contains("id only supports")
    ));
}

#[test]
fn extracts_phase6_search_predicates_from_payload_filters() {
    let expr = parse(
        r#"and(eq(run_type, "llm"), json_key("metadata.*"), json_key_search("langsmith.outputs.answer", "\"hello world\""), contains(inputs, "invoice"))"#,
    )
    .expect("parse phase 6 filter");

    let prefilter = expr
        .compile_run_head_prefilter_for_projects("run_heads", &vec!["demo".to_owned()])
        .expect("compile scalar prefilter")
        .expect("scalar prefilter");
    assert_eq!(prefilter.predicate_sql, "run_heads.run_type = 'llm'");

    let predicate = expr
        .phase6_search_predicate()
        .expect("extract search predicate")
        .expect("search predicate");
    assert!(matches!(predicate, SearchPredicate::And(_)));
}

#[test]
fn extracts_blog_scoped_phase6_search_predicates() {
    let expr = parse(
        r#"and(json_key(inputs, "author.%"), json_key_search(outputs, "answer", "\"hello world\""), search(inputs, "invoice"), search(status, "error"))"#,
    )
    .expect("parse scoped phase 6 filter");

    let predicate = expr
        .phase6_search_predicate()
        .expect("extract scoped search predicate")
        .expect("scoped search predicate");

    assert!(matches!(predicate, SearchPredicate::And(_)));
}

#[test]
fn rejects_json_key_on_non_payload_fields() {
    let err = parse(r#"json_key(status, "metadata.thread_id")"#)
        .and_then(|expr| expr.phase6_search_predicate().map(|_| expr))
        .expect_err("status is not a payload JSON field");

    assert!(matches!(
        err,
        FilterError::Unsupported(message) if message.contains("search index")
    ));
}

#[test]
fn rejects_mixed_scalar_and_search_or_filters() {
    let err = parse(r#"or(eq(run_type, "llm"), search("invoice"))"#)
        .and_then(|expr| expr.phase6_search_predicate().map(|_| expr))
        .expect_err("mixed or should reject");

    assert!(matches!(
        err,
        FilterError::Unsupported(message) if message.contains("ORed")
    ));
}

#[test]
fn pairs_metadata_key_and_value_on_one_index_row() {
    let compiled = compile(
        r#"and(in(metadata_key, ["session_id","thread_id"]), eq(metadata_value, "abc"))"#,
    )
    .expect("compile metadata pair");

    assert!(compiled.predicate_sql.contains("run_metadata"));
    assert!(compiled
        .predicate_sql
        .contains("key IN ('session_id', 'thread_id')"));
    assert!(compiled.predicate_sql.contains("value = 'abc'"));
}

#[test]
fn negative_key_filters_compile_as_anti_exists_predicates() {
    let compiled = compile(
        r#"and(neq(metadata_key, "phone"), eq(metadata_value, "1234567890"), neq(feedback_key, "bad_score"), neq(tags, "staging"))"#,
    )
    .expect("compile negative indexed filters");

    assert!(compiled
        .predicate_sql
        .contains("NOT (run_heads.project_name"));
    assert!(compiled.predicate_sql.contains("key = 'phone'"));
    assert!(compiled.predicate_sql.contains("key = 'bad_score'"));
    assert!(compiled
        .predicate_sql
        .contains("tag_filter.tag = 'staging'"));
    assert!(!compiled.predicate_sql.contains("key <> 'phone'"));
    assert!(!compiled.predicate_sql.contains("key <> 'bad_score'"));
}

#[test]
fn planner_scoped_filters_bound_index_subqueries_by_project() {
    let projects = vec!["demo".to_owned(), "other".to_owned()];
    let compiled = parse(r#"and(has(tags, "production"), eq(metadata_key, "thread_id"))"#)
        .and_then(|expr| expr.compile_run_head_filter_for_projects("run_heads", &projects))
        .expect("compile project-scoped filter");

    assert!(compiled
        .predicate_sql
        .contains("tag_filter.project_name IN ('demo', 'other')"));
    assert!(compiled
        .predicate_sql
        .contains("metadata_filter.project_name IN ('demo', 'other')"));
}

#[test]
fn anchored_negative_values_stay_on_the_same_index_row() {
    let compiled = compile(
        r#"and(eq(metadata_key, "phone"), neq(metadata_value, "1234567890"), eq(feedback_key, "quality"), neq(feedback_score, 0))"#,
    )
    .expect("compile anchored negative values");

    assert!(compiled.predicate_sql.contains("key = 'phone'"));
    assert!(compiled.predicate_sql.contains("value <> '1234567890'"));
    assert!(compiled.predicate_sql.contains("key = 'quality'"));
    assert!(compiled.predicate_sql.contains("score_number <> 0"));
}

#[test]
fn contains_escapes_like_wildcards() {
    let compiled =
        compile(r#"contains(name, "100%_ok\\done")"#).expect("compile contains wildcard filter");

    assert!(compiled.predicate_sql.contains("LIKE '%100\\%\\_ok"));
    assert!(compiled.predicate_sql.contains("\\\\done%' ESCAPE '\\'"));
}

#[test]
fn times_and_durations_become_nanoseconds() {
    let compiled =
        compile(r#"gt(start_time, "1970-01-01T00:00:01.000000002Z")"#).expect("compile time");
    assert_eq!(
        compiled.predicate_sql,
        "run_heads.start_time_unix_nano > 1000000002"
    );
    let compiled = compile(r#"gt(latency, "1.5s")"#).expect("compile duration");
    assert!(compiled.predicate_sql.contains("> 1500000000"));
    let compiled = compile("lt(latency, 2)").expect("compile number");
    assert!(compiled.predicate_sql.contains("< 2000000000"));
}

#[test]
fn faults_of_a_filter_name_what_is_wrong() {
    for broken in [
        "",
        "eq(name",
        r#"eq(name, "x") trailing"#,
        r#"eq(nothing, "x")"#,
        r#"unknown(name, "x")"#,
        r#"eq(name, "x"#,
    ] {
        assert!(
            matches!(parse(broken), Err(FilterError::Parse(_) | FilterError::Unsupported(_))),
            "{broken}"
        );
    }
    assert!(matches!(
        compile(r#"gt(start_time, "yesterday")"#),
        Err(FilterError::Parse(_))
    ));
    assert_eq!(
        parse(r#"eq(name, #)"#),
        Err(FilterError::Parse("unexpected character '#'".to_owned()))
    );
    assert_eq!(
        parse("eq(name, maybe)"),
        Err(FilterError::Parse(
            r#"expected value, found Ident("maybe")"#.to_owned()
        ))
    );
    assert_eq!(
        parse(r#"eq(nothing, "x")"#).expect_err("field").to_text(),
        FilterError::Unsupported("field nothing is not indexed".to_owned()).to_text()
    );
}

#[test]
fn filters_nest_up_to_a_bound() {
    let nested = |depth: usize| {
        let mut text = r#"eq(name, "x")"#.to_owned();
        for _ in 0..depth {
            text = format!("and({text})");
        }
        text
    };
    assert!(parse(&nested(MAX_FILTER_DEPTH)).is_ok());
    assert_eq!(
        parse(&nested(MAX_FILTER_DEPTH + 1)),
        Err(FilterError::Parse("filter nesting is too deep".to_owned()))
    );
    let wide = |children: usize| {
        let calls = vec![r#"eq(name, "x")"#; children];
        format!("or({})", calls.join(", "))
    };
    assert!(parse(&wide(MAX_FILTER_NODES - 1)).is_ok());
    assert_eq!(
        parse(&wide(MAX_FILTER_NODES)),
        Err(FilterError::Parse("filter is too large".to_owned()))
    );
}

#[test]
fn parses_default_trace_tree_filter() {
    let filter = parse_tree(r#"eq(name, "ExpandQuery")"#).expect("parse default tree filter");
    assert_eq!(filter.scope(), TreeFilterScope::Trace);
    assert_eq!(filter.mode(), TreeFilterMode::ShowAll);
}

#[test]
fn parses_scope_and_result_mode_wrappers() {
    let filter = parse_tree(r#"most_relevant(descendant(eq(run_type, "tool")))"#)
        .expect("parse scoped tree filter");
    assert_eq!(filter.scope(), TreeFilterScope::Descendant);
    assert_eq!(filter.mode(), TreeFilterMode::MostRelevant);

    let child = parse_tree(r#"filtered_only(child(eq(name, "Foo")))"#)
        .expect("parse child tree filter");
    assert_eq!(child.scope(), TreeFilterScope::Child);
    assert_eq!(child.mode(), TreeFilterMode::FilteredOnly);
}

#[test]
fn does_not_confuse_contains_filter_operator_with_scope_wrapper() {
    let filter = parse_tree(r#"contains(name, "Foo")"#).expect("parse contains filter");
    assert_eq!(filter.scope(), TreeFilterScope::Trace);
}

#[test]
fn a_tree_filter_keeps_its_predicate() {
    let filter = parse_tree(r#"root(eq(name, "Foo"))"#).expect("parse root filter");
    assert_eq!(filter.scope(), TreeFilterScope::Root);
    assert_eq!(
        filter
            .predicate()
            .compile_run_head_filter("heads")
            .expect("compile")
            .predicate_sql,
        "heads.name = 'Foo'"
    );
    assert!(parse_tree(r#"root(eq(name, "Foo")"#).is_err());
}
