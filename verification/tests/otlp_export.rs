use kevindb::otlp::{
    any_value_to_json, hex_id, span_records_from_export, OtlpAttribute, OtlpResourceSpans,
    OtlpSpan, OtlpValue,
};

fn string_attr(key: &str, value: &str) -> OtlpAttribute {
    OtlpAttribute {
        key: key.to_owned(),
        value: OtlpValue::Text(value.to_owned()),
    }
}

fn repeated_bytes(byte: u8, len: usize) -> Vec<u8> {
    vec![byte; len]
}

fn span(name: &str) -> OtlpSpan {
    OtlpSpan {
        trace_id: repeated_bytes(0xAA, 16),
        span_id: repeated_bytes(0x11, 8),
        parent_span_id: Vec::new(),
        name: name.to_owned(),
        start_time_unix_nano: 1,
        end_time_unix_nano: 2,
        status_code: None,
        attributes: Vec::new(),
    }
}

fn request(attributes: Vec<OtlpAttribute>, spans: Vec<OtlpSpan>) -> Vec<OtlpResourceSpans> {
    vec![OtlpResourceSpans {
        attributes,
        scope_spans: vec![spans],
    }]
}

#[test]
fn converts_otlp_export_to_span_records() {
    let mut exported = span("llm.call");
    exported.parent_span_id = repeated_bytes(0x22, 8);
    exported.attributes = vec![
        string_attr("gen_ai.request.model", "gpt-test"),
        OtlpAttribute {
            key: "cache.hit".to_owned(),
            value: OtlpValue::Bool(true),
        },
    ];
    exported.status_code = Some(1);
    let request = request(vec![string_attr("service.name", "agent-api")], vec![exported]);

    let records = span_records_from_export("demo", &request).expect("convert export");
    assert_eq!(records.len(), 1);
    let record = &records[0];
    assert_eq!(record.project_name, "demo");
    assert_eq!(record.trace_id, "aaaaaaaaaaaaaaaaaaaaaaaaaaaaaaaa");
    assert_eq!(record.span_id, "1111111111111111");
    assert_eq!(record.parent_span_id.as_deref(), Some("2222222222222222"));
    assert_eq!(record.name, "llm.call");
    assert_eq!(record.start_time_unix_nano, 1);
    assert_eq!(record.end_time_unix_nano, 2);
    assert_eq!(record.status_code, 1);
    assert!(record.attributes_json.contains("resource.service.name"));
    assert!(record.attributes_json.contains("gen_ai.request.model"));
    assert_eq!(
        record.attributes_json,
        r#"{"cache.hit":true,"gen_ai.request.model":"gpt-test","resource.service.name":"agent-api"}"#
    );
}

#[test]
fn rejects_invalid_trace_ids() {
    let mut bad = span("bad");
    bad.trace_id = vec![0; 16];
    let error = span_records_from_export("demo", &request(Vec::new(), vec![bad]))
        .expect_err("invalid trace id");
    assert!(error.contains("trace_id must not be all zeroes"));
}

#[test]
fn rejects_ids_and_times_that_do_not_fit() {
    assert_eq!(
        hex_id(&vec![1, 2], 8, "span_id"),
        Err("span_id must be 8 bytes, got 2".to_owned())
    );
    assert_eq!(hex_id(&vec![0x0f, 0xa0], 2, "id"), Ok("0fa0".to_owned()));
    assert_ne!(hex_id(&vec![0x0f, 0xa0], 2, "id"), hex_id(&vec![0xf0, 0x0a], 2, "id"));
    let mut late = span("late");
    late.start_time_unix_nano = u64::MAX;
    assert_eq!(
        span_records_from_export("demo", &request(Vec::new(), vec![span("ok"), late])),
        Err("span start_time_unix_nano does not fit in postgres BIGINT".to_owned())
    );
    let mut later = span("later");
    later.end_time_unix_nano = 1 << 63;
    assert_eq!(
        span_records_from_export("demo", &request(Vec::new(), vec![later])),
        Err("span end_time_unix_nano does not fit in postgres BIGINT".to_owned())
    );
    let mut orphan = span("orphan");
    orphan.parent_span_id = vec![7];
    assert_eq!(
        span_records_from_export("demo", &request(Vec::new(), vec![orphan])),
        Err("parent_span_id must be 8 bytes, got 1".to_owned())
    );
}

#[test]
fn a_later_attribute_replaces_an_earlier_one() {
    let mut own = span("own");
    own.attributes = vec![
        string_attr("b", "first"),
        string_attr("resource.a", "of the span"),
        string_attr("b", "last"),
    ];
    let records = span_records_from_export(
        "demo",
        &request(
            vec![string_attr("a", "of the resource"), string_attr("c", "kept")],
            vec![own],
        ),
    )
    .expect("records");
    assert_eq!(
        records[0].attributes_json,
        r#"{"b":"last","resource.a":"of the span","resource.c":"kept"}"#
    );
    assert_eq!(records[0].status_code, 0);
    assert_eq!(records[0].parent_span_id, None);
}

#[test]
fn values_of_every_kind_are_written() {
    let mut own = span("own");
    let attribute = |key: &str, value: OtlpValue| OtlpAttribute {
        key: key.to_owned(),
        value,
    };
    own.attributes = vec![
        attribute("a", OtlpValue::Empty),
        attribute("b", OtlpValue::Integer(-3)),
        attribute("c", OtlpValue::Double(Some("0.5".to_owned()))),
        attribute("d", OtlpValue::Double(None)),
        attribute("e", OtlpValue::Bytes(vec![0, 255])),
        attribute("f", OtlpValue::TextIndex(4)),
        attribute(
            "g",
            OtlpValue::Array(vec![OtlpValue::Bool(false), OtlpValue::Text("x".to_owned())]),
        ),
        attribute(
            "h",
            OtlpValue::KeyValues(vec![string_attr("z", "1"), string_attr("y", "2")]),
        ),
    ];
    let records =
        span_records_from_export("demo", &request(Vec::new(), vec![own])).expect("records");
    assert_eq!(
        records[0].attributes_json,
        r#"{"a":null,"b":-3,"c":0.5,"d":null,"e":"00ff","f":4,"g":[false,"x"],"h":{"y":"2","z":"1"}}"#
    );
    assert_eq!(
        any_value_to_json(&OtlpValue::Bytes(vec![16])),
        any_value_to_json(&OtlpValue::Text("10".to_owned()))
    );
}
