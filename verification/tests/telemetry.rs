use codex_workbench::json::JsonValue;
use codex_workbench::span_telemetry::parse_span_telemetry_record;
use codex_workbench::span_telemetry::sanitized_attributes;
use codex_workbench::span_telemetry::timestamp_from_unix_nanos;
use codex_workbench::span_telemetry::truncate_attribute_string;
use codex_workbench::span_telemetry::AttributeValue;
use codex_workbench::span_telemetry::ParentContext;
use codex_workbench::span_telemetry::SpanTelemetryRecord;
use codex_workbench::span_telemetry::StderrSpanTelemetryError;
use codex_workbench::span_telemetry::MAX_ATTRIBUTE_STRING_BYTES;

fn text(s: &str) -> JsonValue {
    JsonValue::Text(s.to_string())
}

fn object(fields: Vec<(&str, JsonValue)>) -> JsonValue {
    JsonValue::Object(
        fields
            .into_iter()
            .map(|(key, value)| (key.to_string(), value))
            .collect(),
    )
}

fn span(name: &str, start: u64, end: u64, mut more: Vec<(&'static str, JsonValue)>) -> JsonValue {
    let mut fields = vec![
        ("v", JsonValue::Unsigned(1)),
        ("type", text("span")),
        ("name", text(name)),
        ("start_unix_nanos", JsonValue::Unsigned(start)),
        ("end_unix_nanos", JsonValue::Unsigned(end)),
    ];
    fields.append(&mut more);
    object(fields)
}

fn explicit(trace_id: &str, span_id: &str, parent_span_id: &str, flags: &str) -> Vec<(&'static str, JsonValue)> {
    vec![
        ("trace_id", text(trace_id)),
        ("span_id", text(span_id)),
        ("parent_span_id", text(parent_span_id)),
        ("trace_flags", text(flags)),
    ]
}

fn parse(payload: &JsonValue) -> SpanTelemetryRecord {
    parse_span_telemetry_record(payload).expect("valid record")
}

const TRACE_ID: &str = "00000000000000000000000000000001";

#[test]
fn valid_span_telemetry_reconstructs_otel_span_with_sanitized_attrs() {
    let parent_span_id = "0000000000000002";
    let header = format!("00-{TRACE_ID}-{parent_span_id}-01");
    let record = parse(&span(
        "browser_use.tab.goto",
        1_000_000_123,
        2_000_000_456,
        vec![
            ("traceparent", text(&header)),
            (
                "attrs",
                object(vec![
                    ("browser_use.url", text("https://example.com")),
                    ("browser_use.timeout_ms", JsonValue::Unsigned(2500)),
                    ("unknown.secret", text("drop me")),
                    (
                        "browser_use.object",
                        object(vec![("drop", JsonValue::Bool(true))]),
                    ),
                ]),
            ),
        ],
    ));

    assert_eq!(record.name, "browser_use.tab.goto");
    assert!(matches!(
        record.parent_context().expect("a parent"),
        ParentContext::Headers { traceparent, tracestate: None } if traceparent == header
    ));
    assert_eq!(timestamp_from_unix_nanos(record.start_unix_nanos), (1, 123));
    assert_eq!(timestamp_from_unix_nanos(record.end_unix_nanos), (2, 456));
    assert_eq!(record.attributes.len(), 2);
    assert_eq!(record.attributes[0].key, "browser_use.url");
    assert!(matches!(
        &record.attributes[0].value,
        AttributeValue::Text(s) if s == "https://example.com"
    ));
    assert_eq!(record.attributes[1].key, "browser_use.timeout_ms");
    assert!(matches!(
        record.attributes[1].value,
        AttributeValue::Int(2500) | AttributeValue::Unsigned(2500)
    ));
}

#[test]
fn explicit_ids_reconstruct_span_and_parent_ids() {
    let mut fields = explicit(TRACE_ID, "0000000000000010", "0000000000000002", "01");
    fields.push(("tracestate", text("vendor=value")));
    let record = parse(&span("node_repl.js", 1_000_000_123, 2_000_000_456, fields));

    assert_eq!(record.span_id, Some(0x10));
    assert!(matches!(
        record.parent_context().expect("a parent"),
        ParentContext::Explicit {
            trace_id: 1,
            parent_span_id: 2,
            trace_flags: 1,
            tracestate: Some(state),
        } if state == "vendor=value"
    ));
}

#[test]
fn camel_case_explicit_ids_reconstruct_span_and_parent_ids() {
    let record = parse(&span(
        "browser_use.tab.click",
        1_000_000_123,
        2_000_000_456,
        vec![
            ("traceId", text(TRACE_ID)),
            ("spanId", text("0000000000000010")),
            ("parentSpanId", text("0000000000000002")),
            ("traceFlags", text("01")),
        ],
    ));

    assert_eq!(record.span_id, Some(0x10));
    assert!(matches!(
        record.parent_context().expect("a parent"),
        ParentContext::Explicit {
            trace_id: 1,
            parent_span_id: 2,
            trace_flags: 1,
            tracestate: None,
        }
    ));
}

#[test]
fn child_span_can_parent_to_previous_reconstructed_span_id() {
    let node_span_id = "0000000000000010";
    let node = parse(&span(
        "node_repl.js",
        1_000_000_000,
        3_000_000_000,
        explicit(TRACE_ID, node_span_id, "0000000000000002", "01"),
    ));
    let child = parse(&span(
        "browser_use.tab.goto",
        1_500_000_000,
        2_000_000_000,
        explicit(TRACE_ID, "0000000000000011", node_span_id, "01"),
    ));

    assert_eq!(node.span_id, Some(0x10));
    assert_eq!(child.span_id, Some(0x11));
    assert!(matches!(
        child.parent_context().expect("a parent"),
        ParentContext::Explicit { parent_span_id: 0x10, .. }
    ));
}

#[test]
fn invalid_span_telemetry_is_rejected_without_emitting_span() {
    let error = parse_span_telemetry_record(&object(vec![
        ("v", JsonValue::Unsigned(99)),
        ("type", text("span")),
    ]))
    .expect_err("unsupported version");
    assert!(matches!(error, StderrSpanTelemetryError::UnsupportedVersion));
}

#[test]
fn invalid_explicit_ids_are_rejected_without_emitting_span() {
    for (trace_id, span_id, parent, flags) in [
        ("00000000000000000000000000000000", "0000000000000010", "0000000000000002", "01"),
        (TRACE_ID, "0000000000000000", "0000000000000002", "01"),
        (TRACE_ID, "0000000000000010", "0002", "01"),
        (TRACE_ID, "0000000000000010", "0000000000000002", "001"),
        (TRACE_ID, "0000000000000010", "0000000000000002", "zz"),
    ] {
        let payload = span(
            "node_repl.js",
            1_000_000_000,
            2_000_000_000,
            explicit(trace_id, span_id, parent, flags),
        );
        let error = parse_span_telemetry_record(&payload).expect_err("invalid id");
        assert!(matches!(error, StderrSpanTelemetryError::InvalidField(_)));
    }
}

#[test]
fn malformed_records_are_told_apart() {
    let refused = |payload: &JsonValue| parse_span_telemetry_record(payload).expect_err("refused");
    assert!(matches!(refused(&text("x")), StderrSpanTelemetryError::NotObject));
    assert!(matches!(
        refused(&object(vec![("v", JsonValue::Unsigned(1)), ("type", text("log"))])),
        StderrSpanTelemetryError::UnsupportedType
    ));
    assert!(matches!(
        refused(&span("other.name", 1, 2, vec![("traceparent", text("x"))])),
        StderrSpanTelemetryError::UnsupportedSpanName
    ));
    assert!(matches!(
        refused(&span("node_repl.js", 2, 1, vec![("traceparent", text("x"))])),
        StderrSpanTelemetryError::InvalidField(_)
    ));
}

#[test]
fn trace_states_that_do_not_parse_are_refused() {
    let mut fields = explicit(TRACE_ID, "0000000000000010", "0000000000000002", "01");
    fields.push(("tracestate", text("no equals sign")));
    let record = parse(&span("node_repl.js", 1, 2, fields));
    assert!(matches!(
        record.parent_context(),
        Err(StderrSpanTelemetryError::InvalidField("tracestate"))
    ));
}

#[test]
fn long_attributes_are_cut_between_characters() {
    let long = "a".repeat(MAX_ATTRIBUTE_STRING_BYTES - 1) + "\u{e9}";
    assert_eq!(
        truncate_attribute_string(&long),
        "a".repeat(MAX_ATTRIBUTE_STRING_BYTES - 1)
    );
    assert_eq!(truncate_attribute_string("short"), "short");
}

#[test]
fn numbers_that_fit_are_signed_and_later_fields_replace_earlier_ones() {
    let fields = vec![
        ("browser_use.timeout_ms".to_string(), JsonValue::Unsigned(5)),
        ("browser_use.url".to_string(), JsonValue::Unsigned(u64::MAX)),
        ("browser_use.timeout_ms".to_string(), JsonValue::Unsigned(7)),
    ];
    let exported: Vec<(String, String)> = sanitized_attributes(&fields)
        .into_iter()
        .map(|attribute| (attribute.key, format!("{:?}", attribute.value)))
        .collect();
    assert_eq!(
        exported,
        vec![
            (
                "browser_use.url".to_string(),
                "Unsigned(18446744073709551615)".to_string()
            ),
            ("browser_use.timeout_ms".to_string(), "Int(7)".to_string()),
        ]
    );
}
