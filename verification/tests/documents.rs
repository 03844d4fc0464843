use pact_broker_cli::broker::{
    ffi_error_envelope, ffi_parse_args, ffi_success_envelope, latest_pact_rows,
    render_pact_versions, validation_messages_from_json,
};
use pact_broker_cli::errors::{error_messages, BrokerError};
use pact_broker_cli::evaluate::Summary;
use pact_broker_cli::gate::gate_from_document;
use pact_broker_cli::hal::{get_link, get_named_link, href_path_after_base, relation_href_path};
use pact_broker_cli::json::{print_json, JsonValue};
use pact_broker_cli::matrix::{notices_from_json, rows_from_json, summary_from_json};
use pact_broker_cli::render::{
    notice_kind, render_json, render_notice_lines, render_table, render_text, NoticeKind,
    OutputType,
};

fn obj(fields: Vec<(&str, JsonValue)>) -> JsonValue {
    JsonValue::Obj(
        fields
            .into_iter()
            .map(|(k, v)| (k.to_string(), v))
            .collect(),
    )
}

fn s(v: &str) -> JsonValue {
    JsonValue::Str(v.to_string())
}

fn n(v: &str) -> JsonValue {
    JsonValue::Num(v.to_string())
}

/// Builds the classic deployable matrix response.
fn deployable_doc() -> JsonValue {
    obj(vec![
        (
            "summary",
            obj(vec![
                ("deployable", JsonValue::Bool(true)),
                ("success", n("1")),
                ("failed", n("0")),
                ("unknown", n("0")),
            ]),
        ),
        (
            "matrix",
            JsonValue::Arr(vec![obj(vec![
                ("consumer", obj(vec![("name", s("Foo"))])),
                ("provider", obj(vec![("name", s("Bar"))])),
                ("pact", obj(vec![])),
                (
                    "verificationResult",
                    obj(vec![("success", JsonValue::Bool(true))]),
                ),
            ])]),
        ),
    ])
}

fn undeployable_doc() -> JsonValue {
    obj(vec![
        (
            "summary",
            obj(vec![
                ("deployable", JsonValue::Bool(false)),
                ("reason", s("a failed verification exists")),
                ("success", n("0")),
                ("failed", n("1")),
                ("unknown", n("0")),
            ]),
        ),
        (
            "matrix",
            JsonValue::Arr(vec![obj(vec![
                ("consumer", obj(vec![("name", s("Foo"))])),
                ("provider", obj(vec![("name", s("Bar"))])),
                ("pact", obj(vec![])),
                (
                    "verificationResult",
                    obj(vec![("success", JsonValue::Bool(false))]),
                ),
            ])]),
        ),
    ])
}

#[test]
fn deployable_body_renders_verbatim_and_opens_the_gate() {
    let doc = deployable_doc();
    let expected = "{\"summary\":{\"deployable\":true,\"success\":1,\"failed\":0,\"unknown\":0},\"matrix\":[{\"consumer\":{\"name\":\"Foo\"},\"provider\":{\"name\":\"Bar\"},\"pact\":{},\"verificationResult\":{\"success\":true}}]}";
    assert_eq!(render_json(&doc), expected);
    let d = gate_from_document(&doc, &Vec::new(), false).unwrap();
    assert!(d.passed);
    assert_eq!(d.exit_code, 0);
}

#[test]
fn undeployable_body_closes_the_gate_and_lists_the_row() {
    let doc = undeployable_doc();
    let d = gate_from_document(&doc, &Vec::new(), false).unwrap();
    assert!(!d.passed);
    assert_eq!(d.exit_code, 1);
    let table = render_table(&d.rows);
    assert!(table.contains("CONSUMER"));
    assert!(table.contains("SUCCESS?"));
    assert!(table.contains("Foo"));
    assert!(table.contains("Bar"));
    assert!(table.contains("false"));
    assert!(!table.contains("true"));
}

#[test]
fn unknown_summary_closes_the_gate_without_dry_run() {
    let doc = obj(vec![
        (
            "summary",
            obj(vec![
                ("deployable", JsonValue::Null),
                ("success", n("0")),
                ("failed", n("0")),
                ("unknown", n("1")),
            ]),
        ),
        ("matrix", JsonValue::Arr(vec![])),
    ]);
    let d = gate_from_document(&doc, &Vec::new(), false).unwrap();
    assert_eq!(d.exit_code, 1);
    let dry = gate_from_document(&doc, &Vec::new(), true).unwrap();
    assert_eq!(dry.exit_code, 0);
}

#[test]
fn summary_reader_rejects_malformed_counts() {
    let doc = obj(vec![(
        "summary",
        obj(vec![("success", s("not a count"))]),
    )]);
    match summary_from_json(&doc) {
        Err(BrokerError::ContentError(m)) => assert_eq!(m, "invalid matrix summary"),
        other => panic!("expected a content error, got {:?}", other),
    }
}

#[test]
fn summary_reader_rejects_a_missing_summary() {
    let doc = obj(vec![("matrix", JsonValue::Arr(vec![]))]);
    match summary_from_json(&doc) {
        Err(BrokerError::ContentError(m)) => {
            assert_eq!(m, "no summary found in the matrix response")
        }
        other => panic!("expected a content error, got {:?}", other),
    }
}

#[test]
fn summary_reader_rejects_an_oversized_count() {
    let doc = obj(vec![(
        "summary",
        obj(vec![("success", n("4294967296"))]),
    )]);
    assert!(summary_from_json(&doc).is_err());
    let max = obj(vec![(
        "summary",
        obj(vec![("success", n("4294967295"))]),
    )]);
    let sm: Summary = summary_from_json(&max).unwrap();
    assert_eq!(sm.success, u32::MAX);
    assert_eq!(sm.failed, 0);
    assert_eq!(sm.deployable, None);
}

#[test]
fn row_reader_takes_versions_and_timestamps_when_present() {
    let doc = obj(vec![(
        "matrix",
        JsonValue::Arr(vec![obj(vec![
            (
                "consumer",
                obj(vec![
                    ("name", s("Foo")),
                    ("version", obj(vec![("number", s("1.2.3"))])),
                ]),
            ),
            ("provider", obj(vec![("name", s("Bar"))])),
            ("pact", obj(vec![("createdAt", s("2024-01-01"))])),
        ])]),
    )]);
    let rows = rows_from_json(&doc).unwrap();
    assert_eq!(rows.len(), 1);
    assert_eq!(rows[0].consumer_name, "Foo");
    assert_eq!(rows[0].consumer_version.as_deref(), Some("1.2.3"));
    assert_eq!(rows[0].provider_version, None);
    assert_eq!(rows[0].pact_created_at.as_deref(), Some("2024-01-01"));
    assert!(rows[0].verification.is_none());
}

#[test]
fn row_reader_rejects_a_nameless_row() {
    let doc = obj(vec![(
        "matrix",
        JsonValue::Arr(vec![obj(vec![("consumer", obj(vec![]))])]),
    )]);
    match rows_from_json(&doc) {
        Err(BrokerError::ContentError(m)) => assert_eq!(m, "invalid matrix row"),
        other => panic!("expected a content error, got {:?}", other),
    }
}

#[test]
fn notice_reader_keeps_server_order() {
    let doc = obj(vec![(
        "notices",
        JsonValue::Arr(vec![
            obj(vec![("type", s("warning")), ("text", s("first"))]),
            obj(vec![("type", s("error")), ("text", s("second"))]),
            obj(vec![("type", s("info")), ("text", s("third"))]),
        ]),
    )]);
    let notices = notices_from_json(&doc).unwrap();
    let lines = render_notice_lines(&notices);
    assert_eq!(lines.len(), 3);
    assert_eq!(lines[0], (NoticeKind::Warning, "first".to_string()));
    assert_eq!(lines[1], (NoticeKind::Error, "second".to_string()));
    assert_eq!(lines[2], (NoticeKind::Info, "third".to_string()));
}

#[test]
fn notice_classification_goes_by_the_type_field() {
    assert_eq!(notice_kind("warning"), NoticeKind::Warning);
    assert_eq!(notice_kind("error"), NoticeKind::Error);
    assert_eq!(notice_kind("prompt"), NoticeKind::Info);
}

#[test]
fn text_rendering_starts_with_the_reason() {
    let doc = undeployable_doc();
    let d = gate_from_document(&doc, &Vec::new(), false).unwrap();
    let text = render_text(&d.summary, &d.notices);
    assert!(text.starts_with("a failed verification exists\n"));
}

#[test]
fn string_escapes_render_as_json() {
    let doc = obj(vec![("text", s("a \"quote\"\nand\tcontrol\u{1}"))]);
    assert_eq!(
        print_json(&doc),
        "{\"text\":\"a \\\"quote\\\"\\nand\\tcontrol\\u0001\"}"
    );
}

#[test]
fn links_resolve_by_relation_name() {
    let doc = obj(vec![(
        "_links",
        obj(vec![(
            "pb:latest-pact-versions",
            obj(vec![
                ("href", s("http://broker/pacts/latest")),
                ("title", s("Latest pacts")),
            ]),
        )]),
    )]);
    let link = get_link(&doc, "pb:latest-pact-versions").unwrap();
    assert_eq!(link.name, "pb:latest-pact-versions");
    assert_eq!(link.href.as_deref(), Some("http://broker/pacts/latest"));
    assert!(!link.templated);
    assert_eq!(link.title.as_deref(), Some("Latest pacts"));
}

#[test]
fn a_missing_relation_is_a_link_error() {
    let doc = obj(vec![("_links", obj(vec![]))]);
    match get_link(&doc, "pb:environments") {
        Err(BrokerError::LinkError(m)) => {
            assert_eq!(m, "relation 'pb:environments' was not found in the response")
        }
        other => panic!("expected a link error, got {:?}", other),
    }
}

#[test]
fn list_valued_relations_disambiguate_by_name() {
    let doc = obj(vec![(
        "_links",
        obj(vec![(
            "pb:record-deployment",
            JsonValue::Arr(vec![
                obj(vec![("name", s("test")), ("href", s("/deploy/test"))]),
                obj(vec![("name", s("production")), ("href", s("/deploy/prod"))]),
            ]),
        )]),
    )]);
    let link = get_named_link(&doc, "pb:record-deployment", "production").unwrap();
    assert_eq!(link.name, "production");
    assert_eq!(link.href.as_deref(), Some("/deploy/prod"));
    assert!(get_named_link(&doc, "pb:record-deployment", "staging").is_err());
}

#[test]
fn relation_hrefs_are_made_relative_to_the_base() {
    assert_eq!(
        href_path_after_base("http://broker/pacts/latest", "http://broker"),
        "/pacts/latest"
    );
    assert_eq!(
        href_path_after_base("http://other/pacts", "http://broker"),
        "http://other/pacts"
    );
    let doc = obj(vec![(
        "_links",
        obj(vec![(
            "pb:latest-pact-versions",
            obj(vec![("href", s("http://broker/pacts/latest"))]),
        )]),
    )]);
    let path = relation_href_path(&doc, "pb:latest-pact-versions", "http://broker").unwrap();
    assert_eq!(path, "/pacts/latest");
}

#[test]
fn latest_pacts_render_as_the_four_column_table() {
    let doc = obj(vec![(
        "pacts",
        JsonValue::Arr(vec![obj(vec![
            (
                "_embedded",
                obj(vec![
                    (
                        "consumer",
                        obj(vec![
                            ("name", s("Foo")),
                            (
                                "_embedded",
                                obj(vec![("version", obj(vec![("number", s("1.0.0"))]))]),
                            ),
                        ]),
                    ),
                    ("provider", obj(vec![("name", s("Bar"))])),
                ]),
            ),
            ("createdAt", s("2024-05-06")),
        ])]),
    )]);
    let rows = latest_pact_rows(&doc).unwrap();
    assert_eq!(
        rows,
        vec![vec![
            "Foo".to_string(),
            "1.0.0".to_string(),
            "Bar".to_string(),
            "2024-05-06".to_string()
        ]]
    );
    let table = render_pact_versions(&doc, OutputType::Table).unwrap();
    assert!(table.contains("CONSUMER_VERSION"));
    assert!(table.contains("1.0.0"));
    let json = render_pact_versions(&doc, OutputType::Json).unwrap();
    assert!(json.starts_with("{\"pacts\":["));
}

#[test]
fn ffi_args_require_the_broker_url() {
    let ok = obj(vec![
        ("broker_base_url", s("http://broker")),
        ("output_type", s("table")),
        ("verbose", JsonValue::Bool(true)),
    ]);
    let req = ffi_parse_args(&ok).unwrap();
    assert_eq!(req.broker_base_url, "http://broker");
    assert_eq!(req.output, OutputType::Table);
    assert!(req.verbose);

    let missing = obj(vec![("output_type", s("json"))]);
    let envelope = ffi_parse_args(&missing).unwrap_err();
    assert_eq!(
        print_json(&envelope),
        "{\"code\":1,\"reason\":\"missing_broker_url\",\"message\":\"Missing 'broker_base_url' in args\"}"
    );
}

#[test]
fn ffi_envelopes_have_the_fixed_shape() {
    assert_eq!(
        print_json(&ffi_success_envelope("listing")),
        "{\"code\":0,\"message\":\"success\",\"result\":\"listing\"}"
    );
    assert_eq!(
        print_json(&ffi_error_envelope("broker_error", "boom")),
        "{\"code\":1,\"reason\":\"broker_error\",\"message\":\"boom\"}"
    );
}

#[test]
fn every_error_variant_prints_its_messages() {
    assert_eq!(
        error_messages(&BrokerError::LinkError("l".to_string())),
        vec!["l"]
    );
    assert_eq!(
        error_messages(&BrokerError::ContentError("c".to_string())),
        vec!["c"]
    );
    assert_eq!(
        error_messages(&BrokerError::IoError("i".to_string())),
        vec!["i"]
    );
    assert_eq!(
        error_messages(&BrokerError::NotFound("n".to_string())),
        vec!["n"]
    );
    assert_eq!(
        error_messages(&BrokerError::ValidationError(vec![
            "first".to_string(),
            "second".to_string()
        ])),
        vec!["first", "second"]
    );
}

#[test]
fn validation_messages_come_from_the_errors_list() {
    let doc = obj(vec![(
        "errors",
        JsonValue::Arr(vec![s("name is required"), s("version is malformed")]),
    )]);
    assert_eq!(
        validation_messages_from_json(&doc),
        Some(vec![
            "name is required".to_string(),
            "version is malformed".to_string()
        ])
    );
    let plain = obj(vec![("summary", obj(vec![]))]);
    assert_eq!(validation_messages_from_json(&plain), None);
}
