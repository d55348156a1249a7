use dch_core::error::ConnectorError;
use dch_core::format::FileFormat;

#[test]
fn test_detect_format_from_properties() {
    assert_eq!(FileFormat::detect("anything", Some("parquet")).unwrap(), FileFormat::Parquet);
    assert_eq!(FileFormat::detect("anything", Some("csv")).unwrap(), FileFormat::Csv);
    assert_eq!(FileFormat::detect("anything", Some("jsonl")).unwrap(), FileFormat::JsonLines);
    assert_eq!(FileFormat::detect("anything", Some("ndjson")).unwrap(), FileFormat::JsonLines);
    assert_eq!(FileFormat::detect("anything", Some("jsonlines")).unwrap(), FileFormat::JsonLines);
    assert_eq!(FileFormat::detect("anything", Some("json")).unwrap(), FileFormat::Json);
    assert_eq!(FileFormat::detect("anything", Some("Parquet")).unwrap(), FileFormat::Parquet);
}

#[test]
fn test_detect_format_from_extension() {
    assert_eq!(FileFormat::detect("data/train.parquet", None).unwrap(), FileFormat::Parquet);
    assert_eq!(FileFormat::detect("data/train.csv", None).unwrap(), FileFormat::Csv);
    assert_eq!(FileFormat::detect("data/train.jsonl", None).unwrap(), FileFormat::JsonLines);
    assert_eq!(FileFormat::detect("data/train.ndjson", None).unwrap(), FileFormat::JsonLines);
    assert_eq!(FileFormat::detect("data/train.jsonlines", None).unwrap(), FileFormat::JsonLines);
    assert_eq!(FileFormat::detect("data/train.json", None).unwrap(), FileFormat::Json);
    assert_eq!(FileFormat::detect("data/train.PARQUET", None).unwrap(), FileFormat::Parquet);
}

#[test]
fn test_detect_format_with_query_params() {
    assert_eq!(FileFormat::detect("data/file.csv?download=1", None).unwrap(), FileFormat::Csv);
    assert_eq!(FileFormat::detect("/api/export.parquet?token=abc", None).unwrap(), FileFormat::Parquet);
    assert_eq!(FileFormat::detect("data.jsonl?v=2&fmt=raw", None).unwrap(), FileFormat::JsonLines);
}

#[test]
fn test_detect_format_unknown() {
    let result = FileFormat::detect("data/train.txt", None);
    assert!(result.is_err());
}

#[test]
fn test_detect_format_unsupported_property() {
    let result = FileFormat::detect("anything", Some("xml"));
    assert!(result.is_err());
}

#[test]
fn test_from_content_type_json() {
    assert_eq!(FileFormat::from_content_type("application/json").unwrap(), FileFormat::Json);
    assert_eq!(FileFormat::from_content_type("application/json; charset=utf-8").unwrap(), FileFormat::Json);
    assert_eq!(FileFormat::from_content_type("application/problem+json").unwrap(), FileFormat::Json);
    assert_eq!(FileFormat::from_content_type("text/example+json").unwrap(), FileFormat::Json);
}

#[test]
fn test_from_content_type_csv() {
    assert_eq!(FileFormat::from_content_type("text/csv").unwrap(), FileFormat::Csv);
    assert_eq!(FileFormat::from_content_type("text/csv; charset=utf-8").unwrap(), FileFormat::Csv);
}

#[test]
fn test_from_content_type_jsonl() {
    assert_eq!(FileFormat::from_content_type("application/x-ndjson").unwrap(), FileFormat::JsonLines);
    assert_eq!(FileFormat::from_content_type("application/ndjson").unwrap(), FileFormat::JsonLines);
    assert_eq!(FileFormat::from_content_type("application/jsonl").unwrap(), FileFormat::JsonLines);
    assert_eq!(FileFormat::from_content_type("application/jsonlines").unwrap(), FileFormat::JsonLines);
}

#[test]
fn test_from_content_type_parquet() {
    assert_eq!(FileFormat::from_content_type("application/vnd.apache.parquet").unwrap(), FileFormat::Parquet);
    assert_eq!(FileFormat::from_content_type("application/x-parquet").unwrap(), FileFormat::Parquet);
}

#[test]
fn test_from_content_type_unknown() {
    assert!(FileFormat::from_content_type("text/plain").is_err());
    assert!(FileFormat::from_content_type("application/octet-stream").is_err());
}

#[test]
fn detect_error_messages_name_the_input() {
    match FileFormat::detect("data/train.txt", None) {
        Err(ConnectorError::InvalidRequest(m)) => assert_eq!(
            m,
            "Cannot detect format for path: data/train.txt. Set 'format' in connection properties."
        ),
        other => panic!("unexpected {:?}", other),
    }
    match FileFormat::from_format_str("XML") {
        Err(ConnectorError::InvalidRequest(m)) => assert_eq!(m, "Unsupported format: xml"),
        other => panic!("unexpected {:?}", other),
    }
}

#[test]
fn content_type_errors_distinguish_parse_failure_from_unknown_type() {
    match FileFormat::from_content_type("not a media type") {
        Err(ConnectorError::InvalidRequest(m)) => {
            assert!(m.starts_with("Invalid Content-Type 'not a media type': "));
            assert!(m.len() > "Invalid Content-Type 'not a media type': ".len());
        },
        other => panic!("unexpected {:?}", other),
    }
    match FileFormat::from_content_type("text/plain") {
        Err(ConnectorError::InvalidRequest(m)) => {
            assert_eq!(m, "Cannot determine format from Content-Type 'text/plain'")
        },
        other => panic!("unexpected {:?}", other),
    }
}

#[test]
fn content_type_is_read_without_case() {
    assert_eq!(FileFormat::from_content_type("TEXT/CSV").unwrap(), FileFormat::Csv);
    assert_eq!(FileFormat::from_content_type("Application/X-Parquet").unwrap(), FileFormat::Parquet);
    assert_eq!(FileFormat::from_content_type("application/a+b+json").unwrap(), FileFormat::Json);
}

#[test]
fn query_string_is_ignored_by_extension_detection() {
    assert_eq!(FileFormat::detect("data/file.csv?name=x.parquet", None).unwrap(), FileFormat::Csv);
    assert!(FileFormat::detect("data/file?x.csv", None).is_err());
}

#[test]
fn explicit_property_wins_over_extension() {
    assert_eq!(FileFormat::detect("data/file.csv", Some("JSON")).unwrap(), FileFormat::Json);
    assert!(FileFormat::detect("data/file.csv", Some("xml")).is_err());
}
