use dch_core::error::ConnectorError;
use dch_core::format::FileFormat;
use dch_core::uri::{
    build_client, check_response_size, classify_read_status, detect_format, is_auth_failure,
    request_target, request_url, Credentials, ReadStatus, UriAuth, UriRequest, KEY_PASSWORD, KEY_TOKEN, KEY_URI,
    KEY_USERNAME, PROVIDER,
};

const TEST_CA: &str = "-----BEGIN CERTIFICATE-----\nMIIBgjCCASmgAwIBAgIUR81DP9ksYGzzg/Q/YCNoSQxQU2UwCgYIKoZIzj0EAwIw\nFjEUMBIGA1UEAwwLZGNoLXRlc3QtY2EwIBcNMjYxMTE3MjI1NjUzWhgPMjEyNjEw\nMjQyMjU2NTNaMBYxFDASBgNVBAMMC2RjaC10ZXN0LWNhMFkwEwYHKoZIzj0CAQYI\nKoZIzj0DAQcDQgAEZzeC7TlM1fO4Ye4dfYqgpZbT56IM2Y/+amPuSo3cWGWIZehD\nq34nG2/OVU/s7ela5z3wXG0XYqBm/pLxeyoNHKNTMFEwHQYDVR0OBBYEFCgsdL4v\nDyu+4q46IlX1f1nZ44JEMB8GA1UdIwQYMBaAFCgsdL4vDyu+4q46IlX1f1nZ44JE\nMA8GA1UdEwEB/wQFMAMBAf8wCgYIKoZIzj0EAwIDRwAwRAIgbuKUWioqOGTUyuua\nuI0NWfaQfxCkuxYj9HUSZBERFy8CIAniPX7Uj0H9fwe9Z3QCMeNuL1Y33AR4IP/w\nqY5T64P9\n-----END CERTIFICATE-----\n";

fn creds(pairs: &[(&str, &str)]) -> Credentials {
    Credentials::from_pairs(pairs.iter().map(|(k, v)| (k.to_string(), v.to_string())).collect())
}

fn request(path: &str, format: Option<&str>) -> UriRequest {
    UriRequest { path: path.to_string(), data_path: None, format: format.map(String::from) }
}

#[test]
fn test_build_client_no_auth() {
    let client = build_client(&creds(&[(KEY_URI, "http://example.com")])).unwrap();
    assert_eq!(client.base_url.as_str(), "http://example.com/");
    assert!(matches!(client.auth, UriAuth::Anonymous));
}

#[test]
fn test_build_client_token_auth() {
    let client = build_client(&creds(&[(KEY_URI, "http://example.com"), (KEY_TOKEN, "my-token")])).unwrap();
    assert!(matches!(client.auth, UriAuth::Token { .. }));
}

#[test]
fn test_build_client_basic_auth() {
    let client = build_client(&creds(&[
        (KEY_URI, "http://example.com"),
        (KEY_USERNAME, "user"),
        (KEY_PASSWORD, "pass"),
    ]))
    .unwrap();
    assert!(matches!(client.auth, UriAuth::Basic { .. }));
}

#[test]
fn test_build_client_token_takes_precedence() {
    let client = build_client(&creds(&[
        (KEY_URI, "http://example.com"),
        (KEY_TOKEN, "my-token"),
        (KEY_USERNAME, "user"),
        (KEY_PASSWORD, "pass"),
    ]))
    .unwrap();
    assert!(matches!(client.auth, UriAuth::Token { .. }));
}

#[test]
fn test_build_client_missing_uri() {
    assert!(build_client(&creds(&[])).is_err());
}

#[test]
fn test_detect_format_from_content_type_json() {
    let ct = b"application/json; charset=utf-8";
    assert_eq!(detect_format(Some(ct), &request("api/data", None)).unwrap(), FileFormat::Json);
}

#[test]
fn test_detect_format_from_content_type_json_suffix() {
    let ct = b"application/problem+json";
    assert_eq!(detect_format(Some(ct), &request("api/data", None)).unwrap(), FileFormat::Json);
}

#[test]
fn test_detect_format_from_content_type_csv() {
    let ct = b"text/csv";
    assert_eq!(detect_format(Some(ct), &request("api/data", None)).unwrap(), FileFormat::Csv);
}

#[test]
fn test_detect_format_from_content_type_ndjson() {
    let ct = b"application/x-ndjson";
    assert_eq!(detect_format(Some(ct), &request("api/data", None)).unwrap(), FileFormat::JsonLines);
}

#[test]
fn test_detect_format_from_content_type_parquet() {
    let ct = b"application/vnd.apache.parquet";
    assert_eq!(detect_format(Some(ct), &request("api/data", None)).unwrap(), FileFormat::Parquet);
}

#[test]
fn test_detect_format_explicit_overrides_content_type() {
    let ct = b"application/json";
    assert_eq!(detect_format(Some(ct), &request("api/data", Some("csv"))).unwrap(), FileFormat::Csv);
}

#[test]
fn test_detect_format_falls_back_to_path_extension() {
    let ct = b"application/octet-stream";
    assert_eq!(detect_format(Some(ct), &request("data/file.parquet", None)).unwrap(), FileFormat::Parquet);
}

#[test]
fn test_detect_format_no_content_type_uses_path() {
    assert_eq!(detect_format(None, &request("data/file.csv", None)).unwrap(), FileFormat::Csv);
}

#[test]
fn test_detect_format_fails_when_ambiguous() {
    let ct = b"application/octet-stream";
    assert!(detect_format(Some(ct), &request("api/data", None)).is_err());
}

#[test]
fn test_url_join_relative_path() {
    let client = build_client(&creds(&[(KEY_URI, "http://example.com")])).unwrap();
    let url = request_url(&client.base_url, "api/data").unwrap();
    assert_eq!(url.as_str(), "http://example.com/api/data");
}

#[test]
fn test_url_join_trailing_slash_base() {
    let client = build_client(&creds(&[(KEY_URI, "http://example.com/")])).unwrap();
    let url = request_url(&client.base_url, "api/data").unwrap();
    assert_eq!(url.as_str(), "http://example.com/api/data");
}

#[test]
fn test_url_join_base_with_path_prefix() {
    let client = build_client(&creds(&[(KEY_URI, "http://example.com/v1")])).unwrap();
    let url = request_url(&client.base_url, "data").unwrap();
    assert_eq!(url.as_str(), "http://example.com/v1/data");
}

#[test]
fn test_url_rejects_absolute_url_with_scheme() {
    let client = build_client(&creds(&[(KEY_URI, "http://example.com")])).unwrap();
    let err = request_url(&client.base_url, "https://evil.com/steal").unwrap_err();
    assert!(err.message().contains("escape the base URI"));
}

#[test]
fn test_url_scheme_colon_treated_as_relative() {
    let client = build_client(&creds(&[(KEY_URI, "http://example.com")])).unwrap();
    let url = request_url(&client.base_url, "http:evil.com").unwrap();
    assert_eq!(url::Url::parse(&url).unwrap().host_str(), Some("example.com"));
}

#[test]
fn test_url_rejects_different_port() {
    let client = build_client(&creds(&[(KEY_URI, "http://example.com:8080")])).unwrap();
    let err = request_url(&client.base_url, "http://example.com:9090/x").unwrap_err();
    assert!(err.message().contains("escape the base URI"));
}

#[test]
fn test_url_rejects_path_escape() {
    let client = build_client(&creds(&[(KEY_URI, "http://example.com/v1")])).unwrap();
    let err = request_url(&client.base_url, "http://example.com/admin").unwrap_err();
    assert!(err.message().contains("escape the base URI"));
}

#[test]
fn base_uri_loses_query_and_fragment() {
    let client = build_client(&creds(&[(KEY_URI, "https://h/api?x=1#top"), ("CA_CERT", TEST_CA)])).unwrap();
    assert_eq!(client.base_url.as_str(), "https://h/api/");
    assert_eq!(client.ca_cert.as_deref(), Some(TEST_CA));
}

#[test]
fn build_client_errors_are_connection_errors() {
    match build_client(&creds(&[])) {
        Err(ConnectorError::ConnectionError(m)) => assert_eq!(m, "'URI' credential is required"),
        other => panic!("unexpected {:?}", other.err()),
    }
    match build_client(&creds(&[(KEY_URI, "not a url")])) {
        Err(ConnectorError::ConnectionError(m)) => assert!(m.starts_with("Invalid URI: ")),
        other => panic!("unexpected {:?}", other.err()),
    }
}

#[test]
fn username_alone_is_no_auth() {
    let client = build_client(&creds(&[(KEY_URI, "http://h"), (KEY_USERNAME, "u")])).unwrap();
    assert!(matches!(client.auth, UriAuth::Anonymous));
    match build_client(&creds(&[(KEY_URI, "http://h"), (KEY_USERNAME, "u"), (KEY_PASSWORD, "p")])).unwrap().auth {
        UriAuth::Basic { username, password } => {
            assert_eq!(username, "u");
            assert_eq!(password, "p");
        },
        other => panic!("unexpected {:?}", other),
    }
}

#[test]
fn unreadable_content_type_is_a_connection_error() {
    let ct = b"text/csv\xff";
    match detect_format(Some(ct), &request("data/file.csv", None)) {
        Err(ConnectorError::ConnectionError(m)) => assert!(m.starts_with("Invalid HTTP Content-Type header")),
        other => panic!("unexpected {:?}", other),
    }
    match detect_format(None, &request("api/data", None)) {
        Err(ConnectorError::ConnectionError(m)) => assert!(m.starts_with("Cannot determine response format.")),
        other => panic!("unexpected {:?}", other),
    }
}

#[test]
fn response_size_limit() {
    assert!(check_response_size(134217728).is_ok());
    match check_response_size(134217729) {
        Err(ConnectorError::ConnectionError(m)) => {
            assert_eq!(m, "Response too large (134217729 bytes, limit 134217728)")
        },
        other => panic!("unexpected {:?}", other),
    }
}

#[test]
fn statuses_of_reads() {
    assert_eq!(classify_read_status(200), ReadStatus::Readable);
    assert_eq!(classify_read_status(204), ReadStatus::Readable);
    assert_eq!(classify_read_status(404), ReadStatus::Missing);
    assert_eq!(classify_read_status(500), ReadStatus::Failed);
    assert_eq!(classify_read_status(301), ReadStatus::Failed);
    assert!(is_auth_failure(401));
    assert!(is_auth_failure(403));
    assert!(!is_auth_failure(404));
}

#[test]
fn test_connector_provider() {
    assert_eq!(PROVIDER, "uri");
}

#[test]
fn request_url_keeps_requests_below_the_base() {
    let client = build_client(&creds(&[(KEY_URI, "http://example.com/v1/")])).unwrap();
    assert_eq!(request_url(&client.base_url, "a/b?x=1").unwrap(), "http://example.com/v1/a/b?x=1");
    match request_url(&client.base_url, "../admin") {
        Err(ConnectorError::InvalidRequest(m)) => assert_eq!(m, "Path '../admin' must not escape the base URI"),
        other => panic!("unexpected {:?}", other),
    }
    match request_url("not a url", "x") {
        Err(ConnectorError::InvalidRequest(m)) => assert!(m.starts_with("Invalid path 'x': ")),
        other => panic!("unexpected {:?}", other),
    }
}

#[test]
fn malformed_ca_certificate_is_a_connection_error() {
    let bad = "-----BEGIN CERTIFICATE-----\n!!!not base64!!!\n-----END CERTIFICATE-----\n";
    match build_client(&creds(&[(KEY_URI, "https://h/"), ("CA_CERT", bad)])) {
        Err(ConnectorError::ConnectionError(m)) => assert!(
            m.starts_with("Failed to build HTTP client: ") || m.starts_with("Invalid CA certificate: "),
            "{m}"
        ),
        other => panic!("unexpected {:?}", other.err()),
    }
    match build_client(&creds(&[(KEY_URI, "not a url"), ("CA_CERT", bad)])) {
        Err(ConnectorError::ConnectionError(m)) => assert!(m.starts_with("Invalid URI: ")),
        other => panic!("unexpected {:?}", other.err()),
    }
}

#[test]
fn request_targets_carry_the_connection_auth() {
    let token = UriAuth::Token { token: "t".to_string() };
    let target = request_target("http://example.com/v1/", &token, "data").unwrap();
    assert_eq!(target.url, "http://example.com/v1/data");
    assert!(matches!(target.auth, UriAuth::Token { ref token } if token == "t"));
    let basic = UriAuth::Basic { username: "u".to_string(), password: "p".to_string() };
    match request_target("http://example.com/v1/", &basic, "x").unwrap().auth {
        UriAuth::Basic { username, password } => assert_eq!((username.as_str(), password.as_str()), ("u", "p")),
        other => panic!("unexpected {:?}", other),
    }
    assert!(request_target("http://example.com/v1/", &UriAuth::Anonymous, "/admin").is_err());
}

#[test]
fn a_repeated_credential_keeps_its_last_value() {
    let c = creds(&[(KEY_URI, "http://a/"), (KEY_TOKEN, "one"), (KEY_URI, "http://b/")]);
    assert_eq!(c.get(KEY_URI).map(String::as_str), Some("http://b/"));
    assert_eq!(c.get(KEY_TOKEN).map(String::as_str), Some("one"));
    assert_eq!(c.get(KEY_PASSWORD), None);
    assert_eq!(build_client(&c).unwrap().base_url, "http://b/");
}
