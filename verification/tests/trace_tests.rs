use dch_core::trace_config::{
    exporter_plan, exporter_report, resolve_endpoint, ExporterReport, TraceConfig, ENV_OTLP_CERTIFICATE,
    ENV_OTLP_ENDPOINT, ENV_OTLP_INSECURE,
};

fn trace_config(vars: &[(&str, &str)]) -> TraceConfig {
    TraceConfig::from_vars(|key: &str| {
        vars.iter()
            .find(|(name, _)| *name == key)
            .map(|(_, value)| (*value).to_string())
    })
}

#[test]
fn test_trace_config_unset() {
    assert_eq!(trace_config(&[]), TraceConfig::default());
}

#[test]
fn test_trace_config_reads_all_vars() {
    let trace = trace_config(&[
        (ENV_OTLP_ENDPOINT, "https://otel:4317"),
        (ENV_OTLP_INSECURE, "TRUE"),
        (ENV_OTLP_CERTIFICATE, "/etc/otel/ca.crt"),
    ]);
    assert_eq!(trace.endpoint.as_deref(), Some("https://otel:4317"));
    assert!(trace.insecure);
    assert_eq!(trace.certificate.as_deref(), Some("/etc/otel/ca.crt"));
}

#[test]
fn test_trace_config_ignores_blank_values() {
    let trace = trace_config(&[
        (ENV_OTLP_ENDPOINT, "  "),
        (ENV_OTLP_INSECURE, ""),
        (ENV_OTLP_CERTIFICATE, " "),
    ]);
    assert_eq!(trace, TraceConfig::default());
}

#[test]
fn test_trace_config_insecure_requires_true() {
    assert!(!trace_config(&[(ENV_OTLP_INSECURE, "false")]).insecure);
    assert!(!trace_config(&[(ENV_OTLP_INSECURE, "1")]).insecure);
}

#[test]
fn test_resolve_endpoint_downgrades_https_when_insecure() {
    assert_eq!(resolve_endpoint("https://otel:4317", true), "http://otel:4317");
    assert_eq!(resolve_endpoint("https://otel:4317", false), "https://otel:4317");
    assert_eq!(resolve_endpoint("http://otel:4317", true), "http://otel:4317");
}

#[test]
fn values_are_trimmed_and_insecure_tolerates_spaces() {
    let trace = TraceConfig::from_values(
        Some("\t http://collector:4317 \n".to_string()),
        Some(" TrUe ".to_string()),
        None,
    );
    assert_eq!(trace.endpoint.as_deref(), Some("http://collector:4317"));
    assert!(trace.insecure);
    assert_eq!(trace.certificate, None);
    let spaced = TraceConfig::from_values(Some("\u{3000}a b\u{a0}".to_string()), None, None);
    assert_eq!(spaced.endpoint.as_deref(), Some("a b"));
}

#[test]
fn insecure_endpoint_never_uses_https() {
    for e in ["https://x", "https://", "http://x", "grpc://x", ""] {
        assert!(!resolve_endpoint(e, true).starts_with("https://"));
        assert_eq!(resolve_endpoint(e, false), e);
    }
}

#[test]
fn exporter_report_describes_the_configuration() {
    assert_eq!(exporter_report(&TraceConfig::default()), ExporterReport::NotConfigured);
    let trace = TraceConfig { endpoint: Some("http://c:4317".to_string()), insecure: true, certificate: None };
    assert_eq!(
        exporter_report(&trace),
        ExporterReport::Configured {
            endpoint: "http://c:4317".to_string(),
            insecure: true,
            certificate: String::new(),
        }
    );
}

#[test]
fn exporter_plan_reads_the_certificate_only_when_secure() {
    assert!(exporter_plan(&trace_config(&[(ENV_OTLP_CERTIFICATE, "/ca.crt")])).is_none());
    let plan = exporter_plan(&trace_config(&[
        (ENV_OTLP_ENDPOINT, "https://otel:4317"),
        (ENV_OTLP_CERTIFICATE, "/ca.crt"),
    ]))
    .unwrap();
    assert_eq!(plan.endpoint, "https://otel:4317");
    assert_eq!(plan.ca_certificate.as_deref(), Some("/ca.crt"));
    let plan = exporter_plan(&trace_config(&[
        (ENV_OTLP_ENDPOINT, "https://otel:4317"),
        (ENV_OTLP_INSECURE, "true"),
        (ENV_OTLP_CERTIFICATE, "/ca.crt"),
    ]))
    .unwrap();
    assert_eq!(plan.endpoint, "http://otel:4317");
    assert_eq!(plan.ca_certificate, None);
}
