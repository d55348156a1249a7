use vstd::prelude::*;
use vstd::string::*;

use crate::header::opt_view;
use crate::text::{concat2, eq_ignore_ascii_case, eq_ignore_ascii_case_spec, has_prefix, starts_with, trim, trimmed};

verus! {

/// Names the environment variable holding the OTLP/gRPC collector URL.
pub const ENV_OTLP_ENDPOINT: &'static str = "OTEL_EXPORTER_OTLP_ENDPOINT";

/// Names the environment variable that disables transport security.
pub const ENV_OTLP_INSECURE: &'static str = "OTEL_EXPORTER_OTLP_INSECURE";

/// Names the environment variable holding the path to the PEM certificate of
/// the CA that signed the collector's TLS certificate.
pub const ENV_OTLP_CERTIFICATE: &'static str = "OTEL_EXPORTER_OTLP_CERTIFICATE";

/// The OTLP exporter configuration. Tracing is exported only when an endpoint
/// is present.
#[derive(Debug, Clone, PartialEq, Eq)]
pub struct TraceConfig {
    pub endpoint: Option<String>,
    pub insecure: bool,
    pub certificate: Option<String>,
}

/// A raw variable value as the configuration keeps it: trimmed, and absent
/// when nothing but white space is left.
pub open spec fn cleaned(raw: Option<Seq<char>>) -> Option<Seq<char>> {
    match raw {
        Some(v) => if trimmed(v).len() > 0 {
            Some(trimmed(v))
        } else {
            None
        },
        None => None,
    }
}

/// Whether a raw value of the insecure flag enables it: only `true`, in any
/// ASCII case and with surrounding white space, does.
pub open spec fn insecure_flag(raw: Option<Seq<char>>) -> bool {
    match cleaned(raw) {
        Some(v) => eq_ignore_ascii_case_spec(v, "true"@),
        None => false,
    }
}

impl TraceConfig {
    /// The configuration is the one read from the raw values of the three
    /// variables.
    pub open spec fn read_from(
        self,
        endpoint: Option<Seq<char>>,
        insecure: Option<Seq<char>>,
        certificate: Option<Seq<char>>,
    ) -> bool {
        &&& opt_view(self.endpoint) == cleaned(endpoint)
        &&& self.insecure == insecure_flag(insecure)
        &&& opt_view(self.certificate) == cleaned(certificate)
    }

    /// Builds the configuration from the raw values of the endpoint, insecure
    /// and certificate variables.
    pub fn from_values(
        endpoint: Option<String>,
        insecure: Option<String>,
        certificate: Option<String>,
    ) -> (r: TraceConfig)
        ensures
            r.read_from(opt_view(endpoint), opt_view(insecure), opt_view(certificate)),
    {
        let endpoint = clean(endpoint);
        let insecure = match clean(insecure) {
            Some(v) => eq_ignore_ascii_case(v.as_str(), "true"),
            None => false,
        };
        let certificate = clean(certificate);
        TraceConfig { endpoint, insecure, certificate }
    }

    /// Builds the configuration from a lookup of the variables by name.
    pub fn from_vars<F: Fn(&str) -> Option<String>>(get: F) -> (r: TraceConfig)
        requires
            forall|k: &str| #[trigger] get.requires((k,)),
        ensures
            exists|e: Option<String>, i: Option<String>, c: Option<String>|
                {
                    &&& get.ensures((ENV_OTLP_ENDPOINT,), e)
                    &&& get.ensures((ENV_OTLP_INSECURE,), i)
                    &&& get.ensures((ENV_OTLP_CERTIFICATE,), c)
                    &&& r.read_from(opt_view(e), opt_view(i), opt_view(c))
                },
    {
        let e = get(ENV_OTLP_ENDPOINT);
        let i = get(ENV_OTLP_INSECURE);
        let c = get(ENV_OTLP_CERTIFICATE);
        let r = Self::from_values(e, i, c);
        assert(get.ensures((ENV_OTLP_ENDPOINT,), e) && get.ensures((ENV_OTLP_INSECURE,), i)
            && get.ensures((ENV_OTLP_CERTIFICATE,), c));
        r
    }
}

impl Default for TraceConfig {
    fn default() -> (r: TraceConfig)
        ensures
            r.endpoint is None,
            !r.insecure,
            r.certificate is None,
    {
        TraceConfig { endpoint: None, insecure: false, certificate: None }
    }
}

fn clean(raw: Option<String>) -> (r: Option<String>)
    ensures
        opt_view(r) == cleaned(opt_view(raw)),
{
    match raw {
        Some(v) => {
            let t = trim(v.as_str());
            if t.unicode_len() > 0 {
                Some(String::from_str(t))
            } else {
                None
            }
        },
        None => None,
    }
}

/// The endpoint that the exporter contacts: an insecure exporter always
/// speaks plaintext, so an `https://` URL is downgraded to `http://`.
pub open spec fn resolved_endpoint(endpoint: Seq<char>, insecure: bool) -> Seq<char> {
    if insecure && has_prefix(endpoint, "https://"@) {
        "http://"@ + endpoint.skip(8)
    } else {
        endpoint
    }
}

/// Applies the insecure flag to the configured endpoint.
pub fn resolve_endpoint(endpoint: &str, insecure: bool) -> (r: String)
    ensures
        r@ == resolved_endpoint(endpoint@, insecure),
{
    proof {
        reveal_strlit("https://");
    }
    if insecure && starts_with(endpoint, "https://") {
        let host = endpoint.substring_char(8, endpoint.unicode_len());
        concat2("http://", host)
    } else {
        String::from_str(endpoint)
    }
}

/// What the service reports about its trace exporter at start-up.
#[derive(Debug, Clone, PartialEq, Eq)]
pub enum ExporterReport {
    /// Spans are exported to `endpoint`; `certificate` is empty when unset.
    Configured { endpoint: String, insecure: bool, certificate: String },
    /// No endpoint is set; spans are recorded but never exported.
    NotConfigured,
}

/// Decides what to report about the trace exporter of `trace`.
pub fn exporter_report(trace: &TraceConfig) -> (r: ExporterReport)
    ensures
        match trace.endpoint {
            Some(e) => r matches ExporterReport::Configured { endpoint, insecure, certificate } && endpoint@
                == e@ && insecure == trace.insecure && certificate@ == match trace.certificate {
                Some(c) => c@,
                None => Seq::<char>::empty(),
            },
            None => r is NotConfigured,
        },
{
    match &trace.endpoint {
        Some(e) => ExporterReport::Configured {
            endpoint: e.clone(),
            insecure: trace.insecure,
            certificate: match &trace.certificate {
                Some(c) => c.clone(),
                None => String::new(),
            },
        },
        None => ExporterReport::NotConfigured,
    }
}

/// How the OTLP exporter is set up: the endpoint it contacts, and the path
/// of the CA certificate that is read for it.
#[derive(Debug, Clone, PartialEq, Eq)]
pub struct ExporterPlan {
    pub endpoint: String,
    pub ca_certificate: Option<String>,
}

/// Decides how the exporter of `trace` is set up: none without an endpoint;
/// otherwise the endpoint with the insecure flag applied, and the CA
/// certificate only when the exporter is secure and a certificate path is
/// set.
pub fn exporter_plan(trace: &TraceConfig) -> (r: Option<ExporterPlan>)
    ensures
        match trace.endpoint {
            None => r is None,
            Some(e) => r matches Some(p) && p.endpoint@ == resolved_endpoint(e@, trace.insecure)
                && opt_view(p.ca_certificate) == if trace.insecure {
                None
            } else {
                opt_view(trace.certificate)
            },
        },
{
    match &trace.endpoint {
        None => None,
        Some(e) => {
            let endpoint = resolve_endpoint(e.as_str(), trace.insecure);
            let ca_certificate = if trace.insecure {
                None
            } else {
                match &trace.certificate {
                    Some(c) => Some(c.clone()),
                    None => None,
                }
            };
            Some(ExporterPlan { endpoint, ca_certificate })
        },
    }
}

} // verus!
