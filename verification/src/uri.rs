use vstd::prelude::*;
use vstd::string::*;

use crate::error::ConnectorError;
use crate::format::{
    format_for_extension, format_for_media, format_str_outcome, path_before_query,
    spec_parse_media_type, FileFormat,
};
use crate::header::{header_text, header_value_str, opt_view};
use crate::text::{concat2, concat3, decimal, decimal_string, ends_with, has_prefix, has_suffix, spec_to_lowercase, starts_with};

verus! {

/// The credential that holds the base URI.
pub const KEY_URI: &'static str = "URI";

/// The credential that holds a bearer token.
pub const KEY_TOKEN: &'static str = "TOKEN";

/// The credential that holds the user name of basic authentication.
pub const KEY_USERNAME: &'static str = "USERNAME";

/// The credential that holds the password of basic authentication.
pub const KEY_PASSWORD: &'static str = "PASSWORD";

/// The credential that holds a PEM CA certificate.
pub const KEY_CA_CERT: &'static str = "CA_CERT";

/// The provider name of the URI connector.
pub const PROVIDER: &'static str = "uri";

/// The largest response body that is read, in bytes.
pub const MAX_RESPONSE_BYTES: u64 = 134217728;

/// The credentials of a connection, as name/value pairs in which no name
/// occurs twice.
#[derive(Debug)]
pub struct Credentials {
    entries: Vec<(String, String)>,
}

/// No name occurs twice among `entries`.
pub open spec fn distinct_keys(entries: Seq<(String, String)>) -> bool {
    forall|i: int, j: int| 0 <= i < j < entries.len() ==> (#[trigger] entries[i]).0@ != (#[trigger] entries[j]).0@
}

/// The value of the first entry named `key`.
pub open spec fn lookup(entries: Seq<(String, String)>, key: Seq<char>) -> Option<Seq<char>>
    decreases entries.len(),
{
    if entries.len() == 0 {
        None
    } else if entries[0].0@ == key {
        Some(entries[0].1@)
    } else {
        lookup(entries.drop_first(), key)
    }
}

/// The value of the last pair named `key`: the one that a map built from the
/// pairs, in order, keeps.
pub open spec fn last_value(pairs: Seq<(String, String)>, key: Seq<char>) -> Option<Seq<char>>
    decreases pairs.len(),
{
    if pairs.len() == 0 {
        None
    } else if pairs.last().0@ == key {
        Some(pairs.last().1@)
    } else {
        last_value(pairs.drop_last(), key)
    }
}

proof fn lemma_lookup_at(s: Seq<(String, String)>, key: Seq<char>, j: int)
    requires
        distinct_keys(s),
        0 <= j < s.len(),
        s[j].0@ == key,
    ensures
        lookup(s, key) == Some(s[j].1@),
    decreases j,
{
    if j > 0 {
        assert(s[0].0@ != s[j].0@);
        let rest = s.drop_first();
        assert forall|a: int, b: int| 0 <= a < b < rest.len() implies (#[trigger] rest[a]).0@
            != (#[trigger] rest[b]).0@ by {
            assert(rest[a] == s[a + 1] && rest[b] == s[b + 1]);
        }
        assert(rest[j - 1] == s[j]);
        lemma_lookup_at(rest, key, j - 1);
    }
}

proof fn lemma_lookup_none(s: Seq<(String, String)>, key: Seq<char>)
    requires
        forall|j: int| 0 <= j < s.len() ==> (#[trigger] s[j]).0@ != key,
    ensures
        lookup(s, key) is None,
    decreases s.len(),
{
    if s.len() > 0 {
        let rest = s.drop_first();
        assert forall|j: int| 0 <= j < rest.len() implies (#[trigger] rest[j]).0@ != key by {
            assert(rest[j] == s[j + 1]);
        }
        lemma_lookup_none(rest, key);
    }
}

impl Credentials {
    #[verifier::type_invariant]
    spec fn keys_distinct(&self) -> bool {
        distinct_keys(self.entries@)
    }

    /// Credentials from name/value pairs; where a name occurs more than once,
    /// the last value wins, as when a map is built from the pairs.
    pub fn from_pairs(pairs: Vec<(String, String)>) -> (r: Credentials)
        ensures
            forall|k: Seq<char>| #[trigger] r.value(k) == last_value(pairs@, k),
    {
        let mut out: Vec<(String, String)> = Vec::new();
        let mut i: usize = 0;
        while i < pairs.len()
            invariant
                i <= pairs@.len(),
                distinct_keys(out@),
                forall|k: Seq<char>| #[trigger] lookup(out@, k) == last_value(pairs@.take(i as int), k),
            decreases pairs@.len() - i,
        {
            let k = pairs[i].0.clone();
            let v = pairs[i].1.clone();
            let mut j: usize = 0;
            while j < out.len() && !crate::text::str_eq(out[j].0.as_str(), k.as_str())
                invariant
                    j <= out@.len(),
                    forall|jj: int| 0 <= jj < j ==> (#[trigger] out@[jj]).0@ != k@,
                decreases out@.len() - j,
            {
                j = j + 1;
            }
            let ghost before = out@;
            if j < out.len() {
                out.set(j, (k, v));
            } else {
                out.push((k, v));
            }
            proof {
                let taken = pairs@.take(i + 1);
                assert(taken.drop_last() =~= pairs@.take(i as int));
                assert(taken.last() == pairs@[i as int]);
                assert forall|a: int, b: int| 0 <= a < b < out@.len() implies (#[trigger] out@[a]).0@
                    != (#[trigger] out@[b]).0@ by {
                    if a != j && b != j {
                        assert(out@[a] == before[a] && out@[b] == before[b]);
                    } else if a == j {
                        assert(out@[b] == before[b]);
                    } else {
                        assert(out@[a] == before[a]);
                    }
                }
                assert forall|k2: Seq<char>| #[trigger] lookup(out@, k2) == last_value(taken, k2) by {
                    if k2 == k@ {
                        lemma_lookup_at(out@, k2, j as int);
                    } else {
                        if exists|jj: int| 0 <= jj < before.len() && (#[trigger] before[jj]).0@ == k2 {
                            let jj = choose|jj: int| 0 <= jj < before.len() && (#[trigger] before[jj]).0@ == k2;
                            assert(jj != j);
                            assert(out@[jj] == before[jj]);
                            lemma_lookup_at(before, k2, jj);
                            lemma_lookup_at(out@, k2, jj);
                        } else {
                            lemma_lookup_none(before, k2);
                            assert forall|jj: int| 0 <= jj < out@.len() implies (#[trigger] out@[jj]).0@ != k2 by {
                                if jj != j {
                                    assert(out@[jj] == before[jj]);
                                }
                            }
                            lemma_lookup_none(out@, k2);
                        }
                    }
                }
            }
            i = i + 1;
        }
        assert(pairs@.take(pairs@.len() as int) =~= pairs@);
        Credentials { entries: out }
    }

    /// The value of credential `key`.
    pub closed spec fn value(&self, key: Seq<char>) -> Option<Seq<char>> {
        lookup(self.entries@, key)
    }

    /// Looks up credential `key`.
    pub fn get(&self, key: &str) -> (r: Option<&String>)
        ensures
            match r {
                Some(v) => self.value(key@) == Some(v@),
                None => self.value(key@) is None,
            },
    {
        let mut i: usize = 0;
        assert(self.entries@.skip(0) =~= self.entries@);
        while i < self.entries.len()
            invariant
                i <= self.entries@.len(),
                lookup(self.entries@, key@) == lookup(self.entries@.skip(i as int), key@),
            decreases self.entries@.len() - i,
        {
            let ghost rest = self.entries@.skip(i as int);
            assert(rest.drop_first() =~= self.entries@.skip(i + 1));
            if crate::text::str_eq(self.entries[i].0.as_str(), key) {
                return Some(&self.entries[i].1);
            }
            i = i + 1;
        }
        None
    }
}

/// How requests of a URI connection authenticate.
#[derive(Debug, Clone)]
pub enum UriAuth {
    Anonymous,
    Token { token: String },
    Basic { username: String, password: String },
}

/// The authentication that the credentials select: a token wins; otherwise
/// a user name together with a password; otherwise none.
pub open spec fn auth_matches(
    auth: UriAuth,
    token: Option<Seq<char>>,
    username: Option<Seq<char>>,
    password: Option<Seq<char>>,
) -> bool {
    match token {
        Some(t) => auth matches UriAuth::Token { token } && token@ == t,
        None => match (username, password) {
            (Some(u), Some(p)) => auth matches UriAuth::Basic { username, password } && username@ == u
                && password@ == p,
            _ => auth is Anonymous,
        },
    }
}

/// Selects the authentication from the token, user name and password
/// credentials.
pub fn select_auth(
    token: Option<&String>,
    username: Option<&String>,
    password: Option<&String>,
) -> (r: UriAuth)
    ensures
        auth_matches(
            r,
            match token {
                Some(t) => Some(t@),
                None => None,
            },
            match username {
                Some(u) => Some(u@),
                None => None,
            },
            match password {
                Some(p) => Some(p@),
                None => None,
            },
        ),
{
    match token {
        Some(t) => UriAuth::Token { token: t.clone() },
        None => match (username, password) {
            (Some(u), Some(p)) => UriAuth::Basic { username: u.clone(), password: p.clone() },
            _ => UriAuth::Anonymous,
        },
    }
}

/// What `url::Url::parse` gives for a string: the serialization of the URL
/// (`Url::as_str`), or the `Display` text of its error.
pub uninterp spec fn spec_url_parse(s: Seq<char>) -> Result<Seq<char>, Seq<char>>;

/// What `url::Url::set_query(None)` leaves of the URL that `u` parses to, as
/// its serialization, or the text of the error of parsing `u`.
pub uninterp spec fn spec_url_clear_query(u: Seq<char>) -> Result<Seq<char>, Seq<char>>;

/// What `url::Url::set_fragment(None)` leaves of the URL that `u` parses to,
/// as its serialization, or the text of the error of parsing `u`.
pub uninterp spec fn spec_url_clear_fragment(u: Seq<char>) -> Result<Seq<char>, Seq<char>>;

/// What `url::Url::path` gives for the URL that `u` parses to, or the text of
/// the error of parsing `u`.
pub uninterp spec fn spec_url_path(u: Seq<char>) -> Result<Seq<char>, Seq<char>>;

/// What `url::Url::set_path(path)` makes of the URL that `u` parses to, as its
/// serialization, or the text of the error of parsing `u`.
pub uninterp spec fn spec_url_set_path(u: Seq<char>, path: Seq<char>) -> Result<Seq<char>, Seq<char>>;

/// What `url::Url::join(path)` gives on the URL that `base` parses to, as a
/// serialization, or the text of the error of parsing `base` or of joining.
pub uninterp spec fn spec_url_join(base: Seq<char>, path: Seq<char>) -> Result<Seq<char>, Seq<char>>;

/// Whether `url::Url::origin` is equal for the URLs that `a` and `b` parse
/// to, or the text of the error of parsing one of them.
pub uninterp spec fn spec_url_same_origin(a: Seq<char>, b: Seq<char>) -> Result<bool, Seq<char>>;

/// The plain view of a result of text.
pub open spec fn text_result(r: Result<String, String>) -> Result<Seq<char>, Seq<char>> {
    match r {
        Ok(v) => Ok(v@),
        Err(e) => Err(e@),
    }
}

/// Calls `url::Url::parse` and keeps the URL's serialization, or the
/// `Display` text of the error. Claimed: the outcome is a function of `s`.
#[verifier::external_body]
fn url_parse(s: &str) -> (r: Result<String, String>)
    ensures
        text_result(r) == spec_url_parse(s@),
{
    match url::Url::parse(s) {
        Ok(u) => Ok(u.as_str().to_string()),
        Err(e) => Err(e.to_string()),
    }
}

/// Parses `u` with `url::Url::parse` and calls `Url::set_query(None)` on it,
/// keeping the serialization. Claimed: the outcome is a function of `u`.
#[verifier::external_body]
fn url_clear_query(u: &str) -> (r: Result<String, String>)
    ensures
        text_result(r) == spec_url_clear_query(u@),
{
    match url::Url::parse(u) {
        Ok(mut url) => {
            url.set_query(None);
            Ok(url.as_str().to_string())
        },
        Err(e) => Err(e.to_string()),
    }
}

/// Parses `u` with `url::Url::parse` and calls `Url::set_fragment(None)` on
/// it, keeping the serialization. Claimed: the outcome is a function of `u`.
#[verifier::external_body]
fn url_clear_fragment(u: &str) -> (r: Result<String, String>)
    ensures
        text_result(r) == spec_url_clear_fragment(u@),
{
    match url::Url::parse(u) {
        Ok(mut url) => {
            url.set_fragment(None);
            Ok(url.as_str().to_string())
        },
        Err(e) => Err(e.to_string()),
    }
}

/// Parses `u` with `url::Url::parse` and calls `Url::path` on it. Claimed:
/// the outcome is a function of `u`.
#[verifier::external_body]
fn url_path(u: &str) -> (r: Result<String, String>)
    ensures
        text_result(r) == spec_url_path(u@),
{
    match url::Url::parse(u) {
        Ok(url) => Ok(url.path().to_string()),
        Err(e) => Err(e.to_string()),
    }
}

/// Parses `u` with `url::Url::parse` and calls `Url::set_path(path)` on it,
/// keeping the serialization. Claimed: the outcome is a function of `u` and
/// `path`.
#[verifier::external_body]
fn url_set_path(u: &str, path: &str) -> (r: Result<String, String>)
    ensures
        text_result(r) == spec_url_set_path(u@, path@),
{
    match url::Url::parse(u) {
        Ok(mut url) => {
            url.set_path(path);
            Ok(url.as_str().to_string())
        },
        Err(e) => Err(e.to_string()),
    }
}

/// Parses `base` with `url::Url::parse` and calls `Url::join(path)` on it,
/// keeping the serialization of the joined URL, or the text of either error.
/// Claimed: the outcome is a function of `base` and `path`.
#[verifier::external_body]
fn url_join(base: &str, path: &str) -> (r: Result<String, String>)
    ensures
        text_result(r) == spec_url_join(base@, path@),
{
    match url::Url::parse(base) {
        Ok(url) => match url.join(path) {
            Ok(joined) => Ok(joined.as_str().to_string()),
            Err(e) => Err(e.to_string()),
        },
        Err(e) => Err(e.to_string()),
    }
}

/// Parses `a` and `b` with `url::Url::parse` and compares their
/// `Url::origin`s. Claimed: the outcome is a function of `a` and `b`.
#[verifier::external_body]
fn url_same_origin(a: &str, b: &str) -> (r: Result<bool, String>)
    ensures
        match r {
            Ok(same) => spec_url_same_origin(a@, b@) == Ok::<bool, Seq<char>>(same),
            Err(e) => spec_url_same_origin(a@, b@) == Err::<bool, Seq<char>>(e@),
        },
{
    match (url::Url::parse(a), url::Url::parse(b)) {
        (Ok(x), Ok(y)) => Ok(x.origin() == y.origin()),
        (Err(e), _) => Err(e.to_string()),
        (_, Err(e)) => Err(e.to_string()),
    }
}

/// The path that a base URI is given so that relative paths join below it:
/// its path with a `/` appended, or nothing when it already ends with one.
pub fn base_path_fix(path: &str) -> (r: Option<String>)
    ensures
        has_suffix(path@, "/"@) ==> r is None,
        !has_suffix(path@, "/"@) ==> (r matches Some(p) && p@ == path@ + "/"@),
{
    if ends_with(path, "/") {
        None
    } else {
        Some(concat2(path, "/"))
    }
}

/// The base URI that a raw URI credential gives: parsed, without query and
/// fragment, and with a path that ends with `/`; or the text of the error.
pub open spec fn normalized_base(raw: Seq<char>) -> Result<Seq<char>, Seq<char>> {
    match spec_url_parse(raw) {
        Err(e) => Err(e),
        Ok(parsed) => match spec_url_clear_query(parsed) {
            Err(e) => Err(e),
            Ok(no_query) => match spec_url_clear_fragment(no_query) {
                Err(e) => Err(e),
                Ok(bare) => match spec_url_path(bare) {
                    Err(e) => Err(e),
                    Ok(path) => if has_suffix(path, "/"@) {
                        Ok(bare)
                    } else {
                        spec_url_set_path(bare, path + "/"@)
                    },
                },
            },
        },
    }
}

/// How `reqwest` takes a PEM CA certificate: `Ok`, or the step that refused
/// it with the `Display` text of its error; the flag is `true` when
/// `Certificate::from_pem` refused it and `false` when `ClientBuilder::build`
/// did, with the certificate added as a root.
pub uninterp spec fn spec_ca_check(pem: Seq<char>) -> Result<(), (bool, Seq<char>)>;

/// Calls `reqwest::tls::Certificate::from_pem` on `pem`, adds the certificate
/// with `ClientBuilder::add_root_certificate` to a new builder and calls
/// `ClientBuilder::build`, keeping the step that failed and its error text.
/// Claimed: the outcome is a function of `pem`.
#[verifier::external_body]
fn ca_check(pem: &str) -> (r: Result<(), (bool, String)>)
    ensures
        match r {
            Ok(()) => spec_ca_check(pem@) == Ok::<(), (bool, Seq<char>)>(()),
            Err((at_parse, e)) => spec_ca_check(pem@) == Err::<(), (bool, Seq<char>)>((at_parse, e@)),
        },
{
    let cert = match reqwest::tls::Certificate::from_pem(pem.as_bytes()) {
        Ok(c) => c,
        Err(e) => return Err((true, e.to_string())),
    };
    match reqwest::Client::builder().add_root_certificate(cert).build() {
        Ok(_) => Ok(()),
        Err(e) => Err((false, e.to_string())),
    }
}

/// The failure text for a CA certificate that `reqwest` refuses, at the step
/// that refused it.
pub open spec fn ca_error_message(at_parse: bool, e: Seq<char>) -> Seq<char> {
    if at_parse {
        "Invalid CA certificate: "@ + e
    } else {
        "Failed to build HTTP client: "@ + e
    }
}

/// The settings of an HTTP client for a URI connection: the normalized base
/// URI (its serialization, which `url` parses back to the same URL), the
/// authentication, and the optional PEM CA certificate, which `reqwest`
/// accepted.
pub struct UriClientSettings {
    pub base_url: String,
    pub auth: UriAuth,
    pub ca_cert: Option<String>,
}

/// `s` holds the base URI `base` and the authentication and CA certificate
/// that the credentials give.
pub open spec fn settings_read(s: UriClientSettings, base: Seq<char>, credentials: Credentials) -> bool {
    &&& s.base_url@ == base
    &&& auth_matches(
        s.auth,
        credentials.value(KEY_TOKEN@),
        credentials.value(KEY_USERNAME@),
        credentials.value(KEY_PASSWORD@),
    )
    &&& opt_view(s.ca_cert) == credentials.value(KEY_CA_CERT@)
}

/// Normalizes a raw base URI: parses it, drops its query and fragment, and
/// makes its path end with `/`.
fn normalize_base(raw: &str) -> (r: Result<String, String>)
    ensures
        text_result(r) == normalized_base(raw@),
{
    let parsed = url_parse(raw)?;
    let no_query = url_clear_query(parsed.as_str())?;
    let bare = url_clear_fragment(no_query.as_str())?;
    let path = url_path(bare.as_str())?;
    match base_path_fix(path.as_str()) {
        Some(fixed) => url_set_path(bare.as_str(), fixed.as_str()),
        None => Ok(bare),
    }
}

/// Reads the client settings from the credentials: the base URI is required
/// and must parse; its query and fragment are dropped and its path made to
/// end with `/`; a CA certificate, when given, must be one that `reqwest`
/// accepts.
pub fn build_client(credentials: &Credentials) -> (r: Result<UriClientSettings, ConnectorError>)
    ensures
        match credentials.value(KEY_URI@) {
            None => r matches Err(ConnectorError::ConnectionError(m)) && m@
                == "'URI' credential is required"@,
            Some(raw) => match normalized_base(raw) {
                Err(e) => r matches Err(ConnectorError::ConnectionError(m)) && m@ == "Invalid URI: "@
                    + e,
                Ok(base) => match credentials.value(KEY_CA_CERT@) {
                    Some(c) => match spec_ca_check(c) {
                        Err(f) => r matches Err(ConnectorError::ConnectionError(m)) && m@
                            == ca_error_message(f.0, f.1),
                        Ok(_) => r matches Ok(s) && settings_read(s, base, *credentials),
                    },
                    None => r matches Ok(s) && settings_read(s, base, *credentials),
                },
            },
        },
{
    proof {
        reveal_strlit("'URI' credential is required");
    }
    let raw = match credentials.get(KEY_URI) {
        Some(u) => u,
        None => {
            return Err(ConnectorError::ConnectionError(String::from_str("'URI' credential is required")));
        },
    };
    let base_url = match normalize_base(raw.as_str()) {
        Ok(u) => u,
        Err(e) => {
            return Err(ConnectorError::ConnectionError(concat2("Invalid URI: ", e.as_str())));
        },
    };
    if let Some(pem) = credentials.get(KEY_CA_CERT) {
        if let Err((at_parse, e)) = ca_check(pem.as_str()) {
            let m = if at_parse {
                concat2("Invalid CA certificate: ", e.as_str())
            } else {
                concat2("Failed to build HTTP client: ", e.as_str())
            };
            return Err(ConnectorError::ConnectionError(m));
        }
    }
    let auth = select_auth(
        credentials.get(KEY_TOKEN),
        credentials.get(KEY_USERNAME),
        credentials.get(KEY_PASSWORD),
    );
    let ca_cert = match credentials.get(KEY_CA_CERT) {
        Some(c) => Some(c.clone()),
        None => None,
    };
    Ok(UriClientSettings { base_url, auth, ca_cert })
}

/// Decides whether a joined request URL stays below the base URI: it must
/// have the base's origin and its path must begin with the base's path.
pub fn check_within_base(
    same_origin: bool,
    base_path: &str,
    joined_path: &str,
    path: &str,
) -> (r: Result<(), ConnectorError>)
    ensures
        same_origin && has_prefix(joined_path@, base_path@) ==> r is Ok,
        !(same_origin && has_prefix(joined_path@, base_path@)) ==> (r matches Err(
            ConnectorError::InvalidRequest(m),
        ) && m@ == "Path '"@ + path@ + "' must not escape the base URI"@),
{
    if !same_origin || !starts_with(joined_path, base_path) {
        return Err(
            ConnectorError::InvalidRequest(concat3("Path '", path, "' must not escape the base URI")),
        );
    }
    Ok(())
}

/// The failure text for a request path that cannot be resolved.
pub open spec fn invalid_path_message(path: Seq<char>, e: Seq<char>) -> Seq<char> {
    "Invalid path '"@ + path + "': "@ + e
}

/// The failure text for a request path that leaves the base URI.
pub open spec fn escape_message(path: Seq<char>) -> Seq<char> {
    "Path '"@ + path + "' must not escape the base URI"@
}

/// The URL `u` lies below `base`: it has the same origin, and its path
/// begins with the base's path.
pub open spec fn within_base(u: Seq<char>, base: Seq<char>) -> bool {
    &&& spec_url_same_origin(u, base) == Ok::<bool, Seq<char>>(true)
    &&& spec_url_path(u) matches Ok(joined_path)
    &&& spec_url_path(base) matches Ok(base_path)
    &&& has_prefix(joined_path, base_path)
}

/// `r` is what resolving `path` against `base` gives: the joined URL when it
/// has the base's origin and its path begins with the base's path.
pub open spec fn request_url_outcome(
    base: Seq<char>,
    path: Seq<char>,
    r: Result<String, ConnectorError>,
) -> bool {
    match spec_url_join(base, path) {
        Err(e) => r matches Err(ConnectorError::InvalidRequest(m)) && m@ == invalid_path_message(path, e),
        Ok(joined) => match spec_url_same_origin(joined, base) {
            Err(e) => r matches Err(ConnectorError::InvalidRequest(m)) && m@ == invalid_path_message(path, e),
            Ok(same) => match spec_url_path(joined) {
                Err(e) => r matches Err(ConnectorError::InvalidRequest(m)) && m@ == invalid_path_message(path, e),
                Ok(joined_path) => match spec_url_path(base) {
                    Err(e) => r matches Err(ConnectorError::InvalidRequest(m)) && m@ == invalid_path_message(path, e),
                    Ok(base_path) => if same && has_prefix(joined_path, base_path) {
                        r matches Ok(u) && u@ == joined
                    } else {
                        r matches Err(ConnectorError::InvalidRequest(m)) && m@ == escape_message(path)
                    },
                },
            },
        },
    }
}

/// Resolves a request path against the base URI, refusing a path that does
/// not parse or that escapes the base URI (another scheme, host or port, or a
/// path outside the base path).
pub fn request_url(base_url: &str, path: &str) -> (r: Result<String, ConnectorError>)
    ensures
        request_url_outcome(base_url@, path@, r),
        r matches Ok(u) ==> within_base(u@, base_url@),
{
    let url = match url_join(base_url, path) {
        Ok(u) => u,
        Err(e) => {
            let m = concat3("Invalid path '", path, "': ");
            return Err(ConnectorError::InvalidRequest(m.concat(e.as_str())));
        },
    };
    let checked = match url_same_origin(url.as_str(), base_url) {
        Ok(same) => match url_path(url.as_str()) {
            Ok(joined_path) => match url_path(base_url) {
                Ok(base_path) => Ok(check_within_base(same, base_path.as_str(), joined_path.as_str(), path)),
                Err(e) => Err(e),
            },
            Err(e) => Err(e),
        },
        Err(e) => Err(e),
    };
    match checked {
        Ok(Ok(())) => Ok(url),
        Ok(Err(e)) => Err(e),
        Err(e) => {
            let m = concat3("Invalid path '", path, "': ");
            Err(ConnectorError::InvalidRequest(m.concat(e.as_str())))
        },
    }
}

/// `a` and `b` are the same authentication.
pub open spec fn auth_same(a: UriAuth, b: UriAuth) -> bool {
    match (a, b) {
        (UriAuth::Anonymous, UriAuth::Anonymous) => true,
        (UriAuth::Token { token: x }, UriAuth::Token { token: y }) => x@ == y@,
        (UriAuth::Basic { username: u1, password: p1 }, UriAuth::Basic { username: u2, password: p2 }) => u1@
            == u2@ && p1@ == p2@,
        _ => false,
    }
}

/// A copy of an authentication.
fn copy_auth(a: &UriAuth) -> (r: UriAuth)
    ensures
        auth_same(r, *a),
{
    match a {
        UriAuth::Anonymous => UriAuth::Anonymous,
        UriAuth::Token { token } => UriAuth::Token { token: token.clone() },
        UriAuth::Basic { username, password } => UriAuth::Basic {
            username: username.clone(),
            password: password.clone(),
        },
    }
}

/// What a request of a URI connection is sent as: the URL below the base URI
/// and the authentication attached to it (a bearer token, basic credentials
/// with the password, or none).
pub struct RequestTarget {
    pub url: String,
    pub auth: UriAuth,
}

/// Resolves `path` below `base_url` as `request_url` does and attaches the
/// connection's authentication.
pub fn request_target(base_url: &str, auth: &UriAuth, path: &str) -> (r: Result<RequestTarget, ConnectorError>)
    ensures
        match r {
            Ok(t) => request_url_outcome(base_url@, path@, Ok::<String, ConnectorError>(t.url))
                && within_base(t.url@, base_url@) && auth_same(t.auth, *auth),
            Err(e) => request_url_outcome(base_url@, path@, Err::<String, ConnectorError>(e)),
        },
{
    match request_url(base_url, path) {
        Ok(url) => Ok(RequestTarget { url, auth: copy_auth(auth) }),
        Err(e) => Err(e),
    }
}

/// A request of the URI connector: the path to fetch below the base URI,
/// where the rows sit in a JSON response, and an explicit format.
#[derive(Debug, Clone)]
pub struct UriRequest {
    pub path: String,
    pub data_path: Option<String>,
    pub format: Option<String>,
}

/// The format that a `Content-Type` value announces, if it parses and is
/// recognized.
pub open spec fn content_type_format(ct: Seq<char>) -> Option<FileFormat> {
    match spec_parse_media_type(ct) {
        Ok(p) => format_for_media(p.0, p.1, p.2),
        Err(_) => None,
    }
}

/// The format that the extension of a request path announces.
pub open spec fn path_format(path: Seq<char>) -> Option<FileFormat> {
    format_for_extension(spec_to_lowercase(path_before_query(path)))
}

/// `r` is the format, or the failure, that a response is read with.
pub open spec fn response_format_outcome(
    content_type: Option<Seq<u8>>,
    request: UriRequest,
    r: Result<FileFormat, ConnectorError>,
) -> bool {
    match request.format {
        Some(f) => format_str_outcome(f@, r),
        None => {
            let fallback = match path_format(request.path@) {
                Some(f) => r == Ok::<FileFormat, ConnectorError>(f),
                None => r matches Err(ConnectorError::ConnectionError(m)) && m@ == NO_FORMAT_MESSAGE@,
            };
            match content_type {
                Some(b) => match header_text(b) {
                    None => r matches Err(ConnectorError::ConnectionError(m)) && m@
                        == BAD_CONTENT_TYPE_MESSAGE@,
                    Some(ct) => match content_type_format(ct) {
                        Some(f) => r == Ok::<FileFormat, ConnectorError>(f),
                        None => fallback,
                    },
                },
                None => fallback,
            }
        },
    }
}

/// The failure reported when no format can be determined.
pub const NO_FORMAT_MESSAGE: &'static str = "Cannot determine response format. Set 'format' in query or ensure the server returns a recognized Content-Type header.";

/// The failure reported when the `Content-Type` header is not text.
pub const BAD_CONTENT_TYPE_MESSAGE: &'static str = "Invalid HTTP Content-Type header: failed to convert header to a str";

/// Decides the format of a response: the request's explicit format wins;
/// then the `Content-Type` header when it names a known format; then the
/// extension of the request path.
pub fn detect_format(content_type: Option<&[u8]>, request: &UriRequest) -> (r: Result<
    FileFormat,
    ConnectorError,
>)
    ensures
        response_format_outcome(
            match content_type {
                Some(b) => Some(b@),
                None => None,
            },
            *request,
            r,
        ),
{
    if let Some(fmt) = &request.format {
        return FileFormat::from_format_str(fmt.as_str());
    }
    if let Some(ct) = content_type {
        match header_value_str(ct) {
            None => {
                return Err(ConnectorError::ConnectionError(String::from_str(BAD_CONTENT_TYPE_MESSAGE)));
            },
            Some(ct_str) => {
                if let Ok(format) = FileFormat::from_content_type(ct_str.as_str()) {
                    return Ok(format);
                }
            },
        }
    }
    if let Ok(format) = FileFormat::detect(request.path.as_str(), None) {
        return Ok(format);
    }
    Err(ConnectorError::ConnectionError(String::from_str(NO_FORMAT_MESSAGE)))
}

/// The failure reported for a response larger than the limit.
pub open spec fn too_large_message(len: nat) -> Seq<char> {
    "Response too large ("@ + decimal(len) + " bytes, limit 134217728)"@
}

/// Refuses a response whose length, announced or read, exceeds the limit.
pub fn check_response_size(len: u64) -> (r: Result<(), ConnectorError>)
    ensures
        len <= MAX_RESPONSE_BYTES ==> r is Ok,
        len > MAX_RESPONSE_BYTES ==> (r matches Err(ConnectorError::ConnectionError(m)) && m@
            == too_large_message(len as nat)),
{
    if len > MAX_RESPONSE_BYTES {
        let n = decimal_string(len);
        return Err(
            ConnectorError::ConnectionError(
                concat3("Response too large (", n.as_str(), " bytes, limit 134217728)"),
            ),
        );
    }
    Ok(())
}

/// What an HTTP status means for reading an object.
#[derive(Debug, Clone, Copy, PartialEq, Eq, Structural)]
pub enum ReadStatus {
    /// A success status (2xx).
    Readable,
    /// 404: the object does not exist.
    Missing,
    /// Any other status.
    Failed,
}

/// Classifies the status of a response to a read.
pub fn classify_read_status(status: u16) -> (r: ReadStatus)
    ensures
        status == 404 ==> r == ReadStatus::Missing,
        status != 404 && 200 <= status <= 299 ==> r == ReadStatus::Readable,
        status != 404 && !(200 <= status <= 299) ==> r == ReadStatus::Failed,
{
    if status == 404 {
        ReadStatus::Missing
    } else if 200 <= status && status <= 299 {
        ReadStatus::Readable
    } else {
        ReadStatus::Failed
    }
}

/// Whether a connection check's status means that the credentials were
/// refused (401 or 403).
pub fn is_auth_failure(status: u16) -> (b: bool)
    ensures
        b == (status == 401 || status == 403),
{
    status == 401 || status == 403
}

} // verus!
