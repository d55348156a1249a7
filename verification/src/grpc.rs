use vstd::prelude::*;
use vstd::string::*;

use crate::header::{header_text, header_value_str, opt_view};
use crate::text::{
    chars_of, count_leading, find_last, has_prefix, last_index_of, leading_run, starts_with,
};

verus! {

/// A gRPC path without its leading slashes.
pub open spec fn grpc_trimmed(path: Seq<char>) -> Seq<char> {
    path.skip(leading_run(path, '/'))
}

/// The service and method halves of a gRPC path `/package.Service/Method`:
/// split at the last slash after the leading ones are removed; with no such
/// slash the whole rest is the service and the method is empty.
pub open spec fn grpc_halves(path: Seq<char>) -> (Seq<char>, Seq<char>) {
    let t = grpc_trimmed(path);
    let k = last_index_of(t, '/');
    if k >= 0 {
        (t.take(k), t.skip(k + 1))
    } else {
        (t, Seq::empty())
    }
}

/// Splits a gRPC request path into its service and method halves.
pub fn split_grpc_path(path: &str) -> (r: (&str, &str))
    ensures
        (r.0@, r.1@) == grpc_halves(path@),
{
    let chars = chars_of(path);
    let lead = count_leading(&chars, '/');
    let trimmed = path.substring_char(lead, chars.len());
    let tchars = chars_of(trimmed);
    match find_last(&tchars, '/') {
        Some(k) => (trimmed.substring_char(0, k), trimmed.substring_char(k + 1, tchars.len())),
        None => {
            let empty = trimmed.substring_char(tchars.len(), tchars.len());
            assert(empty@ =~= Seq::<char>::empty());
            (trimmed, empty)
        },
    }
}

/// The fields of the server span that every gRPC call records: its name,
/// the path without its leading slashes, and the service and method halves
/// of the path.
pub struct GrpcSpanFields {
    pub name: String,
    pub service: String,
    pub method: String,
}

/// The span fields of a call to `path`. Every call is traced, whatever its
/// path (health checks included): the fields exist for every path.
pub fn grpc_span_fields(path: &str) -> (r: GrpcSpanFields)
    ensures
        r.name@ == grpc_trimmed(path@),
        (r.service@, r.method@) == grpc_halves(path@),
{
    let chars = chars_of(path);
    let lead = count_leading(&chars, '/');
    let name = path.substring_char(lead, chars.len());
    let (service, method) = split_grpc_path(path);
    GrpcSpanFields {
        name: String::from_str(name),
        service: String::from_str(service),
        method: String::from_str(method),
    }
}

/// `c` is an ASCII decimal digit.
pub open spec fn is_digit(c: char) -> bool {
    '0' <= c <= '9'
}

/// The value of a string of decimal digits.
pub open spec fn digits_value(d: Seq<char>) -> int
    decreases d.len(),
{
    if d.len() == 0 {
        0
    } else {
        digits_value(d.drop_last()) * 10 + (d.last() as int - '0' as int)
    }
}

/// The sign and digits of an integer literal: an optional `+` or `-`
/// followed by the rest.
pub open spec fn sign_and_digits(s: Seq<char>) -> (bool, Seq<char>) {
    if s.len() > 0 && s[0] == '-' {
        (true, s.drop_first())
    } else if s.len() > 0 && s[0] == '+' {
        (false, s.drop_first())
    } else {
        (false, s)
    }
}

/// What `i32::from_str` accepts: an optional sign, then one or more ASCII
/// digits, whose value fits in an `i32`.
pub open spec fn parse_i32_spec(s: Seq<char>) -> Option<i32> {
    let neg = sign_and_digits(s).0;
    let d = sign_and_digits(s).1;
    if d.len() > 0 && (forall|i: int| 0 <= i < d.len() ==> is_digit(#[trigger] d[i])) {
        let v = if neg {
            -digits_value(d)
        } else {
            digits_value(d)
        };
        if i32::MIN <= v <= i32::MAX {
            Some(v as i32)
        } else {
            None
        }
    } else {
        None
    }
}

proof fn lemma_digits_value_step(d: Seq<char>, k: int)
    requires
        0 <= k < d.len(),
    ensures
        digits_value(d.take(k + 1)) == digits_value(d.take(k)) * 10 + (d[k] as int - '0' as int),
{
    assert(d.take(k + 1).drop_last() =~= d.take(k));
}

proof fn lemma_digits_value_grows(d: Seq<char>, k: int)
    requires
        0 <= k <= d.len(),
        forall|i: int| 0 <= i < d.len() ==> is_digit(#[trigger] d[i]),
    ensures
        digits_value(d) >= digits_value(d.take(k)),
        digits_value(d.take(k)) >= 0,
    decreases d.len() - k,
{
    if k < d.len() {
        lemma_digits_value_grows(d, k + 1);
        lemma_digits_value_step(d, k);
        assert(is_digit(d[k]));
    } else {
        assert(d.take(k) =~= d);
        lemma_digits_nonneg(d);
    }
}

proof fn lemma_digits_nonneg(d: Seq<char>)
    requires
        forall|i: int| 0 <= i < d.len() ==> is_digit(#[trigger] d[i]),
    ensures
        digits_value(d) >= 0,
    decreases d.len(),
{
    if d.len() > 0 {
        let p = d.drop_last();
        assert forall|i: int| 0 <= i < p.len() implies is_digit(#[trigger] p[i]) by {
            assert(p[i] == d[i]);
        }
        lemma_digits_nonneg(p);
        assert(is_digit(d[d.len() - 1]));
    }
}

/// Parses a decimal `i32` as `i32::from_str` does.
pub fn parse_i32(s: &str) -> (r: Option<i32>)
    ensures
        r == parse_i32_spec(s@),
{
    let v = chars_of(s);
    let n = v.len();
    let mut start: usize = 0;
    let mut neg = false;
    if n > 0 && v[0] == '-' {
        neg = true;
        start = 1;
    } else if n > 0 && v[0] == '+' {
        start = 1;
    }
    let ghost d = sign_and_digits(s@).1;
    assert(d =~= s@.skip(start as int));
    if start >= n {
        return None;
    }
    let mut acc: i64 = 0;
    let mut i: usize = start;
    while i < n
        invariant
            v@ == s@,
            n == v@.len(),
            start <= i <= n,
            d == s@.skip(start as int),
            d == sign_and_digits(s@).1,
            neg == sign_and_digits(s@).0,
            0 <= acc <= 0x8000_0000,
            acc == digits_value(d.take(i - start)),
            forall|j: int| 0 <= j < i - start ==> is_digit(#[trigger] d[j]),
        decreases n - i,
    {
        let c = v[i];
        if !('0' <= c && c <= '9') {
            assert(!is_digit(d[i - start]));
            assert(!(forall|j: int| 0 <= j < d.len() ==> is_digit(#[trigger] d[j])));
            return None;
        }
        proof {
            lemma_digits_value_step(d, i - start);
        }
        let digit = (c as u32 - '0' as u32) as i64;
        acc = acc * 10 + digit;
        i = i + 1;
        if acc > 0x8000_0000 {
            proof {
                if forall|j: int| 0 <= j < d.len() ==> is_digit(#[trigger] d[j]) {
                    lemma_digits_value_grows(d, i - start);
                    assert(digits_value(d) > i32::MAX);
                    assert(-digits_value(d) < i32::MIN);
                }
            }
            return None;
        }
    }
    assert(d.take(n - start) =~= d);
    if neg {
        Some((0 - acc) as i32)
    } else if acc <= 0x7fff_ffff {
        Some(acc as i32)
    } else {
        None
    }
}

/// The code that a `grpc-status` header carries, if it is text holding a
/// decimal `i32`.
pub open spec fn status_code_of(grpc_status: Option<Seq<u8>>) -> Option<i32> {
    match grpc_status {
        Some(b) => match header_text(b) {
            Some(t) => parse_i32_spec(t),
            None => None,
        },
        None => None,
    }
}

/// How a traced gRPC call ends: the status code to record on its span, and
/// whether the span is marked as failed.
#[derive(Debug, Clone, Copy, PartialEq, Eq, Structural)]
pub struct CallOutcome {
    pub status_code: Option<i32>,
    pub error: bool,
}

/// The outcome of a call: a failed call is an error without a code; a
/// successful one records the code of its `grpc-status` header, if any, and
/// is an error when that code is not 0.
pub open spec fn call_outcome_spec(call_succeeded: bool, grpc_status: Option<Seq<u8>>) -> CallOutcome {
    if !call_succeeded {
        CallOutcome { status_code: None, error: true }
    } else {
        let code = status_code_of(grpc_status);
        CallOutcome {
            status_code: code,
            error: match code {
                Some(c) => c != 0,
                None => false,
            },
        }
    }
}

/// Decides what the span of a call records once the inner service answers:
/// a failed call is an error; a response with a numeric `grpc-status`
/// header (a trailers-only response) records that code, and any code but 0
/// is an error.
pub fn grpc_call_outcome(call_succeeded: bool, grpc_status: Option<&[u8]>) -> (r: CallOutcome)
    ensures
        r == call_outcome_spec(
            call_succeeded,
            match grpc_status {
                Some(b) => Some(b@),
                None => None,
            },
        ),
{
    if !call_succeeded {
        return CallOutcome { status_code: None, error: true };
    }
    let code = match grpc_status {
        Some(b) => match header_value_str(b) {
            Some(t) => parse_i32(t.as_str()),
            None => None,
        },
        None => None,
    };
    let error = match code {
        Some(c) => c != 0,
        None => false,
    };
    CallOutcome { status_code: code, error }
}

/// Records a server span for every gRPC call, parented to the caller's trace
/// when the request carries a `traceparent` header.
#[derive(Clone)]
pub struct TraceLayer;

impl TraceLayer {
    pub fn new() -> (r: TraceLayer) {
        TraceLayer
    }

    /// Wraps `inner` in the tracing middleware.
    pub fn layer<S>(&self, inner: S) -> (r: TraceMiddleware<S>)
        ensures
            r.inner == inner,
    {
        TraceMiddleware { inner }
    }
}

impl Default for TraceLayer {
    fn default() -> (r: TraceLayer) {
        TraceLayer
    }
}

/// The service that the tracing layer puts around an inner gRPC service.
#[derive(Clone)]
pub struct TraceMiddleware<S> {
    pub inner: S,
}

/// What a polled response stream yielded.
#[derive(Debug, Clone, Copy, PartialEq, Eq, Structural)]
pub enum StreamPoll {
    /// A batch was delivered.
    Batch,
    /// The stream failed.
    Failed,
    /// The stream ended.
    Ended,
    /// Nothing is ready yet.
    Pending,
}

/// What the stream's span records after a poll.
#[derive(Debug, Clone, Copy, PartialEq, Eq, Structural)]
pub enum StreamRecord {
    /// Nothing is recorded.
    Nothing,
    /// The span is marked as failed, with the number of batches delivered.
    Failure { batch_count: u64 },
    /// The span records the number of batches delivered.
    Completion { batch_count: u64 },
}

/// The number of delivered batches after `poll`, when `batches` were
/// delivered before it: only a delivered batch counts.
pub open spec fn tally_step(batches: int, poll: StreamPoll) -> int {
    if poll == StreamPoll::Batch {
        batches + 1
    } else {
        batches
    }
}

/// What the span records after `poll` when `batches` batches were delivered
/// before it.
pub open spec fn record_for(poll: StreamPoll, batches: u64) -> StreamRecord {
    match poll {
        StreamPoll::Failed => StreamRecord::Failure { batch_count: batches },
        StreamPoll::Ended => StreamRecord::Completion { batch_count: batches },
        _ => StreamRecord::Nothing,
    }
}

/// The count of batches that a traced response stream has delivered.
#[derive(Debug, Clone, Copy, PartialEq, Eq, Structural)]
pub struct StreamTally {
    pub batches: u64,
}

impl StreamTally {
    /// A stream that has delivered nothing yet.
    pub fn new() -> (r: StreamTally)
        ensures
            r.batches == 0,
    {
        StreamTally { batches: 0 }
    }

    /// Takes note of one poll of the stream and says what its span records:
    /// a delivered batch is counted, a failure or the end records the count
    /// (a failed batch is not counted), and a pending poll changes nothing.
    pub fn observe(&mut self, poll: StreamPoll) -> (r: StreamRecord)
        requires
            poll == StreamPoll::Batch ==> old(self).batches < u64::MAX,
        ensures
            final(self).batches == tally_step(old(self).batches as int, poll),
            r == record_for(poll, old(self).batches),
    {
        match poll {
            StreamPoll::Batch => {
                self.batches = self.batches + 1;
                StreamRecord::Nothing
            },
            StreamPoll::Failed => StreamRecord::Failure { batch_count: self.batches },
            StreamPoll::Ended => StreamRecord::Completion { batch_count: self.batches },
            StreamPoll::Pending => StreamRecord::Nothing,
        }
    }
}

} // verus!
