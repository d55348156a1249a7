use vstd::prelude::*;
use vstd::arithmetic::div_mod::{lemma_fundamental_div_mod, lemma_mod_bound};
use vstd::arithmetic::mul::lemma_mul_inequality;

use crate::format::{format_for_extension, format_for_media, format_for_name, path_before_query, FileFormat};
use crate::grpc::{grpc_halves, grpc_trimmed, tally_step, StreamPoll};
use crate::json::{
    chunk, merge_member, merge_members, merge_row, resolve_segments, resolved, schema_map, split_dots,
    inferred_type, DataTypeView, JsonValue,
};
use crate::text::{
    first_index_of, has_prefix, is_first_index_of, is_last_index_of, last_index_of,
    lemma_first_index_of, lemma_first_index_of_exists, lemma_last_index_of_exists, lemma_leading_run_exists,
    ascii_lower, ascii_lower_char, ascii_lowered, eq_ignore_ascii_case_spec, is_ascii_text,
};
use crate::trace_config::resolved_endpoint;
use crate::json::{cell_i64, cell_bool, cell_number, column_for, utc_millis, spec_rfc3339_millis, Column, JsonNumber};
use crate::uri::{request_url_outcome, within_base, spec_url_join, spec_url_same_origin, spec_url_path, escape_message};
use crate::error::ConnectorError;
use crate::sample::{decode_step, is_last_newline, whole_records, DecodeAction, DecodeEvent, DecodePhase};
use crate::grpc::{call_outcome_spec, record_for, status_code_of, StreamRecord};
use crate::rest::is_known_method;
use crate::uri::{auth_matches, content_type_format, path_format, response_format_outcome, UriAuth, UriRequest};
use crate::format::format_str_outcome;
use crate::text::{has_suffix, is_white_space, trim_end_spec, trim_start_spec, trimmed};
use crate::trace_config::{cleaned, insecure_flag};
use crate::json::{cell_timestamp, cell_text};
use crate::header::header_text;
use crate::grpc::{digits_value, is_digit, parse_i32_spec};

verus! {

/// Format detection by extension ignores the query string: the part of
/// `path ? query` before the query is `path`.
pub proof fn law_detect_ignores_query(path: Seq<char>, query: Seq<char>)
    requires
        !path.contains('?'),
    ensures
        path_before_query(path + seq!['?'] + query) == path,
{
    let s = path + seq!['?'] + query;
    assert(is_first_index_of(s, '?', path.len() as int)) by {
        assert forall|i: int| 0 <= i < path.len() implies s[i] != '?' by {
            assert(s[i] == path[i]);
        }
    }
    lemma_first_index_of(s, '?', path.len() as int);
    assert(s.take(path.len() as int) =~= path);
}

/// A structured `+json` suffix selects JSON whatever the type and subtype.
pub proof fn law_json_suffix_selects_json(type_: Seq<char>, subtype: Seq<char>)
    ensures
        format_for_media(type_, subtype, Some("json"@)) == Some(FileFormat::Json),
{
}

/// An insecure exporter is never contacted over `https://`, and a secure
/// one keeps its endpoint.
pub proof fn law_insecure_endpoint_is_plaintext(endpoint: Seq<char>)
    ensures
        !has_prefix(resolved_endpoint(endpoint, true), "https://"@),
        resolved_endpoint(endpoint, false) == endpoint,
{
    reveal_strlit("https://");
    reveal_strlit("http://");
    let r = resolved_endpoint(endpoint, true);
    if has_prefix(endpoint, "https://"@) {
        assert(r[4] == ':');
        if r.len() >= 8 {
            assert(r.take(8)[4] == ':');
            assert("https://"@[4] == 's');
        }
    }
}

/// The service and method halves of a gRPC path joined by a slash give back
/// the path without its leading slashes; a path without an inner slash is
/// all service.
pub proof fn law_grpc_halves_rejoin(path: Seq<char>)
    ensures
        grpc_trimmed(path).contains('/') ==> grpc_halves(path).0 + seq!['/'] + grpc_halves(path).1
            == grpc_trimmed(path),
        !grpc_trimmed(path).contains('/') ==> grpc_halves(path) == (
            grpc_trimmed(path),
            Seq::<char>::empty(),
        ),
{
    lemma_leading_run_exists(path, '/');
    let t = grpc_trimmed(path);
    lemma_last_index_of_exists(t, '/');
    let k = last_index_of(t, '/');
    if t.contains('/') {
        let j = choose|j: int| 0 <= j < t.len() && t[j] == '/';
        assert(k >= 0) by {
            if k < 0 {
                assert(t[j] != '/');
            }
        }
        assert(t.take(k) + seq!['/'] + t.skip(k + 1) =~= t);
    } else {
        if k >= 0 {
            assert(t.contains('/'));
        }
    }
}

/// Once a column is text, further values keep it text.
pub proof fn law_text_column_stays_text(
    m: Map<Seq<char>, DataTypeView>,
    key: Seq<char>,
    value: JsonValue,
)
    requires
        m.contains_key(key),
        m[key] == DataTypeView::Utf8,
    ensures
        merge_member(m, key, value)[key] == DataTypeView::Utf8,
{
}

/// A value whose type disagrees with the known type of its column turns the
/// column into text.
pub proof fn law_type_conflict_is_text(
    m: Map<Seq<char>, DataTypeView>,
    key: Seq<char>,
    value: JsonValue,
)
    requires
        m.contains_key(key),
        !(value is Null),
        inferred_type(value) != m[key],
    ensures
        merge_member(m, key, value)[key] == DataTypeView::Utf8,
{
}

proof fn lemma_split_dots_concat(p: Seq<char>, q: Seq<char>)
    ensures
        split_dots(p + seq!['.'] + q) == split_dots(p) + split_dots(q),
    decreases p.len(),
{
    let s = p + seq!['.'] + q;
    if p.contains('.') {
        let j = choose|j: int| 0 <= j < p.len() && p[j] == '.';
        lemma_first_index_of_exists(p, '.');
        let k = first_index_of(p, '.');
        assert(k < p.len()) by {
            if k >= p.len() {
                assert(p[j] != '.');
            }
        }
        lemma_first_index_of(p, '.', k);
        assert(is_first_index_of(s, '.', k)) by {
            assert forall|i: int| 0 <= i < k implies s[i] != '.' by {
                assert(s[i] == p[i]);
            }
        }
        lemma_first_index_of(s, '.', k);
        let rest = p.skip(k + 1);
        assert(s.skip(k + 1) =~= rest + seq!['.'] + q);
        assert(s.take(k) =~= p.take(k));
        lemma_split_dots_concat(rest, q);
        assert(split_dots(s) == seq![p.take(k)] + split_dots(rest + seq!['.'] + q));
        assert(split_dots(p) == seq![p.take(k)] + split_dots(rest));
        assert(split_dots(s) =~= split_dots(p) + split_dots(q));
    } else {
        assert(is_first_index_of(s, '.', p.len() as int)) by {
            assert forall|i: int| 0 <= i < p.len() implies s[i] != '.' by {
                assert(s[i] == p[i]);
            }
        }
        lemma_first_index_of(s, '.', p.len() as int);
        assert(is_first_index_of(p, '.', p.len() as int)) by {
            assert forall|i: int| 0 <= i < p.len() implies p[i] != '.' by {
                if p[i] == '.' {
                    assert(p.contains('.'));
                }
            }
        }
        lemma_first_index_of(p, '.', p.len() as int);
        assert(s.take(p.len() as int) =~= p);
        assert(s.skip(p.len() as int + 1) =~= q);
        assert(split_dots(p) == seq![p]);
        assert(split_dots(s) =~= split_dots(p) + split_dots(q));
    }
}

proof fn lemma_resolve_segments_concat(v: JsonValue, a: Seq<Seq<char>>, b: Seq<Seq<char>>)
    ensures
        resolve_segments(v, a + b) == match resolve_segments(v, a) {
            Some(w) => resolve_segments(w, b),
            None => None,
        },
    decreases a.len(),
{
    if a.len() == 0 {
        assert(a + b =~= b);
    } else {
        assert((a + b)[0] == a[0]);
        assert((a + b).drop_first() =~= a.drop_first() + b);
        match v.spec_get(a[0]) {
            Some(c) => lemma_resolve_segments_concat(c, a.drop_first(), b),
            None => {},
        }
    }
}

/// A dotted data path resolves segment group by segment group: resolving
/// `p.q` is resolving `p`, then `q` below what it reached.
pub proof fn law_data_path_composes(v: JsonValue, p: Seq<char>, q: Seq<char>)
    ensures
        resolved(v, p + seq!['.'] + q) == match resolved(v, p) {
            Some(w) => resolved(w, q),
            None => None,
        },
{
    lemma_split_dots_concat(p, q);
    lemma_resolve_segments_concat(v, split_dots(p), split_dots(q));
}

/// Reading in batches loses and reorders no row: row `j` is at position
/// `j % batch_size` of batch `j / batch_size`, and no batch holds more than
/// `batch_size` rows.
pub proof fn law_batches_partition_rows(rows: Seq<JsonValue>, batch_size: int, j: int)
    requires
        batch_size > 0,
        0 <= j < rows.len(),
    ensures
        chunk(rows, j / batch_size, batch_size).len() <= batch_size,
        chunk(rows, j / batch_size, batch_size)[j % batch_size] == rows[j],
{
    let i = j / batch_size;
    let t = j % batch_size;
    lemma_fundamental_div_mod(j, batch_size);
    lemma_mod_bound(j, batch_size);
    assert(i >= 0) by (nonlinear_arith)
        requires
            j >= 0,
            batch_size > 0,
            i == j / batch_size,
    ;
    assert((i + 1) * batch_size == i * batch_size + batch_size) by (nonlinear_arith);
    assert(i * batch_size + t == j);
}

/// The number of delivered batches in a sequence of polls.
pub open spec fn count_batches(polls: Seq<StreamPoll>) -> int
    decreases polls.len(),
{
    if polls.len() == 0 {
        0
    } else {
        count_batches(polls.drop_last()) + if polls.last() == StreamPoll::Batch {
            1int
        } else {
            0int
        }
    }
}

/// The count that a traced stream keeps after a sequence of polls, step by
/// step as `StreamTally::observe` takes note of them.
pub open spec fn tally_after(polls: Seq<StreamPoll>) -> int
    decreases polls.len(),
{
    if polls.len() == 0 {
        0
    } else {
        tally_step(tally_after(polls.drop_last()), polls.last())
    }
}

/// A traced stream counts exactly the batches it delivered: failures, the
/// end and pending polls are not counted.
pub proof fn law_stream_counts_delivered_batches(polls: Seq<StreamPoll>)
    ensures
        tally_after(polls) == count_batches(polls),
    decreases polls.len(),
{
    if polls.len() > 0 {
        law_stream_counts_delivered_batches(polls.drop_last());
    }
}

/// Format names and path extensions are matched without regard to ASCII
/// case: two ASCII texts that differ only in the case of letters lower-case
/// (as `to_lowercase` does for ASCII text) to the same text, name the same
/// format and announce the same format by extension, query string ignored.
pub proof fn law_format_matching_ignores_ascii_case(a: Seq<char>, b: Seq<char>)
    requires
        is_ascii_text(a),
        is_ascii_text(b),
        eq_ignore_ascii_case_spec(a, b),
    ensures
        ascii_lowered(a) == ascii_lowered(b),
        format_for_name(ascii_lowered(a)) == format_for_name(ascii_lowered(b)),
        path_before_query(a).len() == path_before_query(b).len(),
        ascii_lowered(path_before_query(a)) == ascii_lowered(path_before_query(b)),
        format_for_extension(ascii_lowered(path_before_query(a))) == format_for_extension(
            ascii_lowered(path_before_query(b)),
        ),
{
    assert forall|i: int| 0 <= i < a.len() implies ascii_lower_char(a[i]) == ascii_lower_char(b[i])
        && (a[i] == '?' <==> b[i] == '?') by {
        assert(ascii_lower(a[i]) == ascii_lower(b[i]));
    }
    assert(ascii_lowered(a) =~= ascii_lowered(b));
    lemma_first_index_of_exists(a, '?');
    let k = first_index_of(a, '?');
    assert(is_first_index_of(b, '?', k));
    lemma_first_index_of(b, '?', k);
    assert(ascii_lowered(path_before_query(a)) =~= ascii_lowered(path_before_query(b)));
}

/// The values of member `k` among `members`, in order.
pub open spec fn member_values(members: Seq<(String, JsonValue)>, k: Seq<char>) -> Seq<JsonValue>
    decreases members.len(),
{
    if members.len() == 0 {
        Seq::empty()
    } else {
        let before = member_values(members.drop_last(), k);
        if members.last().0@ == k {
            before.push(members.last().1)
        } else {
            before
        }
    }
}

/// The values of member `k` in a row; a row that is not an object has none.
pub open spec fn row_values(row: JsonValue, k: Seq<char>) -> Seq<JsonValue> {
    match row {
        JsonValue::Object(members) => member_values(members@, k),
        _ => Seq::empty(),
    }
}

/// The values of member `k` over all rows, in order.
pub open spec fn key_values(rows: Seq<JsonValue>, k: Seq<char>) -> Seq<JsonValue>
    decreases rows.len(),
{
    if rows.len() == 0 {
        Seq::empty()
    } else {
        key_values(rows.drop_last(), k) + row_values(rows.last(), k)
    }
}

/// The type that the values of a key agree on: the type of the first value
/// when it is not null and every non-null value has that type; text
/// otherwise.
pub open spec fn agreed_type(values: Seq<JsonValue>) -> DataTypeView {
    if values[0] is Null {
        DataTypeView::Utf8
    } else if forall|i: int|
        0 <= i < values.len() && !(#[trigger] values[i] is Null) ==> inferred_type(values[i])
            == inferred_type(values[0]) {
        inferred_type(values[0])
    } else {
        DataTypeView::Utf8
    }
}

/// The type recorded for one key, if any.
pub open spec fn key_state(m: Map<Seq<char>, DataTypeView>, k: Seq<char>) -> Option<DataTypeView> {
    if m.contains_key(k) {
        Some(m[k])
    } else {
        None
    }
}

/// The type recorded for a key after one more value of it.
pub open spec fn key_step(st: Option<DataTypeView>, v: JsonValue) -> Option<DataTypeView> {
    match st {
        None => Some(
            if v is Null {
                DataTypeView::Utf8
            } else {
                inferred_type(v)
            },
        ),
        Some(t) => if v is Null || inferred_type(v) == t {
            Some(t)
        } else {
            Some(DataTypeView::Utf8)
        },
    }
}

/// The type recorded for a key after a sequence of its values.
pub open spec fn fold_key(st: Option<DataTypeView>, values: Seq<JsonValue>) -> Option<DataTypeView>
    decreases values.len(),
{
    if values.len() == 0 {
        st
    } else {
        key_step(fold_key(st, values.drop_last()), values.last())
    }
}

proof fn lemma_members_key(m: Map<Seq<char>, DataTypeView>, members: Seq<(String, JsonValue)>, k: Seq<char>)
    ensures
        key_state(merge_members(m, members), k) == fold_key(key_state(m, k), member_values(members, k)),
    decreases members.len(),
{
    if members.len() > 0 {
        let prev = members.drop_last();
        lemma_members_key(m, prev, k);
        let before = member_values(prev, k);
        if members.last().0@ == k {
            assert(before.push(members.last().1).drop_last() =~= before);
        }
    }
}

proof fn lemma_fold_key_concat(st: Option<DataTypeView>, a: Seq<JsonValue>, b: Seq<JsonValue>)
    ensures
        fold_key(st, a + b) == fold_key(fold_key(st, a), b),
    decreases b.len(),
{
    if b.len() == 0 {
        assert(a + b =~= a);
    } else {
        lemma_fold_key_concat(st, a, b.drop_last());
        assert((a + b).drop_last() =~= a + b.drop_last());
        assert((a + b).last() == b.last());
    }
}

proof fn lemma_rows_key(rows: Seq<JsonValue>, k: Seq<char>)
    ensures
        key_state(schema_map(rows), k) == fold_key(None, key_values(rows, k)),
    decreases rows.len(),
{
    if rows.len() > 0 {
        let prev = rows.drop_last();
        lemma_rows_key(prev, k);
        lemma_fold_key_concat(None, key_values(prev, k), row_values(rows.last(), k));
        match rows.last() {
            JsonValue::Object(members) => {
                lemma_members_key(schema_map(prev), members@, k);
            },
            _ => {
                assert(key_values(prev, k) + row_values(rows.last(), k) =~= key_values(prev, k));
            },
        }
    }
}

proof fn lemma_fold_agreed(values: Seq<JsonValue>)
    ensures
        values.len() == 0 ==> fold_key(None, values) is None,
        values.len() > 0 ==> fold_key(None, values) == Some(agreed_type(values)),
    decreases values.len(),
{
    if values.len() > 0 {
        let prev = values.drop_last();
        let v = values.last();
        lemma_fold_agreed(prev);
        if prev.len() == 0 {
            if !(v is Null) {
                assert forall|i: int|
                    0 <= i < values.len() && !(#[trigger] values[i] is Null) implies inferred_type(values[i])
                    == inferred_type(values[0]) by {
                    assert(i == 0);
                }
            }
        } else {
            assert(values[0] == prev[0]);
            assert forall|i: int| 0 <= i < prev.len() implies #[trigger] prev[i] == values[i] by {}
            let all_prev = forall|i: int|
                0 <= i < prev.len() && !(#[trigger] prev[i] is Null) ==> inferred_type(prev[i])
                    == inferred_type(prev[0]);
            let all = forall|i: int|
                0 <= i < values.len() && !(#[trigger] values[i] is Null) ==> inferred_type(values[i])
                    == inferred_type(values[0]);
            if all {
                assert forall|i: int|
                    0 <= i < prev.len() && !(#[trigger] prev[i] is Null) implies inferred_type(prev[i])
                    == inferred_type(prev[0]) by {
                    assert(values[i] == prev[i]);
                }
                assert(all_prev);
                if !(v is Null) {
                    assert(values[values.len() - 1] == v);
                }
            } else {
                let j = choose|j: int|
                    0 <= j < values.len() && !(#[trigger] values[j] is Null) && inferred_type(values[j])
                        != inferred_type(values[0]);
                if j < prev.len() {
                    assert(prev[j] == values[j]);
                    assert(!all_prev);
                } else {
                    assert(values[j] == v);
                    if !(prev[0] is Null) && all_prev {
                        assert forall|i: int|
                            0 <= i < prev.len() && !(#[trigger] prev[i] is Null) implies inferred_type(prev[i])
                            == inferred_type(prev[0]) by {}
                    }
                }
            }
        }
    }
}

/// The schema types a key as its values agree: a key is listed exactly when
/// some object row has it, and its type is the type of its first value when
/// that value is not null and every non-null value of it has that type;
/// otherwise the key is text.
pub proof fn law_schema_type_is_agreed_type(rows: Seq<JsonValue>, k: Seq<char>)
    ensures
        schema_map(rows).contains_key(k) <==> key_values(rows, k).len() > 0,
        schema_map(rows).contains_key(k) ==> schema_map(rows)[k] == agreed_type(key_values(rows, k)),
{
    lemma_rows_key(rows, k);
    lemma_fold_agreed(key_values(rows, k));
}

/// Every JSON integer that fits in an `i64`, whatever its sign, is inferred
/// as a 64-bit integer; a non-negative integer beyond `i64` is text; a float
/// is a 64-bit float; a boolean is boolean; null, arrays and objects are
/// text.
pub proof fn law_inferred_types_of_values(n: i64, u: u64, bits: u64, b: bool, items: Vec<JsonValue>, members: Vec<(String, JsonValue)>)
    ensures
        inferred_type(JsonValue::Number(JsonNumber::NegInt(n))) == DataTypeView::Int64,
        u <= i64::MAX ==> inferred_type(JsonValue::Number(JsonNumber::PosInt(u))) == DataTypeView::Int64,
        u > i64::MAX ==> inferred_type(JsonValue::Number(JsonNumber::PosInt(u))) == DataTypeView::Utf8,
        inferred_type(JsonValue::Number(JsonNumber::Float(bits))) == DataTypeView::Float64,
        inferred_type(JsonValue::Bool(b)) == DataTypeView::Boolean,
        inferred_type(JsonValue::Null) == DataTypeView::Utf8,
        inferred_type(JsonValue::Array(items)) == DataTypeView::Utf8,
        inferred_type(JsonValue::Object(members)) == DataTypeView::Utf8,
{
}

/// A string is a UTC millisecond timestamp exactly when it reads as RFC 3339,
/// and text otherwise.
pub proof fn law_inferred_type_of_strings(s: String)
    ensures
        spec_rfc3339_millis(s@) is Some ==> inferred_type(JsonValue::String(s)) == utc_millis(),
        spec_rfc3339_millis(s@) is None ==> inferred_type(JsonValue::String(s)) == DataTypeView::Utf8,
{
}

/// A JSON integer is read as itself, whatever its sign, when it fits in an
/// `i64`: in an `Int64` column its cell is that integer; a larger integer, a
/// float, a string or a missing value gives a null cell. A boolean column
/// reads booleans as themselves and nulls everything else.
pub proof fn law_integer_cells_read_as_themselves(
    cells: Seq<Option<JsonValue>>,
    c: Column,
    i: int,
    n: i64,
    u: u64,
    b: bool,
)
    requires
        column_for(DataTypeView::Int64, cells, c),
        0 <= i < cells.len(),
    ensures
        cell_i64(Some(JsonValue::Number(JsonNumber::NegInt(n)))) == Some(n),
        u <= i64::MAX ==> cell_i64(Some(JsonValue::Number(JsonNumber::PosInt(u)))) == Some(u as i64),
        u > i64::MAX ==> cell_i64(Some(JsonValue::Number(JsonNumber::PosInt(u)))) is None,
        cell_i64(None) is None,
        c matches Column::Int64(xs) && xs@.len() == cells.len(),
        cells[i] == Some(JsonValue::Number(JsonNumber::NegInt(n))) ==> (c matches Column::Int64(xs) && xs@[i]
            == Some(n)),
        cells[i] == Some(JsonValue::Number(JsonNumber::PosInt(u))) && u <= i64::MAX ==> (c matches Column::Int64(
            xs,
        ) && xs@[i] == Some(u as i64)),
        cells[i] is None ==> (c matches Column::Int64(xs) && xs@[i] is None),
        cell_bool(Some(JsonValue::Bool(b))) == Some(b),
        cell_number(Some(JsonValue::Number(JsonNumber::NegInt(n)))) == Some(JsonNumber::NegInt(n)),
{
}

/// A request path is refused only when the joined URL leaves the base:
/// whenever joining `path` to `base` gives a URL with the base's origin whose
/// path begins with the base's path, that URL is the answer, whatever the
/// characters of `path`; and every answer is such a URL.
pub proof fn law_request_url_accepts_every_path_below_base(
    base: Seq<char>,
    path: Seq<char>,
    joined: Seq<char>,
    r: Result<String, ConnectorError>,
)
    requires
        request_url_outcome(base, path, r),
    ensures
        spec_url_join(base, path) == Ok::<Seq<char>, Seq<char>>(joined) && within_base(joined, base) ==> (
        r matches Ok(u) && u@ == joined),
        r matches Ok(u) ==> spec_url_join(base, path) == Ok::<Seq<char>, Seq<char>>(u@) && within_base(u@, base),
        spec_url_join(base, path) == Ok::<Seq<char>, Seq<char>>(joined) && spec_url_same_origin(joined, base)
            == Ok::<bool, Seq<char>>(false) && spec_url_path(joined) is Ok && spec_url_path(base) is Ok ==> (
        r matches Err(ConnectorError::InvalidRequest(m)) && m@ == escape_message(path)),
{
}

/// The media types of each format: any type with the structured suffix
/// `+json` is JSON; `text/csv` is CSV; `application/json` is JSON; the five
/// JSON Lines subtypes of `application` are JSON Lines; the two Parquet
/// subtypes of `application` are Parquet; `application/octet-stream` and
/// `text/plain` are none.
pub proof fn law_media_types_of_formats(t: Seq<char>, s: Seq<char>)
    ensures
        format_for_media(t, s, Some("json"@)) == Some(FileFormat::Json),
        format_for_media("text"@, "csv"@, None) == Some(FileFormat::Csv),
        format_for_media("application"@, "json"@, None) == Some(FileFormat::Json),
        format_for_media("application"@, "x-ndjson"@, None) == Some(FileFormat::JsonLines),
        format_for_media("application"@, "ndjson"@, None) == Some(FileFormat::JsonLines),
        format_for_media("application"@, "jsonl"@, None) == Some(FileFormat::JsonLines),
        format_for_media("application"@, "jsonlines"@, None) == Some(FileFormat::JsonLines),
        format_for_media("application"@, "x-jsonlines"@, None) == Some(FileFormat::JsonLines),
        format_for_media("application"@, "vnd.apache.parquet"@, None) == Some(FileFormat::Parquet),
        format_for_media("application"@, "x-parquet"@, None) == Some(FileFormat::Parquet),
        format_for_media("application"@, "octet-stream"@, None) is None,
        format_for_media("text"@, "plain"@, None) is None,
{
    reveal_strlit("json");
    reveal_strlit("text");
    reveal_strlit("csv");
    reveal_strlit("application");
    reveal_strlit("x-ndjson");
    reveal_strlit("ndjson");
    reveal_strlit("jsonl");
    reveal_strlit("jsonlines");
    reveal_strlit("x-jsonlines");
    reveal_strlit("vnd.apache.parquet");
    reveal_strlit("x-parquet");
    reveal_strlit("octet-stream");
    reveal_strlit("plain");
    assert("text"@.len() == 4 && "application"@.len() == 11 && "csv"@.len() == 3 && "json"@.len() == 4);
    assert("x-ndjson"@.len() == 8 && "ndjson"@.len() == 6 && "jsonl"@.len() == 5 && "jsonlines"@.len() == 9);
    assert("x-jsonlines"@.len() == 11 && "vnd.apache.parquet"@.len() == 18 && "x-parquet"@.len() == 9);
    assert("octet-stream"@.len() == 12 && "plain"@.len() == 5);
    assert("x-parquet"@[0] != "jsonlines"@[0]);
    assert("plain"@[0] != "jsonl"@[0]);
    assert("json"@[0] != "text"@[0]);
}

/// The format names: `parquet`, `csv`, `json` name their formats, and
/// `jsonl`, `ndjson` and `jsonlines` all name JSON Lines; `xml` names none.
pub proof fn law_format_names()
    ensures
        format_for_name("parquet"@) == Some(FileFormat::Parquet),
        format_for_name("csv"@) == Some(FileFormat::Csv),
        format_for_name("jsonl"@) == Some(FileFormat::JsonLines),
        format_for_name("ndjson"@) == Some(FileFormat::JsonLines),
        format_for_name("jsonlines"@) == Some(FileFormat::JsonLines),
        format_for_name("json"@) == Some(FileFormat::Json),
        format_for_name("xml"@) is None,
{
    reveal_strlit("parquet");
    reveal_strlit("csv");
    reveal_strlit("jsonl");
    reveal_strlit("ndjson");
    reveal_strlit("jsonlines");
    reveal_strlit("json");
    reveal_strlit("xml");
    assert("parquet"@.len() == 7 && "csv"@.len() == 3 && "jsonl"@.len() == 5 && "ndjson"@.len() == 6);
    assert("jsonlines"@.len() == 9 && "json"@.len() == 4 && "xml"@.len() == 3);
    assert("xml"@[0] != "csv"@[0]);
}

/// Streaming decode: a non-empty chunk is fed from its start and an empty one
/// skipped; a consumption moves the offset on by what was consumed, and one
/// that reaches the end of the chunk reads the next chunk; a flush is asked
/// for only when the decoder consumed nothing, after which feeding resumes
/// where it stopped if the flush gave a batch, and the next chunk is read
/// otherwise; at the end of the input the decoder is told so, flushed once
/// more, and the decode stops.
pub proof fn law_decode_feeds_every_byte_once(offset: usize, len: usize, n: usize, chunk_len: usize, batch: bool)
    requires
        offset < len,
        n <= len - offset,
    ensures
        chunk_len > 0 ==> decode_step(DecodePhase::Reading, (DecodeEvent::Chunk { len: chunk_len })) == (
            (DecodePhase::Feeding { offset: 0, len: chunk_len }),
            (DecodeAction::Decode { offset: 0 }),
        ),
        decode_step(DecodePhase::Reading, (DecodeEvent::Chunk { len: 0 })) == (
            DecodePhase::Reading,
            DecodeAction::ReadChunk,
        ),
        n > 0 && offset + n == len ==> decode_step(
            (DecodePhase::Feeding { offset, len }),
            (DecodeEvent::Consumed { n }),
        ) == (DecodePhase::Reading, DecodeAction::ReadChunk),
        n > 0 && offset + n < len ==> decode_step(
            (DecodePhase::Feeding { offset, len }),
            (DecodeEvent::Consumed { n }),
        ) == (
            (DecodePhase::Feeding { offset: (offset + n) as usize, len }),
            (DecodeAction::Decode { offset: (offset + n) as usize }),
        ),
        (decode_step((DecodePhase::Feeding { offset, len }), (DecodeEvent::Consumed { n })).1 == DecodeAction::Flush)
            <==> n == 0,
        n == 0 ==> decode_step((DecodePhase::Feeding { offset, len }), (DecodeEvent::Consumed { n })).0
            == (DecodePhase::Flushing { offset, len }),
        decode_step((DecodePhase::Flushing { offset, len }), (DecodeEvent::Flushed { batch: true })) == (
            (DecodePhase::Feeding { offset, len }),
            (DecodeAction::Decode { offset }),
        ),
        decode_step((DecodePhase::Flushing { offset, len }), (DecodeEvent::Flushed { batch: false })) == (
            DecodePhase::Reading,
            DecodeAction::ReadChunk,
        ),
        decode_step(DecodePhase::Reading, DecodeEvent::InputEnd) == (
            DecodePhase::Ending,
            DecodeAction::DecodeEnd,
        ),
        decode_step(DecodePhase::Ending, (DecodeEvent::Consumed { n })) == (
            DecodePhase::FinalFlush,
            DecodeAction::Flush,
        ),
        decode_step(DecodePhase::FinalFlush, (DecodeEvent::Flushed { batch })) == (
            DecodePhase::Done,
            DecodeAction::Stop,
        ),
{
}

proof fn lemma_suffix_of_concat(p: Seq<char>, e: Seq<char>)
    ensures
        has_suffix(p + e, e),
{
    assert((p + e).subrange((p + e).len() - e.len(), (p + e).len() as int) =~= e);
}

proof fn lemma_not_suffix_at(s: Seq<char>, t: Seq<char>, k: int)
    requires
        1 <= k <= t.len(),
        k <= s.len(),
        s[s.len() - k] != t[t.len() - k],
    ensures
        !has_suffix(s, t),
{
    if has_suffix(s, t) {
        assert(s.subrange(s.len() - t.len(), s.len() as int)[t.len() - k] == s[s.len() - k]);
    }
}

/// A path that ends with the extension of a format announces that format,
/// whatever comes before the extension: `.parquet`, `.csv` and `.json` their
/// formats, and `.jsonl`, `.ndjson` and `.jsonlines` JSON Lines.
pub proof fn law_extensions_of_formats(p: Seq<char>)
    ensures
        format_for_extension(p + ".parquet"@) == Some(FileFormat::Parquet),
        format_for_extension(p + ".csv"@) == Some(FileFormat::Csv),
        format_for_extension(p + ".jsonl"@) == Some(FileFormat::JsonLines),
        format_for_extension(p + ".ndjson"@) == Some(FileFormat::JsonLines),
        format_for_extension(p + ".jsonlines"@) == Some(FileFormat::JsonLines),
        format_for_extension(p + ".json"@) == Some(FileFormat::Json),
{
    reveal_strlit(".parquet");
    reveal_strlit(".csv");
    reveal_strlit(".jsonl");
    reveal_strlit(".ndjson");
    reveal_strlit(".jsonlines");
    reveal_strlit(".json");
    let exts = seq![".parquet"@, ".csv"@, ".jsonl"@, ".ndjson"@, ".jsonlines"@, ".json"@];
    assert forall|i: int, j: int| 0 <= j < i < 6 implies !has_suffix(p + #[trigger] exts[i], #[trigger] exts[j])
        && has_suffix(p + exts[i], exts[i]) by {
        let s = p + exts[i];
        let e = exts[j];
        lemma_suffix_of_concat(p, exts[i]);
        if i == 3 && j == 0 || i == 5 && j == 0 {
            assert(s[s.len() - 1] == 'n');
            lemma_not_suffix_at(s, e, 1);
        } else if i == 5 && j == 3 {
            assert(s[s.len() - 5] == '.');
            lemma_not_suffix_at(s, e, 5);
        } else {
            assert(s[s.len() - 1] == exts[i][exts[i].len() - 1]);
            lemma_not_suffix_at(s, e, 1);
        }
    }
    lemma_suffix_of_concat(p, exts[0]);
    assert(!has_suffix(p + exts[1], exts[0]));
    assert(!has_suffix(p + exts[2], exts[1]) && !has_suffix(p + exts[2], exts[0]));
    assert(!has_suffix(p + exts[3], exts[2]) && !has_suffix(p + exts[3], exts[1]) && !has_suffix(
        p + exts[3],
        exts[0],
    ));
    assert(!has_suffix(p + exts[4], exts[3]) && !has_suffix(p + exts[4], exts[2]) && !has_suffix(
        p + exts[4],
        exts[1],
    ) && !has_suffix(p + exts[4], exts[0]));
    assert(!has_suffix(p + exts[5], exts[4]) && !has_suffix(p + exts[5], exts[3]) && !has_suffix(
        p + exts[5],
        exts[2],
    ) && !has_suffix(p + exts[5], exts[1]) && !has_suffix(p + exts[5], exts[0]));
}

/// The nine standard methods keep their own metric label; any other method,
/// a lower-case spelling included, is `OTHER`.
pub proof fn law_standard_methods_keep_their_label()
    ensures
        is_known_method("GET"@),
        is_known_method("POST"@),
        is_known_method("PUT"@),
        is_known_method("PATCH"@),
        is_known_method("DELETE"@),
        is_known_method("HEAD"@),
        is_known_method("OPTIONS"@),
        is_known_method("CONNECT"@),
        is_known_method("TRACE"@),
        !is_known_method("get"@),
        !is_known_method("CUSTOM"@),
{
    reveal_strlit("GET");
    reveal_strlit("POST");
    reveal_strlit("PUT");
    reveal_strlit("PATCH");
    reveal_strlit("DELETE");
    reveal_strlit("HEAD");
    reveal_strlit("OPTIONS");
    reveal_strlit("CONNECT");
    reveal_strlit("TRACE");
    reveal_strlit("get");
    reveal_strlit("CUSTOM");
    assert("get"@[0] != "GET"@[0] && "get"@[0] != "PUT"@[0]);
    assert("CUSTOM"@[0] != "DELETE"@[0]);
    assert("CUSTOM"@.len() == 6 && "GET"@.len() == 3 && "POST"@.len() == 4 && "PUT"@.len() == 3);
    assert("PATCH"@.len() == 5 && "HEAD"@.len() == 4 && "OPTIONS"@.len() == 7 && "CONNECT"@.len() == 7);
    assert("TRACE"@.len() == 5 && "DELETE"@.len() == 6 && "get"@.len() == 3);
}

/// A token wins over basic credentials; a user name and a password together,
/// without a token, give basic authentication; without a token and without
/// either of the two, there is none.
pub proof fn law_token_wins_over_basic(
    a: UriAuth,
    t: Seq<char>,
    u: Option<Seq<char>>,
    p: Option<Seq<char>>,
    name: Seq<char>,
    pass: Seq<char>,
)
    ensures
        auth_matches(a, Some(t), u, p) ==> (a matches UriAuth::Token { token } && token@ == t),
        auth_matches(a, None, Some(name), Some(pass)) ==> (a matches UriAuth::Basic { username, password }
            && username@ == name && password@ == pass),
        auth_matches(a, None, None, p) ==> a is Anonymous,
        auth_matches(a, None, u, None) ==> a is Anonymous,
{
}

/// An explicit format decides the format of a response whatever its
/// `Content-Type`: two responses to the same request with an explicit format
/// are read in the same format, or both fail.
pub proof fn law_explicit_format_ignores_content_type(
    ct1: Option<Seq<u8>>,
    ct2: Option<Seq<u8>>,
    request: UriRequest,
    r1: Result<FileFormat, ConnectorError>,
    r2: Result<FileFormat, ConnectorError>,
)
    requires
        request.format is Some,
        response_format_outcome(ct1, request, r1),
        response_format_outcome(ct2, request, r2),
    ensures
        format_str_outcome(request.format.unwrap()@, r1),
        r1 is Ok ==> r1 == r2,
        r1 is Err <==> r2 is Err,
{
}

/// A failed call is an error without a code; a successful call records the
/// code of its `grpc-status` header and is an error exactly when that code is
/// present and not 0.
pub proof fn law_call_errors(status: Option<Seq<u8>>)
    ensures
        call_outcome_spec(false, status).error,
        call_outcome_spec(false, status).status_code is None,
        call_outcome_spec(true, status).status_code == status_code_of(status),
        call_outcome_spec(true, status).error <==> (status_code_of(status) matches Some(c) && c != 0),
        call_outcome_spec(true, None).status_code is None && !call_outcome_spec(true, None).error,
{
}

/// A traced stream records its count when it fails or ends, and nothing for
/// a delivered batch or a pending poll.
pub proof fn law_stream_records(batches: u64)
    ensures
        record_for(StreamPoll::Failed, batches) == (StreamRecord::Failure { batch_count: batches }),
        record_for(StreamPoll::Ended, batches) == (StreamRecord::Completion { batch_count: batches }),
        record_for(StreamPoll::Batch, batches) == StreamRecord::Nothing,
        record_for(StreamPoll::Pending, batches) == StreamRecord::Nothing,
{
}

proof fn lemma_last_newline_exists(b: Seq<u8>)
    ensures
        exists|k: int| is_last_newline(b, k),
    decreases b.len(),
{
    if b.len() == 0 {
        assert(is_last_newline(b, -1));
    } else if b.last() == 10 {
        assert(is_last_newline(b, b.len() - 1));
    } else {
        let prev = b.drop_last();
        lemma_last_newline_exists(prev);
        let k = choose|k: int| is_last_newline(prev, k);
        assert forall|i: int| k < i < b.len() implies b[i] != 10 by {
            if i < b.len() - 1 {
                assert(b[i] == prev[i]);
            }
        }
        if k >= 0 {
            assert(b[k] == prev[k]);
        }
        assert(is_last_newline(b, k));
    }
}

/// A schema sample keeps a prefix of what was read: when that holds a
/// newline, the sample ends with a newline and no newline is cut off;
/// otherwise it is all that was read.
pub proof fn law_sample_ends_on_a_record(b: Seq<u8>)
    ensures
        whole_records(b).len() <= b.len(),
        b.take(whole_records(b).len() as int) == whole_records(b),
        (exists|k: int| 0 <= k < b.len() && b[k] == 10) ==> (whole_records(b).len() > 0 && whole_records(b).last()
            == 10 && forall|i: int| whole_records(b).len() <= i < b.len() ==> b[i] != 10),
        !(exists|k: int| 0 <= k < b.len() && b[k] == 10) ==> whole_records(b) == b,
{
    lemma_last_newline_exists(b);
    if exists|k: int| 0 <= k < b.len() && b[k] == 10 {
        let j = choose|k: int| 0 <= k < b.len() && b[k] == 10;
        let k = choose|k: int| is_last_newline(b, k);
        assert(k >= 0) by {
            if k < 0 {
                assert(b[j] != 10);
            }
        }
        assert(b.take(k + 1).take(k + 1) =~= b.take(k + 1));
        assert(b.take(k + 1).last() == b[k]);
    } else {
        assert(b.take(b.len() as int) =~= b);
    }
}

proof fn lemma_trim_start_shape(s: Seq<char>) -> (k: int)
    ensures
        0 <= k <= s.len(),
        trim_start_spec(s) == s.skip(k),
        forall|j: int| 0 <= j < k ==> is_white_space(#[trigger] s[j]),
        k < s.len() ==> !is_white_space(s[k]),
    decreases s.len(),
{
    if s.len() > 0 && is_white_space(s[0]) {
        let rest = s.drop_first();
        let k1 = lemma_trim_start_shape(rest);
        assert(rest.skip(k1) =~= s.skip(k1 + 1));
        assert forall|j: int| 0 <= j < k1 + 1 implies is_white_space(#[trigger] s[j]) by {
            if j > 0 {
                assert(s[j] == rest[j - 1]);
            }
        }
        if k1 + 1 < s.len() {
            assert(s[k1 + 1] == rest[k1]);
        }
        k1 + 1
    } else {
        assert(s.skip(0) =~= s);
        0
    }
}

proof fn lemma_trim_end_shape(s: Seq<char>) -> (k: int)
    ensures
        0 <= k <= s.len(),
        trim_end_spec(s) == s.take(k),
        forall|j: int| k <= j < s.len() ==> is_white_space(#[trigger] s[j]),
        k > 0 ==> !is_white_space(s[k - 1]),
    decreases s.len(),
{
    if s.len() > 0 && is_white_space(s.last()) {
        let init = s.drop_last();
        let k1 = lemma_trim_end_shape(init);
        assert(init.take(k1) =~= s.take(k1));
        assert forall|j: int| k1 <= j < s.len() implies is_white_space(#[trigger] s[j]) by {
            if j < s.len() - 1 {
                assert(s[j] == init[j]);
            }
        }
        if k1 > 0 {
            assert(s[k1 - 1] == init[k1 - 1]);
        }
        k1
    } else {
        assert(s.take(s.len() as int) =~= s);
        s.len() as int
    }
}

/// Trimming removes exactly the white space around a text: the result is a
/// contiguous part of the text, everything cut off is white space, and a
/// non-empty result begins and ends with a character that is not white
/// space.
pub proof fn law_trim_removes_surrounding_white_space(s: Seq<char>)
    ensures
        exists|a: int, b: int|
            {
                &&& 0 <= a <= b <= s.len()
                &&& trimmed(s) == s.subrange(a, b)
                &&& forall|j: int| 0 <= j < a ==> is_white_space(#[trigger] s[j])
                &&& forall|j: int| b <= j < s.len() ==> is_white_space(#[trigger] s[j])
            },
        trimmed(s).len() > 0 ==> !is_white_space(trimmed(s)[0]) && !is_white_space(trimmed(s).last()),
{
    let a = lemma_trim_start_shape(s);
    let u = s.skip(a);
    let k = lemma_trim_end_shape(u);
    let b = a + k;
    assert(u.take(k) =~= s.subrange(a, b));
    assert forall|j: int| b <= j < s.len() implies is_white_space(#[trigger] s[j]) by {
        assert(s[j] == u[j - a]);
    }
    if k > 0 {
        assert(u[0] == s[a]);
        assert(trimmed(s)[0] == s[a]);
        assert(trimmed(s).last() == u[k - 1]);
    }
}

proof fn lemma_ascii_letter(c: char, lower: char, upper: char)
    requires
        'A' <= upper <= 'Z',
        lower as u32 == upper as u32 + 32,
    ensures
        ascii_lower(c) == ascii_lower(lower) <==> (c == lower || c == upper),
{
    assert(!('A' <= lower <= 'Z'));
    assert(ascii_lower(lower) == lower as u32);
    if 'A' <= c <= 'Z' {
        assert(ascii_lower(c) == c as u32 + 32);
        if c as u32 + 32 == lower as u32 {
            assert(c as u32 == upper as u32);
        }
    } else {
        assert(ascii_lower(c) == c as u32);
        if c as u32 == lower as u32 {
            assert(c == lower);
        }
    }
}

/// The insecure flag is set exactly by the word `true`, in any mix of ASCII
/// cases and with white space around it.
pub proof fn law_insecure_only_for_true(raw: Option<Seq<char>>)
    ensures
        insecure_flag(raw) <==> (cleaned(raw) matches Some(w) && w.len() == 4 && (w[0] == 't' || w[0] == 'T')
            && (w[1] == 'r' || w[1] == 'R') && (w[2] == 'u' || w[2] == 'U') && (w[3] == 'e' || w[3] == 'E')),
{
    reveal_strlit("true");
    let tr = "true"@;
    assert(tr.len() == 4 && tr[0] == 't' && tr[1] == 'r' && tr[2] == 'u' && tr[3] == 'e');
    if let Some(w) = cleaned(raw) {
        if w.len() == 4 {
            lemma_ascii_letter(w[0], 't', 'T');
            lemma_ascii_letter(w[1], 'r', 'R');
            lemma_ascii_letter(w[2], 'u', 'U');
            lemma_ascii_letter(w[3], 'e', 'E');
            if (w[0] == 't' || w[0] == 'T') && (w[1] == 'r' || w[1] == 'R') && (w[2] == 'u' || w[2] == 'U') && (
            w[3] == 'e' || w[3] == 'E') {
                assert forall|i: int| 0 <= i < w.len() implies ascii_lower(w[i]) == ascii_lower(tr[i]) by {
                    if i == 0 {
                    } else if i == 1 {
                    } else if i == 2 {
                    } else {
                    }
                }
                assert(eq_ignore_ascii_case_spec(w, tr));
            }
        }
    }
}

/// A data path without a dot names one member: resolving it is looking that
/// member up.
pub proof fn law_single_segment_path(v: JsonValue, p: Seq<char>)
    requires
        !p.contains('.'),
    ensures
        resolved(v, p) == v.spec_get(p),
{
    assert(is_first_index_of(p, '.', p.len() as int)) by {
        assert forall|i: int| 0 <= i < p.len() implies p[i] != '.' by {
            if p[i] == '.' {
                assert(p.contains('.'));
            }
        }
    }
    lemma_first_index_of(p, '.', p.len() as int);
    assert(split_dots(p) == seq![p]);
    let segs = seq![p];
    assert(segs.drop_first() =~= Seq::<Seq<char>>::empty());
    match v.spec_get(p) {
        Some(c) => {
            assert(resolve_segments(c, Seq::<Seq<char>>::empty()) == Some(c));
            assert(resolve_segments(v, segs) == resolve_segments(c, segs.drop_first()));
        },
        None => {
            assert(resolve_segments(v, segs) is None);
        },
    }
}

/// Cells of other column kinds: an integer that fits in an `i64` is a
/// timestamp of that many milliseconds, whatever its sign, and a boolean is
/// none; a string is text as its characters, any other value is text as
/// JSON, and a missing value is null.
pub proof fn law_timestamp_and_text_cells(n: i64, u: u64, b: bool, s: String, v: JsonValue)
    ensures
        cell_timestamp(Some(JsonValue::Number(JsonNumber::NegInt(n)))) == Some(n),
        u <= i64::MAX ==> cell_timestamp(Some(JsonValue::Number(JsonNumber::PosInt(u)))) == Some(u as i64),
        cell_timestamp(Some(JsonValue::Bool(b))) is None,
        cell_timestamp(None) is None,
        cell_text(Some(JsonValue::String(s))) == Some(Ok::<Seq<char>, JsonValue>(s@)),
        !(v is String) ==> cell_text(Some(v)) == Some(Err::<Seq<char>, JsonValue>(v)),
        cell_text(None) is None,
{
}

/// A header value made of printable ASCII is text holding the same
/// characters; a value with a DEL or a line break in it is not text.
pub proof fn law_header_text(bytes: Seq<u8>)
    ensures
        (forall|i: int| 0 <= i < bytes.len() ==> 32 <= #[trigger] bytes[i] <= 126) ==> (header_text(bytes) matches Some(
            t,
        ) && t.len() == bytes.len() && forall|i: int| 0 <= i < bytes.len() ==> #[trigger] t[i] as u32 == bytes[i]),
        (bytes.contains(127) || bytes.contains(10) || bytes.contains(13)) ==> header_text(bytes) is None,
{
    if bytes.contains(127) || bytes.contains(10) || bytes.contains(13) {
        let i = choose|i: int| 0 <= i < bytes.len() && (bytes[i] == 127 || bytes[i] == 10 || bytes[i] == 13);
        assert(!crate::header::is_visible_ascii(bytes[i]));
    }
}

/// An integer literal reads as its value: digits alone or after `+` give
/// the value, after `-` its negation, as long as it fits in an `i32`; no
/// digits, or a character that is not a digit, gives nothing.
pub proof fn law_i32_literals(d: Seq<char>)
    requires
        d.len() > 0,
        forall|i: int| 0 <= i < d.len() ==> is_digit(#[trigger] d[i]),
        digits_value(d) <= i32::MAX,
    ensures
        parse_i32_spec(d) == Some(digits_value(d) as i32),
        parse_i32_spec(seq!['+'] + d) == Some(digits_value(d) as i32),
        parse_i32_spec(seq!['-'] + d) == Some((-digits_value(d)) as i32),
        parse_i32_spec(Seq::<char>::empty()) is None,
        parse_i32_spec(seq!['-']) is None,
        parse_i32_spec(d + seq!['x']) is None,
{
    assert(is_digit(d[0]));
    assert((seq!['+'] + d).drop_first() =~= d);
    assert((seq!['-'] + d).drop_first() =~= d);
    lemma_digits_nonneg(d);
    let e = d + seq!['x'];
    assert(e[0] == d[0]);
    assert(!is_digit(e[d.len() as int]));
}

proof fn lemma_digits_nonneg(d: Seq<char>)
    requires
        forall|i: int| 0 <= i < d.len() ==> is_digit(#[trigger] d[i]),
    ensures
        digits_value(d) >= 0,
    decreases d.len(),
{
    if d.len() > 0 {
        let p = d.drop_last();
        assert forall|i: int| 0 <= i < p.len() implies is_digit(#[trigger] p[i]) by {
            assert(p[i] == d[i]);
        }
        lemma_digits_nonneg(p);
        assert(is_digit(d[d.len() - 1]));
    }
}

/// Without an explicit format, a `Content-Type` that names a format decides
/// it; a readable one that names none leaves the decision to the path, as if
/// no `Content-Type` were sent; with neither, the path's extension decides.
pub proof fn law_content_type_then_path(
    bytes: Seq<u8>,
    ct: Seq<char>,
    request: UriRequest,
    r: Result<FileFormat, ConnectorError>,
    r_none: Result<FileFormat, ConnectorError>,
)
    requires
        request.format is None,
        header_text(bytes) == Some(ct),
        response_format_outcome(Some(bytes), request, r),
        response_format_outcome(None, request, r_none),
    ensures
        content_type_format(ct) matches Some(f) ==> r == Ok::<FileFormat, ConnectorError>(f),
        content_type_format(ct) is None && r is Ok ==> r == r_none,
        content_type_format(ct) is None ==> (r is Ok <==> r_none is Ok),
        path_format(request.path@) matches Some(f) ==> r_none == Ok::<FileFormat, ConnectorError>(f),
{
}

} // verus!
