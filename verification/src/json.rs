use vstd::prelude::*;
use vstd::string::*;

use crate::error::ConnectorError;
use crate::text::{
    chars_of, concat2, concat3, decimal, decimal_string, first_index_of, lemma_first_index_of, lemma_lex_irreflexive, lemma_lex_total, lemma_lex_transitive, lex_lt, str_eq,
    str_lt, has_prefix, has_suffix,
};

verus! {

/// A JSON number as `serde_json` holds it: a non-negative integer, a negative
/// integer, or a float (kept as its IEEE-754 bits).
#[derive(Debug, Clone, Copy, PartialEq, Eq, Structural)]
pub enum JsonNumber {
    PosInt(u64),
    NegInt(i64),
    Float(u64),
}

impl JsonNumber {
    /// Whether the number is a float.
    pub open spec fn spec_is_f64(self) -> bool {
        self is Float
    }

    /// The number as an `i64`, when it is an integer that fits.
    pub open spec fn spec_as_i64(self) -> Option<i64> {
        match self {
            JsonNumber::PosInt(n) => if n <= i64::MAX {
                Some(n as i64)
            } else {
                None
            },
            JsonNumber::NegInt(n) => Some(n),
            JsonNumber::Float(_) => None,
        }
    }

    /// The number as a `u64`, when it is a non-negative integer.
    pub open spec fn spec_as_u64(self) -> Option<u64> {
        match self {
            JsonNumber::PosInt(n) => Some(n),
            _ => None,
        }
    }

    pub fn is_f64(&self) -> (b: bool)
        ensures
            b == self.spec_is_f64(),
    {
        match self {
            JsonNumber::Float(_) => true,
            _ => false,
        }
    }

    pub fn as_i64(&self) -> (r: Option<i64>)
        ensures
            r == self.spec_as_i64(),
    {
        match self {
            JsonNumber::PosInt(n) => if *n <= 0x7fff_ffff_ffff_ffff {
                Some(*n as i64)
            } else {
                None
            },
            JsonNumber::NegInt(n) => Some(*n),
            JsonNumber::Float(_) => None,
        }
    }

    pub fn as_u64(&self) -> (r: Option<u64>)
        ensures
            r == self.spec_as_u64(),
    {
        match self {
            JsonNumber::PosInt(n) => Some(*n),
            _ => None,
        }
    }
}

/// A JSON value. An object keeps its members in order; a lookup by key finds
/// the first member with that key.
#[derive(Debug)]
pub enum JsonValue {
    Null,
    Bool(bool),
    Number(JsonNumber),
    String(String),
    Array(Vec<JsonValue>),
    Object(Vec<(String, JsonValue)>),
}

/// The value of the first member of `members` named `key`.
pub open spec fn member(members: Seq<(String, JsonValue)>, key: Seq<char>) -> Option<JsonValue>
    decreases members.len(),
{
    if members.len() == 0 {
        None
    } else if members[0].0@ == key {
        Some(members[0].1)
    } else {
        member(members.drop_first(), key)
    }
}

impl JsonValue {
    /// The member `key` of an object; nothing for any other value.
    pub open spec fn spec_get(self, key: Seq<char>) -> Option<JsonValue> {
        match self {
            JsonValue::Object(members) => member(members@, key),
            _ => None,
        }
    }

    /// Looks up member `key` of an object.
    pub fn get(&self, key: &str) -> (r: Option<&JsonValue>)
        ensures
            match r {
                Some(v) => self.spec_get(key@) == Some(*v),
                None => self.spec_get(key@) is None,
            },
    {
        match self {
            JsonValue::Object(members) => {
                let mut i: usize = 0;
                assert(members@.skip(0) =~= members@);
                while i < members.len()
                    invariant
                        i <= members@.len(),
                        self.spec_get(key@) == member(members@, key@),
                        member(members@, key@) == member(members@.skip(i as int), key@),
                    decreases members@.len() - i,
                {
                    let ghost rest = members@.skip(i as int);
                    assert(rest.drop_first() =~= members@.skip(i + 1));
                    if str_eq(members[i].0.as_str(), key) {
                        assert(rest[0] == members@[i as int]);
                        return Some(&members[i].1);
                    }
                    i = i + 1;
                }
                None
            },
            _ => None,
        }
    }

    pub fn is_null(&self) -> (b: bool)
        ensures
            b == (self is Null),
    {
        match self {
            JsonValue::Null => true,
            _ => false,
        }
    }
}

/// The unit of a timestamp.
#[derive(Debug, Clone, Copy, PartialEq, Eq, Structural)]
pub enum TimeUnit {
    Second,
    Millisecond,
    Microsecond,
    Nanosecond,
}

/// The type of a column.
#[derive(Debug, Clone, PartialEq, Eq)]
pub enum DataType {
    Boolean,
    Int8,
    Int16,
    Int32,
    Int64,
    Float32,
    Float64,
    Utf8,
    Binary,
    Timestamp(TimeUnit, Option<String>),
}

/// The view of a column type.
pub enum DataTypeView {
    Boolean,
    Int8,
    Int16,
    Int32,
    Int64,
    Float32,
    Float64,
    Utf8,
    Binary,
    Timestamp(TimeUnit, Option<Seq<char>>),
}

impl View for DataType {
    type V = DataTypeView;

    open spec fn view(&self) -> DataTypeView {
        match self {
            DataType::Boolean => DataTypeView::Boolean,
            DataType::Int8 => DataTypeView::Int8,
            DataType::Int16 => DataTypeView::Int16,
            DataType::Int32 => DataTypeView::Int32,
            DataType::Int64 => DataTypeView::Int64,
            DataType::Float32 => DataTypeView::Float32,
            DataType::Float64 => DataTypeView::Float64,
            DataType::Utf8 => DataTypeView::Utf8,
            DataType::Binary => DataTypeView::Binary,
            DataType::Timestamp(u, tz) => DataTypeView::Timestamp(
                *u,
                match tz {
                    Some(z) => Some(z@),
                    None => None,
                },
            ),
        }
    }
}

/// The type inferred for timestamps: milliseconds in UTC.
pub open spec fn utc_millis() -> DataTypeView {
    DataTypeView::Timestamp(TimeUnit::Millisecond, Some("UTC"@))
}

impl DataType {
    /// Milliseconds in UTC.
    pub fn utc_millis() -> (r: DataType)
        ensures
            r@ == utc_millis(),
    {
        DataType::Timestamp(TimeUnit::Millisecond, Some(String::from_str("UTC")))
    }

    /// Whether two column types are the same.
    pub fn same(&self, other: &DataType) -> (b: bool)
        ensures
            b == (self@ == other@),
    {
        match (self, other) {
            (DataType::Boolean, DataType::Boolean) => true,
            (DataType::Int8, DataType::Int8) => true,
            (DataType::Int16, DataType::Int16) => true,
            (DataType::Int32, DataType::Int32) => true,
            (DataType::Int64, DataType::Int64) => true,
            (DataType::Float32, DataType::Float32) => true,
            (DataType::Float64, DataType::Float64) => true,
            (DataType::Utf8, DataType::Utf8) => true,
            (DataType::Binary, DataType::Binary) => true,
            (DataType::Timestamp(u1, z1), DataType::Timestamp(u2, z2)) => {
                if *u1 != *u2 {
                    return false;
                }
                match (z1, z2) {
                    (Some(a), Some(b)) => str_eq(a.as_str(), b.as_str()),
                    (None, None) => true,
                    _ => false,
                }
            },
            _ => false,
        }
    }
}

/// What `chrono::DateTime::parse_from_rfc3339` yields for a string, read as
/// milliseconds since the Unix epoch.
pub uninterp spec fn spec_rfc3339_millis(s: Seq<char>) -> Option<i64>;

/// Calls `chrono::DateTime::parse_from_rfc3339` and reads the result with
/// `timestamp_millis`. Claimed: the outcome is a function of the characters
/// of `s`.
#[verifier::external_body]
fn rfc3339_millis(s: &str) -> (r: Option<i64>)
    ensures
        r == spec_rfc3339_millis(s@),
{
    match chrono::DateTime::parse_from_rfc3339(s) {
        Ok(dt) => Some(dt.timestamp_millis()),
        Err(_) => None,
    }
}

/// What `chrono::NaiveDateTime::parse_from_str` yields for a string and a
/// format, read as milliseconds since the Unix epoch taken in UTC.
pub uninterp spec fn spec_naive_millis(s: Seq<char>, fmt: Seq<char>) -> Option<i64>;

/// Calls `chrono::NaiveDateTime::parse_from_str` and reads the result with
/// `and_utc().timestamp_millis()`. Claimed: the outcome is a function of the
/// characters of `s` and `fmt`.
#[verifier::external_body]
fn naive_millis(s: &str, fmt: &str) -> (r: Option<i64>)
    ensures
        r == spec_naive_millis(s@, fmt@),
{
    match chrono::NaiveDateTime::parse_from_str(s, fmt) {
        Ok(dt) => Some(dt.and_utc().timestamp_millis()),
        Err(_) => None,
    }
}

/// The column type inferred for one JSON value: booleans are boolean; floats
/// are 64-bit floats; integers are 64-bit integers unless they exceed
/// `i64`, when they are text; RFC 3339 strings are UTC millisecond
/// timestamps; everything else is text.
pub open spec fn inferred_type(value: JsonValue) -> DataTypeView {
    match value {
        JsonValue::Bool(_) => DataTypeView::Boolean,
        JsonValue::Number(n) => if n.spec_is_f64() && n.spec_as_i64() is None && n.spec_as_u64() is None {
            DataTypeView::Float64
        } else if n.spec_as_i64() is None {
            DataTypeView::Utf8
        } else {
            DataTypeView::Int64
        },
        JsonValue::String(s) => if spec_rfc3339_millis(s@) is Some {
            utc_millis()
        } else {
            DataTypeView::Utf8
        },
        _ => DataTypeView::Utf8,
    }
}

/// Infers the column type of one JSON value.
pub fn infer_arrow_type(value: &JsonValue) -> (r: DataType)
    ensures
        r@ == inferred_type(*value),
{
    match value {
        JsonValue::Bool(_) => DataType::Boolean,
        JsonValue::Number(n) => {
            if n.is_f64() && n.as_i64().is_none() && n.as_u64().is_none() {
                DataType::Float64
            } else if n.as_i64().is_none() {
                DataType::Utf8
            } else {
                DataType::Int64
            }
        },
        JsonValue::String(s) => {
            if rfc3339_millis(s.as_str()).is_some() {
                DataType::utc_millis()
            } else {
                DataType::Utf8
            }
        },
        _ => DataType::Utf8,
    }
}

/// A column of a schema.
#[derive(Debug, Clone, PartialEq, Eq)]
pub struct Field {
    pub name: String,
    pub data_type: DataType,
    pub nullable: bool,
}

impl Field {
    pub fn new(name: String, data_type: DataType, nullable: bool) -> (r: Field)
        ensures
            r.name == name,
            r.data_type == data_type,
            r.nullable == nullable,
    {
        Field { name, data_type, nullable }
    }

    pub fn name(&self) -> (r: &String)
        ensures
            r == &self.name,
    {
        &self.name
    }

    pub fn data_type(&self) -> (r: &DataType)
        ensures
            r == &self.data_type,
    {
        &self.data_type
    }
}

/// The columns of a table, in order.
#[derive(Debug, Clone, PartialEq, Eq)]
pub struct Schema {
    pub fields: Vec<Field>,
}

impl Schema {
    pub fn new(fields: Vec<Field>) -> (r: Schema)
        ensures
            r.fields == fields,
    {
        Schema { fields }
    }

    pub fn fields(&self) -> (r: &Vec<Field>)
        ensures
            r == &self.fields,
    {
        &self.fields
    }

    pub fn field(&self, i: usize) -> (r: &Field)
        requires
            i < self.fields@.len(),
        ensures
            *r == self.fields@[i as int],
    {
        &self.fields[i]
    }
}

/// The column types after one member of a row is seen: a null member adds
/// its key as text unless the key is known; another member adds its key
/// with the inferred type, or turns a known key into text when the types
/// disagree.
pub open spec fn merge_member(
    m: Map<Seq<char>, DataTypeView>,
    key: Seq<char>,
    value: JsonValue,
) -> Map<Seq<char>, DataTypeView> {
    if value is Null {
        if m.contains_key(key) {
            m
        } else {
            m.insert(key, DataTypeView::Utf8)
        }
    } else {
        let t = inferred_type(value);
        if m.contains_key(key) {
            if m[key] == t {
                m
            } else {
                m.insert(key, DataTypeView::Utf8)
            }
        } else {
            m.insert(key, t)
        }
    }
}

/// The column types after the members of a row are seen, in order.
pub open spec fn merge_members(
    m: Map<Seq<char>, DataTypeView>,
    members: Seq<(String, JsonValue)>,
) -> Map<Seq<char>, DataTypeView>
    decreases members.len(),
{
    if members.len() == 0 {
        m
    } else {
        merge_member(merge_members(m, members.drop_last()), members.last().0@, members.last().1)
    }
}

/// The column types after a row is seen; rows that are not objects add
/// nothing.
pub open spec fn merge_row(m: Map<Seq<char>, DataTypeView>, row: JsonValue) -> Map<
    Seq<char>,
    DataTypeView,
> {
    match row {
        JsonValue::Object(members) => merge_members(m, members@),
        _ => m,
    }
}

/// The column types of a sequence of rows, seen in order.
pub open spec fn schema_map(rows: Seq<JsonValue>) -> Map<Seq<char>, DataTypeView>
    decreases rows.len(),
{
    if rows.len() == 0 {
        Map::empty()
    } else {
        merge_row(schema_map(rows.drop_last()), rows.last())
    }
}

/// The names of `fields` are in strictly increasing order.
pub open spec fn sorted_names(fields: Seq<Field>) -> bool {
    forall|i: int, j: int|
        0 <= i < j < fields.len() ==> lex_lt(#[trigger] fields[i].name@, #[trigger] fields[j].name@)
}

/// `fields` lists the column types `m`: one nullable field per key, in
/// increasing order of name.
pub open spec fn lists_map(fields: Seq<Field>, m: Map<Seq<char>, DataTypeView>) -> bool {
    &&& sorted_names(fields)
    &&& forall|i: int|
        0 <= i < fields.len() ==> {
            &&& (#[trigger] fields[i]).nullable
            &&& m.contains_key(fields[i].name@)
            &&& m[fields[i].name@] == fields[i].data_type@
        }
    &&& forall|k: Seq<char>|
        m.contains_key(k) ==> exists|i: int| 0 <= i < fields.len() && (#[trigger] fields[i]).name@ == k
}

fn merge_into(
    fields: &mut Vec<Field>,
    key: &String,
    value: &JsonValue,
    Ghost(m): Ghost<Map<Seq<char>, DataTypeView>>,
)
    requires
        lists_map(old(fields)@, m),
    ensures
        lists_map(final(fields)@, merge_member(m, key@, *value)),
{
    let mut p: usize = 0;
    while p < fields.len() && str_lt(fields[p].name.as_str(), key.as_str())
        invariant
            p <= fields@.len(),
            forall|q: int| 0 <= q < p ==> lex_lt((#[trigger] fields@[q]).name@, key@),
        decreases fields@.len() - p,
    {
        p = p + 1;
    }
    let found = p < fields.len() && str_eq(fields[p].name.as_str(), key.as_str());
    if found {
        if value.is_null() {
            return;
        }
        let t = infer_arrow_type(value);
        if !fields[p].data_type.same(&t) {
            let name = fields[p].name.clone();
            let ghost old_fields = fields@;
            fields.set(p, Field { name, data_type: DataType::Utf8, nullable: true });
            proof {
                let m2 = m.insert(key@, DataTypeView::Utf8);
                assert forall|i: int| 0 <= i < fields@.len() implies {
                    &&& (#[trigger] fields@[i]).nullable
                    &&& m2.contains_key(fields@[i].name@)
                    &&& m2[fields@[i].name@] == fields@[i].data_type@
                } by {
                    if i != p {
                        assert(fields@[i] == old_fields[i]);
                        if old_fields[i].name@ == key@ {
                            if i < p {
                                assert(lex_lt(old_fields[i].name@, old_fields[p as int].name@));
                            } else {
                                assert(lex_lt(old_fields[p as int].name@, old_fields[i].name@));
                            }
                            lemma_lex_irreflexive(key@);
                        }
                    }
                }
                assert forall|k: Seq<char>| m2.contains_key(k) implies exists|i: int|
                    0 <= i < fields@.len() && (#[trigger] fields@[i]).name@ == k by {
                    if k == key@ {
                        assert(fields@[p as int].name@ == k);
                    } else {
                        let i = choose|i: int| 0 <= i < old_fields.len() && (#[trigger] old_fields[i]).name@ == k;
                        assert(fields@[i] == old_fields[i]);
                    }
                }
                assert(m2 =~= merge_member(m, key@, *value));
            }
        }
    } else {
        let t = if value.is_null() {
            DataType::Utf8
        } else {
            infer_arrow_type(value)
        };
        let ghost old_fields = fields@;
        proof {
            assert(!m.contains_key(key@)) by {
                if m.contains_key(key@) {
                    let i = choose|i: int| 0 <= i < old_fields.len() && (#[trigger] old_fields[i]).name@ == key@;
                    if i < p {
                        lemma_lex_irreflexive(key@);
                    } else if i > p {
                        assert(lex_lt(old_fields[p as int].name@, old_fields[i].name@));
                    }
                }
            }
            if p < old_fields.len() {
                lemma_lex_total(old_fields[p as int].name@, key@);
            }
        }
        fields.insert(p, Field { name: key.clone(), data_type: t, nullable: true });
        proof {
            let m2 = m.insert(key@, t@);
            assert(m2 =~= merge_member(m, key@, *value));
            assert forall|i: int, j: int| 0 <= i < j < fields@.len() implies lex_lt(
                #[trigger] fields@[i].name@,
                #[trigger] fields@[j].name@,
            ) by {
                if j < p {
                    assert(fields@[i] == old_fields[i] && fields@[j] == old_fields[j]);
                } else if j == p {
                    assert(fields@[i] == old_fields[i]);
                } else if i > p {
                    assert(fields@[i] == old_fields[i - 1] && fields@[j] == old_fields[j - 1]);
                } else if i == p {
                    assert(fields@[j] == old_fields[j - 1]);
                    if j - 1 > p {
                        assert(lex_lt(old_fields[p as int].name@, old_fields[j - 1].name@));
                        lemma_lex_transitive(key@, old_fields[p as int].name@, old_fields[j - 1].name@);
                    }
                } else {
                    assert(fields@[i] == old_fields[i] && fields@[j] == old_fields[j - 1]);
                }
            }
            assert forall|i: int| 0 <= i < fields@.len() implies {
                &&& (#[trigger] fields@[i]).nullable
                &&& m2.contains_key(fields@[i].name@)
                &&& m2[fields@[i].name@] == fields@[i].data_type@
            } by {
                if i < p {
                    assert(fields@[i] == old_fields[i]);
                } else if i > p {
                    assert(fields@[i] == old_fields[i - 1]);
                }
            }
            assert forall|k: Seq<char>| m2.contains_key(k) implies exists|i: int|
                0 <= i < fields@.len() && (#[trigger] fields@[i]).name@ == k by {
                if k == key@ {
                    assert(fields@[p as int].name@ == k);
                } else {
                    let i = choose|i: int| 0 <= i < old_fields.len() && (#[trigger] old_fields[i]).name@ == k;
                    if i < p {
                        assert(fields@[i] == old_fields[i]);
                    } else {
                        assert(fields@[i + 1] == old_fields[i]);
                    }
                }
            }
        }
    }
}

/// Infers the schema of JSON rows: one nullable column per member key of the
/// object rows, in increasing order of name, typed as `schema_map` says.
pub fn infer_schema(rows: &[JsonValue]) -> (r: Schema)
    ensures
        lists_map(r.fields@, schema_map(rows@)),
{
    let mut fields: Vec<Field> = Vec::new();
    let mut r: usize = 0;
    while r < rows.len()
        invariant
            r <= rows@.len(),
            lists_map(fields@, schema_map(rows@.take(r as int))),
        decreases rows@.len() - r,
    {
        let ghost before = schema_map(rows@.take(r as int));
        assert(rows@.take(r + 1).drop_last() =~= rows@.take(r as int));
        assert(rows@.take(r + 1).last() == rows@[r as int]);
        match &rows[r] {
            JsonValue::Object(members) => {
                let mut j: usize = 0;
                assert(members@.take(0) =~= Seq::<(String, JsonValue)>::empty());
                while j < members.len()
                    invariant
                        j <= members@.len(),
                        lists_map(fields@, merge_members(before, members@.take(j as int))),
                    decreases members@.len() - j,
                {
                    assert(members@.take(j + 1).drop_last() =~= members@.take(j as int));
                    assert(members@.take(j + 1).last() == members@[j as int]);
                    merge_into(
                        &mut fields,
                        &members[j].0,
                        &members[j].1,
                        Ghost(merge_members(before, members@.take(j as int))),
                    );
                    j = j + 1;
                }
                assert(members@.take(members@.len() as int) =~= members@);
            },
            _ => {},
        }
        r = r + 1;
    }
    assert(rows@.take(rows@.len() as int) =~= rows@);
    Schema { fields }
}

/// The segments of a dotted path, as `str::split('.')` yields them.
pub open spec fn split_dots(s: Seq<char>) -> Seq<Seq<char>>
    decreases s.len(),
{
    let k = first_index_of(s, '.');
    if 0 <= k < s.len() {
        seq![s.take(k)] + split_dots(s.skip(k + 1))
    } else {
        seq![s]
    }
}

/// The value reached from `v` by looking up each segment in turn.
pub open spec fn resolve_segments(v: JsonValue, segs: Seq<Seq<char>>) -> Option<JsonValue>
    decreases segs.len(),
{
    if segs.len() == 0 {
        Some(v)
    } else {
        match v.spec_get(segs[0]) {
            Some(c) => resolve_segments(c, segs.drop_first()),
            None => None,
        }
    }
}

/// The value at a dotted path below `v`.
pub open spec fn resolved(v: JsonValue, path: Seq<char>) -> Option<JsonValue> {
    resolve_segments(v, split_dots(path))
}

/// Follows a dotted path of member names below `value`.
pub fn resolve_data_path<'a>(value: &'a JsonValue, path: &str) -> (r: Option<&'a JsonValue>)
    ensures
        match r {
            Some(v) => resolved(*value, path@) == Some(*v),
            None => resolved(*value, path@) is None,
        },
{
    let chars = chars_of(path);
    let n = chars.len();
    let mut current = value;
    let mut start: usize = 0;
    assert(path@.skip(0) =~= path@);
    loop
        invariant
            chars@ == path@,
            n == chars@.len(),
            start <= n,
            resolved(*value, path@) == resolve_segments(*current, split_dots(path@.skip(start as int))),
        decreases n - start,
    {
        let ghost rest = path@.skip(start as int);
        let mut k: usize = start;
        while k < n && chars[k] != '.'
            invariant
                chars@ == path@,
                n == chars@.len(),
                start <= k <= n,
                forall|j: int| start <= j < k ==> chars@[j] != '.',
            decreases n - k,
        {
            k = k + 1;
        }
        proof {
            lemma_first_index_of(rest, '.', k - start);
            assert(rest.take(k - start) =~= path@.subrange(start as int, k as int));
        }
        let seg = path.substring_char(start, k);
        let ghost prev = *current;
        let ghost segs = split_dots(rest);
        proof {
            if k < n {
                assert(segs == seq![rest.take(k - start)] + split_dots(rest.skip(k - start + 1)));
                assert(segs.drop_first() =~= split_dots(rest.skip(k - start + 1)));
            } else {
                assert(segs == seq![rest]);
                assert(rest =~= path@.subrange(start as int, k as int));
                assert(segs.drop_first() =~= Seq::<Seq<char>>::empty());
            }
            assert(segs[0] == seg@);
        }
        match current.get(seg) {
            Some(c) => {
                current = c;
            },
            None => {
                return None;
            },
        }
        if k == n {
            assert(resolve_segments(*current, segs.drop_first()) == Some(*current));
            return Some(current);
        }
        assert(rest.skip(k - start + 1) =~= path@.skip(k + 1));
        start = k + 1;
    }
}

/// `r` is what `extract_rows` answers for a response and an optional data
/// path: the array at the path (or the response itself), or the failure.
pub open spec fn rows_outcome(
    response: JsonValue,
    data_path: Option<Seq<char>>,
    r: Result<Seq<JsonValue>, ConnectorError>,
) -> bool {
    let target = match data_path {
        Some(p) => resolved(response, p),
        None => Some(response),
    };
    match target {
        None => r matches Err(ConnectorError::InvalidRequest(m)) && m@ == "data_path '"@
            + data_path.unwrap() + "' not found in response"@,
        Some(JsonValue::Array(rows)) => r == Ok::<Seq<JsonValue>, ConnectorError>(rows@),
        Some(_) => r matches Err(ConnectorError::InvalidRequest(m)) && m@
            == "Response data is not a JSON array"@,
    }
}

/// The rows of a JSON response: the array at the data path when one is
/// given, otherwise the response itself.
pub fn extract_rows<'a>(response: &'a JsonValue, data_path: Option<&str>) -> (r: Result<
    &'a Vec<JsonValue>,
    ConnectorError,
>)
    ensures
        rows_outcome(
            *response,
            match data_path {
                Some(p) => Some(p@),
                None => None,
            },
            match r {
                Ok(v) => Ok(v@),
                Err(e) => Err(e),
            },
        ),
{
    proof {
        reveal_strlit("Response data is not a JSON array");
    }
    let target = match data_path {
        Some(path) => match resolve_data_path(response, path) {
            Some(t) => t,
            None => {
                return Err(
                    ConnectorError::InvalidRequest(
                        concat3("data_path '", path, "' not found in response"),
                    ),
                );
            },
        },
        None => response,
    };
    match target {
        JsonValue::Array(rows) => Ok(rows),
        _ => Err(ConnectorError::InvalidRequest(String::from_str("Response data is not a JSON array"))),
    }
}

/// The view of an optional string slice.
pub open spec fn opt_str_view(o: Option<&str>) -> Option<Seq<char>> {
    match o {
        Some(p) => Some(p@),
        None => None,
    }
}

/// The format that timestamps without an offset are read with.
pub const NAIVE_TIMESTAMP_FORMAT: &'static str = "%Y-%m-%dT%H:%M:%S%.f";

/// A text cell: a JSON string, or another JSON value that is written as its
/// compact JSON text.
#[derive(Debug)]
pub enum TextCell<'a> {
    Str(&'a String),
    Json(&'a JsonValue),
}

/// A column of values built from JSON. Floats keep the JSON number, which
/// is read as a float where the column is materialized.
#[derive(Debug)]
pub enum Column<'a> {
    Boolean(Vec<Option<bool>>),
    Int8(Vec<Option<i8>>),
    Int16(Vec<Option<i16>>),
    Int32(Vec<Option<i32>>),
    Int64(Vec<Option<i64>>),
    Float32(Vec<Option<JsonNumber>>),
    Float64(Vec<Option<JsonNumber>>),
    /// Milliseconds since the Unix epoch, in UTC.
    TimestampMillisecond(Vec<Option<i64>>),
    Utf8(Vec<Option<TextCell<'a>>>),
}

/// The value behind a cell.
pub open spec fn deref_cell(o: Option<&JsonValue>) -> Option<JsonValue> {
    match o {
        Some(v) => Some(*v),
        None => None,
    }
}

/// The values behind the cells of a field.
pub open spec fn cells_of(values: Seq<Option<&JsonValue>>) -> Seq<Option<JsonValue>> {
    Seq::new(values.len(), |i: int| deref_cell(values[i]))
}

/// The boolean in a cell.
pub open spec fn cell_bool(o: Option<JsonValue>) -> Option<bool> {
    match o {
        Some(JsonValue::Bool(b)) => Some(b),
        _ => None,
    }
}

/// The `i64` in a cell.
pub open spec fn cell_i64(o: Option<JsonValue>) -> Option<i64> {
    match o {
        Some(JsonValue::Number(n)) => n.spec_as_i64(),
        _ => None,
    }
}

/// The number in a cell.
pub open spec fn cell_number(o: Option<JsonValue>) -> Option<JsonNumber> {
    match o {
        Some(JsonValue::Number(n)) => Some(n),
        _ => None,
    }
}

/// The timestamp in a cell: an `i64` as is, else a string read as RFC 3339,
/// else as a date and time without offset taken in UTC.
pub open spec fn cell_timestamp(o: Option<JsonValue>) -> Option<i64> {
    match cell_i64(o) {
        Some(t) => Some(t),
        None => match o {
            Some(JsonValue::String(s)) => match spec_rfc3339_millis(s@) {
                Some(t) => Some(t),
                None => spec_naive_millis(s@, NAIVE_TIMESTAMP_FORMAT@),
            },
            _ => None,
        },
    }
}

/// The text of a cell: the characters of a string, or another value to be
/// written as JSON.
pub open spec fn cell_text(o: Option<JsonValue>) -> Option<Result<Seq<char>, JsonValue>> {
    match o {
        Some(JsonValue::String(s)) => Some(Ok(s@)),
        Some(v) => Some(Err(v)),
        None => None,
    }
}

/// The view of a text cell.
pub open spec fn text_view(c: Option<TextCell>) -> Option<Result<Seq<char>, JsonValue>> {
    match c {
        Some(TextCell::Str(s)) => Some(Ok(s@)),
        Some(TextCell::Json(v)) => Some(Err(*v)),
        None => None,
    }
}

/// `c` is the column of type `dt` built from the values `cells`.
pub open spec fn column_for(dt: DataTypeView, cells: Seq<Option<JsonValue>>, c: Column) -> bool {
    match dt {
        DataTypeView::Boolean => c matches Column::Boolean(xs) && xs@.len() == cells.len() && forall|
            i: int,
        | 0 <= i < cells.len() ==> #[trigger] xs@[i] == cell_bool(cells[i]),
        DataTypeView::Int8 => c matches Column::Int8(xs) && xs@.len() == cells.len() && forall|i: int|
            0 <= i < cells.len() ==> #[trigger] xs@[i] == match cell_i64(cells[i]) {
                Some(n) => Some(n as i8),
                None => None,
            },
        DataTypeView::Int16 => c matches Column::Int16(xs) && xs@.len() == cells.len() && forall|i: int|
            0 <= i < cells.len() ==> #[trigger] xs@[i] == match cell_i64(cells[i]) {
                Some(n) => Some(n as i16),
                None => None,
            },
        DataTypeView::Int32 => c matches Column::Int32(xs) && xs@.len() == cells.len() && forall|i: int|
            0 <= i < cells.len() ==> #[trigger] xs@[i] == match cell_i64(cells[i]) {
                Some(n) => Some(n as i32),
                None => None,
            },
        DataTypeView::Int64 => c matches Column::Int64(xs) && xs@.len() == cells.len() && forall|i: int|
            0 <= i < cells.len() ==> #[trigger] xs@[i] == cell_i64(cells[i]),
        DataTypeView::Float32 => c matches Column::Float32(xs) && xs@.len() == cells.len() && forall|
            i: int,
        | 0 <= i < cells.len() ==> #[trigger] xs@[i] == cell_number(cells[i]),
        DataTypeView::Float64 => c matches Column::Float64(xs) && xs@.len() == cells.len() && forall|
            i: int,
        | 0 <= i < cells.len() ==> #[trigger] xs@[i] == cell_number(cells[i]),
        DataTypeView::Timestamp(TimeUnit::Millisecond, _) => c matches Column::TimestampMillisecond(xs)
            && xs@.len() == cells.len() && forall|i: int|
            0 <= i < cells.len() ==> #[trigger] xs@[i] == cell_timestamp(cells[i]),
        _ => c matches Column::Utf8(xs) && xs@.len() == cells.len() && forall|i: int|
            0 <= i < cells.len() ==> text_view(#[trigger] xs@[i]) == cell_text(cells[i]),
    }
}

/// The number of cells of a column.
pub open spec fn column_len(c: Column) -> nat {
    match c {
        Column::Boolean(xs) => xs@.len(),
        Column::Int8(xs) => xs@.len(),
        Column::Int16(xs) => xs@.len(),
        Column::Int32(xs) => xs@.len(),
        Column::Int64(xs) => xs@.len(),
        Column::Float32(xs) => xs@.len(),
        Column::Float64(xs) => xs@.len(),
        Column::TimestampMillisecond(xs) => xs@.len(),
        Column::Utf8(xs) => xs@.len(),
    }
}

/// Cell `i` of a column is null.
pub open spec fn column_is_null(c: Column, i: int) -> bool {
    match c {
        Column::Boolean(xs) => xs@[i] is None,
        Column::Int8(xs) => xs@[i] is None,
        Column::Int16(xs) => xs@[i] is None,
        Column::Int32(xs) => xs@[i] is None,
        Column::Int64(xs) => xs@[i] is None,
        Column::Float32(xs) => xs@[i] is None,
        Column::Float64(xs) => xs@[i] is None,
        Column::TimestampMillisecond(xs) => xs@[i] is None,
        Column::Utf8(xs) => xs@[i] is None,
    }
}

/// The type of a column: its kind, with timestamps in milliseconds and UTC.
pub open spec fn column_type(c: Column) -> DataTypeView {
    match c {
        Column::Boolean(_) => DataTypeView::Boolean,
        Column::Int8(_) => DataTypeView::Int8,
        Column::Int16(_) => DataTypeView::Int16,
        Column::Int32(_) => DataTypeView::Int32,
        Column::Int64(_) => DataTypeView::Int64,
        Column::Float32(_) => DataTypeView::Float32,
        Column::Float64(_) => DataTypeView::Float64,
        Column::TimestampMillisecond(_) => utc_millis(),
        Column::Utf8(_) => DataTypeView::Utf8,
    }
}

/// A column built for type `dt` from `cells` has one cell per value, the type
/// that the field's type is built as, and a null exactly where the value is
/// missing or is of a kind that the type cannot take.
proof fn lemma_column_shape(dt: DataTypeView, cells: Seq<Option<JsonValue>>, c: Column)
    requires
        column_for(dt, cells, c),
    ensures
        column_len(c) == cells.len(),
        column_type(c) == built_type(dt),
        forall|i: int| 0 <= i < cells.len() ==> (#[trigger] column_is_null(c, i) <==> cell_is_null(dt, cells[i])),
{
    assert forall|i: int| 0 <= i < cells.len() implies (#[trigger] column_is_null(c, i) <==> cell_is_null(
        dt,
        cells[i],
    )) by {
        match c {
            Column::Utf8(xs) => {
                assert(text_view(xs@[i]) == cell_text(cells[i]));
            },
            Column::Boolean(xs) => {
                assert(xs@[i] == cell_bool(cells[i]));
            },
            Column::Int8(xs) => {
                assert(xs@[i] == match cell_i64(cells[i]) {
                    Some(n) => Some(n as i8),
                    None => None,
                });
            },
            Column::Int16(xs) => {
                assert(xs@[i] == match cell_i64(cells[i]) {
                    Some(n) => Some(n as i16),
                    None => None,
                });
            },
            Column::Int32(xs) => {
                assert(xs@[i] == match cell_i64(cells[i]) {
                    Some(n) => Some(n as i32),
                    None => None,
                });
            },
            Column::Int64(xs) => {
                assert(xs@[i] == cell_i64(cells[i]));
            },
            Column::Float32(xs) => {
                assert(xs@[i] == cell_number(cells[i]));
            },
            Column::Float64(xs) => {
                assert(xs@[i] == cell_number(cells[i]));
            },
            Column::TimestampMillisecond(xs) => {
                assert(xs@[i] == cell_timestamp(cells[i]));
            },
        }
    }
}

fn read_i64(o: Option<&JsonValue>) -> (r: Option<i64>)
    ensures
        r == cell_i64(deref_cell(o)),
{
    match o {
        Some(JsonValue::Number(n)) => n.as_i64(),
        _ => None,
    }
}

fn read_timestamp(o: Option<&JsonValue>) -> (r: Option<i64>)
    ensures
        r == cell_timestamp(deref_cell(o)),
{
    match read_i64(o) {
        Some(t) => Some(t),
        None => match o {
            Some(JsonValue::String(s)) => match rfc3339_millis(s.as_str()) {
                Some(t) => Some(t),
                None => naive_millis(s.as_str(), NAIVE_TIMESTAMP_FORMAT),
            },
            _ => None,
        },
    }
}

/// Builds the column of type `data_type` from the values of a field, one per
/// row (`None` where the row has no value).
pub fn json_values_to_array<'a>(data_type: &DataType, values: &[Option<&'a JsonValue>]) -> (r: Result<
    Column<'a>,
    ConnectorError,
>)
    ensures
        r matches Ok(c) && column_for(data_type@, cells_of(values@), c),
        r matches Ok(c) && column_len(c) == values@.len() && column_type(c) == built_type(data_type@),
        r matches Ok(c) && forall|i: int|
            0 <= i < values@.len() ==> (#[trigger] column_is_null(c, i) <==> cell_is_null(
                data_type@,
                deref_cell(values@[i]),
            )),
{
    let n = values.len();
    let r = match data_type {
        DataType::Boolean => {
            let mut xs: Vec<Option<bool>> = Vec::new();
            for i in 0..n
                invariant
                    n == values@.len(),
                    xs@.len() == i,
                    forall|j: int| 0 <= j < i ==> #[trigger] xs@[j] == cell_bool(deref_cell(values@[j])),
            {
                let x = match values[i] {
                    Some(JsonValue::Bool(b)) => Some(*b),
                    _ => None,
                };
                xs.push(x);
            }
            Ok(Column::Boolean(xs))
        },
        DataType::Int8 => {
            let mut xs: Vec<Option<i8>> = Vec::new();
            for i in 0..n
                invariant
                    n == values@.len(),
                    xs@.len() == i,
                    forall|j: int| 0 <= j < i ==> #[trigger] xs@[j] == match cell_i64(deref_cell(values@[j])) {
                        Some(v) => Some(v as i8),
                        None => None,
                    },
            {
                let x = match read_i64(values[i]) {
                    Some(v) => Some(v as i8),
                    None => None,
                };
                xs.push(x);
            }
            Ok(Column::Int8(xs))
        },
        DataType::Int16 => {
            let mut xs: Vec<Option<i16>> = Vec::new();
            for i in 0..n
                invariant
                    n == values@.len(),
                    xs@.len() == i,
                    forall|j: int| 0 <= j < i ==> #[trigger] xs@[j] == match cell_i64(deref_cell(values@[j])) {
                        Some(v) => Some(v as i16),
                        None => None,
                    },
            {
                let x = match read_i64(values[i]) {
                    Some(v) => Some(v as i16),
                    None => None,
                };
                xs.push(x);
            }
            Ok(Column::Int16(xs))
        },
        DataType::Int32 => {
            let mut xs: Vec<Option<i32>> = Vec::new();
            for i in 0..n
                invariant
                    n == values@.len(),
                    xs@.len() == i,
                    forall|j: int| 0 <= j < i ==> #[trigger] xs@[j] == match cell_i64(deref_cell(values@[j])) {
                        Some(v) => Some(v as i32),
                        None => None,
                    },
            {
                let x = match read_i64(values[i]) {
                    Some(v) => Some(v as i32),
                    None => None,
                };
                xs.push(x);
            }
            Ok(Column::Int32(xs))
        },
        DataType::Int64 => {
            let mut xs: Vec<Option<i64>> = Vec::new();
            for i in 0..n
                invariant
                    n == values@.len(),
                    xs@.len() == i,
                    forall|j: int| 0 <= j < i ==> #[trigger] xs@[j] == cell_i64(deref_cell(values@[j])),
            {
                xs.push(read_i64(values[i]));
            }
            Ok(Column::Int64(xs))
        },
        DataType::Float32 => {
            let mut xs: Vec<Option<JsonNumber>> = Vec::new();
            for i in 0..n
                invariant
                    n == values@.len(),
                    xs@.len() == i,
                    forall|j: int| 0 <= j < i ==> #[trigger] xs@[j] == cell_number(deref_cell(values@[j])),
            {
                let x = match values[i] {
                    Some(JsonValue::Number(v)) => Some(*v),
                    _ => None,
                };
                xs.push(x);
            }
            Ok(Column::Float32(xs))
        },
        DataType::Float64 => {
            let mut xs: Vec<Option<JsonNumber>> = Vec::new();
            for i in 0..n
                invariant
                    n == values@.len(),
                    xs@.len() == i,
                    forall|j: int| 0 <= j < i ==> #[trigger] xs@[j] == cell_number(deref_cell(values@[j])),
            {
                let x = match values[i] {
                    Some(JsonValue::Number(v)) => Some(*v),
                    _ => None,
                };
                xs.push(x);
            }
            Ok(Column::Float64(xs))
        },
        DataType::Timestamp(TimeUnit::Millisecond, _) => {
            let mut xs: Vec<Option<i64>> = Vec::new();
            for i in 0..n
                invariant
                    n == values@.len(),
                    xs@.len() == i,
                    forall|j: int| 0 <= j < i ==> #[trigger] xs@[j] == cell_timestamp(deref_cell(values@[j])),
            {
                xs.push(read_timestamp(values[i]));
            }
            Ok(Column::TimestampMillisecond(xs))
        },
        _ => {
            let mut xs: Vec<Option<TextCell<'a>>> = Vec::new();
            for i in 0..n
                invariant
                    n == values@.len(),
                    xs@.len() == i,
                    forall|j: int| 0 <= j < i ==> text_view(#[trigger] xs@[j]) == cell_text(deref_cell(values@[j])),
            {
                let x = match values[i] {
                    Some(v) => match v {
                        JsonValue::String(s) => Some(TextCell::Str(s)),
                        _ => Some(TextCell::Json(v)),
                    },
                    None => None,
                };
                xs.push(x);
            }
            Ok(Column::Utf8(xs))
        },
    };
    proof {
        if r is Ok {
            lemma_column_shape(data_type@, cells_of(values@), r->Ok_0);
        }
    }
    r
}

/// The value of a field in a row: absent when the row lacks it or holds
/// null there.
pub open spec fn field_value(row: JsonValue, name: Seq<char>) -> Option<JsonValue> {
    match row.spec_get(name) {
        Some(v) => if v is Null {
            None
        } else {
            Some(v)
        },
        None => None,
    }
}

/// The values of a field in each row.
pub open spec fn field_cells(rows: Seq<JsonValue>, name: Seq<char>) -> Seq<Option<JsonValue>> {
    Seq::new(rows.len(), |j: int| field_value(rows[j], name))
}

/// The type of the column that is built for a field of type `dt`: types
/// without a reader of their own are read as text, and timestamps in
/// milliseconds are read in UTC.
pub open spec fn built_type(dt: DataTypeView) -> DataTypeView {
    match dt {
        DataTypeView::Boolean => dt,
        DataTypeView::Int8 => dt,
        DataTypeView::Int16 => dt,
        DataTypeView::Int32 => dt,
        DataTypeView::Int64 => dt,
        DataTypeView::Float32 => dt,
        DataTypeView::Float64 => dt,
        DataTypeView::Timestamp(TimeUnit::Millisecond, _) => utc_millis(),
        _ => DataTypeView::Utf8,
    }
}

/// The column built for a field of type `dt` from `cells` holds a null.
pub open spec fn nulls_in(dt: DataTypeView, cells: Seq<Option<JsonValue>>) -> bool {
    exists|i: int|
        0 <= i < cells.len() && #[trigger] cell_is_null(dt, cells[i])
}

/// The cell built for a field of type `dt` from `o` is null.
pub open spec fn cell_is_null(dt: DataTypeView, o: Option<JsonValue>) -> bool {
    match dt {
        DataTypeView::Boolean => cell_bool(o) is None,
        DataTypeView::Int8 => cell_i64(o) is None,
        DataTypeView::Int16 => cell_i64(o) is None,
        DataTypeView::Int32 => cell_i64(o) is None,
        DataTypeView::Int64 => cell_i64(o) is None,
        DataTypeView::Float32 => cell_number(o) is None,
        DataTypeView::Float64 => cell_number(o) is None,
        DataTypeView::Timestamp(TimeUnit::Millisecond, _) => cell_timestamp(o) is None,
        _ => o is None,
    }
}

/// Field `f` is declared non-nullable but its column would hold a null.
pub open spec fn breaks_nullability(f: Field, rows: Seq<JsonValue>) -> bool {
    !f.nullable && nulls_in(f.data_type@, field_cells(rows, f.name@))
}

/// The column built for field `f` would not have the field's type.
pub open spec fn breaks_type(f: Field) -> bool {
    built_type(f.data_type@) != f.data_type@
}

/// How Arrow's `Display` writes a time unit.
pub open spec fn unit_text(u: TimeUnit) -> Seq<char> {
    match u {
        TimeUnit::Second => "s"@,
        TimeUnit::Millisecond => "ms"@,
        TimeUnit::Microsecond => "\u{b5}s"@,
        TimeUnit::Nanosecond => "ns"@,
    }
}

/// What Arrow's `Display` of `DataType::Timestamp(unit, tz)` writes:
/// `Timestamp(<unit>)`, or `Timestamp(<unit>, <tz>)` with the time zone in
/// `Debug` form (quoted and escaped).
pub uninterp spec fn spec_arrow_timestamp_text(unit: TimeUnit, tz: Option<Seq<char>>) -> Seq<char>;

/// The text of a column type, as Arrow displays its `DataType`: the name of
/// the type, and for a timestamp what Arrow writes.
pub open spec fn type_text(dt: DataTypeView) -> Seq<char> {
    match dt {
        DataTypeView::Boolean => "Boolean"@,
        DataTypeView::Int8 => "Int8"@,
        DataTypeView::Int16 => "Int16"@,
        DataTypeView::Int32 => "Int32"@,
        DataTypeView::Int64 => "Int64"@,
        DataTypeView::Float32 => "Float32"@,
        DataTypeView::Float64 => "Float64"@,
        DataTypeView::Utf8 => "Utf8"@,
        DataTypeView::Binary => "Binary"@,
        DataTypeView::Timestamp(u, tz) => spec_arrow_timestamp_text(u, tz),
    }
}

/// The failure reported when the column built for a field of type `dt`, at
/// index `i`, does not have that type.
pub open spec fn type_mismatch_message(dt: DataTypeView, i: nat) -> Seq<char> {
    "Invalid argument error: column types must match schema types, expected "@ + type_text(dt)
        + " but found "@ + type_text(built_type(dt)) + " at column index "@ + decimal(i)
}

/// Builds `arrow::datatypes::DataType::Timestamp` with the same unit and time
/// zone and calls its `Display`. Claimed: the text is a function of the unit
/// and the time zone; without a zone it is `Timestamp(<unit>)`, with one it
/// begins with `Timestamp(<unit>, ` and ends with `)`, as the arm for
/// timestamps in Arrow's `Display` writes them.
#[verifier::external_body]
fn arrow_timestamp_text(unit: TimeUnit, tz: Option<&str>) -> (r: String)
    ensures
        r@ == spec_arrow_timestamp_text(unit, opt_str_view(tz)),
        tz is None ==> r@ == "Timestamp("@ + unit_text(unit) + ")"@,
        tz is Some ==> has_prefix(r@, "Timestamp("@ + unit_text(unit) + ", "@) && has_suffix(r@, ")"@),
{
    let unit = match unit {
        TimeUnit::Second => arrow::datatypes::TimeUnit::Second,
        TimeUnit::Millisecond => arrow::datatypes::TimeUnit::Millisecond,
        TimeUnit::Microsecond => arrow::datatypes::TimeUnit::Microsecond,
        TimeUnit::Nanosecond => arrow::datatypes::TimeUnit::Nanosecond,
    };
    arrow::datatypes::DataType::Timestamp(unit, tz.map(Into::into)).to_string()
}

/// Writes a column type as Arrow displays it.
pub fn type_text_of(dt: &DataType) -> (r: String)
    ensures
        r@ == type_text(dt@),
{
    match dt {
        DataType::Boolean => String::from_str("Boolean"),
        DataType::Int8 => String::from_str("Int8"),
        DataType::Int16 => String::from_str("Int16"),
        DataType::Int32 => String::from_str("Int32"),
        DataType::Int64 => String::from_str("Int64"),
        DataType::Float32 => String::from_str("Float32"),
        DataType::Float64 => String::from_str("Float64"),
        DataType::Utf8 => String::from_str("Utf8"),
        DataType::Binary => String::from_str("Binary"),
        DataType::Timestamp(u, tz) => {
            let z = match tz {
                Some(s) => Some(s.as_str()),
                None => None,
            };
            arrow_timestamp_text(*u, z)
        },
    }
}

/// The type of the column that is built for a field of type `dt`.
fn built_type_of(dt: &DataType) -> (r: DataType)
    ensures
        r@ == built_type(dt@),
{
    match dt {
        DataType::Boolean => DataType::Boolean,
        DataType::Int8 => DataType::Int8,
        DataType::Int16 => DataType::Int16,
        DataType::Int32 => DataType::Int32,
        DataType::Int64 => DataType::Int64,
        DataType::Float32 => DataType::Float32,
        DataType::Float64 => DataType::Float64,
        DataType::Timestamp(TimeUnit::Millisecond, _) => DataType::utc_millis(),
        _ => DataType::Utf8,
    }
}

/// The failure reported for a schema without fields.
pub const NO_COLUMNS_MESSAGE: &'static str = "Invalid argument error: must either specify a row count or at least one column";

/// Rows read against a schema: one column per field, in the schema's order.
#[derive(Debug)]
pub struct RecordBatch<'a> {
    pub schema: &'a Schema,
    pub columns: Vec<Column<'a>>,
    pub num_rows: usize,
}

impl<'a> RecordBatch<'a> {
    pub fn num_rows(&self) -> (r: usize)
        ensures
            r == self.num_rows,
    {
        self.num_rows
    }

    pub fn num_columns(&self) -> (r: usize)
        ensures
            r == self.columns@.len(),
    {
        self.columns.len()
    }

    pub fn column(&self, i: usize) -> (r: &Column<'a>)
        requires
            i < self.columns@.len(),
        ensures
            *r == self.columns@[i as int],
    {
        &self.columns[i]
    }
}

/// `r` is what reading `rows` against `schema` gives: a schema without
/// fields fails; then the first field declared non-nullable whose column
/// holds a null fails; then the first field whose column cannot have its
/// type fails; otherwise each field's column is built from its values.
pub open spec fn batch_outcome(schema: Schema, rows: Seq<JsonValue>, r: Result<RecordBatch, ConnectorError>) -> bool {
    let fields = schema.fields@;
    if fields.len() == 0 {
        r matches Err(ConnectorError::SQLError(m)) && m@ == NO_COLUMNS_MESSAGE@
    } else if exists|i: int| 0 <= i < fields.len() && breaks_nullability(#[trigger] fields[i], rows) {
        exists|i: int|
            {
                &&& 0 <= i < fields.len()
                &&& breaks_nullability(#[trigger] fields[i], rows)
                &&& forall|k: int| 0 <= k < i ==> !breaks_nullability(#[trigger] fields[k], rows)
                &&& r matches Err(ConnectorError::SQLError(m))
                &&& m@ == "Invalid argument error: Column '"@ + fields[i].name@
                    + "' is declared as non-nullable but contains null values"@
            }
    } else if exists|i: int| 0 <= i < fields.len() && breaks_type(#[trigger] fields[i]) {
        exists|i: int|
            {
                &&& 0 <= i < fields.len()
                &&& breaks_type(#[trigger] fields[i])
                &&& forall|k: int| 0 <= k < i ==> !breaks_type(#[trigger] fields[k])
                &&& r matches Err(ConnectorError::SQLError(m))
                &&& m@ == type_mismatch_message(fields[i].data_type@, i as nat)
            }
    } else {
        &&& r matches Ok(b)
        &&& b.schema == schema
        &&& b.num_rows == rows.len()
        &&& b.columns@.len() == fields.len()
        &&& forall|i: int|
            0 <= i < fields.len() ==> column_for(
                fields[i].data_type@,
                field_cells(rows, fields[i].name@),
                #[trigger] b.columns@[i],
            )
    }
}

/// Whether the column holds a null.
fn column_has_null(c: &Column, Ghost(dt): Ghost<DataTypeView>, Ghost(cells): Ghost<Seq<Option<JsonValue>>>) -> (r: bool)
    requires
        column_for(dt, cells, *c),
    ensures
        r == nulls_in(dt, cells),
{
    match c {
        Column::Boolean(xs) => {
            let r = has_none(xs);
            proof {
                if r {
                    let i = choose|i: int| 0 <= i < xs@.len() && (#[trigger] xs@[i]) is None;
                    assert(cell_is_null(dt, cells[i]));
                }
                if nulls_in(dt, cells) {
                    let i = choose|i: int| 0 <= i < cells.len() && #[trigger] cell_is_null(dt, cells[i]);
                    assert(xs@[i] is None);
                }
            }
            r
        },
        Column::Int8(xs) => {
            let r = has_none(xs);
            proof {
                if r {
                    let i = choose|i: int| 0 <= i < xs@.len() && (#[trigger] xs@[i]) is None;
                    assert(cell_is_null(dt, cells[i]));
                }
                if nulls_in(dt, cells) {
                    let i = choose|i: int| 0 <= i < cells.len() && #[trigger] cell_is_null(dt, cells[i]);
                    assert(xs@[i] is None);
                }
            }
            r
        },
        Column::Int16(xs) => {
            let r = has_none(xs);
            proof {
                if r {
                    let i = choose|i: int| 0 <= i < xs@.len() && (#[trigger] xs@[i]) is None;
                    assert(cell_is_null(dt, cells[i]));
                }
                if nulls_in(dt, cells) {
                    let i = choose|i: int| 0 <= i < cells.len() && #[trigger] cell_is_null(dt, cells[i]);
                    assert(xs@[i] is None);
                }
            }
            r
        },
        Column::Int32(xs) => {
            let r = has_none(xs);
            proof {
                if r {
                    let i = choose|i: int| 0 <= i < xs@.len() && (#[trigger] xs@[i]) is None;
                    assert(cell_is_null(dt, cells[i]));
                }
                if nulls_in(dt, cells) {
                    let i = choose|i: int| 0 <= i < cells.len() && #[trigger] cell_is_null(dt, cells[i]);
                    assert(xs@[i] is None);
                }
            }
            r
        },
        Column::Int64(xs) => {
            let r = has_none(xs);
            proof {
                if r {
                    let i = choose|i: int| 0 <= i < xs@.len() && (#[trigger] xs@[i]) is None;
                    assert(cell_is_null(dt, cells[i]));
                }
                if nulls_in(dt, cells) {
                    let i = choose|i: int| 0 <= i < cells.len() && #[trigger] cell_is_null(dt, cells[i]);
                    assert(xs@[i] is None);
                }
            }
            r
        },
        Column::Float32(xs) => {
            let r = has_none(xs);
            proof {
                if r {
                    let i = choose|i: int| 0 <= i < xs@.len() && (#[trigger] xs@[i]) is None;
                    assert(cell_is_null(dt, cells[i]));
                }
                if nulls_in(dt, cells) {
                    let i = choose|i: int| 0 <= i < cells.len() && #[trigger] cell_is_null(dt, cells[i]);
                    assert(xs@[i] is None);
                }
            }
            r
        },
        Column::Float64(xs) => {
            let r = has_none(xs);
            proof {
                if r {
                    let i = choose|i: int| 0 <= i < xs@.len() && (#[trigger] xs@[i]) is None;
                    assert(cell_is_null(dt, cells[i]));
                }
                if nulls_in(dt, cells) {
                    let i = choose|i: int| 0 <= i < cells.len() && #[trigger] cell_is_null(dt, cells[i]);
                    assert(xs@[i] is None);
                }
            }
            r
        },
        Column::TimestampMillisecond(xs) => {
            let r = has_none(xs);
            proof {
                if r {
                    let i = choose|i: int| 0 <= i < xs@.len() && (#[trigger] xs@[i]) is None;
                    assert(cell_is_null(dt, cells[i]));
                }
                if nulls_in(dt, cells) {
                    let i = choose|i: int| 0 <= i < cells.len() && #[trigger] cell_is_null(dt, cells[i]);
                    assert(xs@[i] is None);
                }
            }
            r
        },
        Column::Utf8(xs) => {
            let r = has_none(xs);
            proof {
                if r {
                    let i = choose|i: int| 0 <= i < xs@.len() && xs@[i] is None;
                    assert(text_view(xs@[i]) == cell_text(cells[i]));
                    assert(cell_is_null(dt, cells[i]));
                }
                if nulls_in(dt, cells) {
                    let i = choose|i: int| 0 <= i < cells.len() && #[trigger] cell_is_null(dt, cells[i]);
                    assert(text_view(xs@[i]) == cell_text(cells[i]));
                }
            }
            r
        },
    }
}

fn has_none<T>(xs: &Vec<Option<T>>) -> (r: bool)
    ensures
        r == exists|i: int| 0 <= i < xs@.len() && (#[trigger] xs@[i]) is None,
{
    for i in 0..xs.len()
        invariant
            forall|j: int| 0 <= j < i ==> (#[trigger] xs@[j]) is Some,
    {
        if xs[i].is_none() {
            return true;
        }
    }
    false
}

/// Whether the column built for a field of type `dt` has that type.
fn keeps_type(dt: &DataType) -> (r: bool)
    ensures
        r == (built_type(dt@) == dt@),
{
    match dt {
        DataType::Timestamp(TimeUnit::Millisecond, _) => dt.same(&DataType::utc_millis()),
        DataType::Timestamp(_, _) => false,
        DataType::Binary => false,
        _ => true,
    }
}

/// Reads JSON rows against a schema into a batch of columns.
pub fn rows_to_record_batch<'a>(schema: &'a Schema, rows: &'a [JsonValue]) -> (r: Result<
    RecordBatch<'a>,
    ConnectorError,
>)
    ensures
        batch_outcome(*schema, rows@, r),
{
    let nf = schema.fields.len();
    let ghost fields = schema.fields@;
    let mut columns: Vec<Column<'a>> = Vec::new();
    for f in 0..nf
        invariant
            nf == fields.len(),
            fields == schema.fields@,
            columns@.len() == f,
            forall|i: int|
                0 <= i < f ==> column_for(
                    fields[i].data_type@,
                    field_cells(rows@, fields[i].name@),
                    #[trigger] columns@[i],
                ),
    {
        let field = &schema.fields[f];
        let mut values: Vec<Option<&'a JsonValue>> = Vec::new();
        for j in 0..rows.len()
            invariant
                values@.len() == j,
                forall|k: int| 0 <= k < j ==> deref_cell(#[trigger] values@[k]) == field_value(rows@[k], field.name@),
        {
            let v = match rows[j].get(field.name.as_str()) {
                Some(v) => if v.is_null() {
                    None
                } else {
                    Some(v)
                },
                None => None,
            };
            values.push(v);
        }
        assert(cells_of(values@) =~= field_cells(rows@, field.name@));
        match json_values_to_array(&field.data_type, values.as_slice()) {
            Ok(c) => columns.push(c),
            Err(e) => {
                return Err(e);
            },
        }
    }
    if nf == 0 {
        return Err(ConnectorError::SQLError(String::from_str(NO_COLUMNS_MESSAGE)));
    }
    for f in 0..nf
        invariant
            nf == fields.len(),
            fields == schema.fields@,
            columns@.len() == nf,
            forall|i: int|
                0 <= i < nf ==> column_for(
                    fields[i].data_type@,
                    field_cells(rows@, fields[i].name@),
                    #[trigger] columns@[i],
                ),
            forall|k: int| 0 <= k < f ==> !breaks_nullability(#[trigger] fields[k], rows@),
    {
        let field = &schema.fields[f];
        if !field.nullable && column_has_null(
            &columns[f],
            Ghost(field.data_type@),
            Ghost(field_cells(rows@, field.name@)),
        ) {
            let m = concat3(
                "Invalid argument error: Column '",
                field.name.as_str(),
                "' is declared as non-nullable but contains null values",
            );
            assert(breaks_nullability(fields[f as int], rows@));
            return Err(ConnectorError::SQLError(m));
        }
    }
    for f in 0..nf
        invariant
            nf == fields.len(),
            fields == schema.fields@,
            forall|k: int| 0 <= k < nf ==> !breaks_nullability(#[trigger] fields[k], rows@),
            forall|k: int| 0 <= k < f ==> !breaks_type(#[trigger] fields[k]),
    {
        if !keeps_type(&schema.fields[f].data_type) {
            let dt = &schema.fields[f].data_type;
            let expected = type_text_of(dt);
            let found = type_text_of(&built_type_of(dt));
            let idx = decimal_string(f as u64);
            let m = concat3(
                "Invalid argument error: column types must match schema types, expected ",
                expected.as_str(),
                " but found ",
            );
            let m = concat3(m.as_str(), found.as_str(), " at column index ");
            let m = concat2(m.as_str(), idx.as_str());
            assert(breaks_type(fields[f as int]));
            return Err(ConnectorError::SQLError(m));
        }
    }
    Ok(RecordBatch { schema, columns, num_rows: rows.len() })
}

/// Infers the schema of the rows of a JSON response: the rows are found as
/// `extract_rows` finds them, and must not be empty.
pub fn json_schema(json: &JsonValue, data_path: Option<&str>) -> (r: Result<Schema, ConnectorError>)
    ensures
        exists|x: Result<Seq<JsonValue>, ConnectorError>|
            {
                &&& #[trigger] rows_outcome(*json, opt_str_view(data_path), x)
                &&& match x {
                    Err(e) => r == Err::<Schema, ConnectorError>(e),
                    Ok(rows) => if rows.len() == 0 {
                        r matches Err(ConnectorError::NoDataError)
                    } else {
                        r matches Ok(s) && lists_map(s.fields@, schema_map(rows))
                    },
                }
            },
{
    let rows = match extract_rows(json, data_path) {
        Ok(rows) => rows,
        Err(e) => {
            return Err(e);
        },
    };
    if rows.len() == 0 {
        return Err(ConnectorError::NoDataError);
    }
    Ok(infer_schema(rows.as_slice()))
}

/// The `i`-th chunk of `batch_size` rows (the last one may be shorter).
pub open spec fn chunk(rows: Seq<JsonValue>, i: int, batch_size: int) -> Seq<JsonValue> {
    let end = if (i + 1) * batch_size <= rows.len() {
        (i + 1) * batch_size
    } else {
        rows.len() as int
    };
    rows.subrange(i * batch_size, end)
}

/// `k` chunks of `batch_size` cover `n` rows, and no fewer do.
pub open spec fn covers(n: int, batch_size: int, k: int) -> bool {
    k * batch_size >= n && (k == 0 || (k - 1) * batch_size < n)
}

/// `items` are the batches read from `rows`, `batch_size` rows at a time, up
/// to and including the first failure.
pub open spec fn batches_outcome(
    schema: Schema,
    rows: Seq<JsonValue>,
    batch_size: int,
    items: Seq<Result<RecordBatch, ConnectorError>>,
) -> bool {
    &&& forall|i: int|
        0 <= i < items.len() ==> batch_outcome(schema, chunk(rows, i, batch_size), #[trigger] items[i])
    &&& forall|i: int| 0 <= i < items.len() - 1 ==> (#[trigger] items[i]) is Ok
    &&& covers(rows.len() as int, batch_size, items.len() as int) || (items.len() > 0
        && items.last() is Err && (items.len() - 1) * batch_size < rows.len())
}

/// Reads the rows of a JSON response in batches of `batch_size` rows: the
/// items of the stream of batches, which ends at the first failure.
pub fn json_batches<'a>(
    json: &'a JsonValue,
    schema: &'a Schema,
    batch_size: usize,
    data_path: Option<&str>,
) -> (r: Vec<Result<RecordBatch<'a>, ConnectorError>>)
    requires
        batch_size > 0,
    ensures
        exists|x: Result<Seq<JsonValue>, ConnectorError>|
            {
                &&& #[trigger] rows_outcome(*json, opt_str_view(data_path), x)
                &&& match x {
                    Err(e) => r@ == seq![Err::<RecordBatch, ConnectorError>(e)],
                    Ok(rows) => batches_outcome(*schema, rows, batch_size as int, r@),
                }
            },
{
    let rows = match extract_rows(json, data_path) {
        Ok(rows) => rows,
        Err(e) => {
            let mut out: Vec<Result<RecordBatch<'a>, ConnectorError>> = Vec::new();
            out.push(Err(e));
            return out;
        },
    };
    let n = rows.len();
    let mut out: Vec<Result<RecordBatch<'a>, ConnectorError>> = Vec::new();
    let mut start: usize = 0;
    let ghost bs = batch_size as int;
    assert(rows_outcome(*json, opt_str_view(data_path), Ok(rows@)));
    assert(out@.len() * bs == 0) by (nonlinear_arith)
        requires
            out@.len() == 0,
    ;
    loop
        invariant
            rows_outcome(*json, opt_str_view(data_path), Ok(rows@)),
            n == rows@.len(),
            bs == batch_size as int,
            batch_size > 0,
            start <= n,
            start as int == out@.len() * bs,
            forall|i: int| 0 <= i < out@.len() ==> batch_outcome(*schema, chunk(rows@, i, bs), #[trigger] out@[i]),
            forall|i: int| 0 <= i < out@.len() ==> (#[trigger] out@[i]) is Ok,
        decreases n - start,
    {
        let ghost i = out@.len() as int;
        if start >= n {
            proof {
                if i > 0 {
                    assert((i - 1) * bs == i * bs - bs) by (nonlinear_arith);
                }
                assert(covers(n as int, bs, i));
                assert(batches_outcome(*schema, rows@, bs, out@));
            }
            return out;
        }
        let end = if n - start > batch_size {
            start + batch_size
        } else {
            n
        };
        proof {
            assert((i + 1) * bs == i * bs + bs) by (nonlinear_arith);
        }
        let part = vstd::slice::slice_subrange(rows.as_slice(), start, end);
        assert(part@ =~= chunk(rows@, i, bs));
        let b = rows_to_record_batch(schema, part);
        let failed = b.is_err();
        out.push(b);
        proof {
            assert forall|k: int| 0 <= k < out@.len() implies batch_outcome(
                *schema,
                chunk(rows@, k, bs),
                #[trigger] out@[k],
            ) by {
                if k < i {
                } else {
                    assert(out@[k] == b);
                }
            }
        }
        if failed {
            proof {
                assert(out@.last() is Err);
                assert(batches_outcome(*schema, rows@, bs, out@));
            }
            return out;
        }
        if end == n {
            proof {
                assert(covers(n as int, bs, i + 1));
                assert(batches_outcome(*schema, rows@, bs, out@));
            }
            return out;
        }
        start = end;
    }
}

} // verus!
