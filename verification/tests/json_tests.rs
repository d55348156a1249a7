use dch_core::error::ConnectorError;
use dch_core::json::{
    extract_rows, infer_arrow_type, infer_schema, json_batches, json_schema, json_values_to_array,
    resolve_data_path, rows_to_record_batch, Column, DataType, Field, JsonNumber, JsonValue, Schema,
    TextCell, TimeUnit,
};

fn s(x: &str) -> JsonValue {
    JsonValue::String(x.to_string())
}

fn num(n: i64) -> JsonValue {
    if n >= 0 {
        JsonValue::Number(JsonNumber::PosInt(n as u64))
    } else {
        JsonValue::Number(JsonNumber::NegInt(n))
    }
}

fn float(x: f64) -> JsonValue {
    JsonValue::Number(JsonNumber::Float(x.to_bits()))
}

fn obj(members: Vec<(&str, JsonValue)>) -> JsonValue {
    JsonValue::Object(members.into_iter().map(|(k, v)| (k.to_string(), v)).collect())
}

fn arr(items: Vec<JsonValue>) -> JsonValue {
    JsonValue::Array(items)
}

fn utc_millis() -> DataType {
    DataType::Timestamp(TimeUnit::Millisecond, Some("UTC".into()))
}

fn to_serde(v: &JsonValue) -> serde_json::Value {
    match v {
        JsonValue::Null => serde_json::Value::Null,
        JsonValue::Bool(b) => serde_json::Value::Bool(*b),
        JsonValue::Number(JsonNumber::PosInt(n)) => serde_json::Value::from(*n),
        JsonValue::Number(JsonNumber::NegInt(n)) => serde_json::Value::from(*n),
        JsonValue::Number(JsonNumber::Float(b)) => serde_json::Value::from(f64::from_bits(*b)),
        JsonValue::String(x) => serde_json::Value::String(x.clone()),
        JsonValue::Array(items) => serde_json::Value::Array(items.iter().map(to_serde).collect()),
        JsonValue::Object(members) => {
            let mut map = serde_json::Map::new();
            for (k, x) in members {
                map.insert(k.clone(), to_serde(x));
            }
            serde_json::Value::Object(map)
        },
    }
}

fn text(cell: &Option<TextCell>) -> Option<String> {
    match cell {
        Some(TextCell::Str(x)) => Some((*x).clone()),
        Some(TextCell::Json(v)) => Some(to_serde(v).to_string()),
        None => None,
    }
}

#[test]
fn test_infer_arrow_type_bool() {
    assert_eq!(infer_arrow_type(&JsonValue::Bool(true)), DataType::Boolean);
}

#[test]
fn test_infer_arrow_type_int() {
    assert_eq!(infer_arrow_type(&num(42)), DataType::Int64);
}

#[test]
fn test_infer_arrow_type_u64_above_i64_max() {
    let val = JsonValue::Number(JsonNumber::PosInt(18_446_744_073_709_551_615_u64));
    assert_eq!(infer_arrow_type(&val), DataType::Utf8);
}

#[test]
fn test_infer_arrow_type_float() {
    assert_eq!(infer_arrow_type(&float(1.23)), DataType::Float64);
}

#[test]
fn test_infer_arrow_type_string() {
    assert_eq!(infer_arrow_type(&s("hello")), DataType::Utf8);
}

#[test]
fn test_infer_arrow_type_timestamp() {
    assert_eq!(infer_arrow_type(&s("2023-11-14T22:13:20.000Z")), utc_millis());
}

#[test]
fn test_infer_arrow_type_null() {
    assert_eq!(infer_arrow_type(&JsonValue::Null), DataType::Utf8);
}

#[test]
fn test_infer_schema_basic() {
    let rows = vec![
        obj(vec![("name", s("Alice")), ("age", num(30)), ("active", JsonValue::Bool(true))]),
        obj(vec![("name", s("Bob")), ("age", num(25)), ("active", JsonValue::Bool(false))]),
    ];
    let schema = infer_schema(&rows);
    assert_eq!(schema.fields().len(), 3);
    assert_eq!(schema.field(0).name(), "active");
    assert_eq!(*schema.field(0).data_type(), DataType::Boolean);
    assert_eq!(schema.field(1).name(), "age");
    assert_eq!(*schema.field(1).data_type(), DataType::Int64);
    assert_eq!(schema.field(2).name(), "name");
    assert_eq!(*schema.field(2).data_type(), DataType::Utf8);
}

#[test]
fn test_infer_schema_sorted_alphabetically() {
    let rows = vec![obj(vec![("z", num(1)), ("a", num(2)), ("m", num(3))])];
    let schema = infer_schema(&rows);
    let names: Vec<&str> = schema.fields().iter().map(|f| f.name().as_str()).collect();
    assert_eq!(names, vec!["a", "m", "z"]);
}

#[test]
fn test_infer_schema_type_conflict_fallback() {
    let rows = vec![obj(vec![("value", num(42))]), obj(vec![("value", s("text"))])];
    let schema = infer_schema(&rows);
    assert_eq!(*schema.field(0).data_type(), DataType::Utf8);
}

#[test]
fn test_infer_schema_null_values() {
    let rows = vec![
        obj(vec![("name", JsonValue::Null), ("age", num(30))]),
        obj(vec![("name", s("Bob")), ("age", num(25))]),
    ];
    let schema = infer_schema(&rows);
    assert_eq!(*schema.field(1).data_type(), DataType::Utf8);
}

#[test]
fn test_infer_schema_empty() {
    let schema = infer_schema(&[]);
    assert_eq!(schema.fields().len(), 0);
}

#[test]
fn test_resolve_data_path() {
    let val = obj(vec![("results", obj(vec![("items", arr(vec![num(1), num(2), num(3)]))]))]);
    let items = resolve_data_path(&val, "results.items").unwrap();
    assert_eq!(to_serde(items), to_serde(&arr(vec![num(1), num(2), num(3)])));
}

#[test]
fn test_resolve_data_path_missing() {
    let val = obj(vec![("a", num(1))]);
    assert!(resolve_data_path(&val, "b.c").is_none());
}

#[test]
fn test_extract_rows_top_level_array() {
    let val = arr(vec![obj(vec![("a", num(1))]), obj(vec![("a", num(2))])]);
    let rows = extract_rows(&val, None).unwrap();
    assert_eq!(rows.len(), 2);
}

#[test]
fn test_extract_rows_with_data_path() {
    let val = obj(vec![("data", obj(vec![("rows", arr(vec![obj(vec![("x", num(1))])]))]))]);
    let rows = extract_rows(&val, Some("data.rows")).unwrap();
    assert_eq!(rows.len(), 1);
}

#[test]
fn test_extract_rows_not_array() {
    let val = obj(vec![("data", s("not an array"))]);
    assert!(extract_rows(&val, None).is_err());
}

#[test]
fn test_extract_rows_missing_path() {
    let val = obj(vec![("a", num(1))]);
    assert!(extract_rows(&val, Some("missing.path")).is_err());
}

#[test]
fn test_json_values_to_array_boolean() {
    let v_true = JsonValue::Bool(true);
    let v_false = JsonValue::Bool(false);
    let vals = vec![Some(&v_true), None, Some(&v_false)];
    let arr = json_values_to_array(&DataType::Boolean, &vals).unwrap();
    match arr {
        Column::Boolean(bool_arr) => {
            assert_eq!(bool_arr.len(), 3);
            assert!(bool_arr[0].unwrap());
            assert!(bool_arr[1].is_none());
            assert!(!bool_arr[2].unwrap());
        },
        other => panic!("unexpected {:?}", other),
    }
}

#[test]
fn test_json_values_to_array_int64() {
    let v1 = num(42);
    let v2 = num(99);
    let vals = vec![Some(&v1), Some(&v2), None];
    let arr = json_values_to_array(&DataType::Int64, &vals).unwrap();
    match arr {
        Column::Int64(int_arr) => {
            assert_eq!(int_arr[0], Some(42));
            assert_eq!(int_arr[1], Some(99));
            assert!(int_arr[2].is_none());
        },
        other => panic!("unexpected {:?}", other),
    }
}

#[test]
fn test_json_values_to_array_float64() {
    let v = float(1.23);
    let vals = vec![Some(&v), None];
    let arr = json_values_to_array(&DataType::Float64, &vals).unwrap();
    match arr {
        Column::Float64(f_arr) => {
            match f_arr[0] {
                Some(JsonNumber::Float(bits)) => assert!((f64::from_bits(bits) - 1.23).abs() < f64::EPSILON),
                other => panic!("unexpected {:?}", other),
            }
            assert!(f_arr[1].is_none());
        },
        other => panic!("unexpected {:?}", other),
    }
}

#[test]
fn test_json_values_to_array_utf8_fallback() {
    let v_str = s("hello");
    let v_obj = obj(vec![("nested", JsonValue::Bool(true))]);
    let vals = vec![Some(&v_str), Some(&v_obj), None];
    let arr = json_values_to_array(&DataType::Utf8, &vals).unwrap();
    match arr {
        Column::Utf8(str_arr) => {
            assert_eq!(text(&str_arr[0]).unwrap(), "hello");
            assert_eq!(text(&str_arr[1]).unwrap(), r#"{"nested":true}"#);
            assert!(str_arr[2].is_none());
        },
        other => panic!("unexpected {:?}", other),
    }
}

#[test]
fn test_json_values_to_array_timestamp_epoch() {
    let v = num(1700000000000_i64);
    let vals = vec![Some(&v), None];
    let arr = json_values_to_array(&utc_millis(), &vals).unwrap();
    match arr {
        Column::TimestampMillisecond(ts_arr) => {
            assert_eq!(ts_arr[0], Some(1700000000000));
            assert!(ts_arr[1].is_none());
        },
        other => panic!("unexpected {:?}", other),
    }
}

#[test]
fn test_json_values_to_array_timestamp_iso() {
    let v = s("2023-11-14T22:13:20.000Z");
    let vals = vec![Some(&v)];
    let arr = json_values_to_array(&utc_millis(), &vals).unwrap();
    match arr {
        Column::TimestampMillisecond(ts_arr) => assert_eq!(ts_arr[0], Some(1700000000000)),
        other => panic!("unexpected {:?}", other),
    }
}

fn name_value_schema() -> Schema {
    Schema::new(vec![
        Field::new("name".to_string(), DataType::Utf8, true),
        Field::new("value".to_string(), DataType::Int64, true),
    ])
}

#[test]
fn test_rows_to_record_batch() {
    let schema = name_value_schema();
    let rows = vec![obj(vec![("name", s("a")), ("value", num(1))]), obj(vec![("name", s("b")), ("value", num(2))])];
    let batch = rows_to_record_batch(&schema, &rows).unwrap();
    assert_eq!(batch.num_rows(), 2);
    assert_eq!(batch.num_columns(), 2);
    match batch.column(0) {
        Column::Utf8(name_arr) => {
            assert_eq!(text(&name_arr[0]).unwrap(), "a");
            assert_eq!(text(&name_arr[1]).unwrap(), "b");
        },
        other => panic!("unexpected {:?}", other),
    }
    match batch.column(1) {
        Column::Int64(val_arr) => {
            assert_eq!(val_arr[0], Some(1));
            assert_eq!(val_arr[1], Some(2));
        },
        other => panic!("unexpected {:?}", other),
    }
}

#[test]
fn test_rows_to_record_batch_with_nulls() {
    let schema = name_value_schema();
    let rows = vec![obj(vec![("name", s("a"))]), obj(vec![("name", s("b")), ("value", JsonValue::Null)])];
    let batch = rows_to_record_batch(&schema, &rows).unwrap();
    assert_eq!(batch.num_rows(), 2);
    match batch.column(1) {
        Column::Int64(val_arr) => {
            assert!(val_arr[0].is_none());
            assert!(val_arr[1].is_none());
        },
        other => panic!("unexpected {:?}", other),
    }
}

#[test]
fn narrow_integers_truncate_and_naive_timestamps_read_as_utc() {
    let big = num(300);
    let vals = vec![Some(&big)];
    match json_values_to_array(&DataType::Int8, &vals).unwrap() {
        Column::Int8(xs) => assert_eq!(xs[0], Some(300i64 as i8)),
        other => panic!("unexpected {:?}", other),
    }
    let naive = s("2023-11-14T22:13:20.000");
    let vals = vec![Some(&naive)];
    match json_values_to_array(&utc_millis(), &vals).unwrap() {
        Column::TimestampMillisecond(xs) => assert_eq!(xs[0], Some(1700000000000)),
        other => panic!("unexpected {:?}", other),
    }
    let seconds = DataType::Timestamp(TimeUnit::Second, None);
    match json_values_to_array(&seconds, &vals).unwrap() {
        Column::Utf8(xs) => assert_eq!(text(&xs[0]).unwrap(), "2023-11-14T22:13:20.000"),
        other => panic!("unexpected {:?}", other),
    }
}

#[test]
fn text_column_stays_text_once_types_conflict() {
    let rows = vec![
        obj(vec![("v", num(1))]),
        obj(vec![("v", s("x"))]),
        obj(vec![("v", num(2))]),
        obj(vec![("w", JsonValue::Null)]),
        obj(vec![("w", JsonValue::Bool(true))]),
    ];
    let schema = infer_schema(&rows);
    assert_eq!(*schema.field(0).data_type(), DataType::Utf8);
    assert_eq!(*schema.field(1).data_type(), DataType::Utf8);
    assert!(schema.fields().iter().all(|f| f.nullable));
}

#[test]
fn data_paths_compose() {
    let val = obj(vec![("a", obj(vec![("b", obj(vec![("c", num(7))]))]))]);
    let direct = resolve_data_path(&val, "a.b.c").unwrap();
    let step = resolve_data_path(resolve_data_path(&val, "a").unwrap(), "b.c").unwrap();
    assert_eq!(to_serde(direct), to_serde(step));
    assert!(resolve_data_path(&val, "a..c").is_none());
    assert!(resolve_data_path(&arr(vec![num(1)]), "0").is_none());
}

#[test]
fn extract_rows_messages() {
    let val = obj(vec![("a", num(1))]);
    match extract_rows(&val, Some("missing.path")) {
        Err(ConnectorError::InvalidRequest(m)) => assert_eq!(m, "data_path 'missing.path' not found in response"),
        other => panic!("unexpected {:?}", other),
    }
    match extract_rows(&val, None) {
        Err(ConnectorError::InvalidRequest(m)) => assert_eq!(m, "Response data is not a JSON array"),
        other => panic!("unexpected {:?}", other),
    }
}

#[test]
fn empty_rows_have_no_schema() {
    let val = arr(vec![]);
    assert!(matches!(json_schema(&val, None), Err(ConnectorError::NoDataError)));
    let val = arr(vec![obj(vec![("x", num(1))])]);
    let schema = json_schema(&val, None).unwrap();
    assert_eq!(schema.field(0).name(), "x");
}

#[test]
fn batches_keep_every_row_in_order() {
    let rows: Vec<JsonValue> = (0..5).map(|i| obj(vec![("n", num(i))])).collect();
    let val = arr(rows);
    let schema = Schema::new(vec![Field::new("n".to_string(), DataType::Int64, true)]);
    let items = json_batches(&val, &schema, 2, None);
    assert_eq!(items.len(), 3);
    let mut seen = Vec::new();
    for item in &items {
        let batch = item.as_ref().unwrap();
        assert!(batch.num_rows() <= 2);
        match batch.column(0) {
            Column::Int64(xs) => seen.extend(xs.iter().map(|x| x.unwrap())),
            other => panic!("unexpected {:?}", other),
        }
    }
    assert_eq!(seen, vec![0, 1, 2, 3, 4]);
}

#[test]
fn batches_stop_at_the_first_failure() {
    let val = arr(vec![obj(vec![("n", num(1))]), obj(vec![]), obj(vec![("n", num(3))])]);
    let schema = Schema::new(vec![Field::new("n".to_string(), DataType::Int64, false)]);
    let items = json_batches(&val, &schema, 1, None);
    assert_eq!(items.len(), 2);
    assert!(items[0].is_ok());
    match &items[1] {
        Err(ConnectorError::SQLError(m)) => assert_eq!(
            m,
            "Invalid argument error: Column 'n' is declared as non-nullable but contains null values"
        ),
        other => panic!("unexpected {:?}", other),
    }
    let bad = obj(vec![]);
    let items = json_batches(&bad, &schema, 1, None);
    assert_eq!(items.len(), 1);
    assert!(matches!(items[0], Err(ConnectorError::InvalidRequest(_))));
}

#[test]
fn batches_refuse_schemas_that_columns_cannot_match() {
    let rows = vec![obj(vec![("n", num(1))])];
    let empty = Schema::new(vec![]);
    match rows_to_record_batch(&empty, &rows) {
        Err(ConnectorError::SQLError(m)) => {
            assert_eq!(m, "Invalid argument error: must either specify a row count or at least one column")
        },
        other => panic!("unexpected {:?}", other),
    }
    let binary = Schema::new(vec![
        Field::new("a".to_string(), DataType::Int64, true),
        Field::new("n".to_string(), DataType::Binary, true),
    ]);
    match rows_to_record_batch(&binary, &rows) {
        Err(ConnectorError::SQLError(m)) => assert_eq!(
            m,
            "Invalid argument error: column types must match schema types, expected Binary but found Utf8 at column index 1"
        ),
        other => panic!("unexpected {:?}", other),
    }
}

#[test]
fn type_mismatch_text_is_the_one_arrow_writes() {
    let rows = vec![obj(vec![("t", num(1))])];
    let offset = Schema::new(vec![Field::new(
        "t".to_string(),
        DataType::Timestamp(TimeUnit::Millisecond, Some("+00:00".into())),
        true,
    )]);
    let arrow_schema = std::sync::Arc::new(arrow::datatypes::Schema::new(vec![arrow::datatypes::Field::new(
        "t",
        arrow::datatypes::DataType::Timestamp(arrow::datatypes::TimeUnit::Millisecond, Some("+00:00".into())),
        true,
    )]));
    let column = arrow::array::TimestampMillisecondArray::from(vec![Some(1i64)]).with_timezone("UTC");
    let arrow_err = arrow::record_batch::RecordBatch::try_new(arrow_schema, vec![std::sync::Arc::new(column)])
        .unwrap_err()
        .to_string();
    match rows_to_record_batch(&offset, &rows) {
        Err(ConnectorError::SQLError(m)) => {
            assert_eq!(m, arrow_err);
            assert_eq!(
                m,
                "Invalid argument error: column types must match schema types, expected Timestamp(ms, \"+00:00\") but found Timestamp(ms, \"UTC\") at column index 0"
            );
        },
        other => panic!("unexpected {:?}", other),
    }
    let micros = Schema::new(vec![Field::new("t".to_string(), DataType::Timestamp(TimeUnit::Microsecond, None), true)]);
    match rows_to_record_batch(&micros, &rows) {
        Err(ConnectorError::SQLError(m)) => assert_eq!(
            m,
            "Invalid argument error: column types must match schema types, expected Timestamp(\u{b5}s) but found Utf8 at column index 0"
        ),
        other => panic!("unexpected {:?}", other),
    }
}

#[test]
fn a_key_keeps_a_type_only_when_its_first_value_has_it_and_all_agree() {
    let first_null = vec![obj(vec![("k", JsonValue::Null)]), obj(vec![("k", num(1))])];
    assert_eq!(*infer_schema(&first_null).field(0).data_type(), DataType::Utf8);
    let later_null = vec![obj(vec![("k", num(1))]), obj(vec![("k", JsonValue::Null)]), obj(vec![("k", num(2))])];
    assert_eq!(*infer_schema(&later_null).field(0).data_type(), DataType::Int64);
    let disagree = vec![obj(vec![("k", num(1))]), obj(vec![("k", JsonValue::Bool(true))]), obj(vec![("k", num(2))])];
    assert_eq!(*infer_schema(&disagree).field(0).data_type(), DataType::Utf8);
    let with_non_objects = vec![num(3), obj(vec![("k", JsonValue::Bool(true))])];
    let schema = infer_schema(&with_non_objects);
    assert_eq!(schema.fields().len(), 1);
    assert_eq!(*schema.field(0).data_type(), DataType::Boolean);
}
