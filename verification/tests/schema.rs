use tabq::literals::is_float_text;
use tabq::literals::materialize_bool;
use tabq::literals::materialize_i64;
use tabq::schema::DataType;
use tabq::schema::Field;
use tabq::schema::TypeInferer;

fn owned(rows: Vec<Vec<&str>>) -> Vec<Vec<String>> {
    rows.into_iter()
        .map(|r| r.into_iter().map(|s| s.to_string()).collect())
        .collect()
}

fn headers(names: Vec<&str>) -> Vec<String> {
    names.into_iter().map(|s| s.to_string()).collect()
}

#[test]
fn test_infer_fields() {
    let inferer = TypeInferer::new();
    let headers = headers(vec!["field_1", "field_2", "field_3", "field_4"]);
    let rows = owned(vec![
        vec!["1", "2", "", "true"],
        vec!["4.5", "abc", "6", "false"],
        vec!["7", "8", "9", "true"],
    ]);
    let fields = inferer.infer_fields(&headers, &rows);
    let expected_fields = vec![
        Field { name: "field_1".to_string(), data_type: DataType::Float64, nullable: false },
        Field { name: "field_2".to_string(), data_type: DataType::Utf8, nullable: false },
        Field { name: "field_3".to_string(), data_type: DataType::Int64, nullable: true },
        Field { name: "field_4".to_string(), data_type: DataType::Boolean, nullable: false },
    ];
    assert_eq!(fields.len(), 4);
    for (i, field) in fields.iter().enumerate() {
        assert_eq!(field.name, expected_fields[i].name);
        assert_eq!(field.data_type, expected_fields[i].data_type);
        assert_eq!(field.nullable, expected_fields[i].nullable);
    }
}

#[test]
fn test_all_empty_column_is_string_and_nullable() {
    let inferer = TypeInferer::new();
    let headers = headers(vec!["only"]);
    let rows = owned(vec![vec![""], vec![""], vec![""]]);
    let fields = inferer.infer_fields(&headers, &rows);
    assert_eq!(fields.len(), 1);
    assert_eq!(fields[0].data_type, DataType::Utf8);
    assert!(fields[0].nullable);
}

#[test]
fn test_integer_boolean_mix_is_string() {
    let inferer = TypeInferer::new();
    let headers = headers(vec!["mix"]);
    let rows = owned(vec![vec!["1"], vec!["true"], vec!["2"]]);
    let fields = inferer.infer_fields(&headers, &rows);
    assert_eq!(fields[0].data_type, DataType::Utf8);
    assert!(!fields[0].nullable);
}

#[test]
fn test_rows_beyond_peek_window_are_ignored() {
    let inferer = TypeInferer::new();
    let headers = headers(vec!["n"]);
    let mut rows: Vec<Vec<String>> = Vec::new();
    for _ in 0..30 {
        rows.push(vec!["7".to_string()]);
    }
    rows.push(vec!["not a number".to_string()]);
    let fields = inferer.infer_fields(&headers, &rows);
    assert_eq!(fields[0].data_type, DataType::Int64);
    assert!(!fields[0].nullable);
}

#[test]
fn test_boolean_needs_exact_literals() {
    let inferer = TypeInferer::new();
    let headers = headers(vec!["b1", "b2"]);
    let rows = owned(vec![vec!["true", "TRUE"], vec!["false", "False"]]);
    let fields = inferer.infer_fields(&headers, &rows);
    assert_eq!(fields[0].data_type, DataType::Boolean);
    assert_eq!(fields[1].data_type, DataType::Utf8);
}

#[test]
fn test_integer_overflow_classifies_as_float() {
    let inferer = TypeInferer::new();
    let headers = headers(vec!["big", "fits"]);
    let rows = owned(vec![
        vec!["9223372036854775808", "9223372036854775807"],
        vec!["1", "-9223372036854775808"],
    ]);
    let fields = inferer.infer_fields(&headers, &rows);
    assert_eq!(fields[0].data_type, DataType::Float64);
    assert_eq!(fields[1].data_type, DataType::Int64);
}

#[test]
fn test_float_literal_shapes() {
    for ok in [
        "1", "+1", "-1", "4.5", "5.", ".5", "1e5", "1E5", "1.25e-3", "-2.5E+10", "inf", "-inf",
        "Infinity", "NaN", "nan",
    ] {
        assert!(is_float_text(ok), "expected a float literal: {ok}");
    }
    for bad in [
        "", ".", "e5", "1e", "1e+", "+", "-", "1.2.3", "1e5e5", "0x10", "1_000", " 1", "1 ",
        "infin", "nanna", "1,5",
    ] {
        assert!(!is_float_text(bad), "expected no float literal: {bad}");
    }
}

#[test]
fn test_materialize_integer_falls_back_to_zero() {
    assert_eq!(materialize_i64("42"), 42);
    assert_eq!(materialize_i64("-7"), -7);
    assert_eq!(materialize_i64("+13"), 13);
    assert_eq!(materialize_i64("not a number"), 0);
    assert_eq!(materialize_i64(""), 0);
    assert_eq!(materialize_i64("9223372036854775808"), 0);
}

#[test]
fn test_materialize_boolean_falls_back_to_false() {
    assert!(materialize_bool("true"));
    assert!(!materialize_bool("false"));
    assert!(!materialize_bool("TRUE"));
    assert!(!materialize_bool(""));
}
