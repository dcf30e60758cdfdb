use fund_helper::deserializer::{
    deserialize_array, deserialize_str, deserialize_u64, get_field, parse_json_string, JsonValue,
};
use fund_helper::numparse::{parse_date_string, parse_f32_from_str, parse_usize_from_str};

#[test]
fn test_parse_f32_from_str_pass() {
    let result = parse_f32_from_str("1.2150");
    match result {
        Ok(num) => {
            assert_eq!(num, 12150);
            let as_float = num as f32 / 10000.0;
            assert!((as_float - 1.2150).abs() < 1e-6, "It should be parsed without error");
        }
        Err(_) => panic!("It should be parsed without error"),
    }
}

#[test]
fn test_parse_f32_from_str_fail() {
    let result = parse_f32_from_str("s1.2150");
    match result {
        Ok(_) => panic!("It should not pass"),
        Err(e) => assert_eq!(e.message(), "Expect type 'float32' but got 's1.2150'."),
    }
}

#[test]
fn test_parse_date_string_pass() {
    let result = parse_date_string("1999-02-04");
    match result {
        Ok(date) => assert_eq!(date, 918086400),
        Err(_) => panic!("It should parse date string correctly"),
    }
}

#[test]
fn test_parse_date_string_fail() {
    let result = parse_date_string("19999-02-04");
    match result {
        Ok(_) => panic!("It should not pass"),
        Err(e) => assert_eq!(e.message(), "Expect type 'yyyy-mm-dd' but got '19999-02-04'."),
    }
}

#[test]
fn parse_date_rejects_invalid_calendar_dates() {
    for s in ["2021-02-29", "2021-13-01", "2021-00-10", "2021-04-31", "2021-1-01"] {
        assert!(parse_date_string(s).is_err(), "{} is no valid date", s);
    }
    assert_eq!(parse_date_string("2020-02-29").unwrap(), 1582934400);
    assert_eq!(parse_date_string("1970-01-01").unwrap(), 0);
    assert_eq!(parse_date_string("1969-12-31").unwrap(), -86400);
}

#[test]
fn parse_fixed_point_values() {
    assert_eq!(parse_f32_from_str("0").unwrap(), 0);
    assert_eq!(parse_f32_from_str("3").unwrap(), 30000);
    assert_eq!(parse_f32_from_str("3.7").unwrap(), 37000);
    assert_eq!(parse_f32_from_str("3.75").unwrap(), 37500);
    assert_eq!(parse_f32_from_str("-2.5").unwrap(), -25000);
    assert!(parse_f32_from_str("").is_err());
    assert!(parse_f32_from_str("1.").is_err());
    assert!(parse_f32_from_str(".5").is_err());
    assert!(parse_f32_from_str("1.23456").is_err());
}

#[test]
fn test_parse_usize_from_str() {
    assert_eq!(parse_usize_from_str("5432").unwrap(), 5432);
    assert_eq!(parse_usize_from_str("+7").unwrap(), 7);
    assert!(parse_usize_from_str("").is_err());
    assert!(parse_usize_from_str("-1").is_err());
    assert!(parse_usize_from_str("12a").is_err());
    let e = parse_usize_from_str("port").unwrap_err();
    assert_eq!(e.message(), "Expect type 'usize' but got 'port'.");
}

#[test]
fn parse_json_string_accepts_strict_json() {
    let tree = parse_json_string(&String::from(r#"{"records":2102,"name":"x"}"#), "ctx")
        .expect("valid JSON parses");
    let records = get_field(&tree, "records").expect("the field exists");
    assert_eq!(deserialize_u64(records, "records", "ctx").unwrap(), 2102);
    let name = get_field(&tree, "name").expect("the field exists");
    assert_eq!(deserialize_str(name, "name", "ctx").unwrap(), "x");
}

#[test]
fn parse_json_string_rejects_bare_keys() {
    let r = parse_json_string(&String::from("{records:2102}"), "ctx");
    assert!(r.is_err());
    assert!(r.unwrap_err().is_json_error());
}

#[test]
fn accessors_never_coerce() {
    let tree = parse_json_string(
        &String::from(r#"{"n":"2102","s":7,"neg":-1,"frac":2.5,"arr":[1,2]}"#),
        "ctx",
    )
    .expect("valid JSON parses");
    // a numeric string is not a number
    let n = get_field(&tree, "n").unwrap();
    assert!(deserialize_u64(n, "n", "ctx").is_err());
    // a number is not a string
    let s = get_field(&tree, "s").unwrap();
    assert!(deserialize_str(s, "s", "ctx").is_err());
    // a negative or fractional number is no unsigned integer
    assert!(deserialize_u64(get_field(&tree, "neg").unwrap(), "neg", "ctx").is_err());
    assert!(deserialize_u64(get_field(&tree, "frac").unwrap(), "frac", "ctx").is_err());
    // only an array node reads as an array
    let arr = deserialize_array(get_field(&tree, "arr").unwrap(), "arr", "ctx").unwrap();
    assert_eq!(arr.len(), 2);
    assert!(deserialize_array(s, "s", "ctx").is_err());
}

#[test]
fn accessor_errors_carry_field_and_repr() {
    let tree = parse_json_string(&String::from(r#"{"records":"2102"}"#), "ctx").unwrap();
    let node = get_field(&tree, "records").unwrap();
    match deserialize_u64(node, "records", "the context") {
        Err(fund_helper::errors::Error::FieldTypeMismatch {
            field,
            expected_type,
            actual,
            context,
        }) => {
            assert_eq!(field, "records");
            assert_eq!(expected_type, "u64");
            assert_eq!(actual, "\"2102\"");
            assert_eq!(context, "the context");
        }
        _ => panic!("it should fail as a field type mismatch"),
    }
}

#[test]
fn missing_field_reads_as_null() {
    let tree = parse_json_string(&String::from(r#"{"a":1}"#), "ctx").unwrap();
    assert!(get_field(&tree, "b").is_none());
    let null_node = JsonValue::Null;
    assert!(deserialize_str(&null_node, "b", "ctx").is_err());
}
