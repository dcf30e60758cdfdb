use fund_helper::context::FetchValueContext;
use fund_helper::fund_value_model::{
    extract_fund_value, extract_fund_values, parse_values, parse_values_from_rows, FundValueData,
    FundValueModel,
};

const FULL_TABLE_RESPONSE: &str = r#"var apidata={ content:"<table class='w782 comm lsjz'><thead><tr><th class='first'>净值日期</th><th>单位净值</th><th>累计净值</th><th>日增长率</th><th>申购状态</th><th>赎回状态</th><th class='tor last'>分红送配</th></tr></thead><tbody><tr><td>2020-04-24</td><td class='tor bold'>3.7510</td><td class='tor bold'>3.7510</td><td class='tor bold grn'>-1.16%</td><td>开放申购</td><td>开放赎回</td><td class='red unbold'></td></tr><tr><td>2020-04-23</td><td class='tor bold'>3.7950</td><td class='tor bold'>3.7950</td><td class='tor bold grn'>-1.07%</td><td>开放申购</td><td>开放赎回</td><td class='red unbold'></td></tr></tbody></table>",records:2102,pages:211,curpage:1};"#;

fn expected_two_row_model() -> FundValueModel {
    FundValueModel {
        curpage: 1,
        pages: 211,
        records: 2102,
        values: vec![
            FundValueData {
                date: String::from("2020-04-24"),
                real_value: 37510,
            },
            FundValueData {
                date: String::from("2020-04-23"),
                real_value: 37950,
            },
        ],
    }
}

#[test]
fn extract_fund_values_test_deserialize_fund_value() {
    let raw_response = String::from(FULL_TABLE_RESPONSE);
    let context = FetchValueContext {
        id: String::from("id"),
        page: 0,
    };
    let maybe_model = extract_fund_values(&raw_response, &context);
    match maybe_model {
        Ok(model) => assert_eq!(model, expected_two_row_model()),
        Err(e) => panic!("{}", error_kind(&e)),
    }
}

fn error_kind(e: &fund_helper::errors::Error) -> &'static str {
    if e.is_prefix_error() {
        "prefix mismatch"
    } else if e.is_json_error() {
        "malformed payload"
    } else {
        "field type mismatch"
    }
}

#[test]
fn extract_fund_values_test_deserialize_fund_value_with_json_error() {
    let raw_response =
        String::from(r#"var apidata={ content:json content,records:2102,pages:211,curpage:1};"#);
    let context = FetchValueContext {
        id: String::from("id"),
        page: 0,
    };
    let maybe_model = extract_fund_values(&raw_response, &context);
    match maybe_model {
        Ok(_) => panic!("it should fail"),
        Err(e) => assert!(e.is_json_error()),
    }
}

#[test]
fn extract_fund_values_test_deserialize_fund_value_with_type_error() {
    let raw_response =
        String::from(r#"var apidata={ content: "json content",records:"2102",pages:211,curpage:1};"#);
    let context = FetchValueContext {
        id: String::from("id"),
        page: 0,
    };
    let maybe_model = extract_fund_values(&raw_response, &context);
    match maybe_model {
        Ok(_) => panic!("it should fail"),
        Err(e) => assert!(e.is_type_error()),
    }
}

#[test]
fn extract_fund_values_test_deserialize_fund_value_with_wrong_response() {
    let raw_response = String::from("var _apidata={};");
    let context = FetchValueContext {
        id: String::from("id"),
        page: 0,
    };
    let maybe_model = extract_fund_values(&raw_response, &context);
    match maybe_model {
        Ok(_) => panic!("it should fail"),
        Err(e) => assert!(e.is_prefix_error()),
    }
}

#[test]
fn fund_value_model_test_deserialize_fund_value() {
    let raw_response = String::from(FULL_TABLE_RESPONSE);
    let maybe_model = extract_fund_value(&raw_response);
    match maybe_model {
        Ok(model) => assert_eq!(model, expected_two_row_model()),
        Err(e) => panic!("{}", error_kind(&e)),
    }
}

#[test]
fn fund_value_model_test_deserialize_fund_value_with_json_error() {
    let raw_response =
        String::from(r#"var apidata={ content:json content,records:2102,pages:211,curpage:1};"#);
    let maybe_model = extract_fund_value(&raw_response);
    match maybe_model {
        Ok(_) => panic!("it should fail"),
        Err(e) => assert!(e.is_json_error(), "it should be failed with a payload error"),
    }
}

#[test]
fn fund_value_model_test_deserialize_fund_value_with_type_error() {
    let raw_response =
        String::from(r#"var apidata={ content: "json content",records:"2102",pages:211,curpage:1};"#);
    let maybe_model = extract_fund_value(&raw_response);
    match maybe_model {
        Ok(_) => panic!("it should fail"),
        Err(e) => assert!(e.is_type_error(), "it should be failed with a type error"),
    }
}

#[test]
fn fund_value_model_test_deserialize_fund_value_with_wrong_response() {
    let raw_response = String::from("var _apidata={};");
    let maybe_model = extract_fund_value(&raw_response);
    match maybe_model {
        Ok(_) => panic!("it should fail"),
        Err(e) => assert!(e.is_prefix_error(), "it should be failed with a prefix error"),
    }
}

#[test]
fn table_scenario_two_rows_in_source_order() {
    // the concrete scenario of the minimal payload: two qualifying rows,
    // page counters 2102/211/1
    let raw = String::from(
        r#"var apidata={ content:"<table><tr><td>2020-04-24</td><td>x</td><td>3.7510</td><td>y</td></tr><tr><td>2020-04-23</td><td>x</td><td>3.7950</td><td>y</td></tr></table>",records:2102,pages:211,curpage:1};"#,
    );
    let model = extract_fund_value(&raw).expect("the payload is well formed");
    assert_eq!(model.records, 2102);
    assert_eq!(model.pages, 211);
    assert_eq!(model.curpage, 1);
    assert_eq!(model.values.len(), 2);
    assert_eq!(model.values[0].date, "2020-04-24");
    assert_eq!(model.values[0].real_value, 37510);
    assert_eq!(model.values[1].date, "2020-04-23");
    assert_eq!(model.values[1].real_value, 37950);
}

#[test]
fn table_with_short_row_is_rejected_whole() {
    let html = "<table><tr><td>2020-04-24</td><td>x</td><td>3.7510</td><td>y</td></tr><tr><td>2020-04-23</td></tr></table>";
    let r = parse_values(html, "ctx");
    assert!(r.is_err());
    assert!(r.unwrap_err().is_json_error());
}

#[test]
fn table_with_bad_date_is_rejected() {
    let html = "<table><tr><td>2020-4-24</td><td>x</td><td>3.7510</td><td>y</td></tr></table>";
    match parse_values(html, "ctx") {
        Err(fund_helper::errors::Error::FieldTypeMismatch { field, actual, .. }) => {
            assert_eq!(field, "cells[0]");
            assert_eq!(actual, "2020-4-24");
        }
        _ => panic!("it should fail on the date cell"),
    }
}

#[test]
fn table_with_bad_value_is_rejected() {
    let html = "<table><tr><td>2020-04-24</td><td>x</td><td>s3.7510</td><td>y</td></tr></table>";
    match parse_values(html, "ctx") {
        Err(fund_helper::errors::Error::FieldTypeMismatch { field, actual, .. }) => {
            assert_eq!(field, "cells[2]");
            assert_eq!(actual, "s3.7510");
        }
        _ => panic!("it should fail on the value cell"),
    }
}

#[test]
fn table_without_data_rows_is_rejected() {
    let r = parse_values("<p>no table here</p>", "ctx");
    assert!(r.is_err());
    assert!(r.unwrap_err().is_json_error());
}

#[test]
fn header_only_rows_are_skipped_but_table_needs_data() {
    // a thead row has no td cells: skipped, and the table then has no data
    let r = parse_values("<table><tr><th>a</th><th>b</th></tr></table>", "ctx");
    assert!(r.is_err());
}

#[test]
fn rows_conversion_counts_qualifying_rows() {
    let rows: Vec<Vec<String>> = vec![
        vec![],
        vec![
            String::from("2021-01-04"),
            String::from("x"),
            String::from("1.2000"),
            String::from("y"),
        ],
        vec![],
        vec![
            String::from("2021-01-05"),
            String::from("x"),
            String::from("1.2500"),
            String::from("y"),
        ],
    ];
    let values = parse_values_from_rows(&rows, "ctx").expect("both data rows qualify");
    assert_eq!(values.len(), 2);
    assert_eq!(values[0].date, "2021-01-04");
    assert_eq!(values[0].real_value, 12000);
    assert_eq!(values[1].date, "2021-01-05");
    assert_eq!(values[1].real_value, 12500);
}
