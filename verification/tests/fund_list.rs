use fund_helper::context::FetchListContext;
use fund_helper::fund_list_model::{extract_fund_list, normalize_fund_type, FundListItem, FundType};

#[test]
fn extract_fund_list_test_extract_fund_list_pass() {
    let raw_response = r#"var r = [["000001","HXCZHH","华夏成长混合","混合型","HUAXIACHENGZHANGHUNHE"],["000002","HXCZHH","华夏成长混合(后端)","混合型","HUAXIACHENGZHANGHUNHE"]];"#;
    let expected_fund_list = vec![
        FundListItem {
            id: String::from("000001"),
            name: String::from("华夏成长混合"),
            typ: FundType::Mix,
        },
        FundListItem {
            id: String::from("000002"),
            name: String::from("华夏成长混合(后端)"),
            typ: FundType::Mix,
        },
    ];
    let fund_list = extract_fund_list(&String::from(raw_response), &FetchListContext {})
        .expect("it should be parsed correctly");
    assert_eq!(fund_list, expected_fund_list);
}

#[test]
fn extract_fund_list_test_normalize_fund_type_mixed() {
    let typ = String::from("混合型");
    let typ_enum = normalize_fund_type(&typ, &FetchListContext {}).unwrap();
    assert_eq!(typ_enum, FundType::Mix);
}

#[test]
fn extract_fund_list_test_normalize_fund_type_bond() {
    let typ = String::from("债券型");
    let typ_enum = normalize_fund_type(&typ, &FetchListContext {}).unwrap();
    assert_eq!(typ_enum, FundType::Bond);
}

#[test]
fn extract_fund_list_test_normalize_fund_type_index() {
    let typ = String::from("股票指数");
    let typ_enum = normalize_fund_type(&typ, &FetchListContext {}).unwrap();
    assert_eq!(typ_enum, FundType::Index);
}

#[test]
fn extract_fund_list_test_normalize_fund_type_stock() {
    let typ = String::from("股票型");
    let typ_enum = normalize_fund_type(&typ, &FetchListContext {}).unwrap();
    assert_eq!(typ_enum, FundType::Stock);
}

#[test]
fn extract_fund_list_test_normalize_fund_type_others() {
    let typ = String::from("理财型");
    let typ_enum = normalize_fund_type(&typ, &FetchListContext {}).unwrap();
    assert_eq!(typ_enum, FundType::NotInterested);
}

#[test]
fn fund_list_model_test_extract_fund_list_pass() {
    let raw_response = r#"var r = [["000001","HXCZHH","华夏成长混合","混合型","HUAXIACHENGZHANGHUNHE"],["000002","HXCZHH","华夏成长混合(后端)","混合型","HUAXIACHENGZHANGHUNHE"]];"#;
    let expected_fund_list = vec![
        FundListItem {
            id: String::from("000001"),
            name: String::from("华夏成长混合"),
            typ: FundType::Mix,
        },
        FundListItem {
            id: String::from("000002"),
            name: String::from("华夏成长混合(后端)"),
            typ: FundType::Mix,
        },
    ];
    match extract_fund_list(&String::from(raw_response), &FetchListContext {}) {
        Ok(fund_list) => assert_eq!(fund_list, expected_fund_list),
        Err(_) => panic!("It should be parsed correctly"),
    }
}

#[test]
fn fund_list_model_test_extract_fund_list_wrong_id() {
    let raw_response = r#"var r = [[1,"HXCZHH","华夏成长混合","混合型","HUAXIACHENGZHANGHUNHE"],["000002","HXCZHH","华夏成长混合(后端)","混合型","HUAXIACHENGZHANGHUNHE"]];"#;
    match extract_fund_list(&String::from(raw_response), &FetchListContext {}) {
        Ok(_) => panic!("It should not be parsed correctly"),
        Err(e) => assert!(e.is_type_error()),
    }
}

#[test]
fn fund_list_model_test_extract_fund_list_wrong_name() {
    let raw_response = r#"var r = [["000001","HXCZHH",123,"混合型","HUAXIACHENGZHANGHUNHE"],["000002","HXCZHH","华夏成长混合(后端)","混合型","HUAXIACHENGZHANGHUNHE"]];"#;
    match extract_fund_list(&String::from(raw_response), &FetchListContext {}) {
        Ok(_) => panic!("It should not be parsed correctly"),
        Err(e) => assert!(e.is_type_error()),
    }
}

#[test]
fn fund_list_model_test_extract_fund_list_wrong_prefix() {
    let raw_response = r#"var rr = [["000001","HXCZHH",123,"混合型","HUAXIACHENGZHANGHUNHE"],["000002","HXCZHH","华夏成长混合(后端)","混合型","HUAXIACHENGZHANGHUNHE"]];"#;
    match extract_fund_list(&String::from(raw_response), &FetchListContext {}) {
        Ok(_) => panic!("It should not be parsed correctly"),
        Err(e) => assert!(e.is_prefix_error()),
    }
}

#[test]
fn fund_list_model_test_normalize_fund_type_mixed() {
    let typ = String::from("混合型");
    match normalize_fund_type(&typ, &FetchListContext {}) {
        Ok(typ_enum) => assert_eq!(typ_enum, FundType::Mix),
        Err(_) => panic!("It should pass"),
    }
}

#[test]
fn fund_list_model_test_normalize_fund_type_bond() {
    let typ = String::from("债券型");
    match normalize_fund_type(&typ, &FetchListContext {}) {
        Ok(typ_enum) => assert_eq!(typ_enum, FundType::Bond),
        Err(_) => panic!("It should pass"),
    }
}

#[test]
fn fund_list_model_test_normalize_fund_type_index() {
    let typ = String::from("股票指数");
    match normalize_fund_type(&typ, &FetchListContext {}) {
        Ok(typ_enum) => assert_eq!(typ_enum, FundType::Index),
        Err(_) => panic!("It should pass"),
    }
}

#[test]
fn fund_list_model_test_normalize_fund_type_stock() {
    let typ = String::from("股票型");
    match normalize_fund_type(&typ, &FetchListContext {}) {
        Ok(typ_enum) => assert_eq!(typ_enum, FundType::Stock),
        Err(_) => panic!("It should pass"),
    }
}

#[test]
fn fund_list_model_test_normalize_fund_type_others() {
    let typ = String::from("理财型");
    match normalize_fund_type(&typ, &FetchListContext {}) {
        Ok(typ_enum) => assert_eq!(typ_enum, FundType::NotInterested),
        Err(_) => panic!("It should pass"),
    }
}

#[test]
fn fund_list_model_test_normalize_fund_type_error() {
    let typ = String::from("顾茗");
    match normalize_fund_type(&typ, &FetchListContext {}) {
        Ok(_) => panic!("It should fail"),
        Err(e) => assert!(e.is_type_error()),
    }
}

#[test]
fn classify_every_known_label() {
    let cases: Vec<(&str, FundType)> = vec![
        ("混合型", FundType::Mix),
        ("混合-FOF", FundType::Mix),
        ("债券型", FundType::Bond),
        ("定开债券", FundType::Bond),
        ("债券指数", FundType::Bond),
        ("联接基金", FundType::Index),
        ("股票指数", FundType::Index),
        ("QDII-指数", FundType::Index),
        ("ETF-场内", FundType::Index),
        ("QDII-ETF", FundType::Index),
        ("QDII", FundType::QDII),
        ("股票型", FundType::Stock),
        ("其他创新", FundType::Stock),
        ("股票-FOF", FundType::Stock),
        ("货币型", FundType::NotInterested),
        ("固定收益", FundType::NotInterested),
        ("理财型", FundType::NotInterested),
        ("分级杠杆", FundType::NotInterested),
        ("保本型", FundType::NotInterested),
    ];
    for (label, expected) in cases {
        let got = normalize_fund_type(label, &FetchListContext {}).unwrap();
        assert_eq!(got, expected);
    }
}

#[test]
fn classify_unknown_labels_always_error() {
    for label in ["", "mix", "混合", "股票", "QDII-", "theme park"] {
        let r = normalize_fund_type(label, &FetchListContext {});
        assert!(r.is_err());
        assert!(r.unwrap_err().is_type_error());
    }
}

#[test]
fn classifier_error_carries_label_and_context() {
    match normalize_fund_type("顾茗", &FetchListContext {}) {
        Err(fund_helper::errors::Error::FieldTypeMismatch {
            field,
            expected_type,
            actual,
            context,
        }) => {
            assert_eq!(field, "cells[3]");
            assert_eq!(expected_type, "fund type enum");
            assert_eq!(actual, "顾茗");
            assert_eq!(context, "command: fetch fund list.");
        }
        _ => panic!("It should fail with a field type mismatch"),
    }
}
