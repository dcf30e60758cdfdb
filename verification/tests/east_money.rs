use fund_helper::east_money::{build_value_url, fetch_all_fund_values, EastMoneyService};
use fund_helper::errors::Error;
use fund_helper::fund_value_model::{FundValueData, FundValueModel};
use fund_helper::http::{create_unknown_error, CanGetHTTP, HttpError, HttpService};

const FUND_ID: &str = "000123";

const FIVE_ROW_RESPONSE: &str = r#"var apidata={ content:"<table class='w782 comm lsjz'><thead><tr><th class='first'>净值日期</th><th>单位净值</th><th>累计净值</th><th>日增长率</th><th>申购状态</th><th>赎回状态</th><th class='tor last'>分红送配</th></tr></thead><tbody><tr><td>2020-04-24</td><td class='tor bold'>3.7510</td><td class='tor bold'>3.7510</td><td class='tor bold grn'>-1.16%</td><td>开放申购</td><td>开放赎回</td><td class='red unbold'></td></tr><tr><td>2020-04-23</td><td class='tor bold'>3.7950</td><td class='tor bold'>3.7950</td><td class='tor bold grn'>-1.07%</td><td>开放申购</td><td>开放赎回</td><td class='red unbold'></td></tr><tr><td>2020-04-22</td><td class='tor bold'>3.8360</td><td class='tor bold'>3.8360</td><td class='tor bold red'>2.48%</td><td>开放申购</td><td>开放赎回</td><td class='red unbold'></td></tr><tr><td>2020-04-21</td><td class='tor bold'>3.7430</td><td class='tor bold'>3.7430</td><td class='tor bold grn'>-1.01%</td><td>开放申购</td><td>开放赎回</td><td class='red unbold'></td></tr><tr><td>2020-04-20</td><td class='tor bold'>3.7810</td><td class='tor bold'>3.7810</td><td class='tor bold red'>0.43%</td><td>开放申购</td><td>开放赎回</td><td class='red unbold'></td></tr></table>",records:2102,pages:211,curpage:1};"#;

#[test]
fn test_fetch_success() {
    struct FakeHttpService {}
    impl CanGetHTTP for FakeHttpService {
        fn get(&self, url: &str) -> Result<String, HttpError> {
            assert_eq!(
                url,
                "http://fund.eastmoney.com/f10/F10DataApi.aspx?type=lsjz&code=000123&page=3&per=20"
            );
            Ok(String::from(FIVE_ROW_RESPONSE))
        }
    }

    let http_service = FakeHttpService {};
    let expected_fund_value_model = FundValueModel {
        curpage: 1,
        pages: 211,
        records: 2102,
        values: vec![
            FundValueData {
                date: String::from("2020-04-24"),
                real_value: 37510,
            },
            FundValueData {
                date: String::from("2020-04-23"),
                real_value: 37950,
            },
            FundValueData {
                date: String::from("2020-04-22"),
                real_value: 38360,
            },
            FundValueData {
                date: String::from("2020-04-21"),
                real_value: 37430,
            },
            FundValueData {
                date: String::from("2020-04-20"),
                real_value: 37810,
            },
        ],
    };
    let east_money_service = EastMoneyService::new(&http_service);
    let model = east_money_service.fetch_value(FUND_ID, 3).unwrap();
    assert_eq!(model, expected_fund_value_model);
}

#[test]
fn test_fetch_fail() {
    struct FakeHttpService {}
    impl CanGetHTTP for FakeHttpService {
        fn get(&self, _: &str) -> Result<String, HttpError> {
            Err(create_unknown_error(None))
        }
    }

    let http_service = FakeHttpService {};
    let east_money_service = EastMoneyService::new(&http_service);
    match east_money_service.fetch_value(FUND_ID, 2) {
        Ok(_) => panic!("the transport failed, so the fetch must fail"),
        Err(Error::MalformedPayload { context }) => assert_eq!(
            context,
            "failed to fetch url http://fund.eastmoney.com/f10/F10DataApi.aspx?type=lsjz&code=000123&page=2&per=20"
        ),
        Err(_) => panic!("a transport failure reports the url it tried"),
    }
}

#[test]
fn value_url_shape() {
    assert_eq!(
        build_value_url("012345", 17),
        "http://fund.eastmoney.com/f10/F10DataApi.aspx?type=lsjz&code=012345&page=17&per=20"
    );
}

#[test]
fn fetch_list_extracts_items() {
    struct FakeHttpService {}
    impl CanGetHTTP for FakeHttpService {
        fn get(&self, url: &str) -> Result<String, HttpError> {
            assert_eq!(url, "http://fund.eastmoney.com/js/fundcode_search.js");
            Ok(String::from(
                r#"var r = [["000001","HXCZHH","华夏成长混合","混合型","HUAXIACHENGZHANGHUNHE"]];"#,
            ))
        }
    }
    let http_service = FakeHttpService {};
    let east_money_service = EastMoneyService::new(&http_service);
    let list = east_money_service.fetch_list().unwrap();
    assert_eq!(list.len(), 1);
    assert_eq!(list[0].id, "000001");
    assert_eq!(list[0].name, "华夏成长混合");
}

#[test]
fn fetch_all_pages_merges_in_page_order() {
    // three pages, one row each; the fake answers by the page number in the
    // URL, so arrival order equals request order while the merge is by index
    struct PagedHttpService {}
    impl CanGetHTTP for PagedHttpService {
        fn get(&self, url: &str) -> Result<String, HttpError> {
            let (date, value) = if url.contains("page=1") {
                ("2020-04-24", "3.0001")
            } else if url.contains("page=2") {
                ("2020-04-23", "3.0002")
            } else {
                ("2020-04-22", "3.0003")
            };
            Ok(format!(
                r#"var apidata={{ content:"<table><tr><td>{}</td><td>x</td><td>{}</td><td>y</td></tr></table>",records:3,pages:3,curpage:1}};"#,
                date, value
            ))
        }
    }
    let http_service = PagedHttpService {};
    let east_money_service = EastMoneyService::new(&http_service);
    let values = fetch_all_fund_values(&east_money_service, FUND_ID).unwrap();
    let units: Vec<i64> = values.iter().map(|r| r.real_value).collect();
    assert_eq!(units, vec![30001, 30002, 30003]);
}

#[test]
fn http_service_constructs() {
    let _ = HttpService::new();
    let e = create_unknown_error(None);
    assert_eq!(e.msg, "Unknown http error");
    let e2 = create_unknown_error(Some("timed out"));
    assert_eq!(e2.msg, "timed out");
}
