use fund_helper::fund_value_model::FundValueData;
use fund_helper::pagination::merge_pages;

fn rec(date: &str, v: i64) -> FundValueData {
    FundValueData {
        date: String::from(date),
        real_value: v,
    }
}

#[test]
fn merge_keeps_ascending_page_order() {
    let pages = vec![
        (1, vec![rec("2020-01-03", 3), rec("2020-01-02", 2)]),
        (2, vec![rec("2020-01-01", 1)]),
    ];
    let merged = merge_pages(pages);
    let values: Vec<i64> = merged.iter().map(|r| r.real_value).collect();
    assert_eq!(values, vec![3, 2, 1]);
}

#[test]
fn merge_is_independent_of_completion_order() {
    // the same three pages handed over in two completion orders merge the
    // same way: ascending page index
    let in_order = vec![
        (1, vec![rec("2020-01-06", 6), rec("2020-01-05", 5)]),
        (2, vec![rec("2020-01-04", 4), rec("2020-01-03", 3)]),
        (3, vec![rec("2020-01-02", 2), rec("2020-01-01", 1)]),
    ];
    let shuffled = vec![
        (3, vec![rec("2020-01-02", 2), rec("2020-01-01", 1)]),
        (1, vec![rec("2020-01-06", 6), rec("2020-01-05", 5)]),
        (2, vec![rec("2020-01-04", 4), rec("2020-01-03", 3)]),
    ];
    let a = merge_pages(in_order);
    let b = merge_pages(shuffled);
    assert_eq!(a, b);
    let values: Vec<i64> = a.iter().map(|r| r.real_value).collect();
    assert_eq!(values, vec![6, 5, 4, 3, 2, 1]);
}

#[test]
fn merge_of_no_pages_is_empty() {
    let merged = merge_pages(Vec::new());
    assert!(merged.is_empty());
}

#[test]
fn merge_of_single_page_is_that_page() {
    let merged = merge_pages(vec![(1, vec![rec("2020-01-01", 7)])]);
    assert_eq!(merged.len(), 1);
    assert_eq!(merged[0].real_value, 7);
}
