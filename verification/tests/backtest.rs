use fund_helper::backtest::{calculate_average, max, min, run_breakout_backtest};
use fund_helper::fund_value_model::FundValueData;

#[test]
fn test_average_few_numbers() {
    let nums: Vec<i64> = vec![10000, 12500, 25000, 12300, 51200];
    let got = calculate_average(&nums);
    assert_eq!(got, 22200);
    let expected: f32 = 2.22;
    assert!(((got as f32 / 10000.0) - expected).abs() < 1e-10);
}

#[test]
fn test_average_empty() {
    let nums: Vec<i64> = vec![];
    let got = calculate_average(&nums);
    let expected: f32 = 0.0;
    assert!(((got as f32) - expected).abs() < 1e-10);
}

#[test]
fn test_max() {
    let nums: Vec<i64> = vec![10000, 12500, 25000, -26500, 105000, -20000, -150000, 0];
    let got = max(&nums);
    assert_eq!(got, 105000);
    let expected: f32 = 10.5;
    assert!(((got as f32 / 10000.0) - expected).abs() < 1e-10);
}

#[test]
fn test_min() {
    let nums: Vec<i64> = vec![10000, 12500, 25000, -26500, 105000, -20000, -150000, 0];
    let got = min(&nums);
    assert_eq!(got, -150000);
    let expected: f32 = -15.0;
    assert!(((got as f32 / 10000.0) - expected).abs() < 1e-10);
}

/// Sixty daily observations: January and February of a leap year.
fn sixty_days() -> Vec<String> {
    let mut dates = Vec::new();
    for d in 1..=31 {
        dates.push(format!("2020-01-{:02}", d));
    }
    for d in 1..=29 {
        dates.push(format!("2020-02-{:02}", d));
    }
    dates
}

fn series(values: &[i64]) -> Vec<FundValueData> {
    let dates = sixty_days();
    values
        .iter()
        .enumerate()
        .map(|(i, v)| FundValueData {
            date: dates[i].clone(),
            real_value: *v,
        })
        .collect()
}

#[test]
fn breakout_scenario_one_completed_trade() {
    // flat at 1.0000 for fifty days, a clear breakout above the 50-day
    // trailing high on day 51, a drop below the 10-day trailing low on day
    // 58: exactly one completed trade
    let mut values: Vec<i64> = vec![10000; 50];
    values.extend_from_slice(&[15000; 7]);
    values.extend_from_slice(&[9000; 3]);
    assert_eq!(values.len(), 60);
    let data = series(&values);
    let outcome = run_breakout_backtest(&data, 50, 10).expect("the series is well formed");
    assert_eq!(outcome.trade_count, 1);
    assert_eq!(outcome.elapsed_seconds, 59 * 86400);
    // bought 100/1.5 = 66.66666666 shares, sold at 0.9: 59.9999 units left
    assert_eq!(outcome.final_capital, 599999);
}

#[test]
fn no_breakout_means_no_trade() {
    let values: Vec<i64> = vec![10000; 60];
    let data = series(&values);
    let outcome = run_breakout_backtest(&data, 50, 10).expect("the series is well formed");
    assert_eq!(outcome.trade_count, 0);
    assert_eq!(outcome.final_capital, 1000000);
}

#[test]
fn open_position_is_marked_to_market() {
    // breakout on day 51, no exit: the outcome is all capital nevertheless
    let mut values: Vec<i64> = vec![10000; 50];
    values.extend_from_slice(&[15000; 10]);
    let data = series(&values);
    let outcome = run_breakout_backtest(&data, 50, 10).expect("the series is well formed");
    assert_eq!(outcome.trade_count, 1);
    // 100/1.5 shares, still worth 1.5 each: 99.9999 after fixed-point floors
    assert_eq!(outcome.final_capital, 999999);
}

#[test]
fn unordered_series_is_fatal() {
    let mut data = series(&vec![10000; 60]);
    data.swap(10, 11);
    let r = run_breakout_backtest(&data, 50, 10);
    assert!(r.is_err());
    assert!(r.unwrap_err().is_json_error());
}

#[test]
fn duplicate_date_is_fatal() {
    let mut data = series(&vec![10000; 60]);
    data[11].date = data[10].date.clone();
    assert!(run_breakout_backtest(&data, 50, 10).is_err());
}

#[test]
fn empty_series_is_fatal() {
    let data: Vec<FundValueData> = Vec::new();
    assert!(run_breakout_backtest(&data, 50, 10).is_err());
}

#[test]
fn single_observation_has_no_elapsed_span() {
    let data = vec![FundValueData {
        date: String::from("2020-01-01"),
        real_value: 10000,
    }];
    let r = run_breakout_backtest(&data, 50, 10);
    assert!(r.is_err());
}

#[test]
fn malformed_date_is_fatal() {
    let mut data = series(&vec![10000; 60]);
    data[5].date = String::from("2020/01/06");
    let r = run_breakout_backtest(&data, 50, 10);
    assert!(r.is_err());
    assert!(r.unwrap_err().is_type_error());
}

#[test]
fn sell_lookback_longer_than_buy_lookback() {
    // evaluation starts at the longer of the two windows
    let mut values: Vec<i64> = vec![10000; 50];
    values.extend_from_slice(&[15000; 10]);
    let data = series(&values);
    let outcome = run_breakout_backtest(&data, 10, 50).expect("the series is well formed");
    assert_eq!(outcome.trade_count, 1);
}
