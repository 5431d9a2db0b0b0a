use stock_ta::rsi;
use stock_ta::types::IndicatorError;
use stock_ta::types::Ratio;
use stock_ta::types::DEFAULT_PERIOD;

#[test]
fn default_period_is_fourteen() {
    assert_eq!(DEFAULT_PERIOD, 14);
}

fn close_to(r: Ratio, expected: f64) -> bool {
    let v: f64 = r.num as f64 / r.den as f64;
    (v - expected).abs() < 1e-4
}

#[test]
fn rsi_test_run_simple() {
    let prices: Vec<i64> = vec![10, 12, 15, 13, 18, 10, 12, 15, 13, 18, 10, 12, 15, 13, 18];
    let out: Vec<Ratio> = rsi::run(&prices, 14).unwrap();
    assert_eq!(out.len(), 1);
    assert_eq!(out[0], Ratio { num: 3000, den: 52 });
    assert!(close_to(out[0], 57.69231));
}

#[test]
fn rsi_test_run_complex() {
    let prices: Vec<i64> = vec![10, 12, 15, 13, 18, 10, 12, 15, 13, 18, 10, 12, 15, 13, 18, 10];
    let out: Vec<Ratio> = rsi::run(&prices, 14).unwrap();
    assert_eq!(out.len(), 2);
    assert_eq!(out[0], Ratio { num: 3000, den: 52 });
    assert_eq!(out[1], Ratio { num: 39000, den: 788 });
    assert!(close_to(out[0], 57.69231));
    assert!(close_to(out[1], 49.492382));
}

#[test]
fn test_run_random() {
    let prices: Vec<i64> = vec![
        5, 10, 11, 6, 5, 42, 33, 1, 5, 10, 11, 6, 5, 42, 33, 1, 5, 10, 11, 6, 5, 42, 33, 1,
    ];
    let expected: Vec<f64> = vec![
        59.210526, 48.267326, 49.52316, 51.120464, 51.451355, 49.641834, 49.268627, 60.9628,
        57.491276, 47.199604,
    ];
    let out: Vec<Ratio> = rsi::run(&prices, 14).unwrap();
    assert_eq!(out.len(), expected.len());
    for (r, e) in out.iter().zip(expected.iter()) {
        assert!(close_to(*r, *e));
    }
}

#[test]
fn rsi_empty_input_reports_insufficient_data() {
    let prices: Vec<i64> = vec![];
    let err: IndicatorError = rsi::run(&prices, 14).unwrap_err();
    assert_eq!(err, IndicatorError::InsufficientData { received: 0, required: 15 });
}

#[test]
fn rsi_fourteen_prices_are_still_too_few() {
    let prices: Vec<i64> = vec![10, 12, 15, 13, 18, 10, 12, 15, 13, 18, 10, 12, 15, 13];
    let err: IndicatorError = rsi::run(&prices, 14).unwrap_err();
    assert_eq!(err, IndicatorError::InsufficientData { received: 14, required: 15 });
}

#[test]
fn rsi_length_is_input_length_minus_period() {
    let prices: Vec<i64> = vec![5, 10, 11, 6, 5, 42, 33, 1, 5, 10, 11, 6, 5, 42, 33, 1, 5, 10, 11, 6];
    let out: Vec<Ratio> = rsi::run(&prices, 14).unwrap();
    assert_eq!(out.len(), prices.len() - 14);
}

#[test]
fn rsi_boundary_value_is_the_initial_averages_ratio() {
    let prices: Vec<i64> = vec![10, 12, 15, 13, 18, 10, 12, 15, 13, 18, 10, 12, 15, 13, 18];
    let mut gain_total: i128 = 0;
    let mut loss_total: i128 = 0;
    for i in 1usize..15 {
        let d: i64 = prices[i] - prices[i - 1];
        if d > 0 {
            gain_total += d as i128;
        } else {
            loss_total += (-d) as i128;
        }
    }
    let out: Vec<Ratio> = rsi::run(&prices, 14).unwrap();
    assert_eq!(out.len(), 1);
    assert_eq!(out[0].num, 100 * gain_total);
    assert_eq!(out[0].den, gain_total + loss_total);
}

#[test]
fn rsi_values_stay_within_zero_and_one_hundred() {
    let prices: Vec<i64> = vec![
        5, 10, 11, 6, 5, 42, 33, 1, 5, 10, 11, 6, 5, 42, 33, 1, 5, 10, 11, 6, 5, 42, 33, 1,
    ];
    let out: Vec<Ratio> = rsi::run(&prices, 14).unwrap();
    for r in out.iter() {
        assert!(r.den > 0);
        assert!(r.num >= 0);
        assert!(r.num <= 100 * r.den);
    }
}

#[test]
fn rsi_flat_prices_report_a_degenerate_window() {
    let prices: Vec<i64> = vec![7; 15];
    let err: IndicatorError = rsi::run(&prices, 14).unwrap_err();
    assert_eq!(err, IndicatorError::DegenerateWindow { index: 0 });
}

#[test]
fn rsi_extreme_swings_report_value_too_large() {
    let mut prices: Vec<i64> = Vec::new();
    for i in 0usize..40 {
        if i % 2 == 0 {
            prices.push(i64::MIN);
        } else {
            prices.push(i64::MAX);
        }
    }
    let err: IndicatorError = rsi::run(&prices, 14).unwrap_err();
    assert_eq!(err, IndicatorError::ValueTooLarge);
}

#[test]
fn rsi_supports_other_periods() {
    let prices: Vec<i64> = vec![1, 2, 3];
    let out: Vec<Ratio> = rsi::run(&prices, 2).unwrap();
    assert_eq!(out.len(), 1);
    assert_eq!(out[0], Ratio { num: 200, den: 2 });
    let err: IndicatorError = rsi::run(&prices, 3).unwrap_err();
    assert_eq!(err, IndicatorError::InsufficientData { received: 3, required: 4 });
}

#[test]
fn rsi_is_scale_free() {
    let prices: Vec<i64> = vec![10, 12, 15, 13, 18, 10, 12, 15, 13, 18, 10, 12, 15, 13, 18, 10];
    let scaled: Vec<i64> = prices.iter().map(|&v| v * 1000).collect();
    let out: Vec<Ratio> = rsi::run(&prices, 14).unwrap();
    let out_scaled: Vec<Ratio> = rsi::run(&scaled, 14).unwrap();
    assert_eq!(out.len(), out_scaled.len());
    for (r, s) in out.iter().zip(out_scaled.iter()) {
        assert_eq!(r.num * s.den, s.num * r.den);
    }
}
