use stock_ta::stochastic_oscillator;
use stock_ta::types::IndicatorError;
use stock_ta::types::OhlcSample;
use stock_ta::types::Ratio;

fn sample(close: i64, low: i64, high: i64) -> OhlcSample {
    OhlcSample { close, low, high }
}

fn close_to(r: Ratio, expected: f64) -> bool {
    let v: f64 = r.num as f64 / r.den as f64;
    (v - expected).abs() < 1e-4
}

fn alternating(n: usize) -> Vec<OhlcSample> {
    let mut s: Vec<OhlcSample> = Vec::new();
    for i in 0usize..n {
        if i % 2 == 0 {
            s.push(sample(15, 10, 20));
        } else {
            s.push(sample(18, 13, 22));
        }
    }
    s
}

fn six_session_cycle(n: usize) -> Vec<OhlcSample> {
    let cycle: Vec<OhlcSample> = vec![
        sample(15, 10, 20),
        sample(18, 13, 22),
        sample(18, 10, 19),
        sample(21, 13, 22),
        sample(12, 10, 32),
        sample(14, 13, 27),
    ];
    let mut s: Vec<OhlcSample> = Vec::new();
    for i in 0usize..n {
        s.push(cycle[i % 6]);
    }
    s
}

#[test]
fn stochastic_oscillator_test_run_simple() {
    let prices: Vec<OhlcSample> = alternating(14);
    let out: Vec<Ratio> = stochastic_oscillator::run(&prices, 14).unwrap();
    assert_eq!(out.len(), 1);
    assert_eq!(out[0], Ratio { num: 800, den: 12 });
    assert!(close_to(out[0], 66.66667));
}

#[test]
fn stochastic_oscillator_test_run_complex() {
    let prices: Vec<OhlcSample> = six_session_cycle(18);
    let expected: Vec<f64> = vec![36.363636, 36.363636, 50.0, 9.090909, 18.181818];
    let out: Vec<Ratio> = stochastic_oscillator::run(&prices, 14).unwrap();
    assert_eq!(out.len(), expected.len());
    for (r, e) in out.iter().zip(expected.iter()) {
        assert_eq!(r.den, 22);
        assert!(close_to(*r, *e));
    }
}

#[test]
fn stochastic_single_sample_reports_insufficient_data() {
    let prices: Vec<OhlcSample> = vec![sample(10, 10, 10)];
    let err: IndicatorError = stochastic_oscillator::run(&prices, 14).unwrap_err();
    assert_eq!(err, IndicatorError::InsufficientData { received: 1, required: 14 });
}

#[test]
fn stochastic_length_is_input_length_minus_period_plus_one() {
    let prices: Vec<OhlcSample> = six_session_cycle(20);
    let out: Vec<Ratio> = stochastic_oscillator::run(&prices, 14).unwrap();
    assert_eq!(out.len(), prices.len() - 14 + 1);
}

#[test]
fn stochastic_values_stay_within_zero_and_one_hundred() {
    let prices: Vec<OhlcSample> = six_session_cycle(25);
    let out: Vec<Ratio> = stochastic_oscillator::run(&prices, 14).unwrap();
    for r in out.iter() {
        assert!(r.den > 0);
        assert!(r.num >= 0);
        assert!(r.num <= 100 * r.den);
    }
}

#[test]
fn stochastic_flat_window_reports_a_degenerate_window() {
    let mut prices: Vec<OhlcSample> = Vec::new();
    for _ in 0usize..14 {
        prices.push(sample(10, 10, 10));
    }
    let err: IndicatorError = stochastic_oscillator::run(&prices, 14).unwrap_err();
    assert_eq!(err, IndicatorError::DegenerateWindow { index: 0 });
}

#[test]
fn stochastic_supports_other_periods() {
    let prices: Vec<OhlcSample> = vec![sample(5, 1, 9)];
    let out: Vec<Ratio> = stochastic_oscillator::run(&prices, 1).unwrap();
    assert_eq!(out.len(), 1);
    assert_eq!(out[0], Ratio { num: 400, den: 8 });
}

#[test]
fn stochastic_linear_refinement_matches_the_naive_rescan() {
    // A mixed bag of inputs: varied lengths and periods, plus a
    // pseudo-random series from a small linear congruential generator.
    let mut state: u64 = 12345;
    let mut random: Vec<OhlcSample> = Vec::new();
    for _ in 0usize..200 {
        state = state.wrapping_mul(6364136223846793005).wrapping_add(1442695040888963407);
        let mid: i64 = (state % 1000) as i64;
        state = state.wrapping_mul(6364136223846793005).wrapping_add(1442695040888963407);
        let spread: i64 = (state % 50) as i64;
        random.push(sample(mid, mid - spread, mid + spread + 1));
    }
    let cases: Vec<(Vec<OhlcSample>, usize)> = vec![
        (alternating(14), 14),
        (six_session_cycle(18), 14),
        (six_session_cycle(30), 7),
        (six_session_cycle(31), 5),
        (random.clone(), 14),
        (random.clone(), 1),
        (random.clone(), 97),
        (random.clone(), 200),
        (vec![sample(10, 10, 10)], 14),
        (vec![sample(10, 10, 10); 20], 14),
    ];
    for (prices, period) in cases.iter() {
        let naive = stochastic_oscillator::run(prices, *period);
        let linear = stochastic_oscillator::run_linear(prices, *period);
        assert_eq!(naive, linear);
    }
}

#[test]
fn stochastic_matches_a_naive_window_rescan() {
    let prices: Vec<OhlcSample> = six_session_cycle(30);
    let period: usize = 14;
    let out: Vec<Ratio> = stochastic_oscillator::run(&prices, period).unwrap();
    assert_eq!(out.len(), prices.len() - period + 1);
    for k in 0usize..out.len() {
        let window: &[OhlcSample] = &prices[k..k + period];
        let mut low14: i64 = window[period - 1].low;
        let mut high14: i64 = window[period - 1].high;
        for s in window.iter() {
            if s.low < low14 {
                low14 = s.low;
            }
            if s.high > high14 {
                high14 = s.high;
            }
        }
        let close: i64 = window[period - 1].close;
        let expected = Ratio {
            num: 100 * (close as i128 - low14 as i128),
            den: high14 as i128 - low14 as i128,
        };
        assert_eq!(out[k], expected);
    }
}
