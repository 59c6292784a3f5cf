use baram::analytics::keyword_trends::{DataPoint, KeywordTrend, TrendAnalyzer, TrendError};

const NOW: i64 = 1_760_000_000;
const HOUR: i64 = 3600;

fn moving_average(trend: &KeywordTrend, timestamp: i64) -> Option<f64> {
    trend.moving_window(timestamp).map(|(sum, n)| sum as f64 / n as f64)
}

fn velocity(trend: &KeywordTrend, recent: Option<usize>) -> Result<f64, TrendError> {
    let counts = trend.recent_counts(recent)?;
    let n = counts.len() as f64;
    let sum_x: f64 = (0..counts.len()).map(|i| i as f64).sum();
    let sum_y: f64 = counts.iter().map(|&c| c as f64).sum();
    let sum_xy: f64 = counts.iter().enumerate().map(|(i, &c)| i as f64 * c as f64).sum();
    let sum_x2: f64 = (0..counts.len()).map(|i| (i * i) as f64).sum();
    let slope = (n * sum_xy - sum_x * sum_y) / (n * sum_x2 - sum_x * sum_x);
    let mean = sum_y / n;
    Ok(if mean > 0.0 { (slope / mean).clamp(-1.0, 1.0) } else { 0.0 })
}

fn spike_magnitudes(trend: &KeywordTrend, threshold: f64) -> Vec<f64> {
    let points = trend.data_points();
    let mut out = Vec::new();
    for p in points {
        if let Some(expected) = moving_average(trend, p.timestamp) {
            let magnitude = p.count as f64 / expected;
            if magnitude >= threshold {
                out.push(magnitude);
            }
        }
    }
    out
}

#[test]
fn test_keyword_trend_basic() {
    let mut trend = KeywordTrend::new("rust".to_string(), Some(3));
    trend.add_point(NOW, 10);
    trend.add_point(NOW + HOUR, 15);
    trend.add_point(NOW + 2 * HOUR, 20);
    assert_eq!(trend.len(), 3);
    assert!(!trend.is_empty());
}

#[test]
fn test_moving_average() {
    let mut trend = KeywordTrend::new("test".to_string(), Some(3));
    trend.add_point(NOW, 10);
    trend.add_point(NOW + HOUR, 20);
    trend.add_point(NOW + 2 * HOUR, 30);
    let avg = moving_average(&trend, NOW + 2 * HOUR).unwrap();
    assert!((avg - 20.0).abs() < 0.01);
}

#[test]
fn test_trend_direction() {
    let mut trend = KeywordTrend::new("rising".to_string(), Some(3));
    trend.add_point(NOW, 10);
    trend.add_point(NOW + HOUR, 20);
    trend.add_point(NOW + 2 * HOUR, 30);
    let v = velocity(&trend, None).unwrap();
    assert!(v > 0.0);
    assert!(v > 0.1);
}

#[test]
fn test_spike_detection() {
    let mut trend = KeywordTrend::new("spike".to_string(), Some(3));
    trend.add_point(NOW, 10);
    trend.add_point(NOW + HOUR, 12);
    trend.add_point(NOW + 2 * HOUR, 11);
    trend.add_point(NOW + 3 * HOUR, 50);
    trend.add_point(NOW + 4 * HOUR, 10);
    assert!(trend.len() >= 3);
    let spikes = spike_magnitudes(&trend, 2.0);
    assert!(!spikes.is_empty());
    assert!(spikes[0] >= 2.0);
}

#[test]
fn test_trend_analyzer() {
    let mut analyzer = TrendAnalyzer::new(Some(3));
    analyzer.add_observation("rust", NOW, 10);
    analyzer.add_observation("rust", NOW + HOUR, 20);
    analyzer.add_observation("python", NOW, 5);
    assert_eq!(analyzer.keywords().len(), 2);
    assert!(analyzer.get_trend("rust").is_some());
    assert!(analyzer.get_trend("python").is_some());
}

#[test]
fn test_normalize() {
    let mut trend = KeywordTrend::new("test".to_string(), Some(3));
    trend.add_point(NOW, 10);
    trend.add_point(NOW + HOUR, 50);
    trend.add_point(NOW + 2 * HOUR, 30);
    let (lo, hi) = trend.count_range().unwrap();
    let normalized: Vec<f64> = trend
        .data_points()
        .iter()
        .map(|p| (p.count - lo) as f64 / (hi - lo) as f64)
        .collect();
    assert!((normalized[0] - 0.0).abs() < 0.01);
    assert!((normalized[1] - 1.0).abs() < 0.01);
    assert!((normalized[2] - 0.5).abs() < 0.01);
}

#[test]
fn test_points_kept_in_time_order_and_replaced() {
    let mut trend = KeywordTrend::new("order".to_string(), None);
    trend.add_point(NOW + 2 * HOUR, 3);
    trend.add_point(NOW, 1);
    trend.add_point(NOW + HOUR, 2);
    trend.add_point(NOW, 7);
    assert_eq!(
        trend.data_points(),
        vec![DataPoint::new(NOW, 7), DataPoint::new(NOW + HOUR, 2), DataPoint::new(NOW + 2 * HOUR, 3)]
    );
    assert_eq!(trend.keyword(), "order");
}

#[test]
fn test_add_points_in_order() {
    let mut trend = KeywordTrend::new("batch".to_string(), Some(2));
    trend.add_points(vec![(NOW + HOUR, 4), (NOW, 2), (NOW + HOUR, 5)]);
    assert_eq!(trend.data_points(), vec![DataPoint::new(NOW, 2), DataPoint::new(NOW + HOUR, 5)]);
}

#[test]
fn test_data_range_is_inclusive() {
    let mut trend = KeywordTrend::new("range".to_string(), None);
    for h in 0..5 {
        trend.add_point(NOW + h * HOUR, h as u64);
    }
    let r = trend.data_range(NOW + HOUR, NOW + 3 * HOUR);
    assert_eq!(r.iter().map(|p| p.count).collect::<Vec<_>>(), vec![1, 2, 3]);
    assert!(trend.data_range(NOW + 10 * HOUR, NOW + 11 * HOUR).is_empty());
}

#[test]
fn test_moving_window_at_the_start_and_missing() {
    let mut trend = KeywordTrend::new("window".to_string(), Some(3));
    trend.add_point(NOW, 10);
    trend.add_point(NOW + HOUR, 20);
    trend.add_point(NOW + 2 * HOUR, 30);
    trend.add_point(NOW + 3 * HOUR, 40);
    assert_eq!(trend.moving_window(NOW), Some((10, 1)));
    assert_eq!(trend.moving_window(NOW + HOUR), Some((30, 2)));
    assert_eq!(trend.moving_window(NOW + 3 * HOUR), Some((90, 3)));
    assert_eq!(trend.moving_window(NOW + 30), None);
}

#[test]
fn test_moving_window_does_not_overflow() {
    let mut trend = KeywordTrend::new("big".to_string(), Some(2));
    trend.add_point(NOW, u64::MAX);
    trend.add_point(NOW + HOUR, u64::MAX);
    assert_eq!(trend.moving_window(NOW + HOUR), Some((2 * u64::MAX as u128, 2)));
}

#[test]
fn test_recent_counts_errors() {
    let mut trend = KeywordTrend::new("few".to_string(), Some(3));
    trend.add_point(NOW, 1);
    match trend.recent_counts(None) {
        Err(TrendError::InsufficientData(2, 1)) => {}
        other => panic!("unexpected {:?}", other),
    }
    trend.add_point(NOW + HOUR, 2);
    trend.add_point(NOW + 2 * HOUR, 3);
    match trend.recent_counts(Some(1)) {
        Err(e) => assert_eq!(e.message(), "Insufficient data points: need at least 2, got 1"),
        Ok(v) => panic!("unexpected {:?}", v),
    }
    assert_eq!(trend.recent_counts(Some(2)).unwrap(), vec![2, 3]);
    assert_eq!(trend.recent_counts(Some(10)).unwrap(), vec![1, 2, 3]);
}

#[test]
fn test_change_counts() {
    let mut trend = KeywordTrend::new("change".to_string(), None);
    trend.add_point(NOW, 0);
    trend.add_point(NOW + HOUR, 40);
    assert_eq!(trend.change_counts(NOW, NOW + HOUR).unwrap(), (0, 40));
    match trend.change_counts(NOW + HOUR, NOW) {
        Err(TrendError::InvalidTimeRange(a, b)) => {
            assert_eq!((a, b), (NOW + HOUR, NOW));
        }
        other => panic!("unexpected {:?}", other),
    }
    match trend.change_counts(0, NOW) {
        Err(TrendError::KeywordNotFound(m)) => assert_eq!(m, "No data at 1970-01-01 00:00:00 UTC"),
        other => panic!("unexpected {:?}", other),
    }
    match trend.change_counts(NOW, NOW + 2 * HOUR) {
        Err(e) => assert!(e.message().starts_with("Keyword not found: No data at 2025-10-09")),
        other => panic!("unexpected {:?}", other),
    }
}

#[test]
fn test_trend_error_messages() {
    assert_eq!(
        TrendError::InvalidTimeRange(86_400, 0).message(),
        "Invalid time range: start 1970-01-02 00:00:00 UTC is after end 1970-01-01 00:00:00 UTC"
    );
    assert_eq!(TrendError::InvalidWindowSize(0).message(), "Invalid window size: 0");
    assert_eq!(TrendError::KeywordNotFound("ai".to_string()).message(), "Keyword not found: ai");
    assert_eq!(
        TrendError::InvalidTimeRange(i64::MIN, i64::MAX).message(),
        format!("Invalid time range: start {} is after end {}", i64::MIN, i64::MAX)
    );
}

#[test]
fn test_count_range_empty_and_flat() {
    let mut trend = KeywordTrend::new("flat".to_string(), None);
    assert_eq!(trend.count_range(), None);
    trend.add_point(NOW, 5);
    trend.add_point(NOW + HOUR, 5);
    assert_eq!(trend.count_range(), Some((5, 5)));
}

#[test]
fn test_analyzer_reads_back_observations() {
    let mut analyzer = TrendAnalyzer::new(None);
    analyzer.add_observation("ai", NOW + HOUR, 3);
    analyzer.add_observation("chips", NOW, 1);
    analyzer.add_observation("ai", NOW, 2);
    assert_eq!(analyzer.keywords(), vec!["ai".to_string(), "chips".to_string()]);
    let ai = analyzer.get_trend("ai").unwrap();
    assert_eq!(ai.data_points(), vec![DataPoint::new(NOW, 2), DataPoint::new(NOW + HOUR, 3)]);
    assert!(analyzer.get_trend("quantum").is_none());
    let chips = analyzer.get_trend_mut("chips").unwrap();
    chips.add_point(NOW + HOUR, 9);
    assert_eq!(analyzer.get_trend("chips").unwrap().len(), 2);
    assert!(analyzer.get_trend_mut("quantum").is_none());
}
