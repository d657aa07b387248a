use cpml::numeric::Real;
use cpml::rate_state::{rate_span, update_rate_state, RegionHistory};
use cpml::time::{parse_datetime, DateTime};

fn num(x: f64) -> Real {
    Real { bits: x.to_bits() }
}

fn day(d: &str) -> DateTime {
    parse_datetime(d).unwrap()
}

fn values(h: &[(DateTime, Real)]) -> Vec<f64> {
    h.iter().map(|(_, v)| f64::from_bits(v.bits)).collect()
}

#[test]
fn histories_keep_the_window() {
    let mut state: Vec<RegionHistory> = vec![];
    let days = ["2026-01-01", "2026-01-02", "2026-01-03", "2026-01-04"];
    for (i, d) in days.iter().enumerate() {
        state = update_rate_state(&state, &vec![("r".to_string(), num(i as f64))], day(d), 2);
    }
    assert_eq!(state.len(), 1);
    assert_eq!(values(&state[0].entries), vec![1.0, 2.0, 3.0]);
    assert_eq!(state[0].entries[0].0, day("2026-01-02"));
    // a smaller window cuts old histories back even without new values
    let cut = update_rate_state(&state, &vec![], day("2026-01-05"), 0);
    assert_eq!(values(&cut[0].entries), vec![3.0]);
}

#[test]
fn values_go_to_their_regions_in_order() {
    let adds = vec![("a".to_string(), num(1.0)), ("b".to_string(), num(2.0)), ("a".to_string(), num(3.0))];
    let state = update_rate_state(&vec![], &adds, day("2026-01-01"), 5);
    let a = state.iter().find(|h| h.region == "a").unwrap();
    let b = state.iter().find(|h| h.region == "b").unwrap();
    assert_eq!(values(&a.entries), vec![1.0, 3.0]);
    assert_eq!(values(&b.entries), vec![2.0]);
}

#[test]
fn rate_span_measures_the_window() {
    let h = vec![
        (day("2026-01-01"), num(10.0)),
        (day("2026-01-03"), num(20.0)),
        (day("2026-01-07"), num(50.0)),
    ];
    let (first, last, days) = rate_span(&h, 1).unwrap();
    assert_eq!((f64::from_bits(first.bits), f64::from_bits(last.bits), days), (20.0, 50.0, 4));
    let (first, _, days) = rate_span(&h, 5).unwrap();
    assert_eq!((f64::from_bits(first.bits), days), (10.0, 6));
    assert!(rate_span(&h, 0).is_none());
    assert!(rate_span(&vec![(day("2026-01-01"), num(1.0)), (day("2026-01-01T12:00:00"), num(2.0))], 3).is_none());
    assert!(rate_span(&h, usize::MAX).is_some());
}
