use leansim::geo::latency::{country_count, CountryLatencyModel, LatencyParams};

fn s(x: &str) -> String {
    x.to_string()
}

fn model() -> CountryLatencyModel {
    CountryLatencyModel {
        matrix: vec![
            (s("DE"), vec![(s("FR"), 12.0f64.to_bits()), (s("US"), 95.0f64.to_bits())]),
            (s("JP"), vec![(s("US"), 60.0f64.to_bits())]),
            (s("BR"), vec![]),
        ],
        defaults: vec![(s("JP"), 150.0f64.to_bits()), (s("BR"), 170.0f64.to_bits())],
        global_default_ms: 100.0f64.to_bits(),
    }
}

fn params(base: f64, ratio: f64) -> LatencyParams {
    LatencyParams { base_ms: base.to_bits(), jitter_ratio: ratio.to_bits() }
}

#[test]
fn direct_entries_come_first() {
    let m = model();
    assert_eq!(m.get_latency(&s("DE"), &s("FR")), params(12.0, 0.05));
    assert_eq!(m.get_latency(&s("DE"), &s("US")), params(95.0, 0.15));
    assert_eq!(m.get_latency(&s("JP"), &s("US")), params(60.0, 0.10));
}

#[test]
fn fallbacks_in_order() {
    let m = model();
    // the source's default before the reverse entry
    assert_eq!(m.get_latency(&s("JP"), &s("DE")), params(150.0, 0.15));
    // the reverse entry when the source has neither
    assert_eq!(m.get_latency(&s("FR"), &s("DE")), params(12.0, 0.05));
    // the target's default
    assert_eq!(m.get_latency(&s("FR"), &s("BR")), params(170.0, 0.15));
    // the global fallback
    assert_eq!(m.get_latency(&s("FR"), &s("IT")), params(100.0, 0.15));
}

#[test]
fn jitter_bands() {
    let mut m = model();
    m.global_default_ms = 29.999f64.to_bits();
    assert_eq!(m.get_latency(&s("X"), &s("Y")).jitter_ratio, 0.05f64.to_bits());
    m.global_default_ms = 30.0f64.to_bits();
    assert_eq!(m.get_latency(&s("X"), &s("Y")).jitter_ratio, 0.10f64.to_bits());
    m.global_default_ms = 80.0f64.to_bits();
    assert_eq!(m.get_latency(&s("X"), &s("Y")).jitter_ratio, 0.15f64.to_bits());
    m.global_default_ms = (-1.0f64).to_bits();
    assert_eq!(m.get_latency(&s("X"), &s("Y")).jitter_ratio, 0.05f64.to_bits());
    m.global_default_ms = f64::INFINITY.to_bits();
    assert_eq!(m.get_latency(&s("X"), &s("Y")).jitter_ratio, 0.15f64.to_bits());
    m.global_default_ms = f64::NAN.to_bits();
    assert_eq!(m.get_latency(&s("X"), &s("Y")).jitter_ratio, 0.15f64.to_bits());
}

#[test]
fn countries_are_counted_once() {
    assert_eq!(country_count(&vec![]), 0);
    assert_eq!(country_count(&vec![s("DE"), s("US"), s("DE"), s("JP"), s("US")]), 3);
}
