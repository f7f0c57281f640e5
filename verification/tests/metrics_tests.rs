//! Counter behaviour: counts start at zero and only ever grow.

use dnsserve::metrics::Metrics;

#[test]
fn counters_start_at_zero_and_increment_independently() {
    let mut m = Metrics::new();
    assert_eq!(m.total_queries, 0);
    assert_eq!(m.failed_parses, 0);
    m.record_query();
    m.record_query();
    m.record_parse_failure();
    assert_eq!(m.total_queries, 2);
    assert_eq!(m.failed_parses, 1);
}
