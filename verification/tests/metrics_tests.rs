use amazon_rose_forest::core_lib::metrics::{decimal, prometheus_entry, summarize, timeseries_excess};
use amazon_rose_forest::VERSION;

#[test]
fn histogram_summary_of_values() {
    let s = summarize(&vec![5, 1, 9, 3]);
    assert_eq!(s.count, 4);
    assert_eq!(s.min, 1);
    assert_eq!(s.max, 9);
    assert_eq!(s.sum, 18);
    let one = summarize(&vec![7]);
    assert_eq!((one.count, one.min, one.max, one.sum), (1, 7, 7, 7));
}

#[test]
fn decimal_spelling() {
    assert_eq!(decimal(0), "0");
    assert_eq!(decimal(7), "7");
    assert_eq!(decimal(10), "10");
    assert_eq!(decimal(1234567890), "1234567890");
    assert_eq!(decimal(u64::MAX), u64::MAX.to_string());
}

#[test]
fn prometheus_exposition_lines() {
    assert_eq!(
        prometheus_entry("shards_created", "counter", 3),
        "# TYPE shards_created counter\nshards_created 3\n"
    );
    assert_eq!(prometheus_entry("x_sum", "gauge", 0), "# TYPE x_sum gauge\nx_sum 0\n");
}

#[test]
fn timeseries_keeps_latest_points() {
    assert_eq!(timeseries_excess(999), 0);
    assert_eq!(timeseries_excess(1000), 0);
    assert_eq!(timeseries_excess(1001), 1);
}

#[test]
fn library_version() {
    assert_eq!(VERSION, "0.1.0");
}
