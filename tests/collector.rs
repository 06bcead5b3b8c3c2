use rdma_probe::{counter_freq, cycles_to_nanos, quantile_position, Sample, SampleCollector};

const GHZ: u64 = 1_000_000_000;

fn collector_with_diffs(diffs: &[u64]) -> SampleCollector {
    let mut c = SampleCollector::new(diffs.len() as u64, "samples.csv");
    for d in diffs {
        c.insert((*d, 0));
    }
    c
}

#[test]
fn quantile_median_of_five() {
    let c = collector_with_diffs(&[10, 20, 30, 40, 50]);
    assert_eq!(quantile_position(5, 1, 2), 2);
    assert_eq!(c.quantile_latency(1, 2, GHZ), Some(30));
    assert_eq!(c.quantile_latency(1, 2, 2 * GHZ), Some(15));
}

#[test]
fn quantile_sorts_before_indexing() {
    let c = collector_with_diffs(&[50, 10, 40, 30, 20]);
    assert_eq!(c.quantile_latency(1, 2, GHZ), Some(30));
    assert_eq!(c.quantile_latency(1, 5, GHZ), Some(10));
    assert_eq!(c.quantile_latency(2, 5, GHZ), Some(20));
}

#[test]
fn quantile_one_is_maximum() {
    let c = collector_with_diffs(&[7, 99, 3, 42]);
    assert_eq!(c.quantile_latency(1, 1, GHZ), Some(99));
    assert_eq!(c.quantile_latency(100, 100, GHZ), Some(99));
}

#[test]
fn quantile_p99_of_hundred() {
    let diffs: Vec<u64> = (1..=100).rev().collect();
    let c = collector_with_diffs(&diffs);
    assert_eq!(c.quantile_latency(99, 100, GHZ), Some(99));
    assert_eq!(c.quantile_latency(1, 2, GHZ), Some(50));
}

#[test]
fn quantile_clamps_index() {
    let c = collector_with_diffs(&[5, 6, 7]);
    assert_eq!(quantile_position(3, 0, 1), 0);
    assert_eq!(quantile_position(3, 3, 1), 2);
    assert_eq!(c.quantile_latency(0, 1, GHZ), Some(5));
    assert_eq!(c.quantile_latency(3, 1, GHZ), Some(7));
}

#[test]
fn quantile_of_empty_is_absent() {
    let c = SampleCollector::new(0, "x.csv");
    assert_eq!(c.quantile_latency(1, 2, GHZ), None);
}

#[test]
fn mean_of_singleton() {
    let mut c = SampleCollector::new(1, "x.csv");
    c.insert((1_000_000, 200_000));
    assert_eq!(c.mean_latency(GHZ), Some(800_000));
    assert_eq!(c.mean_latency(2 * GHZ), Some(400_000));
}

#[test]
fn mean_of_several_with_saturation() {
    let mut c = SampleCollector::new(3, "x.csv");
    c.insert((100, 40));
    c.insert((10, 50));
    c.insert((300, 0));
    // shares 60, 0 and 300
    assert_eq!(c.mean_latency(GHZ), Some(120));
}

#[test]
fn mean_of_empty_is_absent() {
    let c = SampleCollector::new(0, "x.csv");
    assert_eq!(c.mean_latency(GHZ), None);
}

#[test]
fn cycles_diff_saturates() {
    let s = Sample { wire_rtt: 5, loop_rtt: 9 };
    assert_eq!(s.cycles_diff(), 0);
    let s = Sample { wire_rtt: 9, loop_rtt: 5 };
    assert_eq!(s.cycles_diff(), 4);
}

#[test]
fn cycles_to_nanos_values() {
    assert_eq!(cycles_to_nanos(3_000, 3 * GHZ), 1_000);
    assert_eq!(cycles_to_nanos(1, 2 * GHZ), 0);
    assert_eq!(cycles_to_nanos(u64::MAX, GHZ), u64::MAX / GHZ);
}

#[test]
fn counter_freq_defaults() {
    assert_eq!(counter_freq(None), GHZ);
    assert_eq!(counter_freq(Some(0)), GHZ);
    assert_eq!(counter_freq(Some(2_400)), 2_400_000_000);
    assert_eq!(counter_freq(Some(u64::MAX)), u64::MAX);
}

#[test]
fn start_marker_first_wins_end_marker_last_wins() {
    let mut c = SampleCollector::new(10, "x.csv");
    assert_eq!(c.duration(), None);
    c.record_start(100);
    c.record_start(500);
    assert_eq!(c.duration(), None);
    c.record_end(1_100);
    assert_eq!(c.duration(), Some(1_000));
    c.record_end(2_100);
    assert_eq!(c.duration(), Some(2_000));
}

#[test]
fn throughput_in_operations_per_second() {
    let mut c = SampleCollector::new(5_000, "x.csv");
    assert_eq!(c.throughput(), None);
    c.record_start(1_000);
    c.record_end(1_000);
    assert_eq!(c.throughput(), None);
    c.record_end(1_000 + 2_000_000);
    // 5000 operations in 2 ms
    assert_eq!(c.throughput(), Some(2_500_000));
}

#[test]
fn insert_keeps_order() {
    let mut c = SampleCollector::new(0, "out.csv");
    c.insert((3, 1));
    c.insert((8, 2));
    assert_eq!(c.len(), 2);
    assert_eq!(c.get(0), Sample { wire_rtt: 3, loop_rtt: 1 });
    assert_eq!(c.get(1), Sample { wire_rtt: 8, loop_rtt: 2 });
    assert_eq!(c.filename().as_str(), "out.csv");
    assert_eq!(c.cycle_diffs(), vec![2, 6]);
}

fn parse_csv(text: &str) -> Vec<(u64, u64, u64)> {
    let mut lines = text.lines();
    assert_eq!(lines.next(), Some("wire_rtt, loop_rtt, cycles_diff"));
    lines
        .map(|l| {
            let f: Vec<u64> = l.split(',').map(|x| x.trim().parse().unwrap()).collect();
            assert_eq!(f.len(), 3);
            (f[0], f[1], f[2])
        })
        .collect()
}

#[test]
fn csv_round_trip() {
    let mut c = SampleCollector::new(0, "x.csv");
    let inserted = [(1_000_000u64, 200_000u64), (0, 0), (5, 9), (u64::MAX, 1), (10, 10)];
    for s in inserted.iter() {
        c.insert(*s);
    }
    let text = String::from_utf8(c.csv_bytes()).unwrap();
    let rows = parse_csv(&text);
    assert_eq!(rows.len(), inserted.len());
    for (row, s) in rows.iter().zip(inserted.iter()) {
        assert_eq!((row.0, row.1), *s);
        assert_eq!(row.2, s.0.saturating_sub(s.1));
    }
}

#[test]
fn csv_exact_text() {
    let mut c = SampleCollector::new(0, "x.csv");
    c.insert((120, 20));
    c.insert((7, 30));
    let text = String::from_utf8(c.csv_bytes()).unwrap();
    assert_eq!(text, "wire_rtt, loop_rtt, cycles_diff\n120,20,100\n7,30,0\n");
}

#[test]
fn csv_of_empty_is_header() {
    let c = SampleCollector::new(0, "x.csv");
    assert_eq!(c.csv_bytes(), b"wire_rtt, loop_rtt, cycles_diff\n".to_vec());
}

#[test]
fn histogram_counts_each_share() {
    let mut c = SampleCollector::new(0, "x.csv");
    for s in [(30, 10), (5, 5), (40, 20), (3, 9), (25, 0), (20, 0)].iter() {
        c.insert(*s);
    }
    // shares 20, 0, 20, 0, 25, 20
    assert_eq!(c.latency_histogram(), vec![(0, 2), (20, 3), (25, 1)]);
}

#[test]
fn histogram_of_empty_is_empty() {
    let c = SampleCollector::new(0, "x.csv");
    assert!(c.latency_histogram().is_empty());
}

#[test]
fn report_gives_mean_and_duration() {
    let mut c = SampleCollector::new(2, "x.csv");
    let r = c.report(GHZ);
    assert_eq!((r.mean_ns, r.duration_ns), (None, None));
    c.insert((300, 100));
    c.insert((500, 100));
    c.record_start(10);
    c.record_end(70);
    let r = c.report(GHZ);
    assert_eq!((r.mean_ns, r.duration_ns), (Some(300), Some(60)));
}
