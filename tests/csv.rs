use rdma_probe::csv::parse_csv;
use rdma_probe::{Sample, SampleCollector};

#[test]
fn parse_reads_back_the_dump() {
    let mut c = SampleCollector::new(0, "x.csv");
    let inserted = [(1_000_000u64, 200_000u64), (0, 0), (5, 9), (u64::MAX, 1), (10, 10)];
    for s in inserted.iter() {
        c.insert(*s);
    }
    let parsed = parse_csv(&c.csv_bytes()).unwrap();
    let expected: Vec<Sample> = inserted.iter().map(|s| Sample { wire_rtt: s.0, loop_rtt: s.1 }).collect();
    assert_eq!(parsed, expected);
}

#[test]
fn parse_of_header_alone_is_empty() {
    assert_eq!(parse_csv(b"wire_rtt, loop_rtt, cycles_diff\n"), Some(vec![]));
}

#[test]
fn parse_refuses_what_no_dump_holds() {
    let h = "wire_rtt, loop_rtt, cycles_diff\n";
    let cases = [
        String::new(),
        "wire_rtt,loop_rtt,cycles_diff\n".to_string(),
        format!("{}12,2,10", h),
        format!("{}12,2,9\n", h),
        format!("{}012,2,10\n", h),
        format!("{}12,,10\n", h),
        format!("{}12,2,10\nx", h),
        format!("{}18446744073709551616,0,18446744073709551616\n", h),
        format!("{}3,5,-2\n", h),
    ];
    for c in cases.iter() {
        assert_eq!(parse_csv(c.as_bytes()), None, "{:?}", c);
    }
    assert_eq!(
        parse_csv(format!("{}3,5,0\n18446744073709551615,0,18446744073709551615\n", h).as_bytes()),
        Some(vec![Sample { wire_rtt: 3, loop_rtt: 5 }, Sample { wire_rtt: u64::MAX, loop_rtt: 0 }])
    );
}
