use rdma_probe::{warmup_rounds, ProbeAction, ProbeDriver};

/// Runs a probe with fake timings: every loopback round takes `loop_rtt`
/// cycles, every wire round `wire_base + id`. Returns the numbers of loopback
/// and wire rounds timed.
fn drive(p: &mut ProbeDriver, loop_rtt: u64, wire_base: u64) -> (usize, usize) {
    let mut loops = 0;
    let mut wires = 0;
    loop {
        match p.next_action() {
            ProbeAction::MeasureLoop { .. } => {
                loops += 1;
                p.on_loop_rtt(loop_rtt);
            }
            ProbeAction::MeasureWire { id } => {
                wires += 1;
                let batch = p.batch(id);
                assert_eq!(batch.len(), 1);
                assert_eq!(batch[0].req_id(), id);
                p.on_wire_rtt(wire_base + id);
            }
            ProbeAction::Finish => return (loops, wires),
        }
    }
}

#[test]
fn warmup_is_a_tenth_rounded_up() {
    assert_eq!(warmup_rounds(0), 0);
    assert_eq!(warmup_rounds(1), 1);
    assert_eq!(warmup_rounds(10), 1);
    assert_eq!(warmup_rounds(15), 2);
    assert_eq!(warmup_rounds(100), 10);
    assert_eq!(warmup_rounds(5_000_000), 500_000);
}

#[test]
fn single_message_round() {
    let mut p = ProbeDriver::new(64, 1, true, "histogram");
    assert_eq!(p.next_action(), ProbeAction::MeasureLoop { id: 0 });
    let (loops, wires) = drive(&mut p, 200, 1_000);
    assert_eq!((loops, wires), (2, 2));
    let c = p.into_collector();
    assert_eq!(c.len(), 1);
    assert!(c.get(0).wire_rtt > 0);
    assert_eq!(c.get(0).loop_rtt, 200);
}

#[test]
fn warmup_rounds_are_dropped() {
    let mut p = ProbeDriver::new(64, 100, true, "histogram");
    let (loops, wires) = drive(&mut p, 5, 1_000);
    assert_eq!((loops, wires), (110, 110));
    let c = p.collector();
    assert_eq!(c.len(), 100);
    for i in 0..100 {
        assert_eq!(c.get(i).wire_rtt, 1_000 + i as u64);
    }
    let text = String::from_utf8(c.csv_bytes()).unwrap();
    assert_eq!(text.lines().count(), 101);
}

#[test]
fn loop_is_zero_without_loopback() {
    let mut p = ProbeDriver::new(8, 3, false, "histogram");
    let (loops, wires) = drive(&mut p, 5, 50);
    // the single warmup round still times the loopback agent
    assert_eq!((loops, wires), (1, 4));
    let c = p.collector();
    assert_eq!(c.len(), 3);
    for i in 0..3 {
        assert_eq!(c.get(i).loop_rtt, 0);
    }
}

#[test]
fn zero_iterations_finish_at_once() {
    let p = ProbeDriver::new(8, 0, true, "histogram");
    assert_eq!(p.next_action(), ProbeAction::Finish);
    assert_eq!(p.collector().len(), 0);
}
