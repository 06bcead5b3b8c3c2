use rdma_probe::{
    plan_send, rtt_cycles, Completion, FabricError, Message, RecvPool, SendRound, SlotLayout,
};

fn ok(wr_id: u64, byte_len: usize) -> Completion {
    Completion { wr_id, success: true, byte_len }
}

#[test]
fn layout_rejects_zero_and_overflow() {
    assert!(SlotLayout::new(0, 4).is_none());
    assert!(SlotLayout::new(4, 0).is_none());
    assert!(SlotLayout::new(usize::MAX, 2).is_none());
    let l = SlotLayout::new(64, 8).unwrap();
    assert_eq!(l.region_bytes(), 512);
    assert_eq!(l.slot_offset(3), 192);
    let r = l.recv_request(5);
    assert_eq!((r.wr_id, r.offset, r.length), (5, 320, 64));
}

#[test]
fn batch_of_eight_is_laid_out_and_chained() {
    let l = SlotLayout::new(64, 8).unwrap();
    let batch: Vec<Message> = (0..8u64).map(|i| Message::new(64, 100 + i)).collect();
    let plan = plan_send(&l, &batch).unwrap();
    assert_eq!(plan.payload.len(), 64 * 8);
    assert_eq!(plan.chain.len(), 8);
    for (i, wr) in plan.chain.iter().enumerate() {
        assert_eq!(wr.wr_id, 100 + i as u64);
        assert_eq!(wr.offset, 64 * i);
        assert_eq!(wr.length, 64);
        assert!(wr.signaled);
        assert_eq!(wr.next, if i + 1 < 8 { Some(i + 1) } else { None });
    }
}

#[test]
fn payload_concatenates_messages() {
    let l = SlotLayout::new(3, 4).unwrap();
    let batch = vec![
        Message::from_bytes(&[1, 2, 3]),
        Message::from_bytes(&[4, 5, 6]),
        Message::from_bytes(&[7, 8, 9]),
    ];
    let plan = plan_send(&l, &batch).unwrap();
    assert_eq!(plan.payload, vec![1, 2, 3, 4, 5, 6, 7, 8, 9]);
    assert_eq!(plan.chain.iter().map(|w| w.wr_id).collect::<Vec<_>>(), vec![0, 0, 0]);
}

#[test]
fn payload_of_wrong_size_is_refused() {
    let l = SlotLayout::new(4, 4).unwrap();
    let batch = vec![Message::new(4, 1), Message::new(3, 2), Message::new(5, 3)];
    assert!(matches!(plan_send(&l, &batch), Err(FabricError::PayloadSize { index: 1 })));
}

#[test]
fn empty_batch_plans_nothing() {
    let l = SlotLayout::new(4, 4).unwrap();
    let plan = plan_send(&l, &[]).unwrap();
    assert!(plan.payload.is_empty());
    assert!(plan.chain.is_empty());
    let round = SendRound::start(&plan);
    assert!(round.is_complete());
    assert_eq!(round.outstanding(), 0);
}

#[test]
fn batch_send_awaits_all_completions() {
    let l = SlotLayout::new(64, 8).unwrap();
    let batch: Vec<Message> = (0..8u64).map(|i| Message::new(64, i)).collect();
    let plan = plan_send(&l, &batch).unwrap();
    let mut round = SendRound::start(&plan);
    assert_eq!(round.outstanding(), 8);
    round.on_completions(&[ok(0, 0), ok(1, 0), ok(2, 0)]).unwrap();
    assert!(!round.is_complete());
    assert_eq!(round.outstanding(), 5);
    round.on_completions(&[]).unwrap();
    round.on_completions(&[ok(3, 0), ok(4, 0), ok(5, 0), ok(6, 0), ok(7, 0)]).unwrap();
    assert!(round.is_complete());
    assert_eq!(round.outstanding(), 0);
    assert_eq!(rtt_cycles(1_000, 1_750), 750);
}

#[test]
fn send_completion_carries_posted_id() {
    let l = SlotLayout::new(8, 2).unwrap();
    let batch = vec![Message::new(8, 41), Message::new(8, 42)];
    let plan = plan_send(&l, &batch).unwrap();
    let mut round = SendRound::start(&plan);
    assert_eq!(
        round.on_completions(&[ok(42, 0)]),
        Err(FabricError::UnexpectedCompletion { wr_id: 42 })
    );
    assert_eq!(round.outstanding(), 2);
    round.on_completions(&[ok(41, 0), ok(42, 0)]).unwrap();
    assert!(round.is_complete());
}

#[test]
fn send_completion_errors() {
    let l = SlotLayout::new(8, 2).unwrap();
    let plan = plan_send(&l, &[Message::new(8, 5)]).unwrap();
    let mut round = SendRound::start(&plan);
    let failed = Completion { wr_id: 5, success: false, byte_len: 0 };
    assert_eq!(round.on_completions(&[failed]), Err(FabricError::CompletionFailed { wr_id: 5 }));
    assert_eq!(
        round.on_completions(&[ok(5, 0), ok(6, 0)]),
        Err(FabricError::UnexpectedCompletion { wr_id: 6 })
    );
    assert_eq!(round.outstanding(), 1);
}

#[test]
fn rtt_never_negative() {
    assert_eq!(rtt_cycles(10, 30), 20);
    assert_eq!(rtt_cycles(30, 10), 0);
    assert_eq!(rtt_cycles(7, 7), 0);
}

#[test]
fn pool_posts_every_slot() {
    let l = SlotLayout::new(16, 4).unwrap();
    let (pool, posts) = RecvPool::new(l);
    assert_eq!(pool.posted(), 4);
    assert_eq!(posts.len(), 4);
    for (i, p) in posts.iter().enumerate() {
        assert_eq!((p.wr_id, p.offset, p.length), (i as u64, 16 * i, 16));
    }
}

#[test]
fn receive_replenish_sixteen_over_four_slots() {
    let l = SlotLayout::new(4, 4).unwrap();
    let (mut pool, _) = RecvPool::new(l);
    let mut region = vec![0u8; 16];
    let mut received: Vec<Vec<u8>> = Vec::new();
    let mut sent: u8 = 0;
    let mut next_slot: u64 = 0;
    while sent < 16 {
        // the peer sends up to two messages into consecutive slots
        let mut wcs = Vec::new();
        for _ in 0..2 {
            if sent < 16 {
                let s = next_slot as usize;
                for b in 0..4 {
                    region[4 * s + b] = sent;
                }
                wcs.push(ok(next_slot, 4));
                next_slot = (next_slot + 1) % 4;
                sent += 1;
            }
        }
        let out = pool.read_round(&wcs, &region).unwrap();
        assert_eq!(out.reposts.len(), wcs.len());
        for (w, r) in wcs.iter().zip(out.reposts.iter()) {
            assert_eq!(r.wr_id, w.wr_id);
        }
        for m in out.messages.iter() {
            assert_eq!(m.req_id(), 0);
            received.push(m.buffer().clone());
        }
        assert_eq!(pool.posted(), 4);
    }
    assert_eq!(received.len(), 16);
    for (i, r) in received.iter().enumerate() {
        assert_eq!(r, &vec![i as u8; 4]);
    }
}

#[test]
fn receive_completion_id_names_slot() {
    let l = SlotLayout::new(2, 3).unwrap();
    let (mut pool, _) = RecvPool::new(l);
    let region = vec![10, 11, 20, 21, 30, 31];
    let out = pool.read_round(&[ok(2, 2), ok(0, 2)], &region).unwrap();
    assert_eq!(out.messages[0].buffer(), &vec![30u8, 31]);
    assert_eq!(out.messages[1].buffer(), &vec![10u8, 11]);
    assert_eq!(out.reposts[0].offset, 4);
    assert_eq!(out.reposts[1].offset, 0);
}

#[test]
fn empty_poll_returns_nothing() {
    let l = SlotLayout::new(2, 3).unwrap();
    let (mut pool, _) = RecvPool::new(l);
    let out = pool.read_round(&[], &[0u8; 6]).unwrap();
    assert!(out.messages.is_empty());
    assert!(out.reposts.is_empty());
    assert_eq!(pool.posted(), 3);
}

#[test]
fn receive_faults() {
    let l = SlotLayout::new(2, 3).unwrap();
    let (mut pool, _) = RecvPool::new(l);
    let region = [0u8; 6];
    let failed = Completion { wr_id: 1, success: false, byte_len: 2 };
    assert_eq!(pool.read_round(&[failed], &region).err(), Some(FabricError::CompletionFailed { wr_id: 1 }));
    assert_eq!(
        pool.read_round(&[ok(0, 2), ok(1, 1)], &region).err(),
        Some(FabricError::LengthMismatch { wr_id: 1, byte_len: 1 })
    );
    assert_eq!(pool.read_round(&[ok(3, 2)], &region).err(), Some(FabricError::UnknownSlot { wr_id: 3 }));
    assert_eq!(
        pool.read_round(&[ok(1, 2), ok(1, 2)], &region).err(),
        Some(FabricError::SlotNotPosted { wr_id: 1 })
    );
    assert_eq!(pool.posted(), 3);
}
