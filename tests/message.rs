use rdma_probe::Message;

#[test]
fn new_message_is_zeroed() {
    let m = Message::new(64, 7);
    assert_eq!(m.req_id(), 7);
    assert_eq!(m.buffer().len(), 64);
    assert!(m.buffer().iter().all(|b| *b == 0));
}

#[test]
fn message_from_bytes_has_id_zero() {
    let m = Message::from_bytes(&[1, 2, 3]);
    assert_eq!(m.req_id(), 0);
    assert_eq!(m.buffer(), &vec![1u8, 2, 3]);
}

#[test]
fn default_message_is_empty() {
    let m = Message::default();
    assert_eq!(m.req_id(), 0);
    assert!(m.buffer().is_empty());
}

#[test]
fn clone_copies_payload() {
    let m = Message::from_bytes(&[9, 8, 7]);
    let c = m.clone();
    assert_eq!(c.buffer(), m.buffer());
    assert_eq!(c.req_id(), m.req_id());
}
