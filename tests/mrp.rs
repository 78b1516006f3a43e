use rs_matter::error::ErrorCode;
use rs_matter::mrp::{AckEntry, ReliableMessage, RetransEntry, MRP_MAX_TRANSMISSIONS};
use rs_matter::packet::{PlainHdr, ProtoHdr};

fn plain(ctr: u32) -> PlainHdr {
    PlainHdr { sess_id: 1, ctr, src_nodeid: None, dst_nodeid: None }
}

fn proto(reliable: bool, ack: Option<u32>) -> ProtoHdr {
    ProtoHdr { exch_id: 1, initiator: true, reliable, ack, proto_id: 1, opcode: 1 }
}

#[test]
fn retrans_entry_gives_up_after_ten_retries() {
    let mut e = RetransEntry::new(None, 42);
    for _ in 0..MRP_MAX_TRANSMISSIONS {
        assert_eq!(e.pre_send(42), Ok(()));
    }
    assert_eq!(e.counter, 10);
    assert_eq!(e.pre_send(42), Err(ErrorCode::TxTimeout));
    assert_eq!(e.counter, 10);
}

#[test]
fn delay_values() {
    let e = RetransEntry::new(None, 1);
    assert_eq!(e.base_delay_interval_ms, 300);
    assert_eq!(e.delay_ms_counter(0, 0), 330);
    assert_eq!(e.delay_ms_counter(1, 255), 412);
    assert_eq!(e.delay_ms_counter(2, 0), 528);
    assert_eq!(e.delay_ms_counter(3, 128), 949);
    assert_eq!(e.max_delay_ms(), 28305);
    assert_eq!(e.delay_ms(0), 330);
    let e2 = RetransEntry::new(Some(1000), 1);
    assert_eq!(e2.delay_ms_counter(5, 100), 7914);
}

#[test]
fn delay_never_shrinks_with_retries() {
    for base in [1u16, 300, 4000, 65535] {
        let e = RetransEntry::new(Some(base), 0);
        for jitter in [0u8, 1, 77, 254, 255] {
            let mut prev: u64 = 0;
            for c in 0..=32u16 {
                let d = e.delay_ms_counter(c, jitter);
                assert!(d >= prev);
                prev = d;
            }
        }
    }
}

#[test]
fn ack_entry_starts_unacknowledged() {
    let a = AckEntry::new(5).unwrap();
    assert_eq!(a.get_msg_ctr(), 5);
    assert!(!a.acknowledged);
}

#[test]
fn pre_send_sets_acknowledged_and_header_counter() {
    let mut m = ReliableMessage::new();
    m.post_recv(&plain(77), &proto(true, None), 10).unwrap();
    assert!(m.is_ack_pending());
    let mut p = proto(false, None);
    m.pre_send(&plain(1), &mut p, None, None).unwrap();
    assert_eq!(p.ack, Some(77));
    assert!(m.ack.unwrap().acknowledged);
    assert!(!m.is_ack_pending());
    assert_eq!(m.received_at_ms, None);
    let mut proto2 = proto(false, None);
    m.pre_send(&plain(2), &mut proto2, None, None).unwrap();
    assert_eq!(proto2.ack, Some(77));
    assert_eq!(m.ack, Some(AckEntry { msg_ctr: 77, acknowledged: true }));
}

#[test]
fn matching_ack_clears_both_entries() {
    let mut m = ReliableMessage::new();
    m.post_recv(&plain(77), &proto(true, None), 10).unwrap();
    let mut p = proto(true, None);
    m.pre_send(&plain(500), &mut p, None, None).unwrap();
    assert!(m.is_retrans_pending());
    assert_eq!(m.post_recv(&plain(78), &proto(false, Some(500)), 20), Ok(()));
    assert_eq!(m.retrans, None);
    assert_eq!(m.ack, None);
    assert_eq!(m.received_at_ms, Some(20));
}

#[test]
fn mismatched_ack_is_a_duplicate_and_changes_nothing() {
    let mut m = ReliableMessage::new();
    let mut p = proto(true, None);
    m.pre_send(&plain(500), &mut p, None, None).unwrap();
    let before = m;
    assert_eq!(m.post_recv(&plain(78), &proto(true, Some(499)), 20), Err(ErrorCode::Duplicate));
    assert_eq!(m, before);
}

#[test]
fn give_up_clears_entries_and_times_out() {
    let mut m = ReliableMessage::new();
    m.post_recv(&plain(77), &proto(true, None), 10).unwrap();
    let mut p = proto(true, None);
    m.pre_send(&plain(9), &mut p, None, None).unwrap();
    for _ in 0..10 {
        let mut p = proto(true, None);
        assert_eq!(m.pre_send(&plain(9), &mut p, None, None), Ok(()));
    }
    let mut p = proto(true, None);
    assert_eq!(m.pre_send(&plain(9), &mut p, None, None), Err(ErrorCode::TxTimeout));
    assert_eq!(m.retrans, None);
    assert_eq!(m.ack, None);
}

#[test]
fn rx_timeout() {
    let mut m = ReliableMessage::new();
    assert!(!m.has_rx_timed_out(10, 1000));
    m.post_recv(&plain(1), &proto(false, None), 100).unwrap();
    assert!(!m.has_rx_timed_out(50, 149));
    assert!(m.has_rx_timed_out(50, 150));
    assert!(!m.has_rx_timed_out(u64::MAX, u64::MAX));
}
