use rs_matter::error::ErrorCode;
use rs_matter::packet::{Address, PacketHdr, PlainHdr, ProtoHdr, Transport};
use rs_matter::session::{
    ReservedSession, Role, SessionMgr, SessionMode, MAX_EXCHANGES, MAX_SESSIONS,
};

fn proto(exch_id: u16, initiator: bool, reliable: bool, ack: Option<u32>) -> ProtoHdr {
    ProtoHdr { exch_id, initiator, reliable, ack, proto_id: 1, opcode: 2 }
}

fn plain(sess_id: u16, ctr: u32) -> PlainHdr {
    PlainHdr { sess_id, ctr, src_nodeid: None, dst_nodeid: None }
}

#[test]
fn test_next_sess_id_doesnt_reuse() {
    let mut sm = SessionMgr::new();
    let sess = sm.add(false, Address::default(), None, 0, 0).unwrap();
    sess.set_local_sess_id(1);
    assert_eq!(sm.get_next_sess_id(), 2);
    assert_eq!(sm.get_next_sess_id(), 3);
    let sess = sm.add(false, Address::default(), None, 0, 0).unwrap();
    sess.set_local_sess_id(4);
    assert_eq!(sm.get_next_sess_id(), 5);
}

#[test]
fn test_next_sess_id_overflows() {
    let mut sm = SessionMgr::new();
    let sess = sm.add(false, Address::default(), None, 0, 0).unwrap();
    sess.set_local_sess_id(1);
    assert_eq!(sm.get_next_sess_id(), 2);
    sm.next_sess_id = 65534;
    assert_eq!(sm.get_next_sess_id(), 65534);
    assert_eq!(sm.get_next_sess_id(), 65535);
    assert_eq!(sm.get_next_sess_id(), 2);
}

#[test]
fn add_remove_keeps_ids_distinct() {
    let mut sm = SessionMgr::new();
    let mut seed: u32 = 12345;
    for step in 0..400u32 {
        seed = seed.wrapping_mul(1103515245).wrapping_add(12345);
        let n = sm.iter().len();
        if n > 0 && (seed >> 16) % 3 == 0 {
            let victim = sm.iter()[((seed >> 8) as usize) % n].id();
            assert!(sm.remove(victim).is_some());
            assert!(sm.get(victim, 0).is_none());
        } else if n < MAX_SESSIONS {
            let s = sm.add(false, Address::default(), None, step as u64, seed).unwrap();
            s.set_local_sess_id((seed % 7) as u16 + 1);
        } else {
            assert_eq!(sm.add(false, Address::default(), None, 0, 0).err(), Some(ErrorCode::NoSpaceSessions));
        }
        let ids: Vec<u32> = sm.iter().iter().map(|s| s.id()).collect();
        for i in 0..ids.len() {
            for j in i + 1..ids.len() {
                assert_ne!(ids[i], ids[j]);
            }
        }
        let next = sm.get_next_sess_id();
        assert_ne!(next, 0);
        assert!(sm.iter().iter().all(|s| s.get_local_sess_id() != next));
    }
}

#[test]
fn unique_ids_skip_live_ones_after_wrap() {
    let mut sm = SessionMgr::new();
    let first = sm.add(false, Address::default(), None, 0, 0).unwrap().id();
    assert_eq!(first, 0);
    sm.next_sess_unique_id = 0x0fff_ffff;
    let a = sm.add(false, Address::default(), None, 0, 0).unwrap().id();
    assert_eq!(a, 0x0fff_ffff);
    let b = sm.add(false, Address::default(), None, 0, 0).unwrap().id();
    assert_eq!(b, 1);
}

#[test]
fn table_full_gives_capacity_error() {
    let mut sm = SessionMgr::new();
    for _ in 0..MAX_SESSIONS {
        assert!(sm.add(false, Address::default(), None, 0, 0).is_ok());
    }
    assert_eq!(sm.add(false, Address::default(), None, 0, 0).err(), Some(ErrorCode::NoSpaceSessions));
}

#[test]
fn message_counter_is_masked() {
    let mut sm = SessionMgr::new();
    let s = sm.add(false, Address::default(), None, 0, 0xffff_ffff).unwrap();
    assert_eq!(s.msg_ctr, 0x0fff_ffff);
}

#[test]
fn next_exch_id_skips_responder_exchanges() {
    let mut sm = SessionMgr::new();
    let s = sm.add(false, Address::default(), None, 0, 0).unwrap();
    assert_eq!(s.add_exch(1, Role::Responder { dropped: false }), Some(0));
    assert_eq!(s.add_exch(2, Role::Initiator { dropped: false }), Some(1));
    assert_eq!(sm.get_next_exch_id(), 2);
    assert_eq!(sm.get_next_exch_id(), 3);
    sm.next_exch_id = 65535;
    assert_eq!(sm.get_next_exch_id(), 65535);
    assert_eq!(sm.get_next_exch_id(), 2);
}

#[test]
fn remove_for_fabric_keeps_one_expired_and_eviction_prefers_it() {
    let mut sm = SessionMgr::new();
    let mut ids = Vec::new();
    for i in 0..4u64 {
        let s = sm.add(false, Address::default(), Some(i), 100 + i, 0).unwrap();
        s.mode = if i < 3 { SessionMode::Pase { fab_idx: 2 } } else { SessionMode::Pase { fab_idx: 3 } };
        ids.push(s.id());
    }
    // An old idle session of another fabric.
    let old = sm.add(false, Address::default(), None, 1, 0).unwrap().id();
    sm.remove_for_fabric(2, Some(ids[1]));
    let left: Vec<u32> = sm.iter().iter().map(|s| s.id()).collect();
    assert_eq!(left, vec![ids[1], ids[3], old]);
    assert!(sm.iter()[0].is_expired());
    assert!(!sm.iter()[1].is_expired());
    let victim = sm.get_session_for_eviction(1000).unwrap().id();
    assert_eq!(victim, ids[1]);
}

#[test]
fn eviction_picks_least_recently_used_idle_session() {
    let mut sm = SessionMgr::new();
    let a = sm.add(false, Address::default(), None, 50, 0).unwrap().id();
    let b = sm.add(false, Address::default(), None, 10, 0).unwrap().id();
    let c = sm.add(true, Address::default(), None, 5, 0).unwrap().id();
    let d = sm.add(false, Address::default(), None, 1, 0).unwrap();
    d.add_exch(9, Role::Initiator { dropped: false });
    let _ = (a, c);
    assert_eq!(sm.get_session_for_eviction(100).unwrap().id(), b);
    assert!(sm.get_session_for_eviction(10).is_none());
}

#[test]
fn reserve_evicts_when_full() {
    let mut sm = SessionMgr::new();
    for i in 0..MAX_SESSIONS as u64 {
        sm.add(false, Address::default(), None, 10 + i, 0).unwrap();
    }
    let oldest = sm.iter()[0].id();
    let r = ReservedSession::reserve(&mut sm, 1000, 0).unwrap();
    assert!(sm.get(oldest, 1000).is_none());
    assert!(sm.get(r.id, 1000).unwrap().reserved);
}

#[test]
fn reservation_hides_until_complete() {
    let mut sm = SessionMgr::new();
    let r = ReservedSession::reserve_now(&mut sm, 0, 0).unwrap();
    let id = r.id;
    let addr = Address { transport: Transport::Udp, host: 7, port: 5540 };
    r.update(&mut sm, 1, 2, 3, 4, addr, SessionMode::Pase { fab_idx: 0 }, None, None, None, 5).unwrap();
    assert!(sm.get_for_rx(&addr, &plain(4, 1), 6).is_none());
    let mut r = r;
    r.complete();
    r.release(&mut sm);
    let s = sm.get_for_rx(&addr, &plain(4, 1), 6).unwrap();
    assert_eq!(s.id(), id);
    assert_eq!(s.get_peer_sess_id(), 3);
    assert!(!s.reserved);
}

#[test]
fn dropped_reservation_removes_session() {
    let mut sm = SessionMgr::new();
    let r = ReservedSession::reserve_now(&mut sm, 0, 0).unwrap();
    let id = r.id;
    r.release(&mut sm);
    assert!(sm.get(id, 0).is_none());
}

#[test]
fn update_of_missing_session_fails() {
    let mut sm = SessionMgr::new();
    let r = ReservedSession::reserve_now(&mut sm, 0, 0).unwrap();
    sm.remove(r.id);
    let res = r.update(&mut sm, 1, 2, 3, 4, Address::default(), SessionMode::PlainText, None, None, None, 0);
    assert_eq!(res, Err(ErrorCode::NoSession));
}

#[test]
fn upgrade_pase_once() {
    let mut sm = SessionMgr::new();
    let s = sm.add(false, Address::default(), None, 0, 0).unwrap();
    s.mode = SessionMode::Pase { fab_idx: 0 };
    assert_eq!(s.upgrade_fabric_idx(4), Ok(()));
    assert_eq!(s.get_local_fabric_idx(), 4);
    assert_eq!(s.upgrade_fabric_idx(5), Err(ErrorCode::Invalid));
    s.mode = SessionMode::Case { fab_idx: 1, cat_ids: [0; 3] };
    assert_eq!(s.upgrade_fabric_idx(5), Err(ErrorCode::Invalid));
    s.mode = SessionMode::PlainText;
    assert_eq!(s.upgrade_fabric_idx(5), Err(ErrorCode::Invalid));
}

#[test]
fn keys_only_for_secured_sessions() {
    let mut sm = SessionMgr::new();
    let s = sm.add(false, Address::default(), None, 0, 0).unwrap();
    assert!(s.get_dec_key().is_none());
    assert!(s.get_enc_key().is_none());
    s.mode = SessionMode::Pase { fab_idx: 0 };
    assert_eq!(s.get_dec_key().unwrap(), &[0u8; 16][..]);
    assert_eq!(s.get_att_challenge(), &[0u8; 16][..]);
}

#[test]
fn post_recv_creates_responder_exchange_and_detects_duplicates() {
    let mut sm = SessionMgr::new();
    let s = sm.add(false, Address::default(), None, 0, 0).unwrap();
    let h = PacketHdr { plain: plain(0, 10), proto: proto(7, true, true, None) };
    assert_eq!(s.post_recv(&h, 1), Ok(true));
    assert_eq!(s.post_recv(&h, 2), Err(ErrorCode::Duplicate));
    let h2 = PacketHdr { plain: plain(0, 11), proto: proto(7, true, false, None) };
    assert_eq!(s.post_recv(&h2, 3), Ok(false));
    let e = s.exchanges[0].unwrap();
    assert_eq!(e.exch_id, 7);
    assert!(matches!(e.role, Role::Responder { .. }));
    assert_eq!(e.mrp.ack.unwrap().msg_ctr, 10);
    // A message that is not from the initiator cannot open an exchange.
    let h3 = PacketHdr { plain: plain(0, 12), proto: proto(8, false, false, None) };
    assert_eq!(s.post_recv(&h3, 4), Err(ErrorCode::NoExchange));
}

#[test]
fn post_recv_exchange_table_full() {
    let mut sm = SessionMgr::new();
    let s = sm.add(false, Address::default(), None, 0, 0).unwrap();
    for i in 0..MAX_EXCHANGES as u16 {
        assert_eq!(s.add_exch(100 + i, Role::Initiator { dropped: false }), Some(i as usize));
    }
    let h = PacketHdr { plain: plain(0, 10), proto: proto(7, true, false, None) };
    assert_eq!(s.post_recv(&h, 1), Err(ErrorCode::NoSpaceExchanges));
    assert!(s.remove_exch(2));
    let h = PacketHdr { plain: plain(0, 11), proto: proto(7, true, false, None) };
    assert_eq!(s.post_recv(&h, 1), Ok(true));
    assert_eq!(s.exchanges[2].unwrap().exch_id, 7);
}

#[test]
fn expired_session_takes_no_new_exchange() {
    let mut sm = SessionMgr::new();
    let s = sm.add(false, Address::default(), None, 0, 0).unwrap();
    s.expired = true;
    let h = PacketHdr { plain: plain(0, 10), proto: proto(7, true, false, None) };
    assert_eq!(s.post_recv(&h, 1), Err(ErrorCode::NoExchange));
}

#[test]
fn pre_send_piggybacks_pending_ack_once() {
    let mut sm = SessionMgr::new();
    let s = sm.add(false, Address::default(), Some(77), 0, 5).unwrap();
    let h = PacketHdr { plain: plain(0, 40), proto: proto(3, true, true, None) };
    assert_eq!(s.post_recv(&h, 1), Ok(true));
    let mut tx = PacketHdr { plain: plain(0, 0), proto: proto(3, false, false, None) };
    let (addr, retrans) = s.pre_send(Some(0), &mut tx, None, None).unwrap();
    assert_eq!(addr, Address::default());
    assert!(!retrans);
    assert_eq!(tx.proto.ack, Some(40));
    assert_eq!(tx.plain.ctr, 5);
    assert_eq!(tx.plain.dst_nodeid, Some(77));
    let ack = s.exchanges[0].unwrap().mrp.ack.unwrap();
    assert!(ack.acknowledged);
    assert_eq!(ack.msg_ctr, 40);
    // A second send keeps the entry, flagged, with the same counter.
    let mut tx2 = PacketHdr { plain: plain(0, 0), proto: proto(3, false, false, None) };
    s.pre_send(Some(0), &mut tx2, None, None).unwrap();
    assert_eq!(tx2.proto.ack, Some(40));
    assert_eq!(tx2.plain.ctr, 6);
    let ack = s.exchanges[0].unwrap().mrp.ack.unwrap();
    assert!(ack.acknowledged);
    assert!(!s.exchanges[0].unwrap().mrp.is_ack_pending());
}

#[test]
fn pre_send_retransmits_with_same_counter() {
    let mut sm = SessionMgr::new();
    let s = sm.add(false, Address::default(), None, 0, 100).unwrap();
    s.add_exch(4, Role::Initiator { dropped: false });
    let mut tx = PacketHdr { plain: plain(0, 0), proto: proto(4, true, true, None) };
    let (_, retrans) = s.pre_send(Some(0), &mut tx, Some(500), None).unwrap();
    assert!(!retrans);
    assert_eq!(tx.plain.ctr, 100);
    let e = s.exchanges[0].unwrap().mrp.retrans.unwrap();
    assert_eq!(e.base_delay_interval_ms, 500);
    let mut tx2 = PacketHdr { plain: plain(0, 0), proto: proto(4, true, true, None) };
    let (_, retrans) = s.pre_send(Some(0), &mut tx2, Some(500), None).unwrap();
    assert!(retrans);
    assert_eq!(tx2.plain.ctr, 100);
    assert_eq!(s.exchanges[0].unwrap().mrp.retrans.unwrap().counter, 1);
    // Over a reliable transport no acknowledgment is asked for.
    s.peer_addr = Address { transport: Transport::Tcp, host: 1, port: 1 };
    let mut tx3 = PacketHdr { plain: plain(0, 0), proto: proto(9, true, true, None) };
    s.pre_send(None, &mut tx3, None, None).unwrap();
    assert!(!tx3.proto.reliable);
}

#[test]
fn remove_exch_with_pending_work_marks_dropped() {
    let mut sm = SessionMgr::new();
    let s = sm.add(false, Address::default(), None, 0, 0).unwrap();
    let h = PacketHdr { plain: plain(0, 10), proto: proto(7, true, true, None) };
    s.post_recv(&h, 1).unwrap();
    assert!(!s.remove_exch(0));
    assert_eq!(s.exchanges[0].unwrap().role, Role::Responder { dropped: true });
    let mut tx = PacketHdr { plain: plain(0, 0), proto: proto(7, false, false, None) };
    s.pre_send(Some(0), &mut tx, None, None).unwrap();
    assert!(s.remove_exch(0));
    assert!(s.exchanges[0].is_none());
}

#[test]
fn lookups_by_node_skip_expired_and_reserved() {
    let mut sm = SessionMgr::new();
    let a = sm.add(false, Address::default(), Some(9), 0, 0).unwrap();
    a.mode = SessionMode::Case { fab_idx: 1, cat_ids: [0; 3] };
    a.expired = true;
    let b = sm.add(true, Address::default(), Some(9), 0, 0).unwrap();
    b.mode = SessionMode::Case { fab_idx: 1, cat_ids: [0; 3] };
    let b_id = b.id();
    assert!(sm.get_for_node(1, 9, true, 5).is_none());
    sm.get(b_id, 6).unwrap().reserved = false;
    let found = sm.get_for_node(1, 9, true, 7).unwrap();
    assert_eq!(found.id(), b_id);
    assert_eq!(found.last_use, 7);
}

#[test]
fn reset_clears_sessions() {
    let mut sm = SessionMgr::new();
    sm.add(false, Address::default(), None, 0, 0).unwrap();
    sm.next_sess_id = 9;
    sm.reset();
    assert_eq!(sm.iter().len(), 0);
    assert_eq!(sm.next_sess_id, 1);
}

#[test]
fn get_exch_finds_matching_exchange() {
    let mut sm = SessionMgr::new();
    sm.add(false, Address::default(), None, 0, 0).unwrap();
    let s = sm.add(false, Address::default(), None, 0, 0).unwrap();
    let sid = s.id();
    s.add_exch(5, Role::Initiator { dropped: false });
    s.add_exch(6, Role::Responder { dropped: false });
    let (found, idx) = sm.get_exch(|_, e| e.exch_id == 6, 42).unwrap();
    assert_eq!(found.id(), sid);
    assert_eq!(idx, 1);
    assert_eq!(found.last_use, 42);
    assert!(sm.get_exch(|_, e| e.exch_id == 7, 43).is_none());
}

#[test]
fn check_wf_spots_bad_tables() {
    let mut sm = SessionMgr::new();
    assert!(sm.check_wf());
    let s = sm.add(false, Address::default(), None, 0, 0).unwrap();
    s.mode = SessionMode::Case { fab_idx: 0, cat_ids: [0; 3] };
    assert!(!sm.check_wf());
    let mut sm = SessionMgr::new();
    sm.add(false, Address::default(), None, 0, 0).unwrap();
    let id = sm.iter()[0].id();
    sm.add(false, Address::default(), None, 0, 0).unwrap().id = id;
    assert!(!sm.check_wf());
}
