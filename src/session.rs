use vstd::prelude::*;
use vstd::set_lib::lemma_len_subset;

use crate::error::{Error, ErrorCode};
use crate::mrp::{ReliableMessage, stale_ack, recv_update, send_update};
use crate::packet::{Address, PacketHdr, PlainHdr, ProtoHdr};

pub use crate::dedup::{rx_accepts, rx_next, RxCtrState};
pub use crate::exchange::{
    exch_for_rx, first_exch_for_rx, first_free, has_room, new_exch_index, no_exch_for_rx, placed,
    ExchangeState, Role, MAX_EXCHANGES,
};

verus! {

pub const MAX_CAT_IDS_PER_NOC: usize = 3;

/// The case-authenticated tags of a peer's operational certificate.
pub type NocCatIds = [u32; 3];

/// Size of a session key and of the attestation challenge.
pub const MATTER_AES128_KEY_SIZE: usize = 16;
/// Capacity of the session table.
pub const MAX_SESSIONS: usize = 16;
/// Mask of the initial message counter of a session.
pub const MATTER_MSG_CTR_RANGE: u32 = 0x0fff_ffff;
/// Largest unique session id: the upper bits are left to exchange indices.
pub const MAX_SESS_UNIQUE_ID: u32 = 0x0fff_ffff;

/// The security context of a session.
#[derive(Debug, Clone, Copy, PartialEq, Eq)]
pub enum SessionMode {
    /// Established by the certificate handshake, on a fabric that is never 0.
    Case { fab_idx: u8, cat_ids: NocCatIds },
    /// Established by passcode; the fabric starts at 0 and may be set once.
    Pase { fab_idx: u8 },
    PlainText,
}

impl SessionMode {
    /// A certificate session always has a fabric.
    pub open spec fn wf(&self) -> bool {
        self is Case ==> self.fab() != 0
    }

    pub open spec fn fab(&self) -> u8 {
        match self {
            SessionMode::Case { fab_idx, .. } => *fab_idx,
            SessionMode::Pase { fab_idx } => *fab_idx,
            SessionMode::PlainText => 0,
        }
    }

    /// The local fabric index of the session, 0 for none.
    pub fn fab_idx(&self) -> (r: u8)
        ensures
            r == self.fab(),
            self.wf() && self is Case ==> r >= 1,
    {
        match self {
            SessionMode::Case { fab_idx, .. } => *fab_idx,
            SessionMode::Pase { fab_idx } => *fab_idx,
            SessionMode::PlainText => 0,
        }
    }
}

impl Default for SessionMode {
    fn default() -> (r: SessionMode)
        ensures
            r is PlainText,
    {
        SessionMode::PlainText
    }
}

/// The initial message counter drawn from a random word.
pub open spec fn msg_ctr_of(rand: u32) -> u32 {
    rand & MATTER_MSG_CTR_RANGE
}

/// The message counter that follows `c`, wrapping at 32 bits.
pub open spec fn next_ctr(c: u32) -> u32 {
    if c == u32::MAX {
        0
    } else {
        (c + 1) as u32
    }
}

/// The all-zero key.
pub open spec fn zero_key() -> Seq<u8> {
    Seq::new(16, |i: int| 0u8)
}

/// One secured or plaintext conversation with a peer.
#[derive(Debug)]
pub struct Session {
    /// Unique among live sessions and never changed.
    pub id: u32,
    pub peer_addr: Address,
    pub local_nodeid: u64,
    pub peer_nodeid: Option<u64>,
    pub dec_key: [u8; 16],
    pub enc_key: [u8; 16],
    pub att_challenge: [u8; 16],
    pub local_sess_id: u16,
    pub peer_sess_id: u16,
    pub msg_ctr: u32,
    pub rx_ctr_state: RxCtrState,
    pub mode: SessionMode,
    pub exchanges: Vec<Option<ExchangeState>>,
    /// When the session was last used, in milliseconds.
    pub last_use: u64,
    /// Set on the session on behalf of which its fabric was removed: it
    /// finishes its exchanges, takes no new ones and is evicted first.
    pub expired: bool,
    /// Set while a handshake builds the session: no lookup sees it.
    pub reserved: bool,
}

impl Session {
    pub open spec fn wf(&self) -> bool {
        &&& self.exchanges@.len() <= MAX_EXCHANGES
        &&& self.mode.wf()
    }

    pub open spec fn encrypted(&self) -> bool {
        !(self.mode is PlainText)
    }

    /// Whether the session is a candidate for eviction: not reserved and
    /// without live exchanges.
    pub open spec fn idle(&self) -> bool {
        !self.reserved && forall|j: int| 0 <= j < self.exchanges@.len() ==> #[trigger] self.exchanges@[j] is None
    }

    pub open spec fn fresh(
        &self,
        id: u32,
        reserved: bool,
        peer_addr: Address,
        peer_nodeid: Option<u64>,
        now_ms: u64,
        rand: u32,
    ) -> bool {
        &&& self.id == id
        &&& self.reserved == reserved
        &&& self.peer_addr == peer_addr
        &&& self.local_nodeid == 0
        &&& self.peer_nodeid == peer_nodeid
        &&& self.dec_key@ == zero_key()
        &&& self.enc_key@ == zero_key()
        &&& self.att_challenge@ == zero_key()
        &&& self.peer_sess_id == 0
        &&& self.local_sess_id == 0
        &&& self.msg_ctr == msg_ctr_of(rand)
        &&& self.rx_ctr_state == RxCtrState { max_ctr: 0, rx_bitmap: 0 }
        &&& self.mode is PlainText
        &&& self.exchanges@.len() == 0
        &&& self.last_use == now_ms
        &&& !self.expired
    }

    /// A zeroed plaintext session, used at `now_ms`, whose message counter
    /// starts from the random word `rand`.
    pub fn new(
        id: u32,
        reserved: bool,
        peer_addr: Address,
        peer_nodeid: Option<u64>,
        now_ms: u64,
        rand: u32,
    ) -> (r: Session)
        ensures
            r.fresh(id, reserved, peer_addr, peer_nodeid, now_ms, rand),
            r.wf(),
    {
        let zero: [u8; 16] = [0u8; 16];
        assert(zero@ =~= zero_key());
        Session {
            id,
            reserved,
            peer_addr,
            local_nodeid: 0,
            peer_nodeid,
            dec_key: zero,
            enc_key: zero,
            att_challenge: zero,
            peer_sess_id: 0,
            local_sess_id: 0,
            msg_ctr: Self::rand_msg_ctr(rand),
            rx_ctr_state: RxCtrState::new(0),
            mode: SessionMode::PlainText,
            exchanges: Vec::new(),
            last_use: now_ms,
            expired: false,
        }
    }

    /// The same zeroed session as `new`, for callers that initialise a slot.
    pub fn init(
        id: u32,
        reserved: bool,
        peer_addr: Address,
        peer_nodeid: Option<u64>,
        now_ms: u64,
        rand: u32,
    ) -> (r: Session)
        ensures
            r.fresh(id, reserved, peer_addr, peer_nodeid, now_ms, rand),
            r.wf(),
    {
        Self::new(id, reserved, peer_addr, peer_nodeid, now_ms, rand)
    }

    /// The internal id, unique among live sessions.
    pub fn id(&self) -> (r: u32)
        ensures
            r == self.id,
    {
        self.id
    }

    pub fn get_local_sess_id(&self) -> (r: u16)
        ensures
            r == self.local_sess_id,
    {
        self.local_sess_id
    }

    pub fn set_local_sess_id(&mut self, sess_id: u16)
        ensures
            *final(self) == (Session { local_sess_id: sess_id, ..*old(self) }),
    {
        self.local_sess_id = sess_id;
    }

    pub fn get_peer_sess_id(&self) -> (r: u16)
        ensures
            r == self.peer_sess_id,
    {
        self.peer_sess_id
    }

    pub fn get_peer_addr(&self) -> (r: Address)
        ensures
            r == self.peer_addr,
    {
        self.peer_addr
    }

    /// Whether the session is secured (certificate or passcode).
    pub fn is_encrypted(&self) -> (r: bool)
        ensures
            r == self.encrypted(),
    {
        !matches!(self.mode, SessionMode::PlainText)
    }

    pub fn get_peer_node_id(&self) -> (r: Option<u64>)
        ensures
            r == self.peer_nodeid,
    {
        self.peer_nodeid
    }

    pub fn get_local_fabric_idx(&self) -> (r: u8)
        ensures
            r == self.mode.fab(),
    {
        self.mode.fab_idx()
    }

    pub fn get_session_mode(&self) -> (r: &SessionMode)
        ensures
            *r == self.mode,
    {
        &self.mode
    }

    /// Take the next message counter.
    fn get_msg_ctr(&mut self) -> (r: u32)
        ensures
            r == old(self).msg_ctr,
            *final(self) == (Session { msg_ctr: next_ctr(old(self).msg_ctr), ..*old(self) }),
    {
        let ctr = self.msg_ctr;
        self.msg_ctr = if ctr == u32::MAX {
            0
        } else {
            ctr + 1
        };
        ctr
    }

    /// The decryption key, for a secured session only.
    pub fn get_dec_key(&self) -> (r: Option<&[u8]>)
        ensures
            (r is Some) == self.encrypted(),
            r is Some ==> r->Some_0@ == self.dec_key@,
    {
        match self.mode {
            SessionMode::PlainText => None,
            _ => Some(self.dec_key.as_slice()),
        }
    }

    /// The encryption key, for a secured session only.
    pub fn get_enc_key(&self) -> (r: Option<&[u8]>)
        ensures
            (r is Some) == self.encrypted(),
            r is Some ==> r->Some_0@ == self.enc_key@,
    {
        match self.mode {
            SessionMode::PlainText => None,
            _ => Some(self.enc_key.as_slice()),
        }
    }

    pub fn get_att_challenge(&self) -> (r: &[u8])
        ensures
            r@ == self.att_challenge@,
    {
        self.att_challenge.as_slice()
    }

    pub open spec fn for_node(&self, fabric_idx: u8, peer_node_id: u64, secure: bool) -> bool {
        &&& self.mode.fab() == fabric_idx
        &&& self.peer_nodeid == Some(peer_node_id)
        &&& self.encrypted() == secure
        &&& !self.reserved
    }

    /// Whether the session is the published one for a peer node on a fabric.
    pub fn is_for_node(&self, fabric_idx: u8, peer_node_id: u64, secure: bool) -> (r: bool)
        ensures
            r == self.for_node(fabric_idx, peer_node_id, secure),
    {
        self.get_local_fabric_idx() == fabric_idx && self.peer_nodeid == Some(peer_node_id)
            && self.is_encrypted() == secure && !self.reserved
    }

    pub open spec fn for_rx(&self, rx_peer: Address, rx_plain: PlainHdr) -> bool {
        &&& (self.peer_nodeid is None || rx_plain.src_nodeid is None || self.peer_nodeid
            == rx_plain.src_nodeid)
        &&& self.local_sess_id == rx_plain.sess_id
        &&& self.peer_addr == rx_peer
        &&& self.encrypted() == rx_plain.encrypted()
        &&& !self.reserved
    }

    /// Whether a received message belongs to the session.
    pub fn is_for_rx(&self, rx_peer: &Address, rx_plain: &PlainHdr) -> (r: bool)
        ensures
            r == self.for_rx(*rx_peer, *rx_plain),
    {
        let nodeid_matches = self.peer_nodeid.is_none() || rx_plain.get_src_nodeid().is_none()
            || self.peer_nodeid == rx_plain.get_src_nodeid();
        nodeid_matches && self.local_sess_id == rx_plain.sess_id && self.peer_addr == *rx_peer
            && self.is_encrypted() == rx_plain.is_encrypted() && !self.reserved
    }

    pub fn is_expired(&self) -> (r: bool)
        ensures
            r == self.expired,
    {
        self.expired
    }

    /// Set the fabric of a passcode session that has none yet; fails for any
    /// other session.
    pub fn upgrade_fabric_idx(&mut self, fabric_idx: u8) -> (r: Result<(), Error>)
        requires
            fabric_idx != 0,
        ensures
            old(self).mode == (SessionMode::Pase { fab_idx: 0 }) ==> r is Ok && *final(self) == (
            Session { mode: SessionMode::Pase { fab_idx: fabric_idx }, ..*old(self) }),
            old(self).mode != (SessionMode::Pase { fab_idx: 0 }) ==> r == Err::<(), Error>(
                ErrorCode::Invalid,
            ) && *final(self) == *old(self),
    {
        match self.mode {
            SessionMode::Pase { fab_idx } => {
                if fab_idx == 0 {
                    self.mode = SessionMode::Pase { fab_idx: fabric_idx };
                    Ok(())
                } else {
                    Err(ErrorCode::Invalid)
                }
            },
            _ => Err(ErrorCode::Invalid),
        }
    }

    fn update_last_used(&mut self, now_ms: u64)
        ensures
            *final(self) == (Session { last_use: now_ms, ..*old(self) }),
    {
        self.last_use = now_ms;
    }

    fn rand_msg_ctr(rand: u32) -> (r: u32)
        ensures
            r == msg_ctr_of(rand),
    {
        rand & MATTER_MSG_CTR_RANGE
    }
}


/// The exchange a received message creates: this node responds, and the
/// message is the first one it has seen on it.
pub open spec fn responder_exch(h: PacketHdr, now_ms: u64) -> ExchangeState {
    ExchangeState {
        exch_id: h.proto.exch_id,
        role: Role::Responder { dropped: false },
        mrp: recv_update(
            ReliableMessage { retrans: None, ack: None, received_at_ms: None },
            h.plain,
            h.proto,
            now_ms,
        ),
    }
}

/// What a received message does to a session's exchanges once it passed
/// duplicate detection: `r` is the outcome and `ex2` the new slots.
pub open spec fn exch_recv(
    ex: Seq<Option<ExchangeState>>,
    ex2: Seq<Option<ExchangeState>>,
    expired: bool,
    h: PacketHdr,
    now_ms: u64,
    r: Result<bool, Error>,
) -> bool {
    &&& forall|i: int|
        first_exch_for_rx(ex, h.proto, i) ==> {
            let e = ex[i]->Some_0;
            if stale_ack(e.mrp.retrans, h.proto.ack) {
                r == Err::<bool, Error>(ErrorCode::Duplicate) && ex2 == ex
            } else {
                r == Ok::<bool, Error>(false) && ex2 == ex.update(
                    i,
                    Some(ExchangeState { mrp: recv_update(e.mrp, h.plain, h.proto, now_ms), ..e }),
                )
            }
        }
    &&& no_exch_for_rx(ex, h.proto) ==> {
        if !h.proto.initiator || !h.proto.new_exchange() || expired {
            r == Err::<bool, Error>(ErrorCode::NoExchange) && ex2 == ex
        } else if !has_room(ex) {
            r == Err::<bool, Error>(ErrorCode::NoSpaceExchanges) && ex2 == ex
        } else {
            r == Ok::<bool, Error>(true) && ex2 == placed(ex, responder_exch(h, now_ms))
        }
    }
}

impl Session {
    /// The slot of the first exchange that a received message belongs to.
    pub fn get_exch_for_rx(&self, rx_proto: &ProtoHdr) -> (r: Option<usize>)
        ensures
            r is None ==> no_exch_for_rx(self.exchanges@, *rx_proto),
            r is Some ==> first_exch_for_rx(self.exchanges@, *rx_proto, r->Some_0 as int),
    {
        let mut i: usize = 0;
        while i < self.exchanges.len()
            invariant
                i <= self.exchanges@.len(),
                forall|j: int| 0 <= j < i ==> !exch_for_rx(#[trigger] self.exchanges@[j], *rx_proto),
            decreases self.exchanges@.len() - i,
        {
            match &self.exchanges[i] {
                Some(e) => {
                    if e.is_for_rx(rx_proto) {
                        return Some(i);
                    }
                },
                None => {},
            }
            i = i + 1;
        }
        None
    }

    /// Place a new exchange: in a new slot while the table is below capacity,
    /// else in the first free slot; `None` when the table is full.
    pub fn add_exch(&mut self, exch_id: u16, role: Role) -> (r: Option<usize>)
        requires
            old(self).wf(),
        ensures
            final(self).wf(),
            ({
                let e = ExchangeState { exch_id, role, mrp: ReliableMessage::new_spec() };
                &&& (r is Some) == has_room(old(self).exchanges@)
                &&& r is Some ==> r->Some_0 == new_exch_index(old(self).exchanges@)
                    && final(self).exchanges@ == placed(old(self).exchanges@, e)
                &&& r is None ==> final(self).exchanges@ == old(self).exchanges@
            }),
            *final(self) == (Session { exchanges: final(self).exchanges, ..*old(self) }),
    {
        let e = ExchangeState { exch_id, role, mrp: ReliableMessage::new() };
        if self.exchanges.len() < MAX_EXCHANGES {
            self.exchanges.push(Some(e));
            return Some(self.exchanges.len() - 1);
        }
        let mut i: usize = 0;
        while i < self.exchanges.len()
            invariant
                i <= self.exchanges@.len(),
                self.exchanges@ == old(self).exchanges@,
                *self == *old(self),
                self.exchanges@.len() >= MAX_EXCHANGES,
                old(self).wf(),
                e == (ExchangeState { exch_id, role, mrp: ReliableMessage::new_spec() }),
                forall|j: int| 0 <= j < i ==> #[trigger] self.exchanges@[j] is Some,
            decreases self.exchanges@.len() - i,
        {
            if self.exchanges[i].is_none() {
                proof {
                    let ex = self.exchanges@;
                    assert(first_free(ex, i as int));
                    assert forall|k: int| first_free(ex, k) implies k == i by {
                        if k < i {
                            assert(ex[k] is Some);
                        } else if k > i {
                            assert(ex[i as int] is None);
                        }
                    }
                    assert(new_exch_index(ex) == i);
                }
                self.exchanges[i] = Some(e);
                return Some(i);
            }
            i = i + 1;
        }
        assert(!has_room(old(self).exchanges@));
        None
    }

    /// Remove an exchange that owes nothing; one with a message still awaiting
    /// acknowledgment, or an acknowledgment never sent, is marked dropped and
    /// kept. Returns whether it was removed.
    pub fn remove_exch(&mut self, index: usize) -> (r: bool)
        requires
            index < old(self).exchanges@.len(),
            old(self).exchanges@[index as int] is Some,
        ensures
            ({
                let e = old(self).exchanges@[index as int]->Some_0;
                &&& r == !(e.mrp.retrans_pending() || e.mrp.ack_pending())
                &&& r ==> final(self).exchanges@ == old(self).exchanges@.update(index as int, None)
                &&& !r ==> final(self).exchanges@ == old(self).exchanges@.update(
                    index as int,
                    Some(ExchangeState { role: e.role.dropped(), ..e }),
                )
            }),
            *final(self) == (Session { exchanges: final(self).exchanges, ..*old(self) }),
    {
        let mut e = self.exchanges[index].unwrap();
        if e.mrp.is_retrans_pending() || e.mrp.is_ack_pending() {
            e.role.set_dropped_state();
            self.exchanges[index] = Some(e);
            false
        } else {
            self.exchanges[index] = None;
            true
        }
    }

    /// Update the session with a received message: detect duplicates, then
    /// hand the message to its exchange, creating a responder exchange for a
    /// message that opens one. Returns whether an exchange was created.
    pub fn post_recv(&mut self, rx_header: &PacketHdr, now_ms: u64) -> (r: Result<bool, Error>)
        requires
            old(self).wf(),
        ensures
            final(self).wf(),
            !rx_accepts(old(self).rx_ctr_state, rx_header.plain.ctr, old(self).encrypted()) ==> r
                == Err::<bool, Error>(ErrorCode::Duplicate) && *final(self) == *old(self),
            rx_accepts(old(self).rx_ctr_state, rx_header.plain.ctr, old(self).encrypted()) ==> {
                &&& *final(self) == (Session {
                    rx_ctr_state: rx_next(
                        old(self).rx_ctr_state,
                        rx_header.plain.ctr,
                        old(self).encrypted(),
                    ),
                    exchanges: final(self).exchanges,
                    ..*old(self)
                })
                &&& exch_recv(
                    old(self).exchanges@,
                    final(self).exchanges@,
                    old(self).expired,
                    *rx_header,
                    now_ms,
                    r,
                )
            },
    {
        let encrypted = self.is_encrypted();
        if !self.rx_ctr_state.post_recv(rx_header.plain.ctr, encrypted) {
            return Err(ErrorCode::Duplicate);
        }
        let ghost ex = self.exchanges@;
        match self.get_exch_for_rx(&rx_header.proto) {
            Some(i) => {
                let mut e = self.exchanges[i].unwrap();
                match e.mrp.post_recv(&rx_header.plain, &rx_header.proto, now_ms) {
                    Ok(()) => {
                        self.exchanges[i] = Some(e);
                        proof {
                            assert forall|k: int| first_exch_for_rx(ex, rx_header.proto, k) implies k
                                == i by {
                                if k < i {
                                    assert(!exch_for_rx(ex[k], rx_header.proto));
                                } else if k > i {
                                    assert(!exch_for_rx(ex[i as int], rx_header.proto));
                                }
                            }
                        }
                        Ok(false)
                    },
                    Err(err) => {
                        proof {
                            assert forall|k: int| first_exch_for_rx(ex, rx_header.proto, k) implies k
                                == i by {
                                if k < i {
                                    assert(!exch_for_rx(ex[k], rx_header.proto));
                                } else if k > i {
                                    assert(!exch_for_rx(ex[i as int], rx_header.proto));
                                }
                            }
                        }
                        Err(err)
                    },
                }
            },
            None => {
                if !rx_header.proto.is_initiator() || !rx_header.proto.is_new_exchange()
                    || self.expired {
                    return Err(ErrorCode::NoExchange);
                }
                match self.add_exch(rx_header.proto.exch_id, Role::Responder { dropped: false }) {
                    Some(i) => {
                        let mut e = self.exchanges[i].unwrap();
                        let res = e.mrp.post_recv(&rx_header.plain, &rx_header.proto, now_ms);
                        self.exchanges[i] = Some(e);
                        proof {
                            assert(self.exchanges@ =~= placed(ex, responder_exch(*rx_header, now_ms)));
                        }
                        match res {
                            Ok(()) => Ok(true),
                            Err(err) => Err(err),
                        }
                    },
                    None => Err(ErrorCode::NoSpaceExchanges),
                }
            },
        }
    }

    /// Fill the headers of an outgoing message: the peer's session id, the
    /// counter (the one awaiting acknowledgment when the exchange retransmits,
    /// else the next one of the session), the destination node for a plaintext
    /// session, and the exchange's reliability data. Returns the peer's
    /// address and whether the message is a retransmission.
    pub fn pre_send(
        &mut self,
        exch_index: Option<usize>,
        tx_header: &mut PacketHdr,
        session_active_interval_ms: Option<u16>,
        session_idle_interval_ms: Option<u16>,
    ) -> (r: Result<(Address, bool), Error>)
        requires
            exch_index is Some ==> exch_index->Some_0 < old(self).exchanges@.len()
                && old(self).exchanges@[exch_index->Some_0 as int] is Some,
        ensures
            ({
                let rctr = match exch_index {
                    Some(i) => match old(self).exchanges@[i as int]->Some_0.mrp.retrans {
                        Some(e) => Some(e.msg_ctr),
                        None => None,
                    },
                    None => None,
                };
                let plain = PlainHdr {
                    sess_id: old(self).peer_sess_id,
                    ctr: match rctr {
                        Some(c) => c,
                        None => old(self).msg_ctr,
                    },
                    src_nodeid: None,
                    dst_nodeid: if old(self).mode is PlainText {
                        old(self).peer_nodeid
                    } else {
                        None
                    },
                };
                let proto = ProtoHdr {
                    reliable: old(tx_header).proto.reliable && old(self).peer_addr.transport is Udp,
                    ..old(tx_header).proto
                };
                &&& final(tx_header).plain == plain
                &&& *final(self) == (Session {
                    msg_ctr: if rctr is Some {
                        old(self).msg_ctr
                    } else {
                        next_ctr(old(self).msg_ctr)
                    },
                    exchanges: final(self).exchanges,
                    ..*old(self)
                })
                &&& r is Ok ==> r == Ok::<(Address, bool), Error>(
                    (old(self).peer_addr, rctr is Some),
                )
                &&& r is Err ==> r == Err::<(Address, bool), Error>(ErrorCode::TxTimeout)
                &&& exch_index is None ==> r is Ok && final(tx_header).proto == proto
                    && final(self).exchanges == old(self).exchanges
                &&& exch_index is Some ==> {
                    let i = exch_index->Some_0 as int;
                    let e = old(self).exchanges@[i]->Some_0;
                    let e2 = final(self).exchanges@[i]->Some_0;
                    &&& final(self).exchanges@ == old(self).exchanges@.update(i, Some(e2))
                    &&& e2.exch_id == e.exch_id && e2.role == e.role
                    &&& send_update(
                        e.mrp,
                        e2.mrp,
                        plain,
                        proto,
                        final(tx_header).proto,
                        session_active_interval_ms,
                        r is Ok,
                    )
                }
            }),
    {
        let ctr_opt: Option<u32> = match exch_index {
            Some(i) => match &self.exchanges[i] {
                Some(e) => match &e.mrp.retrans {
                    Some(re) => Some(re.get_msg_ctr()),
                    None => None,
                },
                None => None,
            },
            None => None,
        };
        let retransmission = ctr_opt.is_some();
        tx_header.plain.sess_id = self.get_peer_sess_id();
        tx_header.plain.ctr = match ctr_opt {
            Some(c) => c,
            None => self.get_msg_ctr(),
        };
        tx_header.plain.src_nodeid = None;
        tx_header.plain.dst_nodeid = match self.mode {
            SessionMode::PlainText => self.peer_nodeid,
            _ => None,
        };
        tx_header.proto.adjust_reliability(&self.peer_addr);
        match exch_index {
            Some(i) => {
                let mut e = self.exchanges[i].unwrap();
                let res = e.mrp.pre_send(
                    &tx_header.plain,
                    &mut tx_header.proto,
                    session_active_interval_ms,
                    session_idle_interval_ms,
                );
                self.exchanges[i] = Some(e);
                match res {
                    Ok(()) => Ok((self.peer_addr, retransmission)),
                    Err(err) => Err(err),
                }
            },
            None => Ok((self.peer_addr, retransmission)),
        }
    }
}

/// The local session ids of the sessions.
pub open spec fn sess_ids(s: Seq<Session>) -> Seq<int> {
    s.map_values(|x: Session| x.local_sess_id as int)
}

/// The ids of the exchanges in which this node responds.
pub open spec fn responder_ids(ex: Seq<Option<ExchangeState>>) -> Seq<int>
    decreases ex.len(),
{
    if ex.len() == 0 {
        Seq::empty()
    } else {
        let rest = responder_ids(ex.drop_last());
        match ex.last() {
            Some(e) => if e.role is Responder {
                rest.push(e.exch_id as int)
            } else {
                rest
            },
            None => rest,
        }
    }
}

/// The ids of the exchanges of all sessions in which this node responds.
pub open spec fn all_responder_ids(s: Seq<Session>) -> Seq<int>
    decreases s.len(),
{
    if s.len() == 0 {
        Seq::empty()
    } else {
        all_responder_ids(s.drop_last()) + responder_ids(s.last().exchanges@)
    }
}

/// Whether this node responds in an exchange with id `x` of one of the sessions.
pub open spec fn responder_uses(s: Seq<Session>, x: int) -> bool {
    exists|i: int, j: int|
        0 <= i < s.len() && 0 <= j < s[i].exchanges@.len() && #[trigger] exch_responds(
            s[i].exchanges@[j],
            x,
        )
}

pub open spec fn exch_responds(e: Option<ExchangeState>, x: int) -> bool {
    match e {
        Some(e) => e.role is Responder && e.exch_id == x,
        None => false,
    }
}

/// The `k`-th candidate after `start` in the cycle 1, 2, ..., 65535, 1, ...
pub open spec fn cand_id(start: u16, k: nat) -> int {
    if start + k <= 0xffff {
        start + k
    } else {
        start + k - 0xffff
    }
}

/// Whether `r` is the local session id picked from `start` on: the first
/// value of the cycle of non-zero 16-bit values that no session uses.
pub open spec fn sess_id_pick(sessions: Seq<Session>, start: u16, r: u16) -> bool {
    &&& r != 0
    &&& !sess_ids(sessions).contains(r as int)
    &&& exists|k: nat|
        r == cand_id(start, k) && forall|j: nat|
            j < k ==> sess_ids(sessions).contains(#[trigger] cand_id(start, j))
}

/// The identifier that follows `x` in the cycle of non-zero 16-bit values.
pub open spec fn succ_id(x: u16) -> u16 {
    if x == 0xffff {
        1
    } else {
        (x + 1) as u16
    }
}

/// The `k`-th candidate after `start` in the cycle of 28-bit unique ids.
pub open spec fn cand_uid(start: u32, k: nat) -> int {
    if start + k <= MAX_SESS_UNIQUE_ID {
        start + k
    } else {
        start + k - (MAX_SESS_UNIQUE_ID + 1)
    }
}

/// The unique id that follows `x`, wrapping to 0 past 28 bits.
pub open spec fn succ_uid(x: u32) -> u32 {
    if x >= MAX_SESS_UNIQUE_ID {
        0
    } else {
        (x + 1) as u32
    }
}

pub open spec fn ids_unique(s: Seq<Session>) -> bool {
    forall|i: int, j: int| 0 <= i < j < s.len() ==> s[i].id != s[j].id
}

/// Whether some session has the unique id `id`.
pub open spec fn has_id(s: Seq<Session>, id: u32) -> bool {
    exists|i: int| 0 <= i < s.len() && #[trigger] s[i].id == id
}

/// The index of the session with id `id`.
pub open spec fn index_of(s: Seq<Session>, id: u32) -> int {
    choose|i: int| 0 <= i < s.len() && #[trigger] s[i].id == id
}

proof fn lemma_responder_ids(ex: Seq<Option<ExchangeState>>, x: int)
    ensures
        responder_ids(ex).len() <= ex.len(),
        responder_ids(ex).contains(x) <==> exists|j: int|
            0 <= j < ex.len() && #[trigger] exch_responds(ex[j], x),
    decreases ex.len(),
{
    if ex.len() > 0 {
        let d = ex.drop_last();
        lemma_responder_ids(d, x);
        let rest = responder_ids(d);
        if responder_ids(ex).contains(x) {
            let k = choose|k: int| 0 <= k < responder_ids(ex).len() && responder_ids(ex)[k] == x;
            if k < rest.len() {
                assert(rest[k] == x);
                assert(rest.contains(x));
                let j = choose|j: int| 0 <= j < d.len() && #[trigger] exch_responds(d[j], x);
                assert(exch_responds(ex[j], x));
            } else {
                assert(exch_responds(ex[ex.len() - 1], x));
            }
        }
        if exists|j: int| 0 <= j < ex.len() && #[trigger] exch_responds(ex[j], x) {
            let j = choose|j: int| 0 <= j < ex.len() && #[trigger] exch_responds(ex[j], x);
            if j < ex.len() - 1 {
                assert(exch_responds(d[j], x));
                let k = choose|k: int| 0 <= k < rest.len() && rest[k] == x;
                assert(responder_ids(ex)[k] == x);
            } else {
                assert(responder_ids(ex)[rest.len() as int] == x);
            }
        }
    }
}

proof fn lemma_all_responder_ids(s: Seq<Session>, x: int)
    requires
        forall|i: int| 0 <= i < s.len() ==> (#[trigger] s[i]).wf(),
    ensures
        all_responder_ids(s).len() <= MAX_EXCHANGES * s.len(),
        all_responder_ids(s).contains(x) <==> responder_uses(s, x),
    decreases s.len(),
{
    if s.len() > 0 {
        let d = s.drop_last();
        assert forall|i: int| 0 <= i < d.len() implies (#[trigger] d[i]).wf() by {
            assert(s[i].wf());
        }
        lemma_all_responder_ids(d, x);
        let last = s[s.len() - 1];
        assert(last.wf());
        lemma_responder_ids(last.exchanges@, x);
        let a = all_responder_ids(d);
        let b = responder_ids(last.exchanges@);
        assert(all_responder_ids(s) == a + b);
        if (a + b).contains(x) {
            let k = choose|k: int| 0 <= k < (a + b).len() && (a + b)[k] == x;
            if k < a.len() {
                assert(a[k] == x);
                assert(a.contains(x));
                let (i, j) = choose|i: int, j: int|
                    0 <= i < d.len() && 0 <= j < d[i].exchanges@.len() && #[trigger] exch_responds(
                        d[i].exchanges@[j],
                        x,
                    );
                assert(exch_responds(s[i].exchanges@[j], x));
            } else {
                assert(b[k - a.len()] == x);
                assert(b.contains(x));
                let j = choose|j: int|
                    0 <= j < last.exchanges@.len() && #[trigger] exch_responds(last.exchanges@[j], x);
                assert(exch_responds(s[s.len() - 1].exchanges@[j], x));
            }
        }
        if responder_uses(s, x) {
            let (i, j) = choose|i: int, j: int|
                0 <= i < s.len() && 0 <= j < s[i].exchanges@.len() && #[trigger] exch_responds(
                    s[i].exchanges@[j],
                    x,
                );
            if i < s.len() - 1 {
                assert(exch_responds(d[i].exchanges@[j], x));
                assert(a.contains(x));
                let k = choose|k: int| 0 <= k < a.len() && a[k] == x;
                assert((a + b)[k] == x);
            } else {
                assert(b.contains(x));
                let k = choose|k: int| 0 <= k < b.len() && b[k] == x;
                assert((a + b)[a.len() + k] == x);
            }
        }
        assert(b.len() <= MAX_EXCHANGES);
    }
}

/// A search that failed on `tried`, all of them values of `used`, tried no
/// more values than `used` has.
proof fn lemma_tried_bound(tried: Set<int>, used: Seq<int>)
    requires
        tried.finite(),
        forall|x: int| tried.contains(x) ==> used.contains(x),
    ensures
        tried.len() <= used.len(),
{
    used.lemma_cardinality_of_set();
    assert(tried.subset_of(used.to_set()));
    lemma_len_subset(tried, used.to_set());
}

/// A table of at most `MAX_SESSIONS` well-formed sessions with distinct ids.
pub open spec fn sessions_wf(s: Seq<Session>) -> bool {
    &&& s.len() <= MAX_SESSIONS
    &&& ids_unique(s)
    &&& forall|i: int| 0 <= i < s.len() ==> (#[trigger] s[i]).wf() && s[i].id <= MAX_SESS_UNIQUE_ID
}

proof fn lemma_unique_ids_preserved_push(s: Seq<Session>, n: Session)
    requires
        ids_unique(s),
        !has_id(s, n.id),
    ensures
        ids_unique(s.push(n)),
{
    let t = s.push(n);
    assert forall|a: int, b: int| 0 <= a < b < t.len() implies t[a].id != t[b].id by {
        if b == s.len() {
            assert(t[a] == s[a]);
        } else {
            assert(t[a] == s[a] && t[b] == s[b]);
        }
    }
}

/// The bounded table of sessions.
#[derive(Debug)]
pub struct SessionMgr {
    pub next_sess_unique_id: u32,
    pub next_sess_id: u16,
    pub next_exch_id: u16,
    pub sessions: Vec<Session>,
}

impl SessionMgr {
    pub open spec fn wf(&self) -> bool {
        &&& sessions_wf(self.sessions@)
        &&& self.next_sess_unique_id <= MAX_SESS_UNIQUE_ID
        &&& self.next_sess_id != 0
        &&& self.next_exch_id != 0
    }

    /// An empty table.
    pub fn new() -> (r: SessionMgr)
        ensures
            r.wf(),
            r.sessions@.len() == 0,
            r.next_sess_unique_id == 0,
            r.next_sess_id == 1,
            r.next_exch_id == 1,
    {
        SessionMgr { next_sess_unique_id: 0, next_sess_id: 1, next_exch_id: 1, sessions: Vec::new() }
    }

    /// The same empty table as `new`, for callers that initialise a slot.
    pub fn init() -> (r: SessionMgr)
        ensures
            r.wf(),
            r.sessions@.len() == 0,
            r.next_sess_unique_id == 0,
            r.next_sess_id == 1,
            r.next_exch_id == 1,
    {
        Self::new()
    }

    /// Whether the table is well formed; for callers that cannot prove it.
    pub fn check_wf(&self) -> (r: bool)
        ensures
            r == self.wf(),
    {
        if self.sessions.len() > MAX_SESSIONS || self.next_sess_unique_id > MAX_SESS_UNIQUE_ID
            || self.next_sess_id == 0 || self.next_exch_id == 0 {
            return false;
        }
        let n = self.sessions.len();
        let mut i: usize = 0;
        while i < n
            invariant
                n == self.sessions@.len(),
                i <= n,
                forall|a: int| 0 <= a < i ==> (#[trigger] self.sessions@[a]).wf() && self.sessions@[a].id
                    <= MAX_SESS_UNIQUE_ID,
                forall|a: int, b: int| 0 <= a < b < n && a < i ==> self.sessions@[a].id != self.sessions@[b].id,
            decreases n - i,
        {
            let s = &self.sessions[i];
            let mode_ok = match s.mode {
                SessionMode::Case { fab_idx, .. } => fab_idx != 0,
                _ => true,
            };
            if s.exchanges.len() > MAX_EXCHANGES || !mode_ok || s.id > MAX_SESS_UNIQUE_ID {
                assert(!self.sessions@[i as int].wf() || self.sessions@[i as int].id > MAX_SESS_UNIQUE_ID);
                return false;
            }
            let mut j: usize = i + 1;
            while j < n
                invariant
                    n == self.sessions@.len(),
                    i < n,
                    i + 1 <= j <= n,
                    *s == self.sessions@[i as int],
                    forall|b: int| i < b < j ==> self.sessions@[i as int].id != self.sessions@[b].id,
                decreases n - j,
            {
                if self.sessions[j].id == s.id {
                    assert(!ids_unique(self.sessions@));
                    return false;
                }
                j = j + 1;
            }
            i = i + 1;
        }
        true
    }

    /// Drop every session and restart the session and exchange ids.
    pub fn reset(&mut self)
        requires
            old(self).wf(),
        ensures
            final(self).wf(),
            final(self).sessions@.len() == 0,
            final(self).next_sess_id == 1,
            final(self).next_exch_id == 1,
            final(self).next_sess_unique_id == old(self).next_sess_unique_id,
    {
        self.sessions.clear();
        self.next_sess_id = 1;
        self.next_exch_id = 1;
    }

    fn sess_id_in_use(&self, id: u16) -> (r: bool)
        ensures
            r == sess_ids(self.sessions@).contains(id as int),
    {
        let mut i: usize = 0;
        while i < self.sessions.len()
            invariant
                i <= self.sessions@.len(),
                forall|j: int| 0 <= j < i ==> self.sessions@[j].local_sess_id != id,
            decreases self.sessions@.len() - i,
        {
            if self.sessions[i].local_sess_id == id {
                assert(sess_ids(self.sessions@)[i as int] == id as int);
                return true;
            }
            i = i + 1;
        }
        assert(!sess_ids(self.sessions@).contains(id as int)) by {
            if sess_ids(self.sessions@).contains(id as int) {
                let k = choose|k: int|
                    0 <= k < sess_ids(self.sessions@).len() && sess_ids(self.sessions@)[k] == id;
                assert(self.sessions@[k].local_sess_id == id);
            }
        }
        false
    }

    fn exch_id_in_use(&self, id: u16) -> (r: bool)
        ensures
            r == responder_uses(self.sessions@, id as int),
    {
        let mut i: usize = 0;
        while i < self.sessions.len()
            invariant
                i <= self.sessions@.len(),
                forall|a: int, b: int|
                    0 <= a < i && 0 <= b < self.sessions@[a].exchanges@.len() ==> !exch_responds(
                        #[trigger] self.sessions@[a].exchanges@[b],
                        id as int,
                    ),
            decreases self.sessions@.len() - i,
        {
            let sess = &self.sessions[i];
            let mut j: usize = 0;
            while j < sess.exchanges.len()
                invariant
                    i < self.sessions@.len(),
                    *sess == self.sessions@[i as int],
                    j <= sess.exchanges@.len(),
                    forall|b: int| 0 <= b < j ==> !exch_responds(#[trigger] sess.exchanges@[b], id as int),
                decreases sess.exchanges@.len() - j,
            {
                match &sess.exchanges[j] {
                    Some(e) => {
                        if e.role.is_responder() && e.exch_id == id {
                            assert(exch_responds(self.sessions@[i as int].exchanges@[j as int], id as int));
                            return true;
                        }
                    },
                    None => {},
                }
                j = j + 1;
            }
            i = i + 1;
        }
        false
    }

    /// A local session id that is not 0 and that no session uses: the first
    /// such value from `next_sess_id` on, in the cycle of non-zero values.
    pub fn get_next_sess_id(&mut self) -> (r: u16)
        requires
            old(self).wf(),
        ensures
            final(self).wf(),
            sess_id_pick(old(self).sessions@, old(self).next_sess_id, r),
            *final(self) == (SessionMgr { next_sess_id: succ_id(r), ..*old(self) }),
    {
        let ghost start = self.next_sess_id;
        let ghost used = sess_ids(self.sessions@);
        let ghost mut tried: Set<int> = Set::empty();
        let ghost mut k: nat = 0;
        loop
            invariant
                *self == (SessionMgr { next_sess_id: self.next_sess_id, ..*old(self) }),
                old(self).wf(),
                start == old(self).next_sess_id,
                used == sess_ids(old(self).sessions@),
                self.next_sess_id == cand_id(start, k),
                self.next_sess_id != 0,
                tried.finite(),
                tried.len() == k,
                k <= used.len(),
                forall|x: int| tried.contains(x) ==> used.contains(x),
                forall|x: int| tried.contains(x) ==> exists|j: nat| j < k && x == cand_id(start, j),
                forall|j: nat| j < k ==> used.contains(#[trigger] cand_id(start, j)),
            decreases used.len() - k,
        {
            let cand = self.next_sess_id;
            self.next_sess_id = if cand == 0xffff {
                1
            } else {
                cand + 1
            };
            if !self.sess_id_in_use(cand) {
                assert(cand == cand_id(start, k));
                return cand;
            }
            proof {
                assert(!tried.contains(cand as int)) by {
                    if tried.contains(cand as int) {
                        let j = choose|j: nat| j < k && cand as int == cand_id(start, j);
                    }
                }
                assert forall|j: nat| j < k + 1 implies used.contains(#[trigger] cand_id(start, j)) by {
                    if j == k {
                        assert(cand_id(start, j) == cand);
                    }
                }
                tried = tried.insert(cand as int);
                k = k + 1;
                lemma_tried_bound(tried, used);
                assert(self.next_sess_id == cand_id(start, k));
            }
        }
    }

    /// An exchange id that is not 0 and that no exchange in which this node
    /// responds uses: the first such value from `next_exch_id` on, in the
    /// cycle of non-zero values.
    pub fn get_next_exch_id(&mut self) -> (r: u16)
        requires
            old(self).wf(),
        ensures
            final(self).wf(),
            r != 0,
            !responder_uses(old(self).sessions@, r as int),
            exists|k: nat|
                r == cand_id(old(self).next_exch_id, k) && forall|j: nat|
                    j < k ==> responder_uses(
                        old(self).sessions@,
                        #[trigger] cand_id(old(self).next_exch_id, j),
                    ),
            *final(self) == (SessionMgr { next_exch_id: succ_id(r), ..*old(self) }),
    {
        let ghost start = self.next_exch_id;
        let ghost used = all_responder_ids(self.sessions@);
        proof {
            lemma_all_responder_ids(self.sessions@, 0);
        }
        let ghost mut tried: Set<int> = Set::empty();
        let ghost mut k: nat = 0;
        loop
            invariant
                *self == (SessionMgr { next_exch_id: self.next_exch_id, ..*old(self) }),
                old(self).wf(),
                start == old(self).next_exch_id,
                used == all_responder_ids(old(self).sessions@),
                used.len() <= MAX_EXCHANGES * MAX_SESSIONS,
                self.next_exch_id == cand_id(start, k),
                self.next_exch_id != 0,
                tried.finite(),
                tried.len() == k,
                k <= used.len(),
                forall|x: int| tried.contains(x) ==> used.contains(x),
                forall|x: int| tried.contains(x) ==> exists|j: nat| j < k && x == cand_id(start, j),
                forall|j: nat| j < k ==> responder_uses(old(self).sessions@, #[trigger] cand_id(start, j)),
            decreases used.len() - k,
        {
            let cand = self.next_exch_id;
            self.next_exch_id = if cand == 0xffff {
                1
            } else {
                cand + 1
            };
            if !self.exch_id_in_use(cand) {
                assert(cand == cand_id(start, k));
                return cand;
            }
            proof {
                lemma_all_responder_ids(old(self).sessions@, cand as int);
                assert(!tried.contains(cand as int)) by {
                    if tried.contains(cand as int) {
                        let j = choose|j: nat| j < k && cand as int == cand_id(start, j);
                    }
                }
                assert forall|j: nat| j < k + 1 implies responder_uses(
                    old(self).sessions@,
                    #[trigger] cand_id(start, j),
                ) by {
                    if j == k {
                        assert(cand_id(start, j) == cand);
                    }
                }
                tried = tried.insert(cand as int);
                k = k + 1;
                lemma_tried_bound(tried, used);
                assert(self.next_exch_id == cand_id(start, k));
            }
        }
    }
}

/// The sessions without the one with id `id`, if there is one.
pub open spec fn without(s: Seq<Session>, id: u32) -> Seq<Session> {
    if has_id(s, id) {
        s.remove(index_of(s, id))
    } else {
        s
    }
}

/// Whether a session stays when the sessions of fabric `f` are removed,
/// all but the one with id `keep`.
pub open spec fn stays(f: u8, keep: Option<u32>) -> spec_fn(Session) -> bool {
    |s: Session| !(s.mode.fab() == f && keep != Some(s.id))
}

/// The session, marked expired if it is the one with id `keep`.
pub open spec fn expire_kept(keep: Option<u32>) -> spec_fn(Session) -> Session {
    |s: Session|
        if keep == Some(s.id) {
            Session { expired: true, ..s }
        } else {
            s
        }
}

/// The table after removing the sessions of fabric `f` but the one with id
/// `keep`, which is marked expired.
pub open spec fn removed_for_fabric(s: Seq<Session>, f: u8, keep: Option<u32>) -> Seq<Session> {
    s.filter(stays(f, keep)).map_values(expire_kept(keep))
}

/// Whether session `i` is the first idle expired one.
pub open spec fn first_idle_expired(s: Seq<Session>, i: int) -> bool {
    0 <= i < s.len() && s[i].idle() && s[i].expired && forall|j: int|
        0 <= j < i ==> !(#[trigger] s[j].idle() && s[j].expired)
}

/// Whether session `i` is the first idle one used least recently, and used
/// before `now_ms`.
pub open spec fn lru_candidate(s: Seq<Session>, now_ms: u64, i: int) -> bool {
    &&& 0 <= i < s.len()
    &&& s[i].idle()
    &&& s[i].last_use < now_ms
    &&& forall|j: int| 0 <= j < s.len() && #[trigger] s[j].idle() ==> s[i].last_use <= s[j].last_use
    &&& forall|j: int| 0 <= j < i && #[trigger] s[j].idle() ==> s[i].last_use < s[j].last_use
}

/// The session to evict: the first idle expired one, else the idle one used
/// least recently before `now_ms`, else none.
pub open spec fn evict_index(s: Seq<Session>, now_ms: u64) -> Option<int> {
    if exists|i: int| first_idle_expired(s, i) {
        Some(choose|i: int| first_idle_expired(s, i))
    } else if exists|i: int| lru_candidate(s, now_ms, i) {
        Some(choose|i: int| lru_candidate(s, now_ms, i))
    } else {
        None
    }
}

proof fn lemma_remove_unique(s: Seq<Session>, i: int)
    requires
        ids_unique(s),
        0 <= i < s.len(),
    ensures
        ids_unique(s.remove(i)),
{
    let r = s.remove(i);
    assert forall|a: int, b: int| 0 <= a < b < r.len() implies r[a].id != r[b].id by {
        let a2 = if a < i { a } else { a + 1 };
        let b2 = if b < i { b } else { b + 1 };
        assert(r[a] == s[a2]);
        assert(r[b] == s[b2]);
    }
}

impl SessionMgr {
    fn uid_in_use(&self, id: u32) -> (r: bool)
        ensures
            r == has_id(self.sessions@, id),
    {
        let mut i: usize = 0;
        while i < self.sessions.len()
            invariant
                i <= self.sessions@.len(),
                forall|j: int| 0 <= j < i ==> self.sessions@[j].id != id,
            decreases self.sessions@.len() - i,
        {
            if self.sessions[i].id == id {
                return true;
            }
            i = i + 1;
        }
        false
    }

    /// Take the next unique session id that no live session has.
    fn next_unique_id(&mut self) -> (r: u32)
        requires
            old(self).wf(),
            old(self).sessions@.len() < MAX_SESSIONS,
        ensures
            r <= MAX_SESS_UNIQUE_ID,
            !has_id(old(self).sessions@, r),
            exists|k: nat|
                r == cand_uid(old(self).next_sess_unique_id, k) && forall|j: nat|
                    j < k ==> has_id(
                        old(self).sessions@,
                        #[trigger] cand_uid(old(self).next_sess_unique_id, j) as u32,
                    ),
            *final(self) == (SessionMgr { next_sess_unique_id: succ_uid(r), ..*old(self) }),
    {
        let ghost start = self.next_sess_unique_id;
        let ghost used = self.sessions@.map_values(|x: Session| x.id as int);
        let ghost mut tried: Set<int> = Set::empty();
        let ghost mut k: nat = 0;
        loop
            invariant
                *self == (SessionMgr { next_sess_unique_id: self.next_sess_unique_id, ..*old(self) }),
                old(self).wf(),
                old(self).sessions@.len() < MAX_SESSIONS,
                start == old(self).next_sess_unique_id,
                used == old(self).sessions@.map_values(|x: Session| x.id as int),
                self.next_sess_unique_id == cand_uid(start, k),
                self.next_sess_unique_id <= MAX_SESS_UNIQUE_ID,
                tried.finite(),
                tried.len() == k,
                k <= used.len(),
                forall|x: int| tried.contains(x) ==> used.contains(x),
                forall|x: int| tried.contains(x) ==> exists|j: nat| j < k && x == cand_uid(start, j),
                forall|j: nat| j < k ==> has_id(old(self).sessions@, #[trigger] cand_uid(start, j) as u32),
            decreases used.len() - k,
        {
            let cand = self.next_sess_unique_id;
            self.next_sess_unique_id = if cand >= MAX_SESS_UNIQUE_ID {
                0
            } else {
                cand + 1
            };
            if !self.uid_in_use(cand) {
                assert(cand == cand_uid(start, k));
                return cand;
            }
            proof {
                let i = choose|i: int| 0 <= i < self.sessions@.len() && #[trigger] self.sessions@[i].id == cand;
                assert(used[i] == cand as int);
                assert(!tried.contains(cand as int)) by {
                    if tried.contains(cand as int) {
                        let j = choose|j: nat| j < k && cand as int == cand_uid(start, j);
                    }
                }
                assert forall|j: nat| j < k + 1 implies has_id(old(self).sessions@, #[trigger] cand_uid(start, j) as u32) by {
                    if j == k {
                        assert(cand_uid(start, j) == cand);
                    }
                }
                tried = tried.insert(cand as int);
                k = k + 1;
                lemma_tried_bound(tried, used);
                assert(self.next_sess_unique_id == cand_uid(start, k));
            }
        }
    }

    /// Insert a new zeroed session, used at `now_ms`, with a message counter
    /// drawn from `rand`, under the next unique id that no live session has.
    /// Fails when the table is full.
    pub fn add(
        &mut self,
        reserved: bool,
        peer_addr: Address,
        peer_nodeid: Option<u64>,
        now_ms: u64,
        rand: u32,
    ) -> (r: Result<&mut Session, Error>)
        requires
            old(self).wf(),
        ensures
            old(self).sessions@.len() >= MAX_SESSIONS ==> r is Err && r->Err_0
                == ErrorCode::NoSpaceSessions && *final(self) == *old(self),
            old(self).sessions@.len() < MAX_SESSIONS ==> r is Ok && {
                let s = *r->Ok_0;
                &&& s.fresh(s.id, reserved, peer_addr, peer_nodeid, now_ms, rand)
                &&& s.wf()
                &&& s.id <= MAX_SESS_UNIQUE_ID
                &&& !has_id(old(self).sessions@, s.id)
                &&& exists|k: nat|
                    s.id == cand_uid(old(self).next_sess_unique_id, k) && forall|j: nat|
                        j < k ==> has_id(
                            old(self).sessions@,
                            #[trigger] cand_uid(old(self).next_sess_unique_id, j) as u32,
                        )
                &&& *final(self) == (SessionMgr {
                    next_sess_unique_id: succ_uid(s.id),
                    sessions: final(self).sessions,
                    ..*old(self)
                })
                &&& final(self).sessions@ == old(self).sessions@.push(*final(r->Ok_0))
                &&& final(r->Ok_0).id == s.id && final(r->Ok_0).wf() ==> final(self).wf()
            },
    {
        if self.sessions.len() >= MAX_SESSIONS {
            return Err(ErrorCode::NoSpaceSessions);
        }
        let id = self.next_unique_id();
        let session = Session::init(id, reserved, peer_addr, peer_nodeid, now_ms, rand);
        self.sessions.push(session);
        let last = self.sessions.len() - 1;
        proof {
            assert(self.sessions@[last as int].id == id);
        }
        let r = self.session_mut(last);
        proof {
            let os = old(self).sessions@;
            assert forall|x: Session| x.id == id && x.wf() implies sessions_wf(#[trigger] os.push(x)) by {
                lemma_unique_ids_preserved_push(os, x);
                assert forall|a: int| 0 <= a < os.push(x).len() implies (#[trigger] os.push(x)[a]).wf() by {
                    if a < os.len() {
                        assert(os.push(x)[a] == os[a]);
                    }
                }
            }
        }
        Ok(r)
    }
}

/// Whether session `i` is the first one not expired that is published for a
/// peer node on a fabric.
pub open spec fn first_for_node(s: Seq<Session>, fabric_idx: u8, peer_node_id: u64, secure: bool, i: int) -> bool {
    &&& 0 <= i < s.len()
    &&& !s[i].expired && s[i].for_node(fabric_idx, peer_node_id, secure)
    &&& forall|j: int|
        0 <= j < i ==> !(!(#[trigger] s[j]).expired && s[j].for_node(fabric_idx, peer_node_id, secure))
}

/// Whether session `i` is the first one that a received message belongs to.
pub open spec fn first_for_rx(s: Seq<Session>, rx_peer: Address, rx_plain: PlainHdr, i: int) -> bool {
    &&& 0 <= i < s.len()
    &&& s[i].for_rx(rx_peer, rx_plain)
    &&& forall|j: int| 0 <= j < i ==> !(#[trigger] s[j]).for_rx(rx_peer, rx_plain)
}

impl Session {
    fn has_no_exchanges(&self) -> (r: bool)
        ensures
            r == forall|j: int| 0 <= j < self.exchanges@.len() ==> #[trigger] self.exchanges@[j] is None,
    {
        let mut i: usize = 0;
        while i < self.exchanges.len()
            invariant
                i <= self.exchanges@.len(),
                forall|j: int| 0 <= j < i ==> #[trigger] self.exchanges@[j] is None,
            decreases self.exchanges@.len() - i,
        {
            if self.exchanges[i].is_some() {
                return false;
            }
            i = i + 1;
        }
        true
    }
}

impl SessionMgr {
    fn session_mut(&mut self, i: usize) -> (r: &mut Session)
        requires
            i < old(self).sessions@.len(),
        ensures
            *r == old(self).sessions@[i as int],
            final(self).sessions@ == old(self).sessions@.update(i as int, *final(r)),
            *final(self) == (SessionMgr { sessions: final(self).sessions, ..*old(self) }),
    {
        &mut self.sessions[i]
    }

    fn touch(&mut self, i: usize, now_ms: u64) -> (r: &mut Session)
        requires
            i < old(self).sessions@.len(),
        ensures
            *r == (Session { last_use: now_ms, ..old(self).sessions@[i as int] }),
            final(self).sessions@ == old(self).sessions@.update(i as int, *final(r)),
            *final(self) == (SessionMgr { sessions: final(self).sessions, ..*old(self) }),
    {
        let r = self.session_mut(i);
        r.update_last_used(now_ms);
        r
    }

    fn index_of_id(&self, id: u32) -> (r: Option<usize>)
        requires
            self.wf(),
        ensures
            r is None ==> !has_id(self.sessions@, id),
            r is Some ==> r->Some_0 == index_of(self.sessions@, id) && r->Some_0 < self.sessions@.len()
                && self.sessions@[r->Some_0 as int].id == id,
    {
        let mut i: usize = 0;
        while i < self.sessions.len()
            invariant
                i <= self.sessions@.len(),
                self.wf(),
                forall|j: int| 0 <= j < i ==> self.sessions@[j].id != id,
            decreases self.sessions@.len() - i,
        {
            if self.sessions[i].id == id {
                proof {
                    assert(self.sessions@[i as int].id == id);
                    assert(has_id(self.sessions@, id));
                    let k = index_of(self.sessions@, id);
                    assert(self.sessions@[k].id == id);
                    if k < i {
                        assert(self.sessions@[k].id != self.sessions@[i as int].id);
                    } else if k > i {
                        assert(self.sessions@[i as int].id != self.sessions@[k].id);
                    }
                }
                return Some(i);
            }
            i = i + 1;
        }
        None
    }

    /// Remove the session with unique id `id`, and hand it back.
    pub fn remove(&mut self, id: u32) -> (r: Option<Session>)
        requires
            old(self).wf(),
        ensures
            final(self).wf(),
            has_id(old(self).sessions@, id) ==> r == Some(old(self).sessions@[index_of(old(self).sessions@, id)])
                && final(self).sessions@ == old(self).sessions@.remove(index_of(old(self).sessions@, id)),
            !has_id(old(self).sessions@, id) ==> r is None && *final(self) == *old(self),
            *final(self) == (SessionMgr { sessions: final(self).sessions, ..*old(self) }),
    {
        match self.index_of_id(id) {
            Some(i) => {
                proof {
                    lemma_remove_unique(self.sessions@, i as int);
                }
                let s = self.sessions.remove(i);
                Some(s)
            },
            None => None,
        }
    }

    /// Remove every session of fabric `fabric_idx` but the one with id
    /// `expire_sess_id`, and mark that one expired, so that it finishes its
    /// exchanges and is evicted first.
    pub fn remove_for_fabric(&mut self, fabric_idx: u8, expire_sess_id: Option<u32>)
        requires
            old(self).wf(),
            fabric_idx != 0,
        ensures
            final(self).wf(),
            final(self).sessions@ == removed_for_fabric(old(self).sessions@, fabric_idx, expire_sess_id),
            *final(self) == (SessionMgr { sessions: final(self).sessions, ..*old(self) }),
    {
        let ghost old_s = self.sessions@;
        let ghost p = stays(fabric_idx, expire_sess_id);
        let mut i: usize = 0;
        let ghost mut j: int = 0;
        while i < self.sessions.len()
            invariant
                *self == (SessionMgr { sessions: self.sessions, ..*old(self) }),
                old(self).wf(),
                old_s == old(self).sessions@,
                p == stays(fabric_idx, expire_sess_id),
                0 <= j <= old_s.len(),
                self.sessions@ == old_s.take(j).filter(p) + old_s.skip(j),
                i == old_s.take(j).filter(p).len(),
                self.wf(),
            decreases self.sessions@.len() - i,
        {
            let ghost filt = old_s.take(j).filter(p);
            proof {
                assert(old_s.skip(j)[0] == self.sessions@[i as int]);
                assert(old_s.take(j + 1) =~= old_s.take(j).push(old_s[j]));
                old_s.take(j).lemma_filter_push(old_s[j], p);
            }
            let fab = self.sessions[i].get_local_fabric_idx();
            let sid = self.sessions[i].id;
            let is_kept = match expire_sess_id {
                Some(k) => k == sid,
                None => false,
            };
            proof {
                let x = old_s[j];
                assert(self.sessions@[i as int] == x);
                assert(x.mode.fab() == fab);
                assert(is_kept == (expire_sess_id == Some(x.id)));
                assert(p(x) == !(x.mode.fab() == fabric_idx && expire_sess_id != Some(x.id)));
            }
            if fab == fabric_idx && !is_kept {
                proof {
                    lemma_remove_unique(self.sessions@, i as int);
                }
                let _ = self.sessions.remove(i);
                proof {
                    assert(old_s.take(j + 1).filter(p) == filt);
                    assert forall|a: int| 0 <= a < self.sessions@.len() implies self.sessions@[a] == (filt
                        + old_s.skip(j + 1))[a] by {
                        if a >= i {
                            assert(self.sessions@[a] == (filt + old_s.skip(j))[a + 1]);
                        }
                    }
                    assert(self.sessions@ =~= old_s.take(j + 1).filter(p) + old_s.skip(j + 1));
                }
            } else {
                proof {
                    assert(old_s.take(j + 1).filter(p) == filt.push(old_s[j]));
                    assert forall|a: int| 0 <= a < self.sessions@.len() implies self.sessions@[a] == (filt.push(old_s[j])
                        + old_s.skip(j + 1))[a] by {
                        if a > i {
                            assert(self.sessions@[a] == old_s.skip(j)[a - i]);
                        }
                    }
                    assert(self.sessions@ =~= old_s.take(j + 1).filter(p) + old_s.skip(j + 1));
                }
                i = i + 1;
            }
            proof {
                j = j + 1;
            }
        }
        proof {
            assert(old_s.take(j) =~= old_s);
            assert(self.sessions@ =~= old_s.filter(p));
        }
        let ghost filtered = self.sessions@;
        let ghost target = removed_for_fabric(old_s, fabric_idx, expire_sess_id);
        if let Some(keep) = expire_sess_id {
            let mut k: usize = 0;
            while k < self.sessions.len()
                invariant
                    *self == (SessionMgr { sessions: self.sessions, ..*old(self) }),
                    old(self).wf(),
                    expire_sess_id == Some(keep),
                    filtered.len() == self.sessions@.len(),
                    target == filtered.map_values(expire_kept(expire_sess_id)),
                    k <= self.sessions@.len(),
                    forall|a: int| 0 <= a < k ==> self.sessions@[a] == target[a],
                    forall|a: int| k <= a < self.sessions@.len() ==> self.sessions@[a] == filtered[a],
                    ids_unique(filtered),
                    filtered.len() <= MAX_SESSIONS,
                    forall|a: int| 0 <= a < filtered.len() ==> (#[trigger] filtered[a]).wf(),
                decreases self.sessions@.len() - k,
            {
                if self.sessions[k].id == keep {
                    let s = self.session_mut(k);
                    s.expired = true;
                }
                assert(self.sessions@[k as int] == target[k as int]);
                k = k + 1;
            }
            proof {
                assert(self.sessions@ =~= target);
                assert forall|a: int, b: int| 0 <= a < b < target.len() implies target[a].id != target[b].id by {
                    assert(filtered[a].id != filtered[b].id);
                }
                assert forall|a: int| 0 <= a < target.len() implies (#[trigger] target[a]).wf() by {
                    assert(filtered[a].wf());
                }
            }
        } else {
            proof {
                assert forall|a: int| 0 <= a < filtered.len() implies target[a] == filtered[a] by {}
                assert(self.sessions@ =~= target);
            }
        }
    }

    /// The session with unique id `id`, marked used at `now_ms`.
    pub fn get(&mut self, id: u32, now_ms: u64) -> (r: Option<&mut Session>)
        requires
            old(self).wf(),
        ensures
            has_id(old(self).sessions@, id) ==> r is Some && {
                let i = index_of(old(self).sessions@, id);
                &&& *r->Some_0 == (Session { last_use: now_ms, ..old(self).sessions@[i] })
                &&& final(self).sessions@ == old(self).sessions@.update(i, *final(r->Some_0))
                &&& *final(self) == (SessionMgr { sessions: final(self).sessions, ..*old(self) })
            },
            !has_id(old(self).sessions@, id) ==> r is None && *final(self) == *old(self),
    {
        match self.index_of_id(id) {
            Some(i) => Some(self.touch(i, now_ms)),
            None => None,
        }
    }

    /// The first session, not expired, published for node `peer_node_id` on
    /// fabric `fabric_idx` with the given security; marked used at `now_ms`.
    pub fn get_for_node(&mut self, fabric_idx: u8, peer_node_id: u64, secure: bool, now_ms: u64) -> (r: Option<&mut Session>)
        ensures
            forall|i: int| first_for_node(old(self).sessions@, fabric_idx, peer_node_id, secure, i) ==> r is Some && {
                &&& *r->Some_0 == (Session { last_use: now_ms, ..old(self).sessions@[i] })
                &&& final(self).sessions@ == old(self).sessions@.update(i, *final(r->Some_0))
                &&& *final(self) == (SessionMgr { sessions: final(self).sessions, ..*old(self) })
            },
            (forall|i: int| 0 <= i < old(self).sessions@.len() ==> !(!(#[trigger] old(self).sessions@[i]).expired
                && old(self).sessions@[i].for_node(fabric_idx, peer_node_id, secure))) ==> r is None
                && *final(self) == *old(self),
    {
        let mut i: usize = 0;
        while i < self.sessions.len()
            invariant
                i <= self.sessions@.len(),
                *self == *old(self),
                forall|j: int| 0 <= j < i ==> !(!(#[trigger] self.sessions@[j]).expired
                    && self.sessions@[j].for_node(fabric_idx, peer_node_id, secure)),
            decreases self.sessions@.len() - i,
        {
            if !self.sessions[i].is_expired() && self.sessions[i].is_for_node(fabric_idx, peer_node_id, secure) {
                proof {
                    let ss = self.sessions@;
                    assert forall|k: int| first_for_node(ss, fabric_idx, peer_node_id, secure, k) implies k == i by {
                        if k < i {
                            assert(!(!ss[k].expired && ss[k].for_node(fabric_idx, peer_node_id, secure)));
                        } else if k > i {
                            assert(!(!ss[i as int].expired && ss[i as int].for_node(fabric_idx, peer_node_id, secure)));
                        }
                    }
                }
                return Some(self.touch(i, now_ms));
            }
            i = i + 1;
        }
        None
    }

    /// The first session that a received message belongs to; marked used at
    /// `now_ms`.
    pub fn get_for_rx(&mut self, rx_peer: &Address, rx_plain: &PlainHdr, now_ms: u64) -> (r: Option<&mut Session>)
        ensures
            forall|i: int| first_for_rx(old(self).sessions@, *rx_peer, *rx_plain, i) ==> r is Some && {
                &&& *r->Some_0 == (Session { last_use: now_ms, ..old(self).sessions@[i] })
                &&& final(self).sessions@ == old(self).sessions@.update(i, *final(r->Some_0))
                &&& *final(self) == (SessionMgr { sessions: final(self).sessions, ..*old(self) })
            },
            (forall|i: int| 0 <= i < old(self).sessions@.len() ==> !(#[trigger] old(self).sessions@[i]).for_rx(*rx_peer, *rx_plain))
                ==> r is None && *final(self) == *old(self),
    {
        let mut i: usize = 0;
        while i < self.sessions.len()
            invariant
                i <= self.sessions@.len(),
                *self == *old(self),
                forall|j: int| 0 <= j < i ==> !(#[trigger] self.sessions@[j]).for_rx(*rx_peer, *rx_plain),
            decreases self.sessions@.len() - i,
        {
            if self.sessions[i].is_for_rx(rx_peer, rx_plain) {
                proof {
                    let ss = self.sessions@;
                    assert forall|k: int| first_for_rx(ss, *rx_peer, *rx_plain, k) implies k == i by {
                        if k < i {
                            assert(!ss[k].for_rx(*rx_peer, *rx_plain));
                        } else if k > i {
                            assert(!ss[i as int].for_rx(*rx_peer, *rx_plain));
                        }
                    }
                }
                return Some(self.touch(i, now_ms));
            }
            i = i + 1;
        }
        None
    }

    /// The session to evict: among sessions that are not reserved and have no
    /// live exchange, the first expired one, else the one used least recently
    /// before `now_ms`.
    pub fn get_session_for_eviction(&mut self, now_ms: u64) -> (r: Option<&mut Session>)
        ensures
            match evict_index(old(self).sessions@, now_ms) {
                Some(i) => r is Some && *r->Some_0 == old(self).sessions@[i]
                    && final(self).sessions@ == old(self).sessions@.update(i, *final(r->Some_0))
                    && *final(self) == (SessionMgr { sessions: final(self).sessions, ..*old(self) }),
                None => r is None && *final(self) == *old(self),
            },
    {
        let ghost ss = self.sessions@;
        let mut lru: Option<usize> = None;
        let mut lru_ts: u64 = now_ms;
        let mut i: usize = 0;
        while i < self.sessions.len()
            invariant
                *self == *old(self),
                ss == self.sessions@,
                i <= ss.len(),
                forall|j: int| 0 <= j < i ==> !(#[trigger] ss[j].idle() && ss[j].expired),
                lru is None ==> lru_ts == now_ms && forall|j: int| 0 <= j < i && #[trigger] ss[j].idle() ==> ss[j].last_use >= now_ms,
                lru is Some ==> {
                    let m = lru->Some_0 as int;
                    &&& m < i
                    &&& ss[m].idle()
                    &&& lru_ts == ss[m].last_use
                    &&& lru_ts < now_ms
                    &&& forall|j: int| 0 <= j < i && #[trigger] ss[j].idle() ==> lru_ts <= ss[j].last_use
                    &&& forall|j: int| 0 <= j < m && #[trigger] ss[j].idle() ==> lru_ts < ss[j].last_use
                },
            decreases ss.len() - i,
        {
            let expired = self.sessions[i].expired;
            let last_use = self.sessions[i].last_use;
            if (expired || last_use < lru_ts) && !self.sessions[i].reserved && self.sessions[i].has_no_exchanges() {
                if expired {
                    proof {
                        assert(first_idle_expired(ss, i as int));
                        assert forall|k: int| first_idle_expired(ss, k) implies k == i by {
                            if k < i {
                                assert(!(ss[k].idle() && ss[k].expired));
                            } else if k > i {
                                assert(!(ss[i as int].idle() && ss[i as int].expired));
                            }
                        }
                    }
                    return Some(self.session_mut(i));
                }
                lru_ts = last_use;
                lru = Some(i);
            }
            i = i + 1;
        }
        proof {
            assert(!exists|k: int| first_idle_expired(ss, k));
        }
        match lru {
            Some(m) => {
                proof {
                    assert(lru_candidate(ss, now_ms, m as int));
                    assert forall|k: int| lru_candidate(ss, now_ms, k) implies k == m by {
                        if k < m {
                            assert(ss[m as int].last_use <= ss[k].last_use);
                        } else if k > m {
                            assert(ss[k].last_use <= ss[m as int].last_use);
                        }
                    }
                }
                Some(self.session_mut(m))
            },
            None => {
                proof {
                    assert(!exists|k: int| lru_candidate(ss, now_ms, k));
                }
                None
            },
        }
    }

    /// The first live exchange that `f` accepts, in table order and then in
    /// slot order, with its session, marked used at `now_ms`; none when `f`
    /// accepts no live exchange.
    pub fn get_exch<F: Fn(&Session, &ExchangeState) -> bool>(&mut self, f: F, now_ms: u64) -> (r: Option<(&mut Session, usize)>)
        requires
            forall|s: &Session, e: &ExchangeState| f.requires((s, e)),
        ensures
            r is None ==> *final(self) == *old(self) && forall|i: int, j: int|
                0 <= i < old(self).sessions@.len() && 0 <= j < old(self).sessions@[i].exchanges@.len()
                    && (#[trigger] old(self).sessions@[i].exchanges@[j]) is Some ==> f.ensures(
                    (&old(self).sessions@[i], &old(self).sessions@[i].exchanges@[j]->Some_0),
                    false,
                ),
            r is Some ==> exists|i: int|
                0 <= i < old(self).sessions@.len() && {
                    let j = r->Some_0.1 as int;
                    let s = #[trigger] old(self).sessions@[i];
                    &&& 0 <= j < s.exchanges@.len()
                    &&& s.exchanges@[j] is Some
                    &&& f.ensures((&s, &s.exchanges@[j]->Some_0), true)
                    &&& forall|c: int|
                        0 <= c < j && (#[trigger] s.exchanges@[c]) is Some ==> f.ensures(
                            (&s, &s.exchanges@[c]->Some_0),
                            false,
                        )
                    &&& forall|a: int, c: int|
                        0 <= a < i && 0 <= c < old(self).sessions@[a].exchanges@.len()
                            && (#[trigger] old(self).sessions@[a].exchanges@[c]) is Some ==> f.ensures(
                            (&old(self).sessions@[a], &old(self).sessions@[a].exchanges@[c]->Some_0),
                            false,
                        )
                    &&& *r->Some_0.0 == (Session { last_use: now_ms, ..s })
                    &&& final(self).sessions@ == old(self).sessions@.update(i, *final(r->Some_0.0))
                    &&& *final(self) == (SessionMgr { sessions: final(self).sessions, ..*old(self) })
                },
    {
        let mut i: usize = 0;
        while i < self.sessions.len()
            invariant
                i <= self.sessions@.len(),
                *self == *old(self),
                forall|s: &Session, e: &ExchangeState| f.requires((s, e)),
                forall|a: int, b: int|
                    0 <= a < i && 0 <= b < self.sessions@[a].exchanges@.len()
                        && (#[trigger] self.sessions@[a].exchanges@[b]) is Some ==> f.ensures(
                        (&self.sessions@[a], &self.sessions@[a].exchanges@[b]->Some_0),
                        false,
                    ),
            decreases self.sessions@.len() - i,
        {
            let sess = &self.sessions[i];
            let mut j: usize = 0;
            while j < sess.exchanges.len()
                invariant
                    i < self.sessions@.len(),
                    *self == *old(self),
                    *sess == self.sessions@[i as int],
                    j <= sess.exchanges@.len(),
                    forall|s: &Session, e: &ExchangeState| f.requires((s, e)),
                    forall|a: int, b: int|
                        0 <= a < i && 0 <= b < self.sessions@[a].exchanges@.len()
                            && (#[trigger] self.sessions@[a].exchanges@[b]) is Some ==> f.ensures(
                            (&self.sessions@[a], &self.sessions@[a].exchanges@[b]->Some_0),
                            false,
                        ),
                    forall|b: int|
                        0 <= b < j && (#[trigger] sess.exchanges@[b]) is Some ==> f.ensures(
                            (sess, &sess.exchanges@[b]->Some_0),
                            false,
                        ),
                decreases sess.exchanges@.len() - j,
            {
                match &sess.exchanges[j] {
                    Some(e) => {
                        if f(sess, e) {
                            let k = j;
                            let ghost s0 = self.sessions@[i as int];
                            proof {
                                assert(s0.exchanges@[k as int] is Some);
                                assert(s0.exchanges@[k as int]->Some_0 == *e);
                            }
                            let r = self.touch(i, now_ms);
                            proof {
                                assert(old(self).sessions@[i as int] == s0);
                            }
                            return Some((r, k));
                        }
                    },
                    None => {},
                }
                j = j + 1;
            }
            proof {
                assert forall|a: int, b: int|
                    0 <= a < i + 1 && 0 <= b < self.sessions@[a].exchanges@.len()
                        && (#[trigger] self.sessions@[a].exchanges@[b]) is Some implies f.ensures(
                        (&self.sessions@[a], &self.sessions@[a].exchanges@[b]->Some_0),
                        false,
                    ) by {
                    if a == i {
                        assert(sess.exchanges@[b] is Some);
                    }
                }
            }
            i = i + 1;
        }
        None
    }

    /// The sessions, in table order.
    pub fn iter(&self) -> (r: &[Session])
        ensures
            r@ == self.sessions@,
    {
        self.sessions.as_slice()
    }
}

/// Adding a session under an id that no live session has, or removing any
/// session, keeps the ids of the live sessions distinct.
pub proof fn lemma_unique_ids_preserved(s: Seq<Session>, n: Session, i: int)
    requires
        ids_unique(s),
        !has_id(s, n.id),
        0 <= i < s.len(),
    ensures
        ids_unique(s.push(n)),
        ids_unique(s.remove(i)),
{
    lemma_unique_ids_preserved_push(s, n);
    lemma_remove_unique(s, i);
}

proof fn lemma_first_idle_expired_exists(s: Seq<Session>, m: int)
    requires
        0 <= m < s.len(),
        s[m].idle() && s[m].expired,
    ensures
        exists|i: int| first_idle_expired(s, i),
    decreases m,
{
    if exists|j: int| 0 <= j < m && (#[trigger] s[j].idle() && s[j].expired) {
        let j = choose|j: int| 0 <= j < m && (#[trigger] s[j].idle() && s[j].expired);
        lemma_first_idle_expired_exists(s, j);
    } else {
        assert(first_idle_expired(s, m));
    }
}

/// Removing the sessions of a fabric but one, which is idle, leaves no
/// session of that fabric but the kept one, marks the kept one expired, and
/// makes eviction pick an expired session: it is preferred to any idle
/// session that is not expired, however old.
pub proof fn lemma_remove_for_fabric_then_evict(s: Seq<Session>, f: u8, keep: u32, now_ms: u64)
    requires
        has_id(s, keep),
        s[index_of(s, keep)].idle(),
    ensures
        ({
            let t = removed_for_fabric(s, f, Some(keep));
            &&& forall|i: int| 0 <= i < t.len() && (#[trigger] t[i]).mode.fab() == f ==> t[i].id == keep
            &&& exists|i: int| 0 <= i < t.len() && (#[trigger] t[i]).id == keep && t[i].expired
            &&& evict_index(t, now_ms) is Some
            &&& t[evict_index(t, now_ms)->Some_0].expired
        }),
{
    let p = stays(f, Some(keep));
    let flt = s.filter(p);
    let t = removed_for_fabric(s, f, Some(keep));
    let k = index_of(s, keep);
    assert(s[k].id == keep);
    assert(p(s[k]));
    s.lemma_filter_contains(p, k);
    let m = choose|m: int| 0 <= m < flt.len() && flt[m] == s[k];
    assert(t[m] == (Session { expired: true, ..s[k] }));
    assert(t[m].idle());
    assert forall|i: int| 0 <= i < t.len() && (#[trigger] t[i]).mode.fab() == f implies t[i].id == keep by {
        s.lemma_filter_pred(p, i);
    }
    lemma_first_idle_expired_exists(t, m);
}

/// A claim on a session slot while a handshake builds the session: the
/// session stays hidden from lookups until the claim is completed, and is
/// removed if the claim is released uncompleted.
#[derive(Debug)]
pub struct ReservedSession {
    pub id: u32,
    pub complete: bool,
}

fn key_from_slice(src: &[u8]) -> (r: [u8; 16])
    requires
        src@.len() == MATTER_AES128_KEY_SIZE,
    ensures
        r@ == src@,
{
    let mut k: [u8; 16] = [0u8; 16];
    let mut i: usize = 0;
    while i < 16
        invariant
            i <= 16,
            src@.len() == 16,
            forall|j: int| 0 <= j < i ==> k@[j] == src@[j],
        decreases 16 - i,
    {
        k[i] = src[i];
        i = i + 1;
    }
    assert(k@ =~= src@);
    k
}

/// A key argument: absent, or exactly one key long.
pub open spec fn key_arg_ok(k: Option<&[u8]>) -> bool {
    match k {
        Some(b) => b@.len() == MATTER_AES128_KEY_SIZE,
        None => true,
    }
}

/// A key after an update with an optional new value.
pub open spec fn key_after(old_key: Seq<u8>, k: Option<&[u8]>) -> Seq<u8> {
    match k {
        Some(b) => b@,
        None => old_key,
    }
}

impl ReservedSession {
    /// Reserve a new hidden session; fails when the table is full.
    pub fn reserve_now(mgr: &mut SessionMgr, now_ms: u64, rand: u32) -> (r: Result<ReservedSession, Error>)
        requires
            old(mgr).wf(),
        ensures
            final(mgr).wf(),
            old(mgr).sessions@.len() >= MAX_SESSIONS ==> r == Err::<ReservedSession, Error>(
                ErrorCode::NoSpaceSessions,
            ) && *final(mgr) == *old(mgr),
            old(mgr).sessions@.len() < MAX_SESSIONS ==> r is Ok && {
                let g = r->Ok_0;
                &&& !g.complete
                &&& !has_id(old(mgr).sessions@, g.id)
                &&& final(mgr).sessions@.len() == old(mgr).sessions@.len() + 1
                &&& final(mgr).sessions@.drop_last() == old(mgr).sessions@
                &&& final(mgr).sessions@.last().fresh(g.id, true, Address::unspecified(), None, now_ms, rand)
            },
    {
        match mgr.add(true, Address::new(), None, now_ms, rand) {
            Ok(s) => {
                let id = s.id;
                proof {
                    assert(final(mgr).sessions@.drop_last() =~= old(mgr).sessions@);
                }
                Ok(ReservedSession { id, complete: false })
            },
            Err(e) => Err(e),
        }
    }

    /// Reserve a new hidden session; when the table is full, first evict the
    /// session that eviction picks. Fails when none can be evicted.
    pub fn reserve(mgr: &mut SessionMgr, now_ms: u64, rand: u32) -> (r: Result<ReservedSession, Error>)
        requires
            old(mgr).wf(),
        ensures
            final(mgr).wf(),
            old(mgr).sessions@.len() < MAX_SESSIONS ==> r is Ok,
            old(mgr).sessions@.len() >= MAX_SESSIONS ==> (r is Ok <==> evict_index(
                old(mgr).sessions@,
                now_ms,
            ) is Some),
            r is Err ==> r == Err::<ReservedSession, Error>(ErrorCode::NoSpaceSessions) && *final(mgr)
                == *old(mgr),
            r is Ok ==> {
                let g = r->Ok_0;
                &&& !g.complete
                &&& has_id(final(mgr).sessions@, g.id)
                &&& final(mgr).sessions@.last().fresh(g.id, true, Address::unspecified(), None, now_ms, rand)
            },
    {
        if mgr.sessions.len() < MAX_SESSIONS {
            let r = Self::reserve_now(mgr, now_ms, rand);
            proof {
                let fs = final(mgr).sessions@;
                assert(fs[fs.len() - 1].id == r->Ok_0.id);
            }
            return r;
        }
        let victim = match mgr.get_session_for_eviction(now_ms) {
            Some(s) => s.id,
            None => {
                return Err(ErrorCode::NoSpaceSessions);
            },
        };
        let ghost i = evict_index(old(mgr).sessions@, now_ms)->Some_0;
        proof {
            assert(mgr.sessions@ == old(mgr).sessions@);
            assert(mgr.sessions@[i].id == victim);
        }
        let _ = mgr.remove(victim);
        let r = Self::reserve_now(mgr, now_ms, rand);
        proof {
            let fs = final(mgr).sessions@;
            assert(fs[fs.len() - 1].id == r->Ok_0.id);
        }
        r
    }

    /// Fill the reserved session with what the handshake established; the
    /// keys given replace the session's.
    pub fn update(
        &self,
        mgr: &mut SessionMgr,
        local_nodeid: u64,
        peer_nodeid: u64,
        peer_sessid: u16,
        local_sessid: u16,
        peer_addr: Address,
        mode: SessionMode,
        dec_key: Option<&[u8]>,
        enc_key: Option<&[u8]>,
        att_challenge: Option<&[u8]>,
        now_ms: u64,
    ) -> (r: Result<(), Error>)
        requires
            old(mgr).wf(),
            mode.wf(),
            key_arg_ok(dec_key),
            key_arg_ok(enc_key),
            key_arg_ok(att_challenge),
        ensures
            final(mgr).wf(),
            !has_id(old(mgr).sessions@, self.id) ==> r == Err::<(), Error>(ErrorCode::NoSession)
                && *final(mgr) == *old(mgr),
            has_id(old(mgr).sessions@, self.id) ==> r is Ok && {
                let i = index_of(old(mgr).sessions@, self.id);
                let s = old(mgr).sessions@[i];
                let t = final(mgr).sessions@[i];
                &&& final(mgr).sessions@ == old(mgr).sessions@.update(i, t)
                &&& *final(mgr) == (SessionMgr { sessions: final(mgr).sessions, ..*old(mgr) })
                &&& t == (Session {
                    local_nodeid,
                    peer_nodeid: Some(peer_nodeid),
                    peer_sess_id: peer_sessid,
                    local_sess_id: local_sessid,
                    peer_addr,
                    mode,
                    last_use: now_ms,
                    dec_key: t.dec_key,
                    enc_key: t.enc_key,
                    att_challenge: t.att_challenge,
                    ..s
                })
                &&& t.dec_key@ == key_after(s.dec_key@, dec_key)
                &&& t.enc_key@ == key_after(s.enc_key@, enc_key)
                &&& t.att_challenge@ == key_after(s.att_challenge@, att_challenge)
            },
    {
        let ghost m0 = *mgr;
        let session = match mgr.get(self.id, now_ms) {
            Some(s) => s,
            None => {
                return Err(ErrorCode::NoSession);
            },
        };
        session.local_nodeid = local_nodeid;
        session.peer_nodeid = Some(peer_nodeid);
        session.peer_sess_id = peer_sessid;
        session.local_sess_id = local_sessid;
        session.peer_addr = peer_addr;
        session.mode = mode;
        if let Some(k) = dec_key {
            session.dec_key = key_from_slice(k);
        }
        if let Some(k) = enc_key {
            session.enc_key = key_from_slice(k);
        }
        if let Some(k) = att_challenge {
            session.att_challenge = key_from_slice(k);
        }
        proof {
            let i = index_of(m0.sessions@, self.id);
            let fs = final(mgr).sessions@;
            assert forall|a: int, b: int| 0 <= a < b < fs.len() implies fs[a].id != fs[b].id by {
                assert(m0.sessions@[a].id != m0.sessions@[b].id);
            }
            assert forall|a: int| 0 <= a < fs.len() implies (#[trigger] fs[a]).wf() by {
                assert(m0.sessions@[a].wf());
            }
        }
        Ok(())
    }

    /// Mark the reservation complete: releasing it then publishes the session.
    pub fn complete(&mut self)
        ensures
            final(self).id == old(self).id,
            final(self).complete,
    {
        self.complete = true;
    }

    /// End the reservation: publish the session if it was completed, else
    /// remove it.
    pub fn release(self, mgr: &mut SessionMgr)
        requires
            old(mgr).wf(),
        ensures
            final(mgr).wf(),
            !has_id(old(mgr).sessions@, self.id) ==> *final(mgr) == *old(mgr),
            has_id(old(mgr).sessions@, self.id) ==> {
                let i = index_of(old(mgr).sessions@, self.id);
                &&& self.complete ==> final(mgr).sessions@ == old(mgr).sessions@.update(
                    i,
                    Session { reserved: false, ..old(mgr).sessions@[i] },
                )
                &&& !self.complete ==> final(mgr).sessions@ == old(mgr).sessions@.remove(i)
                &&& *final(mgr) == (SessionMgr { sessions: final(mgr).sessions, ..*old(mgr) })
            },
    {
        if self.complete {
            match mgr.index_of_id(self.id) {
                Some(i) => {
                    let ghost m0 = *mgr;
                    let s = mgr.session_mut(i);
                    s.reserved = false;
                    proof {
                        let fs = final(mgr).sessions@;
                        assert forall|a: int, b: int| 0 <= a < b < fs.len() implies fs[a].id != fs[b].id by {
                            assert(m0.sessions@[a].id != m0.sessions@[b].id);
                        }
                        assert forall|a: int| 0 <= a < fs.len() implies (#[trigger] fs[a]).wf() by {
                            assert(m0.sessions@[a].wf());
                        }
                    }
                },
                None => {},
            }
        } else {
            let _ = mgr.remove(self.id);
        }
    }
}
} // verus!
