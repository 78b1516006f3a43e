use vstd::prelude::*;
use vstd::arithmetic::div_mod::{lemma_div_is_ordered, lemma_div_by_multiple};
use vstd::arithmetic::mul::{lemma_mul_inequality, lemma_mul_is_commutative};
use vstd::arithmetic::power2::{pow2, lemma2_to64, lemma_pow2_unfold};

use crate::error::{Error, ErrorCode};
use crate::packet::{PlainHdr, ProtoHdr};

verus! {

/// Retry interval used when the session announces none.
pub const MRP_BASE_RETRY_INTERVAL_MS: u16 = 300;
/// Number of retransmissions after which a message is given up.
pub const MRP_MAX_TRANSMISSIONS: u16 = 10;
/// Retries up to this count are not backed off.
pub const MRP_BACKOFF_THRESHOLD: u16 = 1;
/// Largest jitter byte.
pub const MRP_JITTER_RAND_MAX: u8 = 255;

/// One back-off step multiplies the delay by 1.6, rounding down.
pub open spec fn backoff(d: nat, k: nat) -> nat
    decreases k,
{
    if k == 0 {
        d
    } else {
        backoff(d, (k - 1) as nat) * 16 / 10
    }
}

/// The base interval with its 10% margin.
pub open spec fn margin_delay(base: nat) -> nat {
    base * 11 / 10
}

/// The delay before backing off the jitter: one back-off step for each retry
/// beyond the first.
pub open spec fn backed_off_delay(base: nat, counter: nat) -> nat {
    if counter > MRP_BACKOFF_THRESHOLD {
        backoff(margin_delay(base), (counter - MRP_BACKOFF_THRESHOLD) as nat)
    } else {
        margin_delay(base)
    }
}

/// A delay scaled up by at most 25%, in proportion to the jitter byte.
pub open spec fn with_jitter(d: nat, jitter: nat) -> nat {
    d + (d * jitter * 25) / (255 * 100)
}

/// Whether the delay after `counter` retries can be computed in 64 bits:
/// the backed-off delay times the largest jitter factor fits.
pub open spec fn delay_fits(base: nat, counter: nat) -> bool {
    backed_off_delay(base, counter) * 6375 <= u64::MAX
}

/// How long to wait before (re)transmitting, after `counter` retries.
pub open spec fn delay_spec(base: nat, counter: nat, jitter: nat) -> nat {
    with_jitter(backed_off_delay(base, counter), jitter)
}

proof fn lemma_backoff_bound(d: nat, k: nat)
    ensures
        backoff(d, k) <= d * pow2(k),
    decreases k,
{
    if k > 0 {
        lemma_backoff_bound(d, (k - 1) as nat);
        let b = backoff(d, (k - 1) as nat);
        let p = pow2((k - 1) as nat);
        lemma_pow2_unfold(k);
        assert(b * 16 / 10 <= b * 2) by (nonlinear_arith);
        assert(b * 2 <= 2 * (d * p)) by (nonlinear_arith)
            requires
                b <= d * p,
        ;
        assert(d * pow2(k) == 2 * (d * p)) by (nonlinear_arith)
            requires
                pow2(k) == 2 * p,
        ;
    } else {
        lemma2_to64();
    }
}

proof fn lemma_backoff_step(b: nat)
    ensures
        b <= b * 16 / 10,
{
    lemma_div_by_multiple(b as int, 10);
    lemma_div_is_ordered((b * 10) as int, (b * 16) as int, 10);
}

proof fn lemma_backoff_monotone(d: nat, k1: nat, k2: nat)
    requires
        k1 <= k2,
    ensures
        backoff(d, k1) <= backoff(d, k2),
    decreases k2,
{
    if k1 < k2 {
        lemma_backoff_monotone(d, k1, (k2 - 1) as nat);
        lemma_backoff_step(backoff(d, (k2 - 1) as nat));
    }
}

proof fn lemma_jitter_monotone(d1: nat, d2: nat, jitter: nat)
    requires
        d1 <= d2,
    ensures
        with_jitter(d1, jitter) <= with_jitter(d2, jitter),
{
    lemma_mul_inequality(d1 as int, d2 as int, (jitter * 25) as int);
    assert(d1 * jitter * 25 == d1 * (jitter * 25)) by (nonlinear_arith);
    assert(d2 * jitter * 25 == d2 * (jitter * 25)) by (nonlinear_arith);
    lemma_div_is_ordered((d1 * jitter * 25) as int, (d2 * jitter * 25) as int, 25500int);
}

/// The retransmission delay never shrinks as the retry count grows, whatever
/// the jitter byte.
pub proof fn lemma_delay_non_decreasing(base: u16, c1: u16, c2: u16, jitter: u8)
    requires
        c1 <= c2,
    ensures
        delay_spec(base as nat, c1 as nat, jitter as nat) <= delay_spec(
            base as nat,
            c2 as nat,
            jitter as nat,
        ),
{
    let d0 = margin_delay(base as nat);
    let k1: nat = if c1 > MRP_BACKOFF_THRESHOLD { (c1 - 1) as nat } else { 0 };
    let k2: nat = if c2 > MRP_BACKOFF_THRESHOLD { (c2 - 1) as nat } else { 0 };
    assert(backed_off_delay(base as nat, c1 as nat) == backoff(d0, k1));
    assert(backed_off_delay(base as nat, c2 as nat) == backoff(d0, k2));
    lemma_backoff_monotone(d0, k1, k2);
    lemma_jitter_monotone(backoff(d0, k1), backoff(d0, k2), jitter as nat);
}

/// The message this exchange waits to see acknowledged.
#[derive(Debug, Clone, Copy, PartialEq, Eq, Structural)]
pub struct RetransEntry {
    /// The retransmission delay interval in milliseconds.
    pub base_delay_interval_ms: u16,
    /// The counter of the message awaiting acknowledgment.
    pub msg_ctr: u32,
    /// How many times the message was retransmitted.
    pub counter: u16,
}

impl RetransEntry {
    pub fn new(base_delay_interval_ms: Option<u16>, msg_ctr: u32) -> (r: RetransEntry)
        ensures
            r == (RetransEntry {
                base_delay_interval_ms: match base_delay_interval_ms {
                    Some(b) => b,
                    None => MRP_BASE_RETRY_INTERVAL_MS,
                },
                msg_ctr,
                counter: 0,
            }),
    {
        RetransEntry {
            base_delay_interval_ms: match base_delay_interval_ms {
                Some(b) => b,
                None => MRP_BASE_RETRY_INTERVAL_MS,
            },
            msg_ctr,
            counter: 0,
        }
    }

    pub fn get_msg_ctr(&self) -> (r: u32)
        ensures
            r == self.msg_ctr,
    {
        self.msg_ctr
    }

    /// How long to wait before (re)transmitting, given the retries so far.
    pub fn delay_ms(&self, jitter_rand: u8) -> (r: u64)
        requires
            delay_fits(self.base_delay_interval_ms as nat, self.counter as nat),
        ensures
            r == delay_spec(self.base_delay_interval_ms as nat, self.counter as nat, jitter_rand as nat),
    {
        self.delay_ms_counter(self.counter, jitter_rand)
    }

    /// The longest wait before giving up on the message.
    pub fn max_delay_ms(&self) -> (r: u64)
        ensures
            r == delay_spec(
                self.base_delay_interval_ms as nat,
                MRP_MAX_TRANSMISSIONS as nat,
                MRP_JITTER_RAND_MAX as nat,
            ),
    {
        proof {
            let d0 = margin_delay(self.base_delay_interval_ms as nat);
            lemma_backoff_bound(d0, 9);
            lemma2_to64();
            assert(backoff(d0, 9) * 6375 <= u64::MAX) by (nonlinear_arith)
                requires
                    backoff(d0, 9) <= d0 * 512,
                    d0 <= 72088,
            ;
        }
        self.delay_ms_counter(MRP_MAX_TRANSMISSIONS, MRP_JITTER_RAND_MAX)
    }

    /// How long to wait before (re)transmitting after `counter` retries.
    pub fn delay_ms_counter(&self, counter: u16, jitter_rand: u8) -> (r: u64)
        requires
            delay_fits(self.base_delay_interval_ms as nat, counter as nat),
        ensures
            r == delay_spec(self.base_delay_interval_ms as nat, counter as nat, jitter_rand as nat),
    {
        let ghost d0 = margin_delay(self.base_delay_interval_ms as nat);
        let ghost k: nat = if counter > MRP_BACKOFF_THRESHOLD { (counter - 1) as nat } else { 0 };
        assert(backed_off_delay(self.base_delay_interval_ms as nat, counter as nat) == backoff(d0, k));
        let mut delay: u64 = self.base_delay_interval_ms as u64 * 11 / 10;
        if counter > MRP_BACKOFF_THRESHOLD {
            let steps: u16 = counter - MRP_BACKOFF_THRESHOLD;
            let mut i: u16 = 0;
            while i < steps
                invariant
                    i <= steps,
                    steps == k,
                    backoff(d0, k) * 6375 <= u64::MAX,
                    delay == backoff(d0, i as nat),
                decreases steps - i,
            {
                proof {
                    lemma_backoff_monotone(d0, i as nat, k);
                }
                delay = delay * 16 / 10;
                i = i + 1;
            }
        }
        proof {
            assert(delay == backoff(d0, k));
            assert(delay * jitter_rand * 25 <= delay * 6375) by (nonlinear_arith)
                requires
                    jitter_rand <= 255,
            ;
        }
        delay + (delay * jitter_rand as u64 * 25) / (255 * 100)
    }

    /// Count one more transmission of the message with counter `ctr`; fails
    /// once the message was retransmitted the maximum number of times.
    pub fn pre_send(&mut self, ctr: u32) -> (r: Result<(), Error>)
        requires
            old(self).msg_ctr == ctr,
        ensures
            old(self).counter < MRP_MAX_TRANSMISSIONS ==> r == Ok::<(), Error>(()) && *final(self)
                == (RetransEntry { counter: (old(self).counter + 1) as u16, ..*old(self) }),
            old(self).counter >= MRP_MAX_TRANSMISSIONS ==> r == Err::<(), Error>(ErrorCode::TxTimeout)
                && *final(self) == *old(self),
    {
        if self.counter < MRP_MAX_TRANSMISSIONS {
            self.counter = self.counter + 1;
            Ok(())
        } else {
            Err(ErrorCode::TxTimeout)
        }
    }
}

/// The received message this exchange owes an acknowledgment.
#[derive(Debug, Clone, Copy, PartialEq, Eq, Structural)]
pub struct AckEntry {
    /// The counter of the message to acknowledge.
    pub msg_ctr: u32,
    /// Whether the acknowledgment was sent at least once.
    pub acknowledged: bool,
}

impl AckEntry {
    pub fn new(msg_ctr: u32) -> (r: Result<AckEntry, Error>)
        ensures
            r == Ok::<AckEntry, Error>(AckEntry { msg_ctr, acknowledged: false }),
    {
        Ok(AckEntry { msg_ctr, acknowledged: false })
    }

    pub fn get_msg_ctr(&self) -> (r: u32)
        ensures
            r == self.msg_ctr,
    {
        self.msg_ctr
    }
}

/// An acknowledgment entry once it has been piggy-backed on a sent message.
pub open spec fn acked(a: Option<AckEntry>) -> Option<AckEntry> {
    match a {
        Some(e) => Some(AckEntry { acknowledged: true, ..e }),
        None => None,
    }
}

/// The retransmission entry after one more transmission of a reliable
/// message with counter `ctr`, or `None` when the message is given up.
pub open spec fn retrans_after_send(
    r: Option<RetransEntry>,
    ctr: u32,
    active_interval: Option<u16>,
) -> Option<RetransEntry> {
    match r {
        None => Some(
            RetransEntry {
                base_delay_interval_ms: match active_interval {
                    Some(b) => b,
                    None => MRP_BASE_RETRY_INTERVAL_MS,
                },
                msg_ctr: ctr,
                counter: 0,
            },
        ),
        Some(e) => if e.counter < MRP_MAX_TRANSMISSIONS {
            Some(RetransEntry { counter: (e.counter + 1) as u16, ..e })
        } else {
            None
        },
    }
}

/// Whether sending a reliable message gives it up: it was retransmitted the
/// maximum number of times.
pub open spec fn gives_up(r: Option<RetransEntry>) -> bool {
    match r {
        Some(e) => e.counter >= MRP_MAX_TRANSMISSIONS,
        None => false,
    }
}

/// Whether a received acknowledgment counter names another message than the
/// one awaiting acknowledgment.
pub open spec fn stale_ack(r: Option<RetransEntry>, ack: Option<u32>) -> bool {
    match (r, ack) {
        (Some(e), Some(a)) => e.msg_ctr != a,
        _ => false,
    }
}

/// Whether a received acknowledgment counter settles the message awaiting
/// acknowledgment.
pub open spec fn settles(r: Option<RetransEntry>, ack: Option<u32>) -> bool {
    match (r, ack) {
        (Some(e), Some(a)) => e.msg_ctr == a,
        _ => false,
    }
}

/// The reliability state after an incoming message that is not a duplicate:
/// a matching acknowledgment settles both entries, and a reliable message
/// records a new owed acknowledgment.
pub open spec fn recv_update(
    m: ReliableMessage,
    rx_plain: PlainHdr,
    rx_proto: ProtoHdr,
    now_ms: u64,
) -> ReliableMessage {
    ReliableMessage {
        retrans: if settles(m.retrans, rx_proto.ack) {
            None
        } else {
            m.retrans
        },
        ack: if rx_proto.reliable {
            Some(AckEntry { msg_ctr: rx_plain.ctr, acknowledged: false })
        } else if settles(m.retrans, rx_proto.ack) {
            None
        } else {
            m.ack
        },
        received_at_ms: Some(now_ms),
    }
}

/// How an outgoing message changes the reliability state `m` into `m2` and
/// the protocol header `p` into `hdr2`; `ok` tells whether the send may go on.
pub open spec fn send_update(
    m: ReliableMessage,
    m2: ReliableMessage,
    plain: PlainHdr,
    p: ProtoHdr,
    hdr2: ProtoHdr,
    active_interval: Option<u16>,
    ok: bool,
) -> bool {
    &&& hdr2 == (ProtoHdr {
        ack: match m.ack {
            Some(a) => Some(a.msg_ctr),
            None => p.ack,
        },
        ..p
    })
    &&& m2.received_at_ms is None
    &&& !p.reliable ==> ok && m2.retrans == m.retrans && m2.ack == acked(m.ack)
    &&& p.reliable && !gives_up(m.retrans) ==> ok && m2.retrans == retrans_after_send(
        m.retrans,
        plain.ctr,
        active_interval,
    ) && m2.ack == acked(m.ack)
    &&& p.reliable && gives_up(m.retrans) ==> !ok && m2.retrans is None && m2.ack is None
}

/// Sending twice with no message received between: both sends carry the
/// counter of the owed acknowledgment, which stays recorded, flagged as sent;
/// a send with no acknowledgment owed records none.
pub proof fn lemma_ack_piggyback_twice(
    m: ReliableMessage,
    m1: ReliableMessage,
    m2: ReliableMessage,
    plain1: PlainHdr,
    hdr1: ProtoHdr,
    q1: ProtoHdr,
    plain2: PlainHdr,
    hdr2: ProtoHdr,
    q2: ProtoHdr,
    active: Option<u16>,
)
    requires
        send_update(m, m1, plain1, hdr1, q1, active, true),
        send_update(m1, m2, plain2, hdr2, q2, active, true),
    ensures
        m2.ack == acked(m.ack),
        m.ack is Some ==> q1.ack == Some(m.ack->Some_0.msg_ctr) && q2.ack == Some(
            m.ack->Some_0.msg_ctr,
        ),
        m.ack is None ==> m2.ack is None && q1.ack == hdr1.ack && q2.ack == hdr2.ack,
{
}

/// Sending while an acknowledgment is owed, unless the send gives a
/// message up: the send goes on, the header carries that counter, and the
/// entry stays recorded, flagged as sent, so that nothing is owed any more.
pub proof fn lemma_pre_send_acknowledges(
    m: ReliableMessage,
    m2: ReliableMessage,
    plain: PlainHdr,
    hdr: ProtoHdr,
    hdr2: ProtoHdr,
    active: Option<u16>,
    ok: bool,
)
    requires
        send_update(m, m2, plain, hdr, hdr2, active, ok),
        m.ack is Some,
        !(hdr.reliable && gives_up(m.retrans)),
    ensures
        ok,
        hdr2.ack == Some(m.ack->Some_0.msg_ctr),
        m2.ack == Some(AckEntry { msg_ctr: m.ack->Some_0.msg_ctr, acknowledged: true }),
        !m2.ack_pending(),
{
}

/// A send never creates an owed acknowledgment nor marks one unsent again:
/// afterwards none is pending, and an entry left is the one owed before,
/// flagged as sent.
pub proof fn lemma_pre_send_never_rearms(
    m: ReliableMessage,
    m2: ReliableMessage,
    plain: PlainHdr,
    hdr: ProtoHdr,
    hdr2: ProtoHdr,
    active: Option<u16>,
    ok: bool,
)
    requires
        send_update(m, m2, plain, hdr, hdr2, active, ok),
    ensures
        !m2.ack_pending(),
        m.ack is None ==> m2.ack is None,
        m2.ack is Some ==> m.ack is Some && m2.ack == Some(
            AckEntry { msg_ctr: m.ack->Some_0.msg_ctr, acknowledged: true },
        ),
{
}

/// Per-exchange reliability state: at most one message awaiting
/// acknowledgment and one acknowledgment owed.
#[derive(Debug, Clone, Copy, PartialEq, Eq, Structural)]
pub struct ReliableMessage {
    pub retrans: Option<RetransEntry>,
    pub ack: Option<AckEntry>,
    pub received_at_ms: Option<u64>,
}

impl ReliableMessage {
    pub open spec fn new_spec() -> ReliableMessage {
        ReliableMessage { retrans: None, ack: None, received_at_ms: None }
    }

    pub fn new() -> (r: ReliableMessage)
        ensures
            r == (ReliableMessage { retrans: None, ack: None, received_at_ms: None }),
    {
        ReliableMessage { retrans: None, ack: None, received_at_ms: None }
    }

    pub open spec fn retrans_pending(&self) -> bool {
        self.retrans is Some
    }

    pub open spec fn ack_pending(&self) -> bool {
        match self.ack {
            Some(a) => !a.acknowledged,
            None => false,
        }
    }

    pub fn is_retrans_pending(&self) -> (r: bool)
        ensures
            r == self.retrans_pending(),
    {
        self.retrans.is_some()
    }

    /// Whether an acknowledgment is owed and was never sent.
    pub fn is_ack_pending(&self) -> (r: bool)
        ensures
            r == self.ack_pending(),
    {
        match &self.ack {
            Some(a) => !a.acknowledged,
            None => false,
        }
    }

    /// Whether nothing was received for `timeout_ms` since the last receipt.
    pub fn has_rx_timed_out(&self, timeout_ms: u64, now_ms: u64) -> (r: bool)
        ensures
            r == match self.received_at_ms {
                Some(t) => t + timeout_ms <= u64::MAX && t + timeout_ms <= now_ms,
                None => false,
            },
    {
        match self.received_at_ms {
            Some(t) => match t.checked_add(timeout_ms) {
                Some(d) => d <= now_ms,
                None => false,
            },
            None => false,
        }
    }

    /// Update the state for an outgoing message: piggy-back an owed
    /// acknowledgment, and track a reliable message for retransmission.
    /// Fails with a timeout, clearing both entries, when a message was
    /// retransmitted the maximum number of times.
    pub fn pre_send(
        &mut self,
        tx_plain: &PlainHdr,
        tx_proto: &mut ProtoHdr,
        session_active_interval_ms: Option<u16>,
        session_idle_interval_ms: Option<u16>,
    ) -> (r: Result<(), Error>)
        requires
            old(tx_proto).reliable && old(self).retrans is Some ==> old(self).retrans->Some_0.msg_ctr
                == tx_plain.ctr,
        ensures
            send_update(
                *old(self),
                *final(self),
                *tx_plain,
                *old(tx_proto),
                *final(tx_proto),
                session_active_interval_ms,
                r is Ok,
            ),
            r is Err ==> r == Err::<(), Error>(ErrorCode::TxTimeout),
    {
        let _ = session_idle_interval_ms;
        let mut res: Result<(), Error> = Ok(());
        if let Some(a) = self.ack {
            tx_proto.set_ack(Some(a.get_msg_ctr()));
            self.ack = Some(AckEntry { acknowledged: true, ..a });
        }
        if tx_proto.is_reliable() {
            match self.retrans {
                Some(mut e) => {
                    if e.pre_send(tx_plain.ctr).is_err() {
                        self.retrans = None;
                        self.ack = None;
                        res = Err(ErrorCode::TxTimeout);
                    } else {
                        self.retrans = Some(e);
                    }
                },
                None => {
                    self.retrans = Some(RetransEntry::new(session_active_interval_ms, tx_plain.ctr));
                },
            }
        }
        self.received_at_ms = None;
        res
    }

    /// Update the state for an incoming message. An acknowledgment of another
    /// message than the one awaiting it marks a duplicate, which is rejected
    /// and changes nothing; a matching one settles both entries. A reliable
    /// message records a new owed acknowledgment.
    pub fn post_recv(&mut self, rx_plain: &PlainHdr, rx_proto: &ProtoHdr, now_ms: u64) -> (r: Result<
        (),
        Error,
    >)
        ensures
            stale_ack(old(self).retrans, rx_proto.ack) ==> r == Err::<(), Error>(ErrorCode::Duplicate)
                && *final(self) == *old(self),
            !stale_ack(old(self).retrans, rx_proto.ack) ==> r is Ok && *final(self) == recv_update(
                *old(self),
                *rx_plain,
                *rx_proto,
                now_ms,
            ),
    {
        if let Some(ack_msg_ctr) = rx_proto.get_ack() {
            if let Some(entry) = &self.retrans {
                if entry.get_msg_ctr() != ack_msg_ctr {
                    return Err(ErrorCode::Duplicate);
                }
                self.retrans = None;
                self.ack = None;
            }
        }
        if rx_proto.is_reliable() {
            self.ack = Some(AckEntry::new(rx_plain.ctr)?);
        }
        self.received_at_ms = Some(now_ms);
        Ok(())
    }
}

} // verus!
