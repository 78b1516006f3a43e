use vstd::prelude::*;

use crate::mrp::ReliableMessage;
use crate::packet::ProtoHdr;

verus! {

/// Capacity of the exchange table of one session.
pub const MAX_EXCHANGES: usize = 5;

/// Which side of an exchange this node is; a dropped exchange is kept only
/// until its pending acknowledgment work is done.
#[derive(Debug, Clone, Copy, PartialEq, Eq, Structural)]
pub enum Role {
    Initiator { dropped: bool },
    Responder { dropped: bool },
}

impl Role {
    pub open spec fn dropped(&self) -> Role {
        match self {
            Role::Initiator { .. } => Role::Initiator { dropped: true },
            Role::Responder { .. } => Role::Responder { dropped: true },
        }
    }

    pub fn is_responder(&self) -> (r: bool)
        ensures
            r == (self is Responder),
    {
        matches!(self, Role::Responder { .. })
    }

    pub fn set_dropped_state(&mut self)
        ensures
            *final(self) == old(self).dropped(),
    {
        match self {
            Role::Initiator { .. } => *self = Role::Initiator { dropped: true },
            Role::Responder { .. } => *self = Role::Responder { dropped: true },
        }
    }
}

/// One exchange of a session: its id, this node's role and its reliability
/// state.
#[derive(Debug, Clone, Copy, PartialEq, Eq, Structural)]
pub struct ExchangeState {
    pub exch_id: u16,
    pub role: Role,
    pub mrp: ReliableMessage,
}

/// Whether a received message belongs to the exchange in a slot: same id,
/// and sent by the other side of it.
pub open spec fn exch_for_rx(e: Option<ExchangeState>, p: ProtoHdr) -> bool {
    match e {
        Some(x) => x.exch_id == p.exch_id && p.initiator == (x.role is Responder),
        None => false,
    }
}

impl ExchangeState {
    pub fn is_for_rx(&self, rx_proto: &ProtoHdr) -> (r: bool)
        ensures
            r == exch_for_rx(Some(*self), *rx_proto),
    {
        self.exch_id == rx_proto.exch_id && rx_proto.is_initiator() == self.role.is_responder()
    }
}

/// Whether slot `i` holds the first exchange that a received message belongs to.
pub open spec fn first_exch_for_rx(s: Seq<Option<ExchangeState>>, p: ProtoHdr, i: int) -> bool {
    0 <= i < s.len() && exch_for_rx(s[i], p) && forall|j: int| 0 <= j < i ==> !exch_for_rx(s[j], p)
}

/// Whether no exchange in the slots takes a received message.
pub open spec fn no_exch_for_rx(s: Seq<Option<ExchangeState>>, p: ProtoHdr) -> bool {
    forall|j: int| 0 <= j < s.len() ==> !exch_for_rx(#[trigger] s[j], p)
}

/// Whether slot `i` is the first free one.
pub open spec fn first_free(s: Seq<Option<ExchangeState>>, i: int) -> bool {
    0 <= i < s.len() && s[i] is None && forall|j: int| 0 <= j < i ==> s[j] is Some
}

/// Whether a new exchange fits: the table is not at capacity, or a slot is free.
pub open spec fn has_room(s: Seq<Option<ExchangeState>>) -> bool {
    s.len() < MAX_EXCHANGES || exists|i: int| first_free(s, i)
}

/// Where a new exchange goes: a new slot while the table is below capacity,
/// else the first free slot.
pub open spec fn new_exch_index(s: Seq<Option<ExchangeState>>) -> int {
    if s.len() < MAX_EXCHANGES {
        s.len() as int
    } else {
        choose|i: int| first_free(s, i)
    }
}

/// The exchange slots with a new exchange placed.
pub open spec fn placed(s: Seq<Option<ExchangeState>>, e: ExchangeState) -> Seq<Option<ExchangeState>> {
    if s.len() < MAX_EXCHANGES {
        s.push(Some(e))
    } else {
        s.update(new_exch_index(s), Some(e))
    }
}

} // verus!
