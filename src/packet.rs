use vstd::prelude::*;

verus! {

/// Protocol id of the secure-channel protocol.
pub const PROTO_ID_SECURE_CHANNEL: u16 = 0;
/// Secure-channel opcode of a standalone acknowledgment.
pub const OPCODE_STANDALONE_ACK: u8 = 0x10;
/// Secure-channel opcode of a status report.
pub const OPCODE_STATUS_REPORT: u8 = 0x40;

/// The transport a peer is reached over.
#[derive(Debug, Clone, Copy, PartialEq, Eq, Structural)]
pub enum Transport {
    Udp,
    Tcp,
    Btp,
}

/// A peer network address.
#[derive(Debug, Clone, Copy, PartialEq, Eq, Structural)]
pub struct Address {
    pub transport: Transport,
    pub host: u128,
    pub port: u16,
}

impl Address {
    pub open spec fn unspecified() -> Address {
        Address { transport: Transport::Udp, host: 0, port: 0 }
    }

    /// The unspecified UDP address.
    pub fn new() -> (r: Address)
        ensures
            r == Address::unspecified(),
    {
        Address { transport: Transport::Udp, host: 0, port: 0 }
    }

    /// Whether the transport itself delivers reliably, so that the message
    /// reliability protocol is not used over it.
    pub fn is_reliable(&self) -> (r: bool)
        ensures
            r == !(self.transport is Udp),
    {
        !matches!(self.transport, Transport::Udp)
    }
}

impl Default for Address {
    fn default() -> (r: Address)
        ensures
            r == (Address { transport: Transport::Udp, host: 0, port: 0 }),
    {
        Address::new()
    }
}

/// The unencrypted message header.
#[derive(Debug, Clone, Copy, PartialEq, Eq, Structural)]
pub struct PlainHdr {
    /// The session id; 0 is the unsecured session.
    pub sess_id: u16,
    /// The message counter.
    pub ctr: u32,
    pub src_nodeid: Option<u64>,
    pub dst_nodeid: Option<u64>,
}

impl PlainHdr {
    pub open spec fn encrypted(&self) -> bool {
        self.sess_id != 0
    }

    /// Whether the message travels in a secured session.
    pub fn is_encrypted(&self) -> (r: bool)
        ensures
            r == self.encrypted(),
    {
        self.sess_id != 0
    }

    pub fn get_src_nodeid(&self) -> (r: Option<u64>)
        ensures
            r == self.src_nodeid,
    {
        self.src_nodeid
    }
}

/// The protocol header: exchange, flags, acknowledgment and opcode.
#[derive(Debug, Clone, Copy, PartialEq, Eq, Structural)]
pub struct ProtoHdr {
    pub exch_id: u16,
    /// Set when the sender is the initiator of the exchange.
    pub initiator: bool,
    /// Set when the sender asks for an acknowledgment.
    pub reliable: bool,
    /// The counter of a message that this one acknowledges.
    pub ack: Option<u32>,
    pub proto_id: u16,
    pub opcode: u8,
}

impl ProtoHdr {
    pub fn is_initiator(&self) -> (r: bool)
        ensures
            r == self.initiator,
    {
        self.initiator
    }

    pub fn is_reliable(&self) -> (r: bool)
        ensures
            r == self.reliable,
    {
        self.reliable
    }

    pub fn get_ack(&self) -> (r: Option<u32>)
        ensures
            r == self.ack,
    {
        self.ack
    }

    pub fn set_ack(&mut self, ack: Option<u32>)
        ensures
            *final(self) == (ProtoHdr { ack, ..*old(self) }),
    {
        self.ack = ack;
    }

    /// Messages over a transport that is itself reliable ask for no
    /// acknowledgment.
    pub fn adjust_reliability(&mut self, peer: &Address)
        ensures
            *final(self) == (ProtoHdr {
                reliable: old(self).reliable && peer.transport is Udp,
                ..*old(self)
            }),
    {
        if peer.is_reliable() {
            self.reliable = false;
        }
    }

    pub open spec fn new_exchange(&self) -> bool {
        !(self.proto_id == PROTO_ID_SECURE_CHANNEL && (self.opcode == OPCODE_STANDALONE_ACK
            || self.opcode == OPCODE_STATUS_REPORT))
    }

    /// Whether the message may open a new exchange: anything but a standalone
    /// acknowledgment or a status report.
    pub fn is_new_exchange(&self) -> (r: bool)
        ensures
            r == self.new_exchange(),
    {
        !(self.proto_id == PROTO_ID_SECURE_CHANNEL && (self.opcode == OPCODE_STANDALONE_ACK
            || self.opcode == OPCODE_STATUS_REPORT))
    }
}

/// Both headers of a message.
#[derive(Debug, Clone, Copy, PartialEq, Eq, Structural)]
pub struct PacketHdr {
    pub plain: PlainHdr,
    pub proto: ProtoHdr,
}

} // verus!
