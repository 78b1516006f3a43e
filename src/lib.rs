//! Secure-transport core of a device-to-device protocol stack: a bounded
//! session table with multiplexed exchanges, the per-exchange message
//! reliability engine, and the responder side of the certificate-
//! authenticated session handshake.
//!
//! - `packet`: addresses and the message headers the core reads and fills.
//! - `mrp`: acknowledgment and retransmission state of one exchange.
//! - `dedup`: duplicate detection of received message counters.
//! - `exchange`: the exchanges of a session and their slots.
//! - `session`: sessions, the session table and session reservations.
//! - `tlv`: the tag-length-value encoding of handshake messages.
//! - `crypto`: the cryptographic provider interface and a placeholder backend.
//! - `fabric`: the trust domains this node belongs to.
//! - `case`: the three-message handshake that establishes a secured session.

pub mod error;
pub mod packet;
pub mod mrp;
pub mod dedup;
pub mod exchange;
pub mod session;
pub mod tlv;
pub mod crypto;
pub mod fabric;
pub mod case;
