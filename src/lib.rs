//! Presentation and session layer of a peer-to-peer stack for typed, versioned
//! binary messages: a strict binary codec with TLV extension streams, a
//! message type registry, frame transcoders and the session decisions that
//! bind them to transports.

pub mod bip32;
pub mod codec;
pub mod tlv;
pub mod record;
pub mod registry;
pub mod transcoder;
pub mod session;

use vstd::prelude::*;

verus! {

/// Largest frame exchanged with a transport.
pub const LNP_MSG_MAX_LEN: usize = 65535;

/// Default TCP port of Lightning-style peer-to-peer nodes.
pub const LIGHTNING_P2P_DEFAULT_PORT: u16 = 9735;

} // verus!
