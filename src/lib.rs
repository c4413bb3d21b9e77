//! Receiving endpoint of the zone-concierge relay channel: channel handshake
//! rules, a protobuf codec for the packet payload, dispatch of decoded packets
//! to their handlers, translation of staking events into the call that the
//! staking contract takes, and the acknowledgement that wraps every outcome.

pub mod api;
pub mod btclightclient;
pub mod channel;
pub mod codec;
pub mod encoding;
pub mod error;
pub mod packet;
pub mod response;
pub mod translate;
pub mod wire;
