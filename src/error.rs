//! Errors of the handshake and of packet processing.

use vstd::prelude::*;
use vstd::string::StringExecFns;

verus! {

/// Errors that reject a channel-lifecycle call outright.
#[derive(Clone, Debug, PartialEq, Eq)]
pub enum ContractError {
    /// The channel is not ordered.
    IbcUnorderedChannel,
    /// The counterparty offered another version; `version` is the one required.
    IbcInvalidCounterPartyVersion { version: String },
    /// Acknowledgements and timeouts concern packets this endpoint never sends.
    IbcUnsupportedMethod,
}

/// Errors of packet processing. Each is turned into an error acknowledgement.
#[derive(Clone, Debug, PartialEq, Eq)]
pub enum PacketError {
    /// The payload is not a well-formed packet.
    Decode,
    /// The packet's tagged union holds no variant.
    EmptyPacket,
    /// The tagged union holds a variant this endpoint does not know.
    UnsupportedPacket { field: u64 },
    /// A finality provider's commission is not a decimal; `message` is the
    /// decimal parser's description of why.
    InvalidDecimal { message: String },
    /// No staking contract is configured to route staking events to.
    RoutingNotConfigured,
    /// The timestamp processor failed, with its message.
    Handler { message: String },
}

pub ghost enum PacketErrorModel {
    Decode,
    EmptyPacket,
    UnsupportedPacket(u64),
    InvalidDecimal(Seq<char>),
    RoutingNotConfigured,
    Handler(Seq<char>),
}

impl View for PacketError {
    type V = PacketErrorModel;

    open spec fn view(&self) -> PacketErrorModel {
        match self {
            PacketError::Decode => PacketErrorModel::Decode,
            PacketError::EmptyPacket => PacketErrorModel::EmptyPacket,
            PacketError::UnsupportedPacket { field } => PacketErrorModel::UnsupportedPacket(*field),
            PacketError::InvalidDecimal { message } => PacketErrorModel::InvalidDecimal(message@),
            PacketError::RoutingNotConfigured => PacketErrorModel::RoutingNotConfigured,
            PacketError::Handler { message } => PacketErrorModel::Handler(message@),
        }
    }
}

/// The text that describes an error. The endpoint's own errors are generic
/// host errors and read as such; the decimal parser and the timestamp
/// processor describe their errors themselves.
pub open spec fn error_text(e: PacketErrorModel) -> Seq<char> {
    match e {
        PacketErrorModel::Decode => "Generic error: failed to decode ZoneconciergePacketData: failed to decode Protobuf message: malformed wire data"@,
        PacketErrorModel::EmptyPacket => "Generic error: empty IBC packet"@,
        PacketErrorModel::UnsupportedPacket(_) => "Generic error: unsupported packet variant"@,
        PacketErrorModel::InvalidDecimal(m) => m,
        PacketErrorModel::RoutingNotConfigured => "Generic error: btc_staking contract not set"@,
        PacketErrorModel::Handler(m) => m,
    }
}

impl PacketError {
    /// Describes the error.
    pub fn message(&self) -> (r: String)
        ensures
            r@ == error_text(self@),
    {
        match self {
            PacketError::Decode => String::from_str(
                "Generic error: failed to decode ZoneconciergePacketData: failed to decode Protobuf message: malformed wire data",
            ),
            PacketError::EmptyPacket => String::from_str("Generic error: empty IBC packet"),
            PacketError::UnsupportedPacket { .. } => String::from_str(
                "Generic error: unsupported packet variant",
            ),
            PacketError::InvalidDecimal { message } => message.clone(),
            PacketError::RoutingNotConfigured => String::from_str(
                "Generic error: btc_staking contract not set",
            ),
            PacketError::Handler { message } => message.clone(),
        }
    }
}

} // verus!
