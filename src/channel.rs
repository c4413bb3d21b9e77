//! The channel handshake: the channel must be ordered and, where the
//! counterparty offers a version, it must be this protocol's version.
//! Closing a channel does not yet erase the state kept for it.

use crate::error::ContractError;
use crate::response::{attribute, event, BasicResponse, EventModel};
use crate::wire::views;
use vstd::prelude::*;
use vstd::string::StringExecFns;

verus! {

/// The protocol version that both ends of a channel must use.
pub const IBC_VERSION: &'static str = "zoneconcierge-1";

/// The ordering that channels must have.
pub const IBC_ORDERING: IbcOrder = IbcOrder::Ordered;

/// How a channel orders its packets.
#[derive(Clone, Copy, Debug, PartialEq, Eq, Structural)]
pub enum IbcOrder {
    Unordered,
    Ordered,
}

/// One end of a channel.
#[derive(Clone, Debug, PartialEq, Eq)]
pub struct IbcEndpoint {
    pub port_id: String,
    pub channel_id: String,
}

/// A channel as the host describes it.
#[derive(Clone, Debug, PartialEq, Eq)]
pub struct IbcChannel {
    pub endpoint: IbcEndpoint,
    pub counterparty_endpoint: IbcEndpoint,
    pub order: IbcOrder,
    pub version: String,
    pub connection_id: String,
}

/// The first step of the handshake on either side: on the side that
/// answers, it carries the version that the counterparty offers.
#[derive(Clone, Debug, PartialEq, Eq)]
pub enum IbcChannelOpenMsg {
    OpenInit { channel: IbcChannel },
    OpenTry { channel: IbcChannel, counterparty_version: String },
}

impl IbcChannelOpenMsg {
    pub open spec fn spec_channel(&self) -> &IbcChannel {
        match self {
            IbcChannelOpenMsg::OpenInit { channel } => channel,
            IbcChannelOpenMsg::OpenTry { channel, .. } => channel,
        }
    }

    /// The counterparty's offered version, if any.
    pub open spec fn spec_counterparty_version(&self) -> Option<Seq<char>> {
        match self {
            IbcChannelOpenMsg::OpenInit { .. } => None,
            IbcChannelOpenMsg::OpenTry { counterparty_version, .. } => Some(counterparty_version@),
        }
    }

    /// The counterparty offers a version other than `IBC_VERSION`.
    pub open spec fn offers_other_version(&self) -> bool {
        match self.spec_counterparty_version() {
            Some(v) => v != IBC_VERSION@,
            None => false,
        }
    }

    /// The channel being opened.
    #[verifier::when_used_as_spec(spec_channel)]
    pub fn channel(&self) -> (r: &IbcChannel)
        ensures
            r == self.spec_channel(),
    {
        match self {
            IbcChannelOpenMsg::OpenInit { channel } => channel,
            IbcChannelOpenMsg::OpenTry { channel, .. } => channel,
        }
    }
}

/// The second step of the handshake.
#[derive(Clone, Debug, PartialEq, Eq)]
pub struct IbcChannelConnectMsg {
    pub channel: IbcChannel,
}

/// The closing of a channel.
#[derive(Clone, Debug, PartialEq, Eq)]
pub struct IbcChannelCloseMsg {
    pub channel: IbcChannel,
}

/// The version this endpoint requires at the end of the first step.
#[derive(Clone, Debug, PartialEq, Eq)]
pub struct Ibc3ChannelOpenResponse {
    pub version: String,
}

/// Checks the first step of the handshake: the channel must be ordered, and
/// an offered counterparty version must equal `IBC_VERSION`. Returns the
/// version this endpoint requires.
pub fn ibc_channel_open(msg: &IbcChannelOpenMsg) -> (r: Result<
    Option<Ibc3ChannelOpenResponse>,
    ContractError,
>)
    ensures
        msg.channel().order != IBC_ORDERING ==> r matches Err(ContractError::IbcUnorderedChannel),
        msg.channel().order == IBC_ORDERING && msg.offers_other_version() ==> (r matches Err(
            ContractError::IbcInvalidCounterPartyVersion { version },
        ) && version@ == IBC_VERSION@),
        msg.channel().order == IBC_ORDERING && !msg.offers_other_version() ==> (r matches Ok(
            Some(resp),
        ) && resp.version@ == IBC_VERSION@),
{
    let channel = msg.channel();
    if channel.order != IBC_ORDERING {
        return Err(ContractError::IbcUnorderedChannel);
    }
    if let IbcChannelOpenMsg::OpenTry { counterparty_version, .. } = msg {
        let required = String::from_str(IBC_VERSION);
        if *counterparty_version != required {
            return Err(ContractError::IbcInvalidCounterPartyVersion { version: required });
        }
    }
    Ok(Some(Ibc3ChannelOpenResponse { version: String::from_str(IBC_VERSION) }))
}

/// Confirms the second step of the handshake.
pub fn ibc_channel_connect(msg: &IbcChannelConnectMsg) -> (r: Result<BasicResponse, ContractError>)
    ensures
        r matches Ok(resp) && views(resp.attributes@) == seq![
            ("action"@, "ibc_connect"@),
            ("channel_id"@, msg.channel.endpoint.channel_id@),
        ] && views(resp.events@) == seq![
            EventModel { ty: "ibc"@, attributes: seq![("channel"@, "connect"@)] },
        ],
{
    let mut attributes = Vec::new();
    attributes.push(attribute("action", "ibc_connect"));
    attributes.push(attribute("channel_id", msg.channel.endpoint.channel_id.as_str()));
    let mut events = Vec::new();
    events.push(event("ibc", "channel", "connect"));
    proof {
        assert(views(attributes@) =~= seq![
            ("action"@, "ibc_connect"@),
            ("channel_id"@, msg.channel.endpoint.channel_id@),
        ]);
        assert(views(events@) =~= seq![
            EventModel { ty: "ibc"@, attributes: seq![("channel"@, "connect"@)] },
        ]);
    }
    Ok(BasicResponse { attributes, events })
}

/// Records the closing of a channel. The state kept for the channel is not
/// erased yet.
pub fn ibc_channel_close(msg: &IbcChannelCloseMsg) -> (r: Result<BasicResponse, ContractError>)
    ensures
        r matches Ok(resp) && views(resp.attributes@) == seq![
            ("action"@, "ibc_close"@),
            ("channel_id"@, msg.channel.endpoint.channel_id@),
        ] && resp.events@.len() == 0,
{
    let mut attributes = Vec::new();
    attributes.push(attribute("action", "ibc_close"));
    attributes.push(attribute("channel_id", msg.channel.endpoint.channel_id.as_str()));
    proof {
        assert(views(attributes@) =~= seq![
            ("action"@, "ibc_close"@),
            ("channel_id"@, msg.channel.endpoint.channel_id@),
        ]);
    }
    Ok(BasicResponse { attributes, events: Vec::new() })
}

} // verus!
