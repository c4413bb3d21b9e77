//! What the endpoint hands back to the host: attributes, events, outbound
//! messages and acknowledgements.

use crate::api::{ExecuteMsg, StakingCallModel};
use crate::wire::views;
use vstd::prelude::*;
use vstd::string::StringExecFns;

verus! {

/// A key-value pair attached to a response or an event.
#[derive(Clone, Debug, PartialEq, Eq)]
pub struct Attribute {
    pub key: String,
    pub value: String,
}

/// A typed event with its attributes.
#[derive(Clone, Debug, PartialEq, Eq)]
pub struct Event {
    pub ty: String,
    pub attributes: Vec<Attribute>,
}

pub ghost struct EventModel {
    pub ty: Seq<char>,
    pub attributes: Seq<(Seq<char>, Seq<char>)>,
}

impl View for Attribute {
    type V = (Seq<char>, Seq<char>);

    open spec fn view(&self) -> (Seq<char>, Seq<char>) {
        (self.key@, self.value@)
    }
}

impl View for Event {
    type V = EventModel;

    open spec fn view(&self) -> EventModel {
        EventModel { ty: self.ty@, attributes: views(self.attributes@) }
    }
}

/// Builds an attribute from its key and value.
pub fn attribute(key: &str, value: &str) -> (r: Attribute)
    ensures
        r@ == (key@, value@),
{
    Attribute { key: String::from_str(key), value: String::from_str(value) }
}

/// Builds an event with a single attribute.
pub fn event(ty: &str, key: &str, value: &str) -> (r: Event)
    ensures
        r@ == (EventModel { ty: ty@, attributes: seq![(key@, value@)] }),
{
    let a = attribute(key, value);
    let mut attributes: Vec<Attribute> = Vec::new();
    attributes.push(a);
    proof {
        assert(views(attributes@) =~= seq![(key@, value@)]);
    }
    Event { ty: String::from_str(ty), attributes }
}

/// The response to a channel-lifecycle call.
#[derive(Clone, Debug, PartialEq, Eq)]
pub struct BasicResponse {
    pub attributes: Vec<Attribute>,
    pub events: Vec<Event>,
}

/// A message for the zone's Babylon module, as the timestamp processor built
/// it; this endpoint only passes it on.
#[derive(Clone, Debug, PartialEq, Eq)]
pub struct ZoneMessage {
    pub payload: Vec<u8>,
}

/// A message that a response asks the host to send.
#[derive(Clone, Debug, PartialEq, Eq)]
pub enum OutboundMsg {
    Babylon(ZoneMessage),
    /// A call of a contract, with no funds attached.
    WasmExecute { contract_addr: String, msg: ExecuteMsg },
}

pub ghost enum OutboundModel {
    Babylon(Seq<u8>),
    WasmExecute(Seq<char>, StakingCallModel),
}

impl View for OutboundMsg {
    type V = OutboundModel;

    open spec fn view(&self) -> OutboundModel {
        match self {
            OutboundMsg::Babylon(m) => OutboundModel::Babylon(m.payload@),
            OutboundMsg::WasmExecute { contract_addr, msg } => OutboundModel::WasmExecute(
                contract_addr@,
                msg@,
            ),
        }
    }
}

/// The acknowledgement of a received packet.
#[derive(Clone, Debug, PartialEq, Eq)]
pub enum Acknowledgement {
    Success(Vec<u8>),
    /// A failure, with the text that describes it.
    Error(String),
}

pub ghost enum AckModel {
    Success(Seq<u8>),
    Error(Seq<char>),
}

impl View for Acknowledgement {
    type V = AckModel;

    open spec fn view(&self) -> AckModel {
        match self {
            Acknowledgement::Success(b) => AckModel::Success(b@),
            Acknowledgement::Error(m) => AckModel::Error(m@),
        }
    }
}

/// The response to a received packet.
#[derive(Clone, Debug, PartialEq, Eq)]
pub struct ReceiveResponse {
    pub acknowledgement: Acknowledgement,
    pub messages: Vec<OutboundMsg>,
    pub attributes: Vec<Attribute>,
    pub events: Vec<Event>,
}

pub ghost struct ReceiveModel {
    pub acknowledgement: AckModel,
    pub messages: Seq<OutboundModel>,
    pub attributes: Seq<(Seq<char>, Seq<char>)>,
    pub events: Seq<EventModel>,
}

impl View for ReceiveResponse {
    type V = ReceiveModel;

    open spec fn view(&self) -> ReceiveModel {
        ReceiveModel {
            acknowledgement: self.acknowledgement@,
            messages: views(self.messages@),
            attributes: views(self.attributes@),
            events: views(self.events@),
        }
    }
}

} // verus!
