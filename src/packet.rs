//! Received packets: decoding and dispatch, the two handlers, and the
//! acknowledgement that every outcome is wrapped in. A packet that fails
//! anywhere yields an error acknowledgement with no outbound message.

use crate::api::StakingCallModel;
use crate::channel::IbcEndpoint;
use crate::error::{error_text, ContractError, PacketError, PacketErrorModel};
use crate::response::{
    attribute, event, AckModel, Acknowledgement, Attribute, BasicResponse, EventModel,
    OutboundModel, OutboundMsg, ReceiveModel, ReceiveResponse, ZoneMessage,
};
use crate::translate::{staking_translation, translate_btc_staking};
use crate::wire::{
    decode_packet_data, decode_packet_spec, lemma_views_empty, views, BtcStakingIbcPacket, Packet,
    PacketModel, StakingPacketModel,
};
use vstd::prelude::*;
use vstd::string::StringExecFns;

verus! {

/// What packet handling reads of the contract's configuration.
#[derive(Clone, Debug, PartialEq, Eq)]
pub struct Config {
    /// The staking contract that staking events are routed to, if any.
    pub btc_staking: Option<String>,
    /// Whether messages for the zone's Babylon module are passed on.
    pub notify_cosmos_zone: bool,
}

pub ghost struct ConfigModel {
    pub btc_staking: Option<Seq<char>>,
    pub notify_cosmos_zone: bool,
}

impl View for Config {
    type V = ConfigModel;

    open spec fn view(&self) -> ConfigModel {
        ConfigModel {
            btc_staking: match self.btc_staking {
                Some(a) => Some(a@),
                None => None,
            },
            notify_cosmos_zone: self.notify_cosmos_zone,
        }
    }
}

/// A packet as the host delivers it.
#[derive(Clone, Debug, PartialEq, Eq)]
pub struct IbcPacket {
    pub data: Vec<u8>,
    pub src: IbcEndpoint,
    pub dest: IbcEndpoint,
    pub sequence: u64,
}

#[derive(Clone, Debug, PartialEq, Eq)]
pub struct IbcPacketReceiveMsg {
    pub packet: IbcPacket,
    pub relayer: String,
}

#[derive(Clone, Debug, PartialEq, Eq)]
pub struct IbcPacketAckMsg {
    pub acknowledgement: Vec<u8>,
    pub original_packet: IbcPacket,
    pub relayer: String,
}

#[derive(Clone, Debug, PartialEq, Eq)]
pub struct IbcPacketTimeoutMsg {
    pub packet: IbcPacket,
    pub relayer: String,
}

/// The handler that a packet goes to.
#[derive(Clone, Debug, PartialEq, Eq)]
pub enum Route {
    /// A BTC timestamp, as its encoded bytes, for the timestamp processor.
    BtcTimestamp(Vec<u8>),
    BtcStaking(BtcStakingIbcPacket),
}

pub ghost enum RouteModel {
    BtcTimestamp(Seq<u8>),
    BtcStaking(StakingPacketModel),
}

impl View for Route {
    type V = RouteModel;

    open spec fn view(&self) -> RouteModel {
        match self {
            Route::BtcTimestamp(b) => RouteModel::BtcTimestamp(b@),
            Route::BtcStaking(p) => RouteModel::BtcStaking(p@),
        }
    }
}

/// The handler that a payload goes to, or why it goes to none.
pub open spec fn dispatch_spec(data: Seq<u8>) -> Result<RouteModel, PacketErrorModel> {
    match decode_packet_spec(data) {
        None => Err(PacketErrorModel::Decode),
        Some(None) => Err(PacketErrorModel::EmptyPacket),
        Some(Some(PacketModel::Unsupported(n))) => Err(PacketErrorModel::UnsupportedPacket(n)),
        Some(Some(PacketModel::BtcTimestamp(b))) => Ok(RouteModel::BtcTimestamp(b)),
        Some(Some(PacketModel::BtcStaking(p))) => Ok(RouteModel::BtcStaking(p)),
    }
}

pub open spec fn route_view(r: Result<Route, PacketError>) -> Result<RouteModel, PacketErrorModel> {
    match r {
        Ok(x) => Ok(x@),
        Err(e) => Err(e@),
    }
}

/// Decodes a payload and selects its handler.
pub fn dispatch(data: &[u8]) -> (r: Result<Route, PacketError>)
    ensures
        route_view(r) == dispatch_spec(data@),
{
    match decode_packet_data(data) {
        None => Err(PacketError::Decode),
        Some(d) => match d.packet {
            None => Err(PacketError::EmptyPacket),
            Some(Packet::Unsupported(n)) => Err(PacketError::UnsupportedPacket { field: n }),
            Some(Packet::BtcTimestamp(b)) => Ok(Route::BtcTimestamp(b)),
            Some(Packet::BtcStaking(p)) => Ok(Route::BtcStaking(p)),
        },
    }
}

/// The response to a staking packet routed to the contract at `addr`.
pub open spec fn staking_response(addr: Seq<char>, call: StakingCallModel) -> ReceiveModel {
    ReceiveModel {
        acknowledgement: AckModel::Success(Seq::empty()),
        messages: seq![OutboundModel::WasmExecute(addr, call)],
        attributes: seq![("action"@, "receive_btc_staking"@)],
        events: Seq::empty(),
    }
}

/// What handling a staking packet yields.
pub open spec fn staking_outcome(cfg: ConfigModel, p: StakingPacketModel) -> Result<
    ReceiveModel,
    PacketErrorModel,
> {
    match cfg.btc_staking {
        None => Err(PacketErrorModel::RoutingNotConfigured),
        Some(addr) => match staking_translation(p) {
            Ok(call) => Ok(staking_response(addr, call)),
            Err(e) => Err(e),
        },
    }
}

/// The response to a processed timestamp; `msg` is the message for the
/// zone that the processor produced, if any.
pub open spec fn timestamp_response(cfg: ConfigModel, msg: Option<Seq<u8>>) -> ReceiveModel {
    ReceiveModel {
        acknowledgement: AckModel::Success(Seq::empty()),
        messages: match msg {
            Some(m) => if cfg.notify_cosmos_zone {
                seq![OutboundModel::Babylon(m)]
            } else {
                Seq::empty()
            },
            None => Seq::empty(),
        },
        attributes: seq![("action"@, "receive_btc_timestamp"@)],
        events: Seq::empty(),
    }
}

/// What handling a timestamp yields, given what the processor returned.
pub open spec fn timestamp_outcome(cfg: ConfigModel, processed: Result<Option<Seq<u8>>, Seq<char>>) -> Result<
    ReceiveModel,
    PacketErrorModel,
> {
    match processed {
        Ok(msg) => Ok(timestamp_response(cfg, msg)),
        Err(m) => Err(PacketErrorModel::Handler(m)),
    }
}

/// The response that carries an error acknowledgement.
pub open spec fn error_response(e: PacketErrorModel) -> ReceiveModel {
    ReceiveModel {
        acknowledgement: AckModel::Error("invalid packet: "@ + error_text(e)),
        messages: Seq::empty(),
        attributes: Seq::empty(),
        events: seq![EventModel { ty: "ibc"@, attributes: seq![("packet"@, "receive"@)] }],
    }
}

/// An outcome wrapped into a response: errors become error acknowledgements.
pub open spec fn acknowledged(r: Result<ReceiveModel, PacketErrorModel>) -> ReceiveModel {
    match r {
        Ok(m) => m,
        Err(e) => error_response(e),
    }
}

pub open spec fn outcome_view(r: Result<ReceiveResponse, PacketError>) -> Result<
    ReceiveModel,
    PacketErrorModel,
> {
    match r {
        Ok(x) => Ok(x@),
        Err(e) => Err(e@),
    }
}

pub open spec fn processed_view(r: Result<Option<ZoneMessage>, String>) -> Result<
    Option<Seq<u8>>,
    Seq<char>,
> {
    match r {
        Ok(Some(m)) => Ok(Some(m.payload@)),
        Ok(None) => Ok(None),
        Err(e) => Err(e@),
    }
}

fn success_ack() -> (r: Acknowledgement)
    ensures
        r@ == AckModel::Success(Seq::empty()),
{
    Acknowledgement::Success(Vec::new())
}

/// Routes a staking packet to the configured staking contract, as one call
/// that carries the translated records.
pub fn handle_btc_staking(cfg: &Config, p: &BtcStakingIbcPacket) -> (r: Result<
    ReceiveResponse,
    PacketError,
>)
    ensures
        outcome_view(r) == staking_outcome(cfg@, p@),
{
    let addr = match &cfg.btc_staking {
        Some(a) => a,
        None => return Err(PacketError::RoutingNotConfigured),
    };
    let msg = match translate_btc_staking(p) {
        Ok(m) => m,
        Err(e) => return Err(e),
    };
    let ghost call = msg@;
    let mut messages: Vec<OutboundMsg> = Vec::new();
    messages.push(OutboundMsg::WasmExecute { contract_addr: addr.clone(), msg });
    let mut attributes: Vec<Attribute> = Vec::new();
    attributes.push(attribute("action", "receive_btc_staking"));
    let r = ReceiveResponse { acknowledgement: success_ack(), messages, attributes, events: Vec::new() };
    proof {
        lemma_views_empty::<crate::response::Event>();
        assert(views(r.messages@) =~= seq![OutboundModel::WasmExecute(addr@, call)]);
        assert(views(r.attributes@) =~= seq![("action"@, "receive_btc_staking"@)]);
    }
    Ok(r)
}

/// Answers a timestamp that the timestamp processor has handled:
/// `processed` is what it returned. A message for the zone is passed on
/// only where the configuration asks for it.
pub fn handle_btc_timestamp(cfg: &Config, processed: Result<Option<ZoneMessage>, String>) -> (r:
    Result<ReceiveResponse, PacketError>)
    ensures
        outcome_view(r) == timestamp_outcome(cfg@, processed_view(processed)),
{
    let ghost seen = processed_view(processed);
    let msg_option = match processed {
        Ok(m) => m,
        Err(message) => return Err(PacketError::Handler { message }),
    };
    let mut messages: Vec<OutboundMsg> = Vec::new();
    if let Some(msg) = msg_option {
        if cfg.notify_cosmos_zone {
            messages.push(OutboundMsg::Babylon(msg));
        }
    }
    let mut attributes: Vec<Attribute> = Vec::new();
    attributes.push(attribute("action", "receive_btc_timestamp"));
    let r = ReceiveResponse { acknowledgement: success_ack(), messages, attributes, events: Vec::new() };
    proof {
        lemma_views_empty::<crate::response::Event>();
        lemma_views_empty::<OutboundMsg>();
        assert(views(r.messages@) =~= timestamp_response(cfg@, seen->Ok_0).messages);
        assert(views(r.attributes@) =~= seq![("action"@, "receive_btc_timestamp"@)]);
    }
    Ok(r)
}

/// Wraps an outcome into a response; an error becomes an error
/// acknowledgement that describes it, with no outbound message.
pub fn acknowledge(outcome: Result<ReceiveResponse, PacketError>) -> (r: ReceiveResponse)
    ensures
        r@ == acknowledged(outcome_view(outcome)),
{
    match outcome {
        Ok(resp) => resp,
        Err(e) => {
            let text = String::from_str("invalid packet: ").concat(e.message().as_str());
            let mut events: Vec<crate::response::Event> = Vec::new();
            events.push(event("ibc", "packet", "receive"));
            let r = ReceiveResponse {
                acknowledgement: Acknowledgement::Error(text),
                messages: Vec::new(),
                attributes: Vec::new(),
                events,
            };
            proof {
                lemma_views_empty::<OutboundMsg>();
                lemma_views_empty::<Attribute>();
                assert(views(r.events@) =~= error_response(e@).events);
            }
            r
        },
    }
}

/// Where handling a received packet stands.
#[derive(Clone, Debug, PartialEq, Eq)]
pub enum ReceiveStep {
    /// The response is complete.
    Done(ReceiveResponse),
    /// The packet holds a timestamp, given as its encoded bytes: the host
    /// has the timestamp processor handle it and passes what that returned
    /// to `finish_btc_timestamp`.
    ProcessTimestamp(Vec<u8>),
}

pub ghost enum ReceiveStepModel {
    Done(ReceiveModel),
    ProcessTimestamp(Seq<u8>),
}

impl View for ReceiveStep {
    type V = ReceiveStepModel;

    open spec fn view(&self) -> ReceiveStepModel {
        match self {
            ReceiveStep::Done(r) => ReceiveStepModel::Done(r@),
            ReceiveStep::ProcessTimestamp(b) => ReceiveStepModel::ProcessTimestamp(b@),
        }
    }
}

/// Where handling a packet stands once it has been routed.
pub open spec fn route_spec(route: RouteModel, cfg: ConfigModel) -> ReceiveStepModel {
    match route {
        RouteModel::BtcStaking(p) => ReceiveStepModel::Done(acknowledged(staking_outcome(cfg, p))),
        RouteModel::BtcTimestamp(b) => ReceiveStepModel::ProcessTimestamp(b),
    }
}

/// Where handling a payload stands once it has been decoded and dispatched.
pub open spec fn receive_spec(data: Seq<u8>, cfg: ConfigModel) -> ReceiveStepModel {
    match dispatch_spec(data) {
        Err(e) => ReceiveStepModel::Done(error_response(e)),
        Ok(route) => route_spec(route, cfg),
    }
}

/// Hands a routed packet to its handler: a staking packet is handled and
/// acknowledged; a timestamp is handed back for the timestamp processor.
pub fn route_packet(route: Route, cfg: &Config) -> (r: ReceiveStep)
    ensures
        r@ == route_spec(route@, cfg@),
{
    match route {
        Route::BtcStaking(p) => ReceiveStep::Done(acknowledge(handle_btc_staking(cfg, &p))),
        Route::BtcTimestamp(b) => ReceiveStep::ProcessTimestamp(b),
    }
}

/// Handles a received packet: decodes it, routes it and acknowledges the
/// outcome. Every error ends in an error acknowledgement; a timestamp is
/// handed back for the timestamp processor.
pub fn ibc_packet_receive(msg: &IbcPacketReceiveMsg, cfg: &Config) -> (r: ReceiveStep)
    ensures
        r@ == receive_spec(msg.packet.data@, cfg@),
{
    match dispatch(msg.packet.data.as_slice()) {
        Err(e) => ReceiveStep::Done(acknowledge(Err(e))),
        Ok(route) => route_packet(route, cfg),
    }
}

/// Completes the handling of a timestamp with what the timestamp processor
/// returned, and acknowledges the outcome.
pub fn finish_btc_timestamp(cfg: &Config, processed: Result<Option<ZoneMessage>, String>) -> (r:
    ReceiveResponse)
    ensures
        r@ == acknowledged(timestamp_outcome(cfg@, processed_view(processed))),
{
    acknowledge(handle_btc_timestamp(cfg, processed))
}

/// This endpoint sends no packets, so no acknowledgement is owed to it.
pub fn ibc_packet_ack(msg: &IbcPacketAckMsg) -> (r: Result<BasicResponse, ContractError>)
    ensures
        r matches Err(ContractError::IbcUnsupportedMethod),
{
    Err(ContractError::IbcUnsupportedMethod)
}

/// This endpoint sends no packets, so none of them can time out.
pub fn ibc_packet_timeout(msg: &IbcPacketTimeoutMsg) -> (r: Result<BasicResponse, ContractError>)
    ensures
        r matches Err(ContractError::IbcUnsupportedMethod),
{
    Err(ContractError::IbcUnsupportedMethod)
}

/// A payload that is not a well-formed packet is answered with an error
/// acknowledgement, never with a failure of the call.
pub proof fn malformed_payload_is_acknowledged(data: Seq<u8>, cfg: ConfigModel)
    requires
        decode_packet_spec(data) is None,
    ensures
        receive_spec(data, cfg) == ReceiveStepModel::Done(error_response(PacketErrorModel::Decode)),
        error_response(PacketErrorModel::Decode).acknowledgement is Error,
{
}

/// A staking packet that arrives while no staking contract is configured
/// is answered with an error acknowledgement and no outbound message.
pub proof fn unrouted_staking_is_refused(data: Seq<u8>, cfg: ConfigModel)
    requires
        dispatch_spec(data) is Ok,
        dispatch_spec(data)->Ok_0 is BtcStaking,
        cfg.btc_staking is None,
    ensures
        receive_spec(data, cfg) == ReceiveStepModel::Done(
            error_response(PacketErrorModel::RoutingNotConfigured),
        ),
        error_response(PacketErrorModel::RoutingNotConfigured).acknowledgement is Error,
        error_response(PacketErrorModel::RoutingNotConfigured).messages.len() == 0,
{
}

} // verus!
