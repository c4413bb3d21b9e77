use babylon_ibc::api::{Decimal, ExecuteMsg};
use babylon_ibc::channel::{
    ibc_channel_close, ibc_channel_connect, ibc_channel_open, IbcChannel, IbcChannelCloseMsg,
    IbcChannelConnectMsg, IbcChannelOpenMsg, IbcEndpoint, IbcOrder, IBC_ORDERING, IBC_VERSION,
};
use babylon_ibc::error::{ContractError, PacketError};
use babylon_ibc::packet::{
    dispatch, finish_btc_timestamp, ibc_packet_ack, ibc_packet_receive, ibc_packet_timeout, Config,
    IbcPacket, IbcPacketAckMsg, IbcPacketReceiveMsg, IbcPacketTimeoutMsg, ReceiveStep, Route,
};
use babylon_ibc::response::{Acknowledgement, OutboundMsg, ReceiveResponse, ZoneMessage};
use babylon_ibc::translate::{translate_btc_staking, translate_provider};
use babylon_ibc::wire::{
    decode_packet_data, ActiveBtcDelegation, BtcStakingIbcPacket, BtcUndelegationInfo,
    CovenantAdaptorSignatures, Description, NewFinalityProvider, Packet, ProofOfPossessionBtc,
    SignatureInfo, UnbondedBtcDelegation,
};
use prost::encoding::{bytes, encode_key, encode_varint, int32, string, uint32, uint64, WireType};

fn endpoint(channel_id: &str) -> IbcEndpoint {
    IbcEndpoint { port_id: "wasm.contract".to_string(), channel_id: channel_id.to_string() }
}

fn channel(channel_id: &str, order: IbcOrder, version: &str) -> IbcChannel {
    IbcChannel {
        endpoint: endpoint(channel_id),
        counterparty_endpoint: endpoint("channel-7"),
        order,
        version: version.to_string(),
        connection_id: "connection-2".to_string(),
    }
}

fn open_try(channel_id: &str, order: IbcOrder, version: &str) -> IbcChannelOpenMsg {
    IbcChannelOpenMsg::OpenTry {
        channel: channel(channel_id, order, version),
        counterparty_version: version.to_string(),
    }
}

fn packet_with(data: Vec<u8>) -> IbcPacketReceiveMsg {
    IbcPacketReceiveMsg {
        packet: IbcPacket { data, src: endpoint("channel-7"), dest: endpoint("channel-12"), sequence: 1 },
        relayer: "relayer".to_string(),
    }
}

fn receive_done(data: Vec<u8>, cfg: &Config) -> ReceiveResponse {
    match ibc_packet_receive(&packet_with(data), cfg) {
        ReceiveStep::Done(r) => r,
        ReceiveStep::ProcessTimestamp(_) => panic!("expected a finished response"),
    }
}

fn error_text(r: &ReceiveResponse) -> String {
    match &r.acknowledgement {
        Acknowledgement::Error(m) => m.clone(),
        Acknowledgement::Success(_) => panic!("expected an error acknowledgement"),
    }
}

fn no_route() -> Config {
    Config { btc_staking: None, notify_cosmos_zone: false }
}

fn routed() -> Config {
    Config { btc_staking: Some("staking-contract".to_string()), notify_cosmos_zone: false }
}

fn nested(tag: u32, inner: &Vec<u8>, buf: &mut Vec<u8>) {
    bytes::encode(tag, inner, buf);
}

fn sample_provider(commission: &str) -> NewFinalityProvider {
    NewFinalityProvider {
        description: Some(Description {
            moniker: "fp-one".to_string(),
            identity: "id".to_string(),
            website: "https://fp.example".to_string(),
            security_contact: "sec@fp.example".to_string(),
            details: "détails".to_string(),
        }),
        commission: commission.to_string(),
        addr: "bbn1provider".to_string(),
        btc_pk_hex: "02aabb".to_string(),
        pop: Some(ProofOfPossessionBtc { btc_sig_type: 1, btc_sig: vec![9, 8, 7] }),
        consumer_id: "consumer-1".to_string(),
    }
}

fn encode_provider(p: &NewFinalityProvider) -> Vec<u8> {
    let mut buf = Vec::new();
    if let Some(d) = &p.description {
        let mut inner = Vec::new();
        string::encode(1, &d.moniker, &mut inner);
        string::encode(2, &d.identity, &mut inner);
        string::encode(3, &d.website, &mut inner);
        string::encode(4, &d.security_contact, &mut inner);
        string::encode(5, &d.details, &mut inner);
        nested(1, &inner, &mut buf);
    }
    string::encode(2, &p.commission, &mut buf);
    string::encode(3, &p.addr, &mut buf);
    string::encode(4, &p.btc_pk_hex, &mut buf);
    if let Some(pop) = &p.pop {
        let mut inner = Vec::new();
        int32::encode(1, &pop.btc_sig_type, &mut inner);
        bytes::encode(2, &pop.btc_sig, &mut inner);
        nested(5, &inner, &mut buf);
    }
    string::encode(6, &p.consumer_id, &mut buf);
    buf
}

fn sample_covenant(seed: u8) -> CovenantAdaptorSignatures {
    CovenantAdaptorSignatures { cov_pk: vec![seed, 0, 1], adaptor_sigs: vec![vec![seed, 2], vec![], vec![seed, 3, 4]] }
}

fn encode_covenant(c: &CovenantAdaptorSignatures) -> Vec<u8> {
    let mut buf = Vec::new();
    bytes::encode(1, &c.cov_pk, &mut buf);
    for a in &c.adaptor_sigs {
        bytes::encode(2, a, &mut buf);
    }
    buf
}

fn sample_delegation() -> ActiveBtcDelegation {
    ActiveBtcDelegation {
        staker_addr: "bbn1staker".to_string(),
        btc_pk_hex: "03ccdd".to_string(),
        fp_btc_pk_list: vec!["02aabb".to_string(), "02eeff".to_string()],
        start_height: 100,
        end_height: 4_294_967_295,
        total_sat: 21_000_000_0000_0000,
        staking_tx: vec![1, 2, 3, 0, 255],
        slashing_tx: vec![4, 5],
        delegator_slashing_sig: vec![6],
        covenant_sigs: vec![sample_covenant(10), sample_covenant(20)],
        staking_output_idx: 1,
        unbonding_time: 1008,
        undelegation_info: Some(BtcUndelegationInfo {
            unbonding_tx: vec![7, 7],
            delegator_unbonding_sig: vec![],
            covenant_unbonding_sig_list: vec![SignatureInfo { pk: vec![1], sig: vec![2] }],
            slashing_tx: vec![8],
            delegator_slashing_sig: vec![9],
            covenant_slashing_sigs: vec![sample_covenant(30)],
        }),
        params_version: 3,
    }
}

fn encode_delegation(d: &ActiveBtcDelegation) -> Vec<u8> {
    let mut buf = Vec::new();
    string::encode(1, &d.staker_addr, &mut buf);
    string::encode(2, &d.btc_pk_hex, &mut buf);
    for pk in &d.fp_btc_pk_list {
        string::encode(3, pk, &mut buf);
    }
    uint32::encode(4, &d.start_height, &mut buf);
    uint32::encode(5, &d.end_height, &mut buf);
    uint64::encode(6, &d.total_sat, &mut buf);
    bytes::encode(7, &d.staking_tx, &mut buf);
    bytes::encode(8, &d.slashing_tx, &mut buf);
    bytes::encode(9, &d.delegator_slashing_sig, &mut buf);
    for c in &d.covenant_sigs {
        nested(10, &encode_covenant(c), &mut buf);
    }
    uint32::encode(11, &d.staking_output_idx, &mut buf);
    uint32::encode(12, &d.unbonding_time, &mut buf);
    if let Some(u) = &d.undelegation_info {
        let mut inner = Vec::new();
        bytes::encode(1, &u.unbonding_tx, &mut inner);
        bytes::encode(2, &u.delegator_unbonding_sig, &mut inner);
        for s in &u.covenant_unbonding_sig_list {
            let mut si = Vec::new();
            bytes::encode(1, &s.pk, &mut si);
            bytes::encode(2, &s.sig, &mut si);
            nested(3, &si, &mut inner);
        }
        bytes::encode(4, &u.slashing_tx, &mut inner);
        bytes::encode(5, &u.delegator_slashing_sig, &mut inner);
        for c in &u.covenant_slashing_sigs {
            nested(6, &encode_covenant(c), &mut inner);
        }
        nested(13, &inner, &mut buf);
    }
    uint32::encode(14, &d.params_version, &mut buf);
    buf
}

fn sample_staking(commission: &str) -> BtcStakingIbcPacket {
    BtcStakingIbcPacket {
        new_fp: vec![sample_provider(commission)],
        active_del: vec![sample_delegation()],
        slashed_del: vec![],
        unbonded_del: vec![UnbondedBtcDelegation {
            staking_tx_hash: "abcd".to_string(),
            unbonding_tx_sig: vec![5, 6, 7],
        }],
    }
}

fn encode_staking(p: &BtcStakingIbcPacket) -> Vec<u8> {
    let mut buf = Vec::new();
    for fp in &p.new_fp {
        nested(1, &encode_provider(fp), &mut buf);
    }
    for d in &p.active_del {
        nested(2, &encode_delegation(d), &mut buf);
    }
    for u in &p.unbonded_del {
        let mut inner = Vec::new();
        string::encode(1, &u.staking_tx_hash, &mut inner);
        bytes::encode(2, &u.unbonding_tx_sig, &mut inner);
        nested(4, &inner, &mut buf);
    }
    buf
}

fn staking_payload(p: &BtcStakingIbcPacket) -> Vec<u8> {
    let mut buf = Vec::new();
    nested(2, &encode_staking(p), &mut buf);
    buf
}

#[test]
fn enforce_version_in_handshake() {
    let wrong_order = open_try("channel-12", IbcOrder::Unordered, IBC_VERSION);
    ibc_channel_open(&wrong_order).unwrap_err();

    let wrong_version = open_try("channel-12", IbcOrder::Ordered, "reflect");
    ibc_channel_open(&wrong_version).unwrap_err();

    let valid_handshake = open_try("channel-12", IBC_ORDERING, IBC_VERSION);
    ibc_channel_open(&valid_handshake).unwrap();
}

#[test]
fn unordered_channel_with_other_version_is_rejected() {
    let msg = open_try("channel-12", IbcOrder::Unordered, "v1");
    assert_eq!(ibc_channel_open(&msg), Err(ContractError::IbcUnorderedChannel));
}

#[test]
fn ordered_channel_with_protocol_version_is_accepted() {
    let msg = open_try("channel-12", IbcOrder::Ordered, "zoneconcierge-1");
    let resp = ibc_channel_open(&msg).unwrap().unwrap();
    assert_eq!(resp.version, "zoneconcierge-1");
}

#[test]
fn open_init_without_counterparty_version_is_accepted() {
    let msg = IbcChannelOpenMsg::OpenInit { channel: channel("channel-3", IbcOrder::Ordered, "anything") };
    let resp = ibc_channel_open(&msg).unwrap().unwrap();
    assert_eq!(resp.version, IBC_VERSION);
}

#[test]
fn other_counterparty_version_names_the_required_one() {
    let msg = open_try("channel-12", IbcOrder::Ordered, "zoneconcierge-2");
    assert_eq!(
        ibc_channel_open(&msg),
        Err(ContractError::IbcInvalidCounterPartyVersion { version: IBC_VERSION.to_string() })
    );
}

#[test]
fn connect_and_close_record_the_channel() {
    let c = ibc_channel_connect(&IbcChannelConnectMsg { channel: channel("channel-5", IbcOrder::Ordered, IBC_VERSION) }).unwrap();
    assert_eq!(c.attributes.len(), 2);
    assert_eq!((c.attributes[0].key.as_str(), c.attributes[0].value.as_str()), ("action", "ibc_connect"));
    assert_eq!((c.attributes[1].key.as_str(), c.attributes[1].value.as_str()), ("channel_id", "channel-5"));
    assert_eq!(c.events.len(), 1);
    assert_eq!(c.events[0].ty, "ibc");
    assert_eq!(c.events[0].attributes[0].value, "connect");
    let d = ibc_channel_close(&IbcChannelCloseMsg { channel: channel("channel-5", IbcOrder::Ordered, IBC_VERSION) }).unwrap();
    assert_eq!((d.attributes[0].key.as_str(), d.attributes[0].value.as_str()), ("action", "ibc_close"));
    assert_eq!(d.attributes[1].value, "channel-5");
    assert!(d.events.is_empty());
}

#[test]
fn acknowledgements_and_timeouts_are_unsupported() {
    let p = IbcPacket { data: vec![], src: endpoint("a"), dest: endpoint("b"), sequence: 9 };
    let ack = IbcPacketAckMsg { acknowledgement: vec![], original_packet: p.clone(), relayer: "r".to_string() };
    assert_eq!(ibc_packet_ack(&ack), Err(ContractError::IbcUnsupportedMethod));
    let t = IbcPacketTimeoutMsg { packet: p, relayer: "r".to_string() };
    assert_eq!(ibc_packet_timeout(&t), Err(ContractError::IbcUnsupportedMethod));
}

#[test]
fn empty_packet_gets_error_ack() {
    let r = receive_done(vec![], &routed());
    assert!(error_text(&r).contains("empty"));
    assert_eq!(error_text(&r), "invalid packet: Generic error: empty IBC packet");
    assert!(r.messages.is_empty());
    assert_eq!(r.events.len(), 1);
    assert_eq!(r.events[0].ty, "ibc");
    assert_eq!((r.events[0].attributes[0].key.as_str(), r.events[0].attributes[0].value.as_str()), ("packet", "receive"));
}

#[test]
fn malformed_payloads_get_error_acks() {
    let cases: Vec<Vec<u8>> = vec![
        vec![0x12],                   // key without length
        vec![0x12, 0x05, 1, 2],       // length beyond the end
        vec![0x80],                   // unterminated varint
        vec![0x00, 0x01],             // field number zero
        vec![0x0b],                   // group wire type
        vec![0x08, 0x01],             // timestamp field as a varint
        vec![0x12, 0x02, 0x0a, 0x05], // staking packet whose provider is cut short
        vec![0xff; 11],
    ];
    for data in cases {
        let r = receive_done(data, &routed());
        assert_eq!(
            error_text(&r),
            "invalid packet: Generic error: failed to decode ZoneconciergePacketData: failed to decode Protobuf message: malformed wire data"
        );
        assert!(r.messages.is_empty());
    }
}

#[test]
fn text_that_is_not_utf8_is_malformed() {
    let mut inner = Vec::new();
    encode_key(1, WireType::LengthDelimited, &mut inner);
    encode_varint(2, &mut inner);
    inner.extend_from_slice(&[0xc3, 0x28]);
    let mut staking = Vec::new();
    nested(4, &inner, &mut staking);
    let mut buf = Vec::new();
    nested(2, &staking, &mut buf);
    assert_eq!(dispatch(&buf), Err(PacketError::Decode));
}

#[test]
fn unknown_variant_is_unsupported() {
    let mut buf = Vec::new();
    bytes::encode(3, &vec![1u8, 2], &mut buf);
    assert_eq!(dispatch(&buf), Err(PacketError::UnsupportedPacket { field: 3 }));
    let r = receive_done(buf, &routed());
    assert_eq!(error_text(&r), "invalid packet: Generic error: unsupported packet variant");
}

#[test]
fn staking_without_route_gets_error_ack() {
    let mut p = sample_staking("0.1");
    p.new_fp.clear();
    p.unbonded_del.clear();
    assert_eq!(p.active_del.len(), 1);
    let r = receive_done(staking_payload(&p), &no_route());
    assert_eq!(error_text(&r), "invalid packet: Generic error: btc_staking contract not set");
    assert!(r.messages.is_empty());
    assert!(r.attributes.is_empty());
}

#[test]
fn staking_is_routed_to_the_staking_contract() {
    let p = sample_staking("0.05");
    let r = receive_done(staking_payload(&p), &routed());
    assert_eq!(r.acknowledgement, Acknowledgement::Success(vec![]));
    assert_eq!(r.attributes.len(), 1);
    assert_eq!(r.attributes[0].value, "receive_btc_staking");
    assert_eq!(r.messages.len(), 1);
    match &r.messages[0] {
        OutboundMsg::WasmExecute { contract_addr, msg } => {
            assert_eq!(contract_addr, "staking-contract");
            let ExecuteMsg::BtcStaking { new_fp, active_del, slashed_del, unbonded_del } = msg;
            assert_eq!(new_fp.len(), 1);
            assert_eq!(new_fp[0].commission, Decimal { atomics: 50_000_000_000_000_000 });
            assert_eq!(new_fp[0].addr, "bbn1provider");
            assert_eq!(new_fp[0].pop.as_ref().unwrap().btc_sig, vec![9, 8, 7]);
            assert_eq!(new_fp[0].description.as_ref().unwrap().details, "détails");
            assert_eq!(active_del.len(), 1);
            let d = &active_del[0];
            assert_eq!(d.end_height, 4_294_967_295);
            assert_eq!(d.total_sat, 21_000_000_0000_0000);
            assert_eq!(d.staking_tx, vec![1, 2, 3, 0, 255]);
            assert_eq!(d.fp_btc_pk_list, vec!["02aabb".to_string(), "02eeff".to_string()]);
            assert_eq!(d.covenant_sigs[1].adaptor_sigs, vec![vec![20, 2], vec![], vec![20, 3, 4]]);
            let u = d.undelegation_info.as_ref().unwrap();
            assert_eq!(u.covenant_unbonding_sig_list[0].sig, vec![2]);
            assert_eq!(u.covenant_slashing_sigs[0].cov_pk, vec![30, 0, 1]);
            assert!(slashed_del.is_empty());
            assert_eq!(unbonded_del[0].staking_tx_hash, "abcd");
            assert_eq!(unbonded_del[0].unbonding_tx_sig, vec![5, 6, 7]);
        }
        OutboundMsg::Babylon(_) => panic!("expected a contract call"),
    }
}

#[test]
fn commission_is_parsed_as_decimal() {
    assert_eq!(translate_provider(&sample_provider("1")).unwrap().commission.atomics, 1_000_000_000_000_000_000);
    assert_eq!(translate_provider(&sample_provider("0.123")).unwrap().commission.atomics, 123_000_000_000_000_000);
    assert_eq!(
        translate_provider(&sample_provider("abc")),
        Err(PacketError::InvalidDecimal { message: "Generic error: Error parsing whole".to_string() })
    );
}

#[test]
fn invalid_commission_gets_error_ack() {
    let p = sample_staking("12%");
    let r = receive_done(staking_payload(&p), &routed());
    assert_eq!(error_text(&r), "invalid packet: Generic error: Error parsing whole");
    assert!(r.messages.is_empty());
}

#[test]
fn translating_twice_gives_the_same_call() {
    let p = sample_staking("0.25");
    assert_eq!(translate_btc_staking(&p), translate_btc_staking(&p));
}

#[test]
fn decoding_an_encoded_packet_translates_as_the_original() {
    let p = sample_staking("0.07");
    let decoded = decode_packet_data(&staking_payload(&p)).unwrap();
    let Some(Packet::BtcStaking(q)) = decoded.packet else { panic!("expected a staking packet") };
    assert_eq!(q, p);
    assert_eq!(translate_btc_staking(&q), translate_btc_staking(&p));
}

#[test]
fn timestamp_goes_to_the_processor() {
    let mut buf = Vec::new();
    bytes::encode(1, &vec![7u8, 7, 7], &mut buf);
    match ibc_packet_receive(&packet_with(buf.clone()), &no_route()) {
        ReceiveStep::ProcessTimestamp(b) => assert_eq!(b, vec![7, 7, 7]),
        ReceiveStep::Done(_) => panic!("expected the timestamp to be handed out"),
    }
    assert_eq!(dispatch(&buf), Ok(Route::BtcTimestamp(vec![7, 7, 7])));
}

#[test]
fn zone_message_is_passed_on_only_when_asked() {
    let msg = ZoneMessage { payload: vec![1, 2] };
    let quiet = finish_btc_timestamp(&no_route(), Ok(Some(msg.clone())));
    assert_eq!(quiet.acknowledgement, Acknowledgement::Success(vec![]));
    assert!(quiet.messages.is_empty());
    assert_eq!(quiet.attributes[0].value, "receive_btc_timestamp");
    let loud_cfg = Config { btc_staking: None, notify_cosmos_zone: true };
    let loud = finish_btc_timestamp(&loud_cfg, Ok(Some(msg.clone())));
    assert_eq!(loud.messages, vec![OutboundMsg::Babylon(msg)]);
    let none = finish_btc_timestamp(&loud_cfg, Ok(None));
    assert!(none.messages.is_empty());
}

#[test]
fn processor_failure_gets_error_ack() {
    let r = finish_btc_timestamp(&routed(), Err("header not found".to_string()));
    assert_eq!(error_text(&r), "invalid packet: header not found");
    assert!(r.messages.is_empty());
}

#[test]
fn library_encoding_decodes_to_itself() {
    let p = sample_staking("0.5");
    let data = babylon_ibc::wire::ZoneconciergePacketData { packet: Some(Packet::BtcStaking(p.clone())) };
    let bytes = data.encode();
    let decoded = decode_packet_data(&bytes).unwrap();
    assert_eq!(decoded, data);
    let Some(Packet::BtcStaking(q)) = decoded.packet else { panic!("expected a staking packet") };
    assert_eq!(translate_btc_staking(&q), translate_btc_staking(&p));
    let ts = babylon_ibc::wire::ZoneconciergePacketData { packet: Some(Packet::BtcTimestamp(vec![3, 1, 4])) };
    assert_eq!(ts.encode(), vec![0x0a, 0x03, 3, 1, 4]);
    assert_eq!(dispatch(&ts.encode()), Ok(Route::BtcTimestamp(vec![3, 1, 4])));
}

#[test]
fn negative_signature_type_survives_encoding() {
    let pop = ProofOfPossessionBtc { btc_sig_type: -2, btc_sig: vec![1] };
    let bytes = pop.encode();
    assert_eq!(bytes.len(), 1 + 10 + 3);
    assert_eq!(babylon_ibc::wire::decode_pop(&bytes), Some(pop));
}

#[test]
fn decimal_edge_cases() {
    let atomics = |c: &str| translate_provider(&sample_provider(c)).map(|p| p.commission.atomics);
    assert_eq!(atomics("0.1"), Ok(100_000_000_000_000_000));
    assert_eq!(atomics("+1.5"), Ok(1_500_000_000_000_000_000));
    assert_eq!(atomics("007"), Ok(7_000_000_000_000_000_000));
    assert_eq!(atomics("0.000000000000000001"), Ok(1));
    assert!(atomics("0.0000000000000000001").is_err());
    assert!(atomics("1.").is_err());
    assert!(atomics(".5").is_err());
    assert!(atomics("1.2.3").is_err());
    assert!(atomics("-1").is_err());
    assert!(atomics("340282366920938463464").is_err());
    assert_eq!(atomics("340282366920938463463"), Ok(340_282_366_920_938_463_463_000_000_000_000_000_000));
}

#[test]
fn repeated_embedded_messages_merge() {
    let mut first = Vec::new();
    string::encode(1, &"moniker-a".to_string(), &mut first);
    string::encode(2, &"identity-a".to_string(), &mut first);
    let mut second = Vec::new();
    string::encode(2, &"identity-b".to_string(), &mut second);
    let mut fp = Vec::new();
    nested(1, &first, &mut fp);
    string::encode(2, &"1".to_string(), &mut fp);
    nested(1, &second, &mut fp);
    let p = babylon_ibc::wire::decode_new_finality_provider(&fp).unwrap();
    let d = p.description.unwrap();
    assert_eq!(d.moniker, "moniker-a");
    assert_eq!(d.identity, "identity-b");

    let mut staking = Vec::new();
    nested(1, &fp, &mut staking);
    let mut data = Vec::new();
    nested(2, &staking, &mut data);
    nested(2, &staking, &mut data);
    match dispatch(&data) {
        Ok(Route::BtcStaking(s)) => assert_eq!(s.new_fp.len(), 2),
        other => panic!("expected a staking packet, got {:?}", other),
    }
}

#[test]
fn repeated_timestamp_bytes_are_joined() {
    let mut data = Vec::new();
    bytes::encode(1, &vec![1u8, 2], &mut data);
    bytes::encode(1, &vec![3u8], &mut data);
    assert_eq!(dispatch(&data), Ok(Route::BtcTimestamp(vec![1, 2, 3])));
}
