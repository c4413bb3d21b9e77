//! The encoding of packet records in the wire format, and the proof that
//! decoding an encoded record gives the record back. Every field is
//! written: the singular ones in field-number order, then the repeated ones.

use crate::codec::{
    encodable_field, fields_bytes, fold_fields, lemma_fields_bytes_bound, lemma_fields_bytes_concat,
    lemma_fields_bytes_push, lemma_fields_round_trip, lemma_fold_concat, lemma_fold_push,
    lemma_fold_repeated, low_i32, low_u32, text_of, write_bytes_field, write_text_field,
    write_varint_field, FieldModel, FieldValueModel,
};
use crate::error::PacketErrorModel;
use crate::packet::{dispatch_spec, RouteModel};
use crate::translate::staking_translation;
use crate::wire::{
    active_steps, cov_sigs_steps, decode_active_spec, decode_cov_sigs_spec, decode_description_spec,
    decode_packet_spec, decode_pop_spec, decode_sig_info_spec, decode_slashed_spec,
    decode_staking_spec, decode_unbonded_spec, decode_undelegation_spec, decode_wire_provider_spec,
    description_steps, empty_active, empty_description, empty_pop, empty_staking,
    empty_undelegation, empty_wire_provider, packet_steps, pop_steps, sig_info_steps, slashed_steps,
    staking_steps, unbonded_steps, undelegation_steps, views, wire_provider_steps,
    ActiveBtcDelegation, ActiveDelegationModel, BtcStakingIbcPacket, BtcUndelegationInfo,
    CovenantAdaptorSignatures, CovenantSigsModel, Description, DescriptionModel,
    NewFinalityProvider, Packet, PacketModel, PopModel, ProofOfPossessionBtc, SignatureInfo,
    SignatureInfoModel, SlashedBtcDelegation, SlashedDelegationModel, StakingPacketModel,
    UnbondedBtcDelegation, UnbondedDelegationModel, UndelegationModel, WireFinalityProviderModel,
    ZoneconciergePacketData,
};
use vstd::prelude::*;
use vstd::utf8::{encode_utf8, encode_utf8_decode_utf8, encode_utf8_valid_utf8};

verus! {

broadcast use {lemma_fold_push, lemma_fields_bytes_push};

pub open spec fn text_field(number: u64, t: Seq<char>) -> FieldModel {
    FieldModel { number, value: FieldValueModel::Bytes(encode_utf8(t)) }
}

pub open spec fn bytes_field(number: u64, b: Seq<u8>) -> FieldModel {
    FieldModel { number, value: FieldValueModel::Bytes(b) }
}

pub open spec fn varint_field(number: u64, v: u64) -> FieldModel {
    FieldModel { number, value: FieldValueModel::Varint(v) }
}

proof fn lemma_text_round_trip(t: Seq<char>)
    ensures
        text_of(encode_utf8(t)) == Some(t),
{
    encode_utf8_valid_utf8(t);
    encode_utf8_decode_utf8(t);
}

pub open spec fn description_fields(d: DescriptionModel) -> Seq<FieldModel> {
    Seq::empty().push(text_field(1, d.moniker)).push(text_field(2, d.identity)).push(
        text_field(3, d.website),
    ).push(text_field(4, d.security_contact)).push(text_field(5, d.details))
}

pub open spec fn encode_description(d: DescriptionModel) -> Seq<u8> {
    fields_bytes(description_fields(d))
}

pub proof fn lemma_description_round_trip(d: DescriptionModel)
    requires
        encode_description(d).len() <= u64::MAX,
    ensures
        decode_description_spec(encode_description(d)) == Some(d),
{
    let fs = description_fields(d);
    lemma_fields_round_trip(fs);
    lemma_text_round_trip(d.moniker);
    lemma_text_round_trip(d.identity);
    lemma_text_round_trip(d.website);
    lemma_text_round_trip(d.security_contact);
    lemma_text_round_trip(d.details);
    let e = empty_description();
    assert(fold_fields(Seq::empty(), e, description_steps()) == Some(e));
    assert(DescriptionModel {
        details: d.details,
        ..DescriptionModel {
            security_contact: d.security_contact,
            ..DescriptionModel {
                website: d.website,
                ..DescriptionModel { identity: d.identity, ..DescriptionModel { moniker: d.moniker, ..e } }
            }
        }
    } == d);
}

/// The varint that an `int32` travels as: negative values sign-extended to
/// 64 bits.
pub open spec fn i32_varint(t: i32) -> u64 {
    if t >= 0 {
        t as u64
    } else {
        (t + 0x1_0000_0000_0000_0000) as u64
    }
}

proof fn lemma_i32_round_trip(t: i32)
    ensures
        low_i32(i32_varint(t)) == t,
{
    if t < 0 {
        let v = (t + 0x1_0000_0000_0000_0000) as int;
        assert(v % 0x1_0000_0000 == t + 0x1_0000_0000) by (nonlinear_arith)
            requires
                v == t + 0x1_0000_0000_0000_0000,
                -0x8000_0000 <= t < 0,
        ;
    }
}

proof fn lemma_u32_round_trip(x: u32)
    ensures
        low_u32(x as u64) == x,
{
}

pub open spec fn pop_fields(p: PopModel) -> Seq<FieldModel> {
    Seq::empty().push(varint_field(1, i32_varint(p.btc_sig_type))).push(bytes_field(2, p.btc_sig))
}

pub open spec fn encode_pop(p: PopModel) -> Seq<u8> {
    fields_bytes(pop_fields(p))
}

pub proof fn lemma_pop_round_trip(p: PopModel)
    requires
        encode_pop(p).len() <= u64::MAX,
    ensures
        decode_pop_spec(encode_pop(p)) == Some(p),
{
    lemma_fields_round_trip(pop_fields(p));
    lemma_i32_round_trip(p.btc_sig_type);
    assert(fold_fields(Seq::empty(), empty_pop(), pop_steps()) == Some(empty_pop()));
}

/// The fields of a provider up to its proof of possession.
pub open spec fn provider_head_fields(p: WireFinalityProviderModel) -> Seq<FieldModel> {
    let start: Seq<FieldModel> = match p.description {
        Some(d) => Seq::empty().push(bytes_field(1, encode_description(d))),
        None => Seq::empty(),
    };
    start.push(text_field(2, p.commission)).push(text_field(3, p.addr)).push(
        text_field(4, p.btc_pk_hex),
    )
}

pub open spec fn provider_fields(p: WireFinalityProviderModel) -> Seq<FieldModel> {
    let head = provider_head_fields(p);
    let with_pop: Seq<FieldModel> = match p.pop {
        Some(q) => head.push(bytes_field(5, encode_pop(q))),
        None => head,
    };
    with_pop.push(text_field(6, p.consumer_id))
}

pub open spec fn encode_provider(p: WireFinalityProviderModel) -> Seq<u8> {
    fields_bytes(provider_fields(p))
}

pub proof fn lemma_provider_round_trip(p: WireFinalityProviderModel)
    requires
        encode_provider(p).len() <= u64::MAX,
    ensures
        decode_wire_provider_spec(encode_provider(p)) == Some(p),
{
    let fs = provider_fields(p);
    let head = provider_head_fields(p);
    lemma_fields_round_trip(fs);
    lemma_text_round_trip(p.commission);
    lemma_text_round_trip(p.addr);
    lemma_text_round_trip(p.btc_pk_hex);
    lemma_text_round_trip(p.consumer_id);
    if let Some(d) = p.description {
        lemma_fields_bytes_bound(fs, 0);
        lemma_description_round_trip(d);
    }
    if let Some(q) = p.pop {
        lemma_fields_bytes_bound(fs, head.len() as int);
        lemma_pop_round_trip(q);
    }
    let e = empty_wire_provider();
    assert(fold_fields(Seq::empty(), e, wire_provider_steps()) == Some(e));
}

pub open spec fn adaptor_sig_field() -> spec_fn(Seq<u8>) -> FieldModel {
    |b: Seq<u8>| bytes_field(2, b)
}

pub open spec fn cov_sigs_fields(c: CovenantSigsModel) -> Seq<FieldModel> {
    Seq::empty().push(bytes_field(1, c.cov_pk)) + c.adaptor_sigs.map_values(adaptor_sig_field())
}

pub open spec fn encode_cov_sigs(c: CovenantSigsModel) -> Seq<u8> {
    fields_bytes(cov_sigs_fields(c))
}

pub proof fn lemma_cov_sigs_round_trip(c: CovenantSigsModel)
    requires
        encode_cov_sigs(c).len() <= u64::MAX,
    ensures
        decode_cov_sigs_spec(encode_cov_sigs(c)) == Some(c),
{
    let head = Seq::empty().push(bytes_field(1, c.cov_pk));
    let rep = c.adaptor_sigs.map_values(adaptor_sig_field());
    let fs = cov_sigs_fields(c);
    assert forall|k: int| 0 <= k < fs.len() implies encodable_field(#[trigger] fs[k]) by {
        if k >= 1 {
            assert(fs[k] == rep[k - 1]);
        }
    }
    lemma_fields_round_trip(fs);
    let e = CovenantSigsModel { cov_pk: Seq::empty(), adaptor_sigs: Seq::empty() };
    let a1 = CovenantSigsModel { cov_pk: c.cov_pk, ..e };
    assert(fold_fields(Seq::empty(), e, cov_sigs_steps()) == Some(e));
    assert(fold_fields(head, e, cov_sigs_steps()) == Some(a1));
    lemma_fold_concat(head, rep, e, cov_sigs_steps());
    let get = |x: CovenantSigsModel| x.adaptor_sigs;
    let set = |x: CovenantSigsModel, l: Seq<Seq<u8>>| CovenantSigsModel { adaptor_sigs: l, ..x };
    lemma_fold_repeated(c.adaptor_sigs, a1, cov_sigs_steps(), adaptor_sig_field(), get, set);
    assert(Seq::<Seq<u8>>::empty() + c.adaptor_sigs =~= c.adaptor_sigs);
}

pub open spec fn sig_info_fields(s: SignatureInfoModel) -> Seq<FieldModel> {
    Seq::empty().push(bytes_field(1, s.pk)).push(bytes_field(2, s.sig))
}

pub open spec fn encode_sig_info(s: SignatureInfoModel) -> Seq<u8> {
    fields_bytes(sig_info_fields(s))
}

pub proof fn lemma_sig_info_round_trip(s: SignatureInfoModel)
    requires
        encode_sig_info(s).len() <= u64::MAX,
    ensures
        decode_sig_info_spec(encode_sig_info(s)) == Some(s),
{
    lemma_fields_round_trip(sig_info_fields(s));
    let e = SignatureInfoModel { pk: Seq::empty(), sig: Seq::empty() };
    assert(fold_fields(Seq::empty(), e, sig_info_steps()) == Some(e));
}

pub open spec fn sig_info_item() -> spec_fn(SignatureInfoModel) -> FieldModel {
    |x: SignatureInfoModel| bytes_field(3, encode_sig_info(x))
}

pub open spec fn slashing_sigs_item() -> spec_fn(CovenantSigsModel) -> FieldModel {
    |x: CovenantSigsModel| bytes_field(6, encode_cov_sigs(x))
}

pub open spec fn undelegation_head_fields(u: UndelegationModel) -> Seq<FieldModel> {
    Seq::empty().push(bytes_field(1, u.unbonding_tx)).push(bytes_field(2, u.delegator_unbonding_sig)).push(
        bytes_field(4, u.slashing_tx),
    ).push(bytes_field(5, u.delegator_slashing_sig))
}

pub open spec fn undelegation_fields(u: UndelegationModel) -> Seq<FieldModel> {
    undelegation_head_fields(u) + u.covenant_unbonding_sig_list.map_values(sig_info_item())
        + u.covenant_slashing_sigs.map_values(slashing_sigs_item())
}

pub open spec fn encode_undelegation(u: UndelegationModel) -> Seq<u8> {
    fields_bytes(undelegation_fields(u))
}

pub proof fn lemma_undelegation_round_trip(u: UndelegationModel)
    requires
        encode_undelegation(u).len() <= u64::MAX,
    ensures
        decode_undelegation_spec(encode_undelegation(u)) == Some(u),
{
    let head = undelegation_head_fields(u);
    let rep1 = u.covenant_unbonding_sig_list.map_values(sig_info_item());
    let rep2 = u.covenant_slashing_sigs.map_values(slashing_sigs_item());
    let fs = undelegation_fields(u);
    let n1 = head.len() + rep1.len();
    assert forall|k: int| 0 <= k < fs.len() implies encodable_field(#[trigger] fs[k]) by {
        if head.len() <= k < n1 {
            assert(fs[k] == rep1[k - head.len()]);
        } else if k >= n1 {
            assert(fs[k] == rep2[k - n1]);
        }
    }
    lemma_fields_round_trip(fs);
    let st = undelegation_steps();
    let e = empty_undelegation();
    let a1 = UndelegationModel {
        unbonding_tx: u.unbonding_tx,
        delegator_unbonding_sig: u.delegator_unbonding_sig,
        slashing_tx: u.slashing_tx,
        delegator_slashing_sig: u.delegator_slashing_sig,
        ..e
    };
    assert(fold_fields(Seq::empty(), e, st) == Some(e));
    assert(fold_fields(head, e, st) == Some(a1));
    lemma_fold_concat(head + rep1, rep2, e, st);
    lemma_fold_concat(head, rep1, e, st);
    let xs1 = u.covenant_unbonding_sig_list;
    let get1 = |x: UndelegationModel| x.covenant_unbonding_sig_list;
    let set1 = |x: UndelegationModel, l: Seq<SignatureInfoModel>| UndelegationModel {
        covenant_unbonding_sig_list: l,
        ..x
    };
    assert forall|k: int, a: UndelegationModel| 0 <= k < xs1.len() implies #[trigger] st(
        a,
        sig_info_item()(xs1[k]),
    ) == Some(set1(a, get1(a).push(xs1[k]))) by {
        assert(fs[head.len() + k] == rep1[k]);
        lemma_fields_bytes_bound(fs, head.len() + k);
        lemma_sig_info_round_trip(xs1[k]);
    }
    lemma_fold_repeated(xs1, a1, st, sig_info_item(), get1, set1);
    let a2 = set1(a1, get1(a1) + xs1);
    let xs2 = u.covenant_slashing_sigs;
    let get2 = |x: UndelegationModel| x.covenant_slashing_sigs;
    let set2 = |x: UndelegationModel, l: Seq<CovenantSigsModel>| UndelegationModel {
        covenant_slashing_sigs: l,
        ..x
    };
    assert forall|k: int, a: UndelegationModel| 0 <= k < xs2.len() implies #[trigger] st(
        a,
        slashing_sigs_item()(xs2[k]),
    ) == Some(set2(a, get2(a).push(xs2[k]))) by {
        assert(fs[n1 + k] == rep2[k]);
        lemma_fields_bytes_bound(fs, n1 + k);
        lemma_cov_sigs_round_trip(xs2[k]);
    }
    lemma_fold_repeated(xs2, a2, st, slashing_sigs_item(), get2, set2);
    assert(Seq::<SignatureInfoModel>::empty() + xs1 =~= xs1);
    assert(Seq::<CovenantSigsModel>::empty() + xs2 =~= xs2);
}

pub open spec fn fp_pk_item() -> spec_fn(Seq<char>) -> FieldModel {
    |t: Seq<char>| text_field(3, t)
}

pub open spec fn covenant_sigs_item() -> spec_fn(CovenantSigsModel) -> FieldModel {
    |x: CovenantSigsModel| bytes_field(10, encode_cov_sigs(x))
}

/// The fields of an active delegation before its unbonding data.
pub open spec fn active_front_fields(d: ActiveDelegationModel) -> Seq<FieldModel> {
    Seq::empty().push(text_field(1, d.staker_addr)).push(text_field(2, d.btc_pk_hex)).push(
        varint_field(4, d.start_height as u64),
    ).push(varint_field(5, d.end_height as u64)).push(varint_field(6, d.total_sat)).push(
        bytes_field(7, d.staking_tx),
    ).push(bytes_field(8, d.slashing_tx)).push(bytes_field(9, d.delegator_slashing_sig)).push(
        varint_field(11, d.staking_output_idx as u64),
    ).push(varint_field(12, d.unbonding_time as u64))
}

pub open spec fn active_head_fields(d: ActiveDelegationModel) -> Seq<FieldModel> {
    let front = active_front_fields(d);
    let with_info: Seq<FieldModel> = match d.undelegation_info {
        Some(u) => front.push(bytes_field(13, encode_undelegation(u))),
        None => front,
    };
    with_info.push(varint_field(14, d.params_version as u64))
}

pub open spec fn active_fields(d: ActiveDelegationModel) -> Seq<FieldModel> {
    active_head_fields(d) + d.fp_btc_pk_list.map_values(fp_pk_item()) + d.covenant_sigs.map_values(
        covenant_sigs_item(),
    )
}

pub open spec fn encode_active(d: ActiveDelegationModel) -> Seq<u8> {
    fields_bytes(active_fields(d))
}

pub proof fn lemma_active_round_trip(d: ActiveDelegationModel)
    requires
        encode_active(d).len() <= u64::MAX,
    ensures
        decode_active_spec(encode_active(d)) == Some(d),
{
    let head = active_head_fields(d);
    let rep1 = d.fp_btc_pk_list.map_values(fp_pk_item());
    let rep2 = d.covenant_sigs.map_values(covenant_sigs_item());
    let fs = active_fields(d);
    let n1 = head.len() + rep1.len();
    assert forall|k: int| 0 <= k < fs.len() implies encodable_field(#[trigger] fs[k]) by {
        if head.len() <= k < n1 {
            assert(fs[k] == rep1[k - head.len()]);
        } else if k >= n1 {
            assert(fs[k] == rep2[k - n1]);
        }
    }
    lemma_fields_round_trip(fs);
    lemma_text_round_trip(d.staker_addr);
    lemma_text_round_trip(d.btc_pk_hex);
    lemma_u32_round_trip(d.start_height);
    lemma_u32_round_trip(d.end_height);
    lemma_u32_round_trip(d.staking_output_idx);
    lemma_u32_round_trip(d.unbonding_time);
    lemma_u32_round_trip(d.params_version);
    if let Some(u) = d.undelegation_info {
        lemma_fields_bytes_bound(fs, active_front_fields(d).len() as int);
        lemma_undelegation_round_trip(u);
    }
    let st = active_steps();
    let e = empty_active();
    let a1 = ActiveDelegationModel { fp_btc_pk_list: Seq::empty(), covenant_sigs: Seq::empty(), ..d };
    assert(fold_fields(Seq::empty(), e, st) == Some(e));
    assert(fold_fields(head, e, st) == Some(a1));
    lemma_fold_concat(head + rep1, rep2, e, st);
    lemma_fold_concat(head, rep1, e, st);
    let xs1 = d.fp_btc_pk_list;
    let get1 = |x: ActiveDelegationModel| x.fp_btc_pk_list;
    let set1 = |x: ActiveDelegationModel, l: Seq<Seq<char>>| ActiveDelegationModel {
        fp_btc_pk_list: l,
        ..x
    };
    assert forall|k: int, a: ActiveDelegationModel| 0 <= k < xs1.len() implies #[trigger] st(
        a,
        fp_pk_item()(xs1[k]),
    ) == Some(set1(a, get1(a).push(xs1[k]))) by {
        lemma_text_round_trip(xs1[k]);
    }
    lemma_fold_repeated(xs1, a1, st, fp_pk_item(), get1, set1);
    let a2 = set1(a1, get1(a1) + xs1);
    let xs2 = d.covenant_sigs;
    let get2 = |x: ActiveDelegationModel| x.covenant_sigs;
    let set2 = |x: ActiveDelegationModel, l: Seq<CovenantSigsModel>| ActiveDelegationModel {
        covenant_sigs: l,
        ..x
    };
    assert forall|k: int, a: ActiveDelegationModel| 0 <= k < xs2.len() implies #[trigger] st(
        a,
        covenant_sigs_item()(xs2[k]),
    ) == Some(set2(a, get2(a).push(xs2[k]))) by {
        assert(fs[n1 + k] == rep2[k]);
        lemma_fields_bytes_bound(fs, n1 + k);
        lemma_cov_sigs_round_trip(xs2[k]);
    }
    lemma_fold_repeated(xs2, a2, st, covenant_sigs_item(), get2, set2);
    assert(Seq::<Seq<char>>::empty() + xs1 =~= xs1);
    assert(Seq::<CovenantSigsModel>::empty() + xs2 =~= xs2);
}

pub open spec fn slashed_fields(d: SlashedDelegationModel) -> Seq<FieldModel> {
    Seq::empty().push(text_field(1, d.staking_tx_hash)).push(text_field(2, d.recovered_fp_btc_sk))
}

pub open spec fn encode_slashed(d: SlashedDelegationModel) -> Seq<u8> {
    fields_bytes(slashed_fields(d))
}

pub proof fn lemma_slashed_round_trip(d: SlashedDelegationModel)
    requires
        encode_slashed(d).len() <= u64::MAX,
    ensures
        decode_slashed_spec(encode_slashed(d)) == Some(d),
{
    lemma_fields_round_trip(slashed_fields(d));
    lemma_text_round_trip(d.staking_tx_hash);
    lemma_text_round_trip(d.recovered_fp_btc_sk);
    let e = SlashedDelegationModel { staking_tx_hash: Seq::empty(), recovered_fp_btc_sk: Seq::empty() };
    assert(fold_fields(Seq::empty(), e, slashed_steps()) == Some(e));
}

pub open spec fn unbonded_fields(d: UnbondedDelegationModel) -> Seq<FieldModel> {
    Seq::empty().push(text_field(1, d.staking_tx_hash)).push(bytes_field(2, d.unbonding_tx_sig))
}

pub open spec fn encode_unbonded(d: UnbondedDelegationModel) -> Seq<u8> {
    fields_bytes(unbonded_fields(d))
}

pub proof fn lemma_unbonded_round_trip(d: UnbondedDelegationModel)
    requires
        encode_unbonded(d).len() <= u64::MAX,
    ensures
        decode_unbonded_spec(encode_unbonded(d)) == Some(d),
{
    lemma_fields_round_trip(unbonded_fields(d));
    lemma_text_round_trip(d.staking_tx_hash);
    let e = UnbondedDelegationModel { staking_tx_hash: Seq::empty(), unbonding_tx_sig: Seq::empty() };
    assert(fold_fields(Seq::empty(), e, unbonded_steps()) == Some(e));
}

pub open spec fn provider_item() -> spec_fn(WireFinalityProviderModel) -> FieldModel {
    |x: WireFinalityProviderModel| bytes_field(1, encode_provider(x))
}

pub open spec fn active_item() -> spec_fn(ActiveDelegationModel) -> FieldModel {
    |x: ActiveDelegationModel| bytes_field(2, encode_active(x))
}

pub open spec fn slashed_item() -> spec_fn(SlashedDelegationModel) -> FieldModel {
    |x: SlashedDelegationModel| bytes_field(3, encode_slashed(x))
}

pub open spec fn unbonded_item() -> spec_fn(UnbondedDelegationModel) -> FieldModel {
    |x: UnbondedDelegationModel| bytes_field(4, encode_unbonded(x))
}

pub open spec fn staking_fields(p: StakingPacketModel) -> Seq<FieldModel> {
    p.new_fp.map_values(provider_item()) + p.active_del.map_values(active_item())
        + p.slashed_del.map_values(slashed_item()) + p.unbonded_del.map_values(unbonded_item())
}

/// The encoding of a staking packet.
pub open spec fn encode_staking(p: StakingPacketModel) -> Seq<u8> {
    fields_bytes(staking_fields(p))
}

pub proof fn lemma_staking_round_trip(p: StakingPacketModel)
    requires
        encode_staking(p).len() <= u64::MAX,
    ensures
        decode_staking_spec(encode_staking(p)) == Some(p),
{
    let r1 = p.new_fp.map_values(provider_item());
    let r2 = p.active_del.map_values(active_item());
    let r3 = p.slashed_del.map_values(slashed_item());
    let r4 = p.unbonded_del.map_values(unbonded_item());
    let fs = staking_fields(p);
    let n1 = r1.len() as int;
    let n2 = n1 + r2.len();
    let n3 = n2 + r3.len();
    assert forall|k: int| 0 <= k < fs.len() implies encodable_field(#[trigger] fs[k]) by {
        if k < n1 {
            assert(fs[k] == r1[k]);
        } else if k < n2 {
            assert(fs[k] == r2[k - n1]);
        } else if k < n3 {
            assert(fs[k] == r3[k - n2]);
        } else {
            assert(fs[k] == r4[k - n3]);
        }
    }
    lemma_fields_round_trip(fs);
    let st = staking_steps();
    let e = empty_staking();
    lemma_fold_concat(r1 + r2 + r3, r4, e, st);
    lemma_fold_concat(r1 + r2, r3, e, st);
    lemma_fold_concat(r1, r2, e, st);

    let get1 = |x: StakingPacketModel| x.new_fp;
    let set1 = |x: StakingPacketModel, l: Seq<WireFinalityProviderModel>| StakingPacketModel { new_fp: l, ..x };
    assert forall|k: int, a: StakingPacketModel| 0 <= k < p.new_fp.len() implies #[trigger] st(
        a,
        provider_item()(p.new_fp[k]),
    ) == Some(set1(a, get1(a).push(p.new_fp[k]))) by {
        assert(fs[k] == r1[k]);
        lemma_fields_bytes_bound(fs, k);
        lemma_provider_round_trip(p.new_fp[k]);
    }
    lemma_fold_repeated(p.new_fp, e, st, provider_item(), get1, set1);
    let a1 = set1(e, get1(e) + p.new_fp);

    let get2 = |x: StakingPacketModel| x.active_del;
    let set2 = |x: StakingPacketModel, l: Seq<ActiveDelegationModel>| StakingPacketModel { active_del: l, ..x };
    assert forall|k: int, a: StakingPacketModel| 0 <= k < p.active_del.len() implies #[trigger] st(
        a,
        active_item()(p.active_del[k]),
    ) == Some(set2(a, get2(a).push(p.active_del[k]))) by {
        assert(fs[n1 + k] == r2[k]);
        lemma_fields_bytes_bound(fs, n1 + k);
        lemma_active_round_trip(p.active_del[k]);
    }
    lemma_fold_repeated(p.active_del, a1, st, active_item(), get2, set2);
    let a2 = set2(a1, get2(a1) + p.active_del);

    let get3 = |x: StakingPacketModel| x.slashed_del;
    let set3 = |x: StakingPacketModel, l: Seq<SlashedDelegationModel>| StakingPacketModel { slashed_del: l, ..x };
    assert forall|k: int, a: StakingPacketModel| 0 <= k < p.slashed_del.len() implies #[trigger] st(
        a,
        slashed_item()(p.slashed_del[k]),
    ) == Some(set3(a, get3(a).push(p.slashed_del[k]))) by {
        assert(fs[n2 + k] == r3[k]);
        lemma_fields_bytes_bound(fs, n2 + k);
        lemma_slashed_round_trip(p.slashed_del[k]);
    }
    lemma_fold_repeated(p.slashed_del, a2, st, slashed_item(), get3, set3);
    let a3 = set3(a2, get3(a2) + p.slashed_del);

    let get4 = |x: StakingPacketModel| x.unbonded_del;
    let set4 = |x: StakingPacketModel, l: Seq<UnbondedDelegationModel>| StakingPacketModel { unbonded_del: l, ..x };
    assert forall|k: int, a: StakingPacketModel| 0 <= k < p.unbonded_del.len() implies #[trigger] st(
        a,
        unbonded_item()(p.unbonded_del[k]),
    ) == Some(set4(a, get4(a).push(p.unbonded_del[k]))) by {
        assert(fs[n3 + k] == r4[k]);
        lemma_fields_bytes_bound(fs, n3 + k);
        lemma_unbonded_round_trip(p.unbonded_del[k]);
    }
    lemma_fold_repeated(p.unbonded_del, a3, st, unbonded_item(), get4, set4);
    assert(Seq::<WireFinalityProviderModel>::empty() + p.new_fp =~= p.new_fp);
    assert(Seq::<ActiveDelegationModel>::empty() + p.active_del =~= p.active_del);
    assert(Seq::<SlashedDelegationModel>::empty() + p.slashed_del =~= p.slashed_del);
    assert(Seq::<UnbondedDelegationModel>::empty() + p.unbonded_del =~= p.unbonded_del);
}

/// The encoding of a packet that carries a staking event.
pub open spec fn encode_staking_packet_data(p: StakingPacketModel) -> Seq<u8> {
    fields_bytes(Seq::empty().push(bytes_field(2, encode_staking(p))))
}

/// Encoding a staking event, decoding it and translating it gives what
/// translating the event itself gives: the decoder hands the very same
/// event to the staking handler.
pub proof fn encoded_staking_event_translates_as_itself(p: StakingPacketModel)
    requires
        encode_staking_packet_data(p).len() <= u64::MAX,
    ensures
        decode_packet_spec(encode_staking_packet_data(p)) == Some(Some(PacketModel::BtcStaking(p))),
        dispatch_spec(encode_staking_packet_data(p)) == Ok::<RouteModel, PacketErrorModel>(RouteModel::BtcStaking(p)),
        match dispatch_spec(encode_staking_packet_data(p)) {
            Ok(RouteModel::BtcStaking(q)) => staking_translation(q) == staking_translation(p),
            _ => false,
        },
{
    let fs = Seq::empty().push(bytes_field(2, encode_staking(p)));
    lemma_fields_round_trip(fs);
    lemma_fields_bytes_bound(fs, 0);
    lemma_staking_round_trip(p);
    assert(fold_fields(Seq::empty(), None, packet_steps()) == Some(None::<PacketModel>));
}

// ---- encoders ----
impl Description {
    /// Encodes the description.
    pub fn encode(&self) -> (r: Vec<u8>)
        ensures
            r@ == encode_description(self@),
    {
        let mut out: Vec<u8> = Vec::new();
        write_text_field(&mut out, 1, &self.moniker);
        write_text_field(&mut out, 2, &self.identity);
        write_text_field(&mut out, 3, &self.website);
        write_text_field(&mut out, 4, &self.security_contact);
        write_text_field(&mut out, 5, &self.details);
        out
    }
}

fn i32_to_varint(t: i32) -> (r: u64)
    ensures
        r == i32_varint(t),
{
    if t >= 0 {
        t as u64
    } else {
        (t as i128 + 0x1_0000_0000_0000_0000i128) as u64
    }
}

impl ProofOfPossessionBtc {
    /// Encodes the proof of possession.
    pub fn encode(&self) -> (r: Vec<u8>)
        ensures
            r@ == encode_pop(self@),
    {
        let mut out: Vec<u8> = Vec::new();
        write_varint_field(&mut out, 1, i32_to_varint(self.btc_sig_type));
        write_bytes_field(&mut out, 2, self.btc_sig.as_slice());
        out
    }
}

impl NewFinalityProvider {
    /// Encodes the provider record.
    pub fn encode(&self) -> (r: Vec<u8>)
        ensures
            r@ == encode_provider(self@),
    {
        let mut out: Vec<u8> = Vec::new();
        if let Some(d) = &self.description {
            let inner = d.encode();
            write_bytes_field(&mut out, 1, inner.as_slice());
        }
        write_text_field(&mut out, 2, &self.commission);
        write_text_field(&mut out, 3, &self.addr);
        write_text_field(&mut out, 4, &self.btc_pk_hex);
        if let Some(q) = &self.pop {
            let inner = q.encode();
            write_bytes_field(&mut out, 5, inner.as_slice());
        }
        write_text_field(&mut out, 6, &self.consumer_id);
        out
    }
}

impl CovenantAdaptorSignatures {
    /// Encodes a covenant member's signatures.
    pub fn encode(&self) -> (r: Vec<u8>)
        ensures
            r@ == encode_cov_sigs(self@),
    {
        let mut out: Vec<u8> = Vec::new();
        write_bytes_field(&mut out, 1, self.cov_pk.as_slice());
        let ghost head = Seq::<FieldModel>::empty().push(bytes_field(1, self.cov_pk@));
        let ghost xs = self@.adaptor_sigs;
        let mut i: usize = 0;
        while i < self.adaptor_sigs.len()
            invariant
                xs == views(self.adaptor_sigs@),
                i <= self.adaptor_sigs.len(),
                out@ == fields_bytes(head) + fields_bytes(xs.take(i as int).map_values(adaptor_sig_field())),
            decreases self.adaptor_sigs.len() - i,
        {
            let ghost before = out@;
            write_bytes_field(&mut out, 2, self.adaptor_sigs[i].as_slice());
            proof {
                let prev = xs.take(i as int).map_values(adaptor_sig_field());
                assert(xs.take(i + 1).map_values(adaptor_sig_field()) =~= prev.push(adaptor_sig_field()(xs[i as int])));
                assert(out@ =~= fields_bytes(head) + fields_bytes(xs.take(i + 1).map_values(adaptor_sig_field())));
            }
            i += 1;
        }
        proof {
            assert(xs.take(xs.len() as int) =~= xs);
            lemma_fields_bytes_concat(head, xs.map_values(adaptor_sig_field()));
        }
        out
    }
}

impl SignatureInfo {
    /// Encodes a key with its signature.
    pub fn encode(&self) -> (r: Vec<u8>)
        ensures
            r@ == encode_sig_info(self@),
    {
        let mut out: Vec<u8> = Vec::new();
        write_bytes_field(&mut out, 1, self.pk.as_slice());
        write_bytes_field(&mut out, 2, self.sig.as_slice());
        out
    }
}

impl BtcUndelegationInfo {
    /// Encodes the unbonding data of a delegation.
    pub fn encode(&self) -> (r: Vec<u8>)
        ensures
            r@ == encode_undelegation(self@),
    {
        let mut out: Vec<u8> = Vec::new();
        write_bytes_field(&mut out, 1, self.unbonding_tx.as_slice());
        write_bytes_field(&mut out, 2, self.delegator_unbonding_sig.as_slice());
        write_bytes_field(&mut out, 4, self.slashing_tx.as_slice());
        write_bytes_field(&mut out, 5, self.delegator_slashing_sig.as_slice());
        let ghost head = undelegation_head_fields(self@);
        let ghost xs1 = self@.covenant_unbonding_sig_list;
        let mut i: usize = 0;
        while i < self.covenant_unbonding_sig_list.len()
            invariant
                xs1 == views(self.covenant_unbonding_sig_list@),
                i <= self.covenant_unbonding_sig_list.len(),
                out@ == fields_bytes(head) + fields_bytes(xs1.take(i as int).map_values(sig_info_item())),
            decreases self.covenant_unbonding_sig_list.len() - i,
        {
            let inner = self.covenant_unbonding_sig_list[i].encode();
            write_bytes_field(&mut out, 3, inner.as_slice());
            proof {
                let prev = xs1.take(i as int).map_values(sig_info_item());
                assert(xs1.take(i + 1).map_values(sig_info_item()) =~= prev.push(sig_info_item()(xs1[i as int])));
                assert(out@ =~= fields_bytes(head) + fields_bytes(xs1.take(i + 1).map_values(sig_info_item())));
            }
            i += 1;
        }
        let ghost rep1 = xs1.map_values(sig_info_item());
        proof {
            assert(xs1.take(xs1.len() as int) =~= xs1);
            lemma_fields_bytes_concat(head, rep1);
        }
        let ghost xs2 = self@.covenant_slashing_sigs;
        let mut i: usize = 0;
        while i < self.covenant_slashing_sigs.len()
            invariant
                xs2 == views(self.covenant_slashing_sigs@),
                i <= self.covenant_slashing_sigs.len(),
                out@ == fields_bytes(head + rep1) + fields_bytes(xs2.take(i as int).map_values(slashing_sigs_item())),
            decreases self.covenant_slashing_sigs.len() - i,
        {
            let inner = self.covenant_slashing_sigs[i].encode();
            write_bytes_field(&mut out, 6, inner.as_slice());
            proof {
                let prev = xs2.take(i as int).map_values(slashing_sigs_item());
                assert(xs2.take(i + 1).map_values(slashing_sigs_item()) =~= prev.push(slashing_sigs_item()(xs2[i as int])));
                assert(out@ =~= fields_bytes(head + rep1) + fields_bytes(xs2.take(i + 1).map_values(slashing_sigs_item())));
            }
            i += 1;
        }
        proof {
            assert(xs2.take(xs2.len() as int) =~= xs2);
            lemma_fields_bytes_concat(head + rep1, xs2.map_values(slashing_sigs_item()));
        }
        out
    }
}

impl ActiveBtcDelegation {
    /// Encodes an active delegation.
    pub fn encode(&self) -> (r: Vec<u8>)
        ensures
            r@ == encode_active(self@),
    {
        let mut out: Vec<u8> = Vec::new();
        write_text_field(&mut out, 1, &self.staker_addr);
        write_text_field(&mut out, 2, &self.btc_pk_hex);
        write_varint_field(&mut out, 4, self.start_height as u64);
        write_varint_field(&mut out, 5, self.end_height as u64);
        write_varint_field(&mut out, 6, self.total_sat);
        write_bytes_field(&mut out, 7, self.staking_tx.as_slice());
        write_bytes_field(&mut out, 8, self.slashing_tx.as_slice());
        write_bytes_field(&mut out, 9, self.delegator_slashing_sig.as_slice());
        write_varint_field(&mut out, 11, self.staking_output_idx as u64);
        write_varint_field(&mut out, 12, self.unbonding_time as u64);
        if let Some(u) = &self.undelegation_info {
            let inner = u.encode();
            write_bytes_field(&mut out, 13, inner.as_slice());
        }
        write_varint_field(&mut out, 14, self.params_version as u64);
        let ghost head = active_head_fields(self@);
        let ghost xs1 = self@.fp_btc_pk_list;
        assert(out@ == fields_bytes(head));
        let mut i: usize = 0;
        while i < self.fp_btc_pk_list.len()
            invariant
                xs1 == views(self.fp_btc_pk_list@),
                i <= self.fp_btc_pk_list.len(),
                out@ == fields_bytes(head) + fields_bytes(xs1.take(i as int).map_values(fp_pk_item())),
            decreases self.fp_btc_pk_list.len() - i,
        {
            write_text_field(&mut out, 3, &self.fp_btc_pk_list[i]);
            proof {
                let prev = xs1.take(i as int).map_values(fp_pk_item());
                assert(xs1.take(i + 1).map_values(fp_pk_item()) =~= prev.push(fp_pk_item()(xs1[i as int])));
                assert(out@ =~= fields_bytes(head) + fields_bytes(xs1.take(i + 1).map_values(fp_pk_item())));
            }
            i += 1;
        }
        let ghost rep1 = xs1.map_values(fp_pk_item());
        proof {
            assert(xs1.take(xs1.len() as int) =~= xs1);
            lemma_fields_bytes_concat(head, rep1);
        }
        let ghost xs2 = self@.covenant_sigs;
        let mut i: usize = 0;
        while i < self.covenant_sigs.len()
            invariant
                xs2 == views(self.covenant_sigs@),
                i <= self.covenant_sigs.len(),
                out@ == fields_bytes(head + rep1) + fields_bytes(xs2.take(i as int).map_values(covenant_sigs_item())),
            decreases self.covenant_sigs.len() - i,
        {
            let inner = self.covenant_sigs[i].encode();
            write_bytes_field(&mut out, 10, inner.as_slice());
            proof {
                let prev = xs2.take(i as int).map_values(covenant_sigs_item());
                assert(xs2.take(i + 1).map_values(covenant_sigs_item()) =~= prev.push(covenant_sigs_item()(xs2[i as int])));
                assert(out@ =~= fields_bytes(head + rep1) + fields_bytes(xs2.take(i + 1).map_values(covenant_sigs_item())));
            }
            i += 1;
        }
        proof {
            assert(xs2.take(xs2.len() as int) =~= xs2);
            lemma_fields_bytes_concat(head + rep1, xs2.map_values(covenant_sigs_item()));
        }
        out
    }
}

impl SlashedBtcDelegation {
    /// Encodes a slashed delegation.
    pub fn encode(&self) -> (r: Vec<u8>)
        ensures
            r@ == encode_slashed(self@),
    {
        let mut out: Vec<u8> = Vec::new();
        write_text_field(&mut out, 1, &self.staking_tx_hash);
        write_text_field(&mut out, 2, &self.recovered_fp_btc_sk);
        out
    }
}

impl UnbondedBtcDelegation {
    /// Encodes an unbonded delegation.
    pub fn encode(&self) -> (r: Vec<u8>)
        ensures
            r@ == encode_unbonded(self@),
    {
        let mut out: Vec<u8> = Vec::new();
        write_text_field(&mut out, 1, &self.staking_tx_hash);
        write_bytes_field(&mut out, 2, self.unbonding_tx_sig.as_slice());
        out
    }
}

impl BtcStakingIbcPacket {
    /// Encodes the staking events.
    pub fn encode(&self) -> (r: Vec<u8>)
        ensures
            r@ == encode_staking(self@),
    {
        let mut out: Vec<u8> = Vec::new();
        let ghost xs1 = self@.new_fp;
        let mut i: usize = 0;
        while i < self.new_fp.len()
            invariant
                xs1 == views(self.new_fp@),
                i <= self.new_fp.len(),
                out@ == Seq::<u8>::empty() + fields_bytes(xs1.take(i as int).map_values(provider_item())),
            decreases self.new_fp.len() - i,
        {
            let inner = self.new_fp[i].encode();
            write_bytes_field(&mut out, 1, inner.as_slice());
            proof {
                let prev = xs1.take(i as int).map_values(provider_item());
                assert(xs1.take(i + 1).map_values(provider_item()) =~= prev.push(provider_item()(xs1[i as int])));
                assert(out@ =~= Seq::<u8>::empty() + fields_bytes(xs1.take(i + 1).map_values(provider_item())));
            }
            i += 1;
        }
        let ghost r1 = xs1.map_values(provider_item());
        proof {
            assert(xs1.take(xs1.len() as int) =~= xs1);
            lemma_fields_bytes_concat(Seq::<FieldModel>::empty(), r1);
        }
        let ghost xs2 = self@.active_del;
        let mut i: usize = 0;
        while i < self.active_del.len()
            invariant
                xs2 == views(self.active_del@),
                i <= self.active_del.len(),
                out@ == fields_bytes(r1) + fields_bytes(xs2.take(i as int).map_values(active_item())),
            decreases self.active_del.len() - i,
        {
            let inner = self.active_del[i].encode();
            write_bytes_field(&mut out, 2, inner.as_slice());
            proof {
                let prev = xs2.take(i as int).map_values(active_item());
                assert(xs2.take(i + 1).map_values(active_item()) =~= prev.push(active_item()(xs2[i as int])));
                assert(out@ =~= fields_bytes(r1) + fields_bytes(xs2.take(i + 1).map_values(active_item())));
            }
            i += 1;
        }
        let ghost r2 = xs2.map_values(active_item());
        proof {
            assert(xs2.take(xs2.len() as int) =~= xs2);
            lemma_fields_bytes_concat(r1, r2);
        }
        let ghost xs3 = self@.slashed_del;
        let mut i: usize = 0;
        while i < self.slashed_del.len()
            invariant
                xs3 == views(self.slashed_del@),
                i <= self.slashed_del.len(),
                out@ == fields_bytes(r1 + r2) + fields_bytes(xs3.take(i as int).map_values(slashed_item())),
            decreases self.slashed_del.len() - i,
        {
            let inner = self.slashed_del[i].encode();
            write_bytes_field(&mut out, 3, inner.as_slice());
            proof {
                let prev = xs3.take(i as int).map_values(slashed_item());
                assert(xs3.take(i + 1).map_values(slashed_item()) =~= prev.push(slashed_item()(xs3[i as int])));
                assert(out@ =~= fields_bytes(r1 + r2) + fields_bytes(xs3.take(i + 1).map_values(slashed_item())));
            }
            i += 1;
        }
        let ghost r3 = xs3.map_values(slashed_item());
        proof {
            assert(xs3.take(xs3.len() as int) =~= xs3);
            lemma_fields_bytes_concat(r1 + r2, r3);
        }
        let ghost xs4 = self@.unbonded_del;
        let mut i: usize = 0;
        while i < self.unbonded_del.len()
            invariant
                xs4 == views(self.unbonded_del@),
                i <= self.unbonded_del.len(),
                out@ == fields_bytes(r1 + r2 + r3) + fields_bytes(xs4.take(i as int).map_values(unbonded_item())),
            decreases self.unbonded_del.len() - i,
        {
            let inner = self.unbonded_del[i].encode();
            write_bytes_field(&mut out, 4, inner.as_slice());
            proof {
                let prev = xs4.take(i as int).map_values(unbonded_item());
                assert(xs4.take(i + 1).map_values(unbonded_item()) =~= prev.push(unbonded_item()(xs4[i as int])));
                assert(out@ =~= fields_bytes(r1 + r2 + r3) + fields_bytes(xs4.take(i + 1).map_values(unbonded_item())));
            }
            i += 1;
        }
        let ghost r4 = xs4.map_values(unbonded_item());
        proof {
            assert(xs4.take(xs4.len() as int) =~= xs4);
            lemma_fields_bytes_concat(r1 + r2 + r3, r4);
        }
        proof {
            assert(Seq::<FieldModel>::empty() + r1 =~= r1);
        }
        out
    }
}

/// The encoding of a packet payload. A variant that this endpoint does not
/// know is written as an empty field of its number.
pub open spec fn encode_packet_data(d: Option<PacketModel>) -> Seq<u8> {
    match d {
        None => Seq::empty(),
        Some(PacketModel::BtcTimestamp(b)) => fields_bytes(Seq::empty().push(bytes_field(1, b))),
        Some(PacketModel::BtcStaking(p)) => encode_staking_packet_data(p),
        Some(PacketModel::Unsupported(n)) => fields_bytes(Seq::empty().push(bytes_field(n, Seq::empty()))),
    }
}

impl ZoneconciergePacketData {
    /// Encodes the packet payload.
    pub fn encode(&self) -> (r: Vec<u8>)
        requires
            self.packet matches Some(Packet::Unsupported(n)) ==> 1 <= n < 0x1000_0000_0000_0000,
        ensures
            r@ == encode_packet_data(self@),
    {
        let mut out: Vec<u8> = Vec::new();
        match &self.packet {
            None => {},
            Some(Packet::BtcTimestamp(b)) => write_bytes_field(&mut out, 1, b.as_slice()),
            Some(Packet::BtcStaking(p)) => {
                let inner = p.encode();
                write_bytes_field(&mut out, 2, inner.as_slice());
            },
            Some(Packet::Unsupported(n)) => {
                let empty: Vec<u8> = Vec::new();
                write_bytes_field(&mut out, *n, empty.as_slice());
            },
        }
        out
    }
}

} // verus!
