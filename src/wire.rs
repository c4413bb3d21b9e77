//! The records that a packet carries, as they arrive on the wire, with their
//! decoders. Text fields must be UTF-8; a field of a known number with the
//! wrong wire type is malformed; fields of unknown numbers are skipped; where
//! a singular field occurs more than once the last occurrence counts.

use crate::codec::{
    append_bytes, copy_bytes, decode_with, fields_view, fold_fields, lemma_fold_end, lemma_fold_start,
    lemma_fold_step, low_i32, low_u32, parse_fields, read_i32, read_text, read_u32, text_of, FieldModel,
    FieldValue, FieldValueModel,
};
use vstd::prelude::*;

verus! {

pub open spec fn views<T: View>(v: Seq<T>) -> Seq<T::V> {
    v.map_values(|x: T| x@)
}

pub open spec fn opt_view<T: View>(o: Option<T>) -> Option<T::V> {
    match o {
        Some(x) => Some(x@),
        None => None,
    }
}

pub proof fn lemma_views_push<T: View>(v: Seq<T>, x: T)
    ensures
        views(v.push(x)) == views(v).push(x@),
{
    assert(views(v.push(x)) =~= views(v).push(x@));
}

pub proof fn lemma_views_empty<T: View>()
    ensures
        views(Seq::<T>::empty()) == Seq::<T::V>::empty(),
{
    assert(views(Seq::<T>::empty()) =~= Seq::<T::V>::empty());
}

// ---- models ----
pub ghost struct DescriptionModel {
    pub moniker: Seq<char>,
    pub identity: Seq<char>,
    pub website: Seq<char>,
    pub security_contact: Seq<char>,
    pub details: Seq<char>,
}

pub ghost struct PopModel {
    pub btc_sig_type: i32,
    pub btc_sig: Seq<u8>,
}

/// A finality provider as it arrives: the commission is still text.
pub ghost struct WireFinalityProviderModel {
    pub description: Option<DescriptionModel>,
    pub commission: Seq<char>,
    pub addr: Seq<char>,
    pub btc_pk_hex: Seq<char>,
    pub pop: Option<PopModel>,
    pub consumer_id: Seq<char>,
}

pub open spec fn empty_description() -> DescriptionModel {
    DescriptionModel {
        moniker: Seq::empty(),
        identity: Seq::empty(),
        website: Seq::empty(),
        security_contact: Seq::empty(),
        details: Seq::empty(),
    }
}

pub open spec fn empty_pop() -> PopModel {
    PopModel { btc_sig_type: 0, btc_sig: Seq::empty() }
}

pub open spec fn empty_wire_provider() -> WireFinalityProviderModel {
    WireFinalityProviderModel {
        description: None,
        commission: Seq::empty(),
        addr: Seq::empty(),
        btc_pk_hex: Seq::empty(),
        pop: None,
        consumer_id: Seq::empty(),
    }
}

// ---- steps ----
pub open spec fn description_step(d: DescriptionModel, f: FieldModel) -> Option<DescriptionModel> {
    if 1 <= f.number <= 5 {
        match f.value {
            FieldValueModel::Bytes(b) => match text_of(b) {
                Some(t) => Some(
                    if f.number == 1 {
                        DescriptionModel { moniker: t, ..d }
                    } else if f.number == 2 {
                        DescriptionModel { identity: t, ..d }
                    } else if f.number == 3 {
                        DescriptionModel { website: t, ..d }
                    } else if f.number == 4 {
                        DescriptionModel { security_contact: t, ..d }
                    } else {
                        DescriptionModel { details: t, ..d }
                    },
                ),
                None => None,
            },
            _ => None,
        }
    } else {
        Some(d)
    }
}

pub open spec fn description_steps() -> spec_fn(DescriptionModel, FieldModel) -> Option<
    DescriptionModel,
> {
    |d: DescriptionModel, f: FieldModel| description_step(d, f)
}

pub open spec fn decode_description_spec(s: Seq<u8>) -> Option<DescriptionModel> {
    decode_with(s, empty_description(), description_steps())
}

pub open spec fn pop_step(p: PopModel, f: FieldModel) -> Option<PopModel> {
    if f.number == 1 {
        match f.value {
            FieldValueModel::Varint(v) => Some(PopModel { btc_sig_type: low_i32(v), ..p }),
            _ => None,
        }
    } else if f.number == 2 {
        match f.value {
            FieldValueModel::Bytes(b) => Some(PopModel { btc_sig: b, ..p }),
            _ => None,
        }
    } else {
        Some(p)
    }
}

pub open spec fn pop_steps() -> spec_fn(PopModel, FieldModel) -> Option<PopModel> {
    |p: PopModel, f: FieldModel| pop_step(p, f)
}

pub open spec fn decode_pop_spec(s: Seq<u8>) -> Option<PopModel> {
    decode_with(s, empty_pop(), pop_steps())
}

/// Decodes an embedded description; a repeated occurrence merges into the
/// earlier one.
pub open spec fn merge_description(existing: Option<DescriptionModel>, b: Seq<u8>) -> Option<
    DescriptionModel,
> {
    match existing {
        Some(d) => decode_with(b, d, description_steps()),
        None => decode_description_spec(b),
    }
}

pub open spec fn merge_pop(existing: Option<PopModel>, b: Seq<u8>) -> Option<PopModel> {
    match existing {
        Some(q) => decode_with(b, q, pop_steps()),
        None => decode_pop_spec(b),
    }
}

pub open spec fn wire_provider_step(p: WireFinalityProviderModel, f: FieldModel) -> Option<
    WireFinalityProviderModel,
> {
    if 1 <= f.number <= 6 {
        match f.value {
            FieldValueModel::Bytes(b) => if f.number == 1 {
                match merge_description(p.description, b) {
                    Some(d) => Some(WireFinalityProviderModel { description: Some(d), ..p }),
                    None => None,
                }
            } else if f.number == 5 {
                match merge_pop(p.pop, b) {
                    Some(q) => Some(WireFinalityProviderModel { pop: Some(q), ..p }),
                    None => None,
                }
            } else {
                match text_of(b) {
                    Some(t) => Some(
                        if f.number == 2 {
                            WireFinalityProviderModel { commission: t, ..p }
                        } else if f.number == 3 {
                            WireFinalityProviderModel { addr: t, ..p }
                        } else if f.number == 4 {
                            WireFinalityProviderModel { btc_pk_hex: t, ..p }
                        } else {
                            WireFinalityProviderModel { consumer_id: t, ..p }
                        },
                    ),
                    None => None,
                }
            },
            _ => None,
        }
    } else {
        Some(p)
    }
}

pub open spec fn wire_provider_steps() -> spec_fn(WireFinalityProviderModel, FieldModel) -> Option<
    WireFinalityProviderModel,
> {
    |p: WireFinalityProviderModel, f: FieldModel| wire_provider_step(p, f)
}

pub open spec fn decode_wire_provider_spec(s: Seq<u8>) -> Option<WireFinalityProviderModel> {
    decode_with(s, empty_wire_provider(), wire_provider_steps())
}

// ---- exec types ----
/// Descriptive metadata of a finality provider.
#[derive(Clone, Debug, PartialEq, Eq)]
pub struct Description {
    pub moniker: String,
    pub identity: String,
    pub website: String,
    pub security_contact: String,
    pub details: String,
}

/// Proof that the holder of a BTC key controls the provider's account.
#[derive(Clone, Debug, PartialEq, Eq)]
pub struct ProofOfPossessionBtc {
    pub btc_sig_type: i32,
    pub btc_sig: Vec<u8>,
}

/// A finality provider announced in a staking packet.
#[derive(Clone, Debug, PartialEq, Eq)]
pub struct NewFinalityProvider {
    pub description: Option<Description>,
    pub commission: String,
    pub addr: String,
    pub btc_pk_hex: String,
    pub pop: Option<ProofOfPossessionBtc>,
    pub consumer_id: String,
}

impl View for Description {
    type V = DescriptionModel;

    open spec fn view(&self) -> DescriptionModel {
        DescriptionModel {
            moniker: self.moniker@,
            identity: self.identity@,
            website: self.website@,
            security_contact: self.security_contact@,
            details: self.details@,
        }
    }
}

impl View for ProofOfPossessionBtc {
    type V = PopModel;

    open spec fn view(&self) -> PopModel {
        PopModel { btc_sig_type: self.btc_sig_type, btc_sig: self.btc_sig@ }
    }
}

impl View for NewFinalityProvider {
    type V = WireFinalityProviderModel;

    open spec fn view(&self) -> WireFinalityProviderModel {
        WireFinalityProviderModel {
            description: opt_view(self.description),
            commission: self.commission@,
            addr: self.addr@,
            btc_pk_hex: self.btc_pk_hex@,
            pop: opt_view(self.pop),
            consumer_id: self.consumer_id@,
        }
    }
}

fn empty_text() -> (r: String)
    ensures
        r@ == Seq::<char>::empty(),
{
    String::new()
}

/// Decodes a provider description.
pub fn decode_description(s: &[u8]) -> (r: Option<Description>)
    ensures
        match r {
            Some(d) => decode_description_spec(s@) == Some(d@),
            None => decode_description_spec(s@) is None,
        },
{
    let init = Description {
        moniker: empty_text(),
        identity: empty_text(),
        website: empty_text(),
        security_contact: empty_text(),
        details: empty_text(),
    };
    decode_description_onto(s, init)
}

/// Decodes on top of `init`, as a repeated occurrence of an embedded
/// message merges into the earlier one.
pub fn decode_description_onto(s: &[u8], init: Description) -> (r: Option<Description>)
    ensures
        match r {
            Some(d) => decode_with(s@, init@, description_steps()) == Some(d@),
            None => decode_with(s@, init@, description_steps()) is None,
        },
{
    let fields = match parse_fields(s) {
        Some(fs) => fs,
        None => return None,
    };
    let ghost fs = fields_view(fields@);
    let ghost start = init@;
    let mut d = init;
    proof {
        lemma_fold_start(fs, d@, description_steps());
    }
    let mut i: usize = 0;
    while i < fields.len()
        invariant
            fs == fields_view(fields@),
            i <= fields.len(),
            decode_with(s@, init@, description_steps()) == fold_fields(fs.skip(i as int), d@, description_steps()),
        decreases fields.len() - i,
    {
        proof {
            lemma_fold_step(fs, i as int, d@, description_steps());
        }
        let f = &fields[i];
        if 1 <= f.number && f.number <= 5 {
            match &f.value {
                FieldValue::Bytes(b) => match read_text(b.as_slice()) {
                    Some(t) => {
                        if f.number == 1 {
                            d.moniker = t;
                        } else if f.number == 2 {
                            d.identity = t;
                        } else if f.number == 3 {
                            d.website = t;
                        } else if f.number == 4 {
                            d.security_contact = t;
                        } else {
                            d.details = t;
                        }
                    },
                    None => return None,
                },
                _ => return None,
            }
        }
        i += 1;
    }
    proof {
        lemma_fold_end(fs, d@, description_steps());
    }
    Some(d)
}

/// Decodes a proof of possession.
pub fn decode_pop(s: &[u8]) -> (r: Option<ProofOfPossessionBtc>)
    ensures
        match r {
            Some(p) => decode_pop_spec(s@) == Some(p@),
            None => decode_pop_spec(s@) is None,
        },
{
    let init = ProofOfPossessionBtc { btc_sig_type: 0, btc_sig: Vec::new() };
    decode_pop_onto(s, init)
}

/// Decodes on top of `init`, as a repeated occurrence of an embedded
/// message merges into the earlier one.
pub fn decode_pop_onto(s: &[u8], init: ProofOfPossessionBtc) -> (r: Option<ProofOfPossessionBtc>)
    ensures
        match r {
            Some(p) => decode_with(s@, init@, pop_steps()) == Some(p@),
            None => decode_with(s@, init@, pop_steps()) is None,
        },
{
    let fields = match parse_fields(s) {
        Some(fs) => fs,
        None => return None,
    };
    let ghost fs = fields_view(fields@);
    let ghost start = init@;
    let mut p = init;
    proof {
        lemma_fold_start(fs, p@, pop_steps());
    }
    let mut i: usize = 0;
    while i < fields.len()
        invariant
            fs == fields_view(fields@),
            i <= fields.len(),
            decode_with(s@, init@, pop_steps()) == fold_fields(fs.skip(i as int), p@, pop_steps()),
        decreases fields.len() - i,
    {
        proof {
            lemma_fold_step(fs, i as int, p@, pop_steps());
        }
        let f = &fields[i];
        if f.number == 1 {
            match &f.value {
                FieldValue::Varint(v) => p.btc_sig_type = read_i32(*v),
                _ => return None,
            }
        } else if f.number == 2 {
            match &f.value {
                FieldValue::Bytes(b) => p.btc_sig = copy_bytes(b),
                _ => return None,
            }
        }
        i += 1;
    }
    proof {
        lemma_fold_end(fs, p@, pop_steps());
    }
    Some(p)
}

/// Decodes a finality provider record.
pub fn decode_new_finality_provider(s: &[u8]) -> (r: Option<NewFinalityProvider>)
    ensures
        match r {
            Some(p) => decode_wire_provider_spec(s@) == Some(p@),
            None => decode_wire_provider_spec(s@) is None,
        },
{
    let fields = match parse_fields(s) {
        Some(fs) => fs,
        None => return None,
    };
    let ghost fs = fields_view(fields@);
    let mut p = NewFinalityProvider {
        description: None,
        commission: empty_text(),
        addr: empty_text(),
        btc_pk_hex: empty_text(),
        pop: None,
        consumer_id: empty_text(),
    };
    proof {
        lemma_fold_start(fs, p@, wire_provider_steps());
    }
    let mut i: usize = 0;
    while i < fields.len()
        invariant
            fs == fields_view(fields@),
            i <= fields.len(),
            decode_wire_provider_spec(s@) == fold_fields(
                fs.skip(i as int),
                p@,
                wire_provider_steps(),
            ),
        decreases fields.len() - i,
    {
        proof {
            lemma_fold_step(fs, i as int, p@, wire_provider_steps());
        }
        let f = &fields[i];
        if 1 <= f.number && f.number <= 6 {
            match &f.value {
                FieldValue::Bytes(b) => {
                    if f.number == 1 {
                        let merged = match p.description.take() {
                            Some(d) => decode_description_onto(b.as_slice(), d),
                            None => decode_description(b.as_slice()),
                        };
                        match merged {
                            Some(d) => p.description = Some(d),
                            None => return None,
                        }
                    } else if f.number == 5 {
                        let merged = match p.pop.take() {
                            Some(q) => decode_pop_onto(b.as_slice(), q),
                            None => decode_pop(b.as_slice()),
                        };
                        match merged {
                            Some(q) => p.pop = Some(q),
                            None => return None,
                        }
                    } else {
                        match read_text(b.as_slice()) {
                            Some(t) => {
                                if f.number == 2 {
                                    p.commission = t;
                                } else if f.number == 3 {
                                    p.addr = t;
                                } else if f.number == 4 {
                                    p.btc_pk_hex = t;
                                } else {
                                    p.consumer_id = t;
                                }
                            },
                            None => return None,
                        }
                    }
                },
                _ => return None,
            }
        }
        i += 1;
    }
    proof {
        lemma_fold_end(fs, p@, wire_provider_steps());
    }
    Some(p)
}

// ---- delegations ----
pub ghost struct CovenantSigsModel {
    pub cov_pk: Seq<u8>,
    pub adaptor_sigs: Seq<Seq<u8>>,
}

pub ghost struct SignatureInfoModel {
    pub pk: Seq<u8>,
    pub sig: Seq<u8>,
}

pub ghost struct UndelegationModel {
    pub unbonding_tx: Seq<u8>,
    pub delegator_unbonding_sig: Seq<u8>,
    pub covenant_unbonding_sig_list: Seq<SignatureInfoModel>,
    pub slashing_tx: Seq<u8>,
    pub delegator_slashing_sig: Seq<u8>,
    pub covenant_slashing_sigs: Seq<CovenantSigsModel>,
}

pub ghost struct ActiveDelegationModel {
    pub staker_addr: Seq<char>,
    pub btc_pk_hex: Seq<char>,
    pub fp_btc_pk_list: Seq<Seq<char>>,
    pub start_height: u32,
    pub end_height: u32,
    pub total_sat: u64,
    pub staking_tx: Seq<u8>,
    pub slashing_tx: Seq<u8>,
    pub delegator_slashing_sig: Seq<u8>,
    pub covenant_sigs: Seq<CovenantSigsModel>,
    pub staking_output_idx: u32,
    pub unbonding_time: u32,
    pub undelegation_info: Option<UndelegationModel>,
    pub params_version: u32,
}

pub ghost struct SlashedDelegationModel {
    pub staking_tx_hash: Seq<char>,
    pub recovered_fp_btc_sk: Seq<char>,
}

pub ghost struct UnbondedDelegationModel {
    pub staking_tx_hash: Seq<char>,
    pub unbonding_tx_sig: Seq<u8>,
}

pub ghost struct StakingPacketModel {
    pub new_fp: Seq<WireFinalityProviderModel>,
    pub active_del: Seq<ActiveDelegationModel>,
    pub slashed_del: Seq<SlashedDelegationModel>,
    pub unbonded_del: Seq<UnbondedDelegationModel>,
}

pub open spec fn cov_sigs_step(c: CovenantSigsModel, f: FieldModel) -> Option<CovenantSigsModel> {
    if f.number == 1 || f.number == 2 {
        match f.value {
            FieldValueModel::Bytes(b) => Some(
                if f.number == 1 {
                    CovenantSigsModel { cov_pk: b, ..c }
                } else {
                    CovenantSigsModel { adaptor_sigs: c.adaptor_sigs.push(b), ..c }
                },
            ),
            _ => None,
        }
    } else {
        Some(c)
    }
}

pub open spec fn cov_sigs_steps() -> spec_fn(CovenantSigsModel, FieldModel) -> Option<
    CovenantSigsModel,
> {
    |c: CovenantSigsModel, f: FieldModel| cov_sigs_step(c, f)
}

pub open spec fn decode_cov_sigs_spec(s: Seq<u8>) -> Option<CovenantSigsModel> {
    decode_with(s, CovenantSigsModel { cov_pk: Seq::empty(), adaptor_sigs: Seq::empty() }, cov_sigs_steps())
}

pub open spec fn sig_info_step(c: SignatureInfoModel, f: FieldModel) -> Option<SignatureInfoModel> {
    if f.number == 1 || f.number == 2 {
        match f.value {
            FieldValueModel::Bytes(b) => Some(
                if f.number == 1 {
                    SignatureInfoModel { pk: b, ..c }
                } else {
                    SignatureInfoModel { sig: b, ..c }
                },
            ),
            _ => None,
        }
    } else {
        Some(c)
    }
}

pub open spec fn sig_info_steps() -> spec_fn(SignatureInfoModel, FieldModel) -> Option<
    SignatureInfoModel,
> {
    |c: SignatureInfoModel, f: FieldModel| sig_info_step(c, f)
}

pub open spec fn decode_sig_info_spec(s: Seq<u8>) -> Option<SignatureInfoModel> {
    decode_with(s, SignatureInfoModel { pk: Seq::empty(), sig: Seq::empty() }, sig_info_steps())
}

pub open spec fn empty_undelegation() -> UndelegationModel {
    UndelegationModel {
        unbonding_tx: Seq::empty(),
        delegator_unbonding_sig: Seq::empty(),
        covenant_unbonding_sig_list: Seq::empty(),
        slashing_tx: Seq::empty(),
        delegator_slashing_sig: Seq::empty(),
        covenant_slashing_sigs: Seq::empty(),
    }
}

pub open spec fn undelegation_step(u: UndelegationModel, f: FieldModel) -> Option<UndelegationModel> {
    if 1 <= f.number <= 6 {
        match f.value {
            FieldValueModel::Bytes(b) => if f.number == 3 {
                match decode_sig_info_spec(b) {
                    Some(x) => Some(
                        UndelegationModel {
                            covenant_unbonding_sig_list: u.covenant_unbonding_sig_list.push(x),
                            ..u
                        },
                    ),
                    None => None,
                }
            } else if f.number == 6 {
                match decode_cov_sigs_spec(b) {
                    Some(x) => Some(
                        UndelegationModel {
                            covenant_slashing_sigs: u.covenant_slashing_sigs.push(x),
                            ..u
                        },
                    ),
                    None => None,
                }
            } else {
                Some(
                    if f.number == 1 {
                        UndelegationModel { unbonding_tx: b, ..u }
                    } else if f.number == 2 {
                        UndelegationModel { delegator_unbonding_sig: b, ..u }
                    } else if f.number == 4 {
                        UndelegationModel { slashing_tx: b, ..u }
                    } else {
                        UndelegationModel { delegator_slashing_sig: b, ..u }
                    },
                )
            },
            _ => None,
        }
    } else {
        Some(u)
    }
}

pub open spec fn undelegation_steps() -> spec_fn(UndelegationModel, FieldModel) -> Option<
    UndelegationModel,
> {
    |u: UndelegationModel, f: FieldModel| undelegation_step(u, f)
}

pub open spec fn decode_undelegation_spec(s: Seq<u8>) -> Option<UndelegationModel> {
    decode_with(s, empty_undelegation(), undelegation_steps())
}

pub open spec fn empty_active() -> ActiveDelegationModel {
    ActiveDelegationModel {
        staker_addr: Seq::empty(),
        btc_pk_hex: Seq::empty(),
        fp_btc_pk_list: Seq::empty(),
        start_height: 0,
        end_height: 0,
        total_sat: 0,
        staking_tx: Seq::empty(),
        slashing_tx: Seq::empty(),
        delegator_slashing_sig: Seq::empty(),
        covenant_sigs: Seq::empty(),
        staking_output_idx: 0,
        unbonding_time: 0,
        undelegation_info: None,
        params_version: 0,
    }
}

/// Field numbers of the varint fields of an active delegation.
pub open spec fn active_varint_field(n: u64) -> bool {
    n == 4 || n == 5 || n == 6 || n == 11 || n == 12 || n == 14
}

pub open spec fn merge_undelegation(existing: Option<UndelegationModel>, b: Seq<u8>) -> Option<
    UndelegationModel,
> {
    match existing {
        Some(u) => decode_with(b, u, undelegation_steps()),
        None => decode_undelegation_spec(b),
    }
}

pub open spec fn active_step(a: ActiveDelegationModel, f: FieldModel) -> Option<ActiveDelegationModel> {
    if active_varint_field(f.number) {
        match f.value {
            FieldValueModel::Varint(v) => Some(
                if f.number == 4 {
                    ActiveDelegationModel { start_height: low_u32(v), ..a }
                } else if f.number == 5 {
                    ActiveDelegationModel { end_height: low_u32(v), ..a }
                } else if f.number == 6 {
                    ActiveDelegationModel { total_sat: v, ..a }
                } else if f.number == 11 {
                    ActiveDelegationModel { staking_output_idx: low_u32(v), ..a }
                } else if f.number == 12 {
                    ActiveDelegationModel { unbonding_time: low_u32(v), ..a }
                } else {
                    ActiveDelegationModel { params_version: low_u32(v), ..a }
                },
            ),
            _ => None,
        }
    } else if 1 <= f.number <= 13 {
        match f.value {
            FieldValueModel::Bytes(b) => if f.number == 10 {
                match decode_cov_sigs_spec(b) {
                    Some(x) => Some(ActiveDelegationModel { covenant_sigs: a.covenant_sigs.push(x), ..a }),
                    None => None,
                }
            } else if f.number == 13 {
                match merge_undelegation(a.undelegation_info, b) {
                    Some(x) => Some(ActiveDelegationModel { undelegation_info: Some(x), ..a }),
                    None => None,
                }
            } else if f.number == 7 {
                Some(ActiveDelegationModel { staking_tx: b, ..a })
            } else if f.number == 8 {
                Some(ActiveDelegationModel { slashing_tx: b, ..a })
            } else if f.number == 9 {
                Some(ActiveDelegationModel { delegator_slashing_sig: b, ..a })
            } else {
                match text_of(b) {
                    Some(t) => Some(
                        if f.number == 1 {
                            ActiveDelegationModel { staker_addr: t, ..a }
                        } else if f.number == 2 {
                            ActiveDelegationModel { btc_pk_hex: t, ..a }
                        } else {
                            ActiveDelegationModel { fp_btc_pk_list: a.fp_btc_pk_list.push(t), ..a }
                        },
                    ),
                    None => None,
                }
            },
            _ => None,
        }
    } else {
        Some(a)
    }
}

pub open spec fn active_steps() -> spec_fn(ActiveDelegationModel, FieldModel) -> Option<
    ActiveDelegationModel,
> {
    |a: ActiveDelegationModel, f: FieldModel| active_step(a, f)
}

pub open spec fn decode_active_spec(s: Seq<u8>) -> Option<ActiveDelegationModel> {
    decode_with(s, empty_active(), active_steps())
}

pub open spec fn slashed_step(d: SlashedDelegationModel, f: FieldModel) -> Option<SlashedDelegationModel> {
    if f.number == 1 || f.number == 2 {
        match f.value {
            FieldValueModel::Bytes(b) => match text_of(b) {
                Some(t) => Some(
                    if f.number == 1 {
                        SlashedDelegationModel { staking_tx_hash: t, ..d }
                    } else {
                        SlashedDelegationModel { recovered_fp_btc_sk: t, ..d }
                    },
                ),
                None => None,
            },
            _ => None,
        }
    } else {
        Some(d)
    }
}

pub open spec fn slashed_steps() -> spec_fn(SlashedDelegationModel, FieldModel) -> Option<
    SlashedDelegationModel,
> {
    |d: SlashedDelegationModel, f: FieldModel| slashed_step(d, f)
}

pub open spec fn decode_slashed_spec(s: Seq<u8>) -> Option<SlashedDelegationModel> {
    decode_with(
        s,
        SlashedDelegationModel { staking_tx_hash: Seq::empty(), recovered_fp_btc_sk: Seq::empty() },
        slashed_steps(),
    )
}

pub open spec fn unbonded_step(d: UnbondedDelegationModel, f: FieldModel) -> Option<UnbondedDelegationModel> {
    if f.number == 1 {
        match f.value {
            FieldValueModel::Bytes(b) => match text_of(b) {
                Some(t) => Some(UnbondedDelegationModel { staking_tx_hash: t, ..d }),
                None => None,
            },
            _ => None,
        }
    } else if f.number == 2 {
        match f.value {
            FieldValueModel::Bytes(b) => Some(UnbondedDelegationModel { unbonding_tx_sig: b, ..d }),
            _ => None,
        }
    } else {
        Some(d)
    }
}

pub open spec fn unbonded_steps() -> spec_fn(UnbondedDelegationModel, FieldModel) -> Option<
    UnbondedDelegationModel,
> {
    |d: UnbondedDelegationModel, f: FieldModel| unbonded_step(d, f)
}

pub open spec fn decode_unbonded_spec(s: Seq<u8>) -> Option<UnbondedDelegationModel> {
    decode_with(
        s,
        UnbondedDelegationModel { staking_tx_hash: Seq::empty(), unbonding_tx_sig: Seq::empty() },
        unbonded_steps(),
    )
}

pub open spec fn staking_step(p: StakingPacketModel, f: FieldModel) -> Option<StakingPacketModel> {
    if 1 <= f.number <= 4 {
        match f.value {
            FieldValueModel::Bytes(b) => if f.number == 1 {
                match decode_wire_provider_spec(b) {
                    Some(x) => Some(StakingPacketModel { new_fp: p.new_fp.push(x), ..p }),
                    None => None,
                }
            } else if f.number == 2 {
                match decode_active_spec(b) {
                    Some(x) => Some(StakingPacketModel { active_del: p.active_del.push(x), ..p }),
                    None => None,
                }
            } else if f.number == 3 {
                match decode_slashed_spec(b) {
                    Some(x) => Some(StakingPacketModel { slashed_del: p.slashed_del.push(x), ..p }),
                    None => None,
                }
            } else {
                match decode_unbonded_spec(b) {
                    Some(x) => Some(StakingPacketModel { unbonded_del: p.unbonded_del.push(x), ..p }),
                    None => None,
                }
            },
            _ => None,
        }
    } else {
        Some(p)
    }
}

pub open spec fn staking_steps() -> spec_fn(StakingPacketModel, FieldModel) -> Option<
    StakingPacketModel,
> {
    |p: StakingPacketModel, f: FieldModel| staking_step(p, f)
}

pub open spec fn empty_staking() -> StakingPacketModel {
    StakingPacketModel {
        new_fp: Seq::empty(),
        active_del: Seq::empty(),
        slashed_del: Seq::empty(),
        unbonded_del: Seq::empty(),
    }
}

pub open spec fn decode_staking_spec(s: Seq<u8>) -> Option<StakingPacketModel> {
    decode_with(s, empty_staking(), staking_steps())
}

/// A covenant member's key with its adaptor signatures.
#[derive(Clone, Debug, PartialEq, Eq)]
pub struct CovenantAdaptorSignatures {
    pub cov_pk: Vec<u8>,
    pub adaptor_sigs: Vec<Vec<u8>>,
}

/// A public key with a signature by it.
#[derive(Clone, Debug, PartialEq, Eq)]
pub struct SignatureInfo {
    pub pk: Vec<u8>,
    pub sig: Vec<u8>,
}

/// What an unbonding delegation carries.
#[derive(Clone, Debug, PartialEq, Eq)]
pub struct BtcUndelegationInfo {
    pub unbonding_tx: Vec<u8>,
    pub delegator_unbonding_sig: Vec<u8>,
    pub covenant_unbonding_sig_list: Vec<SignatureInfo>,
    pub slashing_tx: Vec<u8>,
    pub delegator_slashing_sig: Vec<u8>,
    pub covenant_slashing_sigs: Vec<CovenantAdaptorSignatures>,
}

/// A delegation that became active.
#[derive(Clone, Debug, PartialEq, Eq)]
pub struct ActiveBtcDelegation {
    pub staker_addr: String,
    pub btc_pk_hex: String,
    pub fp_btc_pk_list: Vec<String>,
    pub start_height: u32,
    pub end_height: u32,
    pub total_sat: u64,
    pub staking_tx: Vec<u8>,
    pub slashing_tx: Vec<u8>,
    pub delegator_slashing_sig: Vec<u8>,
    pub covenant_sigs: Vec<CovenantAdaptorSignatures>,
    pub staking_output_idx: u32,
    pub unbonding_time: u32,
    pub undelegation_info: Option<BtcUndelegationInfo>,
    pub params_version: u32,
}

/// A delegation that was slashed.
#[derive(Clone, Debug, PartialEq, Eq)]
pub struct SlashedBtcDelegation {
    pub staking_tx_hash: String,
    pub recovered_fp_btc_sk: String,
}

/// A delegation that was unbonded early.
#[derive(Clone, Debug, PartialEq, Eq)]
pub struct UnbondedBtcDelegation {
    pub staking_tx_hash: String,
    pub unbonding_tx_sig: Vec<u8>,
}

/// The staking events of one packet.
#[derive(Clone, Debug, PartialEq, Eq)]
pub struct BtcStakingIbcPacket {
    pub new_fp: Vec<NewFinalityProvider>,
    pub active_del: Vec<ActiveBtcDelegation>,
    pub slashed_del: Vec<SlashedBtcDelegation>,
    pub unbonded_del: Vec<UnbondedBtcDelegation>,
}

impl View for CovenantAdaptorSignatures {
    type V = CovenantSigsModel;

    open spec fn view(&self) -> CovenantSigsModel {
        CovenantSigsModel { cov_pk: self.cov_pk@, adaptor_sigs: views(self.adaptor_sigs@) }
    }
}

impl View for SignatureInfo {
    type V = SignatureInfoModel;

    open spec fn view(&self) -> SignatureInfoModel {
        SignatureInfoModel { pk: self.pk@, sig: self.sig@ }
    }
}

impl View for BtcUndelegationInfo {
    type V = UndelegationModel;

    open spec fn view(&self) -> UndelegationModel {
        UndelegationModel {
            unbonding_tx: self.unbonding_tx@,
            delegator_unbonding_sig: self.delegator_unbonding_sig@,
            covenant_unbonding_sig_list: views(self.covenant_unbonding_sig_list@),
            slashing_tx: self.slashing_tx@,
            delegator_slashing_sig: self.delegator_slashing_sig@,
            covenant_slashing_sigs: views(self.covenant_slashing_sigs@),
        }
    }
}

impl View for ActiveBtcDelegation {
    type V = ActiveDelegationModel;

    open spec fn view(&self) -> ActiveDelegationModel {
        ActiveDelegationModel {
            staker_addr: self.staker_addr@,
            btc_pk_hex: self.btc_pk_hex@,
            fp_btc_pk_list: views(self.fp_btc_pk_list@),
            start_height: self.start_height,
            end_height: self.end_height,
            total_sat: self.total_sat,
            staking_tx: self.staking_tx@,
            slashing_tx: self.slashing_tx@,
            delegator_slashing_sig: self.delegator_slashing_sig@,
            covenant_sigs: views(self.covenant_sigs@),
            staking_output_idx: self.staking_output_idx,
            unbonding_time: self.unbonding_time,
            undelegation_info: opt_view(self.undelegation_info),
            params_version: self.params_version,
        }
    }
}

impl View for SlashedBtcDelegation {
    type V = SlashedDelegationModel;

    open spec fn view(&self) -> SlashedDelegationModel {
        SlashedDelegationModel {
            staking_tx_hash: self.staking_tx_hash@,
            recovered_fp_btc_sk: self.recovered_fp_btc_sk@,
        }
    }
}

impl View for UnbondedBtcDelegation {
    type V = UnbondedDelegationModel;

    open spec fn view(&self) -> UnbondedDelegationModel {
        UnbondedDelegationModel {
            staking_tx_hash: self.staking_tx_hash@,
            unbonding_tx_sig: self.unbonding_tx_sig@,
        }
    }
}

impl View for BtcStakingIbcPacket {
    type V = StakingPacketModel;

    open spec fn view(&self) -> StakingPacketModel {
        StakingPacketModel {
            new_fp: views(self.new_fp@),
            active_del: views(self.active_del@),
            slashed_del: views(self.slashed_del@),
            unbonded_del: views(self.unbonded_del@),
        }
    }
}

/// Decodes a covenant member's signatures.
pub fn decode_covenant_sigs(s: &[u8]) -> (r: Option<CovenantAdaptorSignatures>)
    ensures
        match r {
            Some(c) => decode_cov_sigs_spec(s@) == Some(c@),
            None => decode_cov_sigs_spec(s@) is None,
        },
{
    let fields = match parse_fields(s) {
        Some(fs) => fs,
        None => return None,
    };
    let ghost fs = fields_view(fields@);
    let mut c = CovenantAdaptorSignatures { cov_pk: Vec::new(), adaptor_sigs: Vec::new() };
    proof {
        lemma_fold_start(fs, c@, cov_sigs_steps());
        lemma_views_empty::<Vec<u8>>();
    }
    let mut i: usize = 0;
    while i < fields.len()
        invariant
            fs == fields_view(fields@),
            i <= fields.len(),
            decode_cov_sigs_spec(s@) == fold_fields(fs.skip(i as int), c@, cov_sigs_steps()),
        decreases fields.len() - i,
    {
        proof {
            lemma_fold_step(fs, i as int, c@, cov_sigs_steps());
        }
        let f = &fields[i];
        if f.number == 1 || f.number == 2 {
            match &f.value {
                FieldValue::Bytes(b) => {
                    if f.number == 1 {
                        c.cov_pk = copy_bytes(b);
                    } else {
                        let x = copy_bytes(b);
                        proof {
                            lemma_views_push(c.adaptor_sigs@, x);
                        }
                        c.adaptor_sigs.push(x);
                    }
                },
                _ => return None,
            }
        }
        i += 1;
    }
    proof {
        lemma_fold_end(fs, c@, cov_sigs_steps());
    }
    Some(c)
}

/// Decodes a key with its signature.
pub fn decode_signature_info(s: &[u8]) -> (r: Option<SignatureInfo>)
    ensures
        match r {
            Some(c) => decode_sig_info_spec(s@) == Some(c@),
            None => decode_sig_info_spec(s@) is None,
        },
{
    let fields = match parse_fields(s) {
        Some(fs) => fs,
        None => return None,
    };
    let ghost fs = fields_view(fields@);
    let mut c = SignatureInfo { pk: Vec::new(), sig: Vec::new() };
    proof {
        lemma_fold_start(fs, c@, sig_info_steps());
        assert(c@ == SignatureInfoModel { pk: Seq::empty(), sig: Seq::empty() });
    }
    let mut i: usize = 0;
    while i < fields.len()
        invariant
            fs == fields_view(fields@),
            i <= fields.len(),
            decode_sig_info_spec(s@) == fold_fields(fs.skip(i as int), c@, sig_info_steps()),
        decreases fields.len() - i,
    {
        proof {
            lemma_fold_step(fs, i as int, c@, sig_info_steps());
        }
        let f = &fields[i];
        if f.number == 1 || f.number == 2 {
            match &f.value {
                FieldValue::Bytes(b) => {
                    if f.number == 1 {
                        c.pk = copy_bytes(b);
                    } else {
                        c.sig = copy_bytes(b);
                    }
                },
                _ => return None,
            }
        }
        i += 1;
    }
    proof {
        lemma_fold_end(fs, c@, sig_info_steps());
    }
    Some(c)
}

/// Decodes the unbonding data of a delegation.
pub fn decode_undelegation_info(s: &[u8]) -> (r: Option<BtcUndelegationInfo>)
    ensures
        match r {
            Some(u) => decode_undelegation_spec(s@) == Some(u@),
            None => decode_undelegation_spec(s@) is None,
        },
{
    let init = BtcUndelegationInfo {
        unbonding_tx: Vec::new(),
        delegator_unbonding_sig: Vec::new(),
        covenant_unbonding_sig_list: Vec::new(),
        slashing_tx: Vec::new(),
        delegator_slashing_sig: Vec::new(),
        covenant_slashing_sigs: Vec::new(),
    };
    proof {
        lemma_views_empty::<SignatureInfo>();
        lemma_views_empty::<CovenantAdaptorSignatures>();
    }
    decode_undelegation_info_onto(s, init)
}

/// Decodes on top of `init`, as a repeated occurrence of an embedded
/// message merges into the earlier one.
pub fn decode_undelegation_info_onto(s: &[u8], init: BtcUndelegationInfo) -> (r: Option<BtcUndelegationInfo>)
    ensures
        match r {
            Some(u) => decode_with(s@, init@, undelegation_steps()) == Some(u@),
            None => decode_with(s@, init@, undelegation_steps()) is None,
        },
{
    let fields = match parse_fields(s) {
        Some(fs) => fs,
        None => return None,
    };
    let ghost fs = fields_view(fields@);
    let ghost start = init@;
    let mut u = init;
    proof {
        lemma_fold_start(fs, u@, undelegation_steps());
        lemma_views_empty::<SignatureInfo>();
        lemma_views_empty::<CovenantAdaptorSignatures>();
    }
    let mut i: usize = 0;
    while i < fields.len()
        invariant
            fs == fields_view(fields@),
            i <= fields.len(),
            decode_with(s@, init@, undelegation_steps()) == fold_fields(fs.skip(i as int), u@, undelegation_steps()),
        decreases fields.len() - i,
    {
        proof {
            lemma_fold_step(fs, i as int, u@, undelegation_steps());
        }
        let f = &fields[i];
        if 1 <= f.number && f.number <= 6 {
            match &f.value {
                FieldValue::Bytes(b) => {
                    if f.number == 3 {
                        match decode_signature_info(b.as_slice()) {
                            Some(x) => {
                                proof {
                                    lemma_views_push(u.covenant_unbonding_sig_list@, x);
                                }
                                u.covenant_unbonding_sig_list.push(x);
                            },
                            None => return None,
                        }
                    } else if f.number == 6 {
                        match decode_covenant_sigs(b.as_slice()) {
                            Some(x) => {
                                proof {
                                    lemma_views_push(u.covenant_slashing_sigs@, x);
                                }
                                u.covenant_slashing_sigs.push(x);
                            },
                            None => return None,
                        }
                    } else if f.number == 1 {
                        u.unbonding_tx = copy_bytes(b);
                    } else if f.number == 2 {
                        u.delegator_unbonding_sig = copy_bytes(b);
                    } else if f.number == 4 {
                        u.slashing_tx = copy_bytes(b);
                    } else {
                        u.delegator_slashing_sig = copy_bytes(b);
                    }
                },
                _ => return None,
            }
        }
        i += 1;
    }
    proof {
        lemma_fold_end(fs, u@, undelegation_steps());
    }
    Some(u)
}

/// Decodes an active delegation.
pub fn decode_active_delegation(s: &[u8]) -> (r: Option<ActiveBtcDelegation>)
    ensures
        match r {
            Some(a) => decode_active_spec(s@) == Some(a@),
            None => decode_active_spec(s@) is None,
        },
{
    let fields = match parse_fields(s) {
        Some(fs) => fs,
        None => return None,
    };
    let ghost fs = fields_view(fields@);
    let mut a = ActiveBtcDelegation {
        staker_addr: empty_text(),
        btc_pk_hex: empty_text(),
        fp_btc_pk_list: Vec::new(),
        start_height: 0,
        end_height: 0,
        total_sat: 0,
        staking_tx: Vec::new(),
        slashing_tx: Vec::new(),
        delegator_slashing_sig: Vec::new(),
        covenant_sigs: Vec::new(),
        staking_output_idx: 0,
        unbonding_time: 0,
        undelegation_info: None,
        params_version: 0,
    };
    proof {
        lemma_fold_start(fs, a@, active_steps());
        lemma_views_empty::<String>();
        lemma_views_empty::<CovenantAdaptorSignatures>();
    }
    let mut i: usize = 0;
    while i < fields.len()
        invariant
            fs == fields_view(fields@),
            i <= fields.len(),
            decode_active_spec(s@) == fold_fields(fs.skip(i as int), a@, active_steps()),
        decreases fields.len() - i,
    {
        proof {
            lemma_fold_step(fs, i as int, a@, active_steps());
        }
        let f = &fields[i];
        let n = f.number;
        if n == 4 || n == 5 || n == 6 || n == 11 || n == 12 || n == 14 {
            match &f.value {
                FieldValue::Varint(v) => {
                    if n == 4 {
                        a.start_height = read_u32(*v);
                    } else if n == 5 {
                        a.end_height = read_u32(*v);
                    } else if n == 6 {
                        a.total_sat = *v;
                    } else if n == 11 {
                        a.staking_output_idx = read_u32(*v);
                    } else if n == 12 {
                        a.unbonding_time = read_u32(*v);
                    } else {
                        a.params_version = read_u32(*v);
                    }
                },
                _ => return None,
            }
        } else if 1 <= n && n <= 13 {
            match &f.value {
                FieldValue::Bytes(b) => {
                    if n == 10 {
                        match decode_covenant_sigs(b.as_slice()) {
                            Some(x) => {
                                proof {
                                    lemma_views_push(a.covenant_sigs@, x);
                                }
                                a.covenant_sigs.push(x);
                            },
                            None => return None,
                        }
                    } else if n == 13 {
                        let merged = match a.undelegation_info.take() {
                            Some(u) => decode_undelegation_info_onto(b.as_slice(), u),
                            None => decode_undelegation_info(b.as_slice()),
                        };
                        match merged {
                            Some(x) => a.undelegation_info = Some(x),
                            None => return None,
                        }
                    } else if n == 7 {
                        a.staking_tx = copy_bytes(b);
                    } else if n == 8 {
                        a.slashing_tx = copy_bytes(b);
                    } else if n == 9 {
                        a.delegator_slashing_sig = copy_bytes(b);
                    } else {
                        match read_text(b.as_slice()) {
                            Some(t) => {
                                if n == 1 {
                                    a.staker_addr = t;
                                } else if n == 2 {
                                    a.btc_pk_hex = t;
                                } else {
                                    proof {
                                        lemma_views_push(a.fp_btc_pk_list@, t);
                                    }
                                    a.fp_btc_pk_list.push(t);
                                }
                            },
                            None => return None,
                        }
                    }
                },
                _ => return None,
            }
        }
        i += 1;
    }
    proof {
        lemma_fold_end(fs, a@, active_steps());
    }
    Some(a)
}

/// Decodes a slashed delegation.
pub fn decode_slashed_delegation(s: &[u8]) -> (r: Option<SlashedBtcDelegation>)
    ensures
        match r {
            Some(d) => decode_slashed_spec(s@) == Some(d@),
            None => decode_slashed_spec(s@) is None,
        },
{
    let fields = match parse_fields(s) {
        Some(fs) => fs,
        None => return None,
    };
    let ghost fs = fields_view(fields@);
    let mut d = SlashedBtcDelegation { staking_tx_hash: empty_text(), recovered_fp_btc_sk: empty_text() };
    proof {
        lemma_fold_start(fs, d@, slashed_steps());
    }
    let mut i: usize = 0;
    while i < fields.len()
        invariant
            fs == fields_view(fields@),
            i <= fields.len(),
            decode_slashed_spec(s@) == fold_fields(fs.skip(i as int), d@, slashed_steps()),
        decreases fields.len() - i,
    {
        proof {
            lemma_fold_step(fs, i as int, d@, slashed_steps());
        }
        let f = &fields[i];
        if f.number == 1 || f.number == 2 {
            match &f.value {
                FieldValue::Bytes(b) => match read_text(b.as_slice()) {
                    Some(t) => {
                        if f.number == 1 {
                            d.staking_tx_hash = t;
                        } else {
                            d.recovered_fp_btc_sk = t;
                        }
                    },
                    None => return None,
                },
                _ => return None,
            }
        }
        i += 1;
    }
    proof {
        lemma_fold_end(fs, d@, slashed_steps());
    }
    Some(d)
}

/// Decodes an unbonded delegation.
pub fn decode_unbonded_delegation(s: &[u8]) -> (r: Option<UnbondedBtcDelegation>)
    ensures
        match r {
            Some(d) => decode_unbonded_spec(s@) == Some(d@),
            None => decode_unbonded_spec(s@) is None,
        },
{
    let fields = match parse_fields(s) {
        Some(fs) => fs,
        None => return None,
    };
    let ghost fs = fields_view(fields@);
    let mut d = UnbondedBtcDelegation { staking_tx_hash: empty_text(), unbonding_tx_sig: Vec::new() };
    proof {
        lemma_fold_start(fs, d@, unbonded_steps());
    }
    let mut i: usize = 0;
    while i < fields.len()
        invariant
            fs == fields_view(fields@),
            i <= fields.len(),
            decode_unbonded_spec(s@) == fold_fields(fs.skip(i as int), d@, unbonded_steps()),
        decreases fields.len() - i,
    {
        proof {
            lemma_fold_step(fs, i as int, d@, unbonded_steps());
        }
        let f = &fields[i];
        if f.number == 1 {
            match &f.value {
                FieldValue::Bytes(b) => match read_text(b.as_slice()) {
                    Some(t) => d.staking_tx_hash = t,
                    None => return None,
                },
                _ => return None,
            }
        } else if f.number == 2 {
            match &f.value {
                FieldValue::Bytes(b) => d.unbonding_tx_sig = copy_bytes(b),
                _ => return None,
            }
        }
        i += 1;
    }
    proof {
        lemma_fold_end(fs, d@, unbonded_steps());
    }
    Some(d)
}

/// Decodes the staking events of a packet.
pub fn decode_btc_staking_packet(s: &[u8]) -> (r: Option<BtcStakingIbcPacket>)
    ensures
        match r {
            Some(p) => decode_staking_spec(s@) == Some(p@),
            None => decode_staking_spec(s@) is None,
        },
{
    let init = BtcStakingIbcPacket {
        new_fp: Vec::new(),
        active_del: Vec::new(),
        slashed_del: Vec::new(),
        unbonded_del: Vec::new(),
    };
    proof {
        lemma_views_empty::<NewFinalityProvider>();
        lemma_views_empty::<ActiveBtcDelegation>();
        lemma_views_empty::<SlashedBtcDelegation>();
        lemma_views_empty::<UnbondedBtcDelegation>();
    }
    decode_btc_staking_packet_onto(s, init)
}

/// Decodes on top of `init`, as a repeated occurrence of an embedded
/// message merges into the earlier one.
pub fn decode_btc_staking_packet_onto(s: &[u8], init: BtcStakingIbcPacket) -> (r: Option<BtcStakingIbcPacket>)
    ensures
        match r {
            Some(p) => decode_with(s@, init@, staking_steps()) == Some(p@),
            None => decode_with(s@, init@, staking_steps()) is None,
        },
{
    let fields = match parse_fields(s) {
        Some(fs) => fs,
        None => return None,
    };
    let ghost fs = fields_view(fields@);
    let ghost start = init@;
    let mut p = init;
    proof {
        lemma_fold_start(fs, p@, staking_steps());
        lemma_views_empty::<NewFinalityProvider>();
        lemma_views_empty::<ActiveBtcDelegation>();
        lemma_views_empty::<SlashedBtcDelegation>();
        lemma_views_empty::<UnbondedBtcDelegation>();
    }
    let mut i: usize = 0;
    while i < fields.len()
        invariant
            fs == fields_view(fields@),
            i <= fields.len(),
            decode_with(s@, init@, staking_steps()) == fold_fields(fs.skip(i as int), p@, staking_steps()),
        decreases fields.len() - i,
    {
        proof {
            lemma_fold_step(fs, i as int, p@, staking_steps());
        }
        let f = &fields[i];
        if 1 <= f.number && f.number <= 4 {
            match &f.value {
                FieldValue::Bytes(b) => {
                    if f.number == 1 {
                        match decode_new_finality_provider(b.as_slice()) {
                            Some(x) => {
                                proof {
                                    lemma_views_push(p.new_fp@, x);
                                }
                                p.new_fp.push(x);
                            },
                            None => return None,
                        }
                    } else if f.number == 2 {
                        match decode_active_delegation(b.as_slice()) {
                            Some(x) => {
                                proof {
                                    lemma_views_push(p.active_del@, x);
                                }
                                p.active_del.push(x);
                            },
                            None => return None,
                        }
                    } else if f.number == 3 {
                        match decode_slashed_delegation(b.as_slice()) {
                            Some(x) => {
                                proof {
                                    lemma_views_push(p.slashed_del@, x);
                                }
                                p.slashed_del.push(x);
                            },
                            None => return None,
                        }
                    } else {
                        match decode_unbonded_delegation(b.as_slice()) {
                            Some(x) => {
                                proof {
                                    lemma_views_push(p.unbonded_del@, x);
                                }
                                p.unbonded_del.push(x);
                            },
                            None => return None,
                        }
                    }
                },
                _ => return None,
            }
        }
        i += 1;
    }
    proof {
        lemma_fold_end(fs, p@, staking_steps());
    }
    Some(p)
}

// ---- the packet ----
/// The variant that a packet's tagged union holds.
pub ghost enum PacketModel {
    BtcTimestamp(Seq<u8>),
    BtcStaking(StakingPacketModel),
    Unsupported(u64),
}

/// Field 1 is a BTC timestamp, kept as its encoded bytes; field 2 is a
/// staking packet, decoded; any other field number is a variant this
/// endpoint does not know. A repeated occurrence of the variant already
/// held merges into it: the timestamp's bytes are appended, which is how
/// encoded messages merge, and the staking packet is decoded on top.
pub open spec fn packet_step(p: Option<PacketModel>, f: FieldModel) -> Option<Option<PacketModel>> {
    if f.number == 1 || f.number == 2 {
        match f.value {
            FieldValueModel::Bytes(b) => if f.number == 1 {
                Some(
                    Some(
                        PacketModel::BtcTimestamp(
                            match p {
                                Some(PacketModel::BtcTimestamp(b0)) => b0 + b,
                                _ => b,
                            },
                        ),
                    ),
                )
            } else {
                match merge_staking(p, b) {
                    Some(x) => Some(Some(PacketModel::BtcStaking(x))),
                    None => None,
                }
            },
            _ => None,
        }
    } else {
        Some(Some(PacketModel::Unsupported(f.number)))
    }
}

pub open spec fn merge_staking(existing: Option<PacketModel>, b: Seq<u8>) -> Option<StakingPacketModel> {
    match existing {
        Some(PacketModel::BtcStaking(x)) => decode_with(b, x, staking_steps()),
        _ => decode_staking_spec(b),
    }
}

pub open spec fn packet_steps() -> spec_fn(Option<PacketModel>, FieldModel) -> Option<
    Option<PacketModel>,
> {
    |p: Option<PacketModel>, f: FieldModel| packet_step(p, f)
}

/// The packet that `s` encodes: `None` where the bytes are malformed,
/// `Some(None)` where the union holds no variant.
pub open spec fn decode_packet_spec(s: Seq<u8>) -> Option<Option<PacketModel>> {
    decode_with(s, None, packet_steps())
}

/// The variants of a packet's tagged union.
#[derive(Clone, Debug, PartialEq, Eq)]
pub enum Packet {
    /// A BTC timestamp, as its encoded bytes.
    BtcTimestamp(Vec<u8>),
    BtcStaking(BtcStakingIbcPacket),
    /// A variant this endpoint does not know, by its field number.
    Unsupported(u64),
}

/// A decoded packet payload.
#[derive(Clone, Debug, PartialEq, Eq)]
pub struct ZoneconciergePacketData {
    pub packet: Option<Packet>,
}

impl View for Packet {
    type V = PacketModel;

    open spec fn view(&self) -> PacketModel {
        match self {
            Packet::BtcTimestamp(b) => PacketModel::BtcTimestamp(b@),
            Packet::BtcStaking(p) => PacketModel::BtcStaking(p@),
            Packet::Unsupported(n) => PacketModel::Unsupported(*n),
        }
    }
}

impl View for ZoneconciergePacketData {
    type V = Option<PacketModel>;

    open spec fn view(&self) -> Option<PacketModel> {
        opt_view(self.packet)
    }
}

/// Decodes a packet payload; `None` where the bytes are malformed.
pub fn decode_packet_data(s: &[u8]) -> (r: Option<ZoneconciergePacketData>)
    ensures
        match r {
            Some(d) => decode_packet_spec(s@) == Some(d@),
            None => decode_packet_spec(s@) is None,
        },
{
    let fields = match parse_fields(s) {
        Some(fs) => fs,
        None => return None,
    };
    let ghost fs = fields_view(fields@);
    let mut d = ZoneconciergePacketData { packet: None };
    proof {
        lemma_fold_start(fs, d@, packet_steps());
    }
    let mut i: usize = 0;
    while i < fields.len()
        invariant
            fs == fields_view(fields@),
            i <= fields.len(),
            decode_packet_spec(s@) == fold_fields(fs.skip(i as int), d@, packet_steps()),
        decreases fields.len() - i,
    {
        proof {
            lemma_fold_step(fs, i as int, d@, packet_steps());
        }
        let f = &fields[i];
        if f.number == 1 || f.number == 2 {
            match &f.value {
                FieldValue::Bytes(b) => {
                    if f.number == 1 {
                        let joined = match d.packet.take() {
                            Some(Packet::BtcTimestamp(b0)) => {
                                let mut joined = b0;
                                append_bytes(&mut joined, b.as_slice());
                                joined
                            },
                            _ => copy_bytes(b),
                        };
                        d.packet = Some(Packet::BtcTimestamp(joined));
                    } else {
                        let merged = match d.packet.take() {
                            Some(Packet::BtcStaking(x)) => decode_btc_staking_packet_onto(b.as_slice(), x),
                            _ => decode_btc_staking_packet(b.as_slice()),
                        };
                        match merged {
                            Some(x) => d.packet = Some(Packet::BtcStaking(x)),
                            None => return None,
                        }
                    }
                },
                _ => return None,
            }
        } else {
            d.packet = Some(Packet::Unsupported(f.number));
        }
        i += 1;
    }
    proof {
        lemma_fold_end(fs, d@, packet_steps());
    }
    Some(d)
}

} // verus!
