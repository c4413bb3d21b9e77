//! Translation of a staking packet into the call that the staking contract
//! takes. Every field is copied as it is, but for the commission, which is
//! parsed into a decimal. Slashed delegations are not routed yet: the call
//! always carries an empty list of them.

use crate::api;
use crate::api::{Decimal, FinalityProviderModel, StakingCallModel};
use crate::codec::copy_bytes;
use crate::error::{PacketError, PacketErrorModel};
use crate::wire;
use crate::wire::{lemma_views_empty, lemma_views_push, views, StakingPacketModel, WireFinalityProviderModel};
use vstd::prelude::*;

verus! {

/// The value of a run of decimal digits.
pub open spec fn digits_value(d: Seq<char>) -> nat
    decreases d.len(),
{
    if d.len() == 0 {
        0
    } else {
        digits_value(d.drop_last()) * 10 + ((d.last() as u32) - ('0' as u32)) as nat
    }
}

pub open spec fn all_digits(d: Seq<char>) -> bool {
    forall|i: int| 0 <= i < d.len() ==> ('0' as u32) <= (#[trigger] d[i] as u32) <= ('9' as u32)
}

/// What `u128`'s text parse accepts: an optional `+`, then at least one
/// decimal digit, of a value that fits in 128 bits.
pub open spec fn u128_of_text(s: Seq<char>) -> Option<u128> {
    let d = if s.len() > 0 && s[0] == '+' {
        s.drop_first()
    } else {
        s
    };
    if d.len() > 0 && all_digits(d) && digits_value(d) <= u128::MAX {
        Some(digits_value(d) as u128)
    } else {
        None
    }
}

pub open spec fn pow10(n: nat) -> nat
    decreases n,
{
    if n == 0 {
        1
    } else {
        10 * pow10((n - 1) as nat)
    }
}

pub open spec fn has_dot(s: Seq<char>) -> bool {
    exists|j: int| 0 <= j < s.len() && s[j] == '.'
}

/// The position of the first `.` of a text that has one.
pub open spec fn first_dot(s: Seq<char>) -> int {
    choose|k: int| 0 <= k < s.len() && s[k] == '.' && forall|j: int| 0 <= j < k ==> s[j] != '.'
}

/// A decimal of 18 fractional digits as a count of `10^-18` units: a whole
/// part, then optionally a `.` and at most 18 fractional digits, each part
/// read as a `u128` reads its text, no rounding, and the result must fit in
/// 128 bits. `None` for any other text.
pub open spec fn decimal_atomics_of(s: Seq<char>) -> Option<u128> {
    if !has_dot(s) {
        match u128_of_text(s) {
            Some(w) => if w * pow10(18) <= u128::MAX {
                Some((w * pow10(18)) as u128)
            } else {
                None
            },
            None => None,
        }
    } else {
        let k = first_dot(s);
        let whole = s.take(k);
        let frac = s.skip(k + 1);
        if has_dot(frac) || frac.len() > 18 {
            None
        } else {
            match (u128_of_text(whole), u128_of_text(frac)) {
                (Some(w), Some(f)) => {
                    let v = w * pow10(18) + f * pow10((18 - frac.len()) as nat);
                    if v <= u128::MAX {
                        Some(v as u128)
                    } else {
                        None
                    }
                },
                _ => None,
            }
        }
    }
}

/// How the decimal parser describes why a text is not a decimal.
pub uninterp spec fn decimal_error_of(s: Seq<char>) -> Seq<char>;

/// Relies on `cosmwasm_std::Decimal::from_str`, read in its source: it splits
/// the text at `.`, parses the parts as `u128`, and fails on more than one
/// dot, more than 18 fractional digits or overflow; a parsed decimal is
/// returned as its count of `10^-18` units, a failure as its description.
#[verifier::external_body]
fn parse_decimal(s: &str) -> (r: Result<u128, String>)
    ensures
        match r {
            Ok(v) => decimal_atomics_of(s@) == Some(v),
            Err(m) => decimal_atomics_of(s@) is None && m@ == decimal_error_of(s@),
        },
{
    match <cosmwasm_std::Decimal as std::str::FromStr>::from_str(s) {
        Ok(d) => Ok(d.atomics().u128()),
        Err(e) => Err(e.to_string()),
    }
}

/// A finality provider with its commission already parsed.
pub open spec fn translated_provider(w: WireFinalityProviderModel, commission: u128) -> FinalityProviderModel {
    FinalityProviderModel {
        description: w.description,
        commission,
        addr: w.addr,
        btc_pk_hex: w.btc_pk_hex,
        pop: w.pop,
        consumer_id: w.consumer_id,
    }
}

/// Every provider's commission parses.
pub open spec fn commissions_valid(ws: Seq<WireFinalityProviderModel>) -> bool {
    forall|i: int| 0 <= i < ws.len() ==> (#[trigger] decimal_atomics_of(ws[i].commission)) is Some
}

/// `k` is the first provider whose commission does not parse.
pub open spec fn first_invalid_commission(ws: Seq<WireFinalityProviderModel>, k: int) -> bool {
    &&& 0 <= k < ws.len()
    &&& decimal_atomics_of(ws[k].commission) is None
    &&& forall|j: int| 0 <= j < k ==> (#[trigger] decimal_atomics_of(ws[j].commission)) is Some
}

/// The providers of a packet, each with its commission parsed.
pub open spec fn translated_providers(ws: Seq<WireFinalityProviderModel>) -> Seq<FinalityProviderModel> {
    Seq::new(
        ws.len(),
        |i: int| translated_provider(ws[i], decimal_atomics_of(ws[i].commission)->Some_0),
    )
}

/// The call that a staking packet translates to, where all commissions parse.
pub open spec fn translated_call(p: StakingPacketModel) -> StakingCallModel {
    StakingCallModel {
        new_fp: translated_providers(p.new_fp),
        active_del: p.active_del,
        slashed_del: Seq::empty(),
        unbonded_del: p.unbonded_del,
    }
}

/// The first provider whose commission does not parse.
pub open spec fn first_invalid_index(ws: Seq<WireFinalityProviderModel>) -> int {
    choose|k: int| first_invalid_commission(ws, k)
}

proof fn lemma_first_invalid_index(ws: Seq<WireFinalityProviderModel>, k: int)
    requires
        first_invalid_commission(ws, k),
    ensures
        first_invalid_index(ws) == k,
{
    let c = first_invalid_index(ws);
    assert(first_invalid_commission(ws, c));
    if c < k {
        assert(decimal_atomics_of(ws[c].commission) is Some);
    } else if k < c {
        assert(decimal_atomics_of(ws[k].commission) is Some);
    }
}

/// What a staking packet translates to: the call where every commission
/// parses, else the error for the first that does not.
pub open spec fn staking_translation(p: StakingPacketModel) -> Result<StakingCallModel, PacketErrorModel> {
    if commissions_valid(p.new_fp) {
        Ok(translated_call(p))
    } else {
        Err(
            PacketErrorModel::InvalidDecimal(
                decimal_error_of(p.new_fp[first_invalid_index(p.new_fp)].commission),
            ),
        )
    }
}

pub open spec fn translation_view(r: Result<api::ExecuteMsg, PacketError>) -> Result<
    StakingCallModel,
    PacketErrorModel,
> {
    match r {
        Ok(m) => Ok(m@),
        Err(e) => Err(e@),
    }
}

/// Copies a provider description.
pub fn translate_description(d: &wire::Description) -> (r: api::FinalityProviderDescription)
    ensures
        r@ == d@,
{
    api::FinalityProviderDescription {
        moniker: d.moniker.clone(),
        identity: d.identity.clone(),
        website: d.website.clone(),
        security_contact: d.security_contact.clone(),
        details: d.details.clone(),
    }
}

/// Copies a proof of possession.
pub fn translate_pop(p: &wire::ProofOfPossessionBtc) -> (r: api::ProofOfPossessionBtc)
    ensures
        r@ == p@,
{
    api::ProofOfPossessionBtc { btc_sig_type: p.btc_sig_type, btc_sig: copy_bytes(&p.btc_sig) }
}

/// Translates a provider whose commission has been parsed to `commission`.
pub fn translate_provider_with_commission(fp: &wire::NewFinalityProvider, commission: u128) -> (r:
    api::NewFinalityProvider)
    ensures
        r@ == translated_provider(fp@, commission),
{
    let description = match &fp.description {
        Some(d) => Some(translate_description(d)),
        None => None,
    };
    let pop = match &fp.pop {
        Some(p) => Some(translate_pop(p)),
        None => None,
    };
    api::NewFinalityProvider {
        description,
        commission: Decimal { atomics: commission },
        addr: fp.addr.clone(),
        btc_pk_hex: fp.btc_pk_hex.clone(),
        pop,
        consumer_id: fp.consumer_id.clone(),
    }
}

/// Translates a provider; fails where its commission is not a decimal.
pub fn translate_provider(fp: &wire::NewFinalityProvider) -> (r: Result<
    api::NewFinalityProvider,
    PacketError,
>)
    ensures
        match decimal_atomics_of(fp.commission@) {
            Some(c) => r matches Ok(t) && t@ == translated_provider(fp@, c),
            None => r matches Err(e) && e@ == PacketErrorModel::InvalidDecimal(
                decimal_error_of(fp.commission@),
            ),
        },
{
    match parse_decimal(fp.commission.as_str()) {
        Ok(c) => Ok(translate_provider_with_commission(fp, c)),
        Err(message) => Err(PacketError::InvalidDecimal { message }),
    }
}

fn copy_byte_list(v: &Vec<Vec<u8>>) -> (r: Vec<Vec<u8>>)
    ensures
        views(r@) == views(v@),
{
    let mut r: Vec<Vec<u8>> = Vec::new();
    let mut i: usize = 0;
    proof {
        lemma_views_empty::<Vec<u8>>();
    }
    while i < v.len()
        invariant
            i <= v.len(),
            views(r@) == views(v@).take(i as int),
        decreases v.len() - i,
    {
        let x = copy_bytes(&v[i]);
        proof {
            lemma_views_push(r@, x);
            assert(views(v@).take(i as int).push(x@) =~= views(v@).take(i + 1));
        }
        r.push(x);
        i += 1;
    }
    proof {
        assert(views(v@).take(v.len() as int) =~= views(v@));
    }
    r
}

fn copy_text_list(v: &Vec<String>) -> (r: Vec<String>)
    ensures
        views(r@) == views(v@),
{
    let mut r: Vec<String> = Vec::new();
    let mut i: usize = 0;
    proof {
        lemma_views_empty::<String>();
    }
    while i < v.len()
        invariant
            i <= v.len(),
            views(r@) == views(v@).take(i as int),
        decreases v.len() - i,
    {
        let x = v[i].clone();
        proof {
            lemma_views_push(r@, x);
            assert(views(v@).take(i as int).push(x@) =~= views(v@).take(i + 1));
        }
        r.push(x);
        i += 1;
    }
    proof {
        assert(views(v@).take(v.len() as int) =~= views(v@));
    }
    r
}

/// Copies a covenant member's signatures.
pub fn translate_covenant_sigs(c: &wire::CovenantAdaptorSignatures) -> (r: api::CovenantAdaptorSignatures)
    ensures
        r@ == c@,
{
    api::CovenantAdaptorSignatures { cov_pk: copy_bytes(&c.cov_pk), adaptor_sigs: copy_byte_list(&c.adaptor_sigs) }
}

fn translate_covenant_sigs_list(v: &Vec<wire::CovenantAdaptorSignatures>) -> (r: Vec<api::CovenantAdaptorSignatures>)
    ensures
        views(r@) == views(v@),
{
    let mut r: Vec<api::CovenantAdaptorSignatures> = Vec::new();
    let mut i: usize = 0;
    proof {
        lemma_views_empty::<api::CovenantAdaptorSignatures>();
    }
    while i < v.len()
        invariant
            i <= v.len(),
            views(r@) == views(v@).take(i as int),
        decreases v.len() - i,
    {
        let x = translate_covenant_sigs(&v[i]);
        proof {
            lemma_views_push(r@, x);
            assert(views(v@).take(i as int).push(x@) =~= views(v@).take(i + 1));
        }
        r.push(x);
        i += 1;
    }
    proof {
        assert(views(v@).take(v.len() as int) =~= views(v@));
    }
    r
}

/// Copies a key with its signature.
pub fn translate_signature_info(s: &wire::SignatureInfo) -> (r: api::SignatureInfo)
    ensures
        r@ == s@,
{
    api::SignatureInfo { pk: copy_bytes(&s.pk), sig: copy_bytes(&s.sig) }
}

fn translate_signature_info_list(v: &Vec<wire::SignatureInfo>) -> (r: Vec<api::SignatureInfo>)
    ensures
        views(r@) == views(v@),
{
    let mut r: Vec<api::SignatureInfo> = Vec::new();
    let mut i: usize = 0;
    proof {
        lemma_views_empty::<api::SignatureInfo>();
    }
    while i < v.len()
        invariant
            i <= v.len(),
            views(r@) == views(v@).take(i as int),
        decreases v.len() - i,
    {
        let x = translate_signature_info(&v[i]);
        proof {
            lemma_views_push(r@, x);
            assert(views(v@).take(i as int).push(x@) =~= views(v@).take(i + 1));
        }
        r.push(x);
        i += 1;
    }
    proof {
        assert(views(v@).take(v.len() as int) =~= views(v@));
    }
    r
}

/// Copies the unbonding data of a delegation.
pub fn translate_undelegation_info(u: &wire::BtcUndelegationInfo) -> (r: api::BtcUndelegationInfo)
    ensures
        r@ == u@,
{
    api::BtcUndelegationInfo {
        unbonding_tx: copy_bytes(&u.unbonding_tx),
        delegator_unbonding_sig: copy_bytes(&u.delegator_unbonding_sig),
        covenant_unbonding_sig_list: translate_signature_info_list(&u.covenant_unbonding_sig_list),
        slashing_tx: copy_bytes(&u.slashing_tx),
        delegator_slashing_sig: copy_bytes(&u.delegator_slashing_sig),
        covenant_slashing_sigs: translate_covenant_sigs_list(&u.covenant_slashing_sigs),
    }
}

/// Copies an active delegation.
pub fn translate_active_delegation(d: &wire::ActiveBtcDelegation) -> (r: api::ActiveBtcDelegation)
    ensures
        r@ == d@,
{
    let undelegation_info = match &d.undelegation_info {
        Some(u) => Some(translate_undelegation_info(u)),
        None => None,
    };
    api::ActiveBtcDelegation {
        staker_addr: d.staker_addr.clone(),
        btc_pk_hex: d.btc_pk_hex.clone(),
        fp_btc_pk_list: copy_text_list(&d.fp_btc_pk_list),
        start_height: d.start_height,
        end_height: d.end_height,
        total_sat: d.total_sat,
        staking_tx: copy_bytes(&d.staking_tx),
        slashing_tx: copy_bytes(&d.slashing_tx),
        delegator_slashing_sig: copy_bytes(&d.delegator_slashing_sig),
        covenant_sigs: translate_covenant_sigs_list(&d.covenant_sigs),
        staking_output_idx: d.staking_output_idx,
        unbonding_time: d.unbonding_time,
        undelegation_info,
        params_version: d.params_version,
    }
}

/// Copies an unbonded delegation.
pub fn translate_unbonded_delegation(d: &wire::UnbondedBtcDelegation) -> (r: api::UnbondedBtcDelegation)
    ensures
        r@ == d@,
{
    api::UnbondedBtcDelegation {
        staking_tx_hash: d.staking_tx_hash.clone(),
        unbonding_tx_sig: copy_bytes(&d.unbonding_tx_sig),
    }
}

/// Translates a staking packet into the staking contract's call. Fails with
/// the first commission that is not a decimal.
pub fn translate_btc_staking(p: &wire::BtcStakingIbcPacket) -> (r: Result<api::ExecuteMsg, PacketError>)
    ensures
        translation_view(r) == staking_translation(p@),
{
    let ghost ws = p@.new_fp;
    let mut new_fp: Vec<api::NewFinalityProvider> = Vec::new();
    let mut i: usize = 0;
    while i < p.new_fp.len()
        invariant
            ws == p@.new_fp,
            ws.len() == p.new_fp.len(),
            i <= p.new_fp.len(),
            new_fp.len() == i,
            forall|j: int| 0 <= j < i ==> (#[trigger] decimal_atomics_of(ws[j].commission)) is Some,
            forall|j: int|
                0 <= j < i ==> (#[trigger] new_fp@[j])@ == translated_provider(
                    ws[j],
                    decimal_atomics_of(ws[j].commission)->Some_0,
                ),
        decreases p.new_fp.len() - i,
    {
        assert(ws[i as int] == p.new_fp@[i as int]@);
        match translate_provider(&p.new_fp[i]) {
            Ok(t) => new_fp.push(t),
            Err(e) => {
                proof {
                    lemma_first_invalid_index(ws, i as int);
                }
                return Err(e);
            },
        }
        i += 1;
    }
    let mut active_del: Vec<api::ActiveBtcDelegation> = Vec::new();
    let mut i: usize = 0;
    proof {
        lemma_views_empty::<api::ActiveBtcDelegation>();
    }
    while i < p.active_del.len()
        invariant
            i <= p.active_del.len(),
            views(active_del@) == views(p.active_del@).take(i as int),
        decreases p.active_del.len() - i,
    {
        let x = translate_active_delegation(&p.active_del[i]);
        proof {
            lemma_views_push(active_del@, x);
            assert(views(p.active_del@).take(i as int).push(x@) =~= views(p.active_del@).take(i + 1));
        }
        active_del.push(x);
        i += 1;
    }
    let mut unbonded_del: Vec<api::UnbondedBtcDelegation> = Vec::new();
    let mut i: usize = 0;
    proof {
        lemma_views_empty::<api::UnbondedBtcDelegation>();
    }
    while i < p.unbonded_del.len()
        invariant
            i <= p.unbonded_del.len(),
            views(unbonded_del@) == views(p.unbonded_del@).take(i as int),
        decreases p.unbonded_del.len() - i,
    {
        let x = translate_unbonded_delegation(&p.unbonded_del[i]);
        proof {
            lemma_views_push(unbonded_del@, x);
            assert(views(p.unbonded_del@).take(i as int).push(x@) =~= views(p.unbonded_del@).take(
                i + 1,
            ));
        }
        unbonded_del.push(x);
        i += 1;
    }
    let slashed_del: Vec<api::SlashedBtcDelegation> = Vec::new();
    proof {
        assert(views(p.active_del@).take(p.active_del.len() as int) =~= views(p.active_del@));
        assert(views(p.unbonded_del@).take(p.unbonded_del.len() as int) =~= views(p.unbonded_del@));
        assert(views(new_fp@) =~= translated_providers(ws));
        lemma_views_empty::<api::SlashedBtcDelegation>();
    }
    Ok(api::ExecuteMsg::BtcStaking { new_fp, active_del, slashed_del, unbonded_del })
}

/// Translating the same packet twice gives the same call, field for field
/// and byte for byte.
pub proof fn translation_is_deterministic(
    p: &wire::BtcStakingIbcPacket,
    first: Result<api::ExecuteMsg, PacketError>,
    second: Result<api::ExecuteMsg, PacketError>,
)
    requires
        translation_view(first) == staking_translation(p@),
        translation_view(second) == staking_translation(p@),
    ensures
        translation_view(first) == translation_view(second),
{
}

} // verus!
