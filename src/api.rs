//! The call that the staking contract takes: the translated form of a
//! staking packet. Byte fields are kept as raw bytes and the commission as a
//! fixed-point decimal.

use crate::wire::{
    opt_view, views, ActiveDelegationModel, CovenantSigsModel, DescriptionModel, PopModel,
    SignatureInfoModel, SlashedDelegationModel, UndelegationModel, UnbondedDelegationModel,
};
use vstd::prelude::*;

verus! {

/// A fixed-point decimal with 18 fractional digits, held as its count of
/// `10^-18` units.
#[derive(Clone, Debug, PartialEq, Eq)]
pub struct Decimal {
    pub atomics: u128,
}

pub ghost struct FinalityProviderModel {
    pub description: Option<DescriptionModel>,
    pub commission: u128,
    pub addr: Seq<char>,
    pub btc_pk_hex: Seq<char>,
    pub pop: Option<PopModel>,
    pub consumer_id: Seq<char>,
}

pub ghost struct StakingCallModel {
    pub new_fp: Seq<FinalityProviderModel>,
    pub active_del: Seq<ActiveDelegationModel>,
    pub slashed_del: Seq<SlashedDelegationModel>,
    pub unbonded_del: Seq<UnbondedDelegationModel>,
}

#[derive(Clone, Debug, PartialEq, Eq)]
pub struct FinalityProviderDescription {
    pub moniker: String,
    pub identity: String,
    pub website: String,
    pub security_contact: String,
    pub details: String,
}

#[derive(Clone, Debug, PartialEq, Eq)]
pub struct ProofOfPossessionBtc {
    pub btc_sig_type: i32,
    pub btc_sig: Vec<u8>,
}

#[derive(Clone, Debug, PartialEq, Eq)]
pub struct NewFinalityProvider {
    pub description: Option<FinalityProviderDescription>,
    pub commission: Decimal,
    pub addr: String,
    pub btc_pk_hex: String,
    pub pop: Option<ProofOfPossessionBtc>,
    pub consumer_id: String,
}

#[derive(Clone, Debug, PartialEq, Eq)]
pub struct CovenantAdaptorSignatures {
    pub cov_pk: Vec<u8>,
    pub adaptor_sigs: Vec<Vec<u8>>,
}

#[derive(Clone, Debug, PartialEq, Eq)]
pub struct SignatureInfo {
    pub pk: Vec<u8>,
    pub sig: Vec<u8>,
}

#[derive(Clone, Debug, PartialEq, Eq)]
pub struct BtcUndelegationInfo {
    pub unbonding_tx: Vec<u8>,
    pub delegator_unbonding_sig: Vec<u8>,
    pub covenant_unbonding_sig_list: Vec<SignatureInfo>,
    pub slashing_tx: Vec<u8>,
    pub delegator_slashing_sig: Vec<u8>,
    pub covenant_slashing_sigs: Vec<CovenantAdaptorSignatures>,
}

#[derive(Clone, Debug, PartialEq, Eq)]
pub struct ActiveBtcDelegation {
    pub staker_addr: String,
    pub btc_pk_hex: String,
    pub fp_btc_pk_list: Vec<String>,
    pub start_height: u32,
    pub end_height: u32,
    pub total_sat: u64,
    pub staking_tx: Vec<u8>,
    pub slashing_tx: Vec<u8>,
    pub delegator_slashing_sig: Vec<u8>,
    pub covenant_sigs: Vec<CovenantAdaptorSignatures>,
    pub staking_output_idx: u32,
    pub unbonding_time: u32,
    pub undelegation_info: Option<BtcUndelegationInfo>,
    pub params_version: u32,
}

#[derive(Clone, Debug, PartialEq, Eq)]
pub struct SlashedBtcDelegation {
    pub staking_tx_hash: String,
    pub recovered_fp_btc_sk: String,
}

#[derive(Clone, Debug, PartialEq, Eq)]
pub struct UnbondedBtcDelegation {
    pub staking_tx_hash: String,
    pub unbonding_tx_sig: Vec<u8>,
}

/// The staking contract's entry point that this endpoint calls.
#[derive(Clone, Debug, PartialEq, Eq)]
pub enum ExecuteMsg {
    BtcStaking {
        new_fp: Vec<NewFinalityProvider>,
        active_del: Vec<ActiveBtcDelegation>,
        slashed_del: Vec<SlashedBtcDelegation>,
        unbonded_del: Vec<UnbondedBtcDelegation>,
    },
}

impl View for FinalityProviderDescription {
    type V = DescriptionModel;

    open spec fn view(&self) -> DescriptionModel {
        DescriptionModel {
            moniker: self.moniker@,
            identity: self.identity@,
            website: self.website@,
            security_contact: self.security_contact@,
            details: self.details@,
        }
    }
}

impl View for ProofOfPossessionBtc {
    type V = PopModel;

    open spec fn view(&self) -> PopModel {
        PopModel { btc_sig_type: self.btc_sig_type, btc_sig: self.btc_sig@ }
    }
}

impl View for NewFinalityProvider {
    type V = FinalityProviderModel;

    open spec fn view(&self) -> FinalityProviderModel {
        FinalityProviderModel {
            description: opt_view(self.description),
            commission: self.commission.atomics,
            addr: self.addr@,
            btc_pk_hex: self.btc_pk_hex@,
            pop: opt_view(self.pop),
            consumer_id: self.consumer_id@,
        }
    }
}

impl View for CovenantAdaptorSignatures {
    type V = CovenantSigsModel;

    open spec fn view(&self) -> CovenantSigsModel {
        CovenantSigsModel { cov_pk: self.cov_pk@, adaptor_sigs: views(self.adaptor_sigs@) }
    }
}

impl View for SignatureInfo {
    type V = SignatureInfoModel;

    open spec fn view(&self) -> SignatureInfoModel {
        SignatureInfoModel { pk: self.pk@, sig: self.sig@ }
    }
}

impl View for BtcUndelegationInfo {
    type V = UndelegationModel;

    open spec fn view(&self) -> UndelegationModel {
        UndelegationModel {
            unbonding_tx: self.unbonding_tx@,
            delegator_unbonding_sig: self.delegator_unbonding_sig@,
            covenant_unbonding_sig_list: views(self.covenant_unbonding_sig_list@),
            slashing_tx: self.slashing_tx@,
            delegator_slashing_sig: self.delegator_slashing_sig@,
            covenant_slashing_sigs: views(self.covenant_slashing_sigs@),
        }
    }
}

impl View for ActiveBtcDelegation {
    type V = ActiveDelegationModel;

    open spec fn view(&self) -> ActiveDelegationModel {
        ActiveDelegationModel {
            staker_addr: self.staker_addr@,
            btc_pk_hex: self.btc_pk_hex@,
            fp_btc_pk_list: views(self.fp_btc_pk_list@),
            start_height: self.start_height,
            end_height: self.end_height,
            total_sat: self.total_sat,
            staking_tx: self.staking_tx@,
            slashing_tx: self.slashing_tx@,
            delegator_slashing_sig: self.delegator_slashing_sig@,
            covenant_sigs: views(self.covenant_sigs@),
            staking_output_idx: self.staking_output_idx,
            unbonding_time: self.unbonding_time,
            undelegation_info: opt_view(self.undelegation_info),
            params_version: self.params_version,
        }
    }
}

impl View for SlashedBtcDelegation {
    type V = SlashedDelegationModel;

    open spec fn view(&self) -> SlashedDelegationModel {
        SlashedDelegationModel {
            staking_tx_hash: self.staking_tx_hash@,
            recovered_fp_btc_sk: self.recovered_fp_btc_sk@,
        }
    }
}

impl View for UnbondedBtcDelegation {
    type V = UnbondedDelegationModel;

    open spec fn view(&self) -> UnbondedDelegationModel {
        UnbondedDelegationModel {
            staking_tx_hash: self.staking_tx_hash@,
            unbonding_tx_sig: self.unbonding_tx_sig@,
        }
    }
}

impl View for ExecuteMsg {
    type V = StakingCallModel;

    open spec fn view(&self) -> StakingCallModel {
        match self {
            ExecuteMsg::BtcStaking { new_fp, active_del, slashed_del, unbonded_del } => {
                StakingCallModel {
                    new_fp: views(new_fp@),
                    active_del: views(active_del@),
                    slashed_del: views(slashed_del@),
                    unbonded_del: views(unbonded_del@),
                }
            },
        }
    }
}

} // verus!
