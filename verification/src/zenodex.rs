//! ZenoDEX-specific profile values.
//!
//! The first profile binds the single-vault zUSD state shape and the stable
//! rejection registry; runtime promotion still requires exact refinement
//! evidence.

use vstd::prelude::*;
use vstd::string::StringSliceAdditionalSpecFns;
use vstd::utf8::encode_utf8;

use crate::commit::{commitment_preimage, frame_commitment, CommitmentHasher, Domain, Hash32};
use crate::value::{
    encoding, field_models, fields_ordered, lemma_field_models, Field, Value, ValueModel,
};
use crate::encode::{be16, be32, put_bytes, put_u16, put_u16_blob, put_u32, put_u32_blob, put_u8, EncodeError};
use crate::refine::{promotion_policy_tools, PromotionPolicy, RefineError, ToolKind};
use crate::sort::{has_duplicate_key, lemma_canonical_order, strictly_sorted_by_key, Keyed};

verus! {

/// Decimal E8 scale used by the initial zUSD profile.
pub const E8: u128 = 100000000;

/// Basis-point scale used by the initial zUSD profile.
pub const BPS_SCALE: u128 = 10000;

/// Stored-value bound of every zUSD state field.
pub const MAX_AMOUNT_E8: u128 = 1_000_000_000_000_000_000_000_000_000_000;

/// Stable type identifier for the zUSD state value.
pub const ZUSD_STATE_TYPE_V1: u32 = 0x5a555301;

/// Stable type identifier for the zUSD command value.
pub const ZUSD_COMMAND_TYPE_V1: u32 = 0x5a554301;

/// Number of zUSD state fields.
pub const ZUSD_STATE_FIELD_COUNT: usize = 32;

/// ZenoDEX protocol lane.
#[derive(Clone, Copy, Debug, PartialEq, Eq, Structural, Hash, PartialOrd, Ord)]
pub enum ZenoDexLane {
    /// Spot balances, pools, liquidity, swaps, and nonces.
    Spot,
    /// zUSD debt, collateral, Stability Pool, and liquidation state.
    Zusd,
    /// Perpetual markets and positions.
    Perps,
    /// Oracle observation and finalization authority.
    Oracle,
    /// Governance and breaker state.
    Governance,
}

impl ZenoDexLane {
    /// The stable wire tag.
    pub open spec fn spec_tag(self) -> u8 {
        match self {
            ZenoDexLane::Spot => 0u8,
            ZenoDexLane::Zusd => 1u8,
            ZenoDexLane::Perps => 2u8,
            ZenoDexLane::Oracle => 3u8,
            ZenoDexLane::Governance => 4u8,
        }
    }

    /// Returns the stable wire tag.
    pub fn tag(self) -> (tag: u8)
        ensures
            tag == self.spec_tag(),
    {
        match self {
            ZenoDexLane::Spot => 0,
            ZenoDexLane::Zusd => 1,
            ZenoDexLane::Perps => 2,
            ZenoDexLane::Oracle => 3,
            ZenoDexLane::Governance => 4,
        }
    }
}

/// Stable zUSD state-field identifiers in canonical record order.
#[derive(Clone, Copy, Debug, PartialEq, Eq, Structural, Hash, PartialOrd, Ord)]
pub enum ZusdStateFieldV1 {
    /// Consensus-derived current epoch.
    NowEpoch,
    /// Whether a finalized Oracle observation exists.
    OracleSeen,
    /// Epoch of the finalized observation.
    OracleLastUpdateEpoch,
    /// Finalized price in E8.
    PriceE8,
    /// Pending price in E8.
    PricePendingE8,
    /// Maximum finalized-price staleness.
    MaxOracleStalenessEpochs,
    /// Vault collateral in E8.
    CollateralE8,
    /// Total zUSD debt in E8.
    DebtE8,
    /// Debt held outside the Stability Pool.
    FreeDebtE8,
    /// Debt held by the Stability Pool.
    StabilityPoolDebtE8,
    /// Stability Pool collateral in E8.
    StabilityPoolCollateralE8,
    /// Protocol-owned collateral in E8.
    ProtocolCollateralE8,
    /// Cumulative protocol zUSD revenue.
    ProtocolRevenueZusdCumulativeE8,
    /// Cumulative liquidator collateral compensation.
    LiquidatorCompensationCollateralCumulativeE8,
    /// Minimum collateral ratio in basis points.
    McrBps,
    /// Critical collateral ratio in basis points.
    CcrBps,
    /// Minimum open debt in E8.
    MinDebtOpenE8,
    /// Per-vault maximum debt in E8.
    MaxDebtE8,
    /// Global maximum debt supply in E8.
    MaxDebtSupplyE8,
    /// Maximum Stability Pool collateral in E8.
    MaxStabilityPoolCollateralE8,
    /// Maximum protocol collateral in E8.
    MaxProtocolCollateralE8,
    /// Current fee base rate in basis points.
    BaseRateBps,
    /// Last base-rate update epoch.
    BaseRateLastEpoch,
    /// Base-rate decay per epoch in basis points.
    BaseRateDecayPerEpochBps,
    /// Base-rate borrowing bump in basis points.
    BaseRateBorrowBumpBps,
    /// Base-rate redemption bump in basis points.
    BaseRateRedeemBumpBps,
    /// Borrow fee floor in basis points.
    BorrowFeeFloorBps,
    /// Borrow fee maximum in basis points.
    BorrowFeeMaxBps,
    /// Redemption fee floor in basis points.
    RedemptionFeeFloorBps,
    /// Redemption fee maximum in basis points.
    RedemptionFeeMaxBps,
    /// Fixed liquidation gas compensation in collateral E8.
    LiquidationGasCompensationFixedCollateralE8,
    /// Variable liquidation gas compensation in basis points.
    LiquidationGasCompensationBps,
}

impl ZusdStateFieldV1 {
    /// Canonical field count.
    pub const COUNT: usize = 32;

    /// The canonical position of the field.
    pub open spec fn spec_index(self) -> int {
        match self {
            ZusdStateFieldV1::NowEpoch => 0,
            ZusdStateFieldV1::OracleSeen => 1,
            ZusdStateFieldV1::OracleLastUpdateEpoch => 2,
            ZusdStateFieldV1::PriceE8 => 3,
            ZusdStateFieldV1::PricePendingE8 => 4,
            ZusdStateFieldV1::MaxOracleStalenessEpochs => 5,
            ZusdStateFieldV1::CollateralE8 => 6,
            ZusdStateFieldV1::DebtE8 => 7,
            ZusdStateFieldV1::FreeDebtE8 => 8,
            ZusdStateFieldV1::StabilityPoolDebtE8 => 9,
            ZusdStateFieldV1::StabilityPoolCollateralE8 => 10,
            ZusdStateFieldV1::ProtocolCollateralE8 => 11,
            ZusdStateFieldV1::ProtocolRevenueZusdCumulativeE8 => 12,
            ZusdStateFieldV1::LiquidatorCompensationCollateralCumulativeE8 => 13,
            ZusdStateFieldV1::McrBps => 14,
            ZusdStateFieldV1::CcrBps => 15,
            ZusdStateFieldV1::MinDebtOpenE8 => 16,
            ZusdStateFieldV1::MaxDebtE8 => 17,
            ZusdStateFieldV1::MaxDebtSupplyE8 => 18,
            ZusdStateFieldV1::MaxStabilityPoolCollateralE8 => 19,
            ZusdStateFieldV1::MaxProtocolCollateralE8 => 20,
            ZusdStateFieldV1::BaseRateBps => 21,
            ZusdStateFieldV1::BaseRateLastEpoch => 22,
            ZusdStateFieldV1::BaseRateDecayPerEpochBps => 23,
            ZusdStateFieldV1::BaseRateBorrowBumpBps => 24,
            ZusdStateFieldV1::BaseRateRedeemBumpBps => 25,
            ZusdStateFieldV1::BorrowFeeFloorBps => 26,
            ZusdStateFieldV1::BorrowFeeMaxBps => 27,
            ZusdStateFieldV1::RedemptionFeeFloorBps => 28,
            ZusdStateFieldV1::RedemptionFeeMaxBps => 29,
            ZusdStateFieldV1::LiquidationGasCompensationFixedCollateralE8 => 30,
            ZusdStateFieldV1::LiquidationGasCompensationBps => 31,
        }
    }

    /// Returns the canonical record identifier.
    pub fn id(self) -> (id: u16)
        ensures
            id == self.spec_index(),
    {
        match self {
            ZusdStateFieldV1::NowEpoch => 0,
            ZusdStateFieldV1::OracleSeen => 1,
            ZusdStateFieldV1::OracleLastUpdateEpoch => 2,
            ZusdStateFieldV1::PriceE8 => 3,
            ZusdStateFieldV1::PricePendingE8 => 4,
            ZusdStateFieldV1::MaxOracleStalenessEpochs => 5,
            ZusdStateFieldV1::CollateralE8 => 6,
            ZusdStateFieldV1::DebtE8 => 7,
            ZusdStateFieldV1::FreeDebtE8 => 8,
            ZusdStateFieldV1::StabilityPoolDebtE8 => 9,
            ZusdStateFieldV1::StabilityPoolCollateralE8 => 10,
            ZusdStateFieldV1::ProtocolCollateralE8 => 11,
            ZusdStateFieldV1::ProtocolRevenueZusdCumulativeE8 => 12,
            ZusdStateFieldV1::LiquidatorCompensationCollateralCumulativeE8 => 13,
            ZusdStateFieldV1::McrBps => 14,
            ZusdStateFieldV1::CcrBps => 15,
            ZusdStateFieldV1::MinDebtOpenE8 => 16,
            ZusdStateFieldV1::MaxDebtE8 => 17,
            ZusdStateFieldV1::MaxDebtSupplyE8 => 18,
            ZusdStateFieldV1::MaxStabilityPoolCollateralE8 => 19,
            ZusdStateFieldV1::MaxProtocolCollateralE8 => 20,
            ZusdStateFieldV1::BaseRateBps => 21,
            ZusdStateFieldV1::BaseRateLastEpoch => 22,
            ZusdStateFieldV1::BaseRateDecayPerEpochBps => 23,
            ZusdStateFieldV1::BaseRateBorrowBumpBps => 24,
            ZusdStateFieldV1::BaseRateRedeemBumpBps => 25,
            ZusdStateFieldV1::BorrowFeeFloorBps => 26,
            ZusdStateFieldV1::BorrowFeeMaxBps => 27,
            ZusdStateFieldV1::RedemptionFeeFloorBps => 28,
            ZusdStateFieldV1::RedemptionFeeMaxBps => 29,
            ZusdStateFieldV1::LiquidationGasCompensationFixedCollateralE8 => 30,
            ZusdStateFieldV1::LiquidationGasCompensationBps => 31,
        }
    }

    fn index(self) -> (index: usize)
        ensures
            index == self.spec_index(),
            index < 32,
    {
        self.id() as usize
    }
}

/// One named field of a raw zUSD state.
pub open spec fn zusd_field(fields: Seq<u128>, field: ZusdStateFieldV1) -> u128 {
    fields[field.spec_index()]
}

/// The hard invariants of a zUSD state, each stated on its own: every field
/// within the amount bound; no epoch in the future; a zero/one oracle flag;
/// a finalized price with a nonzero pending price not above it, or no
/// oracle data at all; debt split exactly into free and pool debt, within
/// the supply cap and either zero or at least the opening minimum; a nonzero
/// minimum collateral ratio not above the critical one; a per-vault cap
/// within the supply cap; rates and fees within 100% and floors within caps.
pub open spec fn zusd_hard_invariants(f: Seq<u128>) -> bool {
    let seen = zusd_field(f, ZusdStateFieldV1::OracleSeen);
    let now = zusd_field(f, ZusdStateFieldV1::NowEpoch);
    let price = zusd_field(f, ZusdStateFieldV1::PriceE8);
    let pending = zusd_field(f, ZusdStateFieldV1::PricePendingE8);
    let last = zusd_field(f, ZusdStateFieldV1::OracleLastUpdateEpoch);
    let debt = zusd_field(f, ZusdStateFieldV1::DebtE8);
    let supply = zusd_field(f, ZusdStateFieldV1::MaxDebtSupplyE8);
    &&& forall|i: int| 0 <= i < f.len() ==> #[trigger] f[i] <= MAX_AMOUNT_E8
    &&& last <= now
    &&& zusd_field(f, ZusdStateFieldV1::BaseRateLastEpoch) <= now
    &&& seen <= 1
    &&& seen == 1 ==> 0 < pending && pending <= price
    &&& seen == 0 ==> price == 0 && pending == 0 && last == 0
    &&& zusd_field(f, ZusdStateFieldV1::FreeDebtE8) + zusd_field(f, ZusdStateFieldV1::StabilityPoolDebtE8) == debt
    &&& debt <= supply
    &&& debt == 0 || debt >= zusd_field(f, ZusdStateFieldV1::MinDebtOpenE8)
    &&& 0 < zusd_field(f, ZusdStateFieldV1::McrBps)
    &&& zusd_field(f, ZusdStateFieldV1::McrBps) <= zusd_field(f, ZusdStateFieldV1::CcrBps)
    &&& zusd_field(f, ZusdStateFieldV1::MaxDebtE8) <= supply
    &&& zusd_field(f, ZusdStateFieldV1::BaseRateBps) <= BPS_SCALE
    &&& zusd_field(f, ZusdStateFieldV1::BaseRateDecayPerEpochBps) <= BPS_SCALE
    &&& zusd_field(f, ZusdStateFieldV1::BaseRateBorrowBumpBps) <= BPS_SCALE
    &&& zusd_field(f, ZusdStateFieldV1::BaseRateRedeemBumpBps) <= BPS_SCALE
    &&& zusd_field(f, ZusdStateFieldV1::BorrowFeeMaxBps) <= BPS_SCALE
    &&& zusd_field(f, ZusdStateFieldV1::RedemptionFeeMaxBps) <= BPS_SCALE
    &&& zusd_field(f, ZusdStateFieldV1::LiquidationGasCompensationBps) <= BPS_SCALE
    &&& zusd_field(f, ZusdStateFieldV1::BorrowFeeFloorBps) <= zusd_field(f, ZusdStateFieldV1::BorrowFeeMaxBps)
    &&& zusd_field(f, ZusdStateFieldV1::RedemptionFeeFloorBps) <= zusd_field(f, ZusdStateFieldV1::RedemptionFeeMaxBps)
}

/// A zUSD state is admitted exactly when it meets every hard invariant.
pub proof fn lemma_zusd_admission(f: Seq<u128>)
    ensures
        zusd_invariant_error(f) is None <==> zusd_hard_invariants(f),
{
}

/// A minimum collateral ratio above the critical one is refused, as a ratio
/// error unless an earlier representation or accounting check already
/// refused the state.
pub proof fn lemma_zusd_collateral_ratio_refused(f: Seq<u128>)
    requires
        zusd_field(f, ZusdStateFieldV1::McrBps) == 0 || zusd_field(f, ZusdStateFieldV1::McrBps) > zusd_field(
            f,
            ZusdStateFieldV1::CcrBps,
        ),
    ensures
        zusd_invariant_error(f) matches Some(e) && (e is CollateralRatios || e is AmountBound || e is FutureEpoch
            || e is OracleFlag || e is OracleShape || e is SupplyConservation || e is DebtCap || e is DebtFloor),
{
}

/// A refused zUSD state is refused for a reason it really has: each error
/// names an invariant the fields break.
pub proof fn lemma_zusd_error_names_violation(f: Seq<u128>)
    ensures
        zusd_invariant_error(f) == Some(ZusdStateError::AmountBound) ==> exists|i: int|
            0 <= i < f.len() && #[trigger] f[i] > MAX_AMOUNT_E8,
        zusd_invariant_error(f) == Some(ZusdStateError::FutureEpoch) ==> zusd_field(
            f,
            ZusdStateFieldV1::OracleLastUpdateEpoch,
        ) > zusd_field(f, ZusdStateFieldV1::NowEpoch) || zusd_field(f, ZusdStateFieldV1::BaseRateLastEpoch)
            > zusd_field(f, ZusdStateFieldV1::NowEpoch),
        zusd_invariant_error(f) == Some(ZusdStateError::OracleFlag) ==> zusd_field(f, ZusdStateFieldV1::OracleSeen) > 1,
        zusd_invariant_error(f) == Some(ZusdStateError::SupplyConservation) ==> zusd_field(
            f,
            ZusdStateFieldV1::FreeDebtE8,
        ) + zusd_field(f, ZusdStateFieldV1::StabilityPoolDebtE8) != zusd_field(f, ZusdStateFieldV1::DebtE8),
        zusd_invariant_error(f) == Some(ZusdStateError::DebtCap) ==> zusd_field(f, ZusdStateFieldV1::DebtE8)
            > zusd_field(f, ZusdStateFieldV1::MaxDebtSupplyE8),
        zusd_invariant_error(f) == Some(ZusdStateError::DebtFloor) ==> zusd_field(f, ZusdStateFieldV1::DebtE8) != 0
            && zusd_field(f, ZusdStateFieldV1::DebtE8) < zusd_field(f, ZusdStateFieldV1::MinDebtOpenE8),
        zusd_invariant_error(f) == Some(ZusdStateError::CollateralRatios) ==> zusd_field(f, ZusdStateFieldV1::McrBps)
            == 0 || zusd_field(f, ZusdStateFieldV1::McrBps) > zusd_field(f, ZusdStateFieldV1::CcrBps),
        zusd_invariant_error(f) == Some(ZusdStateError::DebtLimits) ==> zusd_field(f, ZusdStateFieldV1::MaxDebtE8)
            > zusd_field(f, ZusdStateFieldV1::MaxDebtSupplyE8),
        zusd_invariant_error(f) == Some(ZusdStateError::OracleShape) ==> {
            let seen = zusd_field(f, ZusdStateFieldV1::OracleSeen);
            let price = zusd_field(f, ZusdStateFieldV1::PriceE8);
            let pending = zusd_field(f, ZusdStateFieldV1::PricePendingE8);
            (seen == 1 && (pending == 0 || pending > price)) || (seen == 0 && (price != 0 || pending != 0
                || zusd_field(f, ZusdStateFieldV1::OracleLastUpdateEpoch) != 0))
        },
        zusd_invariant_error(f) == Some(ZusdStateError::FeeBounds) ==> zusd_field(f, ZusdStateFieldV1::BaseRateBps)
            > BPS_SCALE || zusd_field(f, ZusdStateFieldV1::BaseRateDecayPerEpochBps) > BPS_SCALE || zusd_field(
            f,
            ZusdStateFieldV1::BaseRateBorrowBumpBps,
        ) > BPS_SCALE || zusd_field(f, ZusdStateFieldV1::BaseRateRedeemBumpBps) > BPS_SCALE || zusd_field(
            f,
            ZusdStateFieldV1::BorrowFeeMaxBps,
        ) > BPS_SCALE || zusd_field(f, ZusdStateFieldV1::RedemptionFeeMaxBps) > BPS_SCALE || zusd_field(
            f,
            ZusdStateFieldV1::LiquidationGasCompensationBps,
        ) > BPS_SCALE || zusd_field(f, ZusdStateFieldV1::BorrowFeeFloorBps) > zusd_field(
            f,
            ZusdStateFieldV1::BorrowFeeMaxBps,
        ) || zusd_field(f, ZusdStateFieldV1::RedemptionFeeFloorBps) > zusd_field(
            f,
            ZusdStateFieldV1::RedemptionFeeMaxBps,
        ),
        zusd_invariant_error(f) is Some ==> !zusd_hard_invariants(f),
{
    lemma_zusd_admission(f);
}

/// Why raw zUSD state fields violate a hard representation or accounting
/// invariant, checked in this order, if they do.
pub open spec fn zusd_invariant_error(f: Seq<u128>) -> Option<ZusdStateError> {
    let seen = zusd_field(f, ZusdStateFieldV1::OracleSeen);
    let now = zusd_field(f, ZusdStateFieldV1::NowEpoch);
    let active = zusd_field(f, ZusdStateFieldV1::PriceE8);
    let pending = zusd_field(f, ZusdStateFieldV1::PricePendingE8);
    let last = zusd_field(f, ZusdStateFieldV1::OracleLastUpdateEpoch);
    let debt = zusd_field(f, ZusdStateFieldV1::DebtE8);
    let mcr = zusd_field(f, ZusdStateFieldV1::McrBps);
    if exists|i: int| 0 <= i < f.len() && #[trigger] f[i] > MAX_AMOUNT_E8 {
        Some(ZusdStateError::AmountBound)
    } else if last > now || zusd_field(f, ZusdStateFieldV1::BaseRateLastEpoch) > now {
        Some(ZusdStateError::FutureEpoch)
    } else if seen > 1 {
        Some(ZusdStateError::OracleFlag)
    } else if (seen == 1 && (active == 0 || pending == 0 || pending > active)) || (seen != 1 && (
    active != 0 || pending != 0 || last != 0)) {
        Some(ZusdStateError::OracleShape)
    } else if zusd_field(f, ZusdStateFieldV1::FreeDebtE8) + zusd_field(
        f,
        ZusdStateFieldV1::StabilityPoolDebtE8,
    ) != debt {
        Some(ZusdStateError::SupplyConservation)
    } else if debt > zusd_field(f, ZusdStateFieldV1::MaxDebtSupplyE8) {
        Some(ZusdStateError::DebtCap)
    } else if debt != 0 && debt < zusd_field(f, ZusdStateFieldV1::MinDebtOpenE8) {
        Some(ZusdStateError::DebtFloor)
    } else if mcr == 0 || mcr > zusd_field(f, ZusdStateFieldV1::CcrBps) {
        Some(ZusdStateError::CollateralRatios)
    } else if zusd_field(f, ZusdStateFieldV1::MaxDebtE8) > zusd_field(
        f,
        ZusdStateFieldV1::MaxDebtSupplyE8,
    ) {
        Some(ZusdStateError::DebtLimits)
    } else if zusd_field(f, ZusdStateFieldV1::BaseRateBps) > BPS_SCALE || zusd_field(
        f,
        ZusdStateFieldV1::BaseRateDecayPerEpochBps,
    ) > BPS_SCALE || zusd_field(f, ZusdStateFieldV1::BaseRateBorrowBumpBps) > BPS_SCALE
        || zusd_field(f, ZusdStateFieldV1::BaseRateRedeemBumpBps) > BPS_SCALE || zusd_field(
        f,
        ZusdStateFieldV1::BorrowFeeMaxBps,
    ) > BPS_SCALE || zusd_field(f, ZusdStateFieldV1::RedemptionFeeMaxBps) > BPS_SCALE
        || zusd_field(f, ZusdStateFieldV1::LiquidationGasCompensationBps) > BPS_SCALE
        || zusd_field(f, ZusdStateFieldV1::BorrowFeeFloorBps) > zusd_field(
        f,
        ZusdStateFieldV1::BorrowFeeMaxBps,
    ) || zusd_field(f, ZusdStateFieldV1::RedemptionFeeFloorBps) > zusd_field(
        f,
        ZusdStateFieldV1::RedemptionFeeMaxBps,
    ) {
        Some(ZusdStateError::FeeBounds)
    } else {
        None
    }
}

/// Checks the hard invariants on raw fields.
fn check_zusd_fields(fields: &[u128; 32]) -> (result: Result<(), ZusdStateError>)
    ensures
        match zusd_invariant_error(fields@) {
            Some(e) => result == Err::<(), ZusdStateError>(e),
            None => result is Ok,
        },
{
    let mut index: usize = 0;
    while index < 32
        invariant
            index <= 32,
            fields@.len() == 32,
            forall|i: int| 0 <= i < index ==> #[trigger] fields@[i] <= MAX_AMOUNT_E8,
        decreases 32 - index,
    {
        if fields[index] > MAX_AMOUNT_E8 {
            assert(fields@[index as int] > MAX_AMOUNT_E8);
            return Err(ZusdStateError::AmountBound);
        }
        index = index + 1;
    }
    let field = |which: ZusdStateFieldV1| -> (value: u128)
        ensures
            value == zusd_field(fields@, which),
        { fields[which.index()] };
    let now = field(ZusdStateFieldV1::NowEpoch);
    if field(ZusdStateFieldV1::OracleLastUpdateEpoch) > now || field(ZusdStateFieldV1::BaseRateLastEpoch) > now {
        return Err(ZusdStateError::FutureEpoch);
    }
    let seen = field(ZusdStateFieldV1::OracleSeen);
    if seen > 1 {
        return Err(ZusdStateError::OracleFlag);
    }
    let active = field(ZusdStateFieldV1::PriceE8);
    let pending = field(ZusdStateFieldV1::PricePendingE8);
    let last = field(ZusdStateFieldV1::OracleLastUpdateEpoch);
    if seen == 1 {
        if active == 0 || pending == 0 || pending > active {
            return Err(ZusdStateError::OracleShape);
        }
    } else if active != 0 || pending != 0 || last != 0 {
        return Err(ZusdStateError::OracleShape);
    }
    let free = field(ZusdStateFieldV1::FreeDebtE8);
    let stability = field(ZusdStateFieldV1::StabilityPoolDebtE8);
    let debt = field(ZusdStateFieldV1::DebtE8);
    match free.checked_add(stability) {
        Some(total) => {
            if total != debt {
                return Err(ZusdStateError::SupplyConservation);
            }
        },
        None => {
            return Err(ZusdStateError::SupplyConservation);
        },
    }
    if debt > field(ZusdStateFieldV1::MaxDebtSupplyE8) {
        return Err(ZusdStateError::DebtCap);
    }
    let minimum = field(ZusdStateFieldV1::MinDebtOpenE8);
    if debt != 0 && debt < minimum {
        return Err(ZusdStateError::DebtFloor);
    }
    let mcr = field(ZusdStateFieldV1::McrBps);
    let ccr = field(ZusdStateFieldV1::CcrBps);
    if mcr == 0 || mcr > ccr {
        return Err(ZusdStateError::CollateralRatios);
    }
    if field(ZusdStateFieldV1::MaxDebtE8) > field(ZusdStateFieldV1::MaxDebtSupplyE8) {
        return Err(ZusdStateError::DebtLimits);
    }
    let base = field(ZusdStateFieldV1::BaseRateBps);
    let decay = field(ZusdStateFieldV1::BaseRateDecayPerEpochBps);
    let borrow_bump = field(ZusdStateFieldV1::BaseRateBorrowBumpBps);
    let redeem_bump = field(ZusdStateFieldV1::BaseRateRedeemBumpBps);
    let borrow_floor = field(ZusdStateFieldV1::BorrowFeeFloorBps);
    let borrow_max = field(ZusdStateFieldV1::BorrowFeeMaxBps);
    let redeem_floor = field(ZusdStateFieldV1::RedemptionFeeFloorBps);
    let redeem_max = field(ZusdStateFieldV1::RedemptionFeeMaxBps);
    let liquidation_bps = field(ZusdStateFieldV1::LiquidationGasCompensationBps);
    if base > BPS_SCALE || decay > BPS_SCALE || borrow_bump > BPS_SCALE || redeem_bump > BPS_SCALE
        || borrow_max > BPS_SCALE || redeem_max > BPS_SCALE || liquidation_bps > BPS_SCALE
        || borrow_floor > borrow_max || redeem_floor > redeem_max {
        return Err(ZusdStateError::FeeBounds);
    }
    Ok(())
}

/// Closed single-vault zUSD state.
#[derive(Debug, PartialEq, Eq)]
pub struct ZusdStateV1 {
    fields: [u128; 32],
}

impl ZusdStateV1 {
    /// Every state satisfies the hard invariants.
    #[verifier::type_invariant]
    spec fn valid(self) -> bool {
        zusd_invariant_error(self.fields@) is None
    }

    /// The raw fields in canonical order.
    pub closed spec fn spec_fields(self) -> Seq<u128> {
        self.fields@
    }

    /// Constructs and checks the hard representation/accounting invariants.
    pub fn try_from_fields(fields: [u128; 32]) -> (state: Result<Self, ZusdStateError>)
        ensures
            match zusd_invariant_error(fields@) {
                Some(e) => state == Err::<Self, ZusdStateError>(e),
                None => state matches Ok(s) && s.spec_fields() == fields@,
            },
            state is Ok <==> zusd_hard_invariants(fields@),
            state is Ok ==> 0 < fields@[ZusdStateFieldV1::McrBps.spec_index()] <= fields@[ZusdStateFieldV1::CcrBps.spec_index()],
    {
        proof {
            lemma_zusd_admission(fields@);
        }
        check_zusd_fields(&fields)?;
        Ok(ZusdStateV1 { fields })
    }

    /// Returns one raw field value; `OracleSeen` is returned as zero or one.
    pub fn field(&self, field: ZusdStateFieldV1) -> (value: u128)
        ensures
            value == zusd_field(self.spec_fields(), field),
    {
        self.fields[field.index()]
    }

    /// Returns whether finalized Oracle authority exists.
    pub fn oracle_seen(&self) -> (seen: bool)
        ensures
            seen == (zusd_field(self.spec_fields(), ZusdStateFieldV1::OracleSeen) == 1),
    {
        self.field(ZusdStateFieldV1::OracleSeen) == 1
    }

    /// Rechecks all hard representation and accounting invariants.
    pub fn validate_hard_invariants(&self) -> (result: Result<(), ZusdStateError>)
        ensures
            result is Ok,
            zusd_invariant_error(self.spec_fields()) is None,
            zusd_hard_invariants(self.spec_fields()),
    {
        proof {
            lemma_zusd_admission(self.spec_fields());
        }
        proof {
            use_type_invariant(self);
        }
        check_zusd_fields(&self.fields)
    }
}

impl Clone for ZusdStateV1 {
    fn clone(&self) -> (copy: Self)
        ensures
            copy.spec_fields() == self.spec_fields(),
    {
        proof {
            use_type_invariant(self);
        }
        ZusdStateV1 { fields: self.fields }
    }
}

/// Current zUSD command tags, including the legacy caller-driven epoch test command.
#[derive(Clone, Copy, Debug, PartialEq, Eq, Structural, Hash, PartialOrd, Ord)]
pub enum ZusdCommandTagV1 {
    /// Legacy test/migration command; not production authority.
    AdvanceEpochLegacy,
    /// Bootstrap finalized Oracle authority.
    BootstrapOracle,
    /// Submit a pending Oracle observation.
    OracleReport,
    /// Finalize a pending Oracle observation.
    OracleCommit,
    /// Deposit vault collateral.
    DepositCollateral,
    /// Withdraw vault collateral.
    WithdrawCollateral,
    /// Mint zUSD debt.
    MintZusd,
    /// Repay zUSD debt.
    RepayZusd,
    /// Move free debt into the Stability Pool.
    DepositStabilityPool,
    /// Withdraw Stability Pool debt.
    WithdrawStabilityPool,
    /// Redeem zUSD for collateral.
    RedeemZusd,
    /// Liquidate an unsafe vault.
    Liquidate,
}

impl ZusdCommandTagV1 {
    /// Returns whether the command is admitted as production protocol authority.
    pub fn is_protocol_authority(self) -> (authority: bool)
        ensures
            authority == (self != ZusdCommandTagV1::AdvanceEpochLegacy),
    {
        match self {
            ZusdCommandTagV1::AdvanceEpochLegacy => false,
            _ => true,
        }
    }
}

/// Stable exhaustive rejection registry of the zUSD kernel.
#[derive(Clone, Copy, Debug, PartialEq, Eq, Structural, Hash, PartialOrd, Ord)]
pub enum ZusdRejectV1 {
    /// Required positive integer is absent, zero, negative, or malformed.
    NotPositiveInt,
    /// Stored or computed value exceeds a declared bound.
    BoundedCheckFailed,
    /// Pre-state or successor violates a hard invariant.
    InvariantViolation,
    /// Command tag is unknown.
    UnknownAction,
    /// Oracle bootstrap was attempted after initialization.
    OracleAlreadyBootstrapped,
    /// Oracle bootstrap lacks authority.
    BootstrapRequiresAuth,
    /// Operation requires bootstrapped Oracle state.
    OracleNotBootstrapped,
    /// Oracle report lacks authority.
    ReportRequiresAuth,
    /// Report violates the current non-increasing profile.
    ReportPriceNotNonIncreasing,
    /// Oracle commit lacks authority.
    CommitRequiresAuth,
    /// Pending observation is stale at commit.
    CommitStaleOracle,
    /// Vault lacks requested collateral.
    InsufficientCollateral,
    /// Withdrawal is blocked by Oracle/recovery state.
    WithdrawBlockedOracle,
    /// Withdrawal violates MCR.
    WithdrawViolatesMcr,
    /// Mint is blocked by Oracle/recovery state.
    MintBlockedOracle,
    /// Mint leaves nonzero debt below the floor.
    MintBelowMinDebt,
    /// Mint exceeds per-vault debt maximum.
    MintExceedsMaxDebt,
    /// Mint exceeds authoritative total supply cap.
    MintExceedsMaxSupply,
    /// Mint violates MCR.
    MintViolatesMcr,
    /// Repayment exceeds total debt.
    RepayExceedsDebt,
    /// Repayment exceeds free debt.
    RepayExceedsFreeDebt,
    /// Repayment leaves nonzero debt below the floor.
    RepayBelowMinDebt,
    /// Stability Pool deposit exceeds free debt.
    DepositSpExceedsFreeDebt,
    /// Stability Pool deposit exceeds supply policy.
    DepositSpExceedsMaxSupply,
    /// Stability Pool withdrawal exceeds pool debt.
    WithdrawSpExceedsSpDebt,
    /// Stability Pool withdrawal is blocked by Oracle/recovery state.
    WithdrawSpBlockedOracle,
    /// Stability Pool withdrawal violates MCR.
    WithdrawSpBelowMcr,
    /// Redemption lacks initialized finalized Oracle authority.
    RedeemOracleUninitialized,
    /// Redemption sees pending/finalized Oracle mismatch.
    RedeemPendingMismatch,
    /// Redemption sees stale finalized Oracle authority.
    RedeemStaleOracle,
    /// Redemption exceeds total debt.
    RedeemExceedsDebt,
    /// Redemption exceeds free debt.
    RedeemExceedsFreeDebt,
    /// Redemption amount is below its exact minimum.
    RedeemAmountTooSmall,
    /// Redemption lacks sufficient collateral.
    RedeemInsufficientCollateral,
    /// Redemption fee consumes the entire output.
    RedeemFeeConsumesAll,
    /// Redemption exceeds protocol collateral capacity.
    RedeemProtocolCapExceeded,
    /// Redemption leaves nonzero debt below the floor.
    RedeemBelowMinDebt,
    /// Redemption successor violates MCR.
    RedeemViolatesMcr,
    /// Liquidation lacks initialized finalized Oracle authority.
    LiquidateOracleUninitialized,
    /// Liquidation sees pending/finalized Oracle mismatch.
    LiquidatePendingMismatch,
    /// Liquidation sees stale finalized Oracle authority.
    LiquidateStaleOracle,
    /// Liquidation target has no debt.
    LiquidateNoDebt,
    /// Liquidation target is not below MCR.
    LiquidateNotUnderMcr,
    /// Stability Pool cannot absorb liquidation debt.
    LiquidateSpCannotAbsorb,
    /// Liquidation exceeds Stability Pool collateral capacity.
    LiquidateSpCapExceeded,
}

impl ZusdRejectV1 {
    /// Complete registry in exact precedence order.
    pub const ALL: [ZusdRejectV1; 45] = [
        ZusdRejectV1::NotPositiveInt,
        ZusdRejectV1::BoundedCheckFailed,
        ZusdRejectV1::InvariantViolation,
        ZusdRejectV1::UnknownAction,
        ZusdRejectV1::OracleAlreadyBootstrapped,
        ZusdRejectV1::BootstrapRequiresAuth,
        ZusdRejectV1::OracleNotBootstrapped,
        ZusdRejectV1::ReportRequiresAuth,
        ZusdRejectV1::ReportPriceNotNonIncreasing,
        ZusdRejectV1::CommitRequiresAuth,
        ZusdRejectV1::CommitStaleOracle,
        ZusdRejectV1::InsufficientCollateral,
        ZusdRejectV1::WithdrawBlockedOracle,
        ZusdRejectV1::WithdrawViolatesMcr,
        ZusdRejectV1::MintBlockedOracle,
        ZusdRejectV1::MintBelowMinDebt,
        ZusdRejectV1::MintExceedsMaxDebt,
        ZusdRejectV1::MintExceedsMaxSupply,
        ZusdRejectV1::MintViolatesMcr,
        ZusdRejectV1::RepayExceedsDebt,
        ZusdRejectV1::RepayExceedsFreeDebt,
        ZusdRejectV1::RepayBelowMinDebt,
        ZusdRejectV1::DepositSpExceedsFreeDebt,
        ZusdRejectV1::DepositSpExceedsMaxSupply,
        ZusdRejectV1::WithdrawSpExceedsSpDebt,
        ZusdRejectV1::WithdrawSpBlockedOracle,
        ZusdRejectV1::WithdrawSpBelowMcr,
        ZusdRejectV1::RedeemOracleUninitialized,
        ZusdRejectV1::RedeemPendingMismatch,
        ZusdRejectV1::RedeemStaleOracle,
        ZusdRejectV1::RedeemExceedsDebt,
        ZusdRejectV1::RedeemExceedsFreeDebt,
        ZusdRejectV1::RedeemAmountTooSmall,
        ZusdRejectV1::RedeemInsufficientCollateral,
        ZusdRejectV1::RedeemFeeConsumesAll,
        ZusdRejectV1::RedeemProtocolCapExceeded,
        ZusdRejectV1::RedeemBelowMinDebt,
        ZusdRejectV1::RedeemViolatesMcr,
        ZusdRejectV1::LiquidateOracleUninitialized,
        ZusdRejectV1::LiquidatePendingMismatch,
        ZusdRejectV1::LiquidateStaleOracle,
        ZusdRejectV1::LiquidateNoDebt,
        ZusdRejectV1::LiquidateNotUnderMcr,
        ZusdRejectV1::LiquidateSpCannotAbsorb,
        ZusdRejectV1::LiquidateSpCapExceeded,
    ];

    /// The stable precedence rank.
    pub open spec fn spec_precedence(self) -> u16 {
        match self {
            ZusdRejectV1::NotPositiveInt => 0u16,
            ZusdRejectV1::BoundedCheckFailed => 1u16,
            ZusdRejectV1::InvariantViolation => 2u16,
            ZusdRejectV1::UnknownAction => 3u16,
            ZusdRejectV1::OracleAlreadyBootstrapped => 4u16,
            ZusdRejectV1::BootstrapRequiresAuth => 5u16,
            ZusdRejectV1::OracleNotBootstrapped => 6u16,
            ZusdRejectV1::ReportRequiresAuth => 7u16,
            ZusdRejectV1::ReportPriceNotNonIncreasing => 8u16,
            ZusdRejectV1::CommitRequiresAuth => 9u16,
            ZusdRejectV1::CommitStaleOracle => 10u16,
            ZusdRejectV1::InsufficientCollateral => 11u16,
            ZusdRejectV1::WithdrawBlockedOracle => 12u16,
            ZusdRejectV1::WithdrawViolatesMcr => 13u16,
            ZusdRejectV1::MintBlockedOracle => 14u16,
            ZusdRejectV1::MintBelowMinDebt => 15u16,
            ZusdRejectV1::MintExceedsMaxDebt => 16u16,
            ZusdRejectV1::MintExceedsMaxSupply => 17u16,
            ZusdRejectV1::MintViolatesMcr => 18u16,
            ZusdRejectV1::RepayExceedsDebt => 19u16,
            ZusdRejectV1::RepayExceedsFreeDebt => 20u16,
            ZusdRejectV1::RepayBelowMinDebt => 21u16,
            ZusdRejectV1::DepositSpExceedsFreeDebt => 22u16,
            ZusdRejectV1::DepositSpExceedsMaxSupply => 23u16,
            ZusdRejectV1::WithdrawSpExceedsSpDebt => 24u16,
            ZusdRejectV1::WithdrawSpBlockedOracle => 25u16,
            ZusdRejectV1::WithdrawSpBelowMcr => 26u16,
            ZusdRejectV1::RedeemOracleUninitialized => 27u16,
            ZusdRejectV1::RedeemPendingMismatch => 28u16,
            ZusdRejectV1::RedeemStaleOracle => 29u16,
            ZusdRejectV1::RedeemExceedsDebt => 30u16,
            ZusdRejectV1::RedeemExceedsFreeDebt => 31u16,
            ZusdRejectV1::RedeemAmountTooSmall => 32u16,
            ZusdRejectV1::RedeemInsufficientCollateral => 33u16,
            ZusdRejectV1::RedeemFeeConsumesAll => 34u16,
            ZusdRejectV1::RedeemProtocolCapExceeded => 35u16,
            ZusdRejectV1::RedeemBelowMinDebt => 36u16,
            ZusdRejectV1::RedeemViolatesMcr => 37u16,
            ZusdRejectV1::LiquidateOracleUninitialized => 38u16,
            ZusdRejectV1::LiquidatePendingMismatch => 39u16,
            ZusdRejectV1::LiquidateStaleOracle => 40u16,
            ZusdRejectV1::LiquidateNoDebt => 41u16,
            ZusdRejectV1::LiquidateNotUnderMcr => 42u16,
            ZusdRejectV1::LiquidateSpCannotAbsorb => 43u16,
            ZusdRejectV1::LiquidateSpCapExceeded => 44u16,
        }
    }

    /// The stable reason code.
    pub open spec fn spec_code(self) -> Seq<char> {
        match self {
            ZusdRejectV1::NotPositiveInt => "not_positive_int"@,
            ZusdRejectV1::BoundedCheckFailed => "bounded_check_failed"@,
            ZusdRejectV1::InvariantViolation => "invariant_violation"@,
            ZusdRejectV1::UnknownAction => "unknown_action"@,
            ZusdRejectV1::OracleAlreadyBootstrapped => "oracle_already_bootstrapped"@,
            ZusdRejectV1::BootstrapRequiresAuth => "bootstrap_requires_auth"@,
            ZusdRejectV1::OracleNotBootstrapped => "oracle_not_bootstrapped"@,
            ZusdRejectV1::ReportRequiresAuth => "report_requires_auth"@,
            ZusdRejectV1::ReportPriceNotNonIncreasing => "report_price_not_non_increasing"@,
            ZusdRejectV1::CommitRequiresAuth => "commit_requires_auth"@,
            ZusdRejectV1::CommitStaleOracle => "commit_stale_oracle"@,
            ZusdRejectV1::InsufficientCollateral => "insufficient_collateral"@,
            ZusdRejectV1::WithdrawBlockedOracle => "withdraw_blocked_oracle"@,
            ZusdRejectV1::WithdrawViolatesMcr => "withdraw_violates_mcr"@,
            ZusdRejectV1::MintBlockedOracle => "mint_blocked_oracle"@,
            ZusdRejectV1::MintBelowMinDebt => "mint_below_min_debt"@,
            ZusdRejectV1::MintExceedsMaxDebt => "mint_exceeds_max_debt"@,
            ZusdRejectV1::MintExceedsMaxSupply => "mint_exceeds_max_supply"@,
            ZusdRejectV1::MintViolatesMcr => "mint_violates_mcr"@,
            ZusdRejectV1::RepayExceedsDebt => "repay_exceeds_debt"@,
            ZusdRejectV1::RepayExceedsFreeDebt => "repay_exceeds_free_debt"@,
            ZusdRejectV1::RepayBelowMinDebt => "repay_below_min_debt"@,
            ZusdRejectV1::DepositSpExceedsFreeDebt => "deposit_sp_exceeds_free_debt"@,
            ZusdRejectV1::DepositSpExceedsMaxSupply => "deposit_sp_exceeds_max_supply"@,
            ZusdRejectV1::WithdrawSpExceedsSpDebt => "withdraw_sp_exceeds_sp_debt"@,
            ZusdRejectV1::WithdrawSpBlockedOracle => "withdraw_sp_blocked_oracle"@,
            ZusdRejectV1::WithdrawSpBelowMcr => "withdraw_sp_below_mcr"@,
            ZusdRejectV1::RedeemOracleUninitialized => "redeem_oracle_uninitialized"@,
            ZusdRejectV1::RedeemPendingMismatch => "redeem_pending_mismatch"@,
            ZusdRejectV1::RedeemStaleOracle => "redeem_stale_oracle"@,
            ZusdRejectV1::RedeemExceedsDebt => "redeem_exceeds_debt"@,
            ZusdRejectV1::RedeemExceedsFreeDebt => "redeem_exceeds_free_debt"@,
            ZusdRejectV1::RedeemAmountTooSmall => "redeem_amount_too_small"@,
            ZusdRejectV1::RedeemInsufficientCollateral => "redeem_insufficient_collateral"@,
            ZusdRejectV1::RedeemFeeConsumesAll => "redeem_fee_consumes_all"@,
            ZusdRejectV1::RedeemProtocolCapExceeded => "redeem_protocol_cap_exceeded"@,
            ZusdRejectV1::RedeemBelowMinDebt => "redeem_below_min_debt"@,
            ZusdRejectV1::RedeemViolatesMcr => "redeem_violates_mcr"@,
            ZusdRejectV1::LiquidateOracleUninitialized => "liquidate_oracle_uninitialized"@,
            ZusdRejectV1::LiquidatePendingMismatch => "liquidate_pending_mismatch"@,
            ZusdRejectV1::LiquidateStaleOracle => "liquidate_stale_oracle"@,
            ZusdRejectV1::LiquidateNoDebt => "liquidate_no_debt"@,
            ZusdRejectV1::LiquidateNotUnderMcr => "liquidate_not_under_mcr"@,
            ZusdRejectV1::LiquidateSpCannotAbsorb => "liquidate_sp_cannot_absorb"@,
            ZusdRejectV1::LiquidateSpCapExceeded => "liquidate_sp_cap_exceeded"@,
        }
    }

    /// Returns the stable precedence rank; lower ranks take precedence.
    pub fn precedence(&self) -> (rank: u16)
        ensures
            rank == self.spec_precedence(),
    {
        match self {
            ZusdRejectV1::NotPositiveInt => 0,
            ZusdRejectV1::BoundedCheckFailed => 1,
            ZusdRejectV1::InvariantViolation => 2,
            ZusdRejectV1::UnknownAction => 3,
            ZusdRejectV1::OracleAlreadyBootstrapped => 4,
            ZusdRejectV1::BootstrapRequiresAuth => 5,
            ZusdRejectV1::OracleNotBootstrapped => 6,
            ZusdRejectV1::ReportRequiresAuth => 7,
            ZusdRejectV1::ReportPriceNotNonIncreasing => 8,
            ZusdRejectV1::CommitRequiresAuth => 9,
            ZusdRejectV1::CommitStaleOracle => 10,
            ZusdRejectV1::InsufficientCollateral => 11,
            ZusdRejectV1::WithdrawBlockedOracle => 12,
            ZusdRejectV1::WithdrawViolatesMcr => 13,
            ZusdRejectV1::MintBlockedOracle => 14,
            ZusdRejectV1::MintBelowMinDebt => 15,
            ZusdRejectV1::MintExceedsMaxDebt => 16,
            ZusdRejectV1::MintExceedsMaxSupply => 17,
            ZusdRejectV1::MintViolatesMcr => 18,
            ZusdRejectV1::RepayExceedsDebt => 19,
            ZusdRejectV1::RepayExceedsFreeDebt => 20,
            ZusdRejectV1::RepayBelowMinDebt => 21,
            ZusdRejectV1::DepositSpExceedsFreeDebt => 22,
            ZusdRejectV1::DepositSpExceedsMaxSupply => 23,
            ZusdRejectV1::WithdrawSpExceedsSpDebt => 24,
            ZusdRejectV1::WithdrawSpBlockedOracle => 25,
            ZusdRejectV1::WithdrawSpBelowMcr => 26,
            ZusdRejectV1::RedeemOracleUninitialized => 27,
            ZusdRejectV1::RedeemPendingMismatch => 28,
            ZusdRejectV1::RedeemStaleOracle => 29,
            ZusdRejectV1::RedeemExceedsDebt => 30,
            ZusdRejectV1::RedeemExceedsFreeDebt => 31,
            ZusdRejectV1::RedeemAmountTooSmall => 32,
            ZusdRejectV1::RedeemInsufficientCollateral => 33,
            ZusdRejectV1::RedeemFeeConsumesAll => 34,
            ZusdRejectV1::RedeemProtocolCapExceeded => 35,
            ZusdRejectV1::RedeemBelowMinDebt => 36,
            ZusdRejectV1::RedeemViolatesMcr => 37,
            ZusdRejectV1::LiquidateOracleUninitialized => 38,
            ZusdRejectV1::LiquidatePendingMismatch => 39,
            ZusdRejectV1::LiquidateStaleOracle => 40,
            ZusdRejectV1::LiquidateNoDebt => 41,
            ZusdRejectV1::LiquidateNotUnderMcr => 42,
            ZusdRejectV1::LiquidateSpCannotAbsorb => 43,
            ZusdRejectV1::LiquidateSpCapExceeded => 44,
        }
    }

    /// Returns the stable reason code.
    pub fn code(&self) -> (code: &'static str)
        ensures
            code@ == self.spec_code(),
    {
        match self {
            ZusdRejectV1::NotPositiveInt => "not_positive_int",
            ZusdRejectV1::BoundedCheckFailed => "bounded_check_failed",
            ZusdRejectV1::InvariantViolation => "invariant_violation",
            ZusdRejectV1::UnknownAction => "unknown_action",
            ZusdRejectV1::OracleAlreadyBootstrapped => "oracle_already_bootstrapped",
            ZusdRejectV1::BootstrapRequiresAuth => "bootstrap_requires_auth",
            ZusdRejectV1::OracleNotBootstrapped => "oracle_not_bootstrapped",
            ZusdRejectV1::ReportRequiresAuth => "report_requires_auth",
            ZusdRejectV1::ReportPriceNotNonIncreasing => "report_price_not_non_increasing",
            ZusdRejectV1::CommitRequiresAuth => "commit_requires_auth",
            ZusdRejectV1::CommitStaleOracle => "commit_stale_oracle",
            ZusdRejectV1::InsufficientCollateral => "insufficient_collateral",
            ZusdRejectV1::WithdrawBlockedOracle => "withdraw_blocked_oracle",
            ZusdRejectV1::WithdrawViolatesMcr => "withdraw_violates_mcr",
            ZusdRejectV1::MintBlockedOracle => "mint_blocked_oracle",
            ZusdRejectV1::MintBelowMinDebt => "mint_below_min_debt",
            ZusdRejectV1::MintExceedsMaxDebt => "mint_exceeds_max_debt",
            ZusdRejectV1::MintExceedsMaxSupply => "mint_exceeds_max_supply",
            ZusdRejectV1::MintViolatesMcr => "mint_violates_mcr",
            ZusdRejectV1::RepayExceedsDebt => "repay_exceeds_debt",
            ZusdRejectV1::RepayExceedsFreeDebt => "repay_exceeds_free_debt",
            ZusdRejectV1::RepayBelowMinDebt => "repay_below_min_debt",
            ZusdRejectV1::DepositSpExceedsFreeDebt => "deposit_sp_exceeds_free_debt",
            ZusdRejectV1::DepositSpExceedsMaxSupply => "deposit_sp_exceeds_max_supply",
            ZusdRejectV1::WithdrawSpExceedsSpDebt => "withdraw_sp_exceeds_sp_debt",
            ZusdRejectV1::WithdrawSpBlockedOracle => "withdraw_sp_blocked_oracle",
            ZusdRejectV1::WithdrawSpBelowMcr => "withdraw_sp_below_mcr",
            ZusdRejectV1::RedeemOracleUninitialized => "redeem_oracle_uninitialized",
            ZusdRejectV1::RedeemPendingMismatch => "redeem_pending_mismatch",
            ZusdRejectV1::RedeemStaleOracle => "redeem_stale_oracle",
            ZusdRejectV1::RedeemExceedsDebt => "redeem_exceeds_debt",
            ZusdRejectV1::RedeemExceedsFreeDebt => "redeem_exceeds_free_debt",
            ZusdRejectV1::RedeemAmountTooSmall => "redeem_amount_too_small",
            ZusdRejectV1::RedeemInsufficientCollateral => "redeem_insufficient_collateral",
            ZusdRejectV1::RedeemFeeConsumesAll => "redeem_fee_consumes_all",
            ZusdRejectV1::RedeemProtocolCapExceeded => "redeem_protocol_cap_exceeded",
            ZusdRejectV1::RedeemBelowMinDebt => "redeem_below_min_debt",
            ZusdRejectV1::RedeemViolatesMcr => "redeem_violates_mcr",
            ZusdRejectV1::LiquidateOracleUninitialized => "liquidate_oracle_uninitialized",
            ZusdRejectV1::LiquidatePendingMismatch => "liquidate_pending_mismatch",
            ZusdRejectV1::LiquidateStaleOracle => "liquidate_stale_oracle",
            ZusdRejectV1::LiquidateNoDebt => "liquidate_no_debt",
            ZusdRejectV1::LiquidateNotUnderMcr => "liquidate_not_under_mcr",
            ZusdRejectV1::LiquidateSpCannotAbsorb => "liquidate_sp_cannot_absorb",
            ZusdRejectV1::LiquidateSpCapExceeded => "liquidate_sp_cap_exceeded",
        }
    }

    /// Distinct reasons have distinct precedence ranks.
    pub proof fn lemma_precedence_injective(self, other: Self)
        requires
            self.spec_precedence() == other.spec_precedence(),
        ensures
            self == other,
    {
    }
}

/// Hard zUSD state-shape failure.
#[derive(Clone, Copy, Debug, PartialEq, Eq, Structural)]
pub enum ZusdStateError {
    /// Reference value is not a record.
    WrongValueKind,
    /// Record does not contain exactly 32 fields.
    WrongFieldCount,
    /// Field identifiers do not equal their canonical positions.
    WrongFieldOrder,
    /// A field has the wrong machine value kind.
    WrongFieldKind,
    /// One stored field exceeds the profile bound.
    AmountBound,
    /// Oracle flag is not zero or one.
    OracleFlag,
    /// State contains future authority timestamps.
    FutureEpoch,
    /// Oracle fields are inconsistent with initialization state.
    OracleShape,
    /// Free plus Stability Pool debt does not equal total debt.
    SupplyConservation,
    /// Total debt exceeds global supply policy.
    DebtCap,
    /// Nonzero debt is below the opening floor.
    DebtFloor,
    /// MCR/CCR ordering is invalid.
    CollateralRatios,
    /// Per-vault and global debt limits are inconsistent.
    DebtLimits,
    /// Fee parameters exceed basis-point or floor/maximum constraints.
    FeeBounds,
    /// Checked conversion or arithmetic failed.
    ArithmeticOverflow,
}

impl ZusdStateError {
    /// Returns the human-readable description.
    pub fn message(&self) -> (text: &'static str)
        ensures
            text == (match *self {
                ZusdStateError::WrongValueKind => "zUSD state is not a record",
                ZusdStateError::WrongFieldCount => "zUSD state has the wrong field count",
                ZusdStateError::WrongFieldOrder => "zUSD state fields are not in canonical order",
                ZusdStateError::WrongFieldKind => "zUSD state field has the wrong value kind",
                ZusdStateError::AmountBound => "zUSD state field exceeds the stored-value bound",
                ZusdStateError::OracleFlag => "zUSD Oracle flag is not zero or one",
                ZusdStateError::FutureEpoch => "zUSD authority timestamp is in the future",
                ZusdStateError::OracleShape => "zUSD Oracle state is structurally inconsistent",
                ZusdStateError::SupplyConservation => "free plus Stability Pool debt does not equal total debt",
                ZusdStateError::DebtCap => "zUSD total debt exceeds global supply cap",
                ZusdStateError::DebtFloor => "zUSD nonzero debt is below the floor",
                ZusdStateError::CollateralRatios => "zUSD collateral ratios are invalid",
                ZusdStateError::DebtLimits => "zUSD debt limits are inconsistent",
                ZusdStateError::FeeBounds => "zUSD fee parameters are invalid",
                ZusdStateError::ArithmeticOverflow => "zUSD checked arithmetic failed",
            }),
    {
        match self {
            ZusdStateError::WrongValueKind => "zUSD state is not a record",
            ZusdStateError::WrongFieldCount => "zUSD state has the wrong field count",
            ZusdStateError::WrongFieldOrder => "zUSD state fields are not in canonical order",
            ZusdStateError::WrongFieldKind => "zUSD state field has the wrong value kind",
            ZusdStateError::AmountBound => "zUSD state field exceeds the stored-value bound",
            ZusdStateError::OracleFlag => "zUSD Oracle flag is not zero or one",
            ZusdStateError::FutureEpoch => "zUSD authority timestamp is in the future",
            ZusdStateError::OracleShape => "zUSD Oracle state is structurally inconsistent",
            ZusdStateError::SupplyConservation => "free plus Stability Pool debt does not equal total debt",
            ZusdStateError::DebtCap => "zUSD total debt exceeds global supply cap",
            ZusdStateError::DebtFloor => "zUSD nonzero debt is below the floor",
            ZusdStateError::CollateralRatios => "zUSD collateral ratios are invalid",
            ZusdStateError::DebtLimits => "zUSD debt limits are inconsistent",
            ZusdStateError::FeeBounds => "zUSD fee parameters are invalid",
            ZusdStateError::ArithmeticOverflow => "zUSD checked arithmetic failed",
        }
    }
}

/// ZenoDEX profile construction or commitment failure.
#[derive(Clone, Copy, Debug, PartialEq, Eq, Structural)]
pub enum ProfileError {
    /// Canonical encoding failed.
    Encode(EncodeError),
    /// zUSD state construction failed.
    State(ZusdStateError),
}

/// Canonical bytes of one registry entry: its rank, then its length-prefixed code.
pub open spec fn reason_entry_encoding(reason: ZusdRejectV1) -> Seq<u8> {
    be16(reason.spec_precedence()) + be16(encode_utf8(reason.spec_code()).len() as u16)
        + encode_utf8(reason.spec_code())
}

/// Canonical bytes of registry entries in order.
pub open spec fn reason_entries_encoding(reasons: Seq<ZusdRejectV1>) -> Seq<u8>
    decreases reasons.len(),
{
    if reasons.len() == 0 {
        Seq::empty()
    } else {
        reason_entries_encoding(reasons.drop_last()) + reason_entry_encoding(reasons.last())
    }
}

/// Every code of the registry fits a 16-bit length prefix.
pub open spec fn reason_codes_fit(reasons: Seq<ZusdRejectV1>) -> bool {
    forall|i: int| 0 <= i < reasons.len() ==> encode_utf8(#[trigger] reasons[i].spec_code()).len() <= u16::MAX
}

/// Canonically encodes the complete zUSD rejection-precedence registry: the
/// entry count, then every entry in precedence order.
pub fn zusd_precedence_bytes_v1() -> (bytes: Result<Vec<u8>, EncodeError>)
    ensures
        bytes is Ok <==> reason_codes_fit(ZusdRejectV1::ALL@),
        bytes matches Ok(b) ==> b@ == be16(45) + reason_entries_encoding(ZusdRejectV1::ALL@),
{
    let all = ZusdRejectV1::ALL;
    let mut output: Vec<u8> = Vec::new();
    put_u16(&mut output, 45);
    let mut index: usize = 0;
    while index < 45
        invariant
            index <= 45,
            all@ == ZusdRejectV1::ALL@,
            all@.len() == 45,
            reason_codes_fit(all@.subrange(0, index as int)),
            output@ == be16(45) + reason_entries_encoding(all@.subrange(0, index as int)),
        decreases 45 - index,
    {
        let reason = all[index];
        proof {
            let next = all@.subrange(0, index + 1);
            assert(next.drop_last() =~= all@.subrange(0, index as int));
            assert(next.last() == all@[index as int]);
        }
        put_u16(&mut output, reason.precedence());
        let code = reason.code();
        match put_u16_blob(&mut output, code.as_bytes()) {
            Ok(()) => {},
            Err(error) => {
                proof {
                    assert(!reason_codes_fit(all@)) by {
                        assert(encode_utf8(all@[index as int].spec_code()).len() > u16::MAX);
                    }
                }
                return Err(error);
            },
        }
        index = index + 1;
        proof {
            let done = all@.subrange(0, index as int);
            assert forall|i: int| 0 <= i < done.len() implies encode_utf8(#[trigger] done[i].spec_code()).len() <= u16::MAX by {
                if i < index - 1 {
                    assert(done[i] == all@.subrange(0, index - 1)[i]);
                }
            }
            assert(output@ =~= be16(45) + reason_entries_encoding(done));
        }
    }
    assert(all@.subrange(0, 45) =~= all@);
    Ok(output)
}

/// The commitment domain label of the zUSD precedence registry.
pub open spec fn precedence_domain() -> Seq<u8> {
    seq![
        122u8, 101u8, 110u8, 111u8, 100u8, 101u8, 120u8, 47u8, 122u8, 117u8, 115u8, 100u8, 47u8,
        112u8, 114u8, 101u8, 99u8, 101u8, 100u8, 101u8, 110u8, 99u8, 101u8,
    ]
}

/// Computes the total zUSD precedence commitment: the hash of the registry
/// bytes framed under the precedence domain.
pub fn zusd_precedence_hash_v1<H: CommitmentHasher>() -> (hash: Result<Hash32, ProfileError>)
    ensures
        hash is Ok <==> reason_codes_fit(ZusdRejectV1::ALL@),
        hash matches Ok(h) ==> h == H::spec_hash(
            commitment_preimage(precedence_domain(), 1, be16(45) + reason_entries_encoding(ZusdRejectV1::ALL@)),
        ),
{
    let bytes = match zusd_precedence_bytes_v1() {
        Ok(bytes) => bytes,
        Err(error) => return Err(ProfileError::Encode(error)),
    };
    let label: Vec<u8> = vec![
        122u8, 101u8, 110u8, 111u8, 100u8, 101u8, 120u8, 47u8, 122u8, 117u8, 115u8, 100u8, 47u8,
        112u8, 114u8, 101u8, 99u8, 101u8, 100u8, 101u8, 110u8, 99u8, 101u8,
    ];
    assert(label@ =~= precedence_domain());
    let framed = frame_commitment(label.as_slice(), 1, bytes.as_slice());
    Ok(H::hash(framed.as_slice()))
}

/// The tools the first ZenoDEX promotion policy requires, in canonical order.
pub open spec fn zusd_required_tools() -> Seq<ToolKind> {
    seq![
        ToolKind::Z3,
        ToolKind::Cvc5,
        ToolKind::Lean,
        ToolKind::Kani,
        ToolKind::TranslationValidation,
        ToolKind::CodecVectors,
        ToolKind::RuntimeRefinement,
    ]
}

/// High-assurance promotion policy for the first ZenoDEX profile.
pub fn zusd_promotion_policy_v1() -> (policy: Result<PromotionPolicy, RefineError>)
    ensures
        policy matches Ok(p) && p.spec_required_tools() == zusd_required_tools()
            && p.spec_require_exact_cases(),
{
    let tools: Vec<ToolKind> = vec![
        ToolKind::Z3,
        ToolKind::Cvc5,
        ToolKind::Lean,
        ToolKind::Kani,
        ToolKind::TranslationValidation,
        ToolKind::CodecVectors,
        ToolKind::RuntimeRefinement,
    ];
    proof {
        let t = tools@;
        assert(t =~= zusd_required_tools());
        assert(strictly_sorted_by_key(t));
        assert(!has_duplicate_key(t)) by {
            assert forall|i: int, j: int| 0 <= i < t.len() && 0 <= j < t.len() && i != j implies t[i].spec_key() != t[j].spec_key() by {
                if i < j {
                } else {
                }
            }
        }
        lemma_canonical_order(t, t);
        assert(promotion_policy_tools(t) == Some(t));
    }
    PromotionPolicy::try_new(tools, true)
}


/// The record field value that carries a raw state field: the Oracle flag
/// is a boolean, every other field an unsigned integer.
pub open spec fn zusd_field_value(index: int, raw: u128) -> ValueModel {
    if index == 1 {
        ValueModel::Bool(raw == 1)
    } else {
        ValueModel::U128(raw)
    }
}

/// The canonical record of raw state fields: identifiers `0..32` in order.
pub open spec fn zusd_record(fields: Seq<u128>) -> Seq<(u16, ValueModel)> {
    Seq::new(fields.len(), |i: int| (i as u16, zusd_field_value(i, fields[i])))
}

/// The raw field a record field value carries at a position, if its kind fits.
pub open spec fn zusd_raw_field(index: int, value: ValueModel) -> Option<u128> {
    if index == 1 {
        match value {
            ValueModel::Bool(flag) => Some(if flag { 1u128 } else { 0u128 }),
            _ => None,
        }
    } else {
        match value {
            ValueModel::U128(raw) => Some(raw),
            _ => None,
        }
    }
}

/// Raw fields read from record fields in order: each identifier must equal its
/// position and each value must have its field's kind.
pub open spec fn zusd_read_fields(fields: Seq<(u16, ValueModel)>) -> Result<Seq<u128>, ZusdStateError>
    decreases fields.len(),
{
    if fields.len() == 0 {
        Ok(Seq::empty())
    } else {
        match zusd_read_fields(fields.drop_last()) {
            Err(error) => Err(error),
            Ok(raw) => {
                let index = fields.len() - 1;
                if fields.last().0 != index {
                    Err(ZusdStateError::WrongFieldOrder)
                } else {
                    match zusd_raw_field(index, fields.last().1) {
                        None => Err(ZusdStateError::WrongFieldKind),
                        Some(x) => Ok(raw.push(x)),
                    }
                }
            },
        }
    }
}

/// The raw fields a value parses to, or why it does not.
pub open spec fn zusd_parse(value: ValueModel) -> Result<Seq<u128>, ZusdStateError> {
    match value {
        ValueModel::Record(fields) => if fields.len() != 32 {
            Err(ZusdStateError::WrongFieldCount)
        } else {
            match zusd_read_fields(fields) {
                Err(error) => Err(error),
                Ok(raw) => match zusd_invariant_error(raw) {
                    Some(error) => Err(error),
                    None => Ok(raw),
                },
            }
        },
        _ => Err(ZusdStateError::WrongValueKind),
    }
}

proof fn lemma_read_fields_failure(fields: Seq<(u16, ValueModel)>, count: int)
    requires
        0 < count <= fields.len(),
        zusd_read_fields(fields.take(count)) is Err,
    ensures
        zusd_read_fields(fields) == zusd_read_fields(fields.take(count)),
    decreases fields.len() - count,
{
    if count < fields.len() {
        assert(fields.take(count + 1).drop_last() =~= fields.take(count));
        lemma_read_fields_failure(fields, count + 1);
    } else {
        assert(fields.take(count) =~= fields);
    }
}

impl ZusdStateV1 {
    /// Parses the canonical reference record representation.
    pub fn try_from_value(value: &Value) -> (state: Result<Self, ZusdStateError>)
        ensures
            match zusd_parse(value@) {
                Ok(raw) => state matches Ok(s) && s.spec_fields() == raw,
                Err(error) => state == Err::<Self, ZusdStateError>(error),
            },
            state matches Ok(s) ==> zusd_hard_invariants(s.spec_fields()),
    {
        let fields = match value {
            Value::Record(fields) => fields,
            _ => return Err(ZusdStateError::WrongValueKind),
        };
        proof {
            lemma_field_models(fields@);
        }
        if fields.len() != 32 {
            return Err(ZusdStateError::WrongFieldCount);
        }
        let ghost modeled = field_models(fields@);
        let mut values = [0u128; 32];
        let mut index: usize = 0;
        assert(modeled.take(0) =~= Seq::<(u16, ValueModel)>::empty());
        assert(values@.take(0) =~= Seq::<u128>::empty());
        while index < 32
            invariant
                index <= 32,
                fields@.len() == 32,
                modeled == field_models(fields@),
                modeled.len() == 32,
                value@ == ValueModel::Record(modeled),
                forall|i: int| 0 <= i < 32 ==> #[trigger] modeled[i] == (fields@[i].id, fields@[i].value@),
                zusd_read_fields(modeled.take(index as int)) == Ok::<Seq<u128>, ZusdStateError>(values@.take(index as int)),
            decreases 32 - index,
        {
            proof {
                let prefix = modeled.take(index + 1);
                assert(prefix.drop_last() =~= modeled.take(index as int));
                assert(prefix.last() == modeled[index as int]);
            }
            let field = &fields[index];
            if field.id as usize != index {
                proof {
                    lemma_read_fields_failure(modeled, index + 1);
                }
                return Err(ZusdStateError::WrongFieldOrder);
            }
            let raw: u128 = if index == 1 {
                match &field.value {
                    Value::Bool(flag) => if *flag {
                        1
                    } else {
                        0
                    },
                    _ => {
                        proof {
                            lemma_read_fields_failure(modeled, index + 1);
                        }
                        return Err(ZusdStateError::WrongFieldKind);
                    },
                }
            } else {
                match &field.value {
                    Value::U128(raw) => *raw,
                    _ => {
                        proof {
                            lemma_read_fields_failure(modeled, index + 1);
                        }
                        return Err(ZusdStateError::WrongFieldKind);
                    },
                }
            };
            let ghost before = values@;
            values.set(index, raw);
            assert(values@.take(index + 1) =~= before.take(index as int).push(raw));
            index = index + 1;
        }
        assert(modeled.take(32) =~= modeled);
        assert(values@.take(32) =~= values@);
        ZusdStateV1::try_from_fields(values)
    }

    /// Converts into the canonical reference record representation.
    pub fn to_value(&self) -> (value: Result<Value, ZusdStateError>)
        ensures
            value matches Ok(v) && v@ == ValueModel::Record(zusd_record(self.spec_fields())),
    {
        let mut output: Vec<Field> = Vec::new();
        let mut index: usize = 0;
        while index < 32
            invariant
                index <= 32,
                self.fields@.len() == 32,
                output@.len() == index,
                forall|i: int| 0 <= i < index ==> #[trigger] output@[i].id == i as u16 && output@[i].value@
                    == zusd_field_value(i, self.fields@[i]),
            decreases 32 - index,
        {
            let raw = self.fields[index];
            let field_value = if index == 1 {
                Value::Bool(raw == 1)
            } else {
                Value::U128(raw)
            };
            output.push(Field::new(index as u16, field_value));
            index = index + 1;
        }
        proof {
            lemma_field_models(output@);
            assert(field_models(output@) =~= zusd_record(self.fields@));
        }
        match Value::record_canonical(output) {
            Ok(value) => Ok(value),
            Err(_) => Err(ZusdStateError::WrongFieldOrder),
        }
    }
}

/// Reading back the canonical record of raw fields gives the same fields,
/// when the Oracle flag is zero or one.
proof fn lemma_read_record(fields: Seq<u128>, count: int)
    requires
        fields.len() == 32,
        fields[1] <= 1,
        0 <= count <= 32,
    ensures
        zusd_read_fields(zusd_record(fields).take(count)) == Ok::<Seq<u128>, ZusdStateError>(fields.take(count)),
    decreases count,
{
    if count > 0 {
        lemma_read_record(fields, count - 1);
        let record = zusd_record(fields);
        assert(record.take(count).drop_last() =~= record.take(count - 1));
        assert(fields.take(count) =~= fields.take(count - 1).push(fields[count - 1]));
    } else {
        assert(zusd_record(fields).take(0) =~= Seq::<(u16, ValueModel)>::empty());
        assert(fields.take(0) =~= Seq::<u128>::empty());
    }
}

/// A state converted to its record representation parses back to the same state.
pub proof fn lemma_zusd_value_round_trip(fields: Seq<u128>)
    requires
        fields.len() == 32,
        zusd_invariant_error(fields) is None,
    ensures
        zusd_parse(ValueModel::Record(zusd_record(fields))) == Ok::<Seq<u128>, ZusdStateError>(fields),
{
    assert(zusd_field(fields, ZusdStateFieldV1::OracleSeen) == fields[1]);
    lemma_read_record(fields, 32);
    assert(zusd_record(fields).take(32) =~= zusd_record(fields));
    assert(fields.take(32) =~= fields);
}


/// Versioned ZenoDEX commitment and refinement profile.
#[derive(Clone, Copy, Debug, PartialEq, Eq)]
pub struct ZenoDexProfileV1 {
    lane: ZenoDexLane,
    profile_version: u16,
    state_type: u32,
    command_type: u32,
    state_domain: &'static str,
    command_domain: &'static str,
    context_domain: &'static str,
    schema_hash: Hash32,
    precedence_hash: Hash32,
    algorithm_hash: Hash32,
}

/// The label of the domain under which profiles are committed.
pub open spec fn profile_domain() -> Seq<u8> {
    seq![122u8, 101u8, 110u8, 111u8, 100u8, 101u8, 120u8, 47u8, 112u8, 114u8, 111u8, 102u8, 105u8, 108u8, 101u8]
}

impl ZenoDexProfileV1 {
    /// The lane.
    pub closed spec fn spec_lane(self) -> ZenoDexLane {
        self.lane
    }

    /// The profile version.
    pub closed spec fn spec_profile_version(self) -> u16 {
        self.profile_version
    }

    /// The state and command type identifiers.
    pub closed spec fn spec_types(self) -> (u32, u32) {
        (self.state_type, self.command_type)
    }

    /// The state, command and context domain labels, as bytes.
    pub closed spec fn spec_domains(self) -> (Seq<u8>, Seq<u8>, Seq<u8>) {
        (self.state_domain.spec_bytes(), self.command_domain.spec_bytes(), self.context_domain.spec_bytes())
    }

    /// The schema, precedence and algorithm commitments.
    pub closed spec fn spec_hashes(self) -> (Hash32, Hash32, Hash32) {
        (self.schema_hash, self.precedence_hash, self.algorithm_hash)
    }

    /// Creates the zUSD profile with externally reviewed schema, precedence, and algorithm commitments.
    pub fn zusd(schema_hash: Hash32, precedence_hash: Hash32, algorithm_hash: Hash32) -> (profile: Self)
        ensures
            profile.spec_lane() == ZenoDexLane::Zusd,
            profile.spec_profile_version() == 1,
            profile.spec_types() == (ZUSD_STATE_TYPE_V1, ZUSD_COMMAND_TYPE_V1),
            profile.spec_domains() == (
                "zenodex/zusd/state".spec_bytes(),
                "zenodex/zusd/command".spec_bytes(),
                "zenodex/zusd/context".spec_bytes(),
            ),
            profile.spec_hashes() == (schema_hash, precedence_hash, algorithm_hash),
    {
        ZenoDexProfileV1 {
            lane: ZenoDexLane::Zusd,
            profile_version: 1,
            state_type: ZUSD_STATE_TYPE_V1,
            command_type: ZUSD_COMMAND_TYPE_V1,
            state_domain: "zenodex/zusd/state",
            command_domain: "zenodex/zusd/command",
            context_domain: "zenodex/zusd/context",
            schema_hash,
            precedence_hash,
            algorithm_hash,
        }
    }

    /// Returns the lane.
    pub fn lane(self) -> (lane: ZenoDexLane)
        ensures
            lane == self.spec_lane(),
    {
        self.lane
    }

    /// Returns the profile version.
    pub fn profile_version(self) -> (version: u16)
        ensures
            version == self.spec_profile_version(),
    {
        self.profile_version
    }

    /// Returns the state type identifier.
    pub fn state_type(self) -> (state_type: u32)
        ensures
            state_type == self.spec_types().0,
    {
        self.state_type
    }

    /// Returns the command type identifier.
    pub fn command_type(self) -> (command_type: u32)
        ensures
            command_type == self.spec_types().1,
    {
        self.command_type
    }

    /// Returns the state commitment domain.
    pub fn state_domain(self) -> (domain: &'static str)
        ensures
            domain.spec_bytes() == self.spec_domains().0,
    {
        self.state_domain
    }

    /// Returns the command commitment domain.
    pub fn command_domain(self) -> (domain: &'static str)
        ensures
            domain.spec_bytes() == self.spec_domains().1,
    {
        self.command_domain
    }

    /// Returns the context commitment domain.
    pub fn context_domain(self) -> (domain: &'static str)
        ensures
            domain.spec_bytes() == self.spec_domains().2,
    {
        self.context_domain
    }

    /// Returns the state/command schema commitment.
    pub fn schema_hash(self) -> (hash: Hash32)
        ensures
            hash == self.spec_hashes().0,
    {
        self.schema_hash
    }

    /// Returns the total reason-precedence commitment.
    pub fn precedence_hash(self) -> (hash: Hash32)
        ensures
            hash == self.spec_hashes().1,
    {
        self.precedence_hash
    }

    /// Returns the algorithm and codec profile commitment.
    pub fn algorithm_hash(self) -> (hash: Hash32)
        ensures
            hash == self.spec_hashes().2,
    {
        self.algorithm_hash
    }

    /// Every domain label fits its 32-bit length prefix.
    pub open spec fn spec_encodable(self) -> bool {
        &&& self.spec_domains().0.len() <= u32::MAX
        &&& self.spec_domains().1.len() <= u32::MAX
        &&& self.spec_domains().2.len() <= u32::MAX
    }

    /// Canonical bytes: lane tag, version, type identifiers, the three
    /// length-prefixed domain labels, then the three commitments.
    pub open spec fn spec_encoding(self) -> Seq<u8> {
        let (state, command, context) = self.spec_domains();
        let (schema, precedence, algorithm) = self.spec_hashes();
        seq![self.spec_lane().spec_tag()] + be16(self.spec_profile_version()) + be32(self.spec_types().0) + be32(
            self.spec_types().1,
        ) + be32(state.len() as u32) + state + be32(command.len() as u32) + command + be32(context.len() as u32)
            + context + schema.spec_bytes() + precedence.spec_bytes() + algorithm.spec_bytes()
    }

    /// The canonical bytes of the profile, when every label fits the wire.
    pub fn canonical_bytes(self) -> (bytes: Result<Vec<u8>, ProfileError>)
        ensures
            bytes is Ok <==> self.spec_encodable(),
            bytes matches Ok(b) ==> b@ == self.spec_encoding(),
            bytes matches Err(e) ==> e == ProfileError::Encode(EncodeError::LengthOverflow),
    {
        let mut output: Vec<u8> = Vec::new();
        put_u8(&mut output, self.lane.tag());
        put_u16(&mut output, self.profile_version);
        put_u32(&mut output, self.state_type);
        put_u32(&mut output, self.command_type);
        if put_u32_blob(&mut output, self.state_domain.as_bytes()).is_err() {
            return Err(ProfileError::Encode(EncodeError::LengthOverflow));
        }
        if put_u32_blob(&mut output, self.command_domain.as_bytes()).is_err() {
            return Err(ProfileError::Encode(EncodeError::LengthOverflow));
        }
        if put_u32_blob(&mut output, self.context_domain.as_bytes()).is_err() {
            return Err(ProfileError::Encode(EncodeError::LengthOverflow));
        }
        put_bytes(&mut output, self.schema_hash.as_bytes());
        put_bytes(&mut output, self.precedence_hash.as_bytes());
        put_bytes(&mut output, self.algorithm_hash.as_bytes());
        assert(output@ =~= self.spec_encoding());
        Ok(output)
    }

    /// The bytes the profile commitment hashes.
    pub fn commitment_bytes(self) -> (bytes: Result<Vec<u8>, ProfileError>)
        ensures
            bytes is Ok <==> self.spec_encodable(),
            bytes matches Ok(b) ==> b@ == commitment_preimage(profile_domain(), 1, self.spec_encoding()),
    {
        let encoded = match self.canonical_bytes() {
            Ok(encoded) => encoded,
            Err(error) => return Err(error),
        };
        let label: Vec<u8> = vec![122u8, 101u8, 110u8, 111u8, 100u8, 101u8, 120u8, 47u8, 112u8, 114u8, 111u8, 102u8, 105u8, 108u8, 101u8];
        assert(label@ =~= profile_domain());
        Ok(frame_commitment(label.as_slice(), 1, encoded.as_slice()))
    }

    /// Computes the complete profile commitment: the hash of exactly the bytes
    /// that `commitment_bytes` returns.
    pub fn commitment<H: CommitmentHasher>(self) -> (hash: Result<Hash32, ProfileError>)
        ensures
            hash is Ok <==> self.spec_encodable(),
            hash matches Ok(h) ==> h == H::spec_hash(commitment_preimage(profile_domain(), 1, self.spec_encoding())),
    {
        let bytes = match self.commitment_bytes() {
            Ok(bytes) => bytes,
            Err(error) => return Err(error),
        };
        Ok(H::hash(bytes.as_slice()))
    }
}

impl ZusdStateV1 {
    /// The bytes the state root hashes: the canonical record under the
    /// profile's state domain and version.
    pub fn root_bytes(&self, profile: ZenoDexProfileV1) -> (bytes: Result<Vec<u8>, ProfileError>)
        ensures
            profile.spec_domains().0.len() <= u16::MAX ==> (bytes matches Ok(b) && b@ == commitment_preimage(
                profile.spec_domains().0,
                profile.spec_profile_version(),
                encoding(ValueModel::Record(zusd_record(self.spec_fields()))),
            )),
            profile.spec_domains().0.len() > u16::MAX ==> bytes == Err::<Vec<u8>, ProfileError>(
                ProfileError::Encode(EncodeError::LengthOverflow),
            ),
    {
        let value = match self.to_value() {
            Ok(value) => value,
            Err(error) => return Err(ProfileError::State(error)),
        };
        let encoded = value.canonical_bytes();
        let domain = match Domain::new(profile.state_domain(), profile.profile_version()) {
            Ok(domain) => domain,
            Err(error) => return Err(ProfileError::Encode(error)),
        };
        Ok(domain.frame(encoded.as_slice()))
    }

    /// Computes the state root: the hash of exactly the bytes that `root_bytes` returns.
    pub fn root<H: CommitmentHasher>(&self, profile: ZenoDexProfileV1) -> (root: Result<Hash32, ProfileError>)
        ensures
            root is Ok <==> profile.spec_domains().0.len() <= u16::MAX,
            root matches Ok(r) ==> r == H::spec_hash(
                commitment_preimage(
                    profile.spec_domains().0,
                    profile.spec_profile_version(),
                    encoding(ValueModel::Record(zusd_record(self.spec_fields()))),
                ),
            ),
    {
        let bytes = match self.root_bytes(profile) {
            Ok(bytes) => bytes,
            Err(error) => return Err(error),
        };
        Ok(H::hash(bytes.as_slice()))
    }
}

} // verus!
