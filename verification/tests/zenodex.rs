use zeno_fcis::commit::{CommitmentHasher, Hash32};
use zeno_fcis::refine::ToolKind;
use zeno_fcis::value::{Field, Value};
use zeno_fcis::zenodex::{
    ZenoDexLane, ZenoDexProfileV1,
    zusd_precedence_bytes_v1, zusd_precedence_hash_v1, zusd_promotion_policy_v1, ZusdCommandTagV1,
    ZusdRejectV1, ZusdStateError, ZusdStateFieldV1, ZusdStateV1, E8,
};

struct TestHasher;

impl CommitmentHasher for TestHasher {
    fn algorithm_id() -> &'static str {
        "test/fold/v1"
    }

    fn hash(bytes: &[u8]) -> Hash32 {
        let mut output = [0_u8; 32];
        for (index, byte) in bytes.iter().copied().enumerate() {
            output[index % 32] = output[index % 32].wrapping_add(byte);
        }
        Hash32::new(output)
    }
}

fn index(field: ZusdStateFieldV1) -> usize {
    usize::from(field.id())
}

fn default_fields() -> [u128; ZusdStateFieldV1::COUNT] {
    let mut fields = [0_u128; ZusdStateFieldV1::COUNT];
    fields[index(ZusdStateFieldV1::MaxOracleStalenessEpochs)] = 100;
    fields[index(ZusdStateFieldV1::McrBps)] = 11_000;
    fields[index(ZusdStateFieldV1::CcrBps)] = 15_000;
    fields[index(ZusdStateFieldV1::MinDebtOpenE8)] = 100 * E8;
    fields[index(ZusdStateFieldV1::MaxDebtE8)] = 10_000_000 * E8;
    fields[index(ZusdStateFieldV1::MaxDebtSupplyE8)] = 20_000_000 * E8;
    fields[index(ZusdStateFieldV1::MaxStabilityPoolCollateralE8)] = 20_000_000 * E8;
    fields[index(ZusdStateFieldV1::MaxProtocolCollateralE8)] = 20_000_000 * E8;
    fields[index(ZusdStateFieldV1::BorrowFeeMaxBps)] = 1_000;
    fields[index(ZusdStateFieldV1::RedemptionFeeMaxBps)] = 1_000;
    fields
}

#[test]
fn total_debt_cap_and_conservation_are_hard_invariants() {
    let mut fields = default_fields();
    fields[index(ZusdStateFieldV1::DebtE8)] = 2;
    fields[index(ZusdStateFieldV1::FreeDebtE8)] = 2;
    fields[index(ZusdStateFieldV1::MaxDebtSupplyE8)] = 1;
    assert_eq!(
        ZusdStateV1::try_from_fields(fields),
        Err(ZusdStateError::DebtCap)
    );
}

#[test]
fn reason_registry_has_stable_total_precedence() {
    assert_eq!(ZusdRejectV1::ALL.len(), 45);
    assert_eq!(ZusdRejectV1::NotPositiveInt.precedence(), 0);
    assert_eq!(ZusdRejectV1::LiquidateSpCapExceeded.precedence(), 44);
    assert_eq!(
        ZusdRejectV1::MintExceedsMaxSupply.code(),
        "mint_exceeds_max_supply"
    );
}

#[test]
fn legacy_epoch_command_is_not_protocol_authority() {
    assert!(!ZusdCommandTagV1::AdvanceEpochLegacy.is_protocol_authority());
    assert!(ZusdCommandTagV1::Liquidate.is_protocol_authority());
}

#[test]
fn promotion_policy_requires_independent_and_mounted_evidence() {
    let policy =
        zusd_promotion_policy_v1().unwrap_or_else(|error| panic!("promotion policy: {error:?}"));
    assert_eq!(policy.required_tools().len(), 7);
    assert!(policy.require_exact_cases());
    assert_eq!(policy.required_tools()[6], ToolKind::RuntimeRefinement);
}

#[test]
fn every_hard_invariant_has_its_own_refusal() {
    assert!(ZusdStateV1::try_from_fields(default_fields()).is_ok());
    let cases: Vec<(Vec<(ZusdStateFieldV1, u128)>, ZusdStateError)> = vec![
        (vec![(ZusdStateFieldV1::CollateralE8, 1_000_000_000_000_000_000_000_000_000_000_001)], ZusdStateError::AmountBound),
        (vec![(ZusdStateFieldV1::BaseRateLastEpoch, 1)], ZusdStateError::FutureEpoch),
        (vec![(ZusdStateFieldV1::OracleSeen, 2)], ZusdStateError::OracleFlag),
        (vec![(ZusdStateFieldV1::PriceE8, 5)], ZusdStateError::OracleShape),
        (
            vec![(ZusdStateFieldV1::OracleSeen, 1), (ZusdStateFieldV1::PriceE8, 5), (ZusdStateFieldV1::PricePendingE8, 6)],
            ZusdStateError::OracleShape,
        ),
        (vec![(ZusdStateFieldV1::DebtE8, 3)], ZusdStateError::SupplyConservation),
        (
            vec![(ZusdStateFieldV1::DebtE8, 3), (ZusdStateFieldV1::FreeDebtE8, 3)],
            ZusdStateError::DebtFloor,
        ),
        (vec![(ZusdStateFieldV1::McrBps, 0)], ZusdStateError::CollateralRatios),
        (vec![(ZusdStateFieldV1::MaxDebtE8, 30_000_000 * E8)], ZusdStateError::DebtLimits),
        (vec![(ZusdStateFieldV1::BaseRateBps, 10_001)], ZusdStateError::FeeBounds),
        (vec![(ZusdStateFieldV1::BorrowFeeFloorBps, 1_001)], ZusdStateError::FeeBounds),
    ];
    for (changes, expected) in cases {
        let mut fields = default_fields();
        for (field, value) in changes {
            fields[index(field)] = value;
        }
        assert_eq!(ZusdStateV1::try_from_fields(fields), Err(expected));
    }
}

#[test]
fn state_fields_read_back_exactly() {
    let mut fields = default_fields();
    fields[index(ZusdStateFieldV1::NowEpoch)] = 9;
    fields[index(ZusdStateFieldV1::OracleSeen)] = 1;
    fields[index(ZusdStateFieldV1::OracleLastUpdateEpoch)] = 8;
    fields[index(ZusdStateFieldV1::PriceE8)] = 7 * E8;
    fields[index(ZusdStateFieldV1::PricePendingE8)] = 6 * E8;
    let state = ZusdStateV1::try_from_fields(fields).unwrap();
    assert!(state.oracle_seen());
    assert_eq!(state.field(ZusdStateFieldV1::PriceE8), 7 * E8);
    assert_eq!(state.field(ZusdStateFieldV1::McrBps), 11_000);
    assert_eq!(state.validate_hard_invariants(), Ok(()));
    assert_eq!(ZusdStateFieldV1::LiquidationGasCompensationBps.id(), 31);
}

#[test]
fn precedence_registry_bytes_are_exact() {
    let bytes = zusd_precedence_bytes_v1().unwrap();
    assert_eq!(&bytes[..2], &[0, 45]);
    let mut expected_first = vec![0, 0, 0, 16];
    expected_first.extend_from_slice(b"not_positive_int");
    assert_eq!(&bytes[2..2 + expected_first.len()], expected_first.as_slice());
    let mut tail = vec![0, 44, 0, 25];
    tail.extend_from_slice(b"liquidate_sp_cap_exceeded");
    assert!(bytes.ends_with(&tail));
    let first = zusd_precedence_hash_v1::<TestHasher>().unwrap();
    let second = zusd_precedence_hash_v1::<TestHasher>().unwrap();
    assert_eq!(first, second);
}

#[test]
fn zusd_state_round_trip_preserves_canonical_fields() {
    let state = ZusdStateV1::try_from_fields(default_fields())
        .unwrap_or_else(|error| panic!("state: {error:?}"));
    let value = state.to_value().unwrap_or_else(|error| panic!("value: {error:?}"));
    assert_eq!(ZusdStateV1::try_from_value(&value), Ok(state));
}

#[test]
fn profile_and_precedence_commitments_are_deterministic() {
    let precedence = zusd_precedence_hash_v1::<TestHasher>()
        .unwrap_or_else(|error| panic!("precedence: {error:?}"));
    let profile = ZenoDexProfileV1::zusd(Hash32::new([1; 32]), precedence, Hash32::new([2; 32]));
    let first = profile
        .commitment::<TestHasher>()
        .unwrap_or_else(|error| panic!("profile: {error:?}"));
    let second = profile
        .commitment::<TestHasher>()
        .unwrap_or_else(|error| panic!("profile: {error:?}"));
    assert_eq!(first, second);
}

#[test]
fn state_values_are_checked_field_by_field() {
    assert_eq!(ZusdStateV1::try_from_value(&Value::Unit), Err(ZusdStateError::WrongValueKind));
    let short = Value::record_canonical(vec![Field::new(0, Value::U128(0))])
        .unwrap_or_else(|error| panic!("{error:?}"));
    assert_eq!(ZusdStateV1::try_from_value(&short), Err(ZusdStateError::WrongFieldCount));
    let state = ZusdStateV1::try_from_fields(default_fields())
        .unwrap_or_else(|error| panic!("state: {error:?}"));
    let Value::Record(mut fields) = state.to_value().unwrap_or_else(|error| panic!("{error:?}")) else {
        panic!("state is a record");
    };
    assert_eq!(fields[1].value, Value::Bool(false));
    fields[1] = Field::new(1, Value::U128(0));
    assert_eq!(
        ZusdStateV1::try_from_value(&Value::Record(fields)),
        Err(ZusdStateError::WrongFieldKind)
    );
}

#[test]
fn zusd_profile_fields_and_root() {
    let profile = ZenoDexProfileV1::zusd(Hash32::new([1; 32]), Hash32::new([3; 32]), Hash32::new([2; 32]));
    assert_eq!(profile.lane(), ZenoDexLane::Zusd);
    assert_eq!(profile.profile_version(), 1);
    assert_eq!(profile.state_domain(), "zenodex/zusd/state");
    assert_eq!(profile.command_domain(), "zenodex/zusd/command");
    assert_eq!(profile.context_domain(), "zenodex/zusd/context");
    assert_eq!(profile.precedence_hash(), Hash32::new([3; 32]));
    assert_eq!(profile.algorithm_hash(), Hash32::new([2; 32]));
    let bytes = profile.canonical_bytes().unwrap_or_else(|error| panic!("{error:?}"));
    assert_eq!(bytes[0], 1);
    assert_eq!(&bytes[1..3], &[0, 1]);
    assert_eq!(bytes.len(), 1 + 2 + 4 + 4 + 4 + 18 + 4 + 20 + 4 + 20 + 96);
    let state = ZusdStateV1::try_from_fields(default_fields())
        .unwrap_or_else(|error| panic!("state: {error:?}"));
    let root = state.root::<TestHasher>(profile).unwrap_or_else(|error| panic!("{error:?}"));
    assert_eq!(root, state.root::<TestHasher>(profile).unwrap_or_else(|error| panic!("{error:?}")));
    assert_ne!(root, profile.commitment::<TestHasher>().unwrap_or_else(|error| panic!("{error:?}")));
}
