use zeno_fcis::commit::{CommitmentHasher, Hash32};
use zeno_fcis::secret::{
    validate_owned_slice, validate_owned_vec, ExposurePermit, HardenedExecution, SecretBox, SecretBytes,
    SecretChoice, SecretError, MAX_SECRET_BYTES,
};

#[derive(Clone, Copy, Debug)]
struct TestHasher;

impl CommitmentHasher for TestHasher {
    fn algorithm_id() -> &'static str {
        "test-only/1"
    }

    fn hash(bytes: &[u8]) -> Hash32 {
        let mut output = [0_u8; 32];
        for (index, byte) in bytes.iter().enumerate() {
            let slot = index % output.len();
            output[slot] = output[slot]
                .wrapping_add(*byte)
                .rotate_left((index % 8) as u32);
        }
        Hash32::new(output)
    }
}

fn hash(byte: u8) -> Hash32 {
    Hash32::new([byte; 32])
}

fn permit(maximum_bytes: u32) -> ExposurePermit {
    ExposurePermit::try_new(hash(3), hash(1), hash(2), maximum_bytes)
        .unwrap_or_else(|error| panic!("permit: {error:?}"))
}

fn execution() -> HardenedExecution {
    HardenedExecution::require_release(false).unwrap_or_else(|error| panic!("execution: {error:?}"))
}

/// Reads a choice back through the public selection and exposure operations.
fn read_choice(choice: &SecretChoice, execution: &HardenedExecution) -> u8 {
    let zero = SecretBytes::try_new(hash(3), [0_u8; 1]).unwrap_or_else(|error| panic!("zero: {error:?}"));
    let one = SecretBytes::try_new(hash(3), [1_u8; 1]).unwrap_or_else(|error| panic!("one: {error:?}"));
    let selected = SecretBytes::ct_select(&zero, &one, choice, execution)
        .unwrap_or_else(|error| panic!("select: {error:?}"));
    selected
        .with_exposed::<TestHasher, _, _>(execution, permit(1), |bytes: &[u8]| bytes[0])
        .unwrap_or_else(|error| panic!("reveal: {error:?}"))
        .into_parts()
        .0
}

#[test]
fn hardened_execution_detects_debug_assertions() {
    assert!(matches!(
        HardenedExecution::require_release(true),
        Err(SecretError::DebugAssertionsEnabled)
    ));
    assert!(HardenedExecution::require_release(false).is_ok());
}

#[test]
fn fixed_secret_equality_and_selection_use_choice() {
    let execution = execution();
    let left = SecretBytes::try_new(hash(3), [7_u8; 32]).unwrap_or_else(|error| panic!("left: {error:?}"));
    let same = SecretBytes::try_new(hash(3), [7_u8; 32]).unwrap_or_else(|error| panic!("same: {error:?}"));
    let right = SecretBytes::try_new(hash(3), [9_u8; 32]).unwrap_or_else(|error| panic!("right: {error:?}"));
    assert_eq!(read_choice(&left.ct_eq(&same, &execution), &execution), 1);
    assert_eq!(read_choice(&left.ct_eq(&right, &execution), &execution), 0);

    let selected = SecretBytes::ct_select(&left, &right, &SecretChoice::from_public(true), &execution)
        .unwrap_or_else(|error| panic!("selection: {error:?}"));
    assert_eq!(read_choice(&selected.ct_eq(&right, &execution), &execution), 1);
}

#[test]
fn explicit_exposure_emits_content_bound_event() {
    let execution = execution();
    let secret = SecretBytes::try_new(hash(3), [5_u8; 16]).unwrap_or_else(|error| panic!("secret: {error:?}"));
    let exposed = secret
        .with_exposed::<TestHasher, _, _>(&execution, permit(16), |bytes: &[u8]| {
            bytes.iter().fold(0_u32, |sum, byte| sum + u32::from(*byte))
        })
        .unwrap_or_else(|error| panic!("exposure: {error:?}"));
    let (sum, event) = exposed.into_parts();
    assert_eq!(sum, 80);
    assert_eq!(event.secret_id(), hash(3));
    assert_eq!(event.bytes_exposed(), 16);
    assert_ne!(event.permit_hash(), Hash32::zero());
}

#[test]
fn exposure_limit_fails_closed() {
    let execution = execution();
    let secret = SecretBytes::try_new(hash(3), [5_u8; 16]).unwrap_or_else(|error| panic!("secret: {error:?}"));
    let result = secret.with_exposed::<TestHasher, _, _>(&execution, permit(15), |_: &[u8]| ());
    assert!(matches!(
        result,
        Err(SecretError::ExposureTooLarge {
            attempted: 16,
            maximum: 15
        })
    ));
}

#[test]
fn dynamic_length_is_explicit_and_assignment_checks_it() {
    let execution = execution();
    let mut left = SecretBox::try_new(hash(3), vec![1, 2, 3]).unwrap_or_else(|error| panic!("left: {error:?}"));
    let same = SecretBox::try_new(hash(3), vec![1, 2, 3]).unwrap_or_else(|error| panic!("same: {error:?}"));
    let different = SecretBox::try_new(hash(3), vec![1, 2]).unwrap_or_else(|error| panic!("different: {error:?}"));
    assert_eq!(read_choice(&left.ct_eq(&same, &execution), &execution), 1);
    assert_eq!(read_choice(&left.ct_eq(&different, &execution), &execution), 0);
    assert!(matches!(
        left.ct_assign(&different, &SecretChoice::from_public(true), &execution),
        Err(SecretError::LengthMismatch { left: 3, right: 2 })
    ));
}

#[test]
fn clear_and_replace_erase_owned_storage_before_reuse() {
    let execution = execution();
    let mut secret = SecretBytes::try_new(hash(3), [9_u8; 8]).unwrap_or_else(|error| panic!("secret: {error:?}"));
    secret.clear();
    let cleared = secret
        .with_exposed::<TestHasher, _, _>(&execution, permit(8), |bytes: &[u8]| bytes.to_vec())
        .unwrap_or_else(|error| panic!("clear exposure: {error:?}"));
    assert_eq!(cleared.into_parts().0, vec![0_u8; 8]);

    secret.replace([4_u8; 8]);
    let replaced = secret
        .with_exposed::<TestHasher, _, _>(&execution, permit(8), |bytes: &[u8]| bytes.to_vec())
        .unwrap_or_else(|error| panic!("replace exposure: {error:?}"));
    assert_eq!(replaced.into_parts().0, vec![4_u8; 8]);

    let mut dynamic_input = Vec::with_capacity(64);
    dynamic_input.extend_from_slice(&[6_u8; 8]);
    let mut dynamic = SecretBox::try_new(hash(3), dynamic_input).unwrap_or_else(|error| panic!("dynamic: {error:?}"));
    dynamic.clear();
    assert_eq!(dynamic.len(), 8);
    let cleared_dynamic = dynamic
        .with_exposed::<TestHasher, _, _>(&execution, permit(8), |bytes: &[u8]| bytes.to_vec())
        .unwrap_or_else(|error| panic!("dynamic clear exposure: {error:?}"));
    assert_eq!(cleared_dynamic.into_parts().0, vec![0_u8; 8]);
}

#[test]
fn rejected_owned_input_is_zeroized_before_return() {
    let mut oversized = vec![7_u8; MAX_SECRET_BYTES + 1];
    assert_eq!(validate_owned_vec(hash(3), &mut oversized), Err(SecretError::InvalidLength));
    assert!(oversized.is_empty());

    let mut wrong_identity = vec![9_u8; 32];
    assert_eq!(validate_owned_vec(Hash32::zero(), &mut wrong_identity), Err(SecretError::ZeroHash));
    assert!(wrong_identity.is_empty());

    let mut rejected_array = [11_u8; 8];
    assert_eq!(
        validate_owned_slice(Hash32::zero(), rejected_array.as_mut_slice()),
        Err(SecretError::ZeroHash)
    );
    assert_eq!(rejected_array, [0_u8; 8]);
}

#[test]
fn exposure_permit_is_bound_to_exact_secret_identity() {
    let execution = execution();
    let secret = SecretBytes::try_new(hash(3), [5_u8; 16]).unwrap_or_else(|error| panic!("secret: {error:?}"));
    let wrong_permit =
        ExposurePermit::try_new(hash(4), hash(1), hash(2), 16).unwrap_or_else(|error| panic!("permit: {error:?}"));
    let mut called = false;
    let result = secret.with_exposed::<TestHasher, _, _>(&execution, wrong_permit, |_: &[u8]| {
        called = true;
    });
    assert!(matches!(
        result,
        Err(SecretError::SecretIdentityMismatch {
            expected,
            actual
        }) if expected == hash(4) && actual == hash(3)
    ));
    assert!(!called);
}

#[test]
fn assignment_and_selection_reject_different_secret_identities() {
    let execution = execution();
    let mut left = SecretBytes::try_new(hash(3), [1_u8; 8]).unwrap_or_else(|error| panic!("left: {error:?}"));
    let right = SecretBytes::try_new(hash(4), [2_u8; 8]).unwrap_or_else(|error| panic!("right: {error:?}"));
    let choice = SecretChoice::from_public(true);
    assert!(matches!(
        SecretBytes::ct_select(&left, &right, &choice, &execution),
        Err(SecretError::SecretIdentityMismatch { .. })
    ));
    assert!(matches!(
        left.ct_assign(&right, &choice, &execution),
        Err(SecretError::SecretIdentityMismatch { .. })
    ));
}

#[test]
fn permit_rejects_zero_commitments_and_empty_maximum() {
    assert!(matches!(
        ExposurePermit::try_new(Hash32::zero(), hash(1), hash(2), 4),
        Err(SecretError::ZeroHash)
    ));
    assert!(matches!(
        ExposurePermit::try_new(hash(3), hash(1), Hash32::zero(), 4),
        Err(SecretError::ZeroHash)
    ));
    assert!(matches!(
        ExposurePermit::try_new(hash(3), hash(1), hash(2), 0),
        Err(SecretError::InvalidLength)
    ));
}

#[test]
fn permit_encoding_and_commitment_are_exact() {
    let permit = permit(0x0102_0304);
    let encoded = permit.canonical_bytes();
    let mut expected = b"ZFCIS-SECRET-PERMIT\0".to_vec();
    expected.extend_from_slice(&[0, 1]);
    expected.extend_from_slice(&[3_u8; 32]);
    expected.extend_from_slice(&[1_u8; 32]);
    expected.extend_from_slice(&[2_u8; 32]);
    expected.extend_from_slice(&[1, 2, 3, 4]);
    assert_eq!(encoded, expected);

    let framed = permit.commitment_bytes();
    let label = b"zeno-fcis/secret-exposure-permit";
    let mut expected_frame = vec![0_u8, label.len() as u8];
    expected_frame.extend_from_slice(label);
    expected_frame.extend_from_slice(&[0, 1]);
    expected_frame.extend_from_slice(&(expected.len() as u64).to_be_bytes());
    expected_frame.extend_from_slice(&expected);
    assert_eq!(framed, expected_frame);
    assert_eq!(
        permit.commitment::<TestHasher>(),
        Ok(TestHasher::hash(&expected_frame))
    );
}

#[test]
fn exposure_event_carries_exact_permit_hash_and_encoding() {
    let execution = execution();
    let secret = SecretBox::try_new(hash(3), vec![1, 2, 3, 4]).unwrap_or_else(|error| panic!("secret: {error:?}"));
    let permit_hash = permit(4).commitment::<TestHasher>().unwrap_or_else(|error| panic!("hash: {error:?}"));
    let exposed = secret
        .with_exposed::<TestHasher, _, _>(&execution, permit(4), |bytes: &[u8]| bytes.len())
        .unwrap_or_else(|error| panic!("exposure: {error:?}"));
    let event = exposed.event();
    assert_eq!(event.permit_hash(), permit_hash);
    let mut expected = b"ZFCIS-SECRET-EXPOSURE\0".to_vec();
    expected.extend_from_slice(&[0, 1]);
    expected.extend_from_slice(&[3_u8; 32]);
    expected.extend_from_slice(permit_hash.as_bytes());
    expected.extend_from_slice(&[0, 0, 0, 4]);
    assert_eq!(event.canonical_bytes(), expected);
    assert_eq!(exposed.into_parts().0, 4);
}

#[test]
fn assignment_and_selection_follow_the_choice() {
    let execution = execution();
    let mut target = SecretBytes::try_new(hash(3), [1_u8; 4]).unwrap_or_else(|error| panic!("target: {error:?}"));
    let source = SecretBytes::try_new(hash(3), [2_u8; 4]).unwrap_or_else(|error| panic!("source: {error:?}"));
    assert_eq!(target.ct_assign(&source, &SecretChoice::from_public(false), &execution), Ok(()));
    assert_eq!(read_choice(&target.ct_eq(&source, &execution), &execution), 0);
    assert_eq!(target.ct_assign(&source, &SecretChoice::from_public(true), &execution), Ok(()));
    assert_eq!(read_choice(&target.ct_eq(&source, &execution), &execution), 1);

    let mut dynamic = SecretBox::try_new(hash(3), vec![5, 6]).unwrap_or_else(|error| panic!("dynamic: {error:?}"));
    let other = SecretBox::try_new(hash(3), vec![7, 8]).unwrap_or_else(|error| panic!("other: {error:?}"));
    assert_eq!(dynamic.ct_assign(&other, &SecretChoice::from_public(true), &execution), Ok(()));
    assert_eq!(read_choice(&dynamic.ct_eq(&other, &execution), &execution), 1);
    assert_eq!(dynamic.replace(Vec::new()), Err(SecretError::InvalidLength));
    assert_eq!(dynamic.replace(vec![9]), Ok(()));
    assert_eq!(dynamic.len(), 1);
}

#[test]
fn zero_identity_and_empty_buffers_are_refused() {
    assert!(matches!(
        SecretBytes::try_new(Hash32::zero(), [1_u8; 4]),
        Err(SecretError::ZeroHash)
    ));
    assert!(matches!(SecretBytes::try_new(hash(3), [0_u8; 0]), Err(SecretError::InvalidLength)));
    assert!(matches!(SecretBox::try_new(hash(3), Vec::new()), Err(SecretError::InvalidLength)));
}
