use zeno_fcis::commit::{CommitmentHasher, Hash32};
use zeno_fcis::project::{
    compare_successor, AdditiveExtensionEvidence, CompatibilityBlocker, DomainPrefix,
    EvolutionError, EvolutionMode, ProfileBindings, ProfileError, ProfileEvolution,
    ProjectProfile, RegistryEntry, RegistryKind, SemanticId, StableName,
};

#[derive(Clone, Copy, Debug)]
struct TestHasher;

impl CommitmentHasher for TestHasher {
    fn algorithm_id() -> &'static str {
        "test-only/1"
    }

    fn hash(bytes: &[u8]) -> Hash32 {
        let mut output = [0_u8; 32];
        for (index, byte) in bytes.iter().enumerate() {
            let slot = index % output.len();
            output[slot] = output[slot]
                .wrapping_add(*byte)
                .rotate_left((index % 8) as u32);
        }
        Hash32::new(output)
    }
}

fn hash(byte: u8) -> Hash32 {
    Hash32::new([byte; 32])
}

fn name(value: &str) -> StableName {
    StableName::try_new(value).unwrap_or_else(|error| panic!("name: {error:?}"))
}

fn id(value: u32) -> SemanticId {
    SemanticId::try_new(value).unwrap_or_else(|error| panic!("id: {error:?}"))
}

fn entry(kind: RegistryKind, raw_id: u32, label: &str, byte: u8) -> RegistryEntry {
    RegistryEntry::try_new(kind, id(raw_id), name(label), hash(byte))
        .unwrap_or_else(|error| panic!("entry: {error:?}"))
}

fn bindings() -> ProfileBindings {
    ProfileBindings {
        schema_hash: hash(1),
        precedence_hash: hash(2),
        algorithm_hash: hash(3),
        codec_hash: hash(4),
        effect_registry_hash: hash(5),
        channel_registry_hash: hash(6),
        policy_hash: hash(7),
    }
}

fn profile(version: u32, extras: Vec<RegistryEntry>) -> ProjectProfile {
    profile_with_bindings(version, bindings(), extras)
}

fn profile_with_bindings(
    version: u32,
    profile_bindings: ProfileBindings,
    mut extras: Vec<RegistryEntry>,
) -> ProjectProfile {
    let mut entries = vec![
        entry(RegistryKind::StateType, 1, "state", 11),
        entry(RegistryKind::CommandType, 2, "command", 12),
        entry(RegistryKind::ContextType, 3, "context", 13),
    ];
    entries.append(&mut extras);
    ProjectProfile::try_new(
        name("example"),
        name("core"),
        id(100),
        version,
        id(1),
        id(2),
        id(3),
        DomainPrefix::try_new("example/core").unwrap_or_else(|error| panic!("domain: {error:?}")),
        profile_bindings,
        entries,
    )
    .unwrap_or_else(|error| panic!("profile: {error:?}"))
}

#[test]
fn names_are_normalized_and_fail_closed() {
    assert!(StableName::try_new("zenostorage").is_ok());
    assert_eq!(
        StableName::try_new("ZenoStorage"),
        Err(ProfileError::InvalidStableName)
    );
    assert_eq!(
        DomainPrefix::try_new("bad prefix"),
        Err(ProfileError::InvalidDomainPrefix)
    );
}

#[test]
fn name_and_prefix_rules_are_exact() {
    assert!(StableName::try_new("a.b_c-9").is_ok());
    assert!(StableName::try_new("9lives").is_ok());
    assert_eq!(StableName::try_new("-lead"), Err(ProfileError::InvalidStableName));
    assert_eq!(StableName::try_new(""), Err(ProfileError::InvalidStableName));
    assert!(StableName::try_new(&"a".repeat(64)).is_ok());
    assert_eq!(StableName::try_new(&"a".repeat(65)), Err(ProfileError::InvalidStableName));
    assert_eq!(StableName::try_new("a/b"), Err(ProfileError::InvalidStableName));
    assert!(DomainPrefix::try_new("zenostorage/agreement:v1").is_ok());
    assert_eq!(DomainPrefix::try_new("/root"), Err(ProfileError::InvalidDomainPrefix));
    assert!(DomainPrefix::try_new(&"a".repeat(160)).is_ok());
    assert_eq!(DomainPrefix::try_new(&"a".repeat(161)), Err(ProfileError::InvalidDomainPrefix));
    assert_eq!(SemanticId::try_new(0), Err(ProfileError::ZeroSemanticId));
    assert_eq!(SemanticId::try_new(7).map(|value| value.get()), Ok(7));
    assert_eq!(
        RegistryEntry::try_new(RegistryKind::Reason, id(4), name("denied"), Hash32::zero()),
        Err(ProfileError::ZeroDefinitionHash)
    );
}

#[test]
fn registry_declaration_order_does_not_change_bytes() {
    let left = profile(
        1,
        vec![
            entry(RegistryKind::Effect, 8, "write", 20),
            entry(RegistryKind::Reason, 4, "denied", 21),
        ],
    );
    let right = profile(
        1,
        vec![
            entry(RegistryKind::Reason, 4, "denied", 21),
            entry(RegistryKind::Effect, 8, "write", 20),
        ],
    );
    assert_eq!(left, right);
    assert_eq!(left.canonical_bytes(), right.canonical_bytes());
    assert_eq!(
        left.commitment::<TestHasher>(),
        right.commitment::<TestHasher>()
    );
}

#[test]
fn duplicate_stable_identifier_and_name_are_rejected() {
    let duplicate_id = vec![
        entry(RegistryKind::StateType, 1, "state", 11),
        entry(RegistryKind::StateType, 1, "other-state", 12),
        entry(RegistryKind::CommandType, 2, "command", 13),
        entry(RegistryKind::ContextType, 3, "context", 14),
    ];
    let result = ProjectProfile::try_new(
        name("example"),
        name("core"),
        id(100),
        1,
        id(1),
        id(2),
        id(3),
        DomainPrefix::try_new("example/core").unwrap_or_else(|error| panic!("domain: {error:?}")),
        bindings(),
        duplicate_id,
    );
    assert!(matches!(
        result,
        Err(ProfileError::DuplicateRegistryId {
            kind: RegistryKind::StateType,
            ..
        })
    ));

    let duplicate_name = vec![
        entry(RegistryKind::StateType, 1, "state", 11),
        entry(RegistryKind::CommandType, 2, "command", 12),
        entry(RegistryKind::ContextType, 3, "context", 13),
        entry(RegistryKind::Reason, 4, "denied", 14),
        entry(RegistryKind::Reason, 7, "denied", 15),
    ];
    assert!(matches!(
        ProjectProfile::try_new(
            name("example"),
            name("core"),
            id(100),
            1,
            id(1),
            id(2),
            id(3),
            DomainPrefix::try_new("example/core")
                .unwrap_or_else(|error| panic!("domain: {error:?}")),
            bindings(),
            duplicate_name,
        ),
        Err(ProfileError::DuplicateRegistryName {
            kind: RegistryKind::Reason,
            ..
        })
    ));
}

#[test]
fn profile_construction_reports_each_refusal() {
    let base = || {
        vec![
            entry(RegistryKind::StateType, 1, "state", 11),
            entry(RegistryKind::CommandType, 2, "command", 12),
            entry(RegistryKind::ContextType, 3, "context", 13),
        ]
    };
    let build = |version: u32, profile_bindings: ProfileBindings, entries: Vec<RegistryEntry>| {
        ProjectProfile::try_new(
            name("example"),
            name("core"),
            id(100),
            version,
            id(1),
            id(2),
            id(9),
            DomainPrefix::try_new("example/core").unwrap(),
            profile_bindings,
            entries,
        )
    };
    assert_eq!(build(0, bindings(), base()), Err(ProfileError::ZeroProfileVersion));
    let mut zeroed = bindings();
    zeroed.policy_hash = Hash32::zero();
    assert_eq!(build(1, zeroed, base()), Err(ProfileError::ZeroProfileBinding));
    assert_eq!(
        build(1, bindings(), base()),
        Err(ProfileError::MissingRootEntry { kind: RegistryKind::ContextType, id: id(9) })
    );
    let mut entries = base();
    entries.push(entry(RegistryKind::Reason, 5, "same", 20));
    entries.push(entry(RegistryKind::Reason, 5, "same", 21));
    entries.push(entry(RegistryKind::Effect, 2, "same", 22));
    entries.push(entry(RegistryKind::Effect, 2, "same", 23));
    assert_eq!(
        build(1, bindings(), entries),
        Err(ProfileError::DuplicateRegistryId { kind: RegistryKind::Reason, id: id(5) })
    );
}

#[test]
fn profile_lookup_and_exact_bytes() {
    let profile = profile(3, vec![entry(RegistryKind::Reason, 4, "denied", 21)]);
    assert_eq!(profile.version(), 3);
    assert_eq!(profile.project().as_str(), "example");
    assert_eq!(profile.domain_prefix().as_str(), "example/core");
    assert_eq!(profile.entries().len(), 4);
    assert_eq!(
        profile.entry(RegistryKind::Reason, id(4)).map(|found| found.name().as_str()),
        Some("denied")
    );
    assert!(profile.entry(RegistryKind::Reason, id(5)).is_none());
    let bytes = profile.canonical_bytes().unwrap();
    assert!(bytes.starts_with(b"ZFCIS-PROJECT\0\0\x01\0\x07example\0\x04core"));
    let mut framed = vec![0, 25];
    framed.extend_from_slice(b"zeno-fcis/project-profile");
    framed.extend_from_slice(&[0, 1]);
    framed.extend_from_slice(&(bytes.len() as u64).to_be_bytes());
    framed.extend_from_slice(&bytes);
    assert_eq!(profile.commitment_bytes(), framed);
}

#[test]
fn additive_successor_may_add_but_not_rebind_entries() {
    let previous = profile(1, vec![entry(RegistryKind::Reason, 10, "denied", 30)]);
    let additive = profile(
        2,
        vec![
            entry(RegistryKind::Reason, 10, "denied", 30),
            entry(RegistryKind::Reason, 11, "expired", 31),
        ],
    );
    assert!(compare_successor(&previous, &additive, EvolutionMode::additive()).is_compatible());

    let rebound = profile(2, vec![entry(RegistryKind::Reason, 10, "denied", 99)]);
    let report = compare_successor(&previous, &rebound, EvolutionMode::additive());
    assert_eq!(
        report.blockers(),
        &[CompatibilityBlocker::ReboundEntry {
            kind: RegistryKind::Reason,
            id: id(10),
        }]
    );
}

#[test]
fn removed_entries_and_identity_changes_are_reported() {
    let previous = profile(2, vec![entry(RegistryKind::Reason, 10, "denied", 30)]);
    let next = profile(2, Vec::new());
    assert_eq!(
        compare_successor(&previous, &next, EvolutionMode::additive()).blockers(),
        &[
            CompatibilityBlocker::NonIncreasingVersion,
            CompatibilityBlocker::RemovedEntry { kind: RegistryKind::Reason, id: id(10) },
        ]
    );
    let mut changed = bindings();
    changed.codec_hash = hash(90);
    let recoded = profile_with_bindings(3, changed, vec![entry(RegistryKind::Reason, 10, "denied", 30)]);
    assert_eq!(
        compare_successor(&previous, &recoded, EvolutionMode::additive()).blockers(),
        &[CompatibilityBlocker::BindingChanged("codec")]
    );
    assert_eq!(
        compare_successor(&previous, &previous, EvolutionMode::additive()).blockers(),
        &[CompatibilityBlocker::NonIncreasingVersion]
    );
}

#[test]
fn migration_requires_an_explicit_nonzero_commitment() {
    let previous = profile(1, Vec::new());
    let next = profile(2, Vec::new());
    let report = compare_successor(
        &previous,
        &next,
        EvolutionMode::Migrated {
            migration_hash: Hash32::zero(),
        },
    );
    assert_eq!(
        report.blockers(),
        &[CompatibilityBlocker::MissingMigrationHash]
    );
    assert!(
        compare_successor(
            &previous,
            &next,
            EvolutionMode::Migrated {
                migration_hash: hash(42),
            },
        )
        .is_compatible()
    );
}

#[test]
fn additive_binding_changes_require_exact_extension_evidence() {
    let previous = profile(1, Vec::new());
    let mut changed = bindings();
    changed.schema_hash = hash(40);
    changed.effect_registry_hash = hash(41);
    changed.channel_registry_hash = hash(42);
    let next_without_additions = profile_with_bindings(2, changed, Vec::new());

    assert_eq!(
        compare_successor(
            &previous,
            &next_without_additions,
            EvolutionMode::additive()
        )
        .blockers(),
        &[
            CompatibilityBlocker::UnprovenBindingChange("schema"),
            CompatibilityBlocker::UnprovenBindingChange("effect-registry"),
            CompatibilityBlocker::UnprovenBindingChange("channel-registry"),
        ]
    );

    let evidence =
        AdditiveExtensionEvidence::try_new(Some(hash(50)), Some(hash(51)), Some(hash(52)))
            .unwrap_or_else(|error| panic!("evidence: {error:?}"));
    assert_eq!(
        compare_successor(
            &previous,
            &next_without_additions,
            EvolutionMode::Additive { evidence },
        )
        .blockers(),
        &[
            CompatibilityBlocker::BindingChangedWithoutRegistryAddition("schema"),
            CompatibilityBlocker::BindingChangedWithoutRegistryAddition("effect-registry"),
            CompatibilityBlocker::BindingChangedWithoutRegistryAddition("channel-registry"),
        ]
    );

    let next_with_additions = profile_with_bindings(
        2,
        changed,
        vec![
            entry(RegistryKind::StateType, 20, "state-extension", 60),
            entry(RegistryKind::Effect, 21, "effect-extension", 61),
            entry(RegistryKind::Channel, 22, "channel-extension", 62),
        ],
    );
    assert!(
        compare_successor(
            &previous,
            &next_with_additions,
            EvolutionMode::Additive { evidence },
        )
        .is_compatible()
    );
}

#[test]
fn unused_or_zero_extension_evidence_is_rejected() {
    assert_eq!(
        AdditiveExtensionEvidence::try_new(Some(Hash32::zero()), None, None),
        Err(ProfileError::ZeroExtensionEvidence("schema"))
    );
    assert_eq!(
        AdditiveExtensionEvidence::try_new(None, Some(hash(3)), Some(Hash32::zero())),
        Err(ProfileError::ZeroExtensionEvidence("channel-registry"))
    );

    let previous = profile(1, Vec::new());
    let next = profile(2, Vec::new());
    let evidence =
        AdditiveExtensionEvidence::try_new(Some(hash(70)), Some(hash(71)), Some(hash(72)))
            .unwrap_or_else(|error| panic!("evidence: {error:?}"));
    assert_eq!(
        compare_successor(&previous, &next, EvolutionMode::Additive { evidence }).blockers(),
        &[
            CompatibilityBlocker::UnexpectedExtensionEvidence("schema"),
            CompatibilityBlocker::UnexpectedExtensionEvidence("effect-registry"),
            CompatibilityBlocker::UnexpectedExtensionEvidence("channel-registry"),
        ]
    );
}

#[test]
fn evolution_artifact_binds_exact_profiles_and_migration() {
    let previous = profile(1, Vec::new());
    let next = profile(2, Vec::new());
    let first = ProfileEvolution::try_new::<TestHasher>(
        &previous,
        &next,
        EvolutionMode::Migrated {
            migration_hash: hash(80),
        },
    )
    .unwrap_or_else(|error| panic!("first evolution: {error:?}"));
    let second = ProfileEvolution::try_new::<TestHasher>(
        &previous,
        &next,
        EvolutionMode::Migrated {
            migration_hash: hash(81),
        },
    )
    .unwrap_or_else(|error| panic!("second evolution: {error:?}"));

    assert_eq!(
        first.previous_profile_hash(),
        previous
            .commitment::<TestHasher>()
            .unwrap_or_else(|error| panic!("previous: {error:?}"))
    );
    assert_eq!(
        first.next_profile_hash(),
        next.commitment::<TestHasher>()
            .unwrap_or_else(|error| panic!("next: {error:?}"))
    );
    assert_ne!(first.canonical_bytes(), second.canonical_bytes());
    assert_ne!(
        first.commitment::<TestHasher>(),
        second.commitment::<TestHasher>()
    );
}

#[test]
fn evolution_artifact_cannot_bind_an_incompatible_pair() {
    let previous = profile(2, Vec::new());
    let next = profile(1, Vec::new());
    assert!(matches!(
        ProfileEvolution::try_new::<TestHasher>(&previous, &next, EvolutionMode::additive()),
        Err(EvolutionError::Incompatible(_))
    ));
}
