use zeno_fcis::os::{
    Capability, CapabilityError, ChannelSpec, CoreId, Criticality, IrqId, MachineOp, MachinePlan,
    MachinePlanError, ObjectId, ObjectKind, ProtectionDomainId, ProtectionDomainSpec, Rights,
    SchedulingContext, SchedulingError, SystemDescription, SystemDescriptionError, TimeDomainId,
    KernelEvent, EventError, AccessType, CapabilitySlot,
};

fn object(kind: ObjectKind, index: u64) -> ObjectId {
    ObjectId::new(kind, 1, index)
}

fn scheduling() -> SchedulingContext {
    match SchedulingContext::try_new(10, 20, 100, Criticality::Critical, TimeDomainId::new(1)) {
        Ok(value) => value,
        Err(error) => panic!("valid scheduling context rejected: {error:?}"),
    }
}

fn capability(rights: Rights) -> Capability {
    match Capability::try_new(object(ObjectKind::Endpoint, 1), rights, 7) {
        Ok(value) => value,
        Err(error) => panic!("valid capability rejected: {error:?}"),
    }
}

#[test]
fn derivation_cannot_amplify_rights() {
    let parent = capability(Rights::signal() | Rights::mint());
    assert_eq!(
        parent.derive(Rights::signal() | Rights::receive(), 7),
        Err(CapabilityError::RightsAmplification)
    );
    let child = parent.derive(Rights::signal(), 9);
    assert!(child.is_ok());
}

#[test]
fn badge_change_requires_mint_authority() {
    let parent = capability(Rights::signal());
    assert_eq!(
        parent.derive(Rights::signal(), 9),
        Err(CapabilityError::BadgeMintWithoutAuthority)
    );
}

#[test]
fn scheduling_relation_is_explicit() {
    assert_eq!(
        SchedulingContext::try_new(30, 20, 100, Criticality::Critical, TimeDomainId::new(1)),
        Err(SchedulingError::BudgetExceedsDeadline)
    );
    assert_eq!(
        SchedulingContext::try_new(10, 101, 100, Criticality::Critical, TimeDomainId::new(1)),
        Err(SchedulingError::DeadlineExceedsPeriod)
    );
}

#[test]
fn mapping_rejects_non_memory_authority() {
    let result = MachinePlan::try_new(vec![MachineOp::MapTranslation {
        address_space: object(ObjectKind::AddressSpace, 1),
        virtual_address: 0x4000,
        frame: object(ObjectKind::Frame, 1),
        rights: Rights::read() | Rights::control(),
        page_bits: 12,
    }]);
    assert_eq!(result, Err(MachinePlanError::InvalidMappingRights));
}

#[test]
fn machine_plan_order_is_semantic() {
    let first = MachineOp::ProgramTimer { core: CoreId::new(0), deadline_ticks: 10 };
    let second = MachineOp::AcknowledgeInterrupt { irq: IrqId::new(5) };
    let left = match MachinePlan::try_new(vec![first.clone(), second.clone()]) {
        Ok(value) => value,
        Err(error) => panic!("valid plan rejected: {error:?}"),
    };
    let right = match MachinePlan::try_new(vec![second, first]) {
        Ok(value) => value,
        Err(error) => panic!("valid plan rejected: {error:?}"),
    };
    assert_ne!(left.canonical_bytes(), right.canonical_bytes());
}

#[test]
fn generation_prevents_object_identity_reuse() {
    let old = ObjectId::new(ObjectKind::Thread, 1, 8);
    let replacement = ObjectId::new(ObjectKind::Thread, 2, 8);
    assert_ne!(old, replacement);
    assert_ne!(old.canonical_bytes(), replacement.canonical_bytes());
}

#[test]
fn system_description_is_history_independent() {
    let sender = match ProtectionDomainSpec::try_new(
        ProtectionDomainId::new(2),
        object(ObjectKind::Thread, 2),
        object(ObjectKind::AddressSpace, 2),
        scheduling(),
        vec![],
    ) {
        Ok(value) => value,
        Err(error) => panic!("valid domain rejected: {error:?}"),
    };
    let receiver = match ProtectionDomainSpec::try_new(
        ProtectionDomainId::new(1),
        object(ObjectKind::Thread, 1),
        object(ObjectKind::AddressSpace, 1),
        scheduling(),
        vec![],
    ) {
        Ok(value) => value,
        Err(error) => panic!("valid domain rejected: {error:?}"),
    };
    let channel = match ChannelSpec::try_new(
        ProtectionDomainId::new(2),
        ProtectionDomainId::new(1),
        object(ObjectKind::Endpoint, 1),
        42,
    ) {
        Ok(value) => value,
        Err(error) => panic!("valid channel rejected: {error:?}"),
    };
    let left = SystemDescription::try_new(vec![sender.clone(), receiver.clone()], vec![channel]);
    let right = SystemDescription::try_new(vec![receiver, sender], vec![channel]);
    assert_eq!(left, right);
}

#[test]
fn channels_must_reference_declared_domains() {
    let domain = match ProtectionDomainSpec::try_new(
        ProtectionDomainId::new(1),
        object(ObjectKind::Thread, 1),
        object(ObjectKind::AddressSpace, 1),
        scheduling(),
        vec![],
    ) {
        Ok(value) => value,
        Err(error) => panic!("valid domain rejected: {error:?}"),
    };
    let channel = match ChannelSpec::try_new(
        ProtectionDomainId::new(1),
        ProtectionDomainId::new(99),
        object(ObjectKind::Endpoint, 1),
        0,
    ) {
        Ok(value) => value,
        Err(error) => panic!("valid endpoint rejected: {error:?}"),
    };
    assert_eq!(
        SystemDescription::try_new(vec![domain], vec![channel]),
        Err(SystemDescriptionError::UnknownProtectionDomain)
    );
}

#[test]
fn rights_from_bits_rejects_unknown_bits() {
    assert_eq!(Rights::from_bits(0x1000), Err(CapabilityError::UnknownRights));
    assert_eq!(Rights::from_bits(0xfff).map(|r| r.bits()), Ok(0xfff));
    assert_eq!(Rights::from_bits(0x7).map(|r| r.memory_rights().bits()), Ok(0x7));
    assert_eq!(Rights::from_bits(0xff).map(|r| r.memory_rights().bits()), Ok(0x7));
}

#[test]
fn empty_rights_are_refused() {
    let empty = Rights::from_bits(0).unwrap();
    assert!(empty.is_empty());
    assert_eq!(
        Capability::try_new(object(ObjectKind::Endpoint, 1), empty, 0),
        Err(CapabilityError::EmptyRights)
    );
    let parent = capability(Rights::signal());
    assert_eq!(parent.derive(empty, 7), Err(CapabilityError::EmptyRights));
}

#[test]
fn zero_duration_is_refused() {
    assert_eq!(
        SchedulingContext::try_new(0, 20, 100, Criticality::Normal, TimeDomainId::new(1)),
        Err(SchedulingError::ZeroDuration)
    );
    let context = scheduling();
    assert_eq!(context.budget_ticks(), 10);
    assert_eq!(context.deadline_ticks(), 20);
    assert_eq!(context.period_ticks(), 100);
}

#[test]
fn kernel_events_check_object_kinds_and_bounds() {
    let thread = object(ObjectKind::Thread, 1);
    let space = object(ObjectKind::AddressSpace, 1);
    assert_eq!(
        KernelEvent::system_call(space, 1, vec![]),
        Err(EventError::WrongObjectKind)
    );
    assert_eq!(
        KernelEvent::system_call(thread, 1, vec![0; 17]),
        Err(EventError::TooManySyscallArguments)
    );
    let call = KernelEvent::system_call(thread, 7, vec![1, 2]).unwrap();
    let bytes = call.canonical_bytes().unwrap();
    assert_eq!(bytes[0..3], [0, 1, 0]);
    assert_eq!(bytes.len(), 2 + 1 + 14 + 4 + 4 + 16);
    assert_eq!(
        KernelEvent::page_fault(space, space, 0, 0, AccessType::Read),
        Err(EventError::WrongObjectKind)
    );
    assert!(KernelEvent::page_fault(thread, space, 0x1000, 0, AccessType::Write).is_ok());
}

#[test]
fn object_encoding_is_big_endian() {
    let id = ObjectId::new(ObjectKind::Frame, 0x01020304, 0x05);
    assert_eq!(
        id.canonical_bytes().unwrap(),
        vec![0, 7, 1, 2, 3, 4, 0, 0, 0, 0, 0, 0, 0, 5]
    );
}

#[test]
fn page_alignment_and_size_are_checked() {
    let space = object(ObjectKind::AddressSpace, 1);
    assert_eq!(
        MachinePlan::try_new(vec![MachineOp::UnmapTranslation {
            address_space: space,
            virtual_address: 0x1000,
            page_bits: 11,
        }]),
        Err(MachinePlanError::InvalidPageBits)
    );
    assert_eq!(
        MachinePlan::try_new(vec![MachineOp::UnmapTranslation {
            address_space: space,
            virtual_address: 0x1800,
            page_bits: 12,
        }]),
        Err(MachinePlanError::MisalignedVirtualAddress)
    );
    assert_eq!(
        MachinePlan::try_new(vec![MachineOp::FlushTimeDomain {
            core: CoreId::new(0),
            from: TimeDomainId::new(1),
            to: TimeDomainId::new(1),
        }]),
        Err(MachinePlanError::RedundantTimeDomainFlush)
    );
    let plan = MachinePlan::try_new(vec![MachineOp::UnmapTranslation {
        address_space: space,
        virtual_address: 0x2000,
        page_bits: 13,
    }])
    .unwrap();
    assert!(!plan.is_empty());
    assert_eq!(plan.operations().len(), 1);
    assert_eq!(
        MachinePlan::try_new(vec![MachineOp::ProgramTimer { core: CoreId::new(0), deadline_ticks: 1 }; 4097]),
        Err(MachinePlanError::TooManyOperations)
    );
}

#[test]
fn capability_slots_are_canonical_and_unique() {
    let cap = capability(Rights::signal());
    let domain = ProtectionDomainSpec::try_new(
        ProtectionDomainId::new(1),
        object(ObjectKind::Thread, 1),
        object(ObjectKind::AddressSpace, 1),
        scheduling(),
        vec![CapabilitySlot::new(5, cap), CapabilitySlot::new(2, cap)],
    )
    .unwrap();
    let slots: Vec<u32> = domain.capabilities().iter().map(|s| s.slot()).collect();
    assert_eq!(slots, vec![2, 5]);
    assert_eq!(
        ProtectionDomainSpec::try_new(
            ProtectionDomainId::new(1),
            object(ObjectKind::Thread, 1),
            object(ObjectKind::AddressSpace, 1),
            scheduling(),
            vec![CapabilitySlot::new(5, cap), CapabilitySlot::new(5, cap)],
        ),
        Err(SystemDescriptionError::DuplicateCapabilitySlot)
    );
    assert_eq!(
        ProtectionDomainSpec::try_new(
            ProtectionDomainId::new(1),
            object(ObjectKind::AddressSpace, 1),
            object(ObjectKind::AddressSpace, 1),
            scheduling(),
            vec![],
        ),
        Err(SystemDescriptionError::WrongObjectKind)
    );
}

#[test]
fn duplicate_domains_and_channels_are_refused() {
    let domain = ProtectionDomainSpec::try_new(
        ProtectionDomainId::new(1),
        object(ObjectKind::Thread, 1),
        object(ObjectKind::AddressSpace, 1),
        scheduling(),
        vec![],
    )
    .unwrap();
    assert_eq!(
        SystemDescription::try_new(vec![domain.clone(), domain.clone()], vec![]),
        Err(SystemDescriptionError::DuplicateProtectionDomain)
    );
    let channel = ChannelSpec::try_new(
        ProtectionDomainId::new(1),
        ProtectionDomainId::new(1),
        object(ObjectKind::Endpoint, 3),
        0,
    )
    .unwrap();
    assert_eq!(
        SystemDescription::try_new(vec![domain.clone()], vec![channel, channel]),
        Err(SystemDescriptionError::DuplicateChannel)
    );
    assert_eq!(
        ChannelSpec::try_new(
            ProtectionDomainId::new(1),
            ProtectionDomainId::new(1),
            object(ObjectKind::Thread, 3),
            0,
        ),
        Err(SystemDescriptionError::WrongObjectKind)
    );
    let system = SystemDescription::try_new(vec![domain], vec![channel]).unwrap();
    let bytes = system.canonical_bytes().unwrap();
    assert_eq!(&bytes[0..16], b"ZFCIS-OS-SYSTEM\0");
    assert_eq!(system.domains().len(), 1);
    assert_eq!(system.channels().len(), 1);
}
