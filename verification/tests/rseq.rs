use halloc::rseq::{
    new_cpu_shards, plan_registration, registered_after, registration_outcome, reserve_request_valid,
    rseq_auxv, rseq_available, rseq_registration_error, rseq_registration_len, shard_for_cpu,
    sum_shards, RegistrationStep, RseqAbi, RseqAuxv, RseqError, MAX_CPUS,
    RSEQ_CPU_ID_UNINITIALIZED,
};

#[test]
fn auxv_needs_both_entries() {
    assert_eq!(rseq_auxv(0, 32), None);
    assert_eq!(rseq_auxv(28, 0), None);
    assert_eq!(rseq_auxv(28, 32), Some(RseqAuxv { feature_size: 28, align: 32 }));
}

#[test]
fn registration_len_is_at_least_abi_size() {
    assert_eq!(rseq_registration_len(RseqAuxv { feature_size: 28, align: 32 }), 32);
    assert_eq!(rseq_registration_len(RseqAuxv { feature_size: 40, align: 32 }), 40);
}

#[test]
fn registration_plan_follows_checks_in_order() {
    let aux = Some(RseqAuxv { feature_size: 20, align: 32 });
    assert_eq!(plan_registration(true, None, None, 3), RegistrationStep::AlreadyRegistered);
    assert_eq!(plan_registration(false, None, aux, 64), RegistrationStep::Fail(RseqError::Unsupported));
    assert_eq!(
        plan_registration(false, Some(334), None, 64),
        RegistrationStep::Fail(RseqError::NotAdvertisedByKernel)
    );
    assert_eq!(
        plan_registration(false, Some(334), aux, 48),
        RegistrationStep::Fail(RseqError::MisalignedThreadStorage { addr: 48, required_align: 32 })
    );
    assert_eq!(
        plan_registration(false, Some(334), aux, 64),
        RegistrationStep::Invoke { syscall_nr: 334, reg_len: 32 }
    );
}

#[test]
fn registration_outcome_reports_errno() {
    assert_eq!(registration_outcome(0, 22), Ok(()));
    assert_eq!(registration_outcome(-1, 22), Err(RseqError::SyscallFailed { errno: 22 }));
    assert!(rseq_available(Ok(())));
    assert!(!rseq_available(Err(RseqError::Unsupported)));
    assert_eq!(rseq_registration_error(Ok(())), None);
    assert_eq!(
        rseq_registration_error(Err(RseqError::SyscallFailed { errno: 38 })),
        Some(RseqError::SyscallFailed { errno: 38 })
    );
}

#[test]
fn abi_block_starts_uninitialized() {
    let abi = RseqAbi::new();
    assert_eq!(abi.cpu_id, RSEQ_CPU_ID_UNINITIALIZED);
    assert_eq!(abi.cpu_id_start, u32::MAX);
    assert_eq!(abi.rseq_cs, 0);
}

#[test]
fn cpu_shards_start_at_zero_and_sum() {
    let mut shards = new_cpu_shards();
    assert_eq!(shards.len(), MAX_CPUS);
    assert_eq!(sum_shards(&shards), 0);
    shards[3] = 10;
    shards[MAX_CPUS - 1] = 5;
    assert_eq!(sum_shards(&shards), 15);
}

#[test]
fn registers_at_most_once() {
    let aux = Some(RseqAuxv { feature_size: 32, align: 32 });
    assert!(!registered_after(false, Err(RseqError::SyscallFailed { errno: 22 })));
    let now = registered_after(false, registration_outcome(0, 0));
    assert!(now);
    assert_eq!(plan_registration(now, Some(334), aux, 64), RegistrationStep::AlreadyRegistered);
    assert!(registered_after(now, Err(RseqError::Unsupported)));
}

#[test]
fn reserve_prechecks() {
    assert!(reserve_request_valid(64, 64));
    assert!(!reserve_request_valid(0, 64));
    assert!(!reserve_request_valid(64, 48));
    assert_eq!(shard_for_cpu(3, MAX_CPUS), Some(3));
    assert_eq!(shard_for_cpu(1024, MAX_CPUS), None);
    assert_eq!(shard_for_cpu(u32::MAX, usize::MAX), Some(u32::MAX as usize));
}
