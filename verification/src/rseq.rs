//! Decisions of restartable-sequence (rseq) registration, and the per-CPU
//! shard tables used with it. The system calls and the critical sections
//! themselves are made by the caller.

use vstd::prelude::*;

verus! {

/// `cpu_id_start` / `cpu_id` value before the kernel publishes a CPU index.
pub const RSEQ_CPU_ID_UNINITIALIZED: u32 = 4294967295;

/// Size in bytes of the per-thread block registered with the kernel.
pub const RSEQ_ABI_SIZE: usize = 32;

/// Upper bound on Linux CPU indices that shard tables cover.
pub const MAX_CPUS: usize = 1024;

/// Why `rseq(2)` registration failed on this host.
#[derive(Debug, Clone, Copy, PartialEq, Eq, Structural)]
pub enum RseqError {
    /// Not a Linux target, or this architecture has no `SYS_rseq` constant.
    Unsupported,
    /// Kernel did not publish rseq aux-vector entries (older kernel or disabled).
    NotAdvertisedByKernel,
    /// Thread-local `struct rseq` is not aligned as required by `AT_RSEQ_ALIGN`.
    MisalignedThreadStorage { addr: usize, required_align: usize },
    /// Syscall returned an error; see `errno` (e.g. 22 = EINVAL, 38 = ENOSYS).
    SyscallFailed { errno: i32 },
}

/// Kernel-published rseq registration parameters from the ELF aux vector.
#[derive(Debug, Clone, Copy, PartialEq, Eq, Structural)]
pub struct RseqAuxv {
    pub feature_size: usize,
    pub align: usize,
}

/// The per-thread block registered via `rseq(2)`, before registration.
#[derive(Debug, Clone, Copy, PartialEq, Eq, Structural)]
pub struct RseqAbi {
    pub cpu_id_start: u32,
    pub cpu_id: u32,
    pub rseq_cs: u64,
    pub flags: u32,
    pub node_id: u32,
    pub mm_cid: u32,
}

impl RseqAbi {
    /// A block that no kernel has written yet: both CPU fields hold the
    /// "uninitialized" marker, everything else is zero.
    pub fn new() -> (r: RseqAbi)
        ensures
            r.cpu_id_start == RSEQ_CPU_ID_UNINITIALIZED,
            r.cpu_id == RSEQ_CPU_ID_UNINITIALIZED,
            r.rseq_cs == 0,
            r.flags == 0,
            r.node_id == 0,
            r.mm_cid == 0,
    {
        RseqAbi {
            cpu_id_start: RSEQ_CPU_ID_UNINITIALIZED,
            cpu_id: RSEQ_CPU_ID_UNINITIALIZED,
            rseq_cs: 0,
            flags: 0,
            node_id: 0,
            mm_cid: 0,
        }
    }
}

/// Interprets the aux-vector entries `AT_RSEQ_FEATURE_SIZE` and
/// `AT_RSEQ_ALIGN` as `getauxval(3)` reports them: `None` when either is zero
/// (not published).
pub fn rseq_auxv(feature_size: usize, align: usize) -> (r: Option<RseqAuxv>)
    ensures
        r is None <==> feature_size == 0 || align == 0,
        r matches Some(a) ==> a.feature_size == feature_size && a.align == align,
{
    if feature_size == 0 || align == 0 {
        return None;
    }
    Some(RseqAuxv { feature_size, align })
}

/// The length to register: never less than the block's own size, even when
/// the kernel's feature size lags behind.
pub fn rseq_registration_len(auxv: RseqAuxv) -> (r: usize)
    ensures
        r == if auxv.feature_size >= RSEQ_ABI_SIZE { auxv.feature_size } else { RSEQ_ABI_SIZE },
        r >= 32 && r >= auxv.feature_size && (r == 32 || r == auxv.feature_size),
{
    if auxv.feature_size >= RSEQ_ABI_SIZE {
        auxv.feature_size
    } else {
        RSEQ_ABI_SIZE
    }
}

/// What registering the current thread has to do next.
#[derive(Debug, Clone, Copy, PartialEq, Eq, Structural)]
pub enum RegistrationStep {
    /// The thread is registered already.
    AlreadyRegistered,
    /// Registration cannot succeed on this host.
    Fail(RseqError),
    /// Make the `rseq(2)` call with this number and length.
    Invoke { syscall_nr: i64, reg_len: usize },
}

/// The step that registration takes, from whether the thread is
/// registered, the system-call number, the aux-vector parameters and the
/// address of the thread's block, checked in that order.
pub open spec fn plan_spec(
    already_registered: bool,
    syscall_nr: Option<i64>,
    auxv: Option<RseqAuxv>,
    tls_addr: usize,
) -> RegistrationStep {
    if already_registered {
        RegistrationStep::AlreadyRegistered
    } else if syscall_nr is None {
        RegistrationStep::Fail(RseqError::Unsupported)
    } else if auxv is None {
        RegistrationStep::Fail(RseqError::NotAdvertisedByKernel)
    } else if tls_addr % auxv->0.align != 0 {
        RegistrationStep::Fail(
            RseqError::MisalignedThreadStorage { addr: tls_addr, required_align: auxv->0.align },
        )
    } else {
        RegistrationStep::Invoke {
            syscall_nr: syscall_nr->0,
            reg_len: if auxv->0.feature_size >= RSEQ_ABI_SIZE {
                auxv->0.feature_size
            } else {
                RSEQ_ABI_SIZE
            },
        }
    }
}

/// Decides the registration of the current thread from what the host
/// offers: whether it is registered already, the system-call number, the
/// aux-vector parameters and the address of the thread's block.
pub fn plan_registration(
    already_registered: bool,
    syscall_nr: Option<i64>,
    auxv: Option<RseqAuxv>,
    tls_addr: usize,
) -> (r: RegistrationStep)
    requires
        auxv matches Some(a) ==> a.align != 0,
    ensures
        r == plan_spec(already_registered, syscall_nr, auxv, tls_addr),
{
    if already_registered {
        return RegistrationStep::AlreadyRegistered;
    }
    let nr = match syscall_nr {
        Some(nr) => nr,
        None => return RegistrationStep::Fail(RseqError::Unsupported),
    };
    let a = match auxv {
        Some(a) => a,
        None => return RegistrationStep::Fail(RseqError::NotAdvertisedByKernel),
    };
    if tls_addr % a.align != 0 {
        return RegistrationStep::Fail(
            RseqError::MisalignedThreadStorage { addr: tls_addr, required_align: a.align },
        );
    }
    RegistrationStep::Invoke { syscall_nr: nr, reg_len: rseq_registration_len(a) }
}

/// The registration call is made only for an unregistered thread on a host
/// that offers the system call and the aux-vector parameters, with the
/// thread's block aligned as required, and with a length that covers both
/// the 32-byte block and the kernel's feature size and is one of the two.
pub proof fn lemma_plan_invokes_full_registration(
    already_registered: bool,
    syscall_nr: Option<i64>,
    auxv: Option<RseqAuxv>,
    tls_addr: usize,
)
    ensures
        plan_spec(already_registered, syscall_nr, auxv, tls_addr) matches RegistrationStep::Invoke {
            syscall_nr: nr,
            reg_len,
        } ==> {
            &&& !already_registered
            &&& syscall_nr == Some(nr)
            &&& auxv is Some
            &&& tls_addr % auxv->0.align == 0
            &&& reg_len >= 32
            &&& reg_len >= auxv->0.feature_size
            &&& (reg_len == 32 || reg_len == auxv->0.feature_size)
        },
        already_registered ==> plan_spec(already_registered, syscall_nr, auxv, tls_addr)
            == RegistrationStep::AlreadyRegistered,
{
}

/// Interprets the result of the `rseq(2)` call: success when it returned
/// zero, else the `errno` it left.
pub fn registration_outcome(rc: i64, errno: i32) -> (r: Result<(), RseqError>)
    ensures
        r == (if rc == 0 {
            Ok(())
        } else {
            Err(RseqError::SyscallFailed { errno })
        }),
{
    if rc == 0 {
        Ok(())
    } else {
        Err(RseqError::SyscallFailed { errno })
    }
}

/// Whether the thread counts as registered after an attempt with `outcome`,
/// given whether it was registered before.
pub open spec fn registered_spec(already_registered: bool, outcome: Result<(), RseqError>) -> bool {
    already_registered || outcome is Ok
}

/// Whether the thread counts as registered after a registration attempt
/// with `outcome`, given whether it was registered before.
pub fn registered_after(already_registered: bool, outcome: Result<(), RseqError>) -> (r: bool)
    ensures
        r == registered_spec(already_registered, outcome),
{
    already_registered || outcome.is_ok()
}

/// A thread registers at most once: after a successful attempt the thread
/// counts as registered, and every later attempt, whatever the host reports,
/// plans no system call.
pub proof fn lemma_registers_at_most_once(
    already_registered: bool,
    outcome: Result<(), RseqError>,
    syscall_nr: Option<i64>,
    auxv: Option<RseqAuxv>,
    tls_addr: usize,
)
    requires
        outcome is Ok,
    ensures
        registered_spec(already_registered, outcome),
        plan_spec(registered_spec(already_registered, outcome), syscall_nr, auxv, tls_addr)
            == RegistrationStep::AlreadyRegistered,
        registered_spec(registered_spec(already_registered, outcome), Ok(())),
{
}

/// `true` when registration succeeded.
pub fn rseq_available(outcome: Result<(), RseqError>) -> (r: bool)
    ensures
        r == outcome is Ok,
{
    outcome.is_ok()
}

/// The registration error, for diagnostics; `None` after a success.
pub fn rseq_registration_error(outcome: Result<(), RseqError>) -> (r: Option<RseqError>)
    ensures
        r == match outcome {
            Ok(()) => None::<RseqError>,
            Err(e) => Some(e),
        },
{
    match outcome {
        Ok(()) => None,
        Err(e) => Some(e),
    }
}

/// A reservation request can be served: a non-empty size and a power-of-two
/// alignment.
pub fn reserve_request_valid(size: usize, align: usize) -> (r: bool)
    ensures
        r == (size != 0 && crate::layout::is_power_of_two(align)),
{
    size != 0 && crate::layout::usize_is_power_of_two(align)
}

/// The shard of the CPU with index `cpu` in a table of `shard_count` shards,
/// or `None` when the index is out of range.
pub fn shard_for_cpu(cpu: u32, shard_count: usize) -> (r: Option<usize>)
    ensures
        r == (if (cpu as int) < shard_count { Some(cpu as usize) } else { None::<usize> }),
{
    if (cpu as u64) < (shard_count as u64) {
        Some(cpu as usize)
    } else {
        None
    }
}

/// A shard table with one zeroed slot per possible CPU.
pub fn new_cpu_shards() -> (r: Vec<usize>)
    ensures
        r@ == Seq::new(MAX_CPUS as nat, |i: int| 0usize),
{
    let mut v: Vec<usize> = Vec::new();
    let mut i: usize = 0;
    while i < MAX_CPUS
        invariant
            i <= MAX_CPUS,
            v@ == Seq::new(i as nat, |k: int| 0usize),
        decreases MAX_CPUS - i,
    {
        v.push(0);
        i = i + 1;
        assert(v@ =~= Seq::new(i as nat, |k: int| 0usize));
    }
    v
}

/// The sum of a sequence of shard values.
pub open spec fn shard_sum(s: Seq<usize>) -> int
    decreases s.len(),
{
    if s.len() == 0 {
        0
    } else {
        shard_sum(s.drop_last()) + s.last()
    }
}

proof fn lemma_shard_sum_prefix_monotone(s: Seq<usize>, i: int)
    requires
        0 <= i <= s.len(),
    ensures
        shard_sum(s.subrange(0, i)) <= shard_sum(s),
    decreases s.len() - i,
{
    if i < s.len() {
        lemma_shard_sum_prefix_monotone(s, i + 1);
        assert(s.subrange(0, i + 1).drop_last() =~= s.subrange(0, i));
    } else {
        assert(s.subrange(0, i) =~= s);
    }
}

/// Sum of all per-CPU shards. The sum must fit in a `usize`.
pub fn sum_shards(shards: &[usize]) -> (r: usize)
    requires
        shard_sum(shards@) <= usize::MAX,
    ensures
        r == shard_sum(shards@),
{
    let mut total: usize = 0;
    let mut i: usize = 0;
    while i < shards.len()
        invariant
            i <= shards@.len(),
            total == shard_sum(shards@.subrange(0, i as int)),
            shard_sum(shards@) <= usize::MAX,
        decreases shards@.len() - i,
    {
        proof {
            assert(shards@.subrange(0, i + 1).drop_last() =~= shards@.subrange(0, i as int));
            lemma_shard_sum_prefix_monotone(shards@, i + 1);
        }
        total = total + shards[i];
        i = i + 1;
    }
    proof {
        assert(shards@.subrange(0, shards@.len() as int) =~= shards@);
    }
    total
}

} // verus!
