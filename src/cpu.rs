//! What the kernel asks of the processor, and the control-register bits it
//! sets during early start-up.

use vstd::prelude::*;

verus! {

/// The system-call enable bit of the EFER register.
pub const EFER_SYSCALL_ENABLE: u64 = 1;

/// The no-execute enable bit of the EFER register.
pub const EFER_NO_EXECUTE_ENABLE: u64 = 1 << 11;

/// The global-pages bit of CR4.
pub const CR4_ENABLE_GLOBAL_PAGES: u64 = 1 << 7;

/// The write-protect bit of CR0.
pub const CR0_WRITE_PROTECT: u64 = 1 << 16;

/// The processor features the kernel needs, as the processor reports them:
/// `None` where it offers no leaf that reports the feature.
#[derive(Clone, Copy, Debug, PartialEq, Eq, Structural)]
pub struct CpuFeatures {
    pub has_apic: Option<bool>,
    pub has_syscall_sysret: Option<bool>,
    pub has_execute_disable: Option<bool>,
}

/// True when the processor has a local APIC, `syscall`/`sysret` and the
/// no-execute bit.
pub fn is_supported(features: CpuFeatures) -> (r: bool)
    ensures
        r == (features.has_apic == Some(true) && features.has_syscall_sysret == Some(true)
            && features.has_execute_disable == Some(true)),
{
    let apic = match features.has_apic {
        Some(b) => b,
        None => false,
    };
    let syscall = match features.has_syscall_sysret {
        Some(b) => b,
        None => false,
    };
    let nx = match features.has_execute_disable {
        Some(b) => b,
        None => false,
    };
    apic && syscall && nx
}

/// EFER with system calls and the no-execute bit enabled.
pub fn efer_for_kernel(efer: u64) -> (r: u64)
    ensures
        r == efer | EFER_NO_EXECUTE_ENABLE | EFER_SYSCALL_ENABLE,
{
    efer | EFER_NO_EXECUTE_ENABLE | EFER_SYSCALL_ENABLE
}

/// CR4 with global pages enabled.
pub fn cr4_for_kernel(cr4: u64) -> (r: u64)
    ensures
        r == cr4 | CR4_ENABLE_GLOBAL_PAGES,
{
    cr4 | CR4_ENABLE_GLOBAL_PAGES
}

/// CR0 with write protection of read-only pages enabled.
pub fn cr0_for_kernel(cr0: u64) -> (r: u64)
    ensures
        r == cr0 | CR0_WRITE_PROTECT,
{
    cr0 | CR0_WRITE_PROTECT
}

} // verus!
