use veos::cpu::{cr0_for_kernel, cr4_for_kernel, efer_for_kernel, is_supported, CpuFeatures};

#[test]
fn supported_only_with_all_features() {
    let all = CpuFeatures { has_apic: Some(true), has_syscall_sysret: Some(true), has_execute_disable: Some(true) };
    assert!(is_supported(all));
    assert!(!is_supported(CpuFeatures { has_apic: None, ..all }));
    assert!(!is_supported(CpuFeatures { has_syscall_sysret: Some(false), ..all }));
    assert!(!is_supported(CpuFeatures { has_execute_disable: None, ..all }));
}

#[test]
fn control_register_bits() {
    assert_eq!(efer_for_kernel(0x500), 0xd01);
    assert_eq!(cr4_for_kernel(0x20), 0xa0);
    assert_eq!(cr0_for_kernel(0x1), 0x10001);
}
