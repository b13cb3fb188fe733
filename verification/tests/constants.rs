use tartiflette::config::{NETDRIVER_SIG, PERSISTENT_SIG};
use tartiflette::x64;

#[test]
fn hypervisor_constants_are_those_of_the_bindings() {
    assert_eq!(x64::KVM_MEM_LOG_DIRTY_PAGES, kvm_bindings::KVM_MEM_LOG_DIRTY_PAGES);
    assert_eq!(x64::KVM_GUESTDBG_ENABLE, kvm_bindings::KVM_GUESTDBG_ENABLE);
    assert_eq!(x64::KVM_GUESTDBG_USE_SW_BP, kvm_bindings::KVM_GUESTDBG_USE_SW_BP);
}

#[test]
fn control_register_bits() {
    assert_eq!(x64::CR0_PE, 1 << 0);
    assert_eq!(x64::CR0_ET, 1 << 4);
    assert_eq!(x64::CR0_WP, 1 << 16);
    assert_eq!(x64::CR0_PG, 1 << 31);
    assert_eq!(x64::CR4_PAE, 1 << 5);
    assert_eq!(x64::CR4_OSXSAVE, 1 << 18);
    assert_eq!(x64::IA32_EFER_LME, 1 << 8);
    assert_eq!(x64::IA32_EFER_LMA, 1 << 10);
    assert_eq!(x64::IA32_EFER_NXE, 1 << 11);
    assert_eq!(x64::TSS_ADDRESS, 0xfffb_d000);
    assert_eq!(x64::BREAKPOINT, 0xcc);
}

#[test]
fn binary_signatures() {
    assert_eq!(&PERSISTENT_SIG[..], b"\x01_LIBHFUZZ_PERSISTENT_BINARY_SIGNATURE_\x02\xFF");
    assert_eq!(&NETDRIVER_SIG[..], b"\x01_LIBHFUZZ_NETDRIVER_BINARY_SIGNATURE_\x02\xFF");
}
