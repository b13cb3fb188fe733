//! The part of the x86-64 register state that the engine sets: the general
//! purpose registers of a run, and the system registers of a flat 64-bit
//! guest with paging switched on.

use vstd::prelude::*;

verus! {

/// CR0: protected mode.
pub const CR0_PE: u64 = 0x1;

/// CR0: extension type.
pub const CR0_ET: u64 = 0x10;

/// CR0: supervisor writes honour read-only pages.
pub const CR0_WP: u64 = 0x1_0000;

/// CR0: paging.
pub const CR0_PG: u64 = 0x8000_0000;

/// CR4: physical address extension.
pub const CR4_PAE: u64 = 0x20;

/// CR4: XSAVE and extended states.
pub const CR4_OSXSAVE: u64 = 0x4_0000;

/// EFER: long mode enabled.
pub const IA32_EFER_LME: u64 = 0x100;

/// EFER: long mode active.
pub const IA32_EFER_LMA: u64 = 0x400;

/// EFER: no-execute pages.
pub const IA32_EFER_NXE: u64 = 0x800;

/// RFLAGS: bit 1, which is always set.
pub const RFLAGS_RESERVED: u64 = 0x2;

/// Where the hypervisor is told to put its task state segment.
pub const TSS_ADDRESS: usize = 0xfffb_d000;

/// Flag of a memory region: the hypervisor logs the pages that the guest
/// writes.
pub const KVM_MEM_LOG_DIRTY_PAGES: u32 = 0x1;

/// Guest debugging: switched on.
pub const KVM_GUESTDBG_ENABLE: u32 = 0x1;

/// Guest debugging: software breakpoints end the run.
pub const KVM_GUESTDBG_USE_SW_BP: u32 = 0x1_0000;

/// The instruction that a coverage point puts in place of the first byte of
/// a block: a software breakpoint.
pub const BREAKPOINT: u8 = 0xcc;

/// The general purpose registers of the guest's processor.
#[derive(Clone, Copy, Debug, PartialEq, Eq, Structural)]
pub struct Regs {
    pub rax: u64,
    pub rbx: u64,
    pub rcx: u64,
    pub rdx: u64,
    pub rsi: u64,
    pub rdi: u64,
    pub rsp: u64,
    pub rbp: u64,
    pub r8: u64,
    pub r9: u64,
    pub r10: u64,
    pub r11: u64,
    pub r12: u64,
    pub r13: u64,
    pub r14: u64,
    pub r15: u64,
    pub rip: u64,
    pub rflags: u64,
}

impl Regs {
    /// All registers zero.
    pub open spec fn zero() -> Regs {
        Regs {
            rax: 0,
            rbx: 0,
            rcx: 0,
            rdx: 0,
            rsi: 0,
            rdi: 0,
            rsp: 0,
            rbp: 0,
            r8: 0,
            r9: 0,
            r10: 0,
            r11: 0,
            r12: 0,
            r13: 0,
            r14: 0,
            r15: 0,
            rip: 0,
            rflags: 0,
        }
    }

    /// All registers zero.
    pub fn new() -> (regs: Regs)
        ensures
            regs == Regs::zero(),
    {
        Regs {
            rax: 0,
            rbx: 0,
            rcx: 0,
            rdx: 0,
            rsi: 0,
            rdi: 0,
            rsp: 0,
            rbp: 0,
            r8: 0,
            r9: 0,
            r10: 0,
            r11: 0,
            r12: 0,
            r13: 0,
            r14: 0,
            r15: 0,
            rip: 0,
            rflags: 0,
        }
    }
}

/// A segment register.
#[derive(Clone, Copy, Debug, PartialEq, Eq, Structural)]
pub struct Segment {
    pub base: u64,
    pub limit: u32,
    pub selector: u16,
    pub type_: u8,
    pub present: u8,
    pub dpl: u8,
    pub db: u8,
    pub s: u8,
    pub l: u8,
    pub g: u8,
    pub avl: u8,
    pub unusable: u8,
}

impl Segment {
    /// The code segment of a flat 64-bit guest: selector 8, execute and
    /// read, accessed, ring 0, long mode, 4 KiB granularity.
    pub open spec fn spec_code64() -> Segment {
        Segment {
            base: 0,
            limit: 0xffff_ffff,
            selector: 8,
            type_: 11,
            present: 1,
            dpl: 0,
            db: 0,
            s: 1,
            l: 1,
            g: 1,
            avl: 0,
            unusable: 0,
        }
    }

    /// The data segment of a flat 64-bit guest: as the code segment, with
    /// selector 0 and read, write, accessed.
    pub open spec fn spec_data64() -> Segment {
        Segment {
            base: 0,
            limit: 0xffff_ffff,
            selector: 0,
            type_: 3,
            present: 1,
            dpl: 0,
            db: 0,
            s: 1,
            l: 1,
            g: 1,
            avl: 0,
            unusable: 0,
        }
    }

    /// The code segment of a flat 64-bit guest.
    pub fn code64() -> (seg: Segment)
        ensures
            seg == Segment::spec_code64(),
    {
        Segment {
            base: 0,
            limit: 0xffff_ffff,
            selector: 8,
            type_: 11,
            present: 1,
            dpl: 0,
            db: 0,
            s: 1,
            l: 1,
            g: 1,
            avl: 0,
            unusable: 0,
        }
    }

    /// The data segment of a flat 64-bit guest.
    pub fn data64() -> (seg: Segment)
        ensures
            seg == Segment::spec_data64(),
    {
        let mut seg = Segment::code64();
        seg.selector = 0;
        seg.type_ = 3;
        seg
    }
}

/// The system registers that the engine sets; the hypervisor's defaults
/// stand for the others.
#[derive(Clone, Copy, Debug, PartialEq, Eq, Structural)]
pub struct Sregs {
    pub cs: Segment,
    pub ds: Segment,
    pub es: Segment,
    pub fs: Segment,
    pub gs: Segment,
    pub ss: Segment,
    pub cr0: u64,
    pub cr3: u64,
    pub cr4: u64,
    pub efer: u64,
}

impl Sregs {
    /// Long mode with paging, the root table at `page_directory`: protected
    /// mode, paging, extension type and write protection in CR0; physical
    /// address extension and XSAVE in CR4; long mode enabled and active and
    /// no-execute in EFER; flat segments.
    pub open spec fn spec_long_mode(page_directory: u64) -> Sregs {
        Sregs {
            cs: Segment::spec_code64(),
            ds: Segment::spec_data64(),
            es: Segment::spec_data64(),
            fs: Segment::spec_data64(),
            gs: Segment::spec_data64(),
            ss: Segment::spec_data64(),
            cr0: 0x8001_0011,
            cr3: page_directory,
            cr4: 0x4_0020,
            efer: 0xd00,
        }
    }

    /// The system registers of long mode with paging, the root table at
    /// `page_directory`.
    pub fn long_mode(page_directory: u64) -> (sregs: Sregs)
        ensures
            sregs == Sregs::spec_long_mode(page_directory),
    {
        let data = Segment::data64();
        assert(0x1u64 | 0x8000_0000u64 | 0x10u64 | 0x1_0000u64 == 0x8001_0011u64) by (bit_vector);
        assert(0x20u64 | 0x4_0000u64 == 0x4_0020u64) by (bit_vector);
        assert(0x100u64 | 0x400u64 | 0x800u64 == 0xd00u64) by (bit_vector);
        Sregs {
            cs: Segment::code64(),
            ds: data,
            es: data,
            fs: data,
            gs: data,
            ss: data,
            cr0: CR0_PE | CR0_PG | CR0_ET | CR0_WP,
            cr3: page_directory,
            cr4: CR4_PAE | CR4_OSXSAVE,
            efer: IA32_EFER_LME | IA32_EFER_LMA | IA32_EFER_NXE,
        }
    }
}

/// The region of guest memory that the hypervisor is told of.
#[derive(Clone, Copy, Debug, PartialEq, Eq, Structural)]
pub struct MemoryRegion {
    pub slot: u32,
    pub flags: u32,
    pub guest_phys_addr: u64,
    pub memory_size: u64,
    pub userspace_addr: u64,
}

} // verus!
