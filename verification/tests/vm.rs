use tartiflette::memory::{VMMemory, VMMemoryError};
use tartiflette::paging::{PagePermissions, VirtAddr, PAGE_SIZE};
use tartiflette::snapshot::{Snapshot, SnapshotMapping, SnapshotRegister};
use tartiflette::vm::{string_perms_to_perms, CpuExit, Step, Vm, VmError, VmExit};
use tartiflette::x64::{Regs, Segment, Sregs};

/// Drives a machine through the stops of a guest, as the loop around the
/// hypervisor does: each stop is handled, and the run ends with the first
/// that ends it.
fn run(vm: &mut Vm, stops: &[(CpuExit, u64)]) -> Result<VmExit, VmError> {
    vm.begin_run();
    for (exit, rip) in stops {
        match vm.handle_exit(*exit, *rip)? {
            Step::Resume => {}
            Step::Exit(exit) => return Ok(exit),
        }
    }
    panic!("the guest did not stop");
}

#[test]
fn test_simple_exec() {
    let mut memory = VMMemory::new(512 * PAGE_SIZE).unwrap();

    // Maps a simple `add rdx, rax; hlt`
    let shellcode: &[u8] = &[
        0x48, 0x01, 0xc2, // add rdx, rax
        0xf4, // hlt
    ];

    memory
        .mmap(0x1337000, 0x1000, PagePermissions::new(PagePermissions::EXECUTE))
        .unwrap();
    memory.write(0x1337000, shellcode).unwrap();

    // Create the vm
    let mut vm = Vm::new(memory);
    let mut regs = vm.get_initial_regs();

    regs.rax = 0x337;
    regs.rdx = 0x1000;
    regs.rip = 0x1337000;

    vm.set_initial_regs(regs);

    // Runs the vm until completion (hlt): the processor stops after the halt
    let vmexit = run(&mut vm, &[(CpuExit::Hlt, 0x1337004)]).unwrap();

    assert_eq!(vmexit, VmExit::Hlt(0x1337003));
}

#[test]
fn test_simple_coverage() {
    let mut memory = VMMemory::new(512 * 0x1000).unwrap();

    let shellcode: &[u8] = &[
        0x48, 0x01, 0xc2, // add rdx, rax
        0x48, 0x01, 0xd8, // add rax, rbx
        0x31, 0xc0, // xor eax, eax
        0xf4, // hlt
    ];

    memory
        .mmap(0x1337000, 0x1000, PagePermissions::new(PagePermissions::EXECUTE))
        .unwrap();
    memory.write(0x1337000, shellcode).unwrap();

    // Create the vm
    let mut vm = Vm::new(memory);
    let pristine_vm = vm.fork().unwrap();

    // Initialize registers
    let mut regs = vm.get_initial_regs();
    regs.rip = 0x1337000;
    vm.set_initial_regs(regs);

    // Add breakpoints
    let breakpoints: Vec<u64> = vec![0x1337000, 0x1337003];

    for bkpt in breakpoints.iter().cloned() {
        vm.add_coverage_point(bkpt).unwrap();
    }

    // Runs the vm until completion (hlt): both breakpoints fire, then the
    // processor stops after the halt
    let vmexit = run(
        &mut vm,
        &[(CpuExit::Debug, 0x1337000), (CpuExit::Debug, 0x1337003), (CpuExit::Hlt, 0x1337009)],
    )
    .unwrap();
    let coverage = vm.get_coverage();

    assert_eq!(vmexit, VmExit::Hlt(0x1337008), "Wrong exit address");
    assert_eq!(breakpoints, *coverage, "Coverage does not match");

    // Check that a reset does not reset the breakpoints in memory: the guest
    // wrote nothing, so that the dirty log is empty
    let log = vec![0u64; 512 / 64];
    vm.reset(&pristine_vm, &log).unwrap();

    let mut shellcode_read_back: [u8; 9] = [0; 9];
    vm.memory.read(0x1337000, &mut shellcode_read_back).unwrap();

    assert_eq!(shellcode, shellcode_read_back);
}

fn code_vm() -> Vm {
    let mut memory = VMMemory::new(64 * PAGE_SIZE).unwrap();
    memory
        .mmap(0x40_0000, 2 * PAGE_SIZE, PagePermissions::new(PagePermissions::EXECUTE))
        .unwrap();
    memory.write(0x40_0000, &[0x90, 0x90, 0x31, 0xc0, 0xf4]).unwrap();
    Vm::new(memory)
}

#[test]
fn a_new_machine_starts_in_long_mode() {
    let vm = code_vm();
    assert_eq!(vm.get_initial_regs(), Regs::new());
    assert_eq!(vm.get_initial_regs().rip, 0);
    assert!(vm.get_coverage().is_empty());
    assert!(vm.coverage_points.is_empty());
    let sregs = vm.sregs;
    assert_eq!(sregs, Sregs::long_mode(0));
    assert_eq!(sregs.cr0, (1 << 0) | (1 << 31) | (1 << 4) | (1 << 16));
    assert_eq!(sregs.cr4, (1 << 5) | (1 << 18));
    assert_eq!(sregs.efer, (1 << 8) | (1 << 10) | (1 << 11));
    assert_eq!(sregs.cr3, 0);
    assert_eq!(sregs.cs, Segment::code64());
    assert_eq!(sregs.cs.selector, 8);
    assert_eq!(sregs.cs.type_, 11);
    assert_eq!((sregs.cs.l, sregs.cs.g, sregs.cs.s, sregs.cs.present), (1, 1, 1, 1));
    assert_eq!(sregs.cs.limit, 0xffff_ffff);
    for seg in [sregs.ds, sregs.es, sregs.fs, sregs.gs, sregs.ss] {
        assert_eq!(seg, Segment::data64());
        assert_eq!(seg.selector, 0);
        assert_eq!(seg.type_, 3);
    }
    assert_eq!(Sregs::long_mode(0x5000).cr3, 0x5000);
}

#[test]
fn the_hypervisor_is_told_of_the_whole_arena() {
    let vm = code_vm();
    let region = vm.memory_region();
    assert_eq!(region.slot, 0);
    assert_eq!(region.guest_phys_addr, 0);
    assert_eq!(region.memory_size, 64 * PAGE_SIZE as u64);
    assert_eq!(region.userspace_addr, vm.memory.pmem.host_address() as u64);
    assert_eq!(region.userspace_addr % 4096, 0);
    assert_eq!(region.flags, 1);
    assert_eq!(Vm::guest_debug_control(), 0x1_0001);
}

#[test]
fn begin_run_sets_the_reserved_flag() {
    let mut vm = code_vm();
    let mut regs = vm.get_initial_regs();
    regs.rflags = 0x40;
    regs.rax = 7;
    vm.set_initial_regs(regs);
    vm.begin_run();
    assert_eq!(vm.get_initial_regs().rflags, 0x42);
    assert_eq!(vm.get_initial_regs().rax, 7);
    vm.begin_run();
    assert_eq!(vm.get_initial_regs().rflags, 0x42);
}

#[test]
fn coverage_points_are_armed_once() {
    let mut vm = code_vm();
    assert_eq!(vm.add_coverage_point(0x40_0002), Ok(true));
    let mut byte = [0u8; 1];
    vm.memory.read(0x40_0002, &mut byte).unwrap();
    assert_eq!(byte, [0xcc]);
    assert_eq!(vm.coverage_points.get(&0x40_0002), Some(&0x31));

    // a second time changes nothing, and the byte that was replaced is not lost
    assert_eq!(vm.add_coverage_point(0x40_0002), Ok(false));
    assert_eq!(vm.coverage_points.get(&0x40_0002), Some(&0x31));
    assert_eq!(vm.coverage_points.len(), 1);
    vm.memory.read(0x40_0002, &mut byte).unwrap();
    assert_eq!(byte, [0xcc]);

    assert_eq!(
        vm.add_coverage_point(0x50_0123),
        Err(VmError::Memory(VMMemoryError::AddressUnmapped(0x50_0000)))
    );
    assert_eq!(vm.coverage_points.len(), 1);
}

#[test]
fn a_coverage_point_is_recorded_and_disarmed_when_hit() {
    let mut vm = code_vm();
    vm.add_coverage_point(0x40_0002).unwrap();
    assert_eq!(vm.handle_exit(CpuExit::Debug, 0x40_0002), Ok(Step::Resume));
    assert_eq!(vm.get_coverage(), &vec![0x40_0002]);
    let mut byte = [0u8; 1];
    vm.memory.read(0x40_0002, &mut byte).unwrap();
    assert_eq!(byte, [0x31]);
    // the point stays a coverage point
    assert_eq!(vm.coverage_points.get(&0x40_0002), Some(&0x31));
}

#[test]
fn other_stops_end_the_run() {
    let mut vm = code_vm();
    vm.add_coverage_point(0x40_0002).unwrap();
    assert_eq!(
        vm.handle_exit(CpuExit::Debug, 0x40_0003),
        Ok(Step::Exit(VmExit::Breakpoint(0x40_0003)))
    );
    assert_eq!(vm.handle_exit(CpuExit::Hlt, 0x40_0005), Ok(Step::Exit(VmExit::Hlt(0x40_0004))));
    assert_eq!(vm.handle_exit(CpuExit::Hlt, 1), Ok(Step::Exit(VmExit::Hlt(0))));
    assert_eq!(
        vm.handle_exit(CpuExit::Other, 0x40_0001),
        Ok(Step::Exit(VmExit::Unhandled(0x40_0001)))
    );
    assert!(vm.get_coverage().is_empty());
}

#[test]
fn reset_restores_dirty_pages_only() {
    let mut pristine = code_vm();
    let mut regs = pristine.get_initial_regs();
    regs.rip = 0x40_0000;
    regs.rsp = 0x7000;
    pristine.set_initial_regs(regs);
    let mut vm = pristine.fork().unwrap();
    assert_eq!(vm.get_initial_regs(), regs);

    vm.add_coverage_point(0x40_0000).unwrap();
    vm.memory.write(0x40_0010, &[1, 2, 3]).unwrap();
    vm.memory.write(0x40_1010, &[4, 5, 6]).unwrap();
    vm.coverage.push(0x40_0000);
    let mut scratch = vm.get_initial_regs();
    scratch.rax = 99;
    vm.set_initial_regs(scratch);

    // only the second page is marked
    let second = vm.memory.get_page_pa(VirtAddr::new(0x40_1000)).unwrap() / PAGE_SIZE;
    let mut log = vec![0u64; 1];
    log[0] = 1 << second;
    assert_eq!(vm.reset(&pristine, &log), Ok(()));

    assert_eq!(vm.get_initial_regs(), regs);
    assert_eq!(vm.sregs, pristine.sregs);
    assert!(vm.get_coverage().is_empty());
    assert_eq!(vm.coverage_points.len(), 1);
    let mut out = [0u8; 3];
    vm.memory.read(0x40_1010, &mut out).unwrap();
    assert_eq!(out, [0, 0, 0]);
    vm.memory.read(0x40_0010, &mut out).unwrap();
    assert_eq!(out, [1, 2, 3]);

    // now the first page too
    let first = vm.memory.get_page_pa(VirtAddr::new(0x40_0000)).unwrap() / PAGE_SIZE;
    log[0] = 1 << first;
    assert_eq!(vm.reset(&pristine, &log), Ok(()));
    vm.memory.read(0x40_0010, &mut out).unwrap();
    assert_eq!(out, [0, 0, 0]);
    // an empty log changes nothing
    vm.memory.write(0x40_0010, &[8]).unwrap();
    assert_eq!(vm.reset(&pristine, &[]), Ok(()));
    vm.memory.read(0x40_0010, &mut out).unwrap();
    assert_eq!(out, [8, 0, 0]);
}

#[test]
fn a_reset_arms_the_breakpoints_that_were_hit() {
    let mut pristine = code_vm();
    let mut vm = pristine.fork().unwrap();
    // the worker and the pristine machine are armed at the same places
    for addr in [0x40_0002u64, 0x40_1000] {
        assert_eq!(vm.add_coverage_point(addr), Ok(true));
        assert_eq!(pristine.add_coverage_point(addr), Ok(true));
    }
    let first = vm.memory.get_page_pa(VirtAddr::new(0x40_0000)).unwrap() / PAGE_SIZE;
    assert!(vm.touched.is_empty());

    // one of them is hit: the byte is put back, and the frame is noted
    assert_eq!(vm.handle_exit(CpuExit::Debug, 0x40_0002), Ok(Step::Resume));
    assert_eq!(vm.touched, vec![first]);
    let mut byte = [0u8; 1];
    vm.memory.read(0x40_0002, &mut byte).unwrap();
    assert_eq!(byte, [0x31]);
    // stops that write nothing note nothing
    vm.handle_exit(CpuExit::Debug, 0x40_0003).unwrap();
    vm.handle_exit(CpuExit::Hlt, 0x40_0005).unwrap();
    assert_eq!(vm.touched, vec![first]);

    // the guest wrote nothing: the log is empty, and the reset arms the
    // breakpoint again all the same
    assert_eq!(vm.reset(&pristine, &[0]), Ok(()));
    assert!(vm.touched.is_empty());
    assert!(vm.get_coverage().is_empty());
    for addr in [0x40_0002u64, 0x40_1000] {
        vm.memory.read(addr, &mut byte).unwrap();
        assert_eq!(byte, [0xcc]);
    }
    // the bytes that the breakpoints replaced are remembered
    assert_eq!(vm.coverage_points.get(&0x40_0002), Some(&0x31));
    assert_eq!(vm.coverage_points.get(&0x40_1000), Some(&0));

    // and the point counts again
    assert_eq!(vm.handle_exit(CpuExit::Debug, 0x40_0002), Ok(Step::Resume));
    assert_eq!(vm.get_coverage(), &vec![0x40_0002]);
}

#[test]
fn a_reset_passes_over_frames_that_the_arena_does_not_have() {
    let pristine = code_vm();
    let mut vm = pristine.fork().unwrap();
    vm.memory.write(0x40_0010, &[1]).unwrap();
    vm.touched = vec![64, usize::MAX, 1];
    vm.memory.pmem.write_byte(0x1005, 9).unwrap();
    assert_eq!(vm.reset(&pristine, &[]), Ok(()));
    assert!(vm.touched.is_empty());
    assert_eq!(vm.memory.pmem.read_byte(0x1005), pristine.memory.pmem.read_byte(0x1005));
    let mut byte = [0u8; 1];
    vm.memory.read(0x40_0010, &mut byte).unwrap();
    assert_eq!(byte, [1]);
}

#[test]
fn reset_keeps_breakpoints_that_the_pristine_machine_has() {
    let mut pristine = code_vm();
    pristine.add_coverage_point(0x40_0002).unwrap();
    let mut vm = pristine.fork().unwrap();
    // a fork has no coverage points of its own
    assert!(vm.coverage_points.is_empty());
    assert_eq!(vm.add_coverage_point(0x40_0002), Ok(true));
    // the byte that it remembers is the breakpoint of the pristine machine
    assert_eq!(vm.coverage_points.get(&0x40_0002), Some(&0xcc));
    vm.memory.write(0x40_0002, &[0x31]).unwrap();
    let frame = vm.memory.get_page_pa(VirtAddr::new(0x40_0000)).unwrap() / PAGE_SIZE;
    assert_eq!(vm.reset(&pristine, &[1 << frame]), Ok(()));
    let mut byte = [0u8; 1];
    vm.memory.read(0x40_0002, &mut byte).unwrap();
    assert_eq!(byte, [0xcc]);
}

#[test]
fn reset_refuses_a_log_that_marks_pages_outside_the_arena() {
    let pristine = code_vm();
    let mut vm = pristine.fork().unwrap();
    vm.memory.write(0x40_0010, &[1, 2, 3]).unwrap();
    let first = vm.memory.get_page_pa(VirtAddr::new(0x40_0000)).unwrap() / PAGE_SIZE;
    // the arena has 64 frames: bit 0 of the second word is frame 64
    let log = vec![1u64 << first, 0b101];
    assert_eq!(
        vm.reset(&pristine, &log),
        Err(VmError::Memory(VMMemoryError::PhysReadOutOfBounds(64 * 4096, 4096)))
    );
    let mut out = [0u8; 3];
    vm.memory.read(0x40_0010, &mut out).unwrap();
    assert_eq!(out, [1, 2, 3]);
}

#[test]
fn permission_strings() {
    assert_eq!(string_perms_to_perms("").bits, 0);
    assert_eq!(string_perms_to_perms("r").bits, PagePermissions::READ);
    assert_eq!(string_perms_to_perms("rw-").bits, 3);
    assert_eq!(string_perms_to_perms("r-x").bits, 5);
    assert_eq!(string_perms_to_perms("rwxp").bits, 7);
    assert_eq!(string_perms_to_perms("--x").bits, PagePermissions::EXECUTE);
    assert_eq!(string_perms_to_perms("RWX").bits, 0);
    assert_eq!(string_perms_to_perms("wwrr").bits, 3);
}

fn snapshot() -> Snapshot {
    let mut memory = vec![0u8; 3 * PAGE_SIZE];
    for (i, byte) in memory.iter_mut().enumerate() {
        *byte = (i / PAGE_SIZE + 1) as u8;
    }
    Snapshot {
        mappings: vec![
            SnapshotMapping {
                start: 0x40_0000,
                end: 0x40_2000,
                physical_offset: 0,
                permissions: "r-x".to_string(),
            },
            SnapshotMapping {
                start: 0x7fff_0000,
                end: 0x7fff_0800,
                physical_offset: 0x2000,
                permissions: "rw-".to_string(),
            },
        ],
        memory,
        registers: vec![
            SnapshotRegister { name: "rip".to_string(), value: 0x40_0123 },
            SnapshotRegister { name: "rsp".to_string(), value: 0x7fff_0700 },
            SnapshotRegister { name: "rax".to_string(), value: 1 },
            SnapshotRegister { name: "fs_base".to_string(), value: 0xbad },
            SnapshotRegister { name: "r9".to_string(), value: 9 },
            SnapshotRegister { name: "rax".to_string(), value: 2 },
        ],
    }
}

#[test]
fn a_snapshot_is_loaded_page_by_page() {
    let snap = snapshot();
    assert!(snap.is_valid());
    assert_eq!(snap.mappings().len(), 2);
    assert_eq!(snap.mappings[0].size(), 0x2000);
    let vm = Vm::from_snapshot(&snap, 64 * PAGE_SIZE).unwrap();

    let mut page = [0u8; PAGE_SIZE];
    vm.memory.read(0x40_0000, &mut page).unwrap();
    assert!(page.iter().all(|b| *b == 1));
    vm.memory.read(0x40_1000, &mut page).unwrap();
    assert!(page.iter().all(|b| *b == 2));
    // a range that ends within a page is loaded as a whole page
    vm.memory.read(0x7fff_0000, &mut page).unwrap();
    assert!(page.iter().all(|b| *b == 3));
    assert!(!vm.memory.is_mapped(VirtAddr::new(0x40_2000)));
    assert!(!vm.memory.is_mapped(VirtAddr::new(0x7fff_1000)));

    let regs = vm.get_initial_regs();
    assert_eq!(regs.rip, 0x40_0123);
    assert_eq!(regs.rsp, 0x7fff_0700);
    assert_eq!(regs.rax, 2);
    assert_eq!(regs.r9, 9);
    assert_eq!(regs.rbx, 0);
    assert!(vm.get_coverage().is_empty());

    // rights: the code is not writable, the stack is not executable
    let code = vm.memory.pmem.read_val(3 * PAGE_SIZE + ((0x40_0000 >> 12) & 0x1ff) * 8).unwrap();
    assert_eq!(code & 0x3, 0x1);
    assert_eq!(code >> 63, 0);
}

#[test]
fn registers_are_set_by_name() {
    let names = [
        "rax", "rbx", "rcx", "rdx", "rsi", "rdi", "rsp", "rbp", "r8", "r9", "r10", "r11", "r12",
        "r13", "r14", "r15", "rip",
    ];
    let snap = Snapshot {
        mappings: vec![],
        memory: vec![],
        registers: names
            .iter()
            .enumerate()
            .map(|(i, name)| SnapshotRegister { name: name.to_string(), value: i as u64 + 1 })
            .collect(),
    };
    let mut regs = Regs::new();
    regs.rflags = 0x246;
    snap.apply_registers(&mut regs);
    let values = [
        regs.rax, regs.rbx, regs.rcx, regs.rdx, regs.rsi, regs.rdi, regs.rsp, regs.rbp, regs.r8,
        regs.r9, regs.r10, regs.r11, regs.r12, regs.r13, regs.r14, regs.r15, regs.rip,
    ];
    for (i, value) in values.iter().enumerate() {
        assert_eq!(*value, i as u64 + 1, "{}", names[i]);
    }
    assert_eq!(regs.rflags, 0x246);
}

#[test]
fn a_truncated_snapshot_is_refused() {
    let mut snap = snapshot();
    snap.memory.truncate(3 * PAGE_SIZE - 1);
    assert_eq!(
        Vm::from_snapshot(&snap, 64 * PAGE_SIZE).err(),
        Some(VmError::Memory(VMMemoryError::OutOfMemory))
    );
    // a page that the snapshot has no byte of is mapped and left empty
    snap.memory.truncate(2 * PAGE_SIZE);
    let vm = Vm::from_snapshot(&snap, 64 * PAGE_SIZE).unwrap();
    let mut page = [0xffu8; PAGE_SIZE];
    vm.memory.read(0x7fff_0000, &mut page).unwrap();
    assert!(page.iter().all(|b| *b == 0));
}

#[test]
fn snapshot_reads_may_be_short() {
    let snap = snapshot();
    assert_eq!(snap.read(0, 4).map(|s| s.to_vec()), Some(vec![1, 1, 1, 1]));
    assert_eq!(snap.read(0x2ffe, 4).map(|s| s.to_vec()), Some(vec![3, 3]));
    assert_eq!(snap.read(0x3000, 4), None);
    assert_eq!(snap.read(u64::MAX, 4), None);
    assert_eq!(snap.read(0x2fff, 0).map(|s| s.len()), Some(0));
}

#[test]
fn overlapping_ranges_of_a_snapshot_are_refused() {
    let mut snap = snapshot();
    snap.mappings[1].start = 0x40_1000;
    snap.mappings[1].end = 0x40_1800;
    assert_eq!(
        Vm::from_snapshot(&snap, 64 * PAGE_SIZE).err(),
        Some(VmError::Memory(VMMemoryError::AddressAlreadyMapped(0x40_1000)))
    );
    let snap = snapshot();
    assert_eq!(
        Vm::from_snapshot(&snap, 6 * PAGE_SIZE).err(),
        Some(VmError::Memory(VMMemoryError::OutOfMemory))
    );
}

#[test]
fn snapshot_ranges_are_checked() {
    let mut snap = snapshot();
    snap.mappings[0].start = 0x40_0001;
    assert!(!snap.is_valid());
    snap.mappings[0].start = 0x40_3000;
    assert!(!snap.is_valid());
    snap.mappings[0].start = 0x40_0000;
    assert!(snap.is_valid());
    snap.mappings[1].start = 0xffff_ffff_ffff_f000;
    snap.mappings[1].end = 0xffff_ffff_ffff_ffff;
    assert!(snap.is_valid());
    snap.mappings[1].physical_offset = u64::MAX - 0xffe;
    assert!(!snap.is_valid());
    snap.mappings[1].physical_offset = u64::MAX - 0xfff;
    assert!(snap.is_valid());
}

#[test]
fn a_fork_is_independent() {
    let mut vm = code_vm();
    let mut regs = vm.get_initial_regs();
    regs.rbx = 5;
    vm.set_initial_regs(regs);
    vm.add_coverage_point(0x40_0000).unwrap();
    vm.handle_exit(CpuExit::Debug, 0x40_0000).unwrap();
    let mut fork = vm.fork().unwrap();
    assert_eq!(fork.get_initial_regs().rbx, 5);
    assert_eq!(fork.sregs, vm.sregs);
    assert!(fork.get_coverage().is_empty());
    assert!(fork.coverage_points.is_empty());
    fork.memory.write(0x40_0000, &[0xaa]).unwrap();
    let mut byte = [0u8; 1];
    vm.memory.read(0x40_0000, &mut byte).unwrap();
    assert_eq!(byte, [0x90]);
}
