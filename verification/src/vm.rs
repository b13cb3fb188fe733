//! The virtual machine around the guest's memory: the register state that a
//! run starts from, the coverage breakpoints, and what to do when the guest
//! stops. The hypervisor itself is driven from outside: it is handed the
//! state to load and hands back why the guest stopped.

use vstd::prelude::*;
use std::collections::BTreeMap;
use crate::memory::{
    overwritten, untouched, written_last, VMMemory, VMMemoryError, VMPhysMem, MAX_ARENA,
};
use crate::paging::{AddressSpace, PagePermissions, VirtAddr, byte_va, page_base, PAGE_SIZE};
use crate::snapshot::{Snapshot, load_mappings, page_loaded, with_registers};
use crate::x64::{
    Regs, Sregs, MemoryRegion, KVM_MEM_LOG_DIRTY_PAGES, KVM_GUESTDBG_ENABLE,
    KVM_GUESTDBG_USE_SW_BP, BREAKPOINT, RFLAGS_RESERVED,
};

verus! {

/// What can go wrong in the virtual machine.
#[derive(Copy, Clone, Debug, PartialEq, Eq, Structural)]
pub enum VmError {
    /// The guest's memory refused.
    Memory(VMMemoryError),
    /// The hypervisor refused, with this error number.
    Kvm(i32),
}

/// Why a run ended.
#[derive(Copy, Clone, Debug, PartialEq, Eq, Structural)]
pub enum VmExit {
    /// The guest halted: the address of the halt instruction.
    Hlt(u64),
    /// The guest hit a breakpoint that is no coverage point, at this address.
    Breakpoint(u64),
    /// The guest stopped for a reason that the engine does not handle, at
    /// this address.
    Unhandled(u64),
}

/// Why the processor handed control back, as the hypervisor reports it.
#[derive(Copy, Clone, Debug, PartialEq, Eq, Structural)]
pub enum CpuExit {
    /// A debug exception: a software breakpoint.
    Debug,
    /// A halt instruction.
    Hlt,
    /// Anything else.
    Other,
}

/// What to do after the processor handed control back.
#[derive(Copy, Clone, Debug, PartialEq, Eq, Structural)]
pub enum Step {
    /// Enter the guest again.
    Resume,
    /// The run is over.
    Exit(VmExit),
}

/// The rights that a string of the letters `r`, `w` and `x` stands for.
pub open spec fn perms_of(perms: Seq<char>) -> u64
    decreases perms.len(),
{
    if perms.len() == 0 {
        0
    } else {
        let rest = perms_of(perms.drop_last());
        if perms.last() == 'r' {
            rest | 0x1
        } else if perms.last() == 'w' {
            rest | 0x2
        } else if perms.last() == 'x' {
            rest | 0x4
        } else {
            rest
        }
    }
}

/// The rights that `perms` names: `r`, `w` and `x` give the right to read, to
/// write and to execute; other characters say nothing.
pub fn string_perms_to_perms(perms: &str) -> (r: PagePermissions)
    ensures
        r.bits == perms_of(perms@),
{
    let mut perm_flags = PagePermissions::new(0);
    let n: usize = perms.unicode_len();
    let mut i: usize = 0;
    while i < n
        invariant
            i <= n,
            n == perms@.len(),
            perm_flags.bits == perms_of(perms@.subrange(0, i as int)),
        decreases n - i,
    {
        let c = perms.get_char(i);
        proof {
            let next = perms@.subrange(0, i + 1);
            assert(next.drop_last() =~= perms@.subrange(0, i as int));
        }
        if c == 'r' {
            perm_flags = perm_flags.with(PagePermissions::READ);
        } else if c == 'w' {
            perm_flags = perm_flags.with(PagePermissions::WRITE);
        } else if c == 'x' {
            perm_flags = perm_flags.with(PagePermissions::EXECUTE);
        }
        i = i + 1;
    }
    assert(perms@.subrange(0, n as int) =~= perms@);
    perm_flags
}

/// Whether the dirty log has the bit of frame number `frame` set: bit
/// `frame % 64` of word `frame / 64`.
pub open spec fn dirty(log: Seq<u64>, frame: int) -> bool {
    0 <= frame < log.len() * 64 && (log[frame / 64] >> ((frame % 64) as u64)) & 1 == 1
}

/// Frame `f` is the first that `log` marks as dirty and that an arena of
/// `frames` frames does not have.
pub open spec fn first_outside(log: Seq<u64>, frames: int, f: int) -> bool {
    &&& dirty(log, f)
    &&& f >= frames
    &&& forall|g: int| #![trigger dirty(log, g)] dirty(log, g) && g >= frames ==> f <= g
}

/// Whether `log` marks a frame as dirty that an arena of `frames` frames
/// does not have.
pub open spec fn marks_outside(log: Seq<u64>, frames: int) -> bool {
    exists|f: int| #![trigger dirty(log, f)] dirty(log, f) && f >= frames
}

/// The error of a reset with a log that marks a frame outside the arena: a
/// read out of bounds of the first such frame.
pub open spec fn outside_error(log: Seq<u64>, frames: int) -> VmError {
    let f = choose|f: int| first_outside(log, frames, f);
    VmError::Memory(VMMemoryError::PhysReadOutOfBounds((f * 4096) as u64, 4096))
}

/// Whether `frame` is one of the first `n` of the frames `touched`.
pub open spec fn touched_before(touched: Seq<usize>, n: int, frame: int) -> bool {
    exists|k: int| 0 <= k < n && #[trigger] touched[k] == frame
}

/// Whether a reset restores frame number `frame`: the guest wrote it, as the
/// dirty log says, or the machine wrote it itself, as `touched` says.
pub open spec fn marked(log: Seq<u64>, touched: Seq<usize>, frame: int) -> bool {
    dirty(log, frame) || touched_before(touched, touched.len() as int, frame)
}

/// The bytes `mine` with every page that the guest or the machine itself
/// wrote taken from `theirs`.
pub open spec fn restored(mine: Seq<u8>, theirs: Seq<u8>, log: Seq<u64>, touched: Seq<usize>)
    -> Seq<u8> {
    Seq::new(
        mine.len(),
        |b: int|
            if marked(log, touched, b / 4096) {
                theirs[b]
            } else {
                mine[b]
            },
    )
}

/// Where all pages that are not restored are as the other machine has them,
/// the reset gives the other machine's memory: a fork that is reset after
/// every run starts every run from the pristine memory.
pub proof fn lemma_restored_all(mine: Seq<u8>, theirs: Seq<u8>, log: Seq<u64>, touched: Seq<usize>)
    requires
        mine.len() == theirs.len(),
        forall|b: int|
            0 <= b < mine.len() && !marked(log, touched, b / 4096) ==> mine[b] == theirs[b],
    ensures
        restored(mine, theirs, log, touched) == theirs,
{
    assert(restored(mine, theirs, log, touched) =~= theirs);
}

/// After a reset a coverage point is armed where the other machine is: the
/// guest of the machine `after` sees a breakpoint at `va` where the guest of
/// `other` sees one, provided that the reset left `after` with the tables
/// of `other`, and that the byte was a breakpoint before the reset unless
/// its frame was restored. Both hold of a fork of `other` whose tables and
/// breakpoints were written by nothing but the guest, which the dirty log
/// knows, and by `handle_exit`, which notes the frame that it writes.
pub proof fn lemma_reset_armed(before: Vm, after: Vm, other: Vm, log: Seq<u64>, va: u64)
    requires
        other.memory.wf(),
        before.memory.pmem@.len() == other.memory.pmem@.len(),
        after.memory.pmem.spec_top() == other.memory.pmem.spec_top(),
        after.memory.pmem@ == restored(
            before.memory.pmem@,
            other.memory.pmem@,
            log,
            before.touched@,
        ),
        forall|b: int|
            0 <= b < before.memory.pmem@.len() && other.memory.holds_table(b / 4096) && !marked(
                log,
                before.touched@,
                b / 4096,
            ) ==> #[trigger] before.memory.pmem@[b] == other.memory.pmem@[b],
        other.memory@.is_mapped(va),
        other.memory.byte_at(va) == 0xcc,
        before.memory.pmem@[other.memory@.phys(va)] == 0xcc || marked(
            log,
            before.touched@,
            other.memory@.frame(va),
        ),
    ensures
        after.memory@ == other.memory@,
        after.memory.byte_at(va) == 0xcc,
{
    other.memory.lemma_same_table_bytes(after.memory);
    other.memory.lemma_mapped_in_arena(va);
    let at = other.memory@.phys(va);
    assert(at / 4096 == other.memory@.frame(va));
}

/// A virtual machine: its memory, the registers that each run starts from,
/// and its coverage points.
pub struct Vm {
    /// The guest's memory.
    pub memory: VMMemory,
    /// The general purpose registers that a run starts from.
    pub regs: Regs,
    /// The system registers that a run starts from.
    pub sregs: Sregs,
    /// The coverage points that the current run has hit, in order.
    pub coverage: Vec<u64>,
    /// The coverage points: for each address, the byte that the breakpoint
    /// replaced.
    pub coverage_points: BTreeMap<u64, u8>,
    /// The frames that the machine itself has written since the last reset,
    /// when it put back the bytes that breakpoints replaced. The dirty log
    /// knows only what the guest wrote; a reset restores these frames too.
    pub touched: Vec<usize>,
}

impl Vm {
    /// A machine on `memory` that starts in long mode with all general
    /// purpose registers zero, and has no coverage point.
    pub fn new(memory: VMMemory) -> (vm: Vm)
        ensures
            vm.memory == memory,
            vm.regs == Regs::zero(),
            vm.sregs == Sregs::spec_long_mode(memory.page_directory as u64),
            vm.coverage@ == Seq::<u64>::empty(),
            vm.coverage_points@ == Map::<u64, u8>::empty(),
            vm.touched@ == Seq::<usize>::empty(),
    {
        let sregs = Sregs::long_mode(memory.page_directory() as u64);
        Vm {
            memory,
            regs: Regs::new(),
            sregs,
            coverage: Vec::new(),
            coverage_points: BTreeMap::new(),
            touched: Vec::new(),
        }
    }

    /// A machine on `memory` with the snapshot loaded: its pages mapped and
    /// filled, and its registers in the registers that a run starts from.
    /// Fails as the loading fails.
    pub fn load_snapshot(snapshot: &Snapshot, memory: VMMemory) -> (r: Result<Vm, VmError>)
        requires
            memory.wf(),
            snapshot.valid(),
        ensures
            r is Ok <==> load_mappings(memory@, snapshot.memory@, snapshot.mappings@, 0).1 is Ok,
            r matches Err(e) ==> Err::<(), VmError>(e) == load_mappings(
                memory@,
                snapshot.memory@,
                snapshot.mappings@,
                0,
            ).1,
            r matches Ok(vm) ==> {
                &&& vm.memory.wf()
                &&& vm.memory@ == load_mappings(
                    memory@,
                    snapshot.memory@,
                    snapshot.mappings@,
                    0,
                ).0
                &&& vm.memory.pmem.spec_size() == memory.pmem.spec_size()
                &&& forall|k: int, j: int|
                    0 <= k < snapshot.mappings@.len() && 0 <= j < snapshot.mappings@[k].pages()
                        ==> #[trigger] page_loaded(
                        vm.memory,
                        snapshot.memory@,
                        snapshot.mappings@[k],
                        j,
                    )
                &&& forall|va: u64| #[trigger]
                    memory@.is_mapped(va) ==> vm.memory@.is_mapped(va) && vm.memory.byte_at(va)
                        == memory.byte_at(va)
                &&& vm.regs == with_registers(
                    Regs::zero(),
                    snapshot.registers@,
                    snapshot.registers@.len(),
                )
                &&& vm.sregs == Sregs::spec_long_mode(memory.page_directory as u64)
                &&& vm.coverage@ == Seq::<u64>::empty()
                &&& vm.coverage_points@ == Map::<u64, u8>::empty()
                &&& vm.touched@ == Seq::<usize>::empty()
            },
    {
        let mut memory = memory;
        match snapshot.load(&mut memory) {
            Ok(()) => {},
            Err(e) => {
                return Err(e);
            },
        }
        let mut vm = Vm::new(memory);
        let mut regs = vm.get_initial_regs();
        snapshot.apply_registers(&mut regs);
        vm.set_initial_regs(regs);
        Ok(vm)
    }

    /// Whether a memory of `memory_size` bytes can be made: it has no more
    /// frames than page tables can point to and is no larger than a buffer
    /// can be.
    pub open spec fn memory_fits(memory_size: usize) -> bool {
        memory_size <= MAX_ARENA && VMPhysMem::rounded(memory_size as int) + 4096 <= isize::MAX
    }

    /// How loading `snapshot` into an empty memory of `memory_size` bytes,
    /// rounded up to whole pages, ends, and the address space that it
    /// leaves.
    pub open spec fn loaded(snapshot: Snapshot, memory_size: usize) -> (
        AddressSpace,
        Result<(), VmError>,
    ) {
        load_mappings(
            AddressSpace::empty(VMPhysMem::rounded(memory_size as int) / 4096),
            snapshot.memory@,
            snapshot.mappings@,
            0,
        )
    }

    /// A machine with a memory of `memory_size` bytes, rounded up to whole
    /// pages, and the snapshot loaded, as `load_snapshot` loads it into an
    /// empty memory. Fails for want of memory where no memory of that size
    /// can be made, and as the loading fails.
    pub fn from_snapshot(snapshot: &Snapshot, memory_size: usize) -> (r: Result<Vm, VmError>)
        requires
            snapshot.valid(),
            memory_size >= PAGE_SIZE,
        ensures
            r is Ok <==> Self::memory_fits(memory_size) && Self::loaded(*snapshot, memory_size).1
                is Ok,
            r matches Err(e) ==> (if Self::memory_fits(memory_size) {
                Err::<(), VmError>(e) == Self::loaded(*snapshot, memory_size).1
            } else {
                e == VmError::Memory(VMMemoryError::OutOfMemory)
            }),
            r matches Ok(vm) ==> {
                &&& vm.memory.wf()
                &&& vm.memory.pmem.spec_size() == VMPhysMem::rounded(memory_size as int)
                &&& vm.memory@ == Self::loaded(*snapshot, memory_size).0
                &&& forall|k: int, j: int|
                    0 <= k < snapshot.mappings@.len() && 0 <= j < snapshot.mappings@[k].pages()
                        ==> #[trigger] page_loaded(
                        vm.memory,
                        snapshot.memory@,
                        snapshot.mappings@[k],
                        j,
                    )
                &&& vm.regs == with_registers(
                    Regs::zero(),
                    snapshot.registers@,
                    snapshot.registers@.len(),
                )
                &&& vm.sregs == Sregs::spec_long_mode(0)
                &&& vm.coverage@ == Seq::<u64>::empty()
                &&& vm.coverage_points@ == Map::<u64, u8>::empty()
                &&& vm.touched@ == Seq::<usize>::empty()
            },
    {
        let memory = match VMMemory::new(memory_size) {
            Some(memory) => memory,
            None => {
                return Err(VmError::Memory(VMMemoryError::OutOfMemory));
            },
        };
        Self::load_snapshot(snapshot, memory)
    }

    /// The one region of memory that the hypervisor is told of: the whole
    /// arena, from guest address 0, with the log of dirty pages switched on.
    pub fn memory_region(&self) -> (region: MemoryRegion)
        ensures
            region == (MemoryRegion {
                slot: 0,
                flags: 0x1,
                guest_phys_addr: 0,
                memory_size: self.memory.pmem.spec_size() as u64,
                userspace_addr: self.memory.pmem.spec_host_address() as u64,
            }),
    {
        MemoryRegion {
            slot: 0,
            flags: KVM_MEM_LOG_DIRTY_PAGES,
            guest_phys_addr: self.memory.pmem.guest_address() as u64,
            memory_size: self.memory.pmem.size() as u64,
            userspace_addr: self.memory.pmem.host_address() as u64,
        }
    }

    /// The debug control word for the hypervisor: debugging on, software
    /// breakpoints end the run.
    pub fn guest_debug_control() -> (control: u32)
        ensures
            control == 0x1_0001,
    {
        assert(0x1u32 | 0x1_0000u32 == 0x1_0001u32) by (bit_vector);
        KVM_GUESTDBG_ENABLE | KVM_GUESTDBG_USE_SW_BP
    }

    /// Sets the registers that each run starts from.
    pub fn set_initial_regs(&mut self, regs: Regs)
        ensures
            final(self).regs == regs,
            final(self).memory == old(self).memory,
            final(self).sregs == old(self).sregs,
            final(self).coverage == old(self).coverage,
            final(self).touched == old(self).touched,
            final(self).coverage_points == old(self).coverage_points,
    {
        self.regs = regs;
    }

    /// The registers that each run starts from.
    pub fn get_initial_regs(&self) -> (regs: Regs)
        ensures
            regs == self.regs,
    {
        self.regs
    }

    /// The coverage points that the current run has hit, in order.
    pub fn get_coverage(&self) -> (coverage: &Vec<u64>)
        ensures
            coverage@ == self.coverage@,
    {
        &self.coverage
    }

    /// Makes `addr` a coverage point: remembers the byte that the guest has
    /// there and puts a breakpoint in its place. Returns whether it did; it
    /// does nothing where `addr` is a coverage point already, and fails
    /// without a change where `addr` is not mapped.
    pub fn add_coverage_point(&mut self, addr: u64) -> (r: Result<bool, VmError>)
        ensures
            final(self).regs == old(self).regs,
            final(self).sregs == old(self).sregs,
            final(self).coverage == old(self).coverage,
            final(self).touched == old(self).touched,
            final(self).memory.pmem.spec_size() == old(self).memory.pmem.spec_size(),
            old(self).coverage_points@.contains_key(addr) ==> r == Ok::<bool, VmError>(false)
                && *final(self) == *old(self),
            !old(self).coverage_points@.contains_key(addr) && !old(self).memory@.is_mapped(addr)
                ==> r == Err::<bool, VmError>(
                VmError::Memory(VMMemoryError::AddressUnmapped(page_base(addr))),
            ) && *final(self) == *old(self),
            !old(self).coverage_points@.contains_key(addr) && old(self).memory@.is_mapped(addr)
                ==> {
                &&& r == Ok::<bool, VmError>(true)
                &&& final(self).coverage_points@ == old(self).coverage_points@.insert(
                    addr,
                    old(self).memory.byte_at(addr),
                )
                &&& final(self).memory.pmem@ == old(self).memory.pmem@.update(
                    old(self).memory@.phys(addr),
                    0xccu8,
                )
                &&& old(self).memory.wf() ==> final(self).memory.wf() && final(self).memory@ == old(
                    self,
                ).memory@ && final(self).memory.byte_at(addr) == 0xcc
            },
    {
        if self.coverage_points.contains_key(&addr) {
            return Ok(false);
        }
        assert(byte_va(addr, 0) == addr);
        let mut orig_bytes: Vec<u8> = vec![0u8];
        match self.memory.read(addr, orig_bytes.as_mut_slice()) {
            Ok(()) => {},
            Err(e) => {
                return Err(VmError::Memory(e));
            },
        }
        let breakpoint: Vec<u8> = vec![BREAKPOINT];
        let ghost before = self.memory;
        match self.memory.write(addr, breakpoint.as_slice()) {
            Ok(()) => {},
            Err(e) => {
                return Err(VmError::Memory(e));
            },
        }
        proof {
            reveal(overwritten);
            before.pmem.lemma_inv();
            self.memory.pmem.lemma_inv();
            assert forall|q: int| 0 <= q < before.pmem@.len() implies self.memory.pmem@[q]
                == before.pmem@.update(before@.phys(addr), 0xccu8)[q] by {
                if q != before@.phys(addr) {
                    assert(untouched(before@, addr, 1, q));
                } else {
                    assert(written_last(before@, addr, 1, 0));
                }
            }
            assert(self.memory.pmem@ =~= before.pmem@.update(before@.phys(addr), 0xccu8));
        }
        self.coverage_points.insert(addr, orig_bytes[0]);
        Ok(true)
    }

    /// Whether bit `frame % 64` of word `frame / 64` of the dirty log is set.
    fn is_dirty(dirty_log: &[u64], frame: usize) -> (r: bool)
        requires
            frame < dirty_log@.len() * 64,
        ensures
            r == dirty(dirty_log@, frame as int),
    {
        let word: u64 = dirty_log[frame / 64];
        let bit: u64 = (frame % 64) as u64;
        (word >> bit) & 1 == 1
    }

    /// Puts the machine back to the state of `other` after a run: every page
    /// that the guest wrote, as `dirty_log` says, and every page that the
    /// machine itself wrote when a breakpoint was hit gets the bytes that
    /// `other` has there, the registers become those of `other`, and the
    /// coverage of the run is dropped. The coverage points stay. Nothing
    /// changes where the log marks a page that the arena does not have.
    pub fn reset(&mut self, other: &Vm, dirty_log: &[u64]) -> (r: Result<(), VmError>)
        requires
            old(self).memory.pmem.spec_size() == other.memory.pmem.spec_size(),
            dirty_log@.len() * 0x4_0000 <= usize::MAX,
        ensures
            r is Err <==> marks_outside(
                dirty_log@,
                old(self).memory.pmem.spec_size() as int / 4096,
            ),
            r matches Err(e) ==> *final(self) == *old(self) && e == outside_error(
                dirty_log@,
                old(self).memory.pmem.spec_size() as int / 4096,
            ),
            r is Ok ==> {
                &&& final(self).memory.pmem@ == restored(
                    old(self).memory.pmem@,
                    other.memory.pmem@,
                    dirty_log@,
                    old(self).touched@,
                )
                &&& final(self).touched@ == Seq::<usize>::empty()
                &&& final(self).memory.pmem.inv()
                &&& final(self).memory.pmem.spec_size() == old(self).memory.pmem.spec_size()
                &&& final(self).memory.pmem.spec_top() == old(self).memory.pmem.spec_top()
                &&& final(self).memory.pmem.spec_host_address() == old(
                    self,
                ).memory.pmem.spec_host_address()
                &&& final(self).memory.page_directory == old(self).memory.page_directory
                &&& final(self).memory.roles == old(self).memory.roles
                &&& final(self).regs == other.regs
                &&& final(self).sregs == other.sregs
                &&& final(self).coverage@ == Seq::<u64>::empty()
                &&& final(self).coverage_points == old(self).coverage_points
            },
    {
        let size: usize = self.memory.pmem.size();
        let _ = other.memory.pmem.size();
        let frames: usize = size / PAGE_SIZE;
        let bits: usize = dirty_log.len() * 64;
        let mut f: usize = frames;
        while f < bits
            invariant
                *self == *old(self),
                frames == old(self).memory.pmem.spec_size() / 4096,
                dirty_log@.len() * 0x4_0000 <= usize::MAX,
                frames <= f,
                bits == dirty_log@.len() * 64,
                f <= bits || bits < frames,
                forall|g: int| frames <= g < f ==> !dirty(dirty_log@, g),
            decreases bits - f,
        {
            if Self::is_dirty(dirty_log, f) {
                proof {
                    let log = dirty_log@;
                    assert(first_outside(log, frames as int, f as int));
                    let c = choose|c: int| first_outside(log, frames as int, c);
                    assert(first_outside(log, frames as int, c));
                    assert(c <= f && f <= c);
                }
                return Err(
                    VmError::Memory(
                        VMMemoryError::PhysReadOutOfBounds((f as u64) * 4096, PAGE_SIZE),
                    ),
                );
            }
            f = f + 1;
        }
        let limit: usize = if bits < frames {
            bits
        } else {
            frames
        };
        let ghost mine = self.memory.pmem@;
        let ghost theirs = other.memory.pmem@;
        let mut f: usize = 0;
        while f < limit
            invariant
                f <= limit,
                limit <= frames,
                limit <= bits,
                bits == dirty_log@.len() * 64,
                frames == size / 4096,
                size == self.memory.pmem.spec_size(),
                size == other.memory.pmem.spec_size(),
                size % 4096 == 0,
                mine == old(self).memory.pmem@,
                theirs == other.memory.pmem@,
                mine.len() == size,
                theirs.len() == size,
                self.memory.pmem.inv(),
                self.memory.pmem@.len() == size,
                self.memory.pmem.spec_top() == old(self).memory.pmem.spec_top(),
                self.memory.pmem.spec_host_address() == old(self).memory.pmem.spec_host_address(),
                self.memory.page_directory == old(self).memory.page_directory,
                self.memory.roles == old(self).memory.roles,
                self.regs == old(self).regs,
                self.sregs == old(self).sregs,
                self.coverage == old(self).coverage,
                self.coverage_points == old(self).coverage_points,
                self.touched == old(self).touched,
                forall|b: int|
                    0 <= b < size ==> #[trigger] self.memory.pmem@[b] == (if b / 4096 < f && dirty(
                        dirty_log@,
                        b / 4096,
                    ) {
                        theirs[b]
                    } else {
                        mine[b]
                    }),
            decreases limit - f,
        {
            if Self::is_dirty(dirty_log, f) {
                let pa: usize = f * PAGE_SIZE;
                match other.memory.pmem.raw_slice(pa, PAGE_SIZE) {
                    Ok(page) => {
                        let _ = self.memory.pmem.write(pa, page);
                    },
                    Err(_) => {},
                }
            }
            f = f + 1;
        }
        let ghost touched = self.touched@;
        let mut k: usize = 0;
        while k < self.touched.len()
            invariant
                k <= touched.len(),
                touched == self.touched@,
                touched == old(self).touched@,
                frames == size / 4096,
                size == self.memory.pmem.spec_size(),
                size == other.memory.pmem.spec_size(),
                size % 4096 == 0,
                mine == old(self).memory.pmem@,
                theirs == other.memory.pmem@,
                mine.len() == size,
                theirs.len() == size,
                self.memory.pmem.inv(),
                self.memory.pmem@.len() == size,
                self.memory.pmem.spec_top() == old(self).memory.pmem.spec_top(),
                self.memory.pmem.spec_host_address() == old(self).memory.pmem.spec_host_address(),
                self.memory.page_directory == old(self).memory.page_directory,
                self.memory.roles == old(self).memory.roles,
                self.regs == old(self).regs,
                self.sregs == old(self).sregs,
                self.coverage == old(self).coverage,
                self.coverage_points == old(self).coverage_points,
                forall|b: int|
                    0 <= b < size ==> #[trigger] self.memory.pmem@[b] == (if dirty(
                        dirty_log@,
                        b / 4096,
                    ) || touched_before(touched, k as int, b / 4096) {
                        theirs[b]
                    } else {
                        mine[b]
                    }),
            decreases touched.len() - k,
        {
            let frame: usize = self.touched[k];
            let ghost before = self.memory.pmem@;
            if frame < frames {
                let pa: usize = frame * PAGE_SIZE;
                match other.memory.pmem.raw_slice(pa, PAGE_SIZE) {
                    Ok(page) => {
                        let _ = self.memory.pmem.write(pa, page);
                    },
                    Err(_) => {},
                }
            }
            proof {
                assert forall|b: int| 0 <= b < size implies #[trigger] self.memory.pmem@[b] == (if dirty(
                    dirty_log@,
                    b / 4096,
                ) || touched_before(touched, k + 1, b / 4096) {
                    theirs[b]
                } else {
                    mine[b]
                }) by {
                    if b / 4096 == frame {
                        assert(touched[k as int] == b / 4096);
                    } else {
                        assert(self.memory.pmem@[b] == before[b]);
                        if touched_before(touched, k + 1, b / 4096) {
                            let j = choose|j: int| 0 <= j < k + 1 && #[trigger] touched[j] == b / 4096;
                            assert(j < k);
                        }
                    }
                }
            }
            k = k + 1;
        }
        self.touched.clear();
        self.regs = other.regs;
        self.sregs = other.sregs;
        self.coverage.clear();
        proof {
            assert(self.memory.pmem@ =~= restored(mine, theirs, dirty_log@, touched));
        }
        Ok(())
    }

    /// Makes the registers ready for a run: sets the bit of the flags
    /// register that is always set. The hypervisor is then given `regs` and
    /// `sregs`, and the dirty log is read once to clear it.
    pub fn begin_run(&mut self)
        ensures
            final(self).regs == (Regs { rflags: old(self).regs.rflags | 0x2, ..old(self).regs }),
            final(self).memory == old(self).memory,
            final(self).sregs == old(self).sregs,
            final(self).coverage == old(self).coverage,
            final(self).touched == old(self).touched,
            final(self).coverage_points == old(self).coverage_points,
    {
        self.regs.rflags = self.regs.rflags | RFLAGS_RESERVED;
    }

    /// What the processor's handing back control at `rip` means for the run.
    /// A breakpoint at a coverage point is recorded, the byte that it
    /// replaced is put back, the frame that was written is noted for the
    /// next reset, and the guest goes on; any other stop ends the run. A halt
    /// is reported at the halt instruction, one byte before `rip`.
    pub fn handle_exit(&mut self, exit: CpuExit, rip: u64) -> (r: Result<Step, VmError>)
        requires
            exit == CpuExit::Hlt ==> rip >= 1,
        ensures
            final(self).regs == old(self).regs,
            final(self).sregs == old(self).sregs,
            final(self).coverage_points == old(self).coverage_points,
            final(self).memory.pmem.spec_size() == old(self).memory.pmem.spec_size(),
            exit == CpuExit::Hlt ==> r == Ok::<Step, VmError>(
                Step::Exit(VmExit::Hlt((rip - 1) as u64)),
            ) && *final(self) == *old(self),
            exit == CpuExit::Other ==> r == Ok::<Step, VmError>(
                Step::Exit(VmExit::Unhandled(rip)),
            ) && *final(self) == *old(self),
            exit == CpuExit::Debug && !old(self).coverage_points@.contains_key(rip) ==> r == Ok::<
                Step,
                VmError,
            >(Step::Exit(VmExit::Breakpoint(rip))) && *final(self) == *old(self),
            exit == CpuExit::Debug && old(self).coverage_points@.contains_key(rip) && !old(
                self,
            ).memory@.is_mapped(rip) ==> r == Err::<Step, VmError>(
                VmError::Memory(VMMemoryError::AddressUnmapped(page_base(rip))),
            ) && *final(self) == *old(self),
            exit == CpuExit::Debug && old(self).coverage_points@.contains_key(rip) && old(
                self,
            ).memory@.is_mapped(rip) ==> {
                &&& r == Ok::<Step, VmError>(Step::Resume)
                &&& final(self).coverage@ == old(self).coverage@.push(rip)
                &&& final(self).touched@ == old(self).touched@.push(
                    old(self).memory@.frame(rip) as usize,
                )
                &&& final(self).memory.pmem@ == old(self).memory.pmem@.update(
                    old(self).memory@.phys(rip),
                    old(self).coverage_points@[rip],
                )
                &&& old(self).memory.wf() ==> final(self).memory.wf() && final(self).memory@ == old(
                    self,
                ).memory@ && final(self).memory.byte_at(rip) == old(self).coverage_points@[rip]
            },
    {
        match exit {
            CpuExit::Hlt => Ok(Step::Exit(VmExit::Hlt(rip - 1))),
            CpuExit::Other => Ok(Step::Exit(VmExit::Unhandled(rip))),
            CpuExit::Debug => {
                let orig_byte: u8 = match self.coverage_points.get(&rip) {
                    Some(byte) => *byte,
                    None => {
                        return Ok(Step::Exit(VmExit::Breakpoint(rip)));
                    },
                };
                assert(byte_va(rip, 0) == rip);
                let bytes: Vec<u8> = vec![orig_byte];
                let ghost before = self.memory;
                let _ = self.memory.pmem.size();
                let frame = self.memory.get_page_pa(VirtAddr::new(rip));
                match self.memory.write(rip, bytes.as_slice()) {
                    Ok(()) => {},
                    Err(e) => {
                        return Err(VmError::Memory(e));
                    },
                }
                match frame {
                    Some(pa) => {
                        self.touched.push(pa / PAGE_SIZE);
                    },
                    None => {},
                }
                proof {
                    reveal(overwritten);
                    before.pmem.lemma_inv();
                    self.memory.pmem.lemma_inv();
                    assert forall|q: int| 0 <= q < before.pmem@.len() implies self.memory.pmem@[q]
                        == before.pmem@.update(before@.phys(rip), orig_byte)[q] by {
                        if q != before@.phys(rip) {
                            assert(untouched(before@, rip, 1, q));
                        } else {
                            assert(written_last(before@, rip, 1, 0));
                        }
                    }
                    assert(self.memory.pmem@ =~= before.pmem@.update(before@.phys(rip), orig_byte));
                }
                self.coverage.push(rip);
                Ok(Step::Resume)
            },
        }
    }

    /// A second machine with a copy of this one's memory and its registers,
    /// and with no coverage point and no coverage of its own. There always
    /// is one.
    pub fn fork(&self) -> (r: Result<Vm, VmError>)
        ensures
            r is Ok,
            r matches Ok(vm) ==> {
                &&& vm.memory.pmem@ == self.memory.pmem@
                &&& vm.memory.pmem.spec_size() == self.memory.pmem.spec_size()
                &&& vm.memory.pmem.spec_top() == self.memory.pmem.spec_top()
                &&& vm.memory.page_directory == self.memory.page_directory
                &&& vm.memory@ == self.memory@
                &&& self.memory.wf() ==> vm.memory.wf()
                &&& vm.regs == self.regs
                &&& vm.sregs == self.sregs
                &&& vm.coverage@ == Seq::<u64>::empty()
                &&& vm.coverage_points@ == Map::<u64, u8>::empty()
                &&& vm.touched@ == Seq::<usize>::empty()
            },
    {
        let memory = match self.memory.clone() {
            Some(memory) => memory,
            None => {
                return Err(VmError::Memory(VMMemoryError::OutOfMemory));
            },
        };
        let mut vm = Vm::new(memory);
        vm.regs = self.regs;
        vm.sregs = self.sregs;
        Ok(vm)
    }
}

} // verus!
