//! Snapshots of a process, and how one is loaded into a guest's memory.

use vstd::prelude::*;
use crate::memory::{VMMemory, VMMemoryError};
use crate::paging::{
    AddressSpace, PagePermissions, VirtAddr, PAGE_SIZE, vpn, byte_va, lemma_in_page,
};
use crate::text::str_equal;
use crate::vm::{VmError, perms_of, string_perms_to_perms};
use crate::x64::Regs;

verus! {

/// A range of the snapshot's address space.
pub struct SnapshotMapping {
    /// First address of the range.
    pub start: u64,
    /// First address after the range.
    pub end: u64,
    /// Where the bytes of the range start in the snapshot's memory.
    pub physical_offset: u64,
    /// The rights of its pages: the letters `r`, `w` and `x`.
    pub permissions: String,
}

impl SnapshotMapping {
    /// Bytes in the range.
    pub open spec fn spec_size(&self) -> int {
        self.end - self.start
    }

    /// Number of pages that the range is loaded as: one for each started
    /// page of its bytes.
    pub open spec fn pages(&self) -> int {
        (self.spec_size() + 4095) / 4096
    }

    /// The range starts on a page boundary, does not end before it starts,
    /// and its pages and their bytes in the snapshot's memory have addresses.
    pub open spec fn valid(&self) -> bool {
        &&& self.start % 4096 == 0
        &&& self.start <= self.end
        &&& self.start + self.pages() * 4096 <= u64::MAX + 1
        &&& self.physical_offset + self.pages() * 4096 <= u64::MAX + 1
        &&& self.spec_size() <= usize::MAX
    }

    /// Bytes in the range.
    pub fn size(&self) -> (size: usize)
        requires
            self.valid(),
        ensures
            size == self.spec_size(),
    {
        (self.end - self.start) as usize
    }

    /// Whether the range is valid.
    #[verifier::when_used_as_spec(valid)]
    pub fn is_valid(&self) -> (r: bool)
        ensures
            r == self.valid(),
    {
        if self.start % 4096 != 0 || self.start > self.end {
            return false;
        }
        let size: u64 = self.end - self.start;
        if size > usize::MAX as u64 {
            return false;
        }
        let pages: u64 = if size % 4096 == 0 {
            size / 4096
        } else {
            size / 4096 + 1
        };
        assert(pages == self.pages());
        let room: u64 = u64::MAX - self.physical_offset;
        let limit: u64 = if room == u64::MAX {
            0x10_0000_0000_0000
        } else {
            (room + 1) / 4096
        };
        self.start / 4096 + pages <= 0x10_0000_0000_0000 && pages <= limit
    }
}

/// The value of a register in a snapshot.
pub struct SnapshotRegister {
    pub name: String,
    pub value: u64,
}

/// A snapshot: the ranges of its address space, its memory, and its
/// registers by name.
pub struct Snapshot {
    pub mappings: Vec<SnapshotMapping>,
    pub memory: Vec<u8>,
    pub registers: Vec<SnapshotRegister>,
}

/// What `read` returns for `len` bytes at `offset` of `memory`: nothing
/// where the memory ends before `offset`, else the bytes that it has there,
/// `len` at most.
pub open spec fn read_at(memory: Seq<u8>, offset: int, len: int) -> Option<Seq<u8>> {
    if offset >= memory.len() {
        None
    } else if offset + len <= memory.len() {
        Some(memory.subrange(offset, offset + len))
    } else {
        Some(memory.subrange(offset, memory.len() as int))
    }
}

/// Whether the snapshot's memory has the page at `offset` only in part.
pub open spec fn page_truncated(memory: Seq<u8>, offset: int) -> bool {
    offset < memory.len() && offset + 4096 > memory.len()
}

/// Loading page `j` of range `m`: the address space after, and how it ended.
/// The page is mapped with the rights of the range; that is refused as
/// `mmap` refuses it. With the page mapped, loading fails for want of memory
/// where the snapshot has the page's bytes only in part.
pub open spec fn load_page(space: AddressSpace, memory: Seq<u8>, m: SnapshotMapping, j: int) -> (
    AddressSpace,
    Result<(), VmError>,
) {
    let va = (m.start + j * 4096) as u64;
    match space.map_page_result(va) {
        Err(e) => (space, Err(VmError::Memory(e))),
        Ok(_) => (
            space.map_page(va, PagePermissions { bits: perms_of(m.permissions@) }),
            if page_truncated(memory, m.physical_offset + j * 4096) {
                Err(VmError::Memory(VMMemoryError::OutOfMemory))
            } else {
                Ok(())
            },
        ),
    }
}

/// Loading the pages of range `m` from page `j` on, in order, until one
/// fails.
pub open spec fn load_pages(space: AddressSpace, memory: Seq<u8>, m: SnapshotMapping, j: int) -> (
    AddressSpace,
    Result<(), VmError>,
)
    decreases m.pages() - j,
{
    if j >= m.pages() {
        (space, Ok(()))
    } else {
        let (next, r) = load_page(space, memory, m, j);
        match r {
            Err(e) => (next, Err(e)),
            Ok(_) => load_pages(next, memory, m, j + 1),
        }
    }
}

/// Loading the ranges `mappings` from range `k` on, in order, until one
/// fails.
pub open spec fn load_mappings(
    space: AddressSpace,
    memory: Seq<u8>,
    mappings: Seq<SnapshotMapping>,
    k: int,
) -> (AddressSpace, Result<(), VmError>)
    decreases mappings.len() - k,
{
    if k >= mappings.len() {
        (space, Ok(()))
    } else {
        let (next, r) = load_pages(space, memory, mappings[k], 0);
        match r {
            Err(e) => (next, Err(e)),
            Ok(_) => load_mappings(next, memory, mappings, k + 1),
        }
    }
}

/// The guest sees page `j` of range `m` as the snapshot has it: the page is
/// mapped and, where the snapshot has bytes for it, holds them.
pub open spec fn page_loaded(guest: VMMemory, memory: Seq<u8>, m: SnapshotMapping, j: int) -> bool {
    let va = (m.start + j * 4096) as u64;
    let offset = m.physical_offset + j * 4096;
    &&& guest@.is_mapped(va)
    &&& !page_truncated(memory, offset)
    &&& offset < memory.len() ==> guest.holds(va, memory.subrange(offset, offset + 4096))
}

/// What the guest sees of a page stays as long as the page's frame and the
/// bytes in it stay.
pub proof fn lemma_page_loaded_kept(
    before: VMMemory,
    after: VMMemory,
    memory: Seq<u8>,
    m: SnapshotMapping,
    j: int,
)
    requires
        m.valid(),
        0 <= j < m.pages(),
        page_loaded(before, memory, m, j),
        forall|va: u64| #[trigger]
            before@.is_mapped(va) ==> after@.is_mapped(va) && after.byte_at(va) == before.byte_at(
                va,
            ),
    ensures
        page_loaded(after, memory, m, j),
{
    let va = (m.start + j * 4096) as u64;
    let offset = m.physical_offset + j * 4096;
    if offset < memory.len() {
        let data = memory.subrange(offset, offset + 4096);
        assert forall|i: int| 0 <= i < data.len() implies after.byte_at(
            #[trigger] byte_va(va, i),
        ) == data[i] by {
            assert(vpn(byte_va(va, i)) == vpn(va));
            assert(before@.is_mapped(byte_va(va, i)));
        }
    }
}

/// `regs` with the register called `name` set to `value`; unchanged where
/// `name` names none of the sixteen general purpose registers or `rip`.
pub open spec fn with_register(regs: Regs, name: Seq<char>, value: u64) -> Regs {
    if name == "r15"@ {
        Regs { r15: value, ..regs }
    } else if name == "r14"@ {
        Regs { r14: value, ..regs }
    } else if name == "r13"@ {
        Regs { r13: value, ..regs }
    } else if name == "r12"@ {
        Regs { r12: value, ..regs }
    } else if name == "rbp"@ {
        Regs { rbp: value, ..regs }
    } else if name == "rbx"@ {
        Regs { rbx: value, ..regs }
    } else if name == "r11"@ {
        Regs { r11: value, ..regs }
    } else if name == "r10"@ {
        Regs { r10: value, ..regs }
    } else if name == "r9"@ {
        Regs { r9: value, ..regs }
    } else if name == "r8"@ {
        Regs { r8: value, ..regs }
    } else if name == "rax"@ {
        Regs { rax: value, ..regs }
    } else if name == "rcx"@ {
        Regs { rcx: value, ..regs }
    } else if name == "rdx"@ {
        Regs { rdx: value, ..regs }
    } else if name == "rsi"@ {
        Regs { rsi: value, ..regs }
    } else if name == "rdi"@ {
        Regs { rdi: value, ..regs }
    } else if name == "rip"@ {
        Regs { rip: value, ..regs }
    } else if name == "rsp"@ {
        Regs { rsp: value, ..regs }
    } else {
        regs
    }
}

/// `regs` after the first `n` of `registers` were set, in order.
pub open spec fn with_registers(regs: Regs, registers: Seq<SnapshotRegister>, n: nat) -> Regs
    decreases n,
{
    if n == 0 {
        regs
    } else {
        with_register(
            with_registers(regs, registers, (n - 1) as nat),
            registers[n - 1].name@,
            registers[n - 1].value,
        )
    }
}

/// Sets the register called `name` in `regs` to `value`.
pub fn set_register(regs: &mut Regs, name: &str, value: u64)
    ensures
        *final(regs) == with_register(*old(regs), name@, value),
{
    if str_equal(name, "r15") {
        regs.r15 = value;
    } else if str_equal(name, "r14") {
        regs.r14 = value;
    } else if str_equal(name, "r13") {
        regs.r13 = value;
    } else if str_equal(name, "r12") {
        regs.r12 = value;
    } else if str_equal(name, "rbp") {
        regs.rbp = value;
    } else if str_equal(name, "rbx") {
        regs.rbx = value;
    } else if str_equal(name, "r11") {
        regs.r11 = value;
    } else if str_equal(name, "r10") {
        regs.r10 = value;
    } else if str_equal(name, "r9") {
        regs.r9 = value;
    } else if str_equal(name, "r8") {
        regs.r8 = value;
    } else if str_equal(name, "rax") {
        regs.rax = value;
    } else if str_equal(name, "rcx") {
        regs.rcx = value;
    } else if str_equal(name, "rdx") {
        regs.rdx = value;
    } else if str_equal(name, "rsi") {
        regs.rsi = value;
    } else if str_equal(name, "rdi") {
        regs.rdi = value;
    } else if str_equal(name, "rip") {
        regs.rip = value;
    } else if str_equal(name, "rsp") {
        regs.rsp = value;
    }
}

impl Snapshot {
    /// Every range of the snapshot is valid.
    pub open spec fn valid(&self) -> bool {
        forall|k: int| 0 <= k < self.mappings@.len() ==> (#[trigger] self.mappings@[k]).valid()
    }

    /// Whether every range of the snapshot is valid.
    #[verifier::when_used_as_spec(valid)]
    pub fn is_valid(&self) -> (r: bool)
        ensures
            r == self.valid(),
    {
        let mut k: usize = 0;
        while k < self.mappings.len()
            invariant
                k <= self.mappings@.len(),
                forall|i: int| 0 <= i < k ==> (#[trigger] self.mappings@[i]).valid(),
            decreases self.mappings@.len() - k,
        {
            if !self.mappings[k].is_valid() {
                return false;
            }
            k = k + 1;
        }
        true
    }

    /// The ranges of the snapshot.
    pub fn mappings(&self) -> (mappings: &Vec<SnapshotMapping>)
        ensures
            mappings == &self.mappings,
    {
        &self.mappings
    }

    /// The bytes of the snapshot's memory from `offset` on, `len` at most:
    /// fewer where the memory ends before, none where it ends before
    /// `offset`.
    pub fn read(&self, offset: u64, len: usize) -> (r: Option<&[u8]>)
        ensures
            r is Some <==> read_at(self.memory@, offset as int, len as int) is Some,
            r matches Some(bytes) ==> Some(bytes@) == read_at(
                self.memory@,
                offset as int,
                len as int,
            ),
    {
        let total: usize = self.memory.len();
        if offset >= total as u64 {
            return None;
        }
        let from: usize = offset as usize;
        let to: usize = if len <= total - from {
            from + len
        } else {
            total
        };
        Some(vstd::slice::slice_subrange(self.memory.as_slice(), from, to))
    }

    /// The registers of the snapshot set in `regs`, in order.
    pub fn apply_registers(&self, regs: &mut Regs)
        ensures
            *final(regs) == with_registers(
                *old(regs),
                self.registers@,
                self.registers@.len(),
            ),
    {
        let mut k: usize = 0;
        while k < self.registers.len()
            invariant
                k <= self.registers@.len(),
                *regs == with_registers(*old(regs), self.registers@, k as nat),
            decreases self.registers@.len() - k,
        {
            set_register(regs, self.registers[k].name.as_str(), self.registers[k].value);
            k = k + 1;
        }
    }

    /// Maps the page at `va`, as `VMMemory::map_page` does.
    fn map_for(guest: &mut VMMemory, va: u64, perms: PagePermissions) -> (r: Result<
        (),
        VMMemoryError,
    >)
        requires
            old(guest).wf(),
        ensures
            final(guest).wf(),
            r == old(guest)@.map_page_result(va),
            r is Ok ==> final(guest)@ == old(guest)@.map_page(va, perms) && final(guest)@.is_mapped(
                va,
            ),
            r is Err ==> *final(guest) == *old(guest),
            final(guest).pmem.spec_size() == old(guest).pmem.spec_size(),
            final(guest).page_directory == old(guest).page_directory,
            forall|other: u64| #[trigger]
                old(guest)@.is_mapped(other) ==> final(guest)@.is_mapped(other)
                    && final(guest).byte_at(other) == old(guest).byte_at(other),
    {
        let r = guest.map_page(VirtAddr::new(va), perms);
        proof {
            if r is Ok {
                old(guest)@.lemma_map_page_keeps(va, perms, va);
            }
        }
        r
    }

    /// Fills the mapped page at `va` with `data`.
    fn write_page(guest: &mut VMMemory, va: u64, data: &[u8])
        requires
            old(guest).wf(),
            va % 4096 == 0,
            va + 4096 <= u64::MAX + 1,
            data@.len() == 4096,
            old(guest)@.is_mapped(va),
        ensures
            final(guest).wf(),
            final(guest)@ == old(guest)@,
            final(guest).pmem.spec_size() == old(guest).pmem.spec_size(),
            final(guest).page_directory == old(guest).page_directory,
            final(guest).holds(va, data@),
            forall|other: u64| #[trigger]
                old(guest)@.is_mapped(other) && vpn(other) != vpn(va) ==> final(guest).byte_at(
                    other,
                ) == old(guest).byte_at(other),
    {
        proof {
            assert forall|i: int| 0 <= i < 4096 implies old(guest)@.is_mapped(
                #[trigger] byte_va(va, i),
            ) by {
                lemma_in_page(va, i);
                old(guest)@.lemma_same_page(byte_va(va, i), va);
            }
        }
        let r = guest.write(va, data);
        proof {
            assert forall|other: u64| #[trigger]
                old(guest)@.is_mapped(other) && vpn(other) != vpn(va) implies guest.byte_at(other)
                == old(guest).byte_at(other) by {
                assert forall|i: int| 0 <= i < 4096 implies vpn(#[trigger] byte_va(va, i)) != vpn(
                    other,
                ) by {
                    lemma_in_page(va, i);
                }
            }
        }
    }

    /// Loads page `j` of range `m` into `guest`: maps it with the rights of
    /// the range and copies the bytes that the snapshot has for it.
    pub fn load_page(&self, guest: &mut VMMemory, m: &SnapshotMapping, j: usize) -> (r: Result<
        (),
        VmError,
    >)
        requires
            old(guest).wf(),
            m.valid(),
            j < m.pages(),
        ensures
            final(guest).wf(),
            (final(guest)@, r) == load_page(old(guest)@, self.memory@, *m, j as int),
            final(guest).pmem.spec_size() == old(guest).pmem.spec_size(),
            final(guest).page_directory == old(guest).page_directory,
            r is Ok ==> page_loaded(*final(guest), self.memory@, *m, j as int),
            forall|va: u64| #[trigger]
                old(guest)@.is_mapped(va) ==> final(guest)@.is_mapped(va) && final(guest).byte_at(
                    va,
                ) == old(guest).byte_at(va),
    {
        let perms = string_perms_to_perms(m.permissions.as_str());
        let va: u64 = m.start + (j as u64) * 4096;
        match Self::map_for(guest, va, perms) {
            Ok(()) => {},
            Err(e) => {
                return Err(VmError::Memory(e));
            },
        }
        let ghost mapped = *guest;
        let offset: u64 = m.physical_offset + (j as u64) * 4096;
        let ghost goal = load_page(old(guest)@, self.memory@, *m, j as int);
        assert(perms == PagePermissions { bits: perms_of(m.permissions@) });
        assert(goal.0 == mapped@);
        match self.read(offset, PAGE_SIZE) {
            None => {
                assert(goal.1 is Ok);
                assert(goal == (guest@, Ok::<(), VmError>(())));
                Ok(())
            },
            Some(data) => {
                if data.len() != PAGE_SIZE {
                    assert(page_truncated(self.memory@, offset as int));
                    return Err(VmError::Memory(VMMemoryError::OutOfMemory));
                }
                assert(!page_truncated(self.memory@, offset as int));
                assert(goal.1 is Ok);
                Self::write_page(guest, va, data);
                proof {
                    assert forall|other: u64| #[trigger]
                        old(guest)@.is_mapped(other) implies guest.byte_at(other)
                        == mapped.byte_at(other) by {
                        if vpn(other) == vpn(va) {
                            old(guest)@.lemma_same_page(other, va);
                        }
                    }
                    assert(goal == (guest@, Ok::<(), VmError>(())));
                }
                Ok(())
            },
        }
    }

    /// Loads the snapshot into `guest`: every page of every range is mapped
    /// with the rights of its range and holds the bytes that the snapshot
    /// has for it. Stops at the first page that cannot be loaded; the pages
    /// before it stay.
    pub fn load(&self, guest: &mut VMMemory) -> (r: Result<(), VmError>)
        requires
            old(guest).wf(),
            self.valid(),
        ensures
            final(guest).wf(),
            (final(guest)@, r) == load_mappings(old(guest)@, self.memory@, self.mappings@, 0),
            final(guest).pmem.spec_size() == old(guest).pmem.spec_size(),
            final(guest).page_directory == old(guest).page_directory,
            r is Ok ==> forall|k: int, j: int|
                0 <= k < self.mappings@.len() && 0 <= j < self.mappings@[k].pages()
                    ==> #[trigger] page_loaded(*final(guest), self.memory@, self.mappings@[k], j),
            forall|va: u64| #[trigger]
                old(guest)@.is_mapped(va) ==> final(guest)@.is_mapped(va) && final(guest).byte_at(
                    va,
                ) == old(guest).byte_at(va),
    {
        let ghost start = guest@;
        let mut k: usize = 0;
        while k < self.mappings.len()
            invariant
                guest.wf(),
                self.valid(),
                k <= self.mappings@.len(),
                start == old(guest)@,
                load_mappings(start, self.memory@, self.mappings@, 0) == load_mappings(
                    guest@,
                    self.memory@,
                    self.mappings@,
                    k as int,
                ),
                guest.pmem.spec_size() == old(guest).pmem.spec_size(),
                guest.page_directory == old(guest).page_directory,
                forall|k2: int, j: int|
                    0 <= k2 < k && 0 <= j < self.mappings@[k2].pages() ==> #[trigger] page_loaded(
                        *guest,
                        self.memory@,
                        self.mappings@[k2],
                        j,
                    ),
                forall|va: u64| #[trigger]
                    start.is_mapped(va) ==> guest@.is_mapped(va) && guest.byte_at(va) == old(
                        guest,
                    ).byte_at(va),
            decreases self.mappings@.len() - k,
        {
            let m = &self.mappings[k];
            let size: usize = m.size();
            let pages: usize = if size % PAGE_SIZE == 0 {
                size / PAGE_SIZE
            } else {
                size / PAGE_SIZE + 1
            };
            let ghost first = guest@;
            let mut j: usize = 0;
            while j < pages
                invariant
                    guest.wf(),
                    self.valid(),
                    k < self.mappings@.len(),
                    *m == self.mappings@[k as int],
                    m.valid(),
                    pages == m.pages(),
                    j <= pages,
                    start == old(guest)@,
                    load_mappings(start, self.memory@, self.mappings@, 0) == load_mappings(
                        first,
                        self.memory@,
                        self.mappings@,
                        k as int,
                    ),
                    load_pages(first, self.memory@, *m, 0) == load_pages(
                        guest@,
                        self.memory@,
                        *m,
                        j as int,
                    ),
                    guest.pmem.spec_size() == old(guest).pmem.spec_size(),
                    guest.page_directory == old(guest).page_directory,
                    forall|k2: int, j2: int|
                        0 <= k2 < k && 0 <= j2 < self.mappings@[k2].pages()
                            ==> #[trigger] page_loaded(
                            *guest,
                            self.memory@,
                            self.mappings@[k2],
                            j2,
                        ),
                    forall|j2: int|
                        0 <= j2 < j ==> #[trigger] page_loaded(*guest, self.memory@, *m, j2),
                    forall|va: u64| #[trigger]
                        start.is_mapped(va) ==> guest@.is_mapped(va) && guest.byte_at(va) == old(
                            guest,
                        ).byte_at(va),
                decreases pages - j,
            {
                let ghost before = *guest;
                match self.load_page(guest, m, j) {
                    Ok(()) => {},
                    Err(e) => {
                        return Err(e);
                    },
                }
                proof {
                    assert forall|k2: int, j2: int|
                        0 <= k2 < k && 0 <= j2 < self.mappings@[k2].pages() implies #[trigger] page_loaded(
                        *guest,
                        self.memory@,
                        self.mappings@[k2],
                        j2,
                    ) by {
                        lemma_page_loaded_kept(before, *guest, self.memory@, self.mappings@[k2], j2);
                    }
                    assert forall|j2: int| 0 <= j2 < j implies #[trigger] page_loaded(
                        *guest,
                        self.memory@,
                        *m,
                        j2,
                    ) by {
                        lemma_page_loaded_kept(before, *guest, self.memory@, *m, j2);
                    }
                }
                j = j + 1;
            }
            k = k + 1;
        }
        Ok(())
    }
}

} // verus!
