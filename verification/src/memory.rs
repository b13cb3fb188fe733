//! Guest memory: the physical arena and the virtual address space on top.

use vstd::prelude::*;
use vstd::bytes::{
    lemma_auto_spec_u64_to_from_le_bytes, spec_u64_from_le_bytes, spec_u64_to_le_bytes,
    u64_from_le_bytes, u64_to_le_bytes,
};
use crate::paging::{
    address_space, byte_va, child, entry_at, entry_pos, index_at, linked, linked_roles,
    page_base, page_count, page_index, prefix, prefix_count, range_page, same_tables, span,
    table_at, tables_wf, vpn, AddressSpace, FrameRole, NodeView, PagePermissions, VirtAddr,
    ENTRY_ADDR_MASK, ENTRY_NO_EXECUTE, ENTRY_PRESENT, ENTRY_WRITABLE, PAGE_SIZE,
};
use crate::paging::{
    lemma_byte_page, lemma_empty_root, lemma_linked_space, lemma_linked_walk, lemma_linked_wf,
    lemma_mapped_frame, lemma_node_at, lemma_page_bytes, lemma_prefix_step,
    lemma_same_tables_space, lemma_same_tables_wf, lemma_space_has, lemma_space_reached,
    lemma_walk_ends, lemma_walk_roles, lemma_zero_entry,
};
use crate::text::{hex, push_hex};

verus! {

/// What can go wrong in the guest's memory.
#[derive(Copy, Clone, Debug, Eq, PartialEq, Structural)]
pub enum VMMemoryError {
    /// The arena has no frame left.
    OutOfMemory,
    /// The page at this virtual address is mapped already.
    AddressAlreadyMapped(u64),
    /// The page at this virtual address is not mapped.
    AddressUnmapped(u64),
    /// A read of so many bytes at this physical address leaves the arena.
    PhysReadOutOfBounds(u64, usize),
    /// A write of so many bytes at this physical address leaves the arena.
    PhysWriteOutOfBounds(u64, usize),
}

impl VMMemoryError {
    /// What the error says, with its address and length in hexadecimal.
    pub open spec fn spec_message(&self) -> Seq<char> {
        match *self {
            VMMemoryError::OutOfMemory => "Out of memory"@,
            VMMemoryError::AddressAlreadyMapped(addr) => "Virtual address already mapped 0x"@
                + hex(addr as int),
            VMMemoryError::AddressUnmapped(addr) => "Trying to access unmapped address: 0x"@ + hex(
                addr as int,
            ),
            VMMemoryError::PhysReadOutOfBounds(addr, len) => "Physical read out of bounds 0x"@
                + hex(addr as int) + " (len 0x"@ + hex(len as int) + ")"@,
            VMMemoryError::PhysWriteOutOfBounds(addr, len) => "Physical write out of bounds 0x"@
                + hex(addr as int) + " (len 0x"@ + hex(len as int) + ")"@,
        }
    }

    /// What the error says, with its address and length in hexadecimal.
    pub fn message(&self) -> (text: String)
        ensures
            text@ == self.spec_message(),
    {
        match *self {
            VMMemoryError::OutOfMemory => String::from_str("Out of memory"),
            VMMemoryError::AddressAlreadyMapped(addr) => {
                let mut text = String::from_str("Virtual address already mapped 0x");
                push_hex(&mut text, addr);
                text
            },
            VMMemoryError::AddressUnmapped(addr) => {
                let mut text = String::from_str("Trying to access unmapped address: 0x");
                push_hex(&mut text, addr);
                text
            },
            VMMemoryError::PhysReadOutOfBounds(addr, len) => {
                let mut text = String::from_str("Physical read out of bounds 0x");
                push_hex(&mut text, addr);
                text.append(" (len 0x");
                push_hex(&mut text, len as u64);
                text.append(")");
                text
            },
            VMMemoryError::PhysWriteOutOfBounds(addr, len) => {
                let mut text = String::from_str("Physical write out of bounds 0x");
                push_hex(&mut text, addr);
                text.append(" (len 0x");
                push_hex(&mut text, len as u64);
                text.append(")");
                text
            },
        }
    }

    /// The kind of the error, in a few words.
    pub fn description(&self) -> (text: &'static str)
        ensures
            text@ == (match *self {
                VMMemoryError::OutOfMemory => "Out of memory"@,
                VMMemoryError::AddressAlreadyMapped(_) => "Virtual address already exists"@,
                VMMemoryError::PhysReadOutOfBounds(_, _) => "Physical read out of bounds"@,
                VMMemoryError::PhysWriteOutOfBounds(_, _) => "Physical write out of bounds"@,
                VMMemoryError::AddressUnmapped(_) => "Tried to access unmapped memory"@,
            }),
    {
        match *self {
            VMMemoryError::OutOfMemory => "Out of memory",
            VMMemoryError::AddressAlreadyMapped(_) => "Virtual address already exists",
            VMMemoryError::PhysReadOutOfBounds(_, _) => "Physical read out of bounds",
            VMMemoryError::PhysWriteOutOfBounds(_, _) => "Physical write out of bounds",
            VMMemoryError::AddressUnmapped(_) => "Tried to access unmapped memory",
        }
    }
}

/// The bytes `mem` with `data` written over them from position `pa` on.
pub open spec fn splice(mem: Seq<u8>, pa: int, data: Seq<u8>) -> Seq<u8> {
    Seq::new(
        mem.len(),
        |i: int|
            if pa <= i < pa + data.len() {
                data[i - pa]
            } else {
                mem[i]
            },
    )
}

/// The address at which the buffer of `data` lies in this process.
///
/// Calls `Vec::as_ptr`. The address is the allocator's choice. What is
/// claimed of it is what the standard library says of every allocation, and
/// so of the buffer that holds the vector's bytes: it does not wrap around
/// the address space, so the address and the length add up to a machine
/// word. (An empty vector that has no buffer has a small address of its
/// own.)
#[verifier::external_body]
fn buffer_address(data: &Vec<u8>) -> (addr: usize)
    ensures
        addr + data@.len() <= usize::MAX,
{
    data.as_ptr() as usize
}

/// The physical memory of the guest: `size` bytes that start at a
/// page-aligned address of this process, handed out frame by frame from the
/// bottom.
pub struct VMPhysMem {
    /// Backing storage; the arena starts `pad` bytes in, on a page boundary.
    data: Vec<u8>,
    pad: usize,
    /// Address of the arena's first byte in this process.
    host: usize,
    /// Bytes in the arena.
    size: usize,
    /// First byte that no frame was handed out for.
    top: usize,
}

impl View for VMPhysMem {
    type V = Seq<u8>;

    /// The bytes of the arena, by physical address.
    closed spec fn view(&self) -> Seq<u8> {
        self.data@.subrange(self.pad as int, self.pad + self.size)
    }
}

impl VMPhysMem {
    /// Bytes in the arena.
    pub closed spec fn spec_size(&self) -> usize {
        self.size
    }

    /// The bump allocator's cursor: every frame below it was handed out.
    pub closed spec fn spec_top(&self) -> usize {
        self.top
    }

    /// Where the arena starts in this process.
    pub closed spec fn spec_host_address(&self) -> usize {
        self.host
    }

    /// The arena is whole pages, the cursor is on a page boundary inside it,
    /// its storage is no larger than a buffer can be, and the arena fits in
    /// the address space at its host address.
    pub closed spec fn inv(&self) -> bool {
        &&& self.data@.len() == self.size + 4096
        &&& self.size + 4096 <= isize::MAX
        &&& self.pad < 4096
        &&& self.size % 4096 == 0
        &&& self.top % 4096 == 0
        &&& self.top <= self.size
        &&& self.host % 4096 == 0
        &&& self.host + self.size <= usize::MAX
    }

    #[verifier::type_invariant]
    closed spec fn type_inv(&self) -> bool {
        self.inv()
    }

    /// What `inv` says, for code outside this module.
    pub proof fn lemma_inv(&self)
        requires
            self.inv(),
        ensures
            self@.len() == self.spec_size(),
            self.spec_size() % 4096 == 0,
            self.spec_top() % 4096 == 0,
            self.spec_top() <= self.spec_size(),
            self.spec_host_address() % 4096 == 0,
            self.spec_host_address() + self.spec_size() <= usize::MAX,
            self.spec_size() + 4096 <= isize::MAX,
    {
    }

    /// The size of an arena for `memory_size` bytes: the next multiple of
    /// the page size.
    pub open spec fn rounded(memory_size: int) -> int {
        (memory_size + 4095) / 4096 * 4096
    }

    /// An arena of `size` bytes inside `data`, whose buffer lies at
    /// `address`: none where `data` is not `size` bytes and one page for
    /// alignment, where it is larger than a buffer can be, or where the arena
    /// would not fit below the top of the address space. The address is
    /// taken on trust: the host address of the arena is the first page
    /// boundary from `address` on, wherever the buffer of `data` lies.
    pub fn from_buffer(data: Vec<u8>, address: usize, size: usize) -> (r: Option<Self>)
        ensures
            r is Some <==> {
                &&& size % 4096 == 0
                &&& data@.len() == size + 4096
                &&& size + 4096 <= isize::MAX
                &&& address + (4096 - address % 4096) % 4096 + size <= usize::MAX
            },
            r matches Some(pmem) ==> {
                &&& pmem.inv()
                &&& pmem.spec_size() == size
                &&& pmem.spec_top() == 0
                &&& pmem.spec_host_address() == address + (4096 - address % 4096) % 4096
                &&& pmem@ == data@.subrange(
                    (4096 - address % 4096) % 4096,
                    (4096 - address % 4096) % 4096 + size,
                )
            },
    {
        let pad: usize = (PAGE_SIZE - address % PAGE_SIZE) % PAGE_SIZE;
        let len: usize = data.len();
        if size % PAGE_SIZE != 0 || len < PAGE_SIZE || len - PAGE_SIZE != size || len
            > isize::MAX as usize {
            return None;
        }
        let host: usize = match address.checked_add(pad) {
            Some(h) => h,
            None => { return None; },
        };
        if host > usize::MAX - size {
            return None;
        }
        Some(VMPhysMem { data, pad, host, size, top: 0 })
    }

    /// An arena of `memory_size` bytes, rounded up to whole pages, all zero.
    /// None exactly where the arena with the page for its alignment would be
    /// larger than a buffer can be.
    pub fn new(memory_size: usize) -> (r: Option<Self>)
        ensures
            r is Some <==> Self::rounded(memory_size as int) + 4096 <= isize::MAX,
            r matches Some(pmem) ==> {
                &&& pmem.inv()
                &&& pmem.spec_size() == Self::rounded(memory_size as int)
                &&& pmem.spec_top() == 0
                &&& pmem@ == Seq::new(pmem.spec_size() as nat, |i: int| 0u8)
            },
    {
        let limit: usize = isize::MAX as usize - PAGE_SIZE;
        if memory_size > limit {
            return None;
        }
        let size: usize = (memory_size + (PAGE_SIZE - 1)) / PAGE_SIZE * PAGE_SIZE;
        if size > limit {
            return None;
        }
        let data: Vec<u8> = vec![0u8; size + PAGE_SIZE];
        let address: usize = buffer_address(&data);
        let r = Self::from_buffer(data, address, size);
        proof {
            if r is Some {
                let pmem = r->0;
                assert(pmem@ =~= Seq::new(pmem.spec_size() as nat, |i: int| 0u8));
            }
        }
        r
    }

    /// Where the arena starts in the guest's physical address space.
    pub fn guest_address(&self) -> (addr: usize)
        ensures
            addr == 0,
    {
        0
    }

    /// Where the arena starts in this process.
    #[verifier::when_used_as_spec(spec_host_address)]
    pub fn host_address(&self) -> (addr: usize)
        ensures
            addr == self.spec_host_address(),
            addr % 4096 == 0,
            self.inv(),
    {
        proof {
            use_type_invariant(self);
        }
        self.host
    }

    /// Bytes in the arena.
    #[verifier::when_used_as_spec(spec_size)]
    pub fn size(&self) -> (size: usize)
        ensures
            size == self.spec_size(),
            size == self@.len(),
            size % 4096 == 0,
            self.inv(),
    {
        proof {
            use_type_invariant(self);
        }
        self.size
    }

    /// The allocator's cursor.
    #[verifier::when_used_as_spec(spec_top)]
    pub fn top(&self) -> (top: usize)
        ensures
            top == self.spec_top(),
            top % 4096 == 0,
            top <= self.spec_size(),
            self.inv(),
    {
        proof {
            use_type_invariant(self);
        }
        self.top
    }

    /// The byte at physical address `pa`.
    pub fn read_byte(&self, pa: usize) -> (r: Result<u8, VMMemoryError>)
        ensures
            pa < self.spec_size() ==> r == Ok::<u8, VMMemoryError>(self@[pa as int]),
            pa >= self.spec_size() ==> r == Err::<u8, VMMemoryError>(
                VMMemoryError::PhysReadOutOfBounds(pa as u64, 1),
            ),
    {
        proof {
            use_type_invariant(self);
        }
        if pa >= self.size {
            return Err(VMMemoryError::PhysReadOutOfBounds(pa as u64, 1));
        }
        Ok(self.data[self.pad + pa])
    }

    /// Sets the byte at physical address `pa`.
    pub fn write_byte(&mut self, pa: usize, value: u8) -> (r: Result<(), VMMemoryError>)
        ensures
            final(self).inv(),
            final(self).spec_size() == old(self).spec_size(),
            final(self).spec_top() == old(self).spec_top(),
            final(self).spec_host_address() == old(self).spec_host_address(),
            pa < old(self).spec_size() ==> r is Ok && final(self)@ == old(self)@.update(
                pa as int,
                value,
            ),
            pa >= old(self).spec_size() ==> r == Err::<(), VMMemoryError>(
                VMMemoryError::PhysWriteOutOfBounds(pa as u64, 1),
            ) && final(self)@ == old(self)@,
    {
        proof {
            use_type_invariant(&*self);
        }
        if pa >= self.size {
            return Err(VMMemoryError::PhysWriteOutOfBounds(pa as u64, 1));
        }
        self.data[self.pad + pa] = value;
        assert(self@ =~= old(self)@.update(pa as int, value));
        Ok(())
    }

    /// The 64-bit little-endian value at physical address `pa`.
    pub fn read_val(&self, pa: usize) -> (r: Result<u64, VMMemoryError>)
        ensures
            pa + 8 <= self.spec_size() ==> r == Ok::<u64, VMMemoryError>(
                spec_u64_from_le_bytes(self@.subrange(pa as int, pa + 8)),
            ),
            pa + 8 > self.spec_size() ==> r == Err::<u64, VMMemoryError>(
                VMMemoryError::PhysReadOutOfBounds(pa as u64, 8),
            ),
    {
        proof {
            use_type_invariant(self);
        }
        if self.size < 8 || pa > self.size - 8 {
            return Err(VMMemoryError::PhysReadOutOfBounds(pa as u64, 8));
        }
        let bytes = vstd::slice::slice_subrange(
            self.data.as_slice(),
            self.pad + pa,
            self.pad + pa + 8,
        );
        assert(bytes@ =~= self@.subrange(pa as int, pa + 8));
        Ok(u64_from_le_bytes(bytes))
    }

    /// Stores `value` as 64 little-endian bits at physical address `pa`.
    pub fn write_val(&mut self, pa: usize, value: u64) -> (r: Result<(), VMMemoryError>)
        ensures
            final(self).inv(),
            final(self).spec_size() == old(self).spec_size(),
            final(self).spec_top() == old(self).spec_top(),
            final(self).spec_host_address() == old(self).spec_host_address(),
            pa + 8 <= old(self).spec_size() ==> r is Ok && final(self)@ == splice(
                old(self)@,
                pa as int,
                spec_u64_to_le_bytes(value),
            ),
            pa + 8 > old(self).spec_size() ==> r == Err::<(), VMMemoryError>(
                VMMemoryError::PhysWriteOutOfBounds(pa as u64, 8),
            ) && final(self)@ == old(self)@,
    {
        proof {
            use_type_invariant(&*self);
        }
        if self.size < 8 || pa > self.size - 8 {
            return Err(VMMemoryError::PhysWriteOutOfBounds(pa as u64, 8));
        }
        let bytes = u64_to_le_bytes(value);
        self.write(pa, bytes.as_slice())
    }

    /// Copies the bytes from physical address `pa` on into `output`, as many
    /// as it holds. Leaves `output` as it is where they are not all inside
    /// the arena.
    pub fn read(&self, pa: usize, output: &mut [u8]) -> (r: Result<(), VMMemoryError>)
        ensures
            pa + old(output)@.len() <= self.spec_size() ==> r is Ok && final(output)@
                == self@.subrange(pa as int, pa + old(output)@.len()),
            pa + old(output)@.len() > self.spec_size() ==> r == Err::<(), VMMemoryError>(
                VMMemoryError::PhysReadOutOfBounds(pa as u64, old(output)@.len() as usize),
            ) && final(output)@ == old(output)@,
    {
        proof {
            use_type_invariant(self);
        }
        let len: usize = output.len();
        if len > self.size || pa > self.size - len {
            return Err(VMMemoryError::PhysReadOutOfBounds(pa as u64, len));
        }
        let mut i: usize = 0;
        while i < len
            invariant
                self.inv(),
                i <= len,
                len == output@.len(),
                pa + len <= self.size,
                forall|j: int| 0 <= j < i ==> output@[j] == self@[pa + j],
            decreases len - i,
        {
            output[i] = self.data[self.pad + pa + i];
            i = i + 1;
        }
        assert(output@ =~= self@.subrange(pa as int, pa + len));
        Ok(())
    }

    /// Copies `input` into the arena from physical address `pa` on. Leaves
    /// the arena as it is where `input` does not fit there.
    pub fn write(&mut self, pa: usize, input: &[u8]) -> (r: Result<(), VMMemoryError>)
        ensures
            final(self).inv(),
            final(self).spec_size() == old(self).spec_size(),
            final(self).spec_top() == old(self).spec_top(),
            final(self).spec_host_address() == old(self).spec_host_address(),
            pa + input@.len() <= old(self).spec_size() ==> r is Ok && final(self)@ == splice(
                old(self)@,
                pa as int,
                input@,
            ),
            pa + input@.len() > old(self).spec_size() ==> r == Err::<(), VMMemoryError>(
                VMMemoryError::PhysWriteOutOfBounds(pa as u64, input@.len() as usize),
            ) && final(self)@ == old(self)@,
    {
        proof {
            use_type_invariant(&*self);
        }
        let len: usize = input.len();
        if len > self.size || pa > self.size - len {
            return Err(VMMemoryError::PhysWriteOutOfBounds(pa as u64, len));
        }
        let mut i: usize = 0;
        while i < len
            invariant
                self.inv(),
                self.size == old(self).size,
                self.top == old(self).top,
                self.host == old(self).host,
                self.pad == old(self).pad,
                i <= len,
                len == input@.len(),
                pa + len <= self.size,
                self@ == splice(old(self)@, pa as int, input@.subrange(0, i as int)),
            decreases len - i,
        {
            let ghost before = self@;
            self.data[self.pad + pa + i] = input[i];
            assert(self@ =~= before.update(pa + i, input@[i as int]));
            i = i + 1;
            assert(self@ =~= splice(old(self)@, pa as int, input@.subrange(0, i as int)));
        }
        assert(input@.subrange(0, len as int) =~= input@);
        Ok(())
    }

    /// Sets the `len` bytes from physical address `pa` on to `value`. Leaves
    /// the arena as it is where they are not all inside it.
    pub fn fill(&mut self, pa: usize, len: usize, value: u8) -> (r: Result<(), VMMemoryError>)
        ensures
            final(self).inv(),
            final(self).spec_size() == old(self).spec_size(),
            final(self).spec_top() == old(self).spec_top(),
            final(self).spec_host_address() == old(self).spec_host_address(),
            pa + len <= old(self).spec_size() ==> r is Ok && final(self)@ == splice(
                old(self)@,
                pa as int,
                Seq::new(len as nat, |i: int| value),
            ),
            pa + len > old(self).spec_size() ==> r == Err::<(), VMMemoryError>(
                VMMemoryError::PhysWriteOutOfBounds(pa as u64, len),
            ) && final(self)@ == old(self)@,
    {
        proof {
            use_type_invariant(&*self);
        }
        if len > self.size || pa > self.size - len {
            return Err(VMMemoryError::PhysWriteOutOfBounds(pa as u64, len));
        }
        let mut i: usize = 0;
        while i < len
            invariant
                self.inv(),
                self.size == old(self).size,
                self.top == old(self).top,
                self.host == old(self).host,
                self.pad == old(self).pad,
                i <= len,
                pa + len <= self.size,
                self@ == splice(old(self)@, pa as int, Seq::new(i as nat, |k: int| value)),
            decreases len - i,
        {
            let ghost before = self@;
            self.data[self.pad + pa + i] = value;
            assert(self@ =~= before.update(pa + i, value));
            i = i + 1;
            assert(self@ =~= splice(old(self)@, pa as int, Seq::new(i as nat, |k: int| value)));
        }
        Ok(())
    }

    /// The `len` bytes of the arena from physical address `pa` on.
    pub fn raw_slice(&self, pa: usize, len: usize) -> (r: Result<&[u8], VMMemoryError>)
        ensures
            pa + len <= self.spec_size() ==> r is Ok && r->Ok_0@ == self@.subrange(
                pa as int,
                pa + len,
            ),
            pa + len > self.spec_size() ==> r == Err::<&[u8], VMMemoryError>(
                VMMemoryError::PhysReadOutOfBounds(pa as u64, len),
            ),
    {
        proof {
            use_type_invariant(self);
        }
        if len > self.size || pa > self.size - len {
            return Err(VMMemoryError::PhysReadOutOfBounds(pa as u64, len));
        }
        let bytes = vstd::slice::slice_subrange(
            self.data.as_slice(),
            self.pad + pa,
            self.pad + pa + len,
        );
        assert(bytes@ =~= self@.subrange(pa as int, pa + len));
        Ok(bytes)
    }

    /// Hands out the lowest frame that was not handed out yet: its physical
    /// address. None when the arena is used up.
    pub fn allocate_frame(&mut self) -> (r: Option<usize>)
        ensures
            final(self).inv(),
            final(self)@ == old(self)@,
            final(self).spec_size() == old(self).spec_size(),
            final(self).spec_host_address() == old(self).spec_host_address(),
            old(self).spec_top() < old(self).spec_size() ==> r == Some(old(self).spec_top())
                && final(self).spec_top() == old(self).spec_top() + 4096,
            old(self).spec_top() >= old(self).spec_size() ==> r is None && final(self).spec_top()
                == old(self).spec_top(),
    {
        proof {
            use_type_invariant(&*self);
        }
        if self.top >= self.size {
            None
        } else {
            let address: usize = self.top;
            self.top = self.top + PAGE_SIZE;
            Some(address)
        }
    }

    /// Frames are never taken back: a reset restores their bytes instead.
    pub fn deallocate_frame(&mut self, _frame_address: usize)
        ensures
            *final(self) == *old(self),
    {
    }

    /// The address in this process of the byte at physical address
    /// `frame_address`.
    pub fn translate(&self, frame_address: usize) -> (addr: usize)
        requires
            frame_address <= self.spec_size(),
        ensures
            addr == self.spec_host_address() + frame_address,
    {
        proof {
            use_type_invariant(self);
        }
        self.host + frame_address
    }

    /// Makes this arena a copy of `other`: the same bytes and the same
    /// cursor. Does nothing, and says so, where the two differ in size.
    pub fn copy_from(&mut self, other: &VMPhysMem) -> (copied: bool)
        ensures
            final(self).inv(),
            final(self).spec_size() == old(self).spec_size(),
            final(self).spec_host_address() == old(self).spec_host_address(),
            copied == (old(self).spec_size() == other.spec_size()),
            copied ==> final(self)@ == other@ && final(self).spec_top() == other.spec_top(),
            !copied ==> final(self)@ == old(self)@ && final(self).spec_top() == old(
                self,
            ).spec_top(),
    {
        proof {
            use_type_invariant(&*self);
            use_type_invariant(other);
        }
        if self.size != other.size {
            return false;
        }
        let mut i: usize = 0;
        while i < other.size
            invariant
                self.inv(),
                other.inv(),
                self.size == other.size,
                self.size == old(self).size,
                self.host == old(self).host,
                self.top == old(self).top,
                i <= other.size,
                forall|j: int| 0 <= j < i ==> self@[j] == other@[j],
            decreases other.size - i,
        {
            self.data[self.pad + i] = other.data[other.pad + i];
            i = i + 1;
        }
        self.top = other.top;
        assert(self@ =~= other@);
        true
    }

    /// A second arena with the same bytes and the same cursor, in storage of
    /// its own. There always is one.
    pub fn clone(&self) -> (r: Option<Self>)
        ensures
            r is Some,
            r matches Some(pmem) ==> {
                &&& pmem.inv()
                &&& pmem@ == self@
                &&& pmem.spec_size() == self.spec_size()
                &&& pmem.spec_top() == self.spec_top()
            },
    {
        proof {
            use_type_invariant(self);
        }
        match Self::new(self.size) {
            None => None,
            Some(mut pmem) => {
                if pmem.copy_from(self) {
                    Some(pmem)
                } else {
                    None
                }
            },
        }
    }
}

/// None of the first `n` bytes of the range at `addr` lies at physical
/// address `q`.
pub open spec fn untouched(space: AddressSpace, addr: u64, n: int, q: int) -> bool {
    forall|k: int| 0 <= k < n ==> space.phys(#[trigger] byte_va(addr, k)) != q
}

/// Of the first `n` bytes of the range at `addr`, none after byte `i` lies
/// where byte `i` lies.
pub open spec fn written_last(space: AddressSpace, addr: u64, n: int, i: int) -> bool {
    forall|k: int|
        i < k < n ==> space.phys(#[trigger] byte_va(addr, k)) != space.phys(byte_va(addr, i))
}

/// The bytes `after` are the bytes `before` with `input` written byte by
/// byte, in order, to where `space` maps the addresses from `addr` on: a
/// byte that nothing was written to is as it was, and a byte that was
/// written to holds what was written there last.
#[verifier::opaque]
pub open spec fn overwritten(
    space: AddressSpace,
    before: Seq<u8>,
    after: Seq<u8>,
    addr: u64,
    input: Seq<u8>,
) -> bool {
    &&& forall|q: int|
        0 <= q < before.len() && #[trigger] untouched(space, addr, input.len() as int, q)
            ==> after[q] == before[q]
    &&& forall|i: int|
        0 <= i < input.len() && #[trigger] written_last(space, addr, input.len() as int, i)
            ==> after[space.phys(byte_va(addr, i))] == input[i]
}

/// Nothing written, nothing changed.
pub proof fn lemma_overwritten_none(space: AddressSpace, before: Seq<u8>, addr: u64, input: Seq<u8>)
    ensures
        overwritten(space, before, before, addr, input.subrange(0, 0)),
{
    reveal(overwritten);
}

/// Writing one byte more.
pub proof fn lemma_overwritten_step(
    space: AddressSpace,
    before: Seq<u8>,
    cur: Seq<u8>,
    next: Seq<u8>,
    addr: u64,
    input: Seq<u8>,
    i: int,
)
    requires
        0 <= i < input.len(),
        before.len() == cur.len(),
        forall|k: int| 0 <= k <= i ==> 0 <= space.phys(#[trigger] byte_va(addr, k)) < cur.len(),
        overwritten(space, before, cur, addr, input.subrange(0, i)),
        next == cur.update(space.phys(byte_va(addr, i)), input[i]),
    ensures
        overwritten(space, before, next, addr, input.subrange(0, i + 1)),
{
    reveal(overwritten);
    let done = input.subrange(0, i);
    let more = input.subrange(0, i + 1);
    let at = space.phys(byte_va(addr, i));
    assert forall|q: int|
        0 <= q < before.len() && #[trigger] untouched(space, addr, more.len() as int, q) implies next[q]
        == before[q] by {
        assert(space.phys(byte_va(addr, i)) != q);
        assert(untouched(space, addr, done.len() as int, q));
    }
    assert forall|k: int|
        0 <= k < more.len() && #[trigger] written_last(
            space,
            addr,
            more.len() as int,
            k,
        ) implies next[space.phys(byte_va(addr, k))] == more[k] by {
        if k < i {
            assert(space.phys(byte_va(addr, i)) != space.phys(byte_va(addr, k)));
            assert(written_last(space, addr, done.len() as int, k));
            assert(done[k] == more[k]);
        }
    }
}

/// The longest range of virtual addresses whose pages are all different
/// pages to the tables, wherever it starts.
pub const MAX_SPAN: u64 = 0x8000_0000_0000;

/// The largest arena whose frames a page-table entry can point to.
pub const MAX_ARENA: u64 = 0x10_0000_0000_0000;

/// The guest's memory: the arena, and in it the page tables that map the
/// guest's virtual addresses to its frames. The root table is in frame 0.
pub struct VMMemory {
    /// The physical memory.
    pub pmem: VMPhysMem,
    /// Physical address of the root table.
    pub page_directory: usize,
    /// The place in the tables that each frame was handed out for.
    pub roles: Ghost<Seq<FrameRole>>,
}

impl View for VMMemory {
    type V = AddressSpace;

    /// The address space that the tables in the arena describe.
    open spec fn view(&self) -> AddressSpace {
        address_space(self.pmem@, self.pmem.spec_top() as int)
    }
}

impl VMMemory {
    /// Physical address of the root table.
    pub open spec fn spec_page_directory(&self) -> usize {
        self.page_directory
    }

    /// The tables were built by `new` and `mmap` alone: they form a tree in
    /// which every frame handed out has one place, so that no mapped frame
    /// holds a table or is mapped twice.
    pub closed spec fn wf(&self) -> bool {
        &&& self.pmem.inv()
        &&& self.page_directory == 0
        &&& self.pmem.spec_size() <= MAX_ARENA
        &&& self.roles@.len() * 4096 == self.pmem.spec_top()
        &&& tables_wf(self.pmem@, self.roles@)
    }

    /// Whether frame number `frame` holds a page table.
    pub closed spec fn holds_table(&self, frame: int) -> bool {
        0 <= frame < self.roles@.len() && self.roles@[frame].depth < 4
    }

    /// The byte that the guest sees at virtual address `va`.
    pub open spec fn byte_at(&self, va: u64) -> u8 {
        self.pmem@[self@.phys(va)]
    }

    /// The guest sees the bytes `data` from virtual address `addr` on.
    pub open spec fn holds(&self, addr: u64, data: Seq<u8>) -> bool {
        forall|i: int| 0 <= i < data.len() ==> self.byte_at(#[trigger] byte_va(addr, i)) == data[i]
    }

    /// What is read back is what was written: `write` leaves a memory that
    /// holds its input at the address, `read` returns bytes that the memory
    /// holds at the address, and a memory holds only one sequence of a given
    /// length at an address. So it is for ranges that cross page boundaries.
    pub proof fn lemma_read_after_write(&self, addr: u64, written: Seq<u8>, read: Seq<u8>)
        requires
            self.holds(addr, written),
            self.holds(addr, read),
            read.len() == written.len(),
        ensures
            read == written,
    {
        assert forall|i: int| 0 <= i < read.len() implies read[i] == written[i] by {
            assert(self.byte_at(byte_va(addr, i)) == read[i]);
        }
        assert(read =~= written);
    }

    /// The round trip: where `after` is what `write` leaves of this memory
    /// for the bytes `written` at `addr`, a `read` of as many bytes at `addr`
    /// succeeds on `after`, and the bytes `read` that it returns are the
    /// bytes written. So it is for every range of mapped pages of at most
    /// `MAX_SPAN` bytes, aligned or not, within a page or across many.
    pub proof fn lemma_write_read(&self, after: VMMemory, addr: u64, written: Seq<u8>, read: Seq<u8>)
        requires
            self.overwritten_to(after, addr, written),
            after.holds(addr, read),
            read.len() == written.len(),
        ensures
            after.wf(),
            after@.range_mapped(addr, written.len() as int),
            read == written,
    {
        self.lemma_overwritten_tables(after, addr, written);
        self.lemma_overwritten_holds(after, addr, written);
        after.lemma_read_after_write(addr, written, read);
    }

    /// A memory of `memory_size` bytes, rounded up to whole pages, all zero,
    /// with an empty root table in its first frame and nothing mapped. None
    /// exactly where the arena would have more frames than page tables can
    /// point to or would be larger than a buffer can be.
    pub fn new(memory_size: usize) -> (r: Option<VMMemory>)
        requires
            memory_size >= PAGE_SIZE,
        ensures
            r is Some <==> memory_size <= MAX_ARENA && VMPhysMem::rounded(memory_size as int)
                + 4096 <= isize::MAX,
            r matches Some(m) ==> {
                &&& m.wf()
                &&& m.spec_page_directory() == 0
                &&& m.pmem.spec_size() == VMPhysMem::rounded(memory_size as int)
                &&& m.pmem.spec_top() == 4096
                &&& m.pmem@ == Seq::new(m.pmem.spec_size() as nat, |i: int| 0u8)
                &&& m@ == AddressSpace::empty(m.pmem.spec_size() as int / 4096)
            },
    {
        match VMPhysMem::new(memory_size) {
            Some(pmem) => Self::with_arena(pmem),
            None => None,
        }
    }

    /// A memory on the arena `pmem`, with an empty root table in its first
    /// frame and nothing mapped. None where the arena has no frame, has more
    /// frames than page tables can point to, or has handed out a frame
    /// already.
    pub fn with_arena(pmem: VMPhysMem) -> (r: Option<VMMemory>)
        ensures
            r is Some <==> 4096 <= pmem.spec_size() <= MAX_ARENA && pmem.spec_top() == 0,
            r matches Some(m) ==> {
                &&& m.wf()
                &&& m.spec_page_directory() == 0
                &&& m.pmem.spec_size() == pmem.spec_size()
                &&& m.pmem.spec_host_address() == pmem.spec_host_address()
                &&& m.pmem.spec_top() == 4096
                &&& m.pmem@ == splice(pmem@, 0, Seq::new(4096, |i: int| 0u8))
                &&& m@ == AddressSpace::empty(pmem.spec_size() as int / 4096)
            },
    {
        let mut pmem = pmem;
        let size: usize = pmem.size();
        if size < PAGE_SIZE || size as u64 > MAX_ARENA || pmem.top() != 0 {
            return None;
        }
        let page = match pmem.allocate_frame() {
            Some(page) => page,
            None => { return None; },
        };
        let _ = pmem.fill(page, PAGE_SIZE, 0);
        let ghost root = Seq::<FrameRole>::empty().push(FrameRole { depth: 0, prefix: 0 });
        let memory = VMMemory { pmem, page_directory: page, roles: Ghost(root) };
        proof {
            let mem = memory.pmem@;
            memory.pmem.lemma_inv();
            assert forall|f: int, idx: int|
                0 <= f < memory.roles@.len() && memory.roles@[f].depth < 4 && 0 <= idx
                    < 512 implies #[trigger] crate::paging::child_ok(mem, memory.roles@, f, idx) by {
                lemma_zero_entry(mem, 0, idx);
            }
            assert forall|k: (int, int)| !(#[trigger] memory@.nodes.contains_key(k)) by {
                if 1 <= k.0 <= 4 && 0 <= k.1 < prefix_count(k.0) {
                    let page = k.1 * span(k.0);
                    crate::paging::lemma_first_page(k.0, k.1);
                    lemma_node_at(mem, k.0, page);
                    lemma_empty_root(mem, k.0 as nat, page);
                }
            }
            assert(memory@.nodes =~= Map::<(int, int), NodeView>::empty());
        }
        Some(memory)
    }

    /// Physical address of the root table.
    #[verifier::when_used_as_spec(spec_page_directory)]
    pub fn page_directory(&self) -> (pa: usize)
        ensures
            pa == self.spec_page_directory(),
    {
        self.page_directory
    }

    /// Follows entry `idx` of the table at physical address `table`: the
    /// physical address of the table or frame that it leads to, or nothing
    /// where it leads nowhere. Nothing either where `table` is no frame of
    /// the arena or `idx` no index of a table.
    pub fn next_table(&self, table: usize, idx: usize) -> (r: Option<usize>)
        ensures
            r is Some <==> table % 4096 == 0 && table + 4096 <= self.pmem.spec_size() && idx < 512
                && child(self.pmem@, table as int / 4096, idx as int) is Some,
            r matches Some(t) ==> {
                &&& t % 4096 == 0
                &&& t + 4096 <= self.pmem.spec_size()
                &&& child(self.pmem@, table as int / 4096, idx as int) == Some(t as int / 4096)
            },
    {
        let size: usize = self.pmem.size();
        if table % PAGE_SIZE != 0 || size < PAGE_SIZE || table > size - PAGE_SIZE || idx >= 512 {
            return None;
        }
        self.next_frame(table, idx)
    }

    /// Follows entry `idx` of the table at physical address `table`.
    fn next_frame(&self, table: usize, idx: usize) -> (r: Option<usize>)
        requires
            table % 4096 == 0,
            table + 4096 <= self.pmem.spec_size(),
            idx < 512,
        ensures
            r is Some <==> child(self.pmem@, table as int / 4096, idx as int) is Some,
            r matches Some(t) ==> {
                &&& t % 4096 == 0
                &&& t + 4096 <= self.pmem.spec_size()
                &&& child(self.pmem@, table as int / 4096, idx as int) == Some(t as int / 4096)
            },
    {
        let size: usize = self.pmem.size();
        let entry: u64 = match self.pmem.read_val(table + idx * 8) {
            Ok(entry) => entry,
            Err(_) => { return None; },
        };
        assert(entry == entry_at(self.pmem@, table as int / 4096, idx as int));
        let target: u64 = entry & ENTRY_ADDR_MASK;
        assert((entry & 0x000f_ffff_ffff_f000) % 4096 == 0) by (bit_vector);
        if entry & ENTRY_PRESENT != ENTRY_PRESENT {
            return None;
        }
        if target > (size - PAGE_SIZE) as u64 {
            return None;
        }
        Some(target as usize)
    }

    /// Hands out the next frame and hangs it below entry `idx` of the table
    /// at `parent`, which is the node at `depth` on the path of `page` and
    /// the last that exists there. A frame for a table is zeroed first.
    fn link(
        &mut self,
        parent: usize,
        idx: usize,
        flags: u64,
        table: bool,
        Ghost(page): Ghost<int>,
        Ghost(depth): Ghost<int>,
    ) -> (frame: usize)
        requires
            old(self).wf(),
            old(self).pmem.spec_top() < old(self).pmem.spec_size(),
            0 <= page < 0x10_0000_0000,
            0 <= depth < 4,
            table == (depth < 3),
            parent % 4096 == 0,
            table_at(old(self).pmem@, depth as nat, page) == Some(parent as int / 4096),
            table_at(old(self).pmem@, (depth + 1) as nat, page) is None,
            idx == index_at(depth, page),
            flags == 0 || flags == 0x2 || flags == 0x8000_0000_0000_0000 || flags
                == 0x8000_0000_0000_0002,
        ensures
            final(self).wf(),
            final(self).pmem.spec_size() == old(self).pmem.spec_size(),
            final(self).pmem.spec_top() == old(self).pmem.spec_top() + 4096,
            final(self).pmem.spec_host_address() == old(self).pmem.spec_host_address(),
            final(self).page_directory == old(self).page_directory,
            frame == old(self).pmem.spec_top(),
            table_at(final(self).pmem@, (depth + 1) as nat, page) == Some(frame as int / 4096),
            depth < 3 ==> table_at(final(self).pmem@, (depth + 2) as nat, page) is None,
            !old(self)@.nodes.contains_key((depth + 1, prefix(depth + 1, page))),
            final(self)@ == (AddressSpace {
                nodes: old(self)@.nodes.insert(
                    (depth + 1, prefix(depth + 1, page)),
                    NodeView {
                        frame: old(self)@.next,
                        writable: flags & 0x2 == 0x2,
                        executable: flags & 0x8000_0000_0000_0000 == 0,
                    },
                ),
                next: old(self)@.next + 1,
                frames: old(self)@.frames,
            }),
            forall|b: int|
                0 <= b < old(self).pmem.spec_size() && !final(self).holds_table(b / 4096)
                    ==> final(self).pmem@[b] == old(self).pmem@[b],
            forall|f: int|
                final(self).holds_table(f) <==> old(self).holds_table(f) || (depth < 3 && f
                    == frame as int / 4096),
    {
        let ghost mem = self.pmem@;
        let ghost roles = self.roles@;
        let ghost top = self.pmem.spec_top() as int;
        let ghost p = parent as int / 4096;
        proof {
            lemma_walk_roles(mem, roles, depth as nat, page);
            self.pmem.lemma_inv();
        }
        let frame: usize = match self.pmem.allocate_frame() {
            Some(frame) => frame,
            None => { return 0; },
        };
        if table {
            let _ = self.pmem.fill(frame, PAGE_SIZE, 0);
        }
        let ghost mem1 = self.pmem@;
        let target: u64 = frame as u64;
        let value: u64 = target | ENTRY_PRESENT | flags;
        let _ = self.pmem.write_val(parent + idx * 8, value);
        self.roles = Ghost(linked_roles(roles, p, idx as int));
        proof {
            let mem2 = self.pmem@;
            let fresh = roles.len() as int;
            assert(frame as int == fresh * 4096);
            lemma_auto_spec_u64_to_from_le_bytes();
            assert(mem2.subrange(p * 4096 + idx * 8, p * 4096 + idx * 8 + 8)
                =~= vstd::bytes::spec_u64_to_le_bytes(value));
            assert(entry_at(mem2, p, idx as int) == value);
            assert(target & 0xfff == 0) by (bit_vector)
                requires
                    target % 4096 == 0,
            ;
            assert((target | 0x1 | flags) & 0x1 == 0x1) by (bit_vector);
            assert((target | 0x1 | flags) & 0x000f_ffff_ffff_f000 == target) by (bit_vector)
                requires
                    target & 0xfff == 0,
                    target < 0x10_0000_0000_0000,
                    flags == 0 || flags == 0x2 || flags == 0x8000_0000_0000_0000 || flags
                        == 0x8000_0000_0000_0002,
            ;
            assert(((target | 0x1 | flags) & 0x2 == 0x2) == (flags & 0x2 == 0x2)) by (bit_vector)
                requires
                    target & 0xfff == 0,
            ;
            assert(((target | 0x1 | flags) & 0x8000_0000_0000_0000 == 0) == (flags
                & 0x8000_0000_0000_0000 == 0)) by (bit_vector)
                requires
                    target < 0x10_0000_0000_0000,
            ;
            assert(child(mem2, p, idx as int) == Some(fresh));
            assert(child(mem, p, idx as int) is None);
            if table {
                assert forall|i: int| 0 <= i < 512 implies #[trigger] child(mem2, fresh, i)
                    is None by {
                    lemma_zero_entry(mem2, fresh, i);
                }
            }
            assert(linked(mem, roles, mem2, p, idx as int));
            lemma_linked_wf(mem, roles, mem2, p, idx as int);
            lemma_linked_walk(mem, roles, mem2, p, idx as int, (depth + 1) as nat, page);
            if depth < 3 {
                lemma_linked_walk(mem, roles, mem2, p, idx as int, (depth + 2) as nat, page);
                lemma_walk_ends(mem, (depth + 1) as nat, (depth + 2) as nat, page);
            }
            lemma_linked_space(mem, roles, mem2, p, idx as int, page, top);
            assert forall|b: int|
                0 <= b < old(self).pmem.spec_size() && !self.holds_table(b / 4096) implies self.pmem@[b]
                == old(self).pmem@[b] by {
                assert(p < fresh);
                if entry_pos(p, idx as int) <= b < entry_pos(p, idx as int) + 8 {
                    assert(b / 4096 == p);
                    assert(self.roles@[p] == roles[p]);
                }
            }
            assert forall|f: int|
                self.holds_table(f) <==> old(self).holds_table(f) || (depth < 3 && f
                    == frame as int / 4096) by {
                if 0 <= f < roles.len() {
                    assert(self.roles@[f] == roles[f]);
                }
            }
        }
        frame
    }

    /// Maps the page of `addr` to the next free frame, with the rights in
    /// `perms`, after making the tables that its path lacks. Changes nothing
    /// where the page is mapped already or the arena has too few frames left.
    pub fn map_page(&mut self, addr: VirtAddr, perms: PagePermissions) -> (r: Result<
        (),
        VMMemoryError,
    >)
        requires
            old(self).wf(),
        ensures
            final(self).wf(),
            r == old(self)@.map_page_result(addr.addr),
            r is Ok ==> final(self)@ == old(self)@.map_page(addr.addr, perms),
            r is Err ==> *final(self) == *old(self),
            final(self).pmem.spec_size() == old(self).pmem.spec_size(),
            final(self).pmem.spec_host_address() == old(self).pmem.spec_host_address(),
            final(self).page_directory == old(self).page_directory,
            forall|b: int|
                0 <= b < old(self).pmem.spec_size() && !final(self).holds_table(b / 4096)
                    ==> final(self).pmem@[b] == old(self).pmem@[b],
            forall|f: int| old(self).holds_table(f) ==> final(self).holds_table(f),
            forall|f: int|
                final(self).holds_table(f) && !old(self).holds_table(f) ==> old(self)@.next <= f
                    < final(self)@.next,
            forall|va: u64| #[trigger]
                old(self)@.is_mapped(va) ==> final(self)@.is_mapped(va) && final(self)@.frame(va)
                    == old(self)@.frame(va) && final(self).byte_at(va) == old(self).byte_at(va),
    {
        let ghost page = vpn(addr.addr);
        let ghost before = self@;
        let (reached, last) = self.walk(addr);
        if reached == 4 {
            proof {
                lemma_space_has(self.pmem@, self.pmem.spec_top() as int, 4, page);
            }
            return Err(VMMemoryError::AddressAlreadyMapped(addr.address()));
        }
        proof {
            lemma_space_has(self.pmem@, self.pmem.spec_top() as int, 4, page);
            lemma_walk_ends(self.pmem@, (reached + 1) as nat, 4, page);
            self.pmem.lemma_inv();
        }
        let free: usize = (self.pmem.size() - self.pmem.top()) / PAGE_SIZE;
        if free < 4 - reached {
            return Err(VMMemoryError::OutOfMemory);
        }
        let leaf: u64 = if perms.writable() {
            if perms.executable() {
                ENTRY_WRITABLE
            } else {
                ENTRY_WRITABLE | ENTRY_NO_EXECUTE
            }
        } else {
            if perms.executable() {
                0
            } else {
                ENTRY_NO_EXECUTE
            }
        };
        assert(0x2u64 | 0x8000_0000_0000_0000u64 == 0x8000_0000_0000_0002u64) by (bit_vector);
        assert(0x2u64 & 0x2 == 0x2 && 0x2u64 & 0x8000_0000_0000_0000 == 0 && 0u64 & 0x2 != 0x2 && 0u64
            & 0x8000_0000_0000_0000 == 0 && 0x8000_0000_0000_0000u64 & 0x2 != 0x2
            && 0x8000_0000_0000_0000u64 & 0x8000_0000_0000_0000 != 0 && 0x8000_0000_0000_0002u64
            & 0x2 == 0x2 && 0x8000_0000_0000_0002u64 & 0x8000_0000_0000_0000 != 0)
            by (bit_vector);
        let mut depth: usize = reached;
        let mut cur: usize = last;
        proof {
            crate::paging::lemma_grow_none(before, page, reached as int, perms);
        }
        while depth < 4
            invariant
                self.wf(),
                reached <= depth <= 4,
                page == vpn(addr.addr),
                before == old(self)@,
                reached == before.reached(page),
                self.pmem.spec_size() == old(self).pmem.spec_size(),
                self.pmem.spec_host_address() == old(self).pmem.spec_host_address(),
                self.page_directory == old(self).page_directory,
                self.pmem.spec_top() + (4 - depth) * 4096 <= self.pmem.spec_size(),
                cur % 4096 == 0,
                table_at(self.pmem@, depth as nat, page) == Some(cur as int / 4096),
                depth < 4 ==> table_at(self.pmem@, (depth + 1) as nat, page) is None,
                self@ == before.grow(page, reached as int, depth as int, perms),
                leaf == 0 || leaf == 0x2 || leaf == 0x8000_0000_0000_0000 || leaf
                    == 0x8000_0000_0000_0002,
                (leaf & 0x2 == 0x2) == perms.spec_writable(),
                (leaf & 0x8000_0000_0000_0000 == 0) == perms.spec_executable(),
                forall|b: int|
                    0 <= b < old(self).pmem.spec_size() && !self.holds_table(b / 4096)
                        ==> self.pmem@[b] == old(self).pmem@[b],
                forall|f: int| old(self).holds_table(f) ==> self.holds_table(f),
                forall|f: int|
                    self.holds_table(f) && !old(self).holds_table(f) ==> before.next <= f
                        < self@.next,
            decreases 4 - depth,
        {
            let idx: usize = if depth == 0 {
                addr.p4_index()
            } else if depth == 1 {
                addr.p3_index()
            } else if depth == 2 {
                addr.p2_index()
            } else {
                addr.p1_index()
            };
            let flags: u64 = if depth == 3 {
                leaf
            } else {
                ENTRY_WRITABLE
            };
            let ghost prev = self@;
            proof {
                self.pmem.lemma_inv();
            }
            cur = self.link(cur, idx, flags, depth < 3, Ghost(page), Ghost(depth as int));
            depth = depth + 1;
            proof {
                assert(0x2u64 & 0x2 == 0x2 && 0x2u64 & 0x8000_0000_0000_0000 == 0) by (bit_vector);
                crate::paging::lemma_grow_step(
                    before,
                    page,
                    reached as int,
                    depth - 1,
                    perms,
                    NodeView {
                        frame: prev.next,
                        writable: flags & 0x2 == 0x2,
                        executable: flags & 0x8000_0000_0000_0000 == 0,
                    },
                );
            }
        }
        proof {
            old(self).pmem.lemma_inv();
            assert forall|va: u64| #[trigger] old(self)@.is_mapped(va) implies self@.is_mapped(va)
                && self@.frame(va) == old(self)@.frame(va) && self.byte_at(va) == old(
                self,
            ).byte_at(va) by {
                lemma_mapped_frame(self.pmem@, self.roles@, self.pmem.spec_top() as int, va);
                lemma_mapped_frame(
                    old(self).pmem@,
                    old(self).roles@,
                    old(self).pmem.spec_top() as int,
                    va,
                );
            }
        }
        Ok(())
    }

    /// Maps the pages of `[addr, addr + size)`, each to a frame of its own
    /// and with the rights in `perms`. Nothing is mapped where one of the
    /// pages is mapped already. Where the arena runs out of frames, the
    /// pages before the one that found none stay mapped.
    pub fn mmap(&mut self, addr: u64, size: usize, perms: PagePermissions) -> (r: Result<
        (),
        VMMemoryError,
    >)
        requires
            old(self).wf(),
            addr % 4096 == 0,
            addr + size <= u64::MAX + 1,
        ensures
            final(self).wf(),
            (final(self)@, r) == old(self)@.mmap(
                addr as int,
                page_count(addr, size as int) as nat,
                perms,
            ),
            final(self).pmem.spec_size() == old(self).pmem.spec_size(),
            final(self).pmem.spec_host_address() == old(self).pmem.spec_host_address(),
            final(self).page_directory == old(self).page_directory,
            forall|b: int|
                0 <= b < old(self).pmem.spec_size() && !final(self).holds_table(b / 4096)
                    ==> final(self).pmem@[b] == old(self).pmem@[b],
            forall|f: int| old(self).holds_table(f) ==> final(self).holds_table(f),
            forall|f: int|
                final(self).holds_table(f) && !old(self).holds_table(f) ==> old(self)@.next <= f
                    < final(self)@.next,
            forall|va: u64| #[trigger]
                old(self)@.is_mapped(va) ==> final(self)@.is_mapped(va) && final(self)@.frame(va)
                    == old(self)@.frame(va) && final(self).byte_at(va) == old(self).byte_at(va),
    {
        let pages: usize = if size % PAGE_SIZE == 0 {
            size / PAGE_SIZE
        } else {
            size / PAGE_SIZE + 1
        };
        assert(pages == page_count(addr, size as int));
        let ghost before = self@;
        let mut j: usize = 0;
        while j < pages
            invariant
                j <= pages,
                pages == page_count(addr, size as int),
                addr + size <= u64::MAX + 1,
                addr % 4096 == 0,
                *self == *old(self),
                self.wf(),
                before == self@,
                before.collision(addr as int, pages as nat) == before.collision(
                    addr + j * 4096,
                    (pages - j) as nat,
                ),
            decreases pages - j,
        {
            let page: u64 = addr + (j as u64) * 4096;
            if self.is_mapped(VirtAddr::new(page)) {
                return Err(VMMemoryError::AddressAlreadyMapped(page));
            }
            j = j + 1;
        }
        let mut j: usize = 0;
        while j < pages
            invariant
                self.wf(),
                j <= pages,
                pages == page_count(addr, size as int),
                addr + size <= u64::MAX + 1,
                addr % 4096 == 0,
                before == old(self)@,
                before.collision(addr as int, pages as nat) is None,
                before.map_pages(addr as int, pages as nat, perms) == self@.map_pages(
                    addr + j * 4096,
                    (pages - j) as nat,
                    perms,
                ),
                self.pmem.spec_size() == old(self).pmem.spec_size(),
                self.pmem.spec_host_address() == old(self).pmem.spec_host_address(),
                self.page_directory == old(self).page_directory,
                before.next <= self@.next,
                forall|va: u64| #[trigger]
                    before.is_mapped(va) ==> self@.is_mapped(va) && self@.frame(va) == before.frame(
                        va,
                    ) && self.byte_at(va) == old(self).byte_at(va),
                forall|b: int|
                    0 <= b < old(self).pmem.spec_size() && !self.holds_table(b / 4096)
                        ==> self.pmem@[b] == old(self).pmem@[b],
                forall|f: int| old(self).holds_table(f) ==> self.holds_table(f),
                forall|f: int|
                    self.holds_table(f) && !old(self).holds_table(f) ==> before.next <= f
                        < self@.next,
            decreases pages - j,
        {
            let page: u64 = addr + (j as u64) * 4096;
            match self.map_page(VirtAddr::new(page), perms) {
                Ok(()) => {},
                Err(e) => {
                    return Err(e);
                },
            }
            j = j + 1;
        }
        Ok(())
    }

    /// Walks the tables for `address` as far as they go: how many nodes of
    /// its path exist, and the physical address of the last of them.
    fn walk(&self, address: VirtAddr) -> (r: (usize, usize))
        ensures
            r.0 <= 4,
            r.0 == self@.reached(vpn(address.addr)),
            table_at(self.pmem@, r.0 as nat, vpn(address.addr)) == Some(r.1 as int / 4096),
            r.0 < 4 ==> table_at(self.pmem@, (r.0 + 1) as nat, vpn(address.addr)) is None,
            r.1 % 4096 == 0,
            r.0 > 0 ==> r.1 + 4096 <= self.pmem.spec_size(),
            r.0 == 0 ==> r.1 == 0,
    {
        let ghost mem = self.pmem@;
        let ghost page = vpn(address.addr);
        reveal_with_fuel(table_at, 5);
        proof {
            lemma_space_reached_any(mem, self.pmem.spec_top() as int, page);
        }
        if self.pmem.size() < PAGE_SIZE {
            proof {
                lemma_prefix_step(1, page);
            }
            return (0, 0);
        }
        let t3 = match self.next_frame(0, address.p4_index()) {
            Some(t) => t,
            None => { return (0, 0); },
        };
        let t2 = match self.next_frame(t3, address.p3_index()) {
            Some(t) => t,
            None => { return (1, t3); },
        };
        let t1 = match self.next_frame(t2, address.p2_index()) {
            Some(t) => t,
            None => { return (2, t2); },
        };
        let frame = match self.next_frame(t1, address.p1_index()) {
            Some(t) => t,
            None => { return (3, t1); },
        };
        (4, frame)
    }

    /// The physical address of the frame that the page of `address` is
    /// mapped to, or nothing where it is not mapped.
    pub fn get_page_pa(&self, address: VirtAddr) -> (r: Option<usize>)
        ensures
            r is Some <==> self@.is_mapped(address.addr),
            r matches Some(pa) ==> pa == self@.frame(address.addr) * 4096 && pa + 4096
                <= self.pmem.spec_size(),
    {
        let (depth, frame) = self.walk(address);
        proof {
            lemma_space_has(self.pmem@, self.pmem.spec_top() as int, 4, vpn(address.addr));
            if depth < 4 {
                crate::paging::lemma_walk_ends(
                    self.pmem@,
                    (depth + 1) as nat,
                    4,
                    vpn(address.addr),
                );
            }
        }
        if depth == 4 {
            Some(frame)
        } else {
            None
        }
    }

    /// Whether the page of `address` is mapped.
    pub fn is_mapped(&self, address: VirtAddr) -> (r: bool)
        ensures
            r == self@.is_mapped(address.addr),
    {
        self.get_page_pa(address).is_some()
    }

    /// The physical addresses of the frames of the pages that the `len`
    /// bytes from `addr` on touch, in order; or the first of these pages
    /// that is not mapped.
    pub fn translate_range(&self, addr: u64, len: usize) -> (r: Result<Vec<usize>, VMMemoryError>)
        requires
            addr + len <= u64::MAX + 1,
        ensures
            r is Ok <==> self@.range_mapped(addr, len as int),
            r matches Ok(frames) ==> {
                &&& frames@.len() == page_count(addr, len as int)
                &&& forall|j: int|
                    0 <= j < frames@.len() ==> (#[trigger] frames@[j]) % 4096 == 0 && frames@[j]
                        + 4096 <= self.pmem.spec_size()
                &&& forall|i: int|
                    0 <= i < len ==> frames@[page_index(addr, i)] == self@.frame(
                        #[trigger] byte_va(addr, i),
                    ) * 4096
            },
            r matches Err(e) ==> exists|i: int|
                self@.first_unmapped(addr, len as int, i) && e == VMMemoryError::AddressUnmapped(
                    page_base(byte_va(addr, i)),
                ),
    {
        let mut frames: Vec<usize> = Vec::new();
        if len == 0 {
            return Ok(frames);
        }
        let off: u64 = addr % 4096;
        let base: u64 = addr - off;
        let pages: u64 = (off + ((len - 1) as u64)) / 4096 + 1;
        let ghost space = self@;
        let mut j: u64 = 0;
        while j < pages
            invariant
                j <= pages,
                len > 0,
                addr + len <= u64::MAX + 1,
                off == addr % 4096,
                base == addr - off,
                pages == page_count(addr, len as int),
                frames@.len() == j,
                space == self@,
                forall|k: int|
                    0 <= k < j ==> (#[trigger] frames@[k]) % 4096 == 0 && frames@[k] + 4096
                        <= self.pmem.spec_size(),
                forall|k: int|
                    0 <= k < j ==> space.is_mapped(#[trigger] range_page(addr, k)) && frames@[k]
                        == space.frame(range_page(addr, k)) * 4096,
            decreases pages - j,
        {
            proof {
                lemma_page_bytes(addr, len as int, j as int);
            }
            let page: u64 = base + j * 4096;
            assert(page == range_page(addr, j as int));
            match self.get_page_pa(VirtAddr::new(page)) {
                Some(pa) => {
                    let ghost prev = frames@;
                    frames.push(pa);
                    assert(forall|k: int| 0 <= k < j ==> frames@[k] == prev[k]);
                    assert(frames@[j as int] == pa);
                },
                None => {
                    proof {
                        space.lemma_first_unmapped(addr, len as int, j as int);
                    }
                    return Err(VMMemoryError::AddressUnmapped(page));
                },
            }
            j = j + 1;
        }
        proof {
            assert forall|i: int| 0 <= i < len implies space.is_mapped(
                #[trigger] byte_va(addr, i),
            ) && frames@[page_index(addr, i)] == space.frame(byte_va(addr, i)) * 4096 by {
                lemma_byte_page(addr, len as int, i);
                let ji = page_index(addr, i);
                assert(space.is_mapped(range_page(addr, ji)));
                space.lemma_same_page(byte_va(addr, i), range_page(addr, ji));
            }
        }
        Ok(frames)
    }

    /// Copies the bytes that the guest sees from `addr` on into `output`, as
    /// many as it holds. Leaves `output` as it is where one of them lies in
    /// a page that is not mapped.
    pub fn read(&self, addr: u64, output: &mut [u8]) -> (r: Result<(), VMMemoryError>)
        requires
            addr + old(output)@.len() <= u64::MAX + 1,
        ensures
            self.pmem.inv(),
            final(output)@.len() == old(output)@.len(),
            r is Ok <==> self@.range_mapped(addr, old(output)@.len() as int),
            r is Ok ==> self.holds(addr, final(output)@),
            r matches Err(e) ==> final(output)@ == old(output)@ && exists|i: int|
                self@.first_unmapped(addr, old(output)@.len() as int, i) && e
                    == VMMemoryError::AddressUnmapped(page_base(byte_va(addr, i))),
    {
        proof {
            use_type_invariant(&self.pmem);
        }
        let len: usize = output.len();
        let frames = match self.translate_range(addr, len) {
            Ok(frames) => frames,
            Err(e) => { return Err(e); },
        };
        let off: u64 = addr % 4096;
        let mut i: usize = 0;
        while i < len
            invariant
                i <= len,
                len == output@.len(),
                addr + len <= u64::MAX + 1,
                off == addr % 4096,
                frames@.len() == page_count(addr, len as int),
                forall|j: int|
                    0 <= j < frames@.len() ==> (#[trigger] frames@[j]) % 4096 == 0 && frames@[j]
                        + 4096 <= self.pmem.spec_size(),
                forall|k: int|
                    0 <= k < len ==> frames@[page_index(addr, k)] == self@.frame(
                        #[trigger] byte_va(addr, k),
                    ) * 4096,
                forall|k: int|
                    0 <= k < i ==> output@[k] == self.byte_at(#[trigger] byte_va(addr, k)),
            decreases len - i,
        {
            let at: u64 = off + (i as u64);
            let j: usize = (at / 4096) as usize;
            let o: usize = (at % 4096) as usize;
            assert(j == page_index(addr, i as int));
            assert(frames@[j as int] % 4096 == 0);
            assert(byte_va(addr, i as int) % 4096 == o);
            let byte: u8 = match self.pmem.read_byte(frames[j] + o) {
                Ok(byte) => byte,
                Err(_) => 0,
            };
            output[i] = byte;
            i = i + 1;
        }
        Ok(())
    }

    /// Copies `input` to where the guest sees it from `addr` on. Changes
    /// nothing where one of the bytes would lie in a page that is not mapped.
    pub fn write(&mut self, addr: u64, input: &[u8]) -> (r: Result<(), VMMemoryError>)
        requires
            addr + input@.len() <= u64::MAX + 1,
        ensures
            final(self).pmem.inv(),
            final(self).pmem.spec_size() == old(self).pmem.spec_size(),
            final(self).pmem.spec_top() == old(self).pmem.spec_top(),
            final(self).pmem.spec_host_address() == old(self).pmem.spec_host_address(),
            final(self).page_directory == old(self).page_directory,
            final(self).roles == old(self).roles,
            r is Ok <==> old(self)@.range_mapped(addr, input@.len() as int),
            r matches Err(e) ==> *final(self) == *old(self) && exists|i: int|
                old(self)@.first_unmapped(addr, input@.len() as int, i) && e
                    == VMMemoryError::AddressUnmapped(page_base(byte_va(addr, i))),
            r is Ok ==> overwritten(
                old(self)@,
                old(self).pmem@,
                final(self).pmem@,
                addr,
                input@,
            ),
            r is Ok && old(self).wf() && input@.len() <= MAX_SPAN ==> {
                &&& final(self).wf()
                &&& final(self)@ == old(self)@
                &&& final(self).holds(addr, input@)
                &&& forall|va: u64| #[trigger]
                    old(self)@.is_mapped(va) && (forall|i: int|
                        0 <= i < input@.len() ==> vpn(#[trigger] byte_va(addr, i)) != vpn(va))
                        ==> final(self).byte_at(va) == old(self).byte_at(va)
            },
    {
        proof {
            use_type_invariant(&self.pmem);
        }
        let len: usize = input.len();
        let frames = match self.translate_range(addr, len) {
            Ok(frames) => frames,
            Err(e) => { return Err(e); },
        };
        let off: u64 = addr % 4096;
        let ghost space = self@;
        let ghost mem = self.pmem@;
        let ghost good = self.wf() && len <= MAX_SPAN;
        let mut i: usize = 0;
        proof {
            self.pmem.lemma_inv();
            lemma_overwritten_none(space, mem, addr, input@);
            assert forall|k: int| 0 <= k < len implies 0 <= space.phys(
                #[trigger] byte_va(addr, k),
            ) < self.pmem.spec_size() by {
                assert(frames@[page_index(addr, k)] % 4096 == 0);
            }
        }
        while i < len
            invariant
                i <= len,
                len == input@.len(),
                addr + len <= u64::MAX + 1,
                off == addr % 4096,
                space == old(self)@,
                mem == old(self).pmem@,
                good == (old(self).wf() && len <= MAX_SPAN),
                self.pmem.inv(),
                self.pmem.spec_size() == old(self).pmem.spec_size(),
                self.pmem.spec_top() == old(self).pmem.spec_top(),
                self.pmem.spec_host_address() == old(self).pmem.spec_host_address(),
                self.page_directory == old(self).page_directory,
                self.roles == old(self).roles,
                space.range_mapped(addr, len as int),
                frames@.len() == page_count(addr, len as int),
                forall|j: int|
                    0 <= j < frames@.len() ==> (#[trigger] frames@[j]) % 4096 == 0 && frames@[j]
                        + 4096 <= self.pmem.spec_size(),
                forall|k: int|
                    0 <= k < len ==> frames@[page_index(addr, k)] == space.frame(
                        #[trigger] byte_va(addr, k),
                    ) * 4096,
                mem.len() == self.pmem.spec_size(),
                forall|k: int|
                    0 <= k < len ==> 0 <= space.phys(#[trigger] byte_va(addr, k))
                        < self.pmem.spec_size(),
                overwritten(space, mem, self.pmem@, addr, input@.subrange(0, i as int)),
            decreases len - i,
        {
            let at: u64 = off + (i as u64);
            let j: usize = (at / 4096) as usize;
            let o: usize = (at % 4096) as usize;
            assert(j == page_index(addr, i as int));
            assert(frames@[j as int] % 4096 == 0);
            assert(byte_va(addr, i as int) % 4096 == o);
            assert(space.phys(byte_va(addr, i as int)) == frames@[j as int] + o);
            let ghost cur = self.pmem@;
            proof {
                self.pmem.lemma_inv();
            }
            let _ = self.pmem.write_byte(frames[j] + o, input[i]);
            proof {
                lemma_overwritten_step(space, mem, cur, self.pmem@, addr, input@, i as int);
            }
            i = i + 1;
        }
        proof {
            old(self).pmem.lemma_inv();
            assert(input@.subrange(0, len as int) =~= input@);
            if good {
                old(self).lemma_overwritten_tables(*self, addr, input@);
                old(self).lemma_overwritten_holds(*self, addr, input@);
                old(self).lemma_overwritten_elsewhere(*self, addr, input@);
            }
        }
        Ok(())
    }

    /// `after` is this memory after bytes were written over those of a
    /// mapped range of at most `MAX_SPAN` bytes, and nothing else changed.
    pub open spec fn overwritten_to(&self, after: VMMemory, addr: u64, input: Seq<u8>) -> bool {
        &&& self.wf()
        &&& input.len() <= MAX_SPAN
        &&& addr + input.len() <= u64::MAX + 1
        &&& self@.range_mapped(addr, input.len() as int)
        &&& overwritten(self@, self.pmem@, after.pmem@, addr, input)
        &&& after.pmem.inv()
        &&& after.pmem.spec_size() == self.pmem.spec_size()
        &&& after.pmem.spec_top() == self.pmem.spec_top()
        &&& after.page_directory == self.page_directory
        &&& after.roles == self.roles
    }

    /// Writing over a mapped range changes no table: the memory stays well
    /// formed and maps what it mapped.
    pub proof fn lemma_overwritten_tables(&self, after: VMMemory, addr: u64, input: Seq<u8>)
        requires
            self.overwritten_to(after, addr, input),
        ensures
            after.wf(),
            after@ == self@,
    {
        let mem = self.pmem@;
        let roles = self.roles@;
        self.pmem.lemma_inv();
        after.pmem.lemma_inv();
        assert forall|b: int|
            0 <= b < roles.len() * 4096 && roles[b / 4096].depth < 4 implies #[trigger] after.pmem@[b]
            == mem[b] by {
            assert forall|k: int| 0 <= k < input.len() implies self@.phys(
                #[trigger] byte_va(addr, k),
            ) != b by {
                lemma_mapped_frame(mem, roles, self.pmem.spec_top() as int, byte_va(addr, k));
            }
            assert(untouched(self@, addr, input.len() as int, b));
            reveal(overwritten);
        }
        assert(same_tables(mem, roles, after.pmem@));
        lemma_same_tables_wf(mem, roles, after.pmem@);
        lemma_same_tables_space(mem, roles, after.pmem@, self.pmem.spec_top() as int);
    }

    /// After writing over a mapped range, the guest sees there what was
    /// written.
    pub proof fn lemma_overwritten_holds(&self, after: VMMemory, addr: u64, input: Seq<u8>)
        requires
            self.overwritten_to(after, addr, input),
        ensures
            after.holds(addr, input),
    {
        self.lemma_overwritten_tables(after, addr, input);
        assert forall|i: int| 0 <= i < input.len() implies after.byte_at(
            #[trigger] byte_va(addr, i),
        ) == input[i] by {
            assert forall|k: int| i < k < input.len() implies self@.phys(
                #[trigger] byte_va(addr, k),
            ) != self@.phys(byte_va(addr, i)) by {
                self.lemma_distinct_bytes(addr, i, k);
            }
            assert(written_last(self@, addr, input.len() as int, i));
            reveal(overwritten);
        }
    }

    /// After writing over a mapped range, the guest sees in all other pages
    /// what it saw.
    pub proof fn lemma_overwritten_elsewhere(&self, after: VMMemory, addr: u64, input: Seq<u8>)
        requires
            self.overwritten_to(after, addr, input),
        ensures
            forall|va: u64| #[trigger]
                self@.is_mapped(va) && (forall|i: int|
                    0 <= i < input.len() ==> vpn(#[trigger] byte_va(addr, i)) != vpn(va))
                    ==> after.byte_at(va) == self.byte_at(va),
    {
        self.lemma_overwritten_tables(after, addr, input);
        let mem = self.pmem@;
        let roles = self.roles@;
        self.pmem.lemma_inv();
        assert forall|va: u64| #[trigger]
            self@.is_mapped(va) && (forall|i: int|
                0 <= i < input.len() ==> vpn(#[trigger] byte_va(addr, i)) != vpn(
                    va,
                )) implies after.byte_at(va) == self.byte_at(va) by {
            lemma_mapped_frame(mem, roles, self.pmem.spec_top() as int, va);
            assert forall|k: int| 0 <= k < input.len() implies self@.phys(
                #[trigger] byte_va(addr, k),
            ) != self@.phys(va) by {
                lemma_mapped_frame(mem, roles, self.pmem.spec_top() as int, byte_va(addr, k));
            }
            assert(untouched(self@, addr, input.len() as int, self@.phys(va)));
            reveal(overwritten);
        }
    }

    /// In well-formed tables, two bytes of a range of at most `MAX_SPAN`
    /// bytes lie at different physical addresses.
    pub proof fn lemma_distinct_bytes(&self, addr: u64, i: int, k: int)
        requires
            self.wf(),
            0 <= i,
            0 <= k,
            i != k,
            i <= MAX_SPAN,
            k <= MAX_SPAN,
            addr + i <= u64::MAX,
            addr + k <= u64::MAX,
            self@.is_mapped(byte_va(addr, i)),
            self@.is_mapped(byte_va(addr, k)),
        ensures
            self@.phys(byte_va(addr, i)) != self@.phys(byte_va(addr, k)),
    {
        lemma_mapped_frame(self.pmem@, self.roles@, self.pmem.spec_top() as int, byte_va(addr, i));
        lemma_mapped_frame(self.pmem@, self.roles@, self.pmem.spec_top() as int, byte_va(addr, k));
    }

    /// In a well-formed memory a mapped address lies in the arena.
    pub proof fn lemma_mapped_in_arena(&self, va: u64)
        requires
            self.wf(),
            self@.is_mapped(va),
        ensures
            0 <= self@.frame(va),
            0 <= self@.phys(va) < self.pmem@.len(),
            self@.phys(va) / 4096 == self@.frame(va),
    {
        self.pmem.lemma_inv();
        lemma_mapped_frame(self.pmem@, self.roles@, self.pmem.spec_top() as int, va);
    }

    /// A memory whose arena holds, in the frames of this memory's tables, the
    /// bytes that this memory has there, describes the same address space,
    /// whatever its other frames hold.
    pub proof fn lemma_same_table_bytes(&self, other: VMMemory)
        requires
            self.wf(),
            other.pmem@.len() == self.pmem@.len(),
            other.pmem.spec_top() == self.pmem.spec_top(),
            forall|b: int|
                0 <= b < self.pmem@.len() && self.holds_table(b / 4096) ==> #[trigger] other.pmem@[b]
                    == self.pmem@[b],
        ensures
            other@ == self@,
    {
        self.pmem.lemma_inv();
        assert(same_tables(self.pmem@, self.roles@, other.pmem@));
        lemma_same_tables_space(self.pmem@, self.roles@, other.pmem@, self.pmem.spec_top() as int);
    }

    /// A second memory with the same bytes and the same tables, in storage
    /// of its own. There always is one.
    pub fn clone(&self) -> (r: Option<VMMemory>)
        ensures
            r is Some,
            r matches Some(m) ==> {
                &&& m.pmem@ == self.pmem@
                &&& m.pmem.spec_size() == self.pmem.spec_size()
                &&& m.pmem.spec_top() == self.pmem.spec_top()
                &&& m.page_directory == self.page_directory
                &&& m@ == self@
                &&& self.wf() ==> m.wf()
            },
    {
        match self.pmem.clone() {
            None => None,
            Some(pmem) => Some(
                VMMemory { pmem, page_directory: self.page_directory, roles: Ghost(self.roles@) },
            ),
        }
    }
}

/// `reached` is the number of steps that the page's walk takes.
pub proof fn lemma_space_reached_any(mem: Seq<u8>, top: int, page: int)
    requires
        0 <= page < 0x10_0000_0000,
    ensures
        forall|r: nat|
            r <= 4 && (#[trigger] table_at(mem, r, page)) is Some && (r < 4 ==> table_at(
                mem,
                r + 1,
                page,
            ) is None) ==> address_space(mem, top).reached(page) == r,
{
    assert forall|r: nat|
        r <= 4 && (#[trigger] table_at(mem, r, page)) is Some && (r < 4 ==> table_at(
            mem,
            r + 1,
            page,
        ) is None) implies address_space(mem, top).reached(page) == r by {
        lemma_space_reached(mem, top, page, r);
    }
}


} // verus!
