//! Four-level x86-64 page tables: addresses, permissions, entries and the
//! table walk over the bytes of a physical arena.

use vstd::prelude::*;
use vstd::bytes::{
    lemma_auto_spec_u64_to_from_le_bytes, spec_u64_from_le_bytes, spec_u64_to_le_bytes_open,
    spec_u64_to_le_bytes_to_open,
};
use crate::memory::VMMemoryError;

verus! {

/// Bytes in a page and in a page table.
pub const PAGE_SIZE: usize = 0x1000;

/// Entries in a page table.
pub const ENTRY_COUNT: usize = 512;

/// Bit 0 of an entry: the entry points to a table or a frame.
pub const ENTRY_PRESENT: u64 = 0x1;

/// Bit 1 of an entry: writes are allowed.
pub const ENTRY_WRITABLE: u64 = 0x2;

/// Bit 63 of an entry: instruction fetches are refused.
pub const ENTRY_NO_EXECUTE: u64 = 0x8000_0000_0000_0000;

/// Bits 12..52 of an entry: the physical address of the table or frame.
pub const ENTRY_ADDR_MASK: u64 = 0x000f_ffff_ffff_f000;

/// Access rights of a mapped page.
#[derive(Clone, Copy, Debug, PartialEq, Eq, Structural)]
pub struct PagePermissions {
    pub bits: u64,
}

impl PagePermissions {
    /// The right to read.
    pub const READ: u64 = 0x1;

    /// The right to write.
    pub const WRITE: u64 = 0x2;

    /// The right to execute.
    pub const EXECUTE: u64 = 0x4;

    /// The rights whose bits are set in `bits`.
    pub fn new(bits: u64) -> (perms: Self)
        ensures
            perms.bits == bits,
    {
        PagePermissions { bits }
    }

    /// Whether the page may be read.
    pub open spec fn spec_readable(&self) -> bool {
        self.bits & 0x1 != 0
    }

    /// Whether the page may be written.
    pub open spec fn spec_writable(&self) -> bool {
        self.bits & 0x2 != 0
    }

    /// Whether the page may be executed.
    pub open spec fn spec_executable(&self) -> bool {
        self.bits & 0x4 != 0
    }

    /// Whether the page may be read.
    #[verifier::when_used_as_spec(spec_readable)]
    pub fn readable(&self) -> (r: bool)
        ensures
            r == self.spec_readable(),
    {
        self.bits & PagePermissions::READ != 0
    }

    /// Whether the page may be written.
    #[verifier::when_used_as_spec(spec_writable)]
    pub fn writable(&self) -> (r: bool)
        ensures
            r == self.spec_writable(),
    {
        self.bits & PagePermissions::WRITE != 0
    }

    /// Whether the page may be executed.
    #[verifier::when_used_as_spec(spec_executable)]
    pub fn executable(&self) -> (r: bool)
        ensures
            r == self.spec_executable(),
    {
        self.bits & PagePermissions::EXECUTE != 0
    }

    /// The rights of `self` together with those in `bits`.
    pub fn with(self, bits: u64) -> (perms: Self)
        ensures
            perms.bits == self.bits | bits,
    {
        PagePermissions { bits: self.bits | bits }
    }
}

/// The number of the virtual page that holds `va`, as the tables see it: the
/// tables index bits 12..48 of an address and ignore the bits above.
pub open spec fn vpn(va: u64) -> int {
    (va as int / 4096) % 0x10_0000_0000
}

/// How many pages one entry of a table at `depth` covers (depth 0 is the root
/// table; depth 4 stands for a mapped frame).
pub open spec fn span(depth: int) -> int {
    if depth >= 4 {
        1
    } else if depth == 3 {
        0x200
    } else if depth == 2 {
        0x4_0000
    } else if depth == 1 {
        0x800_0000
    } else {
        0x10_0000_0000
    }
}

/// How many nodes there can be at `depth`: 512 for each level below the root.
pub open spec fn prefix_count(depth: int) -> int {
    if depth >= 4 {
        0x10_0000_0000
    } else if depth == 3 {
        0x800_0000
    } else if depth == 2 {
        0x4_0000
    } else if depth == 1 {
        0x200
    } else {
        1
    }
}

/// The part of a page number that selects the table (or frame) at `depth`.
pub open spec fn prefix(depth: int, page: int) -> int {
    page / span(depth)
}

/// The index that page number `page` uses in its table at `depth`.
pub open spec fn index_at(depth: int, page: int) -> int {
    prefix(depth + 1, page) % 512
}

/// A virtual address of the guest.
#[derive(Clone, Copy, Debug, PartialEq, Eq, Structural)]
pub struct VirtAddr {
    pub addr: u64,
}

impl VirtAddr {
    /// The virtual address `addr`.
    pub fn new(addr: u64) -> (va: Self)
        ensures
            va.addr == addr,
    {
        VirtAddr { addr }
    }

    /// The address as a number.
    pub fn address(&self) -> (addr: u64)
        ensures
            addr == self.addr,
    {
        self.addr
    }

    /// Whether the address is the first of its page.
    pub open spec fn spec_aligned(&self) -> bool {
        self.addr % 4096 == 0
    }

    /// Whether the address is the first of its page.
    #[verifier::when_used_as_spec(spec_aligned)]
    pub fn aligned(&self) -> (r: bool)
        ensures
            r == self.spec_aligned(),
    {
        self.addr % 4096 == 0
    }

    /// Offset of the address in its page.
    pub fn page_offset(&self) -> (off: usize)
        ensures
            off == self.addr % 4096,
    {
        (self.addr % 4096) as usize
    }

    /// First address of the page that holds the address.
    pub fn page_base(&self) -> (base: u64)
        ensures
            base == self.addr - self.addr % 4096,
    {
        self.addr - self.addr % 4096
    }

    /// Index in the root table.
    pub fn p4_index(&self) -> (i: usize)
        ensures
            i == index_at(0, vpn(self.addr)),
            i < 512,
    {
        let a: u64 = self.addr;
        assert((a >> 39) & 0x1ff == (((a / 4096) % 0x10_0000_0000) / 0x800_0000) % 512)
            by (bit_vector);
        assert((a >> 39) & 0x1ff < 512) by (bit_vector);
        ((a >> 39) & 0x1ff) as usize
    }

    /// Index in the table of the third level.
    pub fn p3_index(&self) -> (i: usize)
        ensures
            i == index_at(1, vpn(self.addr)),
            i < 512,
    {
        let a: u64 = self.addr;
        assert((a >> 30) & 0x1ff == (((a / 4096) % 0x10_0000_0000) / 0x4_0000) % 512)
            by (bit_vector);
        assert((a >> 30) & 0x1ff < 512) by (bit_vector);
        ((a >> 30) & 0x1ff) as usize
    }

    /// Index in the table of the second level.
    pub fn p2_index(&self) -> (i: usize)
        ensures
            i == index_at(2, vpn(self.addr)),
            i < 512,
    {
        let a: u64 = self.addr;
        assert((a >> 21) & 0x1ff == (((a / 4096) % 0x10_0000_0000) / 0x200) % 512)
            by (bit_vector);
        assert((a >> 21) & 0x1ff < 512) by (bit_vector);
        ((a >> 21) & 0x1ff) as usize
    }

    /// Index in the table of the first level, whose entries point to frames.
    pub fn p1_index(&self) -> (i: usize)
        ensures
            i == index_at(3, vpn(self.addr)),
            i < 512,
    {
        let a: u64 = self.addr;
        assert((a >> 12) & 0x1ff == (((a / 4096) % 0x10_0000_0000) / 1) % 512) by (bit_vector);
        assert((a >> 12) & 0x1ff < 512) by (bit_vector);
        ((a >> 12) & 0x1ff) as usize
    }
}

/// The entry `idx` of the table in frame number `frame`, decoded from the
/// arena's bytes.
pub open spec fn entry_at(mem: Seq<u8>, frame: int, idx: int) -> u64 {
    spec_u64_from_le_bytes(mem.subrange(frame * 4096 + idx * 8, frame * 4096 + idx * 8 + 8))
}

/// Whether an entry points to a table or a frame.
pub open spec fn entry_present(e: u64) -> bool {
    e & 0x1 == 0x1
}

/// Number of the frame that an entry points to.
pub open spec fn entry_frame(e: u64) -> int {
    ((e & 0x000f_ffff_ffff_f000) / 4096) as int
}

/// Where entry `e` leads in an arena of `frames` frames: nowhere when it is
/// not present or points outside the arena.
pub open spec fn entry_target(e: u64, frames: int) -> Option<int> {
    if entry_present(e) && entry_frame(e) < frames {
        Some(entry_frame(e))
    } else {
        None
    }
}

/// The frame that entry `idx` of the table in `frame` leads to.
pub open spec fn child(mem: Seq<u8>, frame: int, idx: int) -> Option<int> {
    entry_target(entry_at(mem, frame, idx), mem.len() as int / 4096)
}

/// The frame reached from the root table (frame 0) after `depth` steps of the
/// walk for page number `page`: a table for `depth < 4`, the mapped frame for
/// `depth == 4`.
pub open spec fn table_at(mem: Seq<u8>, depth: nat, page: int) -> Option<int>
    decreases depth,
{
    if depth == 0 {
        Some(0)
    } else {
        match table_at(mem, (depth - 1) as nat, page) {
            None => None,
            Some(t) => child(mem, t, index_at(depth - 1, page)),
        }
    }
}

/// What the frames of an arena are used for, as far as the tables go: frame
/// `f` was handed out as the node at `depth` (0 the root table, 4 a mapped
/// frame) on the path of the pages whose numbers start with `prefix`.
pub ghost struct FrameRole {
    pub depth: int,
    pub prefix: int,
}

/// Entry `idx` of table `frame` leads nowhere, or to the frame that was handed
/// out for just that place.
pub open spec fn child_ok(mem: Seq<u8>, roles: Seq<FrameRole>, frame: int, idx: int) -> bool {
    match child(mem, frame, idx) {
        None => true,
        Some(g) => 0 <= g < roles.len() && roles[g] == (FrameRole {
            depth: roles[frame].depth + 1,
            prefix: roles[frame].prefix * 512 + idx,
        }),
    }
}

/// The tables in `mem` form a tree below the root in frame 0: `roles` gives
/// every frame that was handed out its one place in it, and every entry of a
/// table points to the frame of the place below it.
pub open spec fn tables_wf(mem: Seq<u8>, roles: Seq<FrameRole>) -> bool {
    &&& roles.len() >= 1
    &&& roles.len() * 4096 <= mem.len()
    &&& roles[0] == (FrameRole { depth: 0, prefix: 0 })
    &&& forall|f: int| 0 <= f < roles.len() ==> 0 <= (#[trigger] roles[f]).depth <= 4
    &&& forall|f: int, idx: int|
        0 <= f < roles.len() && roles[f].depth < 4 && 0 <= idx < 512 ==> #[trigger] child_ok(
            mem,
            roles,
            f,
            idx,
        )
}

/// The first page below a node has the node's prefix.
pub proof fn lemma_first_page(depth: int, pre: int)
    requires
        1 <= depth <= 4,
        0 <= pre < prefix_count(depth),
    ensures
        0 <= pre * span(depth) < 0x10_0000_0000,
        prefix(depth, pre * span(depth)) == pre,
{
    if depth == 1 {
        assert((pre * 0x800_0000) / 0x800_0000 == pre);
    } else if depth == 2 {
        assert((pre * 0x4_0000) / 0x4_0000 == pre);
    } else if depth == 3 {
        assert((pre * 0x200) / 0x200 == pre);
    } else {
        assert((pre * 1) / 1 == pre);
    }
}

/// One step down the tables multiplies the prefix by 512 and adds the index.
pub proof fn lemma_prefix_step(depth: int, page: int)
    requires
        1 <= depth <= 4,
        0 <= page,
    ensures
        prefix(depth, page) == prefix(depth - 1, page) * 512 + index_at(depth - 1, page),
        0 <= index_at(depth - 1, page) < 512,
        prefix(depth - 1, page) == prefix(depth, page) / 512,
        0 <= prefix(depth, page),
{
}

/// The walk for a page reads only the part of its number that selects the
/// node: pages with the same prefix reach the same node.
pub proof fn lemma_walk_prefix(mem: Seq<u8>, depth: nat, one: int, other: int)
    requires
        depth <= 4,
        0 <= one,
        0 <= other,
        prefix(depth as int, one) == prefix(depth as int, other),
    ensures
        table_at(mem, depth, one) == table_at(mem, depth, other),
    decreases depth,
{
    if depth > 0 {
        lemma_prefix_step(depth as int, one);
        lemma_prefix_step(depth as int, other);
        lemma_walk_prefix(mem, (depth - 1) as nat, one, other);
    }
}

/// In well-formed tables the walk for a page ends, at every depth, in the
/// frame that was handed out for that place.
pub proof fn lemma_walk_roles(mem: Seq<u8>, roles: Seq<FrameRole>, depth: nat, page: int)
    requires
        tables_wf(mem, roles),
        depth <= 4,
        0 <= page < 0x10_0000_0000,
    ensures
        table_at(mem, depth, page) matches Some(t) ==> 0 <= t < roles.len() && roles[t] == (
        FrameRole { depth: depth as int, prefix: prefix(depth as int, page) }),
    decreases depth,
{
    if depth > 0 {
        lemma_walk_roles(mem, roles, (depth - 1) as nat, page);
        lemma_prefix_step(depth as int, page);
        match table_at(mem, (depth - 1) as nat, page) {
            None => {},
            Some(t) => {
                assert(child_ok(mem, roles, t, index_at(depth - 1, page)));
            },
        }
    }
}


/// First byte of entry `idx` of the table in `frame`.
pub open spec fn entry_pos(frame: int, idx: int) -> int {
    frame * 4096 + idx * 8
}

/// An entry decodes from its own eight bytes alone.
pub proof fn lemma_entry_local(mem: Seq<u8>, mem2: Seq<u8>, frame: int, idx: int)
    requires
        mem.len() == mem2.len(),
        0 <= frame,
        0 <= idx < 512,
        (frame + 1) * 4096 <= mem.len(),
        forall|b: int| entry_pos(frame, idx) <= b < entry_pos(frame, idx) + 8 ==> mem2[b] == mem[b],
    ensures
        entry_at(mem2, frame, idx) == entry_at(mem, frame, idx),
        child(mem2, frame, idx) == child(mem, frame, idx),
{
    assert(mem2.subrange(frame * 4096 + idx * 8, frame * 4096 + idx * 8 + 8) =~= mem.subrange(
        frame * 4096 + idx * 8,
        frame * 4096 + idx * 8 + 8,
    ));
}

/// `mem2` is `mem` after the next free frame was hung below entry `idx` of
/// table `parent`: that entry now leads to the new frame, a new table is
/// empty, and no other byte of a frame handed out earlier has changed.
pub open spec fn linked(
    mem: Seq<u8>,
    roles: Seq<FrameRole>,
    mem2: Seq<u8>,
    parent: int,
    idx: int,
) -> bool {
    let fresh = roles.len() as int;
    &&& tables_wf(mem, roles)
    &&& 0 <= parent < roles.len()
    &&& roles[parent].depth < 4
    &&& 0 <= idx < 512
    &&& (fresh + 1) * 4096 <= mem.len()
    &&& mem2.len() == mem.len()
    &&& child(mem, parent, idx) is None
    &&& child(mem2, parent, idx) == Some(fresh)
    &&& roles[parent].depth < 3 ==> forall|i: int| 0 <= i < 512 ==> #[trigger] child(mem2, fresh, i)
        is None
    &&& forall|b: int|
        0 <= b < fresh * 4096 && !(entry_pos(parent, idx) <= b < entry_pos(parent, idx) + 8)
            ==> mem2[b] == mem[b]
}

/// The role of the frame that `linked` hangs into the tree.
pub open spec fn linked_roles(roles: Seq<FrameRole>, parent: int, idx: int) -> Seq<FrameRole> {
    roles.push(FrameRole { depth: roles[parent].depth + 1, prefix: roles[parent].prefix * 512 + idx })
}

/// Entries other than the linked one lead where they led.
pub proof fn lemma_linked_child(
    mem: Seq<u8>,
    roles: Seq<FrameRole>,
    mem2: Seq<u8>,
    parent: int,
    idx: int,
    f: int,
    i: int,
)
    requires
        linked(mem, roles, mem2, parent, idx),
        0 <= f < roles.len(),
        0 <= i < 512,
        f != parent || i != idx,
    ensures
        entry_at(mem2, f, i) == entry_at(mem, f, i),
        child(mem2, f, i) == child(mem, f, i),
{
    lemma_entry_local(mem, mem2, f, i);
}

/// Hanging a frame into well-formed tables leaves them well formed.
pub proof fn lemma_linked_wf(
    mem: Seq<u8>,
    roles: Seq<FrameRole>,
    mem2: Seq<u8>,
    parent: int,
    idx: int,
)
    requires
        linked(mem, roles, mem2, parent, idx),
    ensures
        tables_wf(mem2, linked_roles(roles, parent, idx)),
{
    let roles2 = linked_roles(roles, parent, idx);
    assert forall|f: int| 0 <= f < roles2.len() implies 0 <= (#[trigger] roles2[f]).depth <= 4 by {
        if f < roles.len() {
            assert(roles2[f] == roles[f]);
        }
    }
    assert forall|f: int, i: int|
        0 <= f < roles2.len() && roles2[f].depth < 4 && 0 <= i < 512 implies #[trigger] child_ok(
        mem2,
        roles2,
        f,
        i,
    ) by {
        if f < roles.len() {
            assert(roles2[f] == roles[f]);
            if f == parent && i == idx {
            } else {
                lemma_linked_child(mem, roles, mem2, parent, idx, f, i);
                assert(child_ok(mem, roles, f, i));
            }
        } else {
            assert(child(mem2, roles.len() as int, i) is None);
        }
    }
}

/// Where the walks lead after a frame was hung into the tree: where they led
/// before and, for the pages below the linked entry, on to the new frame.
pub proof fn lemma_linked_walk(
    mem: Seq<u8>,
    roles: Seq<FrameRole>,
    mem2: Seq<u8>,
    parent: int,
    idx: int,
    depth: nat,
    page: int,
)
    requires
        linked(mem, roles, mem2, parent, idx),
        depth <= 4,
        0 <= page < 0x10_0000_0000,
    ensures
        table_at(mem2, depth, page) == (if table_at(mem, depth, page) is Some {
            table_at(mem, depth, page)
        } else if depth == roles[parent].depth + 1 && table_at(
            mem,
            (depth - 1) as nat,
            page,
        ) == Some(parent) && index_at(depth - 1, page) == idx {
            Some(roles.len() as int)
        } else {
            None
        }),
    decreases depth,
{
    if depth > 0 {
        let up = (depth - 1) as nat;
        lemma_linked_walk(mem, roles, mem2, parent, idx, up, page);
        lemma_walk_roles(mem, roles, up, page);
        let i = index_at(depth - 1, page);
        lemma_prefix_step(depth as int, page);
        match table_at(mem, up, page) {
            Some(t) => {
                if t == parent && i == idx {
                } else {
                    lemma_linked_child(mem, roles, mem2, parent, idx, t, i);
                }
            },
            None => {
                if table_at(mem2, up, page) is Some {
                    assert(table_at(mem2, up, page) == Some(roles.len() as int));
                    assert(child(mem2, roles.len() as int, i) is None);
                }
            },
        }
    }
}

/// `mem2` is `mem` with bytes changed in mapped frames only: all bytes of
/// the tables are as they were.
pub open spec fn same_tables(mem: Seq<u8>, roles: Seq<FrameRole>, mem2: Seq<u8>) -> bool {
    &&& tables_wf(mem, roles)
    &&& mem2.len() == mem.len()
    &&& forall|b: int|
        0 <= b < roles.len() * 4096 && roles[b / 4096].depth < 4 ==> #[trigger] mem2[b] == mem[b]
}

/// Writing into mapped frames leaves the entries of all tables as they were.
pub proof fn lemma_same_tables_child(
    mem: Seq<u8>,
    roles: Seq<FrameRole>,
    mem2: Seq<u8>,
    f: int,
    i: int,
)
    requires
        same_tables(mem, roles, mem2),
        0 <= f < roles.len(),
        roles[f].depth < 4,
        0 <= i < 512,
    ensures
        entry_at(mem2, f, i) == entry_at(mem, f, i),
        child(mem2, f, i) == child(mem, f, i),
{
    assert forall|b: int| entry_pos(f, i) <= b < entry_pos(f, i) + 8 implies mem2[b] == mem[b] by {
        assert(b / 4096 == f);
    }
    lemma_entry_local(mem, mem2, f, i);
}

/// Writing into mapped frames leaves the tables well formed.
pub proof fn lemma_same_tables_wf(mem: Seq<u8>, roles: Seq<FrameRole>, mem2: Seq<u8>)
    requires
        same_tables(mem, roles, mem2),
    ensures
        tables_wf(mem2, roles),
{
    assert forall|f: int, i: int|
        0 <= f < roles.len() && roles[f].depth < 4 && 0 <= i < 512 implies #[trigger] child_ok(
        mem2,
        roles,
        f,
        i,
    ) by {
        lemma_same_tables_child(mem, roles, mem2, f, i);
        assert(child_ok(mem, roles, f, i));
    }
}

/// Writing into mapped frames leaves every walk as it was.
pub proof fn lemma_same_tables_walk(
    mem: Seq<u8>,
    roles: Seq<FrameRole>,
    mem2: Seq<u8>,
    depth: nat,
    page: int,
)
    requires
        same_tables(mem, roles, mem2),
        depth <= 4,
        0 <= page < 0x10_0000_0000,
    ensures
        table_at(mem2, depth, page) == table_at(mem, depth, page),
    decreases depth,
{
    if depth > 0 {
        let up = (depth - 1) as nat;
        lemma_same_tables_walk(mem, roles, mem2, up, page);
        lemma_walk_roles(mem, roles, up, page);
        match table_at(mem, up, page) {
            Some(t) => {
                lemma_same_tables_child(mem, roles, mem2, t, index_at(depth - 1, page));
            },
            None => {},
        }
    }
}


/// An entry of eight zero bytes is the entry 0, which is not present.
pub proof fn lemma_zero_entry(mem: Seq<u8>, frame: int, idx: int)
    requires
        0 <= frame,
        0 <= idx < 512,
        (frame + 1) * 4096 <= mem.len(),
        forall|b: int| entry_pos(frame, idx) <= b < entry_pos(frame, idx) + 8 ==> mem[b] == 0u8,
    ensures
        entry_at(mem, frame, idx) == 0,
        child(mem, frame, idx) is None,
{
    let bytes = mem.subrange(frame * 4096 + idx * 8, frame * 4096 + idx * 8 + 8);
    spec_u64_to_le_bytes_to_open(0u64);
    assert(0u64 & 0xff == 0 && (0u64 >> 8) & 0xff == 0 && (0u64 >> 16) & 0xff == 0 && (0u64 >> 24)
        & 0xff == 0 && (0u64 >> 32) & 0xff == 0 && (0u64 >> 40) & 0xff == 0 && (0u64 >> 48) & 0xff
        == 0 && (0u64 >> 56) & 0xff == 0) by (bit_vector);
    assert(bytes =~= spec_u64_to_le_bytes_open(0u64));
    lemma_auto_spec_u64_to_from_le_bytes();
    assert(0u64 & 0x1 != 0x1) by (bit_vector);
}

/// What is known of a page, a table or the frame behind it: the frame's
/// number and what the entry that points to it allows.
pub ghost struct NodeView {
    pub frame: int,
    pub writable: bool,
    pub executable: bool,
}

/// Whether an entry allows writes.
pub open spec fn entry_writable(e: u64) -> bool {
    e & 0x2 == 0x2
}

/// Whether an entry allows instruction fetches.
pub open spec fn entry_executable(e: u64) -> bool {
    e & 0x8000_0000_0000_0000 == 0
}

/// The node at `depth` (1 to 3 a table, 4 a mapped frame) for the pages
/// whose numbers start with `pre`, as the tables in `mem` hold it.
pub open spec fn node_at(mem: Seq<u8>, depth: int, pre: int) -> Option<NodeView> {
    let page = pre * span(depth);
    match table_at(mem, (depth - 1) as nat, page) {
        None => None,
        Some(t) => {
            let e = entry_at(mem, t, index_at(depth - 1, page));
            match entry_target(e, mem.len() as int / 4096) {
                None => None,
                Some(f) => Some(
                    NodeView {
                        frame: f,
                        writable: entry_writable(e),
                        executable: entry_executable(e),
                    },
                ),
            }
        },
    }
}

/// The guest's address space as its page tables describe it.
pub ghost struct AddressSpace {
    /// The tables below the root (depth 1 to 3) and the mapped frames (depth
    /// 4), by depth and by the prefix of the page numbers they serve.
    pub nodes: Map<(int, int), NodeView>,
    /// Number of frames handed out: the next frame to hand out.
    pub next: int,
    /// Number of frames in the arena.
    pub frames: int,
}

/// The address space that the tables in `mem` describe, with the allocator's
/// cursor at byte `top`.
pub open spec fn address_space(mem: Seq<u8>, top: int) -> AddressSpace {
    AddressSpace {
        nodes: Map::new(
            |k: (int, int)|
                1 <= k.0 <= 4 && 0 <= k.1 < prefix_count(k.0) && node_at(mem, k.0, k.1)
                    is Some,
            |k: (int, int)| node_at(mem, k.0, k.1).unwrap(),
        ),
        next: top / 4096,
        frames: mem.len() as int / 4096,
    }
}

impl AddressSpace {
    /// An address space of `frames` frames with the root table in the first
    /// of them and nothing mapped.
    pub open spec fn empty(frames: int) -> AddressSpace {
        AddressSpace { nodes: Map::empty(), next: 1, frames }
    }

    /// Whether the node at `depth` on the path of page number `page` exists.
    pub open spec fn has(self, depth: int, page: int) -> bool {
        self.nodes.contains_key((depth, prefix(depth, page)))
    }

    /// How many nodes of the path of `page` exist, from the root down.
    pub open spec fn reached(self, page: int) -> int {
        if !self.has(1, page) {
            0
        } else if !self.has(2, page) {
            1
        } else if !self.has(3, page) {
            2
        } else if !self.has(4, page) {
            3
        } else {
            4
        }
    }

    /// Whether the page that holds `va` is mapped.
    pub open spec fn is_mapped(self, va: u64) -> bool {
        self.has(4, vpn(va))
    }

    /// Number of the frame that the page of `va` is mapped to.
    pub open spec fn frame(self, va: u64) -> int {
        self.nodes[(4, vpn(va))].frame
    }

    /// Physical address of the byte at `va`.
    pub open spec fn phys(self, va: u64) -> int {
        self.frame(va) * 4096 + va % 4096
    }

    /// Whether every byte of `[va, va + len)` lies in a mapped page.
    pub open spec fn range_mapped(self, va: u64, len: int) -> bool {
        forall|i: int| 0 <= i < len ==> self.is_mapped(#[trigger] byte_va(va, i))
    }

    /// Whether byte `i` is the first byte of `[va, va + len)` in a page that
    /// is not mapped.
    pub open spec fn first_unmapped(self, va: u64, len: int, i: int) -> bool {
        &&& 0 <= i < len
        &&& !self.is_mapped(byte_va(va, i))
        &&& forall|k: int| 0 <= k < i ==> self.is_mapped(#[trigger] byte_va(va, k))
    }

    /// How mapping the page of `va` ends: it is refused where the page is
    /// mapped, and where the arena has fewer free frames than the page and
    /// the tables missing on its path need.
    pub open spec fn map_page_result(self, va: u64) -> Result<(), VMMemoryError> {
        if self.is_mapped(va) {
            Err(VMMemoryError::AddressAlreadyMapped(va))
        } else if self.frames - self.next < 4 - self.reached(vpn(va)) {
            Err(VMMemoryError::OutOfMemory)
        } else {
            Ok(())
        }
    }

    /// The address space after the nodes at depths `from + 1` to `upto` on
    /// the path of page number `page`, which it lacks, got the next free
    /// frames, from the root down. Tables allow everything; a mapped frame
    /// allows what `perms` allows.
    pub open spec fn grow(self, page: int, from: int, upto: int, perms: PagePermissions)
        -> AddressSpace {
        AddressSpace {
            nodes: Map::new(
                |k: (int, int)|
                    self.nodes.contains_key(k) || (from < k.0 <= upto && k.1 == prefix(k.0, page)),
                |k: (int, int)|
                    if self.nodes.contains_key(k) {
                        self.nodes[k]
                    } else {
                        NodeView {
                            frame: self.next + (k.0 - from - 1),
                            writable: k.0 < 4 || perms.spec_writable(),
                            executable: k.0 < 4 || perms.spec_executable(),
                        }
                    },
            ),
            next: self.next + (upto - from),
            frames: self.frames,
        }
    }

    /// The address space after the page of `va` was mapped: the page and the
    /// tables missing on its path got the next free frames.
    pub open spec fn map_page(self, va: u64, perms: PagePermissions) -> AddressSpace {
        self.grow(vpn(va), self.reached(vpn(va)), 4, perms)
    }

    /// The first of the `pages` pages from `va` on that is mapped.
    pub open spec fn collision(self, va: int, pages: nat) -> Option<u64>
        decreases pages,
    {
        if pages == 0 {
            None
        } else if self.is_mapped(va as u64) {
            Some(va as u64)
        } else {
            self.collision(va + 4096, (pages - 1) as nat)
        }
    }

    /// Mapping `pages` pages from `va` on, one after the other, until one is
    /// refused: the address space that is left and how it ended.
    pub open spec fn map_pages(self, va: int, pages: nat, perms: PagePermissions) -> (
        AddressSpace,
        Result<(), VMMemoryError>,
    )
        decreases pages,
    {
        if pages == 0 {
            (self, Ok(()))
        } else {
            match self.map_page_result(va as u64) {
                Err(e) => (self, Err(e)),
                Ok(_) => self.map_page(va as u64, perms).map_pages(
                    va + 4096,
                    (pages - 1) as nat,
                    perms,
                ),
            }
        }
    }

    /// Mapping a range: nothing is mapped where one of its pages is mapped
    /// already; else the pages are mapped in order.
    pub open spec fn mmap(self, va: int, pages: nat, perms: PagePermissions) -> (
        AddressSpace,
        Result<(), VMMemoryError>,
    ) {
        match self.collision(va, pages) {
            Some(page) => (self, Err(VMMemoryError::AddressAlreadyMapped(page))),
            None => self.map_pages(va, pages, perms),
        }
    }
}

/// The address of byte `i` of a range that starts at `va`.
pub open spec fn byte_va(va: u64, i: int) -> u64 {
    (va + i) as u64
}

/// Number of pages that the `len` bytes from `va` on touch.
pub open spec fn page_count(va: u64, len: int) -> int {
    if len <= 0 {
        0
    } else {
        (va % 4096 + len - 1) / 4096 + 1
    }
}


/// The node of a page at `depth` is the end of the page's walk to that
/// depth, with what the last entry of the walk allows.
pub proof fn lemma_node_at(mem: Seq<u8>, depth: int, page: int)
    requires
        1 <= depth <= 4,
        0 <= page < 0x10_0000_0000,
    ensures
        0 <= prefix(depth, page) < prefix_count(depth),
        node_at(mem, depth, prefix(depth, page)) is Some <==> table_at(mem, depth as nat, page)
            is Some,
        node_at(mem, depth, prefix(depth, page)) matches Some(node) ==> {
            &&& table_at(mem, depth as nat, page) == Some(node.frame)
            &&& table_at(mem, (depth - 1) as nat, page) matches Some(t) && {
                let e = entry_at(mem, t, index_at(depth - 1, page));
                node.writable == entry_writable(e) && node.executable == entry_executable(e)
            }
        },
{
    let other = prefix(depth, page) * span(depth);
    assert(0 <= prefix(depth, page) < prefix_count(depth)) by {
        if depth == 1 {
            assert(0 <= page / 0x800_0000 < 0x200);
        } else if depth == 2 {
            assert(0 <= page / 0x4_0000 < 0x4_0000);
        } else if depth == 3 {
            assert(0 <= page / 0x200 < 0x800_0000);
        } else {
            assert(0 <= page / 1 < 0x10_0000_0000);
        }
    }
    lemma_first_page(depth, prefix(depth, page));
    lemma_prefix_step(depth, page);
    lemma_prefix_step(depth, other);
    lemma_walk_prefix(mem, (depth - 1) as nat, page, other);
}

/// What `address_space` holds for a page, in terms of the page's walk.
pub proof fn lemma_space_has(mem: Seq<u8>, top: int, depth: int, page: int)
    requires
        1 <= depth <= 4,
        0 <= page < 0x10_0000_0000,
    ensures
        address_space(mem, top).has(depth, page) <==> table_at(mem, depth as nat, page) is Some,
        address_space(mem, top).has(depth, page) ==> table_at(mem, depth as nat, page) == Some(
            address_space(mem, top).nodes[(depth, prefix(depth, page))].frame,
        ),
{
    lemma_node_at(mem, depth, page);
}

/// A walk that has ended stays ended.
pub proof fn lemma_walk_ends(mem: Seq<u8>, depth: nat, deeper: nat, page: int)
    requires
        depth <= deeper,
        table_at(mem, depth, page) is None,
    ensures
        table_at(mem, deeper, page) is None,
    decreases deeper,
{
    if depth < deeper {
        lemma_walk_ends(mem, depth, (deeper - 1) as nat, page);
    }
}

/// How far the nodes of a page's path exist, in terms of the page's walk.
pub proof fn lemma_space_reached(mem: Seq<u8>, top: int, page: int, r: nat)
    requires
        0 <= page < 0x10_0000_0000,
        r <= 4,
        table_at(mem, r, page) is Some,
        r < 4 ==> table_at(mem, r + 1, page) is None,
    ensures
        address_space(mem, top).reached(page) == r,
{
    lemma_space_has(mem, top, 1, page);
    lemma_space_has(mem, top, 2, page);
    lemma_space_has(mem, top, 3, page);
    lemma_space_has(mem, top, 4, page);
    if r < 4 {
        lemma_walk_ends(mem, r + 1, 4, page);
        if r < 3 {
            lemma_walk_ends(mem, r + 1, 3, page);
        }
        if r < 2 {
            lemma_walk_ends(mem, r + 1, 2, page);
        }
    }
    if r >= 1 && table_at(mem, 1, page) is None {
        lemma_walk_ends(mem, 1, r, page);
    }
    if r >= 2 && table_at(mem, 2, page) is None {
        lemma_walk_ends(mem, 2, r, page);
    }
    if r >= 3 && table_at(mem, 3, page) is None {
        lemma_walk_ends(mem, 3, r, page);
    }
}

/// Below an empty root table no walk leads anywhere.
pub proof fn lemma_empty_root(mem: Seq<u8>, depth: nat, page: int)
    requires
        4096 <= mem.len(),
        forall|b: int| 0 <= b < 4096 ==> mem[b] == 0u8,
        1 <= depth <= 4,
        0 <= page,
    ensures
        table_at(mem, depth, page) is None,
    decreases depth,
{
    if depth == 1 {
        lemma_prefix_step(1, page);
        lemma_zero_entry(mem, 0, index_at(0, page));
        assert(table_at(mem, 0, page) == Some(0int));
    } else {
        lemma_empty_root(mem, (depth - 1) as nat, page);
    }
}


/// The node that `linked` adds: the new frame, with what the linked entry
/// allows.
pub open spec fn linked_node(roles: Seq<FrameRole>, mem2: Seq<u8>, parent: int, idx: int)
    -> NodeView {
    let e = entry_at(mem2, parent, idx);
    NodeView {
        frame: roles.len() as int,
        writable: entry_writable(e),
        executable: entry_executable(e),
    }
}

/// The nodes after a frame was hung into the tree: those there were and the
/// new one.
pub proof fn lemma_linked_node(
    mem: Seq<u8>,
    roles: Seq<FrameRole>,
    mem2: Seq<u8>,
    parent: int,
    idx: int,
    anchor: int,
    depth: int,
    pre: int,
)
    requires
        linked(mem, roles, mem2, parent, idx),
        0 <= anchor < 0x10_0000_0000,
        table_at(mem, roles[parent].depth as nat, anchor) == Some(parent),
        1 <= depth <= 4,
        0 <= pre < prefix_count(depth),
    ensures
        node_at(mem2, depth, pre) == (if node_at(mem, depth, pre) is Some {
            node_at(mem, depth, pre)
        } else if depth == roles[parent].depth + 1 && pre == roles[parent].prefix * 512 + idx {
            Some(linked_node(roles, mem2, parent, idx))
        } else {
            None
        }),
{
    let page = pre * span(depth);
    let up = (depth - 1) as nat;
    let i = index_at(depth - 1, page);
    lemma_first_page(depth, pre);
    lemma_prefix_step(depth, page);
    lemma_linked_walk(mem, roles, mem2, parent, idx, up, page);
    lemma_walk_roles(mem, roles, up, page);
    lemma_walk_roles(mem, roles, roles[parent].depth as nat, anchor);
    match table_at(mem, up, page) {
        Some(t) => {
            if t == parent && i == idx {
            } else {
                lemma_linked_child(mem, roles, mem2, parent, idx, t, i);
                if depth == roles[parent].depth + 1 && pre == roles[parent].prefix * 512 + idx {
                    lemma_walk_prefix(mem, up, page, anchor);
                }
            }
        },
        None => {
            if table_at(mem2, up, page) is Some {
                assert(child(mem2, roles.len() as int, i) is None);
            }
            if depth == roles[parent].depth + 1 && pre == roles[parent].prefix * 512 + idx {
                lemma_walk_prefix(mem, up, page, anchor);
            }
        },
    }
}

/// The address space after a frame was hung into the tree: one node more,
/// one free frame less.
pub proof fn lemma_linked_space(
    mem: Seq<u8>,
    roles: Seq<FrameRole>,
    mem2: Seq<u8>,
    parent: int,
    idx: int,
    anchor: int,
    top: int,
)
    requires
        linked(mem, roles, mem2, parent, idx),
        0 <= anchor < 0x10_0000_0000,
        table_at(mem, roles[parent].depth as nat, anchor) == Some(parent),
        idx == index_at(roles[parent].depth, anchor),
        top == roles.len() * 4096,
    ensures
        address_space(mem2, top + 4096) == (AddressSpace {
            nodes: address_space(mem, top).nodes.insert(
                (roles[parent].depth + 1, prefix(roles[parent].depth + 1, anchor)),
                linked_node(roles, mem2, parent, idx),
            ),
            next: address_space(mem, top).next + 1,
            frames: address_space(mem, top).frames,
        }),
        !address_space(mem, top).nodes.contains_key(
            (roles[parent].depth + 1, prefix(roles[parent].depth + 1, anchor)),
        ),
{
    let d = roles[parent].depth;
    lemma_walk_roles(mem, roles, d as nat, anchor);
    lemma_prefix_step(d + 1, anchor);
    lemma_node_at(mem, d + 1, anchor);
    let key = (d + 1, prefix(d + 1, anchor));
    let before = address_space(mem, top).nodes;
    let after = address_space(mem2, top + 4096).nodes;
    assert(table_at(mem, (d + 1) as nat, anchor) is None);
    assert forall|k: (int, int)| #[trigger] after.contains_key(k) == before.insert(
        key,
        linked_node(roles, mem2, parent, idx),
    ).contains_key(k) by {
        if 1 <= k.0 <= 4 && 0 <= k.1 < prefix_count(k.0) {
            lemma_linked_node(mem, roles, mem2, parent, idx, anchor, k.0, k.1);
        }
    }
    assert forall|k: (int, int)| #[trigger] after.contains_key(k) implies after[k] == before.insert(
        key,
        linked_node(roles, mem2, parent, idx),
    )[k] by {
        lemma_linked_node(mem, roles, mem2, parent, idx, anchor, k.0, k.1);
    }
    assert(after =~= before.insert(key, linked_node(roles, mem2, parent, idx)));
}


/// Growing a path by one node more is growing it and inserting that node.
pub proof fn lemma_grow_step(
    space: AddressSpace,
    page: int,
    from: int,
    depth: int,
    perms: PagePermissions,
    node: NodeView,
)
    requires
        from <= depth < 4,
        !space.grow(page, from, depth, perms).nodes.contains_key(
            (depth + 1, prefix(depth + 1, page)),
        ),
        node == (NodeView {
            frame: space.next + depth - from,
            writable: depth < 3 || perms.spec_writable(),
            executable: depth < 3 || perms.spec_executable(),
        }),
    ensures
        space.grow(page, from, depth + 1, perms) == (AddressSpace {
            nodes: space.grow(page, from, depth, perms).nodes.insert(
                (depth + 1, prefix(depth + 1, page)),
                node,
            ),
            next: space.grow(page, from, depth, perms).next + 1,
            frames: space.frames,
        }),
{
    let key = (depth + 1, prefix(depth + 1, page));
    let goal = space.grow(page, from, depth + 1, perms).nodes;
    let got = space.grow(page, from, depth, perms).nodes.insert(key, node);
    assert forall|k: (int, int)| #[trigger] goal.contains_key(k) == got.contains_key(k) by {}
    assert forall|k: (int, int)| #[trigger] goal.contains_key(k) implies goal[k] == got[k] by {}
    assert(goal =~= got);
}

/// Growing a path by nothing changes nothing.
pub proof fn lemma_grow_none(space: AddressSpace, page: int, from: int, perms: PagePermissions)
    ensures
        space.grow(page, from, from, perms) == space,
{
    assert(space.grow(page, from, from, perms).nodes =~= space.nodes);
}


/// First address of the page that holds `va`.
pub open spec fn page_base(va: u64) -> u64 {
    (va - va % 4096) as u64
}

/// Which of the pages that a range from `va` on touches holds byte `i` of
/// the range.
pub open spec fn page_index(va: u64, i: int) -> int {
    (va % 4096 + i) / 4096
}

/// The entries that say what a node is and allows are those of the tables.
pub proof fn lemma_same_tables_node(
    mem: Seq<u8>,
    roles: Seq<FrameRole>,
    mem2: Seq<u8>,
    depth: int,
    pre: int,
)
    requires
        same_tables(mem, roles, mem2),
        1 <= depth <= 4,
        0 <= pre < prefix_count(depth),
    ensures
        node_at(mem2, depth, pre) == node_at(mem, depth, pre),
{
    let page = pre * span(depth);
    let up = (depth - 1) as nat;
    lemma_first_page(depth, pre);
    lemma_same_tables_walk(mem, roles, mem2, up, page);
    lemma_walk_roles(mem, roles, up, page);
    lemma_prefix_step(depth, page);
    match table_at(mem, up, page) {
        Some(t) => {
            lemma_same_tables_child(mem, roles, mem2, t, index_at(depth - 1, page));
        },
        None => {},
    }
}

/// Writing into mapped frames leaves the address space as it was.
pub proof fn lemma_same_tables_space(mem: Seq<u8>, roles: Seq<FrameRole>, mem2: Seq<u8>, top: int)
    requires
        same_tables(mem, roles, mem2),
    ensures
        address_space(mem2, top) == address_space(mem, top),
{
    let before = address_space(mem, top).nodes;
    let after = address_space(mem2, top).nodes;
    assert forall|k: (int, int)| #[trigger] after.contains_key(k) == before.contains_key(k) by {
        if 1 <= k.0 <= 4 && 0 <= k.1 < prefix_count(k.0) {
            lemma_same_tables_node(mem, roles, mem2, k.0, k.1);
        }
    }
    assert forall|k: (int, int)| #[trigger] after.contains_key(k) implies after[k] == before[k] by {
        lemma_same_tables_node(mem, roles, mem2, k.0, k.1);
    }
    assert(after =~= before);
}

/// In well-formed tables a mapped page has a frame of its own, which holds
/// no table.
pub proof fn lemma_mapped_frame(mem: Seq<u8>, roles: Seq<FrameRole>, top: int, va: u64)
    requires
        tables_wf(mem, roles),
        address_space(mem, top).is_mapped(va),
    ensures
        0 <= address_space(mem, top).frame(va) < roles.len(),
        roles[address_space(mem, top).frame(va)] == (FrameRole { depth: 4, prefix: vpn(va) }),
{
    lemma_space_has(mem, top, 4, vpn(va));
    lemma_walk_roles(mem, roles, 4, vpn(va));
}


impl AddressSpace {
    /// Mapping a page maps it and keeps mapped what was mapped, in the same
    /// frames.
    pub proof fn lemma_map_page_keeps(self, va: u64, perms: PagePermissions, other: u64)
        requires
            self.map_page_result(va) is Ok,
        ensures
            self.map_page(va, perms).is_mapped(va),
            self.map_page(va, perms).frame(va) == self.next + 3 - self.reached(vpn(va)),
            self.is_mapped(other) ==> self.map_page(va, perms).is_mapped(other) && self.map_page(
                va,
                perms,
            ).frame(other) == self.frame(other),
            self.map_page(va, perms).is_mapped(other) ==> self.is_mapped(other) || vpn(other)
                == vpn(va),
    {
    }

    /// Mapping pages in order keeps mapped what was mapped, in the same
    /// frames, whether or not all of them could be mapped.
    pub proof fn lemma_map_pages_keeps(self, va: int, pages: nat, perms: PagePermissions, other: u64)
        requires
            self.is_mapped(other),
        ensures
            self.map_pages(va, pages, perms).0.is_mapped(other),
            self.map_pages(va, pages, perms).0.frame(other) == self.frame(other),
        decreases pages,
    {
        if pages > 0 && self.map_page_result(va as u64) is Ok {
            self.lemma_map_page_keeps(va as u64, perms, other);
            self.map_page(va as u64, perms).lemma_map_pages_keeps(
                va + 4096,
                (pages - 1) as nat,
                perms,
                other,
            );
        }
    }

    /// Where mapping pages in order succeeds, each of them is mapped after.
    pub proof fn lemma_map_pages_maps(self, va: int, pages: nat, perms: PagePermissions, j: int)
        requires
            self.map_pages(va, pages, perms).1 is Ok,
            0 <= j < pages,
            0 <= va,
            va + pages * 4096 <= 0x1_0000_0000_0000_0000,
        ensures
            self.map_pages(va, pages, perms).0.is_mapped((va + j * 4096) as u64),
        decreases pages,
    {
        let next = self.map_page(va as u64, perms);
        if j == 0 {
            self.lemma_map_page_keeps(va as u64, perms, va as u64);
            next.lemma_map_pages_keeps(va + 4096, (pages - 1) as nat, perms, va as u64);
        } else {
            next.lemma_map_pages_maps(va + 4096, (pages - 1) as nat, perms, j - 1);
        }
    }

    /// A range has a mapped page exactly where one of its pages is mapped,
    /// and the one found is the first of them.
    pub proof fn lemma_collision(self, va: int, pages: nat)
        requires
            0 <= va,
            va + pages * 4096 <= 0x1_0000_0000_0000_0000,
        ensures
            self.collision(va, pages) is None <==> forall|j: int|
                0 <= j < pages ==> !self.is_mapped(#[trigger] page_va(va, j)),
            self.collision(va, pages) matches Some(page) ==> exists|j: int|
                #![trigger page_va(va, j)]
                0 <= j < pages && page == page_va(va, j) && self.is_mapped(page) && forall|k: int|
                    0 <= k < j ==> !self.is_mapped(#[trigger] page_va(va, k)),
        decreases pages,
    {
        if pages > 0 {
            if self.is_mapped(va as u64) {
                assert(page_va(va, 0) == va as u64);
                assert(0 <= 0 < pages && self.is_mapped(page_va(va, 0)));
            } else {
                self.lemma_collision(va + 4096, (pages - 1) as nat);
                if self.collision(va + 4096, (pages - 1) as nat) is None {
                    assert forall|j: int| 0 <= j < pages implies !self.is_mapped(
                        #[trigger] page_va(va, j),
                    ) by {
                        if j > 0 {
                            assert(page_va(va + 4096, j - 1) == page_va(va, j));
                        }
                    }
                } else {
                    let page = self.collision(va + 4096, (pages - 1) as nat).unwrap();
                    let j0 = choose|j: int|
                        #![trigger page_va(va + 4096, j)]
                        0 <= j < pages - 1 && page == page_va(va + 4096, j) && self.is_mapped(page)
                            && forall|k: int|
                            0 <= k < j ==> !self.is_mapped(#[trigger] page_va(va + 4096, k));
                    assert(page == page_va(va, j0 + 1));
                    assert forall|k: int| 0 <= k < j0 + 1 implies !self.is_mapped(
                        #[trigger] page_va(va, k),
                    ) by {
                        if k > 0 {
                            assert(page_va(va + 4096, k - 1) == page_va(va, k));
                        }
                    }
                    assert(self.is_mapped(page_va(va, j0 + 1)));
                }
            }
        }
    }

    /// After a range was mapped, each of its pages is mapped, and what was
    /// mapped before is mapped as it was.
    pub proof fn lemma_mmap_maps(self, va: int, pages: nat, perms: PagePermissions)
        requires
            0 <= va,
            va + pages * 4096 <= 0x1_0000_0000_0000_0000,
            self.mmap(va, pages, perms).1 is Ok,
        ensures
            forall|j: int|
                0 <= j < pages ==> self.mmap(va, pages, perms).0.is_mapped(
                    #[trigger] page_va(va, j),
                ),
            forall|other: u64|
                self.is_mapped(other) ==> self.mmap(va, pages, perms).0.is_mapped(other)
                    && self.mmap(va, pages, perms).0.frame(other) == self.frame(other),
    {
        assert forall|j: int| 0 <= j < pages implies self.mmap(va, pages, perms).0.is_mapped(
            #[trigger] page_va(va, j),
        ) by {
            self.lemma_map_pages_maps(va, pages, perms, j);
        }
        assert forall|other: u64| self.is_mapped(other) implies self.mmap(
            va,
            pages,
            perms,
        ).0.is_mapped(other) && self.mmap(va, pages, perms).0.frame(other) == self.frame(other) by {
            self.lemma_map_pages_keeps(va, pages, perms, other);
        }
    }

    /// Mapping a range that holds a mapped page is refused with
    /// `AddressAlreadyMapped` and maps nothing. So it is for each range that
    /// shares a page with one that was mapped before.
    pub proof fn lemma_mmap_overlap(self, va: int, pages: nat, perms: PagePermissions, j: int)
        requires
            0 <= va,
            va + pages * 4096 <= 0x1_0000_0000_0000_0000,
            0 <= j < pages,
            self.is_mapped(page_va(va, j)),
        ensures
            self.mmap(va, pages, perms).0 == self,
            self.mmap(va, pages, perms).1 matches Err(VMMemoryError::AddressAlreadyMapped(page))
                && self.is_mapped(page),
    {
        self.lemma_collision(va, pages);
    }
}

/// The address of the page `j` pages after the one at `va`.
pub open spec fn page_va(va: int, j: int) -> u64 {
    (va + j * 4096) as u64
}


/// The address of page `j` of the pages that a range from `va` on touches.
pub open spec fn range_page(va: u64, j: int) -> u64 {
    (va - va % 4096 + j * 4096) as u64
}

/// Byte `i` of a range lies in page `page_index` of the range, at the offset
/// that its address has in a page.
pub proof fn lemma_byte_page(va: u64, len: int, i: int)
    requires
        0 <= i < len,
        va + len <= u64::MAX + 1,
    ensures
        0 <= page_index(va, i) < page_count(va, len),
        vpn(byte_va(va, i)) == vpn(range_page(va, page_index(va, i))),
        byte_va(va, i) % 4096 == (va % 4096 + i) % 4096,
        byte_va(va, i) == va + i,
{
}

/// The first byte of a range in page `j` of the range.
pub open spec fn first_in_page(va: u64, j: int) -> int {
    if j == 0 {
        0
    } else {
        j * 4096 - va % 4096
    }
}

/// Page `j` of a range holds a byte of the range, and the bytes before the
/// first of them lie in the pages before.
pub proof fn lemma_page_bytes(va: u64, len: int, j: int)
    requires
        0 <= j < page_count(va, len),
        va + len <= u64::MAX + 1,
    ensures
        0 <= first_in_page(va, j) < len,
        page_index(va, first_in_page(va, j)) == j,
        page_base(byte_va(va, first_in_page(va, j))) == range_page(va, j),
        forall|k: int| 0 <= k < first_in_page(va, j) ==> 0 <= #[trigger] page_index(va, k) < j,
{
}

impl AddressSpace {
    /// Whether a page is mapped, and where, depends on its number alone.
    pub proof fn lemma_same_page(self, a: u64, b: u64)
        requires
            vpn(a) == vpn(b),
        ensures
            self.is_mapped(a) == self.is_mapped(b),
            self.frame(a) == self.frame(b),
    {
    }

    /// Where page `j` of a range is the first that is not mapped, its first
    /// byte in the range is the first byte of the range that is not mapped.
    pub proof fn lemma_first_unmapped(self, va: u64, len: int, j: int)
        requires
            0 <= j < page_count(va, len),
            va + len <= u64::MAX + 1,
            !self.is_mapped(range_page(va, j)),
            forall|k: int| 0 <= k < j ==> self.is_mapped(#[trigger] range_page(va, k)),
        ensures
            self.first_unmapped(va, len, first_in_page(va, j)),
            page_base(byte_va(va, first_in_page(va, j))) == range_page(va, j),
    {
        let i = first_in_page(va, j);
        lemma_page_bytes(va, len, j);
        lemma_byte_page(va, len, i);
        self.lemma_same_page(byte_va(va, i), range_page(va, j));
        assert forall|k: int| 0 <= k < i implies self.is_mapped(#[trigger] byte_va(va, k)) by {
            lemma_byte_page(va, len, k);
            assert(0 <= page_index(va, k) < j);
            assert(self.is_mapped(range_page(va, page_index(va, k))));
            self.lemma_same_page(byte_va(va, k), range_page(va, page_index(va, k)));
        }
    }
}


/// The bytes of a page have the page's number.
pub proof fn lemma_in_page(va: u64, i: int)
    requires
        va % 4096 == 0,
        0 <= i < 4096,
        va + 4096 <= u64::MAX + 1,
    ensures
        vpn(byte_va(va, i)) == vpn(va),
{
}


} // verus!
