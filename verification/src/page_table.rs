//! Architecture-independent four-level page tables.
//!
//! A page table is a root table of 512 entries held by value; the tables
//! below it live in physical memory, modelled by [`TableMemory`]: a map from
//! the physical address of a page to the 512 entries stored there. A page that
//! holds no table reads as all zeros.
use vstd::prelude::*;
use std::collections::HashMap;
use core::marker::PhantomData;
use crate::types::{PhysAddr, PagePermission, MapType};
use crate::table_tree::{tree_ok, in_range, diverge, leaf, lemma_install_keeps_tree, lemma_install_keeps_other_pages};

verus! {

broadcast use vstd::std_specs::hash::group_hash_axioms;

/// Number of entries in each table.
pub const ENTRIES_PER_LEVEL: usize = 512;

/// The bits of an entry that hold a physical page address.
pub const ADDR_MASK: u64 = 0x000f_ffff_ffff_f000;

/// A page-aligned physical address inside the 52-bit physical address space.
pub open spec fn is_frame(addr: u64) -> bool {
    addr & !ADDR_MASK == 0
}

/// The bit position where the index of `level` starts in a virtual address.
pub open spec fn shift_of(level: int) -> u64 {
    ((3 - level) * 9 + 12) as u64
}

/// The index into the table of `level` (0 is the root) used for `virt`.
pub open spec fn index_of(virt: u64, level: int) -> int {
    ((virt >> shift_of(level)) & 0x1ff) as int
}

/// The bits of `virt` below the index of `level`: the offset inside a page
/// or block mapped at that level.
pub open spec fn offset_in(virt: u64, level: int) -> u64 {
    virt & (((1u64 << shift_of(level)) - 1) as u64)
}

/// Encoding of page-table entries for one architecture.
pub trait PageTableSpecific {
    /// Whether the entry is present.
    spec fn spec_is_valid(e: u64) -> bool;
    /// Whether the entry points at a next-level table (or, at the last level, a page).
    spec fn spec_is_table(e: u64) -> bool;
    /// The entry bits for an access permission.
    spec fn spec_map_perms(perm: PagePermission) -> u64;
    /// The entry bits for a memory type.
    spec fn spec_map_type(ty: MapType) -> u64;
    /// Flags of every 4 KiB page entry.
    spec fn spec_page_default_flags() -> u64;
    /// Flags of every table entry.
    spec fn spec_table_default_flags() -> u64;
    /// Flags of every block (2 MiB, 1 GiB) entry.
    spec fn spec_block_default_flags() -> u64;
    /// The entry with the given flags and physical address.
    spec fn spec_new_entry(flags: u64, addr: u64) -> u64;
    /// The physical address held by an entry.
    spec fn spec_get_addr(e: u64) -> u64;

    fn is_valid(e: u64) -> (r: bool)
        ensures
            r == Self::spec_is_valid(e),
    ;

    fn is_table(e: u64) -> (r: bool)
        ensures
            r == Self::spec_is_table(e),
    ;

    fn map_perms(perm: PagePermission) -> (r: u64)
        ensures
            r == Self::spec_map_perms(perm),
    ;

    fn map_type(ty: MapType) -> (r: u64)
        ensures
            r == Self::spec_map_type(ty),
    ;

    fn get_page_default_flags() -> (r: u64)
        ensures
            r == Self::spec_page_default_flags(),
    ;

    fn get_table_default_flags() -> (r: u64)
        ensures
            r == Self::spec_table_default_flags(),
    ;

    fn get_block_default_flags() -> (r: u64)
        ensures
            r == Self::spec_block_default_flags(),
    ;

    fn new_entry(flags: u64, addr: PhysAddr) -> (r: u64)
        ensures
            r == Self::spec_new_entry(flags, addr.0),
    ;

    fn get_addr(e: u64) -> (r: PhysAddr)
        ensures
            r.0 == Self::spec_get_addr(e),
    ;

    /// An address read from an entry is a frame.
    proof fn lemma_get_addr_is_frame(e: u64)
        ensures
            is_frame(Self::spec_get_addr(e)),
    ;

    /// An all-zero entry is not present.
    proof fn lemma_zero_is_invalid()
        ensures
            !Self::spec_is_valid(0),
    ;

    /// Law: an entry built from a frame gives that frame back.
    proof fn lemma_entry_addr(flags: u64, addr: u64)
        requires
            is_frame(addr),
        ensures
            Self::spec_get_addr(Self::spec_new_entry(flags, addr)) == addr,
    ;

    /// A table entry for a frame is a present table pointing at that frame.
    proof fn lemma_table_entry(addr: u64)
        requires
            is_frame(addr),
        ensures
            Self::spec_is_valid(Self::spec_new_entry(Self::spec_table_default_flags(), addr)),
            Self::spec_is_table(Self::spec_new_entry(Self::spec_table_default_flags(), addr)),
            Self::spec_get_addr(Self::spec_new_entry(Self::spec_table_default_flags(), addr)) == addr,
    ;

    /// A 4 KiB page entry for a frame is present, page-typed and points at the frame.
    proof fn lemma_page_entry(perm: PagePermission, ty: MapType, addr: u64)
        requires
            is_frame(addr),
        ensures
            Self::spec_is_valid(Self::spec_new_entry((Self::spec_page_default_flags() | Self::spec_map_perms(perm) | Self::spec_map_type(ty)), addr)),
            Self::spec_is_table(Self::spec_new_entry((Self::spec_page_default_flags() | Self::spec_map_perms(perm) | Self::spec_map_type(ty)), addr)),
            Self::spec_get_addr(Self::spec_new_entry((Self::spec_page_default_flags() | Self::spec_map_perms(perm) | Self::spec_map_type(ty)), addr)) == addr,
    ;

    /// A block entry for a frame is present and points at the frame.
    proof fn lemma_block_entry(perm: PagePermission, ty: MapType, addr: u64)
        requires
            is_frame(addr),
        ensures
            Self::spec_is_valid(Self::spec_new_entry((Self::spec_block_default_flags() | Self::spec_map_perms(perm) | Self::spec_map_type(ty)), addr)),
            Self::spec_get_addr(Self::spec_new_entry((Self::spec_block_default_flags() | Self::spec_map_perms(perm) | Self::spec_map_type(ty)), addr)) == addr,
    ;
}

/// The flags of a leaf entry: the default flags with the permission and type bits.
pub open spec fn leaf_flags<T: PageTableSpecific + ?Sized>(default: u64, perm: PagePermission, ty: MapType) -> u64 {
    default | T::spec_map_perms(perm) | T::spec_map_type(ty)
}

/// A source of free physical pages for new tables.
pub trait PhysAlloc {
    fn allocate() -> Option<PhysAddr>;
}

/// The kernel's virtual address of each physical address.
pub trait PhysAccess {
    fn phys_to_virt(p: PhysAddr) -> u64;
}

/// An all-zero table.
pub open spec fn zero_table() -> Seq<u64> {
    Seq::new(512, |i: int| 0u64)
}

/// Physical memory as seen by the page-table code: the pages that hold tables.
pub struct TableMemory {
    tables: HashMap<u64, Vec<u64>>,
}

/// A table of 512 zero entries.
fn zero_vec() -> (z: Vec<u64>)
    ensures
        z@ == zero_table(),
{
    let mut z: Vec<u64> = Vec::new();
    while z.len() < 512
        invariant
            z.len() <= 512,
            forall|j: int| 0 <= j < z.len() ==> z@[j] == 0,
        decreases 512 - z.len(),
    {
        z.push(0);
    }
    assert(z@ =~= zero_table());
    z
}

impl TableMemory {
    /// Whether a table has been stored in the page at `a`.
    pub closed spec fn holds(self, a: u64) -> bool {
        self.tables@.contains_key(a)
    }

    /// The 512 entries stored in the page at `a`; zeros where no table is held.
    pub closed spec fn page(self, a: u64) -> Seq<u64> {
        if self.tables@.contains_key(a) && self.tables@[a]@.len() == 512 {
            self.tables@[a]@
        } else {
            zero_table()
        }
    }

    /// A page that holds no table reads as zeros.
    pub proof fn lemma_unheld_is_zero(self, a: u64)
        requires
            !self.holds(a),
        ensures
            self.page(a) == zero_table(),
    {
    }

    /// Memory with no tables.
    pub fn new() -> (r: TableMemory)
        ensures
            forall|a: u64| !r.holds(a),
            forall|a: u64| r.page(a) == zero_table(),
    {
        TableMemory { tables: HashMap::new() }
    }

    /// Whether a table has been stored in the page at `a`.
    pub fn holds_table(&self, a: u64) -> (r: bool)
        ensures
            r == self.holds(a),
    {
        self.tables.contains_key(&a)
    }

    /// Reads entry `i` of the page at `a`.
    pub fn read(&self, a: u64, i: usize) -> (r: u64)
        requires
            i < 512,
        ensures
            r == self.page(a)[i as int],
    {
        match self.tables.get(&a) {
            Some(v) => {
                if v.len() == 512 {
                    v[i]
                } else {
                    0
                }
            },
            None => 0,
        }
    }

    /// Writes entry `i` of the page at `a`, which afterwards holds a table.
    pub fn write(&mut self, a: u64, i: usize, value: u64)
        requires
            i < 512,
        ensures
            final(self).holds(a),
            final(self).page(a) == old(self).page(a).update(i as int, value),
            forall|b: u64| b != a ==> final(self).holds(b) == old(self).holds(b),
            forall|b: u64| b != a ==> final(self).page(b) == old(self).page(b),
    {
        let ghost before = self.page(a);
        let mut v = match self.tables.remove(&a) {
            Some(v) => {
                if v.len() == 512 {
                    v
                } else {
                    zero_vec()
                }
            },
            None => zero_vec(),
        };
        assert(v@ == before);
        v.set(i, value);
        self.tables.insert(a, v);
        assert(self.page(a) =~= before.update(i as int, value));
    }

    /// Stores the table `entries` in the page at `a`.
    pub fn install(&mut self, a: u64, entries: Vec<u64>)
        requires
            entries@.len() == 512,
        ensures
            final(self).holds(a),
            final(self).page(a) == entries@,
            forall|b: u64| b != a ==> final(self).holds(b) == old(self).holds(b),
            forall|b: u64| b != a ==> final(self).page(b) == old(self).page(b),
    {
        self.tables.insert(a, entries);
    }

    /// Stores an all-zero table in the page at `a`.
    pub fn install_zero(&mut self, a: u64)
        ensures
            final(self).holds(a),
            final(self).page(a) == zero_table(),
            forall|b: u64| b != a ==> final(self).holds(b) == old(self).holds(b),
            forall|b: u64| b != a ==> final(self).page(b) == old(self).page(b),
    {
        let z = zero_vec();
        self.tables.insert(a, z);
    }
}

/// Where a table on the path toward a virtual address lives.
pub enum TableLoc {
    /// The root table, held by the `PageTable` itself.
    Root,
    /// A table stored in the physical page at this address.
    Page(u64),
    /// The path stopped at an entry that is not present.
    Missing,
}

/// The entries of the table at `loc`.
pub open spec fn table_of(root: Seq<u64>, mem: TableMemory, loc: TableLoc) -> Seq<u64> {
    match loc {
        TableLoc::Root => root,
        TableLoc::Page(a) => mem.page(a),
        TableLoc::Missing => zero_table(),
    }
}

/// The location named by an optional page address: `None` is the root.
pub open spec fn loc_of(cur: Option<u64>) -> TableLoc {
    match cur {
        Some(a) => TableLoc::Page(a),
        None => TableLoc::Root,
    }
}

/// The table reached at `level` (0 is the root) when following every present
/// entry on the path toward `virt`, the way mappings are installed.
pub open spec fn loc_at<T: PageTableSpecific>(root: Seq<u64>, mem: TableMemory, virt: u64, level: nat) -> TableLoc
    decreases level,
{
    if level == 0 {
        TableLoc::Root
    } else {
        let prev = loc_at::<T>(root, mem, virt, (level - 1) as nat);
        if prev is Missing {
            TableLoc::Missing
        } else {
            let e = table_of(root, mem, prev)[index_of(virt, level - 1)];
            if T::spec_is_valid(e) {
                TableLoc::Page(T::spec_get_addr(e))
            } else {
                TableLoc::Missing
            }
        }
    }
}

/// The outcome of translating a virtual address.
pub enum Walk {
    /// The address translates to this physical address.
    Mapped(u64),
    /// No present entry maps the address.
    Unmapped,
    /// The last-level entry is present but is not a page: the tables are broken.
    Broken,
}

/// The translation of `virt` by the hardware-style walk that starts at `level`
/// in `table`: table entries are followed, a block or page entry ends the walk.
pub open spec fn walk_from<T: PageTableSpecific>(mem: TableMemory, table: Seq<u64>, virt: u64, level: nat) -> Walk
    decreases 3 - level,
{
    let e = table[index_of(virt, level as int)];
    if !T::spec_is_valid(e) {
        Walk::Unmapped
    } else if level >= 3 {
        if T::spec_is_table(e) {
            Walk::Mapped((T::spec_get_addr(e) + offset_in(virt, 3)) as u64)
        } else {
            Walk::Broken
        }
    } else if T::spec_is_table(e) {
        walk_from::<T>(mem, mem.page(T::spec_get_addr(e)), virt, level + 1)
    } else {
        Walk::Mapped((T::spec_get_addr(e) + offset_in(virt, level as int)) as u64)
    }
}

/// The translation of `virt` by the tables rooted at `root`.
pub open spec fn translate<T: PageTableSpecific>(root: Seq<u64>, mem: TableMemory, virt: u64) -> Walk {
    walk_from::<T>(mem, root, virt, 0)
}

/// The index computation on virtual addresses picks 9 bits.
proof fn lemma_index_bits(virt: u64, off: u64)
    ensures
        (virt >> off) & 0x1ff < 512,
        off <= 39 ==> (virt & (0x1ffu64 << off)) >> off == (virt >> off) & 0x1ff,
        off <= 39 ==> (1u64 << off) >= 1,
        off <= 39 ==> virt & (((1u64 << off) - 1) as u64) < 0x100_0000_0000u64,
{
    assert(((virt >> off) & 0x1ff < 512)
        && (off <= 39 ==> (virt & (0x1ffu64 << off)) >> off == (virt >> off) & 0x1ff)
        && (off <= 39 ==> (1u64 << off) >= 1)
        && (off <= 39 ==> virt & (((1u64 << off) - 1) as u64) < 0x100_0000_0000u64)) by (bit_vector);
}

/// A frame plus an in-block offset does not overflow.
proof fn lemma_frame_plus_offset(a: u64, o: u64)
    requires
        is_frame(a),
        o < 0x100_0000_0000u64,
    ensures
        a + o <= u64::MAX,
{
    assert(a + o <= u64::MAX) by (bit_vector)
        requires a & !ADDR_MASK == 0, o < 0x100_0000_0000u64;
}

/// Every table page on the path toward `virt`, down to `level`, is held in
/// memory and appears once, and every present entry that the path follows
/// above `level` is a table entry.
pub open spec fn path_sound<T: PageTableSpecific>(root: Seq<u64>, mem: TableMemory, virt: u64, level: nat) -> bool {
    &&& forall|l: nat| #![trigger loc_at::<T>(root, mem, virt, l)]
        l < level && !(loc_at::<T>(root, mem, virt, l) is Missing)
            && T::spec_is_valid(table_of(root, mem, loc_at::<T>(root, mem, virt, l))[index_of(virt, l as int)])
            ==> T::spec_is_table(table_of(root, mem, loc_at::<T>(root, mem, virt, l))[index_of(virt, l as int)])
    &&& forall|j: nat| #![trigger loc_at::<T>(root, mem, virt, j)]
        1 <= j <= level && loc_at::<T>(root, mem, virt, j) is Page
            ==> mem.holds(loc_at::<T>(root, mem, virt, j)->Page_0)
    &&& forall|j: nat, k: nat| #![trigger loc_at::<T>(root, mem, virt, j), loc_at::<T>(root, mem, virt, k)]
        1 <= j < k <= level && loc_at::<T>(root, mem, virt, j) is Page && loc_at::<T>(root, mem, virt, k) is Page
            ==> loc_at::<T>(root, mem, virt, j) != loc_at::<T>(root, mem, virt, k)
}

/// The path toward `virt` reaches a table at `level`: every entry above it is
/// a present table entry, and the table pages on it are held and distinct.
pub open spec fn path_ok<T: PageTableSpecific>(root: Seq<u64>, mem: TableMemory, virt: u64, level: nat) -> bool {
    &&& forall|l: nat| #![trigger loc_at::<T>(root, mem, virt, l)]
        l < level ==> {
            &&& !(loc_at::<T>(root, mem, virt, l) is Missing)
            &&& T::spec_is_valid(table_of(root, mem, loc_at::<T>(root, mem, virt, l))[index_of(virt, l as int)])
            &&& T::spec_is_table(table_of(root, mem, loc_at::<T>(root, mem, virt, l))[index_of(virt, l as int)])
        }
    &&& !(loc_at::<T>(root, mem, virt, level) is Missing)
    &&& forall|j: nat| #![trigger loc_at::<T>(root, mem, virt, j)]
        1 <= j <= level ==> loc_at::<T>(root, mem, virt, j) is Page
            && mem.holds(loc_at::<T>(root, mem, virt, j)->Page_0)
    &&& forall|j: nat, k: nat| #![trigger loc_at::<T>(root, mem, virt, j), loc_at::<T>(root, mem, virt, k)]
        1 <= j < k <= level ==> loc_at::<T>(root, mem, virt, j) != loc_at::<T>(root, mem, virt, k)
}

/// The page at `b` is one of the tables on the path toward `virt` below the root.
pub open spec fn on_path<T: PageTableSpecific>(root: Seq<u64>, mem: TableMemory, virt: u64, level: nat, b: u64) -> bool {
    exists|j: nat| 1 <= j <= level && #[trigger] loc_at::<T>(root, mem, virt, j) == TableLoc::Page(b)
}

/// Every entry on the path toward `virt` above `level` is present.
pub open spec fn path_present<T: PageTableSpecific>(root: Seq<u64>, mem: TableMemory, virt: u64, level: nat) -> bool {
    forall|l: nat| #![trigger loc_at::<T>(root, mem, virt, l)]
        l <= level ==> !(loc_at::<T>(root, mem, virt, l) is Missing)
}

/// `entry` sits at `level` on the path toward `virt`, below present table entries.
pub open spec fn placed<T: PageTableSpecific>(root: Seq<u64>, mem: TableMemory, virt: u64, level: nat, entry: u64) -> bool {
    &&& path_ok::<T>(root, mem, virt, level)
    &&& table_of(root, mem, loc_at::<T>(root, mem, virt, level))[index_of(virt, level as int)] == entry
}

/// Pages that hold a table now but did not in `old` only point at such pages.
pub open spec fn fresh_closed<T: PageTableSpecific>(old: TableMemory, mem: TableMemory) -> bool {
    forall|b: u64, i: int| #![trigger mem.page(b)[i]]
        mem.holds(b) && !old.holds(b) && 0 <= i < 512 && T::spec_is_valid(mem.page(b)[i])
            ==> !old.holds(T::spec_get_addr(mem.page(b)[i]))
}

/// Two memory states hold the same entries, except where `bad` says otherwise.
pub open spec fn agrees_outside(r1: Seq<u64>, m1: TableMemory, r2: Seq<u64>, m2: TableMemory, bad: spec_fn(TableLoc, int) -> bool) -> bool {
    forall|l: TableLoc, j: int| 0 <= j < 512 && !bad(l, j) ==> #[trigger] table_of(r2, m2, l)[j] == table_of(r1, m1, l)[j]
}

/// The entry at `level` on the path toward `virt` (in the new tables `nr`,
/// `nm`) is one that installing a mapping at `fin` writes: the leaf entry, or
/// a table entry created where the old tables `or`, `om` had none.
pub open spec fn path_write<T: PageTableSpecific>(
    nr: Seq<u64>, nm: TableMemory, or: Seq<u64>, om: TableMemory, virt: u64, level: nat, fin: nat, l: TableLoc, j: int,
) -> bool {
    &&& level <= fin
    &&& l == loc_at::<T>(nr, nm, virt, level)
    &&& j == index_of(virt, level as int)
    &&& (level == fin || loc_at::<T>(or, om, virt, level + 1) is Missing)
}

/// Entry `j` of the table at `l` is written above level `n` when installing a
/// mapping for `virt` at `fin`.
pub open spec fn written<T: PageTableSpecific>(
    nr: Seq<u64>, nm: TableMemory, or: Seq<u64>, om: TableMemory, virt: u64, n: nat, fin: nat, l: TableLoc, j: int,
) -> bool {
    ||| (n > 0 && path_write::<T>(nr, nm, or, om, virt, 0, fin, l, j))
    ||| (n > 1 && path_write::<T>(nr, nm, or, om, virt, 1, fin, l, j))
    ||| (n > 2 && path_write::<T>(nr, nm, or, om, virt, 2, fin, l, j))
    ||| (n > 3 && path_write::<T>(nr, nm, or, om, virt, 3, fin, l, j))
}

/// How a successful installation of a mapping for `virt` at `fin` relates the
/// new tables to the old: only the entries of `written` differ, the path keeps
/// the tables it had, and where it had none it now runs through pages that
/// held no table before.
pub open spec fn installed<T: PageTableSpecific>(
    or: Seq<u64>, om: TableMemory, nr: Seq<u64>, nm: TableMemory, virt: u64, fin: nat,
) -> bool {
    &&& agrees_outside(or, om, nr, nm, |l: TableLoc, j: int| written::<T>(nr, nm, or, om, virt, fin + 1, fin, l, j))
    &&& forall|m: nat| #![trigger loc_at::<T>(nr, nm, virt, m)]
        m <= fin && !(loc_at::<T>(or, om, virt, m) is Missing)
            ==> loc_at::<T>(nr, nm, virt, m) == loc_at::<T>(or, om, virt, m)
    &&& forall|m: nat| #![trigger loc_at::<T>(nr, nm, virt, m)]
        1 <= m <= fin && loc_at::<T>(or, om, virt, m) is Missing
            ==> loc_at::<T>(nr, nm, virt, m) is Page && !om.holds(loc_at::<T>(nr, nm, virt, m)->Page_0)
}

/// Indices are below 512.
pub(crate) proof fn lemma_index_range(virt: u64, level: int)
    ensures
        0 <= index_of(virt, level) < 512,
{
    lemma_index_bits(virt, shift_of(level));
}

/// Where the entries read along a path agree, the path itself agrees.
proof fn lemma_loc_at_frame<T: PageTableSpecific>(
    r1: Seq<u64>, m1: TableMemory, r2: Seq<u64>, m2: TableMemory, virt: u64, k: nat,
    bad: spec_fn(TableLoc, int) -> bool,
)
    requires
        agrees_outside(r1, m1, r2, m2, bad),
        forall|l: nat| l < k ==> !bad(#[trigger] loc_at::<T>(r1, m1, virt, l), index_of(virt, l as int)),
    ensures
        forall|l: nat| l <= k ==> #[trigger] loc_at::<T>(r2, m2, virt, l) == loc_at::<T>(r1, m1, virt, l),
    decreases k,
{
    if k > 0 {
        lemma_loc_at_frame::<T>(r1, m1, r2, m2, virt, (k - 1) as nat, bad);
        let prev = loc_at::<T>(r1, m1, virt, (k - 1) as nat);
        assert(loc_at::<T>(r2, m2, virt, (k - 1) as nat) == prev);
        lemma_index_range(virt, k - 1);
        assert(!bad(prev, index_of(virt, k - 1)));
        assert(table_of(r2, m2, prev)[index_of(virt, k - 1)] == table_of(r1, m1, prev)[index_of(virt, k - 1)]);
        assert(loc_at::<T>(r2, m2, virt, k) == loc_at::<T>(r1, m1, virt, k));
        assert forall|l: nat| l <= k implies #[trigger] loc_at::<T>(r2, m2, virt, l) == loc_at::<T>(r1, m1, virt, l) by {
            if l < k {
                assert(l <= (k - 1) as nat);
            }
        }
    }
}

/// A change outside the path keeps a good path good.
proof fn lemma_path_ok_frame<T: PageTableSpecific>(
    r1: Seq<u64>, m1: TableMemory, r2: Seq<u64>, m2: TableMemory, virt: u64, k: nat,
    bad: spec_fn(TableLoc, int) -> bool,
)
    requires
        path_ok::<T>(r1, m1, virt, k),
        agrees_outside(r1, m1, r2, m2, bad),
        forall|l: nat| l < k ==> !bad(#[trigger] loc_at::<T>(r1, m1, virt, l), index_of(virt, l as int)),
        forall|b: u64| m1.holds(b) ==> m2.holds(b),
    ensures
        path_ok::<T>(r2, m2, virt, k),
        forall|l: nat| l <= k ==> #[trigger] loc_at::<T>(r2, m2, virt, l) == loc_at::<T>(r1, m1, virt, l),
{
    lemma_loc_at_frame::<T>(r1, m1, r2, m2, virt, k, bad);
    assert forall|l: nat| #![trigger loc_at::<T>(r2, m2, virt, l)] l < k implies {
            &&& !(loc_at::<T>(r2, m2, virt, l) is Missing)
            &&& T::spec_is_valid(table_of(r2, m2, loc_at::<T>(r2, m2, virt, l))[index_of(virt, l as int)])
            &&& T::spec_is_table(table_of(r2, m2, loc_at::<T>(r2, m2, virt, l))[index_of(virt, l as int)])
        } by {
        let loc = loc_at::<T>(r1, m1, virt, l);
        assert(loc_at::<T>(r2, m2, virt, l) == loc);
        lemma_index_range(virt, l as int);
        assert(!bad(loc, index_of(virt, l as int)));
    }
    assert forall|j: nat| #![trigger loc_at::<T>(r2, m2, virt, j)] 1 <= j <= k implies loc_at::<T>(r2, m2, virt, j) is Page
            && m2.holds(loc_at::<T>(r2, m2, virt, j)->Page_0) by {
        assert(loc_at::<T>(r2, m2, virt, j) == loc_at::<T>(r1, m1, virt, j));
    }
    assert forall|j: nat, kk: nat| #![trigger loc_at::<T>(r2, m2, virt, j), loc_at::<T>(r2, m2, virt, kk)]
        1 <= j < kk <= k implies loc_at::<T>(r2, m2, virt, j) != loc_at::<T>(r2, m2, virt, kk) by {
        assert(loc_at::<T>(r2, m2, virt, j) == loc_at::<T>(r1, m1, virt, j));
        assert(loc_at::<T>(r2, m2, virt, kk) == loc_at::<T>(r1, m1, virt, kk));
    }
}

/// The entry installed for a leaf mapping of `phys`.
pub open spec fn leaf_entry<T: PageTableSpecific>(default: u64, perm: PagePermission, ty: MapType, phys: u64) -> u64 {
    T::spec_new_entry(leaf_flags::<T>(default, perm, ty), phys)
}

/// The address and low flag bits of an entry built from flags `f` and an
/// address `a`, and how or-ed flags combine.
pub proof fn lemma_entry_bits(f: u64, a: u64, e: u64, d: u64, p: u64, t: u64)
    ensures
        ((f & !ADDR_MASK) | (a & ADDR_MASK)) & ADDR_MASK == a & ADDR_MASK,
        a & !ADDR_MASK == 0 ==> a & ADDR_MASK == a,
        ((f & !ADDR_MASK) | (a & ADDR_MASK)) & 1 == f & 1,
        ((f & !ADDR_MASK) | (a & ADDR_MASK)) & 2 == f & 2,
        (e & ADDR_MASK) & !ADDR_MASK == 0,
        e & 0 == 0,
        0u64 & 1 == 0,
        d & 1 == 1 ==> (d | p | t) & 1 == 1,
        d & 2 == 2 ==> (d | p | t) & 2 == 2,
        d & 2 == 0 && p & 2 == 0 && t & 2 == 0 ==> (d | p | t) & 2 == 0,
{
    assert(((f & !ADDR_MASK) | (a & ADDR_MASK)) & ADDR_MASK == a & ADDR_MASK
        && (a & !ADDR_MASK == 0 ==> a & ADDR_MASK == a)
        && ((f & !ADDR_MASK) | (a & ADDR_MASK)) & 1 == f & 1
        && ((f & !ADDR_MASK) | (a & ADDR_MASK)) & 2 == f & 2
        && (e & ADDR_MASK) & !ADDR_MASK == 0
        && e & 0 == 0
        && 0u64 & 1 == 0
        && (d & 1 == 1 ==> (d | p | t) & 1 == 1)
        && (d & 2 == 2 ==> (d | p | t) & 2 == 2)
        && (d & 2 == 0 && p & 2 == 0 && t & 2 == 0 ==> (d | p | t) & 2 == 0)) by (bit_vector);
}

/// Alignment of a mapping address, as a mask of low bits.
proof fn lemma_block_masks(virt: u64)
    ensures
        virt % 0x1000 == 0 ==> virt & 0xfff == 0,
        virt % 0x200000 == 0 ==> virt & 0x1f_ffff == 0,
        virt % 0x40000000 == 0 ==> virt & 0x3fff_ffff == 0,
        (1u64 << 12u64) == 0x1000,
        (1u64 << 21u64) == 0x200000,
        (1u64 << 30u64) == 0x40000000,
{
    assert((virt % 0x1000 == 0 ==> virt & 0xfff == 0)
        && (virt % 0x200000 == 0 ==> virt & 0x1f_ffff == 0)
        && (virt % 0x40000000 == 0 ==> virt & 0x3fff_ffff == 0)
        && (1u64 << 12u64) == 0x1000
        && (1u64 << 21u64) == 0x200000
        && (1u64 << 30u64) == 0x40000000) by (bit_vector);
}

/// The walk from the root reaches the table at `level` along a good path.
pub(crate) proof fn lemma_walk_along_path<T: PageTableSpecific>(root: Seq<u64>, mem: TableMemory, virt: u64, level: nat)
    requires
        path_ok::<T>(root, mem, virt, level),
        level <= 3,
    ensures
        translate::<T>(root, mem, virt) == walk_from::<T>(mem, table_of(root, mem, loc_at::<T>(root, mem, virt, level)), virt, level),
    decreases level,
{
    if level > 0 {
        let pl = (level - 1) as nat;
        assert(loc_at::<T>(root, mem, virt, pl) == loc_at::<T>(root, mem, virt, pl));
        assert(path_ok::<T>(root, mem, virt, pl));
        lemma_walk_along_path::<T>(root, mem, virt, pl);
        let e = table_of(root, mem, loc_at::<T>(root, mem, virt, pl))[index_of(virt, pl as int)];
        assert(T::spec_is_valid(e) && T::spec_is_table(e));
        assert(loc_at::<T>(root, mem, virt, level) == TableLoc::Page(T::spec_get_addr(e)));
    }
}

/// Law: where a good path leads to a present leaf entry (a page at the last
/// level, a block above it), the address translates through that entry.
pub proof fn lemma_leaf_translation<T: PageTableSpecific>(root: Seq<u64>, mem: TableMemory, virt: u64, level: nat)
    requires
        level <= 3,
        path_ok::<T>(root, mem, virt, level),
        T::spec_is_valid(table_of(root, mem, loc_at::<T>(root, mem, virt, level))[index_of(virt, level as int)]),
        level == 3 ==> T::spec_is_table(table_of(root, mem, loc_at::<T>(root, mem, virt, level))[index_of(virt, level as int)]),
        level < 3 ==> !T::spec_is_table(table_of(root, mem, loc_at::<T>(root, mem, virt, level))[index_of(virt, level as int)]),
    ensures
        translate::<T>(root, mem, virt) == Walk::Mapped(
            (T::spec_get_addr(table_of(root, mem, loc_at::<T>(root, mem, virt, level))[index_of(virt, level as int)])
                + offset_in(virt, level as int)) as u64),
{
    lemma_walk_along_path::<T>(root, mem, virt, level);
}

/// Addresses inside one aligned page or block share the indices above it.
proof fn lemma_same_block_bits(virt: u64, off: u64, s: u64, t: u64)
    requires
        12 <= s <= t <= 39,
        virt & (((1u64 << s) - 1) as u64) == 0,
        off < (1u64 << s),
    ensures
        virt + off <= u64::MAX,
        ((((virt + off) as u64)) >> t) & 0x1ff == (virt >> t) & 0x1ff,
        ((virt + off) as u64) & (((1u64 << s) - 1) as u64) == off,
{
    assert(virt + off <= u64::MAX && ((((virt + off) as u64)) >> t) & 0x1ff == (virt >> t) & 0x1ff
        && ((virt + off) as u64) & (((1u64 << s) - 1) as u64) == off) by (bit_vector)
        requires
            12 <= s <= t <= 39,
            virt & (((1u64 << s) - 1) as u64) == 0,
            off < (1u64 << s),
    ;
}

/// Two addresses with the same indices down to `k` follow the same path.
pub(crate) proof fn lemma_same_path<T: PageTableSpecific>(root: Seq<u64>, mem: TableMemory, v1: u64, v2: u64, k: nat)
    requires
        forall|l: int| 0 <= l <= k ==> #[trigger] index_of(v1, l) == index_of(v2, l),
    ensures
        forall|l: nat| l <= k ==> #[trigger] loc_at::<T>(root, mem, v2, l) == loc_at::<T>(root, mem, v1, l),
    decreases k,
{
    if k > 0 {
        lemma_same_path::<T>(root, mem, v1, v2, (k - 1) as nat);
        assert(loc_at::<T>(root, mem, v2, (k - 1) as nat) == loc_at::<T>(root, mem, v1, (k - 1) as nat));
        assert(index_of(v1, k - 1) == index_of(v2, k - 1));
        assert forall|l: nat| l <= k implies #[trigger] loc_at::<T>(root, mem, v2, l) == loc_at::<T>(root, mem, v1, l) by {
            if l < k {
                assert(l <= (k - 1) as nat);
            }
        }
    }
}

/// Law: a leaf entry placed for `virt` at `level` translates every address of
/// the page or block it covers.
pub proof fn lemma_placed_leaf_translates<T: PageTableSpecific>(
    root: Seq<u64>, mem: TableMemory, virt: u64, level: nat, e: u64, off: u64,
)
    requires
        1 <= level <= 3,
        placed::<T>(root, mem, virt, level, e),
        T::spec_is_valid(e),
        level == 3 ==> T::spec_is_table(e),
        level < 3 ==> !T::spec_is_table(e),
        virt & (((1u64 << shift_of(level as int)) - 1) as u64) == 0,
        off < (1u64 << shift_of(level as int)),
    ensures
        virt + off <= u64::MAX,
        translate::<T>(root, mem, (virt + off) as u64) == Walk::Mapped((T::spec_get_addr(e) + off) as u64),
{
    let v2 = ((virt + off) as u64);
    let s = shift_of(level as int);
    lemma_same_block_bits(virt, off, s, s);
    assert forall|l: int| 0 <= l <= level implies #[trigger] index_of(virt, l) == index_of(v2, l) by {
        lemma_same_block_bits(virt, off, s, shift_of(l));
    }
    lemma_same_path::<T>(root, mem, virt, v2, level);
    assert forall|l: nat| #![trigger loc_at::<T>(root, mem, v2, l)] l < level implies {
        &&& !(loc_at::<T>(root, mem, v2, l) is Missing)
        &&& T::spec_is_valid(table_of(root, mem, loc_at::<T>(root, mem, v2, l))[index_of(v2, l as int)])
        &&& T::spec_is_table(table_of(root, mem, loc_at::<T>(root, mem, v2, l))[index_of(v2, l as int)])
    } by {
        assert(loc_at::<T>(root, mem, v2, l) == loc_at::<T>(root, mem, virt, l));
        assert(index_of(virt, l as int) == index_of(v2, l as int));
    }
    assert forall|j: nat| #![trigger loc_at::<T>(root, mem, v2, j)] 1 <= j <= level implies loc_at::<T>(root, mem, v2, j) is Page
        && mem.holds(loc_at::<T>(root, mem, v2, j)->Page_0) by {
        assert(loc_at::<T>(root, mem, v2, j) == loc_at::<T>(root, mem, virt, j));
    }
    assert forall|j: nat, k: nat| #![trigger loc_at::<T>(root, mem, v2, j), loc_at::<T>(root, mem, v2, k)]
        1 <= j < k <= level implies loc_at::<T>(root, mem, v2, j) != loc_at::<T>(root, mem, v2, k) by {
        assert(loc_at::<T>(root, mem, v2, j) == loc_at::<T>(root, mem, virt, j));
        assert(loc_at::<T>(root, mem, v2, k) == loc_at::<T>(root, mem, virt, k));
    }
    assert(loc_at::<T>(root, mem, v2, level) == loc_at::<T>(root, mem, virt, level));
    assert(path_ok::<T>(root, mem, v2, level));
    assert(index_of(virt, level as int) == index_of(v2, level as int));
    lemma_leaf_translation::<T>(root, mem, v2, level);
}

/// A page-aligned address translates to a page-aligned address.
proof fn lemma_walk_aligned<T: PageTableSpecific>(mem: TableMemory, table: Seq<u64>, virt: u64, level: nat)
    requires
        virt % 0x1000 == 0,
        level <= 3,
    ensures
        walk_from::<T>(mem, table, virt, level) matches Walk::Mapped(a) ==> a % 0x1000 == 0,
    decreases 3 - level,
{
    let e = table[index_of(virt, level as int)];
    T::lemma_get_addr_is_frame(e);
    let g = T::spec_get_addr(e);
    let sh = shift_of(level as int);
    assert((((g + (virt & (((1u64 << sh) - 1) as u64))) as u64) % 0x1000 == 0)) by (bit_vector)
        requires
            g & !ADDR_MASK == 0,
            virt % 0x1000 == 0,
            12 <= sh <= 39,
    ;
    if level < 3 && T::spec_is_valid(e) && T::spec_is_table(e) {
        lemma_walk_aligned::<T>(mem, mem.page(g), virt, level + 1);
    }
}

/// Law: a root table that holds the entries 448, 480 and 511 of `kernel` and
/// nothing else, as `user_process` builds it, translates the addresses under
/// those entries exactly as `kernel` does, and maps no other address.
pub proof fn lemma_user_process_shares_kernel<T: PageTableSpecific>(kernel: Seq<u64>, mem: TableMemory, v: u64)
    requires
        kernel.len() == 512,
    ensures
        ({
            let user = zero_table().update(448, kernel[448]).update(480, kernel[480]).update(511, kernel[511]);
            &&& (index_of(v, 0) == 448 || index_of(v, 0) == 480 || index_of(v, 0) == 511)
                ==> translate::<T>(user, mem, v) == translate::<T>(kernel, mem, v)
            &&& !(index_of(v, 0) == 448 || index_of(v, 0) == 480 || index_of(v, 0) == 511)
                ==> translate::<T>(user, mem, v) == Walk::Unmapped
        }),
{
    let user = zero_table().update(448, kernel[448]).update(480, kernel[480]).update(511, kernel[511]);
    lemma_index_range(v, 0);
    T::lemma_zero_is_invalid();
    assert(user[index_of(v, 0)] == if index_of(v, 0) == 448 || index_of(v, 0) == 480 || index_of(v, 0) == 511 {
        kernel[index_of(v, 0)]
    } else {
        0u64
    });
}

/// Why a mapping could not be installed.
#[derive(Debug, Copy, Clone, PartialEq, Eq, Structural)]
pub enum MapError {
    /// The allocator had no page for a new table.
    AllocationFailed,
    /// The allocator returned a page that is not a frame or already holds a table.
    UnusableAllocation,
}

/// A four-level page table whose root table is held here.
pub struct PageTable<T: PageTableSpecific, A: PhysAlloc> {
    entries: Vec<u64>,
    _t: PhantomData<T>,
    _a: PhantomData<A>,
}

impl<T: PageTableSpecific, A: PhysAlloc> View for PageTable<T, A> {
    type V = Seq<u64>;

    /// The 512 entries of the root table.
    closed spec fn view(&self) -> Seq<u64> {
        if self.entries@.len() == 512 {
            self.entries@
        } else {
            zero_table()
        }
    }
}

impl<T: PageTableSpecific, A: PhysAlloc> PageTable<T, A> {
    /// The root table has 512 entries.
    pub proof fn lemma_view_len(&self)
        ensures
            self@.len() == 512,
    {
    }

    /// An empty page table.
    pub fn new() -> (r: PageTable<T, A>)
        ensures
            r@ == zero_table(),
    {
        PageTable { entries: zero_vec(), _t: PhantomData, _a: PhantomData }
    }

    /// Entry `i` of the root table.
    pub fn root_entry(&self, i: usize) -> (r: u64)
        requires
            i < 512,
        ensures
            r == self@[i as int],
    {
        if self.entries.len() == 512 {
            self.entries[i]
        } else {
            0
        }
    }

    /// The 512 entries of the root table.
    pub fn root_entries(&self) -> (r: Vec<u64>)
        ensures
            r@ == self@,
    {
        let mut v: Vec<u64> = Vec::new();
        let mut i: usize = 0;
        while i < 512
            invariant
                i <= 512,
                self@.len() == 512,
                v@ == self@.take(i as int),
            decreases 512 - i,
        {
            let e = self.root_entry(i);
            v.push(e);
            assert(v@ =~= self@.take(i as int + 1));
            i = i + 1;
        }
        assert(self@.take(512) =~= self@);
        v
    }

    /// Sets entry `i` of the root table.
    fn set_root_entry(&mut self, i: usize, value: u64)
        requires
            i < 512,
        ensures
            final(self)@ == old(self)@.update(i as int, value),
    {
        let ghost before = self@;
        if self.entries.len() != 512 {
            self.entries = zero_vec();
        }
        assert(self.entries@ == before);
        self.entries.set(i, value);
    }

    /// A page table for a new user process: empty, but sharing the kernel's
    /// root entries 448, 480 and 511.
    pub fn user_process(&self) -> (r: PageTable<T, A>)
        ensures
            r@ == zero_table().update(448, self@[448]).update(480, self@[480]).update(511, self@[511]),
    {
        let mut pg = PageTable::<T, A>::new();
        let e448 = self.root_entry(448);
        pg.set_root_entry(448, e448);
        let e480 = self.root_entry(480);
        pg.set_root_entry(480, e480);
        let e511 = self.root_entry(511);
        pg.set_root_entry(511, e511);
        pg
    }

    /// Entry `i` of the table at `cur` (`None` is the root).
    fn read_loc(&self, mem: &TableMemory, cur: Option<u64>, i: usize) -> (r: u64)
        requires
            i < 512,
        ensures
            r == table_of(self@, *mem, loc_of(cur))[i as int],
    {
        match cur {
            Some(a) => mem.read(a, i),
            None => self.root_entry(i),
        }
    }

    /// Writes entry `i` of the table at `cur` (`None` is the root).
    fn write_loc(&mut self, mem: &mut TableMemory, cur: Option<u64>, i: usize, value: u64)
        requires
            i < 512,
        ensures
            agrees_outside(old(self)@, *old(mem), final(self)@, *final(mem),
                |l: TableLoc, j: int| l == loc_of(cur) && j == i as int),
            table_of(final(self)@, *final(mem), loc_of(cur))[i as int] == value,
            forall|b: u64| old(mem).holds(b) ==> final(mem).holds(b),
            forall|b: u64| cur != Some(b) ==> final(mem).page(b) == old(mem).page(b),
            cur is Some ==> final(self)@ == old(self)@,
            cur is None ==> final(self)@ == old(self)@.update(i as int, value),
            cur is Some ==> final(mem).holds(cur->Some_0),
    {
        match cur {
            Some(a) => mem.write(a, i, value),
            None => self.set_root_entry(i, value),
        }
        proof {
            let bad = |l: TableLoc, j: int| l == loc_of(cur) && j == i as int;
            assert forall|l: TableLoc, j: int| 0 <= j < 512 && !bad(l, j) implies
                #[trigger] table_of(self@, *mem, l)[j] == table_of(old(self)@, *old(mem), l)[j] by {
            }
        }
    }

    /// Installs `entry` at `final_level` on the path toward `virt`, creating
    /// the missing tables above it with pages from the allocator.
    ///
    /// Only the root entry for `virt`, the tables already on its path and
    /// newly created tables are written. When the existing path is sound, a
    /// successful call leaves `entry` below present table entries.
    fn map_internal(&mut self, mem: &mut TableMemory, virt: u64, entry: u64, final_level: u64) -> (r: Result<(), MapError>)
        requires
            final_level <= 3,
        ensures
            forall|i: int| 0 <= i < 512 && i != index_of(virt, 0) ==> final(self)@[i] == old(self)@[i],
            forall|b: u64| old(mem).holds(b) ==> final(mem).holds(b),
            forall|b: u64| old(mem).holds(b) && !on_path::<T>(old(self)@, *old(mem), virt, final_level as nat, b)
                ==> final(mem).page(b) == old(mem).page(b),
            path_present::<T>(old(self)@, *old(mem), virt, final_level as nat) ==> r is Ok,
            r is Ok && path_sound::<T>(old(self)@, *old(mem), virt, final_level as nat)
                ==> placed::<T>(final(self)@, *final(mem), virt, final_level as nat, entry),
            r is Ok && path_sound::<T>(old(self)@, *old(mem), virt, final_level as nat)
                ==> installed::<T>(old(self)@, *old(mem), final(self)@, *final(mem), virt, final_level as nat),
    {
        let ghost old_root = self@;
        let ghost old_mem = *mem;
        let ghost fin = final_level as nat;
        let ghost sound = path_sound::<T>(old_root, old_mem, virt, fin);
        let ghost present = path_present::<T>(old_root, old_mem, virt, fin);
        let ghost mut fresh = false;
        let mut level: u64 = 0;
        let mut cur: Option<u64> = None;
        loop
            invariant
                level <= final_level <= 3,
                fin == final_level as nat,
                old_root == old(self)@,
                old_mem == *old(mem),
                sound == path_sound::<T>(old_root, old_mem, virt, fin),
                present == path_present::<T>(old_root, old_mem, virt, fin),
                forall|i: int| 0 <= i < 512 && i != index_of(virt, 0) ==> self@[i] == old_root[i],
                forall|b: u64| old_mem.holds(b) ==> mem.holds(b),
                forall|b: u64| old_mem.holds(b) && !on_path::<T>(old_root, old_mem, virt, fin, b)
                    ==> mem.page(b) == old_mem.page(b),
                !fresh ==> self@ == old_root && *mem == old_mem,
                !fresh ==> loc_of(cur) == loc_at::<T>(old_root, old_mem, virt, level as nat),
                fresh ==> cur is Some && !old_mem.holds(cur->Some_0),
                fresh ==> fresh_closed::<T>(old_mem, *mem),
                fresh && sound ==> mem.page(cur->Some_0) == zero_table(),
                fresh ==> level >= 1,
                present ==> !fresh,
                sound ==> path_ok::<T>(self@, *mem, virt, level as nat),
                sound ==> loc_at::<T>(self@, *mem, virt, level as nat) == loc_of(cur),
                sound ==> agrees_outside(old_root, old_mem, self@, *mem,
                    |l: TableLoc, j: int| written::<T>(self@, *mem, old_root, old_mem, virt, level as nat, fin, l, j)),
                sound ==> forall|m: nat| #![trigger loc_at::<T>(self@, *mem, virt, m)]
                    m <= level && !(loc_at::<T>(old_root, old_mem, virt, m) is Missing)
                        ==> loc_at::<T>(self@, *mem, virt, m) == loc_at::<T>(old_root, old_mem, virt, m),
                sound ==> forall|m: nat| #![trigger loc_at::<T>(self@, *mem, virt, m)]
                    1 <= m <= level && loc_at::<T>(old_root, old_mem, virt, m) is Missing
                        ==> loc_at::<T>(self@, *mem, virt, m) is Page
                            && !old_mem.holds(loc_at::<T>(self@, *mem, virt, m)->Page_0),
                sound && fresh ==> loc_at::<T>(old_root, old_mem, virt, level as nat) is Missing,
            decreases final_level - level,
        {
            let off: u64 = (3 - level) * 9 + 12;
            proof {
                lemma_index_bits(virt, off);
                lemma_index_range(virt, level as int);
            }
            let index = ((virt & (0x1ffu64 << off)) >> off) as usize;
            assert(index as int == index_of(virt, level as int));
            let ghost r0 = self@;
            let ghost m0 = *mem;
            if level == final_level {
                self.write_loc(mem, cur, index, entry);
                proof {
                    if !fresh && level >= 1 {
                        assert(on_path::<T>(old_root, old_mem, virt, fin, cur->Some_0)) by {
                            assert(loc_at::<T>(old_root, old_mem, virt, level as nat) == TableLoc::Page(cur->Some_0));
                        }
                    }
                    if sound {
                        let bad = |l: TableLoc, j: int| l == loc_of(cur) && j == index as int;
                        assert forall|l: nat| l < level as nat implies !bad(#[trigger] loc_at::<T>(r0, m0, virt, l), index_of(virt, l as int)) by {
                            if l >= 1 {
                                assert(loc_at::<T>(r0, m0, virt, l) != loc_at::<T>(r0, m0, virt, level as nat));
                            }
                        }
                        lemma_path_ok_frame::<T>(r0, m0, self@, *mem, virt, level as nat, bad);
                    }
                }
                return Ok(());
            }
            let e = self.read_loc(mem, cur, index);
            if !T::is_valid(e) {
                proof {
                    if present {
                        assert(!(loc_at::<T>(old_root, old_mem, virt, (level + 1) as nat) is Missing));
                    }
                }
                let p = match A::allocate() {
                    Some(p) => p.0,
                    None => return Err(MapError::AllocationFailed),
                };
                if p & !ADDR_MASK != 0 || mem.holds_table(p) {
                    return Err(MapError::UnusableAllocation);
                }
                mem.install_zero(p);
                let ghost r1 = self@;
                let ghost m1 = *mem;
                proof {
                    let badp = |l: TableLoc, j: int| l == TableLoc::Page(p);
                    assert forall|l: TableLoc, j: int| 0 <= j < 512 && !badp(l, j) implies
                        #[trigger] table_of(r1, m1, l)[j] == table_of(r0, m0, l)[j] by {
                    }
                    if sound {
                        assert forall|l: nat| l < level as nat implies !badp(#[trigger] loc_at::<T>(r0, m0, virt, l), index_of(virt, l as int)) by {
                            if l >= 1 {
                                assert(m0.holds(loc_at::<T>(r0, m0, virt, l)->Page_0));
                            }
                        }
                        lemma_path_ok_frame::<T>(r0, m0, r1, m1, virt, level as nat, badp);
                    }
                    T::lemma_table_entry(p);
                }
                let te = T::new_entry(T::get_table_default_flags(), PhysAddr(p));
                self.write_loc(mem, cur, index, te);
                proof {
                    if !fresh && level >= 1 {
                        assert(on_path::<T>(old_root, old_mem, virt, fin, cur->Some_0)) by {
                            assert(loc_at::<T>(old_root, old_mem, virt, level as nat) == TableLoc::Page(cur->Some_0));
                        }
                    }
                    if sound {
                        let bad = |l: TableLoc, j: int| l == loc_of(cur) && j == index as int;
                        assert forall|l: nat| l < level as nat implies !bad(#[trigger] loc_at::<T>(r1, m1, virt, l), index_of(virt, l as int)) by {
                            if l >= 1 {
                                assert(loc_at::<T>(r1, m1, virt, l) != loc_at::<T>(r1, m1, virt, level as nat));
                            }
                        }
                        lemma_path_ok_frame::<T>(r1, m1, self@, *mem, virt, level as nat, bad);
                        let nl = (level + 1) as nat;
                        assert(loc_at::<T>(self@, *mem, virt, nl) == TableLoc::Page(p));
                        assert(cur != Some(p)) by {
                            if level >= 1 {
                                assert(m0.holds(loc_at::<T>(r0, m0, virt, level as nat)->Page_0));
                            }
                        }
                        assert(mem.holds(p));
                        assert forall|j: nat| #![trigger loc_at::<T>(self@, *mem, virt, j)] 1 <= j <= nl implies loc_at::<T>(self@, *mem, virt, j) is Page
                            && mem.holds(loc_at::<T>(self@, *mem, virt, j)->Page_0) by {
                        }
                        assert forall|j: nat, k: nat| #![trigger loc_at::<T>(self@, *mem, virt, j), loc_at::<T>(self@, *mem, virt, k)]
                            1 <= j < k <= nl implies loc_at::<T>(self@, *mem, virt, j) != loc_at::<T>(self@, *mem, virt, k) by {
                            if k == nl {
                                assert(m0.holds(loc_at::<T>(r0, m0, virt, j)->Page_0));
                            }
                        }
                        assert forall|l: nat| #![trigger loc_at::<T>(self@, *mem, virt, l)] l < nl implies {
                            &&& !(loc_at::<T>(self@, *mem, virt, l) is Missing)
                            &&& T::spec_is_valid(table_of(self@, *mem, loc_at::<T>(self@, *mem, virt, l))[index_of(virt, l as int)])
                            &&& T::spec_is_table(table_of(self@, *mem, loc_at::<T>(self@, *mem, virt, l))[index_of(virt, l as int)])
                        } by {
                        }
                    }
                    T::lemma_zero_is_invalid();
                    assert forall|b: u64, i: int| #![trigger mem.page(b)[i]]
                        mem.holds(b) && !old_mem.holds(b) && 0 <= i < 512 && T::spec_is_valid(mem.page(b)[i])
                            implies !old_mem.holds(T::spec_get_addr(mem.page(b)[i])) by {
                        if b == p && cur != Some(p) {
                            assert(m1.page(p) == zero_table());
                        } else if cur == Some(b) && i == index as int {
                        } else if b != p {
                            assert(m1.page(b) == m0.page(b));
                            if fresh {
                                assert(m0.page(b)[i] == mem.page(b)[i]);
                            }
                        }
                    }
                    fresh = true;
                }
            } else {
                proof {
                    if fresh {
                        T::lemma_zero_is_invalid();
                        assert(mem.holds(cur->Some_0));
                    }
                    if sound && !fresh {
                        let nl = (level + 1) as nat;
                        assert(!(loc_at::<T>(old_root, old_mem, virt, level as nat) is Missing));
                        assert(T::spec_is_table(e));
                        assert(loc_at::<T>(old_root, old_mem, virt, nl) is Page);
                        assert(old_mem.holds(loc_at::<T>(old_root, old_mem, virt, nl)->Page_0));
                        assert forall|j: nat| #![trigger loc_at::<T>(self@, *mem, virt, j)] 1 <= j <= nl implies loc_at::<T>(self@, *mem, virt, j) is Page
                            && mem.holds(loc_at::<T>(self@, *mem, virt, j)->Page_0) by {
                        }
                        assert forall|j: nat, k: nat| #![trigger loc_at::<T>(self@, *mem, virt, j), loc_at::<T>(self@, *mem, virt, k)]
                            1 <= j < k <= nl implies loc_at::<T>(self@, *mem, virt, j) != loc_at::<T>(self@, *mem, virt, k) by {
                            if k == nl {
                                assert(loc_at::<T>(old_root, old_mem, virt, j) is Page);
                            }
                        }
                    }
                }
            }
            let e2 = self.read_loc(mem, cur, index);
            let next = T::get_addr(e2).0;
            cur = Some(next);
            level = level + 1;
        }
    }

    /// Maps the 4 KiB page at `virt` to the frame `phys`.
    pub fn map_4k(&mut self, mem: &mut TableMemory, phys: PhysAddr, virt: u64, perm: PagePermission, ty: MapType) -> (r: Result<(), MapError>)
        requires
            phys.0 % 0x1000 == 0,
            virt % 0x1000 == 0,
        ensures
            forall|i: int| 0 <= i < 512 && i != index_of(virt, 0) ==> final(self)@[i] == old(self)@[i],
            forall|b: u64| old(mem).holds(b) ==> final(mem).holds(b),
            forall|b: u64| old(mem).holds(b) && !on_path::<T>(old(self)@, *old(mem), virt, 3, b)
                ==> final(mem).page(b) == old(mem).page(b),
            path_present::<T>(old(self)@, *old(mem), virt, 3) ==> r is Ok,
            r is Ok && path_sound::<T>(old(self)@, *old(mem), virt, 3) ==> placed::<T>(final(self)@, *final(mem), virt, 3,
                leaf_entry::<T>(T::spec_page_default_flags(), perm, ty, phys.0)),
            r is Ok && path_sound::<T>(old(self)@, *old(mem), virt, 3) && is_frame(phys.0) ==>
                forall|off: u64| off < 0x1000 ==> #[trigger] translate::<T>(final(self)@, *final(mem), (virt + off) as u64)
                    == Walk::Mapped((phys.0 + off) as u64),
            r is Ok && path_sound::<T>(old(self)@, *old(mem), virt, 3)
                ==> installed::<T>(old(self)@, *old(mem), final(self)@, *final(mem), virt, 3),
            forall|lo: int, hi: int| #![trigger tree_ok::<T>(old(self)@, *old(mem), lo, hi)]
                r is Ok && tree_ok::<T>(old(self)@, *old(mem), lo, hi) && in_range(virt, lo, hi)
                    ==> tree_ok::<T>(final(self)@, *final(mem), lo, hi),
            forall|lo: int, hi: int, v: u64|
                #![trigger tree_ok::<T>(old(self)@, *old(mem), lo, hi), translate::<T>(final(self)@, *final(mem), v)]
                r is Ok && tree_ok::<T>(old(self)@, *old(mem), lo, hi) && in_range(virt, lo, hi)
                    && in_range(v, lo, hi) && diverge(v, virt) <= 3
                    ==> translate::<T>(final(self)@, *final(mem), v) == translate::<T>(old(self)@, *old(mem), v)
                        && leaf::<T>(final(self)@, *final(mem), v) == leaf::<T>(old(self)@, *old(mem), v),
            r is Ok && path_sound::<T>(old(self)@, *old(mem), virt, 3) && is_frame(phys.0)
                ==> leaf::<T>(final(self)@, *final(mem), virt) == Some(leaf_entry::<T>(T::spec_page_default_flags(), perm, ty, phys.0)),
    {
        let entry_flags = T::get_page_default_flags() | T::map_perms(perm) | T::map_type(ty);
        let entry = T::new_entry(entry_flags, phys);
        let r = self.map_internal(mem, virt, entry, 3);
        proof {
            assert forall|lo: int, hi: int| #![trigger tree_ok::<T>(old(self)@, *old(mem), lo, hi)]
                r is Ok && tree_ok::<T>(old(self)@, *old(mem), lo, hi) && in_range(virt, lo, hi)
                    implies tree_ok::<T>(self@, *mem, lo, hi) by {
                assert(path_sound::<T>(old(self)@, *old(mem), virt, 3));
                lemma_install_keeps_tree::<T>(old(self)@, *old(mem), self@, *mem, virt, lo, hi);
            }
            assert forall|lo: int, hi: int, v: u64|
                #![trigger tree_ok::<T>(old(self)@, *old(mem), lo, hi), translate::<T>(self@, *mem, v)]
                r is Ok && tree_ok::<T>(old(self)@, *old(mem), lo, hi) && in_range(virt, lo, hi)
                    && in_range(v, lo, hi) && diverge(v, virt) <= 3
                    implies translate::<T>(self@, *mem, v) == translate::<T>(old(self)@, *old(mem), v)
                        && leaf::<T>(self@, *mem, v) == leaf::<T>(old(self)@, *old(mem), v) by {
                assert(path_sound::<T>(old(self)@, *old(mem), virt, 3));
                lemma_install_keeps_other_pages::<T>(old(self)@, *old(mem), self@, *mem, virt, 3, lo, hi, v);
            }
            if r is Ok && path_sound::<T>(old(self)@, *old(mem), virt, 3) && is_frame(phys.0) {
                T::lemma_page_entry(perm, ty, phys.0);
                lemma_block_masks(virt);
                assert forall|off: u64| off < 0x1000 implies #[trigger] translate::<T>(self@, *mem, (virt + off) as u64)
                    == Walk::Mapped((phys.0 + off) as u64) by {
                    lemma_placed_leaf_translates::<T>(self@, *mem, virt, 3, entry, off);
                }
            }
        }
        r
    }

    /// Maps the 2 MiB block at `virt` to the frames starting at `phys`.
    pub fn map_2mb(&mut self, mem: &mut TableMemory, phys: PhysAddr, virt: u64, perm: PagePermission, ty: MapType) -> (r: Result<(), MapError>)
        requires
            phys.0 % 0x200000 == 0,
            virt % 0x200000 == 0,
        ensures
            forall|i: int| 0 <= i < 512 && i != index_of(virt, 0) ==> final(self)@[i] == old(self)@[i],
            forall|b: u64| old(mem).holds(b) ==> final(mem).holds(b),
            forall|b: u64| old(mem).holds(b) && !on_path::<T>(old(self)@, *old(mem), virt, 2, b)
                ==> final(mem).page(b) == old(mem).page(b),
            path_present::<T>(old(self)@, *old(mem), virt, 2) ==> r is Ok,
            r is Ok && path_sound::<T>(old(self)@, *old(mem), virt, 2) ==> placed::<T>(final(self)@, *final(mem), virt, 2,
                leaf_entry::<T>(T::spec_block_default_flags(), perm, ty, phys.0)),
            r is Ok && path_sound::<T>(old(self)@, *old(mem), virt, 2) && is_frame(phys.0)
                && !T::spec_is_table(leaf_entry::<T>(T::spec_block_default_flags(), perm, ty, phys.0)) ==>
                forall|off: u64| off < 0x200000 ==> #[trigger] translate::<T>(final(self)@, *final(mem), (virt + off) as u64)
                    == Walk::Mapped((phys.0 + off) as u64),
            r is Ok && path_sound::<T>(old(self)@, *old(mem), virt, 2)
                ==> installed::<T>(old(self)@, *old(mem), final(self)@, *final(mem), virt, 2),
            forall|lo: int, hi: int, v: u64|
                #![trigger tree_ok::<T>(old(self)@, *old(mem), lo, hi), translate::<T>(final(self)@, *final(mem), v)]
                r is Ok && tree_ok::<T>(old(self)@, *old(mem), lo, hi) && in_range(virt, lo, hi)
                    && in_range(v, lo, hi) && diverge(v, virt) <= 2
                    ==> translate::<T>(final(self)@, *final(mem), v) == translate::<T>(old(self)@, *old(mem), v)
                        && leaf::<T>(final(self)@, *final(mem), v) == leaf::<T>(old(self)@, *old(mem), v),
    {
        let entry_flags = T::get_block_default_flags() | T::map_perms(perm) | T::map_type(ty);
        let entry = T::new_entry(entry_flags, phys);
        let r = self.map_internal(mem, virt, entry, 2);
        proof {
            assert forall|lo: int, hi: int, v: u64|
                #![trigger tree_ok::<T>(old(self)@, *old(mem), lo, hi), translate::<T>(self@, *mem, v)]
                r is Ok && tree_ok::<T>(old(self)@, *old(mem), lo, hi) && in_range(virt, lo, hi)
                    && in_range(v, lo, hi) && diverge(v, virt) <= 2
                    implies translate::<T>(self@, *mem, v) == translate::<T>(old(self)@, *old(mem), v)
                        && leaf::<T>(self@, *mem, v) == leaf::<T>(old(self)@, *old(mem), v) by {
                assert(path_sound::<T>(old(self)@, *old(mem), virt, 3));
                assert(path_sound::<T>(old(self)@, *old(mem), virt, 2));
                lemma_install_keeps_other_pages::<T>(old(self)@, *old(mem), self@, *mem, virt, 2, lo, hi, v);
            }
            if r is Ok && path_sound::<T>(old(self)@, *old(mem), virt, 2) && is_frame(phys.0)
                && !T::spec_is_table(entry) {
                T::lemma_block_entry(perm, ty, phys.0);
                lemma_block_masks(virt);
                assert forall|off: u64| off < 0x200000 implies #[trigger] translate::<T>(self@, *mem, (virt + off) as u64)
                    == Walk::Mapped((phys.0 + off) as u64) by {
                    lemma_placed_leaf_translates::<T>(self@, *mem, virt, 2, entry, off);
                }
            }
        }
        r
    }

    /// Maps the 1 GiB block at `virt` to the frames starting at `phys`.
    pub fn map_1gb(&mut self, mem: &mut TableMemory, phys: PhysAddr, virt: u64, perm: PagePermission, ty: MapType) -> (r: Result<(), MapError>)
        requires
            phys.0 % 0x40000000 == 0,
            virt % 0x40000000 == 0,
        ensures
            forall|i: int| 0 <= i < 512 && i != index_of(virt, 0) ==> final(self)@[i] == old(self)@[i],
            forall|b: u64| old(mem).holds(b) ==> final(mem).holds(b),
            forall|b: u64| old(mem).holds(b) && !on_path::<T>(old(self)@, *old(mem), virt, 1, b)
                ==> final(mem).page(b) == old(mem).page(b),
            path_present::<T>(old(self)@, *old(mem), virt, 1) ==> r is Ok,
            r is Ok && path_sound::<T>(old(self)@, *old(mem), virt, 1) ==> placed::<T>(final(self)@, *final(mem), virt, 1,
                leaf_entry::<T>(T::spec_block_default_flags(), perm, ty, phys.0)),
            r is Ok && path_sound::<T>(old(self)@, *old(mem), virt, 1) && is_frame(phys.0)
                && !T::spec_is_table(leaf_entry::<T>(T::spec_block_default_flags(), perm, ty, phys.0)) ==>
                forall|off: u64| off < 0x40000000 ==> #[trigger] translate::<T>(final(self)@, *final(mem), (virt + off) as u64)
                    == Walk::Mapped((phys.0 + off) as u64),
            r is Ok && path_sound::<T>(old(self)@, *old(mem), virt, 1)
                ==> installed::<T>(old(self)@, *old(mem), final(self)@, *final(mem), virt, 1),
            forall|lo: int, hi: int, v: u64|
                #![trigger tree_ok::<T>(old(self)@, *old(mem), lo, hi), translate::<T>(final(self)@, *final(mem), v)]
                r is Ok && tree_ok::<T>(old(self)@, *old(mem), lo, hi) && in_range(virt, lo, hi)
                    && in_range(v, lo, hi) && diverge(v, virt) <= 1
                    ==> translate::<T>(final(self)@, *final(mem), v) == translate::<T>(old(self)@, *old(mem), v)
                        && leaf::<T>(final(self)@, *final(mem), v) == leaf::<T>(old(self)@, *old(mem), v),
    {
        let entry_flags = T::get_block_default_flags() | T::map_perms(perm) | T::map_type(ty);
        let entry = T::new_entry(entry_flags, phys);
        let r = self.map_internal(mem, virt, entry, 1);
        proof {
            assert forall|lo: int, hi: int, v: u64|
                #![trigger tree_ok::<T>(old(self)@, *old(mem), lo, hi), translate::<T>(self@, *mem, v)]
                r is Ok && tree_ok::<T>(old(self)@, *old(mem), lo, hi) && in_range(virt, lo, hi)
                    && in_range(v, lo, hi) && diverge(v, virt) <= 1
                    implies translate::<T>(self@, *mem, v) == translate::<T>(old(self)@, *old(mem), v)
                        && leaf::<T>(self@, *mem, v) == leaf::<T>(old(self)@, *old(mem), v) by {
                assert(path_sound::<T>(old(self)@, *old(mem), virt, 3));
                assert(path_sound::<T>(old(self)@, *old(mem), virt, 1));
                lemma_install_keeps_other_pages::<T>(old(self)@, *old(mem), self@, *mem, virt, 1, lo, hi, v);
            }
            if r is Ok && path_sound::<T>(old(self)@, *old(mem), virt, 1) && is_frame(phys.0)
                && !T::spec_is_table(entry) {
                T::lemma_block_entry(perm, ty, phys.0);
                lemma_block_masks(virt);
                assert forall|off: u64| off < 0x40000000 implies #[trigger] translate::<T>(self@, *mem, (virt + off) as u64)
                    == Walk::Mapped((phys.0 + off) as u64) by {
                    lemma_placed_leaf_translates::<T>(self@, *mem, virt, 1, entry, off);
                }
            }
        }
        r
    }

    /// Maps the 4 KiB page at `virt` again, to the frame it maps to now, with
    /// new permission and type.
    pub fn reprotect_4k(&mut self, mem: &mut TableMemory, virt: u64, perm: PagePermission, ty: MapType) -> (r: Result<(), MapError>)
        requires
            virt % 0x1000 == 0,
            translate::<T>(old(self)@, *old(mem), virt) is Mapped,
        ensures
            ({
                let phys = translate::<T>(old(self)@, *old(mem), virt)->Mapped_0;
                &&& forall|i: int| 0 <= i < 512 && i != index_of(virt, 0) ==> final(self)@[i] == old(self)@[i]
                &&& forall|b: u64| old(mem).holds(b) ==> final(mem).holds(b)
                &&& forall|b: u64| old(mem).holds(b) && !on_path::<T>(old(self)@, *old(mem), virt, 3, b)
                    ==> final(mem).page(b) == old(mem).page(b)
                &&& path_present::<T>(old(self)@, *old(mem), virt, 3) ==> r is Ok
                &&& r is Ok && path_sound::<T>(old(self)@, *old(mem), virt, 3) ==> placed::<T>(final(self)@, *final(mem), virt, 3,
                    leaf_entry::<T>(T::spec_page_default_flags(), perm, ty, phys))
                &&& r is Ok && path_sound::<T>(old(self)@, *old(mem), virt, 3) && is_frame(phys) ==>
                    forall|off: u64| off < 0x1000 ==> #[trigger] translate::<T>(final(self)@, *final(mem), (virt + off) as u64)
                        == Walk::Mapped((phys + off) as u64)
                &&& r is Ok && path_sound::<T>(old(self)@, *old(mem), virt, 3) && is_frame(phys)
                    ==> leaf::<T>(final(self)@, *final(mem), virt) == Some(leaf_entry::<T>(T::spec_page_default_flags(), perm, ty, phys))
            }),
            forall|lo: int, hi: int| #![trigger tree_ok::<T>(old(self)@, *old(mem), lo, hi)]
                r is Ok && tree_ok::<T>(old(self)@, *old(mem), lo, hi) && in_range(virt, lo, hi)
                    ==> tree_ok::<T>(final(self)@, *final(mem), lo, hi),
            forall|lo: int, hi: int, v: u64|
                #![trigger tree_ok::<T>(old(self)@, *old(mem), lo, hi), translate::<T>(final(self)@, *final(mem), v)]
                r is Ok && tree_ok::<T>(old(self)@, *old(mem), lo, hi) && in_range(virt, lo, hi)
                    && in_range(v, lo, hi) && diverge(v, virt) <= 3
                    ==> translate::<T>(final(self)@, *final(mem), v) == translate::<T>(old(self)@, *old(mem), v)
                        && leaf::<T>(final(self)@, *final(mem), v) == leaf::<T>(old(self)@, *old(mem), v),
    {
        proof {
            lemma_walk_aligned::<T>(*mem, self@, virt, 0);
        }
        let addr = self.virt_to_phys(mem, virt).unwrap();
        self.map_4k(mem, addr, virt, perm, ty)
    }

    /// Translates `virt` to the physical address it maps to, if any.
    pub fn virt_to_phys(&self, mem: &TableMemory, virt: u64) -> (r: Option<PhysAddr>)
        requires
            translate::<T>(self@, *mem, virt) != Walk::Broken,
        ensures
            match translate::<T>(self@, *mem, virt) {
                Walk::Mapped(a) => r matches Some(p) && p.0 == a,
                _ => r is None,
            },
    {
        let mut level: u64 = 0;
        let mut cur: Option<u64> = None;
        loop
            invariant
                level <= 3,
                walk_from::<T>(*mem, table_of(self@, *mem, loc_of(cur)), virt, level as nat)
                    == translate::<T>(self@, *mem, virt),
                translate::<T>(self@, *mem, virt) != Walk::Broken,
            decreases 3 - level,
        {
            let off: u64 = (3 - level) * 9 + 12;
            proof {
                lemma_index_bits(virt, off);
            }
            let index = ((virt & (0x1ffu64 << off)) >> off) as usize;
            assert(index as int == index_of(virt, level as int));
            let e = self.read_loc(mem, cur, index);
            if !T::is_valid(e) {
                return None;
            }
            let addr = T::get_addr(e).0;
            proof {
                T::lemma_get_addr_is_frame(e);
            }
            let is_table = T::is_table(e);
            if is_table && level < 3 {
                cur = Some(addr);
                level = level + 1;
            } else {
                let mask: u64 = (1u64 << off) - 1;
                proof {
                    lemma_frame_plus_offset(addr, virt & mask);
                }
                return Some(PhysAddr((virt & mask) + addr));
            }
        }
    }
}

} // verus!
