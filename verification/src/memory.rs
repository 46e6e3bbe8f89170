//! Address spaces: a page table and the regions mapped in it.
use vstd::prelude::*;
use smallvec::SmallVec;
use crate::types::{PhysAddr, PagePermission, MapType};
use crate::page_table::{
    PageTable, PageTableSpecific, PhysAlloc, TableMemory, MapError, Walk, translate, walk_from, leaf_entry,
    is_frame, index_of, offset_in, loc_at, ADDR_MASK,
};
use crate::table_tree::{tree_ok, in_range, diverge, leaf, path_entry, lemma_diverge, lemma_mapped_leaf};
use crate::page_table::{path_sound, path_present, placed};
use crate::table_tree::lemma_install_keeps_present;

verus! {

/// A region of an address space: where it starts, how long it is, and the
/// permission its pages get.
#[derive(Debug, Copy, Clone)]
pub struct Block {
    pub address: u64,
    pub size: u64,
    pub permissions: PagePermission,
}

/// A region as plain values: address, size, permission bits.
pub open spec fn block_view(b: Block) -> (u64, u64, u64) {
    (b.address, b.size, b.permissions.bits())
}

/// The regions of an address space, kept in a `smallvec::SmallVec` with room
/// for four regions inline.
#[verifier::external_body]
pub struct Regions {
    v: SmallVec<[Block; 4]>,
}

/// The regions held, in order, as plain values.
pub uninterp spec fn region_list(r: Regions) -> Seq<(u64, u64, u64)>;

/// `SmallVec::new`: no regions.
#[verifier::external_body]
fn regions_new() -> (r: Regions)
    ensures
        region_list(r) == Seq::<(u64, u64, u64)>::empty(),
{
    Regions { v: SmallVec::new() }
}

/// `SmallVec::push`: appends a region. Growing panics ("capacity overflow")
/// only for lengths far beyond the bound required here.
#[verifier::external_body]
fn regions_push(r: &mut Regions, b: Block)
    requires
        region_list(*old(r)).len() < 0x100_0000,
    ensures
        region_list(*final(r)) == region_list(*old(r)).push(block_view(b)),
{
    r.v.push(b)
}

/// `SmallVec::len`: the number of regions.
#[verifier::external_body]
fn regions_len(r: &Regions) -> (n: usize)
    ensures
        n == region_list(*r).len(),
{
    r.v.len()
}

/// Indexing a `SmallVec`: a copy of region `i`.
#[verifier::external_body]
fn regions_get(r: &Regions, i: usize) -> (b: Block)
    requires
        i < region_list(*r).len(),
    ensures
        block_view(b) == region_list(*r)[i as int],
{
    r.v[i]
}

/// Mutable indexing of a `SmallVec`: sets the size of region `i`.
#[verifier::external_body]
fn regions_set_size(r: &mut Regions, i: usize, size: u64)
    requires
        i < region_list(*old(r)).len(),
    ensures
        region_list(*final(r)) == region_list(*old(r)).update(
            i as int,
            (region_list(*old(r))[i as int].0, size, region_list(*old(r))[i as int].2),
        ),
{
    r.v[i].size = size;
}

/// `a` starts one of the pages that cover `size` bytes from `start`.
pub open spec fn page_of_span(start: u64, size: u64, a: u64) -> bool {
    start <= a && a - start < size && (a - start) % 0x1000 == 0
}

/// Every page of the span is translated through a root entry in `lo..hi`.
pub open spec fn span_in(start: u64, size: u64, lo: int, hi: int) -> bool {
    forall|a: u64| #[trigger] page_of_span(start, size, a) ==> in_range(a, lo, hi)
}

/// `v` lies on no page of the span, as the tables see addresses.
pub open spec fn off_span(start: u64, size: u64, v: u64) -> bool {
    forall|a: u64| #[trigger] page_of_span(start, size, a) ==> diverge(v, a) <= 3
}

/// The page at `a` maps the frame `frame` with this permission and type.
pub open spec fn page_mapped<T: PageTableSpecific>(
    root: Seq<u64>, mem: TableMemory, a: u64, perm: PagePermission, ty: MapType, frame: u64,
) -> bool {
    &&& is_frame(frame)
    &&& leaf::<T>(root, mem, a) == Some(leaf_entry::<T>(T::spec_page_default_flags(), perm, ty, frame))
    &&& forall|o: u64| o < 0x1000
        ==> #[trigger] translate::<T>(root, mem, (a + o) as u64) == Walk::Mapped((frame + o) as u64)
}

/// The page at `a` maps some frame with this permission and type.
pub open spec fn page_backed<T: PageTableSpecific>(
    root: Seq<u64>, mem: TableMemory, a: u64, perm: PagePermission, ty: MapType,
) -> bool {
    &&& translate::<T>(root, mem, a) is Mapped
    &&& page_mapped::<T>(root, mem, a, perm, ty, translate::<T>(root, mem, a)->Mapped_0)
}

/// Two addresses that agree in every index and every in-block offset walk alike.
proof fn lemma_walk_alike<T: PageTableSpecific>(mem: TableMemory, table: Seq<u64>, x: u64, y: u64, level: nat)
    requires
        level <= 3,
        forall|l: int| 0 <= l <= 3 ==> #[trigger] index_of(x, l) == index_of(y, l),
        forall|l: int| 0 <= l <= 3 ==> #[trigger] offset_in(x, l) == offset_in(y, l),
    ensures
        walk_from::<T>(mem, table, x, level) == walk_from::<T>(mem, table, y, level),
    decreases 3 - level,
{
    assert(index_of(x, level as int) == index_of(y, level as int));
    assert(offset_in(x, level as int) == offset_in(y, level as int));
    if level < 3 {
        let e = table[index_of(x, level as int)];
        lemma_walk_alike::<T>(mem, mem.page(T::spec_get_addr(e)), x, y, level + 1);
    }
}

/// Pages that the tables cannot tell apart map alike.
proof fn lemma_same_page<T: PageTableSpecific>(root: Seq<u64>, mem: TableMemory, a: u64, w: u64, o: u64)
    requires
        a % 0x1000 == 0,
        w % 0x1000 == 0,
        diverge(a, w) == 4,
        o < 0x1000,
    ensures
        a + o <= u64::MAX,
        w + o <= u64::MAX,
        translate::<T>(root, mem, (a + o) as u64) == translate::<T>(root, mem, (w + o) as u64),
        leaf::<T>(root, mem, a) == leaf::<T>(root, mem, w),
{
    lemma_diverge::<T>(root, mem, a, w);
    assert(path_entry::<T>(root, mem, a, 3) == path_entry::<T>(root, mem, w, 3));
    let x = (a + o) as u64;
    let y = (w + o) as u64;
    assert(index_of(a, 0) == index_of(w, 0) && index_of(a, 1) == index_of(w, 1)
        && index_of(a, 2) == index_of(w, 2) && index_of(a, 3) == index_of(w, 3));
    assert(a + o <= u64::MAX && w + o <= u64::MAX
        && (x >> 39u64) & 0x1ff == (y >> 39u64) & 0x1ff
        && (x >> 30u64) & 0x1ff == (y >> 30u64) & 0x1ff
        && (x >> 21u64) & 0x1ff == (y >> 21u64) & 0x1ff
        && (x >> 12u64) & 0x1ff == (y >> 12u64) & 0x1ff
        && x & (((1u64 << 39u64) - 1) as u64) == y & (((1u64 << 39u64) - 1) as u64)
        && x & (((1u64 << 30u64) - 1) as u64) == y & (((1u64 << 30u64) - 1) as u64)
        && x & (((1u64 << 21u64) - 1) as u64) == y & (((1u64 << 21u64) - 1) as u64)
        && x & (((1u64 << 12u64) - 1) as u64) == y & (((1u64 << 12u64) - 1) as u64)) by (bit_vector)
        requires
            a % 0x1000 == 0,
            w % 0x1000 == 0,
            o < 0x1000,
            x == (a + o) as u64,
            y == (w + o) as u64,
            (a >> 39u64) & 0x1ff == (w >> 39u64) & 0x1ff,
            (a >> 30u64) & 0x1ff == (w >> 30u64) & 0x1ff,
            (a >> 21u64) & 0x1ff == (w >> 21u64) & 0x1ff,
            (a >> 12u64) & 0x1ff == (w >> 12u64) & 0x1ff,
    ;
    assert forall|l: int| 0 <= l <= 3 implies #[trigger] index_of(x, l) == index_of(y, l) by {
        assert(l == 0 || l == 1 || l == 2 || l == 3);
    }
    assert forall|l: int| 0 <= l <= 3 implies #[trigger] offset_in(x, l) == offset_in(y, l) by {
        assert(l == 0 || l == 1 || l == 2 || l == 3);
    }
    lemma_walk_alike::<T>(mem, root, x, y, 0);
}

/// What mapping the span from `start` over `size` bytes did, in every range of
/// root entries where the old tables were a tree and that holds the span: the
/// tables are still a tree, each page of the span maps a frame with `perm`
/// and `ty` (the one `frames` names, where it names one), and every other
/// address in the range translates as before.
pub open spec fn span_done<T: PageTableSpecific>(
    or: Seq<u64>, om: TableMemory, nr: Seq<u64>, nm: TableMemory, start: u64, size: u64,
    perm: PagePermission, ty: MapType, frames: spec_fn(u64) -> Option<u64>,
) -> bool {
    forall|lo: int, hi: int| #![trigger tree_ok::<T>(or, om, lo, hi)]
        tree_ok::<T>(or, om, lo, hi) && span_in(start, size, lo, hi) ==> {
            &&& tree_ok::<T>(nr, nm, lo, hi)
            &&& forall|a: u64| #[trigger] page_of_span(start, size, a) ==> page_backed::<T>(nr, nm, a, perm, ty)
            &&& forall|a: u64| #[trigger] page_of_span(start, size, a) && frames(a) is Some
                ==> translate::<T>(nr, nm, a) == Walk::Mapped(frames(a)->Some_0)
            &&& forall|v: u64| in_range(v, lo, hi) && off_span(start, size, v) ==> {
                &&& #[trigger] translate::<T>(nr, nm, v) == translate::<T>(or, om, v)
                &&& leaf::<T>(nr, nm, v) == leaf::<T>(or, om, v)
            }
        }
}

/// Maps each page of the span from `start_addr` over `size` bytes to a fresh
/// frame from the allocator, with permission `perm`, cachable.
fn map_region<T: PageTableSpecific, A: PhysAlloc>(
    pg: &mut PageTable<T, A>, mem: &mut TableMemory, start_addr: u64, size: u64, perm: PagePermission,
) -> (r: Result<(), MapError>)
    requires
        size > 0 ==> start_addr % 0x1000 == 0,
        start_addr + size <= u64::MAX,
    ensures
        size == 0 ==> r is Ok && final(pg)@ == old(pg)@ && *final(mem) == *old(mem),
        r is Ok ==> span_done::<T>(old(pg)@, *old(mem), final(pg)@, *final(mem), start_addr, size, perm,
            MapType::NormalCachable, |a: u64| None),
{
    let ghost or = pg@;
    let ghost om = *mem;
    let mut off: u64 = 0;
    while off < size
        invariant
            size > 0 ==> start_addr % 0x1000 == 0,
            start_addr + size <= u64::MAX,
            off <= size,
            off % 0x1000 == 0 || off == size,
            or == old(pg)@,
            om == *old(mem),
            off == 0 ==> pg@ == or && *mem == om,
            span_done::<T>(or, om, pg@, *mem, start_addr, off, perm, MapType::NormalCachable, |a: u64| None),
        decreases size - off,
    {
        let p = match A::allocate() {
            Some(p) => p,
            None => return Err(MapError::AllocationFailed),
        };
        if p.0 & !ADDR_MASK != 0 {
            return Err(MapError::UnusableAllocation);
        }
        let virt = start_addr + off;
        let pa = p.0;
        assert(pa % 0x1000 == 0 && virt % 0x1000 == 0) by (bit_vector)
            requires pa & !ADDR_MASK == 0, start_addr % 0x1000 == 0, off % 0x1000 == 0, virt == start_addr + off;
        let ghost cr = pg@;
        let ghost cm = *mem;
        let r = pg.map_4k(mem, p, virt, perm, MapType::NormalCachable);
        if r.is_err() {
            return r;
        }
        let next: u64 = if size - off > 0x1000 { off + 0x1000 } else { size };
        proof {
            assert forall|lo: int, hi: int| #![trigger tree_ok::<T>(or, om, lo, hi)]
                tree_ok::<T>(or, om, lo, hi) && span_in(start_addr, next, lo, hi) implies {
                    &&& tree_ok::<T>(pg@, *mem, lo, hi)
                    &&& forall|a: u64| #[trigger] page_of_span(start_addr, next, a)
                        ==> page_backed::<T>(pg@, *mem, a, perm, MapType::NormalCachable)
                    &&& forall|a: u64| #[trigger] page_of_span(start_addr, next, a) && (|a: u64| None::<u64>)(a) is Some
                        ==> translate::<T>(pg@, *mem, a) == Walk::Mapped((|a: u64| None::<u64>)(a)->Some_0)
                    &&& forall|v: u64| in_range(v, lo, hi) && off_span(start_addr, next, v) ==> {
                        &&& #[trigger] translate::<T>(pg@, *mem, v) == translate::<T>(or, om, v)
                        &&& leaf::<T>(pg@, *mem, v) == leaf::<T>(or, om, v)
                    }
                } by {
                assert(page_of_span(start_addr, next, virt));
                assert(in_range(virt, lo, hi));
                assert forall|a: u64| #[trigger] page_of_span(start_addr, off, a) implies in_range(a, lo, hi) by {
                    assert(page_of_span(start_addr, next, a));
                }
                assert(tree_ok::<T>(cr, cm, lo, hi));
                assert(tree_ok::<T>(pg@, *mem, lo, hi));
                assert(page_backed::<T>(pg@, *mem, virt, perm, MapType::NormalCachable)) by {
                    assert(translate::<T>(pg@, *mem, (virt + 0) as u64) == Walk::Mapped((p.0 + 0) as u64));
                }
                assert forall|a: u64| #[trigger] page_of_span(start_addr, next, a)
                    implies page_backed::<T>(pg@, *mem, a, perm, MapType::NormalCachable) by {
                    if a != virt {
                        assert(page_of_span(start_addr, off, a));
                        assert(page_backed::<T>(cr, cm, a, perm, MapType::NormalCachable));
                        let fa = translate::<T>(cr, cm, a)->Mapped_0;
                        if diverge(a, virt) <= 3 {
                            assert(in_range(a, lo, hi));
                            assert forall|o: u64| o < 0x1000 implies #[trigger] translate::<T>(pg@, *mem, (a + o) as u64)
                                == Walk::Mapped((fa + o) as u64) by {
                                let ao = (a + o) as u64;
                                assert(translate::<T>(cr, cm, ao) == Walk::Mapped((fa + o) as u64));
                                assert(diverge(ao, virt) == diverge(a, virt) && index_of(ao, 0) == index_of(a, 0)) by {
                                    assert(((ao >> 39u64) & 0x1ff == (a >> 39u64) & 0x1ff)
                                        && ((ao >> 30u64) & 0x1ff == (a >> 30u64) & 0x1ff)
                                        && ((ao >> 21u64) & 0x1ff == (a >> 21u64) & 0x1ff)
                                        && ((ao >> 12u64) & 0x1ff == (a >> 12u64) & 0x1ff)) by (bit_vector)
                                        requires a % 0x1000 == 0, o < 0x1000, ao == (a + o) as u64;
                                }
                            }
                            assert(translate::<T>(pg@, *mem, (a + 0) as u64) == Walk::Mapped((fa + 0) as u64));
                        } else {
                            let fv = p.0;
                            assert forall|o: u64| o < 0x1000 implies #[trigger] translate::<T>(pg@, *mem, (a + o) as u64)
                                == Walk::Mapped((fv + o) as u64) by {
                                lemma_same_page::<T>(pg@, *mem, a, virt, o);
                            }
                            lemma_same_page::<T>(pg@, *mem, a, virt, 0);
                            assert(translate::<T>(pg@, *mem, (a + 0) as u64) == Walk::Mapped((fv + 0) as u64));
                        }
                    }
                }
                assert forall|v: u64| in_range(v, lo, hi) && off_span(start_addr, next, v) implies {
                    &&& #[trigger] translate::<T>(pg@, *mem, v) == translate::<T>(or, om, v)
                    &&& leaf::<T>(pg@, *mem, v) == leaf::<T>(or, om, v)
                } by {
                    assert(page_of_span(start_addr, next, virt));
                    assert forall|a: u64| #[trigger] page_of_span(start_addr, off, a) implies diverge(v, a) <= 3 by {
                        assert(page_of_span(start_addr, next, a));
                    }
                }
            }
        }
        off = next;
    }
    Ok(())
}


/// The span lies in a range of root entries where the tables are a tree.
pub open spec fn span_in_tree<T: PageTableSpecific>(root: Seq<u64>, mem: TableMemory, start: u64, size: u64) -> bool {
    exists|lo: int, hi: int| tree_ok::<T>(root, mem, lo, hi) && span_in(start, size, lo, hi)
}

/// A page-aligned address keeps its indices when an in-page offset is added.
proof fn lemma_in_page(a: u64, o: u64, w: u64)
    requires
        a % 0x1000 == 0,
        o < 0x1000,
    ensures
        a + o <= u64::MAX,
        diverge((a + o) as u64, w) == diverge(a, w),
        index_of((a + o) as u64, 0) == index_of(a, 0),
{
    let ao = (a + o) as u64;
    assert(a + o <= u64::MAX
        && ((ao >> 39u64) & 0x1ff == (a >> 39u64) & 0x1ff)
        && ((ao >> 30u64) & 0x1ff == (a >> 30u64) & 0x1ff)
        && ((ao >> 21u64) & 0x1ff == (a >> 21u64) & 0x1ff)
        && ((ao >> 12u64) & 0x1ff == (a >> 12u64) & 0x1ff)) by (bit_vector)
        requires a % 0x1000 == 0, o < 0x1000, ao == (a + o) as u64;
}

/// One page mapping, from the tables `cr`, `cm` to `nr`, `nm`: in every range
/// where the tables were a tree and that holds `virt`, they still are, the
/// page at `virt` maps `fv`, and no other page changed.
pub open spec fn step_ok<T: PageTableSpecific>(
    cr: Seq<u64>, cm: TableMemory, nr: Seq<u64>, nm: TableMemory, virt: u64, perm: PagePermission, ty: MapType, fv: u64,
) -> bool {
    forall|lo: int, hi: int| #![trigger tree_ok::<T>(cr, cm, lo, hi)]
        tree_ok::<T>(cr, cm, lo, hi) && in_range(virt, lo, hi) ==> {
            &&& tree_ok::<T>(nr, nm, lo, hi)
            &&& page_mapped::<T>(nr, nm, virt, perm, ty, fv)
            &&& forall|v: u64| in_range(v, lo, hi) && diverge(v, virt) <= 3 ==> {
                &&& #[trigger] translate::<T>(nr, nm, v) == translate::<T>(cr, cm, v)
                &&& leaf::<T>(nr, nm, v) == leaf::<T>(cr, cm, v)
            }
        }
}

/// Mapping the next page of a span extends what was done for the pages before it.
proof fn lemma_span_step<T: PageTableSpecific>(
    or: Seq<u64>, om: TableMemory, cr: Seq<u64>, cm: TableMemory, nr: Seq<u64>, nm: TableMemory,
    start: u64, off: u64, next: u64, perm: PagePermission, ty: MapType, frames: spec_fn(u64) -> Option<u64>, fv: u64,
)
    requires
        start % 0x1000 == 0,
        off % 0x1000 == 0,
        off < next <= off + 0x1000,
        start + next <= u64::MAX,
        span_done::<T>(or, om, cr, cm, start, off, perm, ty, frames),
        step_ok::<T>(cr, cm, nr, nm, (start + off) as u64, perm, ty, fv),
        frames((start + off) as u64) is Some ==> frames((start + off) as u64)->Some_0 == fv,
        forall|a: u64| #[trigger] page_of_span(start, off, a) && diverge(a, (start + off) as u64) == 4 && frames(a) is Some
            ==> frames(a) == frames((start + off) as u64),
    ensures
        span_done::<T>(or, om, nr, nm, start, next, perm, ty, frames),
{
    let virt = (start + off) as u64;
    assert forall|lo: int, hi: int| #![trigger tree_ok::<T>(or, om, lo, hi)]
        tree_ok::<T>(or, om, lo, hi) && span_in(start, next, lo, hi) implies {
            &&& tree_ok::<T>(nr, nm, lo, hi)
            &&& forall|a: u64| #[trigger] page_of_span(start, next, a) ==> page_backed::<T>(nr, nm, a, perm, ty)
            &&& forall|a: u64| #[trigger] page_of_span(start, next, a) && frames(a) is Some
                ==> translate::<T>(nr, nm, a) == Walk::Mapped(frames(a)->Some_0)
            &&& forall|v: u64| in_range(v, lo, hi) && off_span(start, next, v) ==> {
                &&& #[trigger] translate::<T>(nr, nm, v) == translate::<T>(or, om, v)
                &&& leaf::<T>(nr, nm, v) == leaf::<T>(or, om, v)
            }
        } by {
        assert(page_of_span(start, next, virt));
        assert(in_range(virt, lo, hi));
        assert(span_in(start, off, lo, hi)) by {
            assert forall|a: u64| #[trigger] page_of_span(start, off, a) implies in_range(a, lo, hi) by {
                assert(page_of_span(start, next, a));
            }
        }
        assert(tree_ok::<T>(cr, cm, lo, hi));
        assert(page_mapped::<T>(nr, nm, virt, perm, ty, fv));
        assert(translate::<T>(nr, nm, (virt + 0) as u64) == Walk::Mapped((fv + 0) as u64));
        assert forall|a: u64| #[trigger] page_of_span(start, next, a)
            implies page_backed::<T>(nr, nm, a, perm, ty)
                && (frames(a) is Some ==> translate::<T>(nr, nm, a) == Walk::Mapped(frames(a)->Some_0)) by {
            if a != virt {
                assert(page_of_span(start, off, a));
                assert(page_backed::<T>(cr, cm, a, perm, ty));
                let fa = translate::<T>(cr, cm, a)->Mapped_0;
                if diverge(a, virt) <= 3 {
                    assert(in_range(a, lo, hi));
                    assert forall|o: u64| o < 0x1000 implies #[trigger] translate::<T>(nr, nm, (a + o) as u64)
                        == Walk::Mapped((fa + o) as u64) by {
                        lemma_in_page(a, o, virt);
                        assert(translate::<T>(cr, cm, (a + o) as u64) == Walk::Mapped((fa + o) as u64));
                    }
                    assert(translate::<T>(nr, nm, (a + 0) as u64) == Walk::Mapped((fa + 0) as u64));
                } else {
                    assert forall|o: u64| o < 0x1000 implies #[trigger] translate::<T>(nr, nm, (a + o) as u64)
                        == Walk::Mapped((fv + o) as u64) by {
                        lemma_same_page::<T>(nr, nm, a, virt, o);
                    }
                    lemma_same_page::<T>(nr, nm, a, virt, 0);
                    assert(translate::<T>(nr, nm, (a + 0) as u64) == Walk::Mapped((fv + 0) as u64));
                }
            }
        }
        assert forall|v: u64| in_range(v, lo, hi) && off_span(start, next, v) implies {
            &&& #[trigger] translate::<T>(nr, nm, v) == translate::<T>(or, om, v)
            &&& leaf::<T>(nr, nm, v) == leaf::<T>(or, om, v)
        } by {
            assert(page_of_span(start, next, virt));
            assert forall|a: u64| #[trigger] page_of_span(start, off, a) implies diverge(v, a) <= 3 by {
                assert(page_of_span(start, next, a));
            }
        }
    }
}

/// While a span is mapped again to the frames it had, its pages keep their
/// translations.
proof fn lemma_reprotect_keeps<T: PageTableSpecific>(
    or: Seq<u64>, om: TableMemory, cr: Seq<u64>, cm: TableMemory, nr: Seq<u64>, nm: TableMemory,
    start: u64, size: u64, virt: u64, perm: PagePermission,
)
    requires
        page_of_span(start, size, virt),
        start % 0x1000 == 0,
        translate::<T>(or, om, virt) is Mapped,
        step_ok::<T>(cr, cm, nr, nm, virt, perm, MapType::NormalCachable, translate::<T>(or, om, virt)->Mapped_0),
        forall|lo: int, hi: int| #![trigger tree_ok::<T>(or, om, lo, hi)]
            tree_ok::<T>(or, om, lo, hi) && span_in(start, size, lo, hi) ==> tree_ok::<T>(cr, cm, lo, hi),
        forall|lo: int, hi: int| #![trigger tree_ok::<T>(or, om, lo, hi)]
            tree_ok::<T>(or, om, lo, hi) && span_in(start, size, lo, hi)
                ==> forall|a: u64| #[trigger] page_of_span(start, size, a)
                    ==> translate::<T>(cr, cm, a) == translate::<T>(or, om, a),
    ensures
        forall|lo: int, hi: int| #![trigger tree_ok::<T>(or, om, lo, hi)]
            tree_ok::<T>(or, om, lo, hi) && span_in(start, size, lo, hi)
                ==> forall|a: u64| #[trigger] page_of_span(start, size, a)
                    ==> translate::<T>(nr, nm, a) == translate::<T>(or, om, a),
{
    let fv = translate::<T>(or, om, virt)->Mapped_0;
    assert forall|lo: int, hi: int| #![trigger tree_ok::<T>(or, om, lo, hi)]
        tree_ok::<T>(or, om, lo, hi) && span_in(start, size, lo, hi) implies
            forall|a: u64| #[trigger] page_of_span(start, size, a)
                ==> translate::<T>(nr, nm, a) == translate::<T>(or, om, a) by {
        assert(in_range(virt, lo, hi));
        assert(tree_ok::<T>(cr, cm, lo, hi));
        assert(translate::<T>(nr, nm, (virt + 0) as u64) == Walk::Mapped((fv + 0) as u64));
        assert(translate::<T>(cr, cm, virt) == translate::<T>(or, om, virt));
        assert forall|a: u64| #[trigger] page_of_span(start, size, a)
            implies translate::<T>(nr, nm, a) == translate::<T>(or, om, a) by {
            assert(translate::<T>(cr, cm, a) == translate::<T>(or, om, a));
            assert((virt + 0) as u64 == virt);
            assert((fv + 0) as u64 == fv);
            if a != virt {
                if diverge(a, virt) <= 3 {
                    assert(in_range(a, lo, hi));
                } else {
                    lemma_same_page::<T>(nr, nm, a, virt, 0);
                    lemma_same_page::<T>(or, om, a, virt, 0);
                }
            }
        }
    }
}

/// Maps each page of the span again, to the frame it maps now, with
/// permission `perm`, cachable.
fn reprotect_region<T: PageTableSpecific, A: PhysAlloc>(
    pg: &mut PageTable<T, A>, mem: &mut TableMemory, start_addr: u64, size: u64, perm: PagePermission,
)
    requires
        size > 0 ==> start_addr % 0x1000 == 0,
        start_addr + size <= u64::MAX,
        forall|a: u64| #[trigger] page_of_span(start_addr, size, a) ==> translate::<T>(old(pg)@, *old(mem), a) is Mapped,
        span_in_tree::<T>(old(pg)@, *old(mem), start_addr, size),
    ensures
        span_done::<T>(old(pg)@, *old(mem), final(pg)@, *final(mem), start_addr, size, perm, MapType::NormalCachable,
            |a: u64| Some(translate::<T>(old(pg)@, *old(mem), a)->Mapped_0)),
{
    let ghost or = pg@;
    let ghost om = *mem;
    let ghost frames = |a: u64| Some(translate::<T>(or, om, a)->Mapped_0);
    let ghost (lo0, hi0) = choose|lo: int, hi: int| tree_ok::<T>(or, om, lo, hi) && span_in(start_addr, size, lo, hi);
    let mut off: u64 = 0;
    while off < size
        invariant
            size > 0 ==> start_addr % 0x1000 == 0,
            start_addr + size <= u64::MAX,
            off <= size,
            off % 0x1000 == 0 || off == size,
            or == old(pg)@,
            om == *old(mem),
            frames == (|a: u64| Some(translate::<T>(or, om, a)->Mapped_0)),
            forall|a: u64| #[trigger] page_of_span(start_addr, size, a) ==> translate::<T>(or, om, a) is Mapped,
            tree_ok::<T>(or, om, lo0, hi0),
            span_in(start_addr, size, lo0, hi0),
            span_done::<T>(or, om, pg@, *mem, start_addr, off, perm, MapType::NormalCachable, frames),
            forall|lo: int, hi: int| #![trigger tree_ok::<T>(or, om, lo, hi)]
                tree_ok::<T>(or, om, lo, hi) && span_in(start_addr, size, lo, hi)
                    ==> forall|a: u64| #[trigger] page_of_span(start_addr, size, a)
                        ==> translate::<T>(pg@, *mem, a) == translate::<T>(or, om, a),
        decreases size - off,
    {
        let virt = start_addr + off;
        let ghost cr = pg@;
        let ghost cm = *mem;
        let ghost fv = translate::<T>(or, om, virt)->Mapped_0;
        proof {
            assert(page_of_span(start_addr, size, virt));
            assert(in_range(virt, lo0, hi0));
            assert forall|lo: int, hi: int| #![trigger tree_ok::<T>(or, om, lo, hi)]
                tree_ok::<T>(or, om, lo, hi) && span_in(start_addr, size, lo, hi) implies tree_ok::<T>(cr, cm, lo, hi) by {
                assert(span_in(start_addr, off, lo, hi)) by {
                    assert forall|a: u64| #[trigger] page_of_span(start_addr, off, a) implies in_range(a, lo, hi) by {
                        assert(page_of_span(start_addr, size, a));
                    }
                }
            }
            assert(tree_ok::<T>(cr, cm, lo0, hi0));
            assert(translate::<T>(cr, cm, virt) == translate::<T>(or, om, virt));
            assert(path_sound::<T>(cr, cm, virt, 3));
            lemma_mapped_leaf::<T>(cr, cm, virt);
        }
        let r = pg.reprotect_4k(mem, virt, perm, MapType::NormalCachable);
        assert(r is Ok);
        let next: u64 = if size - off > 0x1000 { off + 0x1000 } else { size };
        proof {
            assert(step_ok::<T>(cr, cm, pg@, *mem, virt, perm, MapType::NormalCachable, fv)) by {
                assert forall|lo: int, hi: int| #![trigger tree_ok::<T>(cr, cm, lo, hi)]
                    tree_ok::<T>(cr, cm, lo, hi) && in_range(virt, lo, hi) implies page_mapped::<T>(
                        pg@, *mem, virt, perm, MapType::NormalCachable, fv) by {
                    assert(path_sound::<T>(cr, cm, virt, 3));
                    lemma_mapped_leaf::<T>(cr, cm, virt);
                }
            }
            assert forall|a: u64| #[trigger] page_of_span(start_addr, off, a) && diverge(a, virt) == 4 && frames(a) is Some
                implies frames(a) == frames(virt) by {
                lemma_same_page::<T>(or, om, a, virt, 0);
            }
            lemma_span_step::<T>(or, om, cr, cm, pg@, *mem, start_addr, off, next, perm, MapType::NormalCachable, frames, fv);
            lemma_reprotect_keeps::<T>(or, om, cr, cm, pg@, *mem, start_addr, size, virt, perm);
        }
        off = next;
    }
}

/// Distinct page-aligned addresses less than 2^48 apart lie on distinct pages
/// of the tables.
proof fn lemma_distinct_pages(a: u64, b: u64)
    requires
        a % 0x1000 == 0,
        b % 0x1000 == 0,
        a < b,
        b - a < 0x1_0000_0000_0000,
    ensures
        diverge(a, b) <= 3,
{
    assert(!((a >> 39u64) & 0x1ff == (b >> 39u64) & 0x1ff && (a >> 30u64) & 0x1ff == (b >> 30u64) & 0x1ff
        && (a >> 21u64) & 0x1ff == (b >> 21u64) & 0x1ff && (a >> 12u64) & 0x1ff == (b >> 12u64) & 0x1ff)) by (bit_vector)
        requires a % 0x1000 == 0, b % 0x1000 == 0, a < b, b - a < 0x1_0000_0000_0000u64;
}

/// The frame that page `a` of an alias of `start_phys` at `start` gets.
pub open spec fn alias_frame(start_phys: u64, start: u64, a: u64) -> u64 {
    (start_phys + (a - start)) as u64
}

/// Within root entries `lo..hi` the tables are a tree that holds the span,
/// and every page of the span already has all its tables: mapping it needs
/// no new table.
pub open spec fn span_ready<T: PageTableSpecific>(
    root: Seq<u64>, mem: TableMemory, start: u64, size: u64, lo: int, hi: int,
) -> bool {
    &&& tree_ok::<T>(root, mem, lo, hi)
    &&& span_in(start, size, lo, hi)
    &&& forall|a: u64| #[trigger] page_of_span(start, size, a) ==> path_present::<T>(root, mem, a, 3)
}

/// Maps each page of the span from `start_addr` over `size` bytes to the
/// frame at the same offset from `start_phys`.
fn map_alias<T: PageTableSpecific, A: PhysAlloc>(
    pg: &mut PageTable<T, A>, mem: &mut TableMemory, start_phys: PhysAddr, start_addr: u64, size: u64,
    map_type: MapType, perm: PagePermission,
) -> (r: Result<(), MapError>)
    requires
        size > 0 ==> start_addr % 0x1000 == 0 && start_phys.0 % 0x1000 == 0,
        start_addr + size <= u64::MAX,
        start_phys.0 + size <= u64::MAX,
    ensures
        size == 0 ==> r is Ok && final(pg)@ == old(pg)@ && *final(mem) == *old(mem),
        r is Ok && size <= 0x1_0000_0000_0000 && start_phys.0 + size <= 0x10_0000_0000_0000 ==>
            span_done::<T>(old(pg)@, *old(mem), final(pg)@, *final(mem), start_addr, size, perm, map_type,
                |a: u64| Some(alias_frame(start_phys.0, start_addr, a))),
        forall|lo: int, hi: int| #[trigger] span_ready::<T>(old(pg)@, *old(mem), start_addr, size, lo, hi) ==> r is Ok,
{
    let ghost or = pg@;
    let ghost om = *mem;
    let ghost ready = exists|lo: int, hi: int| #[trigger] span_ready::<T>(or, om, start_addr, size, lo, hi);
    let ghost (glo, ghi) = if ready {
        choose|lo: int, hi: int| #[trigger] span_ready::<T>(or, om, start_addr, size, lo, hi)
    } else {
        (0int, 0int)
    };
    let ghost frames = |a: u64| Some(alias_frame(start_phys.0, start_addr, a));
    let ghost small = size <= 0x1_0000_0000_0000 && start_phys.0 + size <= 0x10_0000_0000_0000;
    let mut off: u64 = 0;
    while off < size
        invariant
            size > 0 ==> start_addr % 0x1000 == 0 && start_phys.0 % 0x1000 == 0,
            start_addr + size <= u64::MAX,
            start_phys.0 + size <= u64::MAX,
            off <= size,
            off % 0x1000 == 0 || off == size,
            or == old(pg)@,
            om == *old(mem),
            frames == (|a: u64| Some(alias_frame(start_phys.0, start_addr, a))),
            small == (size <= 0x1_0000_0000_0000 && start_phys.0 + size <= 0x10_0000_0000_0000),
            off == 0 ==> pg@ == or && *mem == om,
            small ==> span_done::<T>(or, om, pg@, *mem, start_addr, off, perm, map_type, frames),
            ready == exists|lo: int, hi: int| #[trigger] span_ready::<T>(or, om, start_addr, size, lo, hi),
            ready ==> span_ready::<T>(or, om, start_addr, size, glo, ghi),
            ready ==> tree_ok::<T>(pg@, *mem, glo, ghi),
            ready ==> forall|a: u64| #[trigger] page_of_span(start_addr, size, a) && a - start_addr >= off
                ==> path_present::<T>(pg@, *mem, a, 3),
        decreases size - off,
    {
        let virt = start_addr + off;
        let sp = start_phys.0;
        let phys = sp + off;
        assert(phys % 0x1000 == 0 && virt % 0x1000 == 0) by (bit_vector)
            requires sp % 0x1000 == 0, start_addr % 0x1000 == 0, off % 0x1000 == 0,
                virt == start_addr + off, phys == sp + off;
        let ghost cr = pg@;
        let ghost cm = *mem;
        proof {
            if ready {
                assert(page_of_span(start_addr, size, virt));
                assert(path_present::<T>(cr, cm, virt, 3));
            }
        }
        let r = pg.map_4k(mem, PhysAddr(phys), virt, perm, map_type);
        if r.is_err() {
            return r;
        }
        let next: u64 = if size - off > 0x1000 { off + 0x1000 } else { size };
        proof {
            if ready {
                assert(page_of_span(start_addr, size, virt));
                assert(in_range(virt, glo, ghi));
                assert(tree_ok::<T>(cr, cm, glo, ghi));
                assert(path_sound::<T>(cr, cm, virt, 3));
                assert(tree_ok::<T>(pg@, *mem, glo, ghi));
                assert forall|a: u64| #[trigger] page_of_span(start_addr, size, a) && a - start_addr >= next
                    implies path_present::<T>(pg@, *mem, a, 3) by {
                    assert(in_range(a, glo, ghi));
                    lemma_install_keeps_present::<T>(cr, cm, pg@, *mem, virt, glo, ghi, a);
                }
            }
        }
        proof {
            if small {
                assert(is_frame(phys)) by (bit_vector)
                    requires phys % 0x1000 == 0, phys < 0x10_0000_0000_0000u64;
                assert(step_ok::<T>(cr, cm, pg@, *mem, virt, perm, map_type, phys)) by {
                    assert forall|lo: int, hi: int| #![trigger tree_ok::<T>(cr, cm, lo, hi)]
                        tree_ok::<T>(cr, cm, lo, hi) && in_range(virt, lo, hi)
                        implies page_mapped::<T>(pg@, *mem, virt, perm, map_type, phys) by {
                        assert(path_sound::<T>(cr, cm, virt, 3));
                    }
                }
                assert forall|a: u64| #[trigger] page_of_span(start_addr, off, a) && diverge(a, virt) == 4 && frames(a) is Some
                    implies frames(a) == frames(virt) by {
                    lemma_distinct_pages(a, virt);
                }
                lemma_span_step::<T>(or, om, cr, cm, pg@, *mem, start_addr, off, next, perm, map_type, frames, phys);
            }
        }
        off = next;
    }
    Ok(())
}

/// The test `create` makes on each existing region `b`: it refuses the span
/// when `b` starts inside it (both ends included) or ends inside it.
pub open spec fn collides(b: (u64, u64, u64), start: u64, size: u64) -> bool {
    ||| (b.0 >= start && b.0 <= start + size)
    ||| (b.0 + b.1 > start && b.0 + b.1 <= start + size)
}

/// Some region collides with the span.
pub open spec fn collides_any(s: Seq<(u64, u64, u64)>, start: u64, size: u64) -> bool {
    exists|i: int| 0 <= i < s.len() && #[trigger] collides(s[i], start, size)
}

/// Region `i` is the first one that starts at `addr`.
pub open spec fn first_at(s: Seq<(u64, u64, u64)>, addr: u64, i: int) -> bool {
    &&& 0 <= i < s.len()
    &&& s[i].0 == addr
    &&& forall|j: int| 0 <= j < i ==> #[trigger] s[j].0 != addr
}

/// The index of the first region that starts at `addr`.
pub open spec fn index_at(s: Seq<(u64, u64, u64)>, addr: u64) -> int {
    choose|i: int| first_at(s, addr, i)
}

/// Only one region is the first to start at an address.
pub proof fn lemma_first_at_unique(s: Seq<(u64, u64, u64)>, addr: u64, i: int)
    requires
        first_at(s, addr, i),
    ensures
        index_at(s, addr) == i,
{
    let k = index_at(s, addr);
    assert(first_at(s, addr, k));
    if k < i {
        assert(s[k].0 != addr);
    } else if i < k {
        assert(s[i].0 != addr);
    }
}

/// A region that starts inside the span (after its first byte).
pub open spec fn starts_inside(b: (u64, u64, u64), start: u64, size: u64) -> bool {
    b.0 > start && b.0 <= start + size
}

/// A region that ends inside the span.
pub open spec fn ends_inside(b: (u64, u64, u64), start: u64, size: u64) -> bool {
    b.0 + b.1 > start && b.0 + b.1 <= start + size
}

/// What `create_with_overlap` finds in the regions.
#[derive(Debug, Copy, Clone, PartialEq, Eq, Structural)]
pub enum OverlapScan {
    /// A region starts inside the span before any region ends inside it.
    StartsInside,
    /// Region `i` is the first that ends inside the span.
    EndsInside(usize),
    /// No region starts or ends inside the span.
    Clear,
}

/// The scan of the regions from index `i` on: the first region that starts
/// or ends inside the span decides.
pub open spec fn scan_from(s: Seq<(u64, u64, u64)>, start: u64, size: u64, i: nat) -> OverlapScan
    decreases s.len() - i,
{
    if i >= s.len() {
        OverlapScan::Clear
    } else if starts_inside(s[i as int], start, size) {
        OverlapScan::StartsInside
    } else if ends_inside(s[i as int], start, size) {
        OverlapScan::EndsInside(i as usize)
    } else {
        scan_from(s, start, size, i + 1)
    }
}

/// What `create_with_overlap` did to the tables when it found a region
/// ending inside the span: the part of the span up to that region's end
/// (`overlap` bytes) was mapped again with `perm` if `reprotected`, the rest
/// (`deficit` bytes from `mid`) was mapped to fresh frames; in every range of
/// root entries where the old tables were a tree and that holds both parts,
/// the tables are still a tree and every address outside the parts that
/// changed translates as before.
pub open spec fn overlap_done<T: PageTableSpecific>(
    or: Seq<u64>, om: TableMemory, nr: Seq<u64>, nm: TableMemory, start: u64, overlap: u64, mid: u64,
    deficit: u64, perm: PagePermission, reprotected: bool,
) -> bool {
    forall|lo: int, hi: int| #![trigger tree_ok::<T>(or, om, lo, hi)]
        tree_ok::<T>(or, om, lo, hi) && span_in(start, overlap, lo, hi) && span_in(mid, deficit, lo, hi) ==> {
            &&& tree_ok::<T>(nr, nm, lo, hi)
            &&& forall|a: u64| #[trigger] page_of_span(mid, deficit, a)
                ==> page_backed::<T>(nr, nm, a, perm, MapType::NormalCachable)
            &&& reprotected ==> forall|a: u64| #[trigger] page_of_span(start, overlap, a) && off_span(mid, deficit, a)
                ==> page_mapped::<T>(nr, nm, a, perm, MapType::NormalCachable, translate::<T>(or, om, a)->Mapped_0)
            &&& forall|v: u64| in_range(v, lo, hi) && off_span(mid, deficit, v) && (reprotected ==> off_span(start, overlap, v)) ==> {
                &&& #[trigger] translate::<T>(nr, nm, v) == translate::<T>(or, om, v)
                &&& leaf::<T>(nr, nm, v) == leaf::<T>(or, om, v)
            }
        }
}

/// A page outside a span that was mapped keeps its mapping.
#[verifier::spinoff_prover]
proof fn lemma_span_keeps_page<T: PageTableSpecific>(
    xr: Seq<u64>, xm: TableMemory, nr: Seq<u64>, nm: TableMemory, mid: u64, deficit: u64, a: u64, lo: int, hi: int,
    perm: PagePermission, frame: u64,
)
    requires
        span_done::<T>(xr, xm, nr, nm, mid, deficit, perm, MapType::NormalCachable, |a: u64| None),
        tree_ok::<T>(xr, xm, lo, hi),
        span_in(mid, deficit, lo, hi),
        in_range(a, lo, hi),
        a % 0x1000 == 0,
        off_span(mid, deficit, a),
        page_mapped::<T>(xr, xm, a, perm, MapType::NormalCachable, frame),
    ensures
        page_mapped::<T>(nr, nm, a, perm, MapType::NormalCachable, frame),
{
    assert(translate::<T>(nr, nm, a) == translate::<T>(xr, xm, a));
    assert forall|o: u64| o < 0x1000 implies #[trigger] translate::<T>(nr, nm, (a + o) as u64)
        == Walk::Mapped((frame + o) as u64) by {
        let ao = (a + o) as u64;
        assert forall|p: u64| #[trigger] page_of_span(mid, deficit, p) implies diverge(ao, p) <= 3 by {
            lemma_in_page(a, o, p);
        }
        lemma_in_page(a, o, a);
        assert(in_range(ao, lo, hi));
        assert(off_span(mid, deficit, ao));
        assert(translate::<T>(nr, nm, ao) == translate::<T>(xr, xm, ao));
        assert(translate::<T>(xr, xm, ao) == Walk::Mapped((frame + o) as u64));
    }
}

/// Mapping a span again and then mapping another one composes as
/// `overlap_done` says.
#[verifier::spinoff_prover]
proof fn lemma_overlap_done<T: PageTableSpecific>(
    or: Seq<u64>, om: TableMemory, xr: Seq<u64>, xm: TableMemory, nr: Seq<u64>, nm: TableMemory,
    start: u64, overlap: u64, mid: u64, deficit: u64, perm: PagePermission, reprotected: bool,
)
    requires
        reprotected ==> start % 0x1000 == 0,
        reprotected ==> span_done::<T>(or, om, xr, xm, start, overlap, perm, MapType::NormalCachable,
            |a: u64| Some(translate::<T>(or, om, a)->Mapped_0)),
        !reprotected ==> xr == or && xm == om,
        span_done::<T>(xr, xm, nr, nm, mid, deficit, perm, MapType::NormalCachable, |a: u64| None),
    ensures
        overlap_done::<T>(or, om, nr, nm, start, overlap, mid, deficit, perm, reprotected),
{
    assert forall|lo: int, hi: int| #![trigger tree_ok::<T>(or, om, lo, hi)]
        tree_ok::<T>(or, om, lo, hi) && span_in(start, overlap, lo, hi) && span_in(mid, deficit, lo, hi) implies {
            &&& tree_ok::<T>(nr, nm, lo, hi)
            &&& forall|a: u64| #[trigger] page_of_span(mid, deficit, a)
                ==> page_backed::<T>(nr, nm, a, perm, MapType::NormalCachable)
            &&& reprotected ==> forall|a: u64| #[trigger] page_of_span(start, overlap, a) && off_span(mid, deficit, a)
                ==> page_mapped::<T>(nr, nm, a, perm, MapType::NormalCachable, translate::<T>(or, om, a)->Mapped_0)
            &&& forall|v: u64| in_range(v, lo, hi) && off_span(mid, deficit, v) && (reprotected ==> off_span(start, overlap, v)) ==> {
                &&& #[trigger] translate::<T>(nr, nm, v) == translate::<T>(or, om, v)
                &&& leaf::<T>(nr, nm, v) == leaf::<T>(or, om, v)
            }
        } by {
        assert(tree_ok::<T>(xr, xm, lo, hi));
        if reprotected {
            assert forall|a: u64| #[trigger] page_of_span(start, overlap, a) && off_span(mid, deficit, a)
                implies page_mapped::<T>(nr, nm, a, perm, MapType::NormalCachable, translate::<T>(or, om, a)->Mapped_0) by {
                assert(in_range(a, lo, hi));
                assert(page_backed::<T>(xr, xm, a, perm, MapType::NormalCachable));
                assert(translate::<T>(xr, xm, a) == Walk::Mapped(translate::<T>(or, om, a)->Mapped_0));
                lemma_span_keeps_page::<T>(xr, xm, nr, nm, mid, deficit, a, lo, hi, perm, translate::<T>(or, om, a)->Mapped_0);
            }
        }
    }
}

/// The address space is sound within root entries `lo..hi`: the tables are
/// a tree there, every page of every region lies there, each region that is
/// not empty starts on a page, and every page of every region is mapped.
pub open spec fn aspace_ok<T: PageTableSpecific>(
    root: Seq<u64>, mem: TableMemory, blocks: Seq<(u64, u64, u64)>, lo: int, hi: int,
) -> bool {
    &&& tree_ok::<T>(root, mem, lo, hi)
    &&& forall|i: int, a: u64| 0 <= i < blocks.len() && #[trigger] page_of_span(blocks[i].0, blocks[i].1, a)
        ==> in_range(a, lo, hi) && translate::<T>(root, mem, a) is Mapped
    &&& forall|i: int| 0 <= i < blocks.len() && #[trigger] blocks[i].1 > 0 ==> blocks[i].0 % 0x1000 == 0
}

/// A mapped page keeps being mapped when a span is mapped.
proof fn lemma_span_keeps_mapped<T: PageTableSpecific>(
    or: Seq<u64>, om: TableMemory, nr: Seq<u64>, nm: TableMemory, start: u64, size: u64,
    perm: PagePermission, ty: MapType, frames: spec_fn(u64) -> Option<u64>, lo: int, hi: int, a: u64,
)
    requires
        span_done::<T>(or, om, nr, nm, start, size, perm, ty, frames),
        tree_ok::<T>(or, om, lo, hi),
        span_in(start, size, lo, hi),
        size > 0 ==> start % 0x1000 == 0,
        in_range(a, lo, hi),
        a % 0x1000 == 0,
        translate::<T>(or, om, a) is Mapped,
    ensures
        translate::<T>(nr, nm, a) is Mapped,
{
    if !off_span(start, size, a) {
        let p = choose|p: u64| page_of_span(start, size, p) && !(diverge(a, p) <= 3);
        assert(page_backed::<T>(nr, nm, p, perm, ty));
        lemma_same_page::<T>(nr, nm, a, p, 0);
        assert((a + 0) as u64 == a && (p + 0) as u64 == p);
    } else {
        assert(translate::<T>(nr, nm, a) == translate::<T>(or, om, a));
    }
}

/// Mapping a span keeps the address space sound for the regions it had.
proof fn lemma_span_keeps_aspace<T: PageTableSpecific>(
    or: Seq<u64>, om: TableMemory, nr: Seq<u64>, nm: TableMemory, blocks: Seq<(u64, u64, u64)>,
    start: u64, size: u64, perm: PagePermission, ty: MapType, frames: spec_fn(u64) -> Option<u64>, lo: int, hi: int,
)
    requires
        aspace_ok::<T>(or, om, blocks, lo, hi),
        span_done::<T>(or, om, nr, nm, start, size, perm, ty, frames),
        span_in(start, size, lo, hi),
        size > 0 ==> start % 0x1000 == 0,
    ensures
        aspace_ok::<T>(nr, nm, blocks, lo, hi),
{
    assert forall|i: int, a: u64| 0 <= i < blocks.len() && #[trigger] page_of_span(blocks[i].0, blocks[i].1, a)
        implies in_range(a, lo, hi) && translate::<T>(nr, nm, a) is Mapped by {
        assert(a % 0x1000 == 0);
        lemma_span_keeps_mapped::<T>(or, om, nr, nm, start, size, perm, ty, frames, lo, hi, a);
    }
}

/// A region may take a new size that reaches no further than the pages of a
/// span that starts where it ends, when those pages are mapped.
proof fn lemma_grow_region<T: PageTableSpecific>(
    root: Seq<u64>, mem: TableMemory, blocks: Seq<(u64, u64, u64)>, i: int, new_size: u64, span_size: u64, lo: int, hi: int,
)
    requires
        aspace_ok::<T>(root, mem, blocks, lo, hi),
        0 <= i < blocks.len(),
        new_size <= blocks[i].1 + span_size,
        span_size > 0 ==> (blocks[i].0 + blocks[i].1) % 0x1000 == 0,
        new_size > 0 ==> blocks[i].0 % 0x1000 == 0,
        forall|p: u64| #[trigger] page_of_span((blocks[i].0 + blocks[i].1) as u64, span_size, p)
            ==> in_range(p, lo, hi) && translate::<T>(root, mem, p) is Mapped,
    ensures
        aspace_ok::<T>(root, mem, blocks.update(i, (blocks[i].0, new_size, blocks[i].2)), lo, hi),
{
    let b = blocks[i];
    let nb = blocks.update(i, (b.0, new_size, b.2));
    assert forall|k: int, a: u64| 0 <= k < nb.len() && #[trigger] page_of_span(nb[k].0, nb[k].1, a)
        implies in_range(a, lo, hi) && translate::<T>(root, mem, a) is Mapped by {
        if k != i {
            assert(nb[k] == blocks[k]);
            assert(page_of_span(blocks[k].0, blocks[k].1, a));
        } else if a - b.0 < b.1 {
            assert(page_of_span(blocks[i].0, blocks[i].1, a));
        } else {
            assert(page_of_span((b.0 + b.1) as u64, span_size, a));
        }
    }
    assert forall|k: int| 0 <= k < nb.len() && #[trigger] nb[k].1 > 0 implies nb[k].0 % 0x1000 == 0 by {
        if k != i {
            assert(nb[k] == blocks[k]);
        }
    }
}

/// Law: creating a region keeps the address space sound in every range that
/// holds the new span.
pub proof fn lemma_create_keeps_aspace<T: PageTableSpecific>(
    or: Seq<u64>, om: TableMemory, nr: Seq<u64>, nm: TableMemory, blocks: Seq<(u64, u64, u64)>,
    start: u64, size: u64, perm: PagePermission, ty: MapType, frames: spec_fn(u64) -> Option<u64>, lo: int, hi: int,
)
    requires
        aspace_ok::<T>(or, om, blocks, lo, hi),
        span_done::<T>(or, om, nr, nm, start, size, perm, ty, frames),
        span_in(start, size, lo, hi),
        size > 0 ==> start % 0x1000 == 0,
    ensures
        aspace_ok::<T>(nr, nm, blocks.push((start, size, perm.bits())), lo, hi),
{
    let nb = blocks.push((start, size, perm.bits()));
    assert(tree_ok::<T>(nr, nm, lo, hi));
    assert forall|i: int, a: u64| 0 <= i < nb.len() && #[trigger] page_of_span(nb[i].0, nb[i].1, a)
        implies in_range(a, lo, hi) && translate::<T>(nr, nm, a) is Mapped by {
        if i < blocks.len() {
            assert(nb[i] == blocks[i]);
            assert(page_of_span(blocks[i].0, blocks[i].1, a));
            assert(a % 0x1000 == 0);
            lemma_span_keeps_mapped::<T>(or, om, nr, nm, start, size, perm, ty, frames, lo, hi, a);
        } else {
            assert(page_of_span(start, size, a));
            assert(page_backed::<T>(nr, nm, a, perm, ty));
        }
    }
    assert forall|i: int| 0 <= i < nb.len() && #[trigger] nb[i].1 > 0 implies nb[i].0 % 0x1000 == 0 by {
        if i < blocks.len() {
            assert(nb[i] == blocks[i]);
        }
    }
}

/// Law: a region that `create` accepted is the first region at its address,
/// so `find_region` and `expand` find it there.
pub proof fn lemma_created_region_is_found(s: Seq<(u64, u64, u64)>, start: u64, size: u64, perm_bits: u64)
    requires
        !collides_any(s, start, size),
    ensures
        first_at(s.push((start, size, perm_bits)), start, s.len() as int),
        index_at(s.push((start, size, perm_bits)), start) == s.len(),
{
    let t = s.push((start, size, perm_bits));
    assert forall|j: int| 0 <= j < s.len() implies #[trigger] t[j].0 != start by {
        assert(t[j] == s[j]);
        if s[j].0 == start {
            assert(collides(s[j], start, size));
        }
    }
    assert(first_at(t, start, s.len() as int));
    lemma_first_at_unique(t, start, s.len() as int);
}

/// Why a region was not created: the checks made before `create`, and a
/// mapping that failed.
#[derive(Debug, Copy, Clone, PartialEq, Eq, Structural)]
pub enum RegionError {
    /// The start or the size is not a multiple of 4 KiB.
    Misaligned,
    /// The span runs past the end of the address space.
    Overflow,
    /// An existing region starts or ends inside the span.
    Overlapping,
    /// There is no room for another region.
    TooMany,
    /// Mapping the span failed.
    Mapping(MapError),
}

/// The check that refuses a region at `start` of `size` bytes before any
/// mapping, if one does: alignment, then overflow, then overlap with `blocks`,
/// then the number of regions.
pub open spec fn create_refusal(blocks: Seq<(u64, u64, u64)>, start: u64, size: u64) -> Option<RegionError> {
    if start % 0x1000 != 0 || size % 0x1000 != 0 {
        Some(RegionError::Misaligned)
    } else if start + size > u64::MAX {
        Some(RegionError::Overflow)
    } else if collides_any(blocks, start, size) {
        Some(RegionError::Overlapping)
    } else if blocks.len() >= 0x100_0000 {
        Some(RegionError::TooMany)
    } else {
        None
    }
}

/// An address space: a page table, the physical page that holds its root
/// table, and the regions created in it.
pub struct AddressSpace<T: PageTableSpecific, A: PhysAlloc> {
    pub page_table: PageTable<T, A>,
    pub page_table_phys: PhysAddr,
    pub regions: Regions,
}

impl<T: PageTableSpecific, A: PhysAlloc> AddressSpace<T, A> {
    /// The physical page that holds the root table.
    pub open spec fn table_phys(&self) -> PhysAddr {
        self.page_table_phys
    }

    /// The regions, in order, as plain values.
    pub open spec fn blocks(&self) -> Seq<(u64, u64, u64)> {
        region_list(self.regions)
    }

    /// An address space with the tables of `template` and no regions, whose
    /// root table is the page at `frame`: the template's root entries are
    /// copied into that page.
    pub fn with_root(template: PageTable<T, A>, frame: PhysAddr, mem: &mut TableMemory) -> (s: Self)
        ensures
            s.table_phys() == frame,
            s.page_table@ == template@,
            s.blocks() == Seq::<(u64, u64, u64)>::empty(),
            final(mem).holds(frame.0),
            final(mem).page(frame.0) == template@,
            forall|b: u64| b != frame.0 ==> final(mem).holds(b) == old(mem).holds(b),
            forall|b: u64| b != frame.0 ==> final(mem).page(b) == old(mem).page(b),
    {
        let entries = template.root_entries();
        proof {
            template.lemma_view_len();
        }
        mem.install(frame.0, entries);
        AddressSpace { page_table: template, page_table_phys: frame, regions: regions_new() }
    }

    /// An address space with the tables of `template` and no regions; its
    /// root table gets a page from the allocator, which must be a frame that
    /// holds no table yet, and the template's root entries are copied there.
    pub fn new(template: PageTable<T, A>, mem: &mut TableMemory) -> (r: Result<Self, MapError>)
        ensures
            r matches Ok(s) ==> {
                &&& s.page_table@ == template@
                &&& s.blocks() == Seq::<(u64, u64, u64)>::empty()
                &&& is_frame(s.table_phys().0)
                &&& !old(mem).holds(s.table_phys().0)
                &&& final(mem).holds(s.table_phys().0)
                &&& final(mem).page(s.table_phys().0) == template@
                &&& forall|b: u64| b != s.table_phys().0 ==> final(mem).holds(b) == old(mem).holds(b)
                &&& forall|b: u64| b != s.table_phys().0 ==> final(mem).page(b) == old(mem).page(b)
            },
            r is Err ==> *final(mem) == *old(mem),
            r matches Err(e) ==> e == MapError::AllocationFailed || e == MapError::UnusableAllocation,
            r matches Ok(s) ==> forall|m: TableMemory, lo: int, hi: int|
                #![trigger aspace_ok::<T>(s.page_table@, m, s.blocks(), lo, hi)]
                tree_ok::<T>(template@, m, lo, hi) ==> aspace_ok::<T>(s.page_table@, m, s.blocks(), lo, hi),
    {
        match A::allocate() {
            Some(phys_page) => {
                if phys_page.0 & !ADDR_MASK != 0 || mem.holds_table(phys_page.0) {
                    return Err(MapError::UnusableAllocation);
                }
                Ok(Self::with_root(template, phys_page, mem))
            },
            None => Err(MapError::AllocationFailed),
        }
    }

    /// The physical address of the root table, the one to load when the
    /// address space becomes active.
    pub fn table_base(&self) -> (r: PhysAddr)
        ensures
            r == self.table_phys(),
    {
        self.page_table_phys
    }

    /// The number of regions.
    pub fn region_count(&self) -> (n: usize)
        ensures
            n == self.blocks().len(),
    {
        regions_len(&self.regions)
    }

    /// Region `i`, if there is one.
    pub fn region(&self, i: usize) -> (r: Option<Block>)
        ensures
            i < self.blocks().len() ==> (r matches Some(b) && block_view(b) == self.blocks()[i as int]),
            i >= self.blocks().len() ==> r is None,
    {
        if i < regions_len(&self.regions) {
            Some(regions_get(&self.regions, i))
        } else {
            None
        }
    }

    /// Whether `create` would refuse the span because a region starts or ends
    /// inside it.
    pub fn overlaps(&self, start_addr: u64, size: u64) -> (r: bool)
        requires
            start_addr + size <= u64::MAX,
        ensures
            r == collides_any(self.blocks(), start_addr, size),
    {
        let n = regions_len(&self.regions);
        let end = start_addr + size;
        let mut i: usize = 0;
        while i < n
            invariant
                n == self.blocks().len(),
                end == start_addr + size,
                i <= n,
                forall|j: int| 0 <= j < i ==> !#[trigger] collides(self.blocks()[j], start_addr, size),
            decreases n - i,
        {
            let reg = regions_get(&self.regions, i);
            let starts_in = reg.address >= start_addr && reg.address <= end;
            let ends_in = match reg.address.checked_add(reg.size) {
                Some(reg_end) => reg_end > start_addr && reg_end <= end,
                None => false,
            };
            if starts_in || ends_in {
                assert(collides(self.blocks()[i as int], start_addr, size));
                return true;
            }
            i = i + 1;
        }
        false
    }

    /// Creates a region of `size` bytes at `start_addr`, each page mapped to a
    /// fresh frame from the allocator with permission `perm`, cachable.
    pub fn create(&mut self, mem: &mut TableMemory, start_addr: u64, size: u64, perm: PagePermission) -> (r: Result<(), MapError>)
        requires
            start_addr % 0x1000 == 0,
            size % 0x1000 == 0,
            start_addr + size <= u64::MAX,
            !collides_any(old(self).blocks(), start_addr, size),
            old(self).blocks().len() < 0x100_0000,
        ensures
            r is Ok ==> final(self).blocks() == old(self).blocks().push((start_addr, size, perm.bits())),
            r is Err ==> final(self).blocks() == old(self).blocks(),
            size == 0 ==> r is Ok,
            final(self).table_phys() == old(self).table_phys(),
            r is Ok ==> span_done::<T>(old(self).page_table@, *old(mem), final(self).page_table@, *final(mem),
                start_addr, size, perm, MapType::NormalCachable, |a: u64| None),
            r is Ok ==> forall|lo: int, hi: int|
                #![trigger aspace_ok::<T>(old(self).page_table@, *old(mem), old(self).blocks(), lo, hi)]
                aspace_ok::<T>(old(self).page_table@, *old(mem), old(self).blocks(), lo, hi) && span_in(start_addr, size, lo, hi)
                    ==> aspace_ok::<T>(final(self).page_table@, *final(mem), final(self).blocks(), lo, hi),
    {
        match map_region(&mut self.page_table, mem, start_addr, size, perm) {
            Ok(()) => {},
            Err(e) => return Err(e),
        }
        regions_push(&mut self.regions, Block { address: start_addr, size, permissions: perm });
        proof {
            assert forall|lo: int, hi: int|
                #![trigger aspace_ok::<T>(old(self).page_table@, *old(mem), old(self).blocks(), lo, hi)]
                aspace_ok::<T>(old(self).page_table@, *old(mem), old(self).blocks(), lo, hi) && span_in(start_addr, size, lo, hi)
                    implies aspace_ok::<T>(self.page_table@, *mem, self.blocks(), lo, hi) by {
                lemma_create_keeps_aspace::<T>(old(self).page_table@, *old(mem), self.page_table@, *mem, old(self).blocks(),
                    start_addr, size, perm, MapType::NormalCachable, |a: u64| None, lo, hi);
            }
        }
        Ok(())
    }

    /// Makes the checks the kernel made before creating a region, then
    /// creates it: `create_refusal` names the check that refuses it, and
    /// where none does the region is created as by `create`.
    pub fn create_checked(&mut self, mem: &mut TableMemory, start_addr: u64, size: u64, perm: PagePermission)
        -> (r: Result<(), RegionError>)
        ensures
            final(self).table_phys() == old(self).table_phys(),
            create_refusal(old(self).blocks(), start_addr, size) matches Some(e) ==> {
                &&& r == Err::<(), RegionError>(e)
                &&& final(self).blocks() == old(self).blocks()
                &&& final(self).page_table@ == old(self).page_table@
                &&& *final(mem) == *old(mem)
            },
            create_refusal(old(self).blocks(), start_addr, size) is None ==> {
                &&& r is Ok ==> final(self).blocks() == old(self).blocks().push((start_addr, size, perm.bits()))
                &&& r matches Err(e) ==> e is Mapping && final(self).blocks() == old(self).blocks()
                &&& size == 0 ==> r is Ok
                &&& r is Ok ==> span_done::<T>(old(self).page_table@, *old(mem), final(self).page_table@, *final(mem),
                    start_addr, size, perm, MapType::NormalCachable, |a: u64| None)
            },
    {
        if start_addr % 0x1000 != 0 || size % 0x1000 != 0 {
            return Err(RegionError::Misaligned);
        }
        if start_addr > u64::MAX - size {
            return Err(RegionError::Overflow);
        }
        if self.overlaps(start_addr, size) {
            return Err(RegionError::Overlapping);
        }
        if regions_len(&self.regions) >= 0x100_0000 {
            return Err(RegionError::TooMany);
        }
        match self.create(mem, start_addr, size, perm) {
            Ok(()) => Ok(()),
            Err(e) => Err(RegionError::Mapping(e)),
        }
    }

    /// The index of the first region that starts at `addr`, if any.
    pub fn find_region(&self, addr: u64) -> (r: Option<usize>)
        ensures
            r matches Some(i) ==> first_at(self.blocks(), addr, i as int),
            r is None ==> forall|j: int| 0 <= j < self.blocks().len() ==> #[trigger] self.blocks()[j].0 != addr,
    {
        let n = regions_len(&self.regions);
        let mut i: usize = 0;
        while i < n
            invariant
                n == self.blocks().len(),
                i <= n,
                forall|j: int| 0 <= j < i ==> #[trigger] self.blocks()[j].0 != addr,
            decreases n - i,
        {
            let reg = regions_get(&self.regions, i);
            if reg.address == addr {
                return Some(i);
            }
            i = i + 1;
        }
        None
    }

    /// Grows the first region that starts at `start_addr` to `new_size`
    /// bytes, mapping its new pages to fresh frames with the region's
    /// permission, cachable.
    pub fn expand(&mut self, mem: &mut TableMemory, start_addr: u64, new_size: u64) -> (r: Result<(), MapError>)
        requires
            exists|i: int| first_at(old(self).blocks(), start_addr, i),
            old(self).blocks()[index_at(old(self).blocks(), start_addr)].1 <= new_size,
            old(self).blocks()[index_at(old(self).blocks(), start_addr)].1 < new_size
                ==> (start_addr + old(self).blocks()[index_at(old(self).blocks(), start_addr)].1) % 0x1000 == 0,
            start_addr + new_size <= u64::MAX,
        ensures
            ({
                let i = index_at(old(self).blocks(), start_addr);
                let b = old(self).blocks()[i];
                &&& r is Ok ==> final(self).blocks() == old(self).blocks().update(i, (b.0, new_size, b.2))
                &&& r is Err ==> final(self).blocks() == old(self).blocks()
                &&& b.1 == new_size ==> r is Ok
                &&& r is Ok ==> span_done::<T>(old(self).page_table@, *old(mem), final(self).page_table@, *final(mem),
                    (b.0 + b.1) as u64, (new_size - b.1) as u64, PagePermission::with_bits(b.2), MapType::NormalCachable,
                    |a: u64| None)
                &&& r is Ok ==> forall|lo: int, hi: int|
                    #![trigger aspace_ok::<T>(old(self).page_table@, *old(mem), old(self).blocks(), lo, hi)]
                    aspace_ok::<T>(old(self).page_table@, *old(mem), old(self).blocks(), lo, hi)
                        && span_in((b.0 + b.1) as u64, (new_size - b.1) as u64, lo, hi)
                        ==> aspace_ok::<T>(final(self).page_table@, *final(mem), final(self).blocks(), lo, hi)
            }),
            final(self).table_phys() == old(self).table_phys(),
    {
        let i = match self.find_region(start_addr) {
            Some(i) => i,
            None => {
                proof {
                    let k = choose|k: int| first_at(old(self).blocks(), start_addr, k);
                    assert(self.blocks()[k].0 == start_addr);
                    assert(false);
                }
                return Err(MapError::AllocationFailed);
            },
        };
        proof {
            lemma_first_at_unique(self.blocks(), start_addr, i as int);
        }
        let reg = regions_get(&self.regions, i);
        proof {
            PagePermission::lemma_with_bits(reg.permissions.bits());
            PagePermission::lemma_bits_determine(reg.permissions, PagePermission::with_bits(self.blocks()[i as int].2));
        }
        let ghost or = self.page_table@;
        let ghost om = *mem;
        match map_region(&mut self.page_table, mem, reg.address + reg.size, new_size - reg.size, reg.permissions) {
            Ok(()) => {},
            Err(e) => return Err(e),
        }
        let ghost blocks = self.blocks();
        regions_set_size(&mut self.regions, i, new_size);
        proof {
            let b = blocks[i as int];
            let span_start = (b.0 + b.1) as u64;
            let span_size = (new_size - b.1) as u64;
            assert forall|lo: int, hi: int|
                #![trigger aspace_ok::<T>(or, om, blocks, lo, hi)]
                aspace_ok::<T>(or, om, blocks, lo, hi) && span_in(span_start, span_size, lo, hi)
                    implies aspace_ok::<T>(self.page_table@, *mem, self.blocks(), lo, hi) by {
                lemma_span_keeps_aspace::<T>(or, om, self.page_table@, *mem, blocks, span_start, span_size,
                    reg.permissions, MapType::NormalCachable, |a: u64| None, lo, hi);
                assert forall|p: u64| #[trigger] page_of_span(span_start, span_size, p)
                    implies in_range(p, lo, hi) && translate::<T>(self.page_table@, *mem, p) is Mapped by {
                    assert(page_backed::<T>(self.page_table@, *mem, p, reg.permissions, MapType::NormalCachable));
                }
                if b.1 > 0 {
                    assert(blocks[i as int].1 > 0);
                }
                lemma_grow_region::<T>(self.page_table@, *mem, blocks, i as int, new_size, span_size, lo, hi);
            }
        }
        Ok(())
    }

    /// Creates a region of `size` bytes at `start_addr` that maps the frames
    /// from `start_phys` on, with `map_type` and `perm`. Where every page of
    /// the span already has its tables (in a range where the tables are a
    /// tree), no table is allocated and the call succeeds.
    pub fn alias(
        &mut self, mem: &mut TableMemory, start_phys: PhysAddr, start_addr: u64, size: u64, map_type: MapType,
        perm: PagePermission,
    ) -> (r: Result<(), MapError>)
        requires
            size > 0 ==> start_addr % 0x1000 == 0 && start_phys.0 % 0x1000 == 0,
            start_addr + size <= u64::MAX,
            start_phys.0 + size <= u64::MAX,
            old(self).blocks().len() < 0x100_0000,
        ensures
            r is Ok ==> final(self).blocks() == old(self).blocks().push((start_addr, size, perm.bits())),
            r is Err ==> final(self).blocks() == old(self).blocks(),
            size == 0 ==> r is Ok,
            forall|lo: int, hi: int| #[trigger] span_ready::<T>(old(self).page_table@, *old(mem), start_addr, size, lo, hi)
                ==> r is Ok,
            final(self).table_phys() == old(self).table_phys(),
            r is Ok && size <= 0x1_0000_0000_0000 && start_phys.0 + size <= 0x10_0000_0000_0000 ==>
                span_done::<T>(old(self).page_table@, *old(mem), final(self).page_table@, *final(mem),
                    start_addr, size, perm, map_type, |a: u64| Some(alias_frame(start_phys.0, start_addr, a))),
            r is Ok && size <= 0x1_0000_0000_0000 && start_phys.0 + size <= 0x10_0000_0000_0000 ==> forall|lo: int, hi: int|
                #![trigger aspace_ok::<T>(old(self).page_table@, *old(mem), old(self).blocks(), lo, hi)]
                aspace_ok::<T>(old(self).page_table@, *old(mem), old(self).blocks(), lo, hi) && span_in(start_addr, size, lo, hi)
                    ==> aspace_ok::<T>(final(self).page_table@, *final(mem), final(self).blocks(), lo, hi),
    {
        match map_alias(&mut self.page_table, mem, start_phys, start_addr, size, map_type, perm) {
            Ok(()) => {},
            Err(e) => return Err(e),
        }
        regions_push(&mut self.regions, Block { address: start_addr, size, permissions: perm });
        proof {
            if size <= 0x1_0000_0000_0000 && start_phys.0 + size <= 0x10_0000_0000_0000 {
                assert forall|lo: int, hi: int|
                    #![trigger aspace_ok::<T>(old(self).page_table@, *old(mem), old(self).blocks(), lo, hi)]
                    aspace_ok::<T>(old(self).page_table@, *old(mem), old(self).blocks(), lo, hi) && span_in(start_addr, size, lo, hi)
                        implies aspace_ok::<T>(self.page_table@, *mem, self.blocks(), lo, hi) by {
                    lemma_create_keeps_aspace::<T>(old(self).page_table@, *old(mem), self.page_table@, *mem, old(self).blocks(),
                        start_addr, size, perm, map_type, |a: u64| Some(alias_frame(start_phys.0, start_addr, a)), lo, hi);
                }
            }
        }
        Ok(())
    }
}

impl<T: PageTableSpecific, A: PhysAlloc> AddressSpace<T, A> {
    /// What `create_with_overlap` finds in the regions for the span.
    pub fn scan_overlap(&self, start_addr: u64, size: u64) -> (r: OverlapScan)
        requires
            start_addr + size <= u64::MAX,
        ensures
            r == scan_from(self.blocks(), start_addr, size, 0),
    {
        let n = regions_len(&self.regions);
        let end = start_addr + size;
        let mut i: usize = 0;
        while i < n
            invariant
                n == self.blocks().len(),
                end == start_addr + size,
                i <= n,
                scan_from(self.blocks(), start_addr, size, 0) == scan_from(self.blocks(), start_addr, size, i as nat),
            decreases n - i,
        {
            let reg = regions_get(&self.regions, i);
            if reg.address > start_addr && reg.address <= end {
                return OverlapScan::StartsInside;
            }
            match reg.address.checked_add(reg.size) {
                Some(reg_end) => {
                    if reg_end > start_addr && reg_end <= end {
                        return OverlapScan::EndsInside(i);
                    }
                },
                None => {},
            }
            i = i + 1;
        }
        OverlapScan::Clear
    }

    /// Creates a region of `size` bytes at `start_addr` with permission
    /// `perm`, or, where an existing region ends inside the span, grows that
    /// region over it: the part it already covers is mapped again with `perm`
    /// if its permission differs, the rest is mapped to fresh frames, and the
    /// region's size becomes `size`.
    pub fn create_with_overlap(&mut self, mem: &mut TableMemory, start_addr: u64, size: u64, perm: PagePermission)
        -> (r: Result<(), MapError>)
        requires
            start_addr + size <= u64::MAX,
            scan_from(old(self).blocks(), start_addr, size, 0) != OverlapScan::StartsInside,
            scan_from(old(self).blocks(), start_addr, size, 0) == OverlapScan::Clear ==> {
                &&& start_addr % 0x1000 == 0
                &&& size % 0x1000 == 0
                &&& !collides_any(old(self).blocks(), start_addr, size)
                &&& old(self).blocks().len() < 0x100_0000
            },
            scan_from(old(self).blocks(), start_addr, size, 0) matches OverlapScan::EndsInside(i) ==> {
                let b = old(self).blocks()[i as int];
                let overlap = (b.0 + b.1 - start_addr) as u64;
                &&& b.2 != perm.bits() ==> {
                    &&& start_addr % 0x1000 == 0
                    &&& exists|lo: int, hi: int| #[trigger] aspace_ok::<T>(old(self).page_table@, *old(mem), old(self).blocks(), lo, hi)
                }
                &&& overlap < size ==> (b.0 + b.1) % 0x1000 == 0
            },
        ensures
            final(self).table_phys() == old(self).table_phys(),
            scan_from(old(self).blocks(), start_addr, size, 0) == OverlapScan::Clear ==> {
                &&& r is Ok ==> final(self).blocks() == old(self).blocks().push((start_addr, size, perm.bits()))
                &&& r is Err ==> final(self).blocks() == old(self).blocks()
                &&& size == 0 ==> r is Ok
                &&& r is Ok ==> span_done::<T>(old(self).page_table@, *old(mem), final(self).page_table@, *final(mem),
                    start_addr, size, perm, MapType::NormalCachable, |a: u64| None)
                &&& r is Ok ==> forall|lo: int, hi: int|
                    #![trigger aspace_ok::<T>(old(self).page_table@, *old(mem), old(self).blocks(), lo, hi)]
                    aspace_ok::<T>(old(self).page_table@, *old(mem), old(self).blocks(), lo, hi) && span_in(start_addr, size, lo, hi)
                        ==> aspace_ok::<T>(final(self).page_table@, *final(mem), final(self).blocks(), lo, hi)
            },
            scan_from(old(self).blocks(), start_addr, size, 0) matches OverlapScan::EndsInside(i) ==> {
                let b = old(self).blocks()[i as int];
                let overlap = (b.0 + b.1 - start_addr) as u64;
                &&& r is Ok ==> final(self).blocks() == old(self).blocks().update(i as int, (b.0, size, b.2))
                &&& r is Err ==> final(self).blocks() == old(self).blocks()
                &&& overlap == size ==> r is Ok
                &&& r is Ok ==> overlap_done::<T>(old(self).page_table@, *old(mem), final(self).page_table@, *final(mem),
                    start_addr, overlap, (b.0 + b.1) as u64, (size - overlap) as u64, perm, b.2 != perm.bits())
                &&& r is Ok ==> forall|lo: int, hi: int|
                    #![trigger aspace_ok::<T>(old(self).page_table@, *old(mem), old(self).blocks(), lo, hi)]
                    aspace_ok::<T>(old(self).page_table@, *old(mem), old(self).blocks(), lo, hi)
                        && span_in(start_addr, overlap, lo, hi) && span_in((b.0 + b.1) as u64, (size - overlap) as u64, lo, hi)
                        ==> aspace_ok::<T>(final(self).page_table@, *final(mem), final(self).blocks(), lo, hi)
            },
    {
        match self.scan_overlap(start_addr, size) {
            OverlapScan::StartsInside => {
                proof {
                    assert(false);
                }
                Err(MapError::AllocationFailed)
            },
            OverlapScan::Clear => self.create(mem, start_addr, size, perm),
            OverlapScan::EndsInside(i) => {
                let ghost s = self.blocks();
                let _len = regions_len(&self.regions);
                proof {
                    lemma_scan_index(s, start_addr, size, 0);
                }
                let reg = regions_get(&self.regions, i);
                let reg_end = reg.address + reg.size;
                let overlap = reg_end - start_addr;
                let deficit = size - overlap;
                let ghost or = self.page_table@;
                let ghost om = *mem;
                let reprotect = !reg.permissions.same_as(perm);
                if reprotect {
                    proof {
                        let (lo, hi) = choose|lo: int, hi: int| #[trigger] aspace_ok::<T>(or, om, s, lo, hi);
                        lemma_overlap_mapped::<T>(or, om, s, i as int, start_addr, size, lo, hi);
                    }
                    reprotect_region(&mut self.page_table, mem, start_addr, overlap, perm);
                }
                let ghost xr = self.page_table@;
                let ghost xm = *mem;
                match map_region(&mut self.page_table, mem, reg_end, deficit, perm) {
                    Ok(()) => {},
                    Err(e) => return Err(e),
                }
                proof {
                    lemma_overlap_done::<T>(or, om, xr, xm, self.page_table@, *mem, start_addr, overlap, reg_end, deficit,
                        perm, reprotect);
                }
                regions_set_size(&mut self.regions, i, size);
                proof {
                    let b = s[i as int];
                    assert forall|lo: int, hi: int|
                        #![trigger aspace_ok::<T>(or, om, s, lo, hi)]
                        aspace_ok::<T>(or, om, s, lo, hi) && span_in(start_addr, overlap, lo, hi) && span_in(reg_end, deficit, lo, hi)
                            implies aspace_ok::<T>(self.page_table@, *mem, self.blocks(), lo, hi) by {
                        if reprotect {
                            lemma_span_keeps_aspace::<T>(or, om, xr, xm, s, start_addr, overlap, perm, MapType::NormalCachable,
                                |a: u64| Some(translate::<T>(or, om, a)->Mapped_0), lo, hi);
                        }
                        lemma_span_keeps_aspace::<T>(xr, xm, self.page_table@, *mem, s, reg_end, deficit, perm,
                            MapType::NormalCachable, |a: u64| None, lo, hi);
                        assert forall|p: u64| #[trigger] page_of_span(reg_end, deficit, p)
                            implies in_range(p, lo, hi) && translate::<T>(self.page_table@, *mem, p) is Mapped by {
                            assert(page_backed::<T>(self.page_table@, *mem, p, perm, MapType::NormalCachable));
                        }
                        assert(s[i as int].1 > 0);
                        lemma_grow_region::<T>(self.page_table@, *mem, s, i as int, size, deficit, lo, hi);
                    }
                }
                Ok(())
            },
        }
    }
}

/// Where the address space is sound, the part of a span that a region ending
/// inside it (and not starting inside it) already covers is mapped, page by
/// page from a page-aligned start, in a range where the tables are a tree.
proof fn lemma_overlap_mapped<T: PageTableSpecific>(
    root: Seq<u64>, mem: TableMemory, blocks: Seq<(u64, u64, u64)>, i: int, start: u64, size: u64, lo: int, hi: int,
)
    requires
        aspace_ok::<T>(root, mem, blocks, lo, hi),
        0 <= i < blocks.len(),
        ends_inside(blocks[i], start, size),
        !starts_inside(blocks[i], start, size),
        start % 0x1000 == 0,
        blocks[i].0 + blocks[i].1 <= u64::MAX,
    ensures
        forall|a: u64| #[trigger] page_of_span(start, (blocks[i].0 + blocks[i].1 - start) as u64, a)
            ==> translate::<T>(root, mem, a) is Mapped,
        span_in_tree::<T>(root, mem, start, (blocks[i].0 + blocks[i].1 - start) as u64),
{
    let b = blocks[i];
    let overlap = (b.0 + b.1 - start) as u64;
    assert(b.1 > 0);
    assert(b.0 % 0x1000 == 0);
    assert forall|a: u64| #[trigger] page_of_span(start, overlap, a)
        implies in_range(a, lo, hi) && translate::<T>(root, mem, a) is Mapped by {
        assert(page_of_span(b.0, b.1, a));
    }
    assert(span_in(start, overlap, lo, hi));
}

/// A region that the scan reports exists, and ends inside the span without
/// starting inside it.
proof fn lemma_scan_index(s: Seq<(u64, u64, u64)>, start: u64, size: u64, k: nat)
    requires
        s.len() <= usize::MAX,
    ensures
        scan_from(s, start, size, k) matches OverlapScan::EndsInside(i) ==> {
            &&& k <= i < s.len()
            &&& ends_inside(s[i as int], start, size)
            &&& !starts_inside(s[i as int], start, size)
        },
    decreases s.len() - k,
{
    if k < s.len() && !starts_inside(s[k as int], start, size) && !ends_inside(s[k as int], start, size) {
        lemma_scan_index(s, start, size, k + 1);
    }
}

} // verus!
