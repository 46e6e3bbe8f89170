//! The page tables as a tree, and what installing a mapping keeps.
//!
//! Within a range of root entries the tables form a tree when every present
//! entry above the last level is a table entry, every table page is held, and
//! a table page is reached from one entry only. Installing a page mapping
//! keeps that shape; installing a page or block mapping changes the
//! translation of no page outside it.
use vstd::prelude::*;
use crate::page_table::{
    PageTableSpecific, TableMemory, TableLoc, Walk, index_of, table_of, loc_at, walk_from, translate,
    path_sound, path_ok, path_present, installed, written, path_write, lemma_index_range, lemma_walk_along_path,
    lemma_same_path, is_frame, offset_in,
};

verus! {

/// `v` is translated through a root entry in `lo..hi`.
pub open spec fn in_range(v: u64, lo: int, hi: int) -> bool {
    lo <= index_of(v, 0) < hi
}

/// The entry read at `level` on the path toward `v`.
pub open spec fn path_entry<T: PageTableSpecific>(root: Seq<u64>, mem: TableMemory, v: u64, level: nat) -> u64 {
    table_of(root, mem, loc_at::<T>(root, mem, v, level))[index_of(v, level as int)]
}

/// The present last-level entry that maps the page of `v`, if the path
/// reaches one.
pub open spec fn leaf<T: PageTableSpecific>(root: Seq<u64>, mem: TableMemory, v: u64) -> Option<u64> {
    if loc_at::<T>(root, mem, v, 3) is Page && T::spec_is_valid(path_entry::<T>(root, mem, v, 3)) {
        Some(path_entry::<T>(root, mem, v, 3))
    } else {
        None
    }
}

/// Within root entries `lo..hi` the tables form a tree: the paths are sound,
/// and a table page is reached at one level only, through one sequence of
/// indices.
pub open spec fn tree_ok<T: PageTableSpecific>(root: Seq<u64>, mem: TableMemory, lo: int, hi: int) -> bool {
    &&& forall|v: u64| #![trigger path_sound::<T>(root, mem, v, 3)]
        in_range(v, lo, hi) ==> path_sound::<T>(root, mem, v, 3)
    &&& forall|v1: u64, v2: u64, l1: nat, l2: nat|
        #![trigger loc_at::<T>(root, mem, v1, l1), loc_at::<T>(root, mem, v2, l2)]
        in_range(v1, lo, hi) && in_range(v2, lo, hi) && 1 <= l1 <= 3 && 1 <= l2 <= 3
            && loc_at::<T>(root, mem, v1, l1) is Page && loc_at::<T>(root, mem, v1, l1) == loc_at::<T>(root, mem, v2, l2)
            ==> l1 == l2 && forall|l: int| 0 <= l < l1 ==> #[trigger] index_of(v1, l) == index_of(v2, l)
}

/// The first level at which the indices of two addresses differ; 4 where
/// they lie in one page.
pub open spec fn diverge(v1: u64, v2: u64) -> nat {
    if index_of(v1, 0) != index_of(v2, 0) {
        0
    } else if index_of(v1, 1) != index_of(v2, 1) {
        1
    } else if index_of(v1, 2) != index_of(v2, 2) {
        2
    } else if index_of(v1, 3) != index_of(v2, 3) {
        3
    } else {
        4
    }
}

/// Once the path stops, it stays stopped.
proof fn lemma_missing_stays<T: PageTableSpecific>(root: Seq<u64>, mem: TableMemory, v: u64, a: nat, b: nat)
    requires
        a <= b,
        loc_at::<T>(root, mem, v, a) is Missing,
    ensures
        loc_at::<T>(root, mem, v, b) is Missing,
    decreases b - a,
{
    if a < b {
        lemma_missing_stays::<T>(root, mem, v, a, (b - 1) as nat);
    }
}

/// Two addresses share the indices above the level where they diverge.
pub(crate) proof fn lemma_diverge<T: PageTableSpecific>(root: Seq<u64>, mem: TableMemory, v: u64, w: u64)
    ensures
        forall|l: int| 0 <= l < diverge(v, w) ==> #[trigger] index_of(v, l) == index_of(w, l),
        diverge(v, w) <= 3 ==> index_of(v, diverge(v, w) as int) != index_of(w, diverge(v, w) as int),
        forall|m: nat| m <= 3 && m <= diverge(v, w) ==> #[trigger] loc_at::<T>(root, mem, v, m) == loc_at::<T>(root, mem, w, m),
{
    let d = diverge(v, w);
    let k: nat = if d > 3 { 3 } else { d };
    assert forall|l: int| 0 <= l <= k implies #[trigger] index_of(w, l) == index_of(v, l) || l == d by {}
    if d > 0 {
        let k1: nat = (k - (if d > 3 { 0int } else { 1int })) as nat;
        assert forall|l: int| 0 <= l <= k1 implies #[trigger] index_of(w, l) == index_of(v, l) by {}
        lemma_same_path::<T>(root, mem, w, v, k1);
        if d <= 3 {
            assert forall|m: nat| m <= 3 && m <= d implies #[trigger] loc_at::<T>(root, mem, v, m) == loc_at::<T>(root, mem, w, m) by {
                if m == d {
                    assert(loc_at::<T>(root, mem, v, (m - 1) as nat) == loc_at::<T>(root, mem, w, (m - 1) as nat));
                    assert(index_of(v, m - 1) == index_of(w, m - 1));
                }
            }
        }
    }
}

/// Where the entries read along the path toward `v` agree, so does the walk.
proof fn lemma_walk_frame<T: PageTableSpecific>(
    r1: Seq<u64>, m1: TableMemory, r2: Seq<u64>, m2: TableMemory, v: u64, level: nat,
)
    requires
        level <= 3,
        !(loc_at::<T>(r1, m1, v, level) is Missing),
        forall|m: nat| m <= 3 ==> #[trigger] loc_at::<T>(r2, m2, v, m) == loc_at::<T>(r1, m1, v, m),
        forall|m: nat| m <= 3 && !(loc_at::<T>(r1, m1, v, m) is Missing)
            ==> #[trigger] path_entry::<T>(r2, m2, v, m) == path_entry::<T>(r1, m1, v, m),
    ensures
        walk_from::<T>(m2, table_of(r2, m2, loc_at::<T>(r2, m2, v, level)), v, level)
            == walk_from::<T>(m1, table_of(r1, m1, loc_at::<T>(r1, m1, v, level)), v, level),
    decreases 3 - level,
{
    let e = path_entry::<T>(r1, m1, v, level);
    assert(path_entry::<T>(r2, m2, v, level) == e);
    assert(loc_at::<T>(r2, m2, v, level) == loc_at::<T>(r1, m1, v, level));
    if level < 3 && T::spec_is_valid(e) && T::spec_is_table(e) {
        let nl = (level + 1) as nat;
        assert(loc_at::<T>(r1, m1, v, nl) == TableLoc::Page(T::spec_get_addr(e)));
        assert(loc_at::<T>(r2, m2, v, nl) == TableLoc::Page(T::spec_get_addr(e)));
        lemma_walk_frame::<T>(r1, m1, r2, m2, v, nl);
    }
}

/// Along a sound path that stops, the walk finds no mapping.
proof fn lemma_walk_missing<T: PageTableSpecific>(root: Seq<u64>, mem: TableMemory, v: u64, l: nat, k: nat)
    requires
        path_sound::<T>(root, mem, v, 3),
        l < k <= 3,
        !(loc_at::<T>(root, mem, v, l) is Missing),
        loc_at::<T>(root, mem, v, k) is Missing,
    ensures
        walk_from::<T>(mem, table_of(root, mem, loc_at::<T>(root, mem, v, l)), v, l) == Walk::Unmapped,
    decreases k - l,
{
    let e = path_entry::<T>(root, mem, v, l);
    if T::spec_is_valid(e) {
        assert(T::spec_is_table(e));
        let nl = (l + 1) as nat;
        assert(loc_at::<T>(root, mem, v, nl) == TableLoc::Page(T::spec_get_addr(e)));
        lemma_walk_missing::<T>(root, mem, v, nl, k);
    }
}

/// The facts about one installation at level `fin` that the lemmas below share.
pub open spec fn install_step<T: PageTableSpecific>(
    or: Seq<u64>, om: TableMemory, nr: Seq<u64>, nm: TableMemory, virt: u64, fin: nat, lo: int, hi: int,
) -> bool {
    &&& 1 <= fin <= 3
    &&& tree_ok::<T>(or, om, lo, hi)
    &&& in_range(virt, lo, hi)
    &&& installed::<T>(or, om, nr, nm, virt, fin)
    &&& path_ok::<T>(nr, nm, virt, fin)
    &&& forall|b: u64| om.holds(b) ==> nm.holds(b)
}

/// An entry of a page that the new path toward `virt` passes at `m` only, read
/// at another index than the path's, is not written.
proof fn lemma_off_path_unwritten<T: PageTableSpecific>(
    or: Seq<u64>, om: TableMemory, nr: Seq<u64>, nm: TableMemory, virt: u64, fin: nat, m: nat, j: int,
)
    requires
        fin <= 3,
        path_ok::<T>(nr, nm, virt, fin),
        m <= fin,
        j != index_of(virt, m as int),
    ensures
        !written::<T>(nr, nm, or, om, virt, fin + 1, fin, loc_at::<T>(nr, nm, virt, m), j),
{
    let l = loc_at::<T>(nr, nm, virt, m);
    assert forall|k: nat| k <= 3 && k != m implies !#[trigger] path_write::<T>(nr, nm, or, om, virt, k, fin, l, j) by {
        if k <= fin {
            if k >= 1 && m >= 1 {
                if k < m {
                    assert(loc_at::<T>(nr, nm, virt, k) != loc_at::<T>(nr, nm, virt, m));
                } else {
                    assert(loc_at::<T>(nr, nm, virt, m) != loc_at::<T>(nr, nm, virt, k));
                }
            } else if k == 0 {
                assert(loc_at::<T>(nr, nm, virt, m) is Page);
            } else {
                assert(loc_at::<T>(nr, nm, virt, k) is Page);
            }
        }
    }
    assert(!path_write::<T>(nr, nm, or, om, virt, 0, fin, l, j));
    assert(!path_write::<T>(nr, nm, or, om, virt, 1, fin, l, j));
    assert(!path_write::<T>(nr, nm, or, om, virt, 2, fin, l, j));
    assert(!path_write::<T>(nr, nm, or, om, virt, 3, fin, l, j));
}

/// An entry of a page that held a table before and that an address in range
/// reaches below the level where it leaves the path toward `virt` is not written.
proof fn lemma_old_page_unwritten<T: PageTableSpecific>(
    or: Seq<u64>, om: TableMemory, nr: Seq<u64>, nm: TableMemory, virt: u64, fin: nat, lo: int, hi: int, v: u64, m: nat,
)
    requires
        install_step::<T>(or, om, nr, nm, virt, fin, lo, hi),
        in_range(v, lo, hi),
        diverge(v, virt) < m <= 3,
        loc_at::<T>(or, om, v, m) is Page,
        om.holds(loc_at::<T>(or, om, v, m)->Page_0),
    ensures
        !written::<T>(nr, nm, or, om, virt, fin + 1, fin, loc_at::<T>(or, om, v, m), index_of(v, m as int)),
{
    let l = loc_at::<T>(or, om, v, m);
    let j = index_of(v, m as int);
    lemma_diverge::<T>(or, om, v, virt);
    assert forall|k: nat| k <= 3 implies !#[trigger] path_write::<T>(nr, nm, or, om, virt, k, fin, l, j) by {
        if path_write::<T>(nr, nm, or, om, virt, k, fin, l, j) {
            if k == 0 {
                assert(loc_at::<T>(nr, nm, virt, 0) is Root);
            } else if loc_at::<T>(or, om, virt, k) is Missing {
                assert(!om.holds(loc_at::<T>(nr, nm, virt, k)->Page_0));
            } else {
                assert(loc_at::<T>(nr, nm, virt, k) == loc_at::<T>(or, om, virt, k));
                assert(loc_at::<T>(or, om, v, m) == loc_at::<T>(or, om, virt, k));
                let d = diverge(v, virt);
                assert(index_of(v, d as int) == index_of(virt, d as int));
            }
        }
    }
    assert(!path_write::<T>(nr, nm, or, om, virt, 0, fin, l, j));
    assert(!path_write::<T>(nr, nm, or, om, virt, 1, fin, l, j));
    assert(!path_write::<T>(nr, nm, or, om, virt, 2, fin, l, j));
    assert(!path_write::<T>(nr, nm, or, om, virt, 3, fin, l, j));
}

/// Where the old path toward `virt` reaches the level at which `v` leaves it,
/// the path toward `v` and the entries read on it below are unchanged.
proof fn lemma_kept_below<T: PageTableSpecific>(
    or: Seq<u64>, om: TableMemory, nr: Seq<u64>, nm: TableMemory, virt: u64, fin: nat, lo: int, hi: int, v: u64, m: nat,
)
    requires
        install_step::<T>(or, om, nr, nm, virt, fin, lo, hi),
        in_range(v, lo, hi),
        diverge(v, virt) <= fin,
        !(loc_at::<T>(or, om, virt, diverge(v, virt)) is Missing),
        m <= 3,
    ensures
        forall|k: nat| k <= m ==> #[trigger] loc_at::<T>(nr, nm, v, k) == loc_at::<T>(or, om, v, k),
        forall|k: nat| diverge(v, virt) <= k <= m && !(loc_at::<T>(or, om, v, k) is Missing)
            ==> #[trigger] path_entry::<T>(nr, nm, v, k) == path_entry::<T>(or, om, v, k),
    decreases m,
{
    let d = diverge(v, virt);
    lemma_diverge::<T>(or, om, v, virt);
    lemma_diverge::<T>(nr, nm, v, virt);
    assert(path_sound::<T>(or, om, v, 3));
    if m > 0 {
        lemma_kept_below::<T>(or, om, nr, nm, virt, fin, lo, hi, v, (m - 1) as nat);
    }
    // The path itself.
    if m <= d {
        if loc_at::<T>(or, om, virt, m) is Missing {
            lemma_missing_stays::<T>(or, om, virt, m, d);
        }
        assert(loc_at::<T>(nr, nm, virt, m) == loc_at::<T>(or, om, virt, m));
    } else {
        let pm = (m - 1) as nat;
        assert(loc_at::<T>(nr, nm, v, pm) == loc_at::<T>(or, om, v, pm));
        if !(loc_at::<T>(or, om, v, pm) is Missing) {
            assert(path_entry::<T>(nr, nm, v, pm) == path_entry::<T>(or, om, v, pm));
        }
    }
    assert(loc_at::<T>(nr, nm, v, m) == loc_at::<T>(or, om, v, m));
    // The entry read at `m`.
    if d <= m && !(loc_at::<T>(or, om, v, m) is Missing) {
        let j = index_of(v, m as int);
        lemma_index_range(v, m as int);
        if m == d {
            lemma_off_path_unwritten::<T>(or, om, nr, nm, virt, fin, m, j);
            assert(loc_at::<T>(nr, nm, v, m) == loc_at::<T>(nr, nm, virt, m));
        } else {
            assert(om.holds(loc_at::<T>(or, om, v, m)->Page_0));
            lemma_old_page_unwritten::<T>(or, om, nr, nm, virt, fin, lo, hi, v, m);
        }
        let l = loc_at::<T>(or, om, v, m);
        assert(table_of(nr, nm, l)[j] == table_of(or, om, l)[j]);
    }
    assert forall|k: nat| k <= m implies #[trigger] loc_at::<T>(nr, nm, v, k) == loc_at::<T>(or, om, v, k) by {
        if k < m {
            assert(k <= (m - 1) as nat);
        }
    }
    assert forall|k: nat| d <= k <= m && !(loc_at::<T>(or, om, v, k) is Missing)
        implies #[trigger] path_entry::<T>(nr, nm, v, k) == path_entry::<T>(or, om, v, k) by {
        if k < m {
            assert(k <= (m - 1) as nat);
        }
    }
}

/// Where the old path toward `virt` stops above the level at which `v`
/// leaves it, `v` now reaches a new table and finds no entry there.
proof fn lemma_fresh_below<T: PageTableSpecific>(
    or: Seq<u64>, om: TableMemory, nr: Seq<u64>, nm: TableMemory, virt: u64, fin: nat, lo: int, hi: int, v: u64,
)
    requires
        install_step::<T>(or, om, nr, nm, virt, fin, lo, hi),
        in_range(v, lo, hi),
        diverge(v, virt) <= fin,
        loc_at::<T>(or, om, virt, diverge(v, virt)) is Missing,
    ensures
        diverge(v, virt) >= 1,
        loc_at::<T>(nr, nm, v, diverge(v, virt)) == loc_at::<T>(nr, nm, virt, diverge(v, virt)),
        !T::spec_is_valid(path_entry::<T>(nr, nm, v, diverge(v, virt))),
{
    let d = diverge(v, virt);
    lemma_diverge::<T>(nr, nm, v, virt);
    assert(d >= 1);
    let l = loc_at::<T>(nr, nm, virt, d);
    assert(l is Page && !om.holds(l->Page_0));
    let j = index_of(v, d as int);
    lemma_index_range(v, d as int);
    lemma_off_path_unwritten::<T>(or, om, nr, nm, virt, fin, d, j);
    assert(table_of(nr, nm, l)[j] == table_of(or, om, l)[j]);
    om.lemma_unheld_is_zero(l->Page_0);
    T::lemma_zero_is_invalid();
}

/// The path toward an address in range after an installation: it follows the
/// path toward `virt` down to the level where it leaves it; below, it is the
/// old path where the old path toward `virt` reached that level, and it stops
/// there otherwise.
proof fn lemma_shape<T: PageTableSpecific>(
    or: Seq<u64>, om: TableMemory, nr: Seq<u64>, nm: TableMemory, virt: u64, fin: nat, lo: int, hi: int, v: u64,
)
    requires
        install_step::<T>(or, om, nr, nm, virt, fin, lo, hi),
        in_range(v, lo, hi),
    ensures
        forall|m: nat| m <= 3 && m <= diverge(v, virt)
            ==> #[trigger] loc_at::<T>(nr, nm, v, m) == loc_at::<T>(nr, nm, virt, m),
        diverge(v, virt) <= fin && !(loc_at::<T>(or, om, virt, diverge(v, virt)) is Missing) ==>
            forall|m: nat| m <= 3 ==> #[trigger] loc_at::<T>(nr, nm, v, m) == loc_at::<T>(or, om, v, m),
        diverge(v, virt) <= fin && !(loc_at::<T>(or, om, virt, diverge(v, virt)) is Missing) ==>
            forall|m: nat| diverge(v, virt) <= m <= 3 && !(loc_at::<T>(or, om, v, m) is Missing)
                ==> #[trigger] path_entry::<T>(nr, nm, v, m) == path_entry::<T>(or, om, v, m),
        diverge(v, virt) <= fin && loc_at::<T>(or, om, virt, diverge(v, virt)) is Missing ==> {
            &&& diverge(v, virt) >= 1
            &&& !T::spec_is_valid(path_entry::<T>(nr, nm, v, diverge(v, virt)))
            &&& forall|m: nat| diverge(v, virt) < m <= 3 ==> #[trigger] loc_at::<T>(nr, nm, v, m) is Missing
        },
{
    let d = diverge(v, virt);
    lemma_diverge::<T>(nr, nm, v, virt);
    if d <= fin {
        if !(loc_at::<T>(or, om, virt, d) is Missing) {
            lemma_kept_below::<T>(or, om, nr, nm, virt, fin, lo, hi, v, 3);
        } else {
            lemma_fresh_below::<T>(or, om, nr, nm, virt, fin, lo, hi, v);
            if d < 3 {
                let nd = (d + 1) as nat;
                assert(loc_at::<T>(nr, nm, v, nd) is Missing);
                assert forall|m: nat| d < m <= 3 implies #[trigger] loc_at::<T>(nr, nm, v, m) is Missing by {
                    lemma_missing_stays::<T>(nr, nm, v, nd, m);
                }
            }
        }
    }
}

/// Law: installing a mapping for `virt` at level `fin` (a 4 KiB page at
/// level 3, a block above) leaves the translation of every address in range
/// outside that page or block as it was.
pub proof fn lemma_install_keeps_other_pages<T: PageTableSpecific>(
    or: Seq<u64>, om: TableMemory, nr: Seq<u64>, nm: TableMemory, virt: u64, fin: nat, lo: int, hi: int, v: u64,
)
    requires
        install_step::<T>(or, om, nr, nm, virt, fin, lo, hi),
        in_range(v, lo, hi),
        diverge(v, virt) <= fin,
    ensures
        translate::<T>(nr, nm, v) == translate::<T>(or, om, v),
        leaf::<T>(nr, nm, v) == leaf::<T>(or, om, v),
{
    let d = diverge(v, virt);
    lemma_shape::<T>(or, om, nr, nm, virt, fin, lo, hi, v);
    if loc_at::<T>(or, om, virt, d) is Missing {
        lemma_diverge::<T>(or, om, v, virt);
        lemma_missing_stays::<T>(or, om, v, d, 3);
    }
    lemma_diverge::<T>(or, om, v, virt);
    lemma_diverge::<T>(nr, nm, v, virt);
    assert(path_sound::<T>(or, om, v, 3));
    if !(loc_at::<T>(or, om, virt, d) is Missing) {
        // Above the divergence the entries read are those on the path toward
        // `virt`, which stayed: the path went on below each of them.
        assert forall|m: nat| m <= 3 && !(loc_at::<T>(or, om, v, m) is Missing)
            implies #[trigger] path_entry::<T>(nr, nm, v, m) == path_entry::<T>(or, om, v, m) by {
            if m < d {
                let l = loc_at::<T>(nr, nm, virt, m);
                let j = index_of(virt, m as int);
                lemma_index_range(virt, m as int);
                if loc_at::<T>(or, om, virt, (m + 1) as nat) is Missing {
                    lemma_missing_stays::<T>(or, om, virt, (m + 1) as nat, d);
                }
                assert forall|k: nat| k <= 3 implies !#[trigger] path_write::<T>(nr, nm, or, om, virt, k, fin, l, j) by {
                    if k != m && path_write::<T>(nr, nm, or, om, virt, k, fin, l, j) {
                        if k >= 1 && m >= 1 {
                            if k < m {
                                assert(loc_at::<T>(nr, nm, virt, k) != loc_at::<T>(nr, nm, virt, m));
                            } else {
                                assert(loc_at::<T>(nr, nm, virt, m) != loc_at::<T>(nr, nm, virt, k));
                            }
                        } else if k == 0 {
                            assert(loc_at::<T>(nr, nm, virt, m) is Page);
                        } else {
                            assert(loc_at::<T>(nr, nm, virt, k) is Page);
                        }
                    }
                }
                assert(!path_write::<T>(nr, nm, or, om, virt, 0, fin, l, j));
                assert(!path_write::<T>(nr, nm, or, om, virt, 1, fin, l, j));
                assert(!path_write::<T>(nr, nm, or, om, virt, 2, fin, l, j));
                assert(!path_write::<T>(nr, nm, or, om, virt, 3, fin, l, j));
                assert(table_of(nr, nm, l)[j] == table_of(or, om, l)[j]);
                if loc_at::<T>(or, om, virt, m) is Missing {
                    lemma_missing_stays::<T>(or, om, virt, m, d);
                }
                assert(loc_at::<T>(nr, nm, virt, m) == loc_at::<T>(or, om, virt, m));
            }
        }
        lemma_walk_frame::<T>(or, om, nr, nm, v, 0);
    } else {
        lemma_walk_missing::<T>(or, om, v, 0, d);
        let pr = (d - 1) as nat;
        assert forall|l: nat| #![trigger loc_at::<T>(nr, nm, v, l)] l < d implies {
            &&& !(loc_at::<T>(nr, nm, v, l) is Missing)
            &&& T::spec_is_valid(table_of(nr, nm, loc_at::<T>(nr, nm, v, l))[index_of(v, l as int)])
            &&& T::spec_is_table(table_of(nr, nm, loc_at::<T>(nr, nm, v, l))[index_of(v, l as int)])
        } by {
            assert(loc_at::<T>(nr, nm, v, l) == loc_at::<T>(nr, nm, virt, l));
            assert(index_of(v, l as int) == index_of(virt, l as int));
        }
        assert forall|j: nat| #![trigger loc_at::<T>(nr, nm, v, j)] 1 <= j <= d implies loc_at::<T>(nr, nm, v, j) is Page
            && nm.holds(loc_at::<T>(nr, nm, v, j)->Page_0) by {
            assert(loc_at::<T>(nr, nm, v, j) == loc_at::<T>(nr, nm, virt, j));
        }
        assert forall|j: nat, k: nat| #![trigger loc_at::<T>(nr, nm, v, j), loc_at::<T>(nr, nm, v, k)]
            1 <= j < k <= d implies loc_at::<T>(nr, nm, v, j) != loc_at::<T>(nr, nm, v, k) by {
            assert(loc_at::<T>(nr, nm, v, j) == loc_at::<T>(nr, nm, virt, j));
            assert(loc_at::<T>(nr, nm, v, k) == loc_at::<T>(nr, nm, virt, k));
        }
        assert(path_ok::<T>(nr, nm, v, d));
        lemma_walk_along_path::<T>(nr, nm, v, d);
    }
}

/// Installing a page mapping for `virt` whose path was present keeps present
/// the path of every address in range whose path was present.
pub proof fn lemma_install_keeps_present<T: PageTableSpecific>(
    or: Seq<u64>, om: TableMemory, nr: Seq<u64>, nm: TableMemory, virt: u64, lo: int, hi: int, v: u64,
)
    requires
        install_step::<T>(or, om, nr, nm, virt, 3, lo, hi),
        in_range(v, lo, hi),
        path_present::<T>(or, om, virt, 3),
        path_present::<T>(or, om, v, 3),
    ensures
        path_present::<T>(nr, nm, v, 3),
{
    let d = diverge(v, virt);
    lemma_diverge::<T>(nr, nm, v, virt);
    if d <= 3 {
        assert(!(loc_at::<T>(or, om, virt, d) is Missing));
        lemma_shape::<T>(or, om, nr, nm, virt, 3, lo, hi, v);
        assert forall|l: nat| #![trigger loc_at::<T>(nr, nm, v, l)] l <= 3 implies !(loc_at::<T>(nr, nm, v, l) is Missing) by {
            assert(loc_at::<T>(nr, nm, v, l) == loc_at::<T>(or, om, v, l));
        }
    } else {
        assert forall|l: nat| #![trigger loc_at::<T>(nr, nm, v, l)] l <= 3 implies !(loc_at::<T>(nr, nm, v, l) is Missing) by {
            assert(loc_at::<T>(nr, nm, v, l) == loc_at::<T>(nr, nm, virt, l));
            assert(loc_at::<T>(nr, nm, virt, l) == loc_at::<T>(or, om, virt, l));
        }
    }
}

/// After an installation a table page reached at some level by one address in
/// range is reached by another only at the same level, through the same indices.
proof fn lemma_unique_after<T: PageTableSpecific>(
    or: Seq<u64>, om: TableMemory, nr: Seq<u64>, nm: TableMemory, virt: u64, lo: int, hi: int,
    v1: u64, l1: nat, v2: u64, l2: nat,
)
    requires
        install_step::<T>(or, om, nr, nm, virt, 3, lo, hi),
        in_range(v1, lo, hi),
        in_range(v2, lo, hi),
        1 <= l1 <= 3,
        1 <= l2 <= 3,
        loc_at::<T>(nr, nm, v1, l1) is Page,
        loc_at::<T>(nr, nm, v1, l1) == loc_at::<T>(nr, nm, v2, l2),
    ensures
        l1 == l2,
        forall|l: int| 0 <= l < l1 ==> #[trigger] index_of(v1, l) == index_of(v2, l),
{
    let d1 = diverge(v1, virt);
    let d2 = diverge(v2, virt);
    lemma_shape::<T>(or, om, nr, nm, virt, 3, lo, hi, v1);
    lemma_shape::<T>(or, om, nr, nm, virt, 3, lo, hi, v2);
    lemma_diverge::<T>(or, om, v1, virt);
    lemma_diverge::<T>(or, om, v2, virt);
    assert(path_sound::<T>(or, om, v1, 3));
    assert(path_sound::<T>(or, om, v2, 3));
    let on1 = l1 <= d1;
    let on2 = l2 <= d2;
    if !on1 {
        assert(!(loc_at::<T>(or, om, virt, d1) is Missing));
        assert(loc_at::<T>(nr, nm, v1, l1) == loc_at::<T>(or, om, v1, l1));
    }
    if !on2 {
        assert(!(loc_at::<T>(or, om, virt, d2) is Missing));
        assert(loc_at::<T>(nr, nm, v2, l2) == loc_at::<T>(or, om, v2, l2));
    }
    if on1 && on2 {
        assert(loc_at::<T>(nr, nm, virt, l1) == loc_at::<T>(nr, nm, virt, l2));
        if l1 < l2 {
            assert(loc_at::<T>(nr, nm, virt, l1) != loc_at::<T>(nr, nm, virt, l2));
        } else if l2 < l1 {
            assert(loc_at::<T>(nr, nm, virt, l2) != loc_at::<T>(nr, nm, virt, l1));
        }
        assert forall|l: int| 0 <= l < l1 implies #[trigger] index_of(v1, l) == index_of(v2, l) by {
            assert(index_of(v1, l) == index_of(virt, l));
            assert(index_of(v2, l) == index_of(virt, l));
        }
    } else if !on1 && !on2 {
        assert(loc_at::<T>(or, om, v1, l1) == loc_at::<T>(or, om, v2, l2));
    } else {
        // One reaches the page on the path toward `virt`, the other an old
        // page below its divergence: the two cannot meet.
        let (w, lw, dw, lv) = if on1 { (v2, l2, d2, l1) } else { (v1, l1, d1, l2) };
        assert(loc_at::<T>(nr, nm, virt, lv) == loc_at::<T>(or, om, w, lw));
        assert(om.holds(loc_at::<T>(or, om, w, lw)->Page_0));
        if loc_at::<T>(or, om, virt, lv) is Missing {
            assert(!om.holds(loc_at::<T>(nr, nm, virt, lv)->Page_0));
        } else {
            assert(loc_at::<T>(nr, nm, virt, lv) == loc_at::<T>(or, om, virt, lv));
            assert(loc_at::<T>(or, om, virt, lv) == loc_at::<T>(or, om, w, lw));
            assert(index_of(virt, dw as int) == index_of(w, dw as int));
        }
    }
}

/// Law: installing a page mapping for an address in range keeps the tables a
/// tree in that range.
pub proof fn lemma_install_keeps_tree<T: PageTableSpecific>(
    or: Seq<u64>, om: TableMemory, nr: Seq<u64>, nm: TableMemory, virt: u64, lo: int, hi: int,
)
    requires
        install_step::<T>(or, om, nr, nm, virt, 3, lo, hi),
    ensures
        tree_ok::<T>(nr, nm, lo, hi),
{
    assert forall|v1: u64, v2: u64, l1: nat, l2: nat|
        #![trigger loc_at::<T>(nr, nm, v1, l1), loc_at::<T>(nr, nm, v2, l2)]
        in_range(v1, lo, hi) && in_range(v2, lo, hi) && 1 <= l1 <= 3 && 1 <= l2 <= 3
            && loc_at::<T>(nr, nm, v1, l1) is Page && loc_at::<T>(nr, nm, v1, l1) == loc_at::<T>(nr, nm, v2, l2)
        implies l1 == l2 && forall|l: int| 0 <= l < l1 ==> #[trigger] index_of(v1, l) == index_of(v2, l) by {
        lemma_unique_after::<T>(or, om, nr, nm, virt, lo, hi, v1, l1, v2, l2);
    }
    assert forall|v: u64| #![trigger path_sound::<T>(nr, nm, v, 3)] in_range(v, lo, hi)
        implies path_sound::<T>(nr, nm, v, 3) by {
        let d = diverge(v, virt);
        lemma_shape::<T>(or, om, nr, nm, virt, 3, lo, hi, v);
        lemma_diverge::<T>(or, om, v, virt);
        lemma_diverge::<T>(nr, nm, v, virt);
        assert(path_sound::<T>(or, om, v, 3));
        assert forall|l: nat| #![trigger loc_at::<T>(nr, nm, v, l)]
            l < 3 && !(loc_at::<T>(nr, nm, v, l) is Missing)
                && T::spec_is_valid(table_of(nr, nm, loc_at::<T>(nr, nm, v, l))[index_of(v, l as int)])
            implies T::spec_is_table(table_of(nr, nm, loc_at::<T>(nr, nm, v, l))[index_of(v, l as int)]) by {
            if l < d {
                assert(loc_at::<T>(nr, nm, v, l) == loc_at::<T>(nr, nm, virt, l));
                assert(index_of(v, l as int) == index_of(virt, l as int));
            } else if !(loc_at::<T>(or, om, virt, d) is Missing) {
                assert(loc_at::<T>(nr, nm, v, l) == loc_at::<T>(or, om, v, l));
                assert(path_entry::<T>(nr, nm, v, l) == path_entry::<T>(or, om, v, l));
            }
        }
        assert forall|j: nat| #![trigger loc_at::<T>(nr, nm, v, j)]
            1 <= j <= 3 && loc_at::<T>(nr, nm, v, j) is Page implies nm.holds(loc_at::<T>(nr, nm, v, j)->Page_0) by {
            if j <= d {
                assert(loc_at::<T>(nr, nm, v, j) == loc_at::<T>(nr, nm, virt, j));
            } else {
                assert(loc_at::<T>(nr, nm, v, j) == loc_at::<T>(or, om, v, j));
            }
        }
        assert forall|j: nat, k: nat| #![trigger loc_at::<T>(nr, nm, v, j), loc_at::<T>(nr, nm, v, k)]
            1 <= j < k <= 3 && loc_at::<T>(nr, nm, v, j) is Page && loc_at::<T>(nr, nm, v, k) is Page
            implies loc_at::<T>(nr, nm, v, j) != loc_at::<T>(nr, nm, v, k) by {
            if loc_at::<T>(nr, nm, v, j) == loc_at::<T>(nr, nm, v, k) {
                lemma_unique_after::<T>(or, om, nr, nm, virt, lo, hi, v, j, v, k);
            }
        }
    }
}

/// Root entries `lo..hi` that are all absent form a (bare) tree.
pub proof fn lemma_blank_range<T: PageTableSpecific>(root: Seq<u64>, mem: TableMemory, lo: int, hi: int)
    requires
        forall|i: int| lo <= i < hi ==> !T::spec_is_valid(#[trigger] root[i]),
    ensures
        tree_ok::<T>(root, mem, lo, hi),
{
    assert forall|v: u64, m: nat| in_range(v, lo, hi) && 1 <= m implies #[trigger] loc_at::<T>(root, mem, v, m) is Missing by {
        assert(!T::spec_is_valid(root[index_of(v, 0)]));
        assert(loc_at::<T>(root, mem, v, 0) == TableLoc::Root);
        assert(loc_at::<T>(root, mem, v, 1) is Missing);
        lemma_missing_stays::<T>(root, mem, v, 1, m);
    }
    assert forall|v: u64| #![trigger path_sound::<T>(root, mem, v, 3)] in_range(v, lo, hi)
        implies path_sound::<T>(root, mem, v, 3) by {
        assert(!T::spec_is_valid(root[index_of(v, 0)]));
    }
}

/// On a sound path, an address that translates reaches a page entry at the
/// last level; a page-aligned one translates to a frame.
pub proof fn lemma_mapped_leaf<T: PageTableSpecific>(root: Seq<u64>, mem: TableMemory, v: u64)
    requires
        path_sound::<T>(root, mem, v, 3),
        translate::<T>(root, mem, v) is Mapped,
    ensures
        path_present::<T>(root, mem, v, 3),
        path_ok::<T>(root, mem, v, 3),
        v % 0x1000 == 0 ==> is_frame(translate::<T>(root, mem, v)->Mapped_0),
{
    assert forall|k: nat| #![trigger loc_at::<T>(root, mem, v, k)] k <= 3 implies !(loc_at::<T>(root, mem, v, k) is Missing) by {
        if k >= 1 && loc_at::<T>(root, mem, v, k) is Missing {
            lemma_walk_missing::<T>(root, mem, v, 0, k);
        }
    }
    assert forall|l: nat| #![trigger loc_at::<T>(root, mem, v, l)] l < 3 implies {
        &&& !(loc_at::<T>(root, mem, v, l) is Missing)
        &&& T::spec_is_valid(table_of(root, mem, loc_at::<T>(root, mem, v, l))[index_of(v, l as int)])
        &&& T::spec_is_table(table_of(root, mem, loc_at::<T>(root, mem, v, l))[index_of(v, l as int)])
    } by {
        assert(!(loc_at::<T>(root, mem, v, (l + 1) as nat) is Missing));
    }
    assert(path_ok::<T>(root, mem, v, 3));
    lemma_walk_along_path::<T>(root, mem, v, 3);
    let e = path_entry::<T>(root, mem, v, 3);
    T::lemma_get_addr_is_frame(e);
    if v % 0x1000 == 0 {
        assert(offset_in(v, 3) == 0) by {
            assert(v & (((1u64 << 12u64) - 1) as u64) == 0) by (bit_vector) requires v % 0x1000 == 0;
        }
    }
}

} // verus!
