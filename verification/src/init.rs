//! Handing physical memory to the page allocator at boot, and the kernel's
//! fixed windows onto physical memory.
use vstd::prelude::*;
use crate::types::{MapType, PagePermission};

verus! {

/// The page at `p` goes to the allocator: it is not part of the kernel image,
/// whose first and last bytes are at `text_start` and `bss_end`.
pub open spec fn is_free_page(p: int, text_start: u64, bss_end: u64) -> bool {
    !(p >= text_start && p <= bss_end)
}

/// The free pages among the first `k` pages from `start`, highest first.
pub open spec fn free_pages_below(start: u64, k: nat, text_start: u64, bss_end: u64) -> Seq<u64>
    decreases k,
{
    if k == 0 {
        Seq::empty()
    } else {
        let p = start + (k - 1) * 0x1000;
        let rest = free_pages_below(start, (k - 1) as nat, text_start, bss_end);
        if is_free_page(p, text_start, bss_end) {
            seq![p as u64] + rest
        } else {
            rest
        }
    }
}

/// Every listed page is one of the `k` pages from `start` and lies outside
/// the kernel image, and the list runs strictly downwards.
proof fn lemma_free_pages_shape(start: u64, k: nat, text_start: u64, bss_end: u64)
    requires
        k > 0 ==> start + (k - 1) * 0x1000 <= u64::MAX,
    ensures
        ({
            let s = free_pages_below(start, k, text_start, bss_end);
            &&& forall|i: int| #![trigger s[i]] 0 <= i < s.len() ==> {
                &&& start <= s[i] <= start + (k - 1) * 0x1000
                &&& (s[i] - start) % 0x1000 == 0
                &&& is_free_page(s[i] as int, text_start, bss_end)
            }
            &&& forall|i: int, j: int| 0 <= i < j < s.len() ==> s[i] > s[j]
        }),
    decreases k,
{
    if k > 0 {
        let k1 = (k - 1) as nat;
        lemma_free_pages_shape(start, k1, text_start, bss_end);
        let rest = free_pages_below(start, k1, text_start, bss_end);
        let p = start + (k - 1) * 0x1000;
        assert(forall|i: int| 0 <= i < rest.len() ==> #[trigger] rest[i] < p) by {
            assert forall|i: int| 0 <= i < rest.len() implies #[trigger] rest[i] < p by {
                if k1 > 0 {
                    assert(rest[i] <= start + (k1 - 1) * 0x1000);
                }
            }
        }
        let s = free_pages_below(start, k, text_start, bss_end);
        if is_free_page(p, text_start, bss_end) {
            assert(s == seq![p as u64] + rest);
            assert((p - start) % 0x1000 == 0) by (nonlinear_arith)
                requires p == start + (k - 1) * 0x1000, k >= 1;
            assert forall|i: int| 0 <= i < s.len() implies #[trigger] s[i] <= start + (k - 1) * 0x1000 by {
                if i > 0 {
                    assert(s[i] == rest[i - 1]);
                }
            }
            assert forall|i: int, j: int| 0 <= i < j < s.len() implies s[i] > s[j] by {
                assert(s[j] == rest[j - 1]);
                if i > 0 {
                    assert(s[i] == rest[i - 1]);
                }
            }
        } else {
            assert forall|i: int| 0 <= i < s.len() implies #[trigger] s[i] <= start + (k - 1) * 0x1000 by {
                if k1 > 0 {
                    assert(rest[i] <= start + (k1 - 1) * 0x1000);
                }
            }
        }
    }
}

/// The number of pages that step through `start..end`.
pub open spec fn page_count(start: u64, end: u64) -> nat {
    if end <= start {
        0
    } else {
        ((end - start + 0xfff) / 0x1000) as nat
    }
}

/// The pages from `start` (included) to `end` (excluded), stepping by 4 KiB
/// from the top down, that the physical allocator receives: all but those
/// inside the kernel image.
pub fn setup_physical_allocator(start: u64, end: u64, text_start: u64, bss_end: u64) -> (r: Vec<u64>)
    ensures
        r@ == free_pages_below(start, page_count(start, end), text_start, bss_end),
        forall|i: int| #![trigger r@[i]] 0 <= i < r@.len() ==> {
            &&& start <= r@[i] < end
            &&& (r@[i] - start) % 0x1000 == 0
            &&& !(text_start <= r@[i] <= bss_end)
        },
        forall|i: int, j: int| 0 <= i < j < r@.len() ==> r@[i] > r@[j],
{
    let mut r: Vec<u64> = Vec::new();
    if end <= start {
        return r;
    }
    let span = end - start;
    let n: u64 = span / 0x1000 + if span % 0x1000 != 0 { 1 } else { 0 };
    assert(n == page_count(start, end));
    let mut k: u64 = n;
    while k > 0
        invariant
            k <= n,
            n == page_count(start, end),
            n > 0 ==> start + (n - 1) * 0x1000 < end,
            r@ + free_pages_below(start, k as nat, text_start, bss_end)
                == free_pages_below(start, n as nat, text_start, bss_end),
        decreases k,
    {
        assert(start + (k - 1) * 0x1000 < end) by (nonlinear_arith)
            requires 0 < k <= n, start + (n - 1) * 0x1000 < end;
        let p = start + (k - 1) * 0x1000;
        let ghost before = r@;
        if !(p >= text_start && p <= bss_end) {
            r.push(p);
            assert(r@ + free_pages_below(start, (k - 1) as nat, text_start, bss_end)
                =~= before + free_pages_below(start, k as nat, text_start, bss_end));
        }
        k = k - 1;
    }
    assert(r@ =~= r@ + free_pages_below(start, 0, text_start, bss_end));
    proof {
        lemma_free_pages_shape(start, n as nat, text_start, bss_end);
    }
    r
}

/// A 1 GiB window of the kernel's address space onto physical memory.
#[derive(Debug, Copy, Clone)]
pub struct KernelWindow {
    pub phys: u64,
    pub virt: u64,
    pub perm: PagePermission,
    pub map_type: MapType,
}

/// A window as plain values: physical and virtual start, permission bits,
/// memory type.
pub open spec fn window_view(w: KernelWindow) -> (u64, u64, u64, MapType) {
    (w.phys, w.virt, w.perm.bits(), w.map_type)
}

/// The windows the kernel maps at boot, kernel-only read-write-execute:
/// the first 4 GiB of physical memory at `physmap_base`, uncachable, and
/// again at `peripheral_base` as device memory, one 1 GiB block each.
pub open spec fn kernel_windows_spec(physmap_base: u64, peripheral_base: u64) -> Seq<(u64, u64, u64, MapType)> {
    Seq::new(8, |i: int| {
        let g = (i % 4) * 0x4000_0000;
        if i < 4 {
            (g as u64, (physmap_base + g) as u64, 7u64, MapType::NormalUncachable)
        } else {
            (g as u64, (peripheral_base + g) as u64, 7u64, MapType::Device)
        }
    })
}

/// The 1 GiB windows to map at boot, in the order the kernel maps them.
pub fn kernel_windows(physmap_base: u64, peripheral_base: u64) -> (r: Vec<KernelWindow>)
    requires
        physmap_base + 0xc000_0000 <= u64::MAX,
        peripheral_base + 0xc000_0000 <= u64::MAX,
    ensures
        r@.map_values(|w: KernelWindow| window_view(w)) == kernel_windows_spec(physmap_base, peripheral_base),
{
    let mut v: Vec<KernelWindow> = Vec::new();
    let mut i: u64 = 0;
    while i < 8
        invariant
            i <= 8,
            physmap_base + 0xc000_0000 <= u64::MAX,
            peripheral_base + 0xc000_0000 <= u64::MAX,
            v@.map_values(|w: KernelWindow| window_view(w)) == kernel_windows_spec(physmap_base, peripheral_base).take(i as int),
        decreases 8 - i,
    {
        let g: u64 = (i % 4) * 0x4000_0000;
        let perm = PagePermission::KERNEL_RWX();
        let w = if i < 4 {
            KernelWindow { phys: g, virt: physmap_base + g, perm, map_type: MapType::NormalUncachable }
        } else {
            KernelWindow { phys: g, virt: peripheral_base + g, perm, map_type: MapType::Device }
        };
        let ghost before = v@;
        assert(window_view(w) == kernel_windows_spec(physmap_base, peripheral_base)[i as int]);
        v.push(w);
        assert(v@.map_values(|w: KernelWindow| window_view(w))
            =~= before.map_values(|w: KernelWindow| window_view(w)).push(window_view(w)));
        assert(v@.map_values(|w: KernelWindow| window_view(w))
            =~= kernel_windows_spec(physmap_base, peripheral_base).take(i as int + 1));
        i = i + 1;
    }
    assert(kernel_windows_spec(physmap_base, peripheral_base).take(8) =~= kernel_windows_spec(physmap_base, peripheral_base));
    v
}

} // verus!
