//! Physical addresses, page permissions and mapping types.
use vstd::prelude::*;
use crate::align::{is_pow2_u64, low_mask_u64, lemma_low_mask_is_mod_u64};

verus! {

/// A physical address.
#[derive(Debug, Copy, Clone)]
pub struct PhysAddr(pub u64);

impl PhysAddr {
    /// Whether the address has no bits set below the alignment `n`.
    pub fn is_aligned(&self, n: u64) -> (r: bool)
        requires
            n >= 1,
        ensures
            r == (self.0 & low_mask_u64(n) == 0),
            is_pow2_u64(n) ==> (r <==> self.0 % n == 0),
    {
        proof {
            if is_pow2_u64(n) {
                lemma_low_mask_is_mod_u64(self.0, n);
            }
        }
        self.0 & (n - 1) == 0
    }
}

/// Access rights of a mapping, as a set of bits.
#[derive(Debug, Copy, Clone)]
pub struct PagePermission {
    bits: u64,
}

impl PagePermission {
    /// No rights beyond reading.
    #[allow(non_snake_case)]
    pub fn READ_ONLY() -> (r: PagePermission)
        ensures
            r.bits() == 0,
    {
        PagePermission { bits: 0 }
    }

    /// Writes are allowed.
    #[allow(non_snake_case)]
    pub fn WRITE() -> (r: PagePermission)
        ensures
            r.bits() == 1,
    {
        PagePermission { bits: 1 }
    }

    /// Instruction fetches are allowed.
    #[allow(non_snake_case)]
    pub fn EXECUTE() -> (r: PagePermission)
        ensures
            r.bits() == 2,
    {
        PagePermission { bits: 2 }
    }

    /// Only the kernel may access the page.
    #[allow(non_snake_case)]
    pub fn KERNEL() -> (r: PagePermission)
        ensures
            r.bits() == 4,
    {
        PagePermission { bits: 4 }
    }

    /// The permission with bits `0`.
    #[allow(non_snake_case)]
    pub fn USER_READ_ONLY() -> (r: PagePermission)
        ensures
            r.bits() == 0,
    {
        PagePermission { bits: 0 }
    }

    /// The permission with bits `1`.
    #[allow(non_snake_case)]
    pub fn USER_READ_WRITE() -> (r: PagePermission)
        ensures
            r.bits() == 1,
    {
        PagePermission { bits: 1 }
    }

    /// The permission with bits `2`.
    #[allow(non_snake_case)]
    pub fn USER_READ_EXECUTE() -> (r: PagePermission)
        ensures
            r.bits() == 2,
    {
        PagePermission { bits: 2 }
    }

    /// The permission with bits `3`.
    #[allow(non_snake_case)]
    pub fn USER_RWX() -> (r: PagePermission)
        ensures
            r.bits() == 3,
    {
        PagePermission { bits: 3 }
    }

    /// The permission with bits `4`.
    #[allow(non_snake_case)]
    pub fn KERNEL_READ_ONLY() -> (r: PagePermission)
        ensures
            r.bits() == 4,
    {
        PagePermission { bits: 4 }
    }

    /// The permission with bits `5`.
    #[allow(non_snake_case)]
    pub fn KERNEL_READ_WRITE() -> (r: PagePermission)
        ensures
            r.bits() == 5,
    {
        PagePermission { bits: 5 }
    }

    /// The permission with bits `6`.
    #[allow(non_snake_case)]
    pub fn KERNEL_READ_EXECUTE() -> (r: PagePermission)
        ensures
            r.bits() == 6,
    {
        PagePermission { bits: 6 }
    }

    /// The permission with bits `7`.
    #[allow(non_snake_case)]
    pub fn KERNEL_RWX() -> (r: PagePermission)
        ensures
            r.bits() == 7,
    {
        PagePermission { bits: 7 }
    }


    /// The raw bits.
    pub closed spec fn spec_bits(&self) -> u64 {
        self.bits
    }

    /// The raw bits.
    #[verifier::when_used_as_spec(spec_bits)]
    pub fn bits(&self) -> (r: u64)
        ensures
            r == self.spec_bits(),
    {
        self.bits
    }

    /// The permission with exactly these bits.
    pub fn from_bits_retain(bits: u64) -> (r: PagePermission)
        ensures
            r.bits() == bits,
    {
        PagePermission { bits }
    }

    /// Whether the kernel-only bit is set.
    pub open spec fn is_kernel(&self) -> bool {
        self.bits() & 4 == 4
    }

    /// Whether the write bit is set.
    pub open spec fn is_writable(&self) -> bool {
        self.bits() & 1 == 1
    }

    /// Whether the execute bit is set.
    pub open spec fn is_executable(&self) -> bool {
        self.bits() & 2 == 2
    }

    /// Whether every bit of `other` is set in `self`.
    pub open spec fn spec_contains(&self, other: PagePermission) -> bool {
        self.bits() & other.bits() == other.bits()
    }

    /// Whether every bit of `other` is set in `self`.
    #[verifier::when_used_as_spec(spec_contains)]
    pub fn contains(&self, other: PagePermission) -> (r: bool)
        ensures
            r == self.spec_contains(other),
    {
        self.bits & other.bits == other.bits
    }

    /// The permission with exactly these bits.
    pub closed spec fn with_bits(bits: u64) -> PagePermission {
        PagePermission { bits }
    }

    /// The bits of `with_bits`.
    pub proof fn lemma_with_bits(bits: u64)
        ensures
            Self::with_bits(bits).bits() == bits,
    {
    }

    /// A permission is its bits.
    pub proof fn lemma_bits_determine(a: PagePermission, b: PagePermission)
        requires
            a.bits() == b.bits(),
        ensures
            a == b,
    {
    }

    /// Whether `self` and `other` hold the same bits.
    pub fn same_as(&self, other: PagePermission) -> (r: bool)
        ensures
            r == (self.bits() == other.bits()),
    {
        self.bits == other.bits
    }
}

/// The memory type of a mapping.
#[derive(Debug, Copy, Clone, PartialEq, Eq, Structural)]
pub enum MapType {
    NormalCachable,
    NormalUncachable,
    Device,
}

impl MapType {
    /// The map type with the given number, in declaration order.
    pub fn from_u64(n: u64) -> (r: Option<MapType>)
        ensures
            n == 0 ==> r == Some(MapType::NormalCachable),
            n == 1 ==> r == Some(MapType::NormalUncachable),
            n == 2 ==> r == Some(MapType::Device),
            n > 2 ==> r is None,
    {
        if n == 0 {
            Some(MapType::NormalCachable)
        } else if n == 1 {
            Some(MapType::NormalUncachable)
        } else if n == 2 {
            Some(MapType::Device)
        } else {
            None
        }
    }
}

} // verus!
