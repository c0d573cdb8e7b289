//! Typed physical and virtual addresses, 4 KiB alignment, and the
//! identity-mapped window ("pmap window") through which the kernel sees
//! physical memory.

use vstd::prelude::*;

verus! {

/// Size of a page and of a physical frame, in bytes.
pub const PAGE_SIZE: u64 = 4096;

/// Base of the kernel's identity-mapped view of physical memory.
pub const PMAP_BASE: u64 = 0xFFFF_8000_0000_0000;

/// Largest physical address representable in a page-table entry
/// (52 address bits).
pub const MAX_PHYS_ADDR: u64 = 0x000F_FFFF_FFFF_FFFF;

/// Size of the identity-mapped window (512 GiB of physical memory).
pub const PMAP_SIZE: u64 = 0x80_0000_0000;

/// The address rounded down to a page boundary.
pub open spec fn spec_align_down(a: u64) -> u64 {
    (a - (a % PAGE_SIZE)) as u64
}

/// The address rounded up to a page boundary.
pub open spec fn spec_align_up(a: u64) -> u64
    recommends
        a + PAGE_SIZE - 1 <= u64::MAX,
{
    spec_align_down((a + PAGE_SIZE - 1) as u64)
}

/// A physical memory address.
#[derive(Clone, Copy, Debug, PartialEq, Eq, Structural, Hash)]
pub struct PhysAddr(pub u64);

/// A virtual memory address.
#[derive(Clone, Copy, Debug, PartialEq, Eq, Structural, Hash)]
pub struct VirtAddr(pub u64);

impl PhysAddr {
    pub fn new(a: u64) -> (r: PhysAddr)
        ensures
            r.0 == a,
    {
        PhysAddr(a)
    }

    /// The null physical address, used as the free-list terminator.
    pub fn null() -> (r: PhysAddr)
        ensures
            r.0 == 0,
    {
        PhysAddr(0)
    }

    pub fn is_null(&self) -> (r: bool)
        ensures
            r == (self.0 == 0),
    {
        self.0 == 0
    }

    pub fn as_u64(&self) -> (r: u64)
        ensures
            r == self.0,
    {
        self.0
    }

    pub fn align_down(self) -> (r: PhysAddr)
        ensures
            r.0 == spec_align_down(self.0),
            r.0 % PAGE_SIZE == 0,
            r.0 <= self.0,
    {
        PhysAddr(align_down_u64(self.0))
    }

    pub fn align_up(self) -> (r: PhysAddr)
        requires
            self.0 + PAGE_SIZE - 1 <= u64::MAX,
        ensures
            r.0 == spec_align_up(self.0),
            r.0 % PAGE_SIZE == 0,
            self.0 <= r.0 < self.0 + PAGE_SIZE,
    {
        PhysAddr(align_up_u64(self.0))
    }

    /// The virtual address at which this physical address is visible in the
    /// identity-mapped window.
    pub fn to_pmap(self) -> (r: VirtAddr)
        requires
            self.0 < PMAP_SIZE,
        ensures
            r.0 == PMAP_BASE + self.0,
    {
        VirtAddr(PMAP_BASE + self.0)
    }
}

impl VirtAddr {
    pub fn new(a: u64) -> (r: VirtAddr)
        ensures
            r.0 == a,
    {
        VirtAddr(a)
    }

    pub fn null() -> (r: VirtAddr)
        ensures
            r.0 == 0,
    {
        VirtAddr(0)
    }

    pub fn as_u64(&self) -> (r: u64)
        ensures
            r == self.0,
    {
        self.0
    }

    pub fn align_down(self) -> (r: VirtAddr)
        ensures
            r.0 == spec_align_down(self.0),
            r.0 % PAGE_SIZE == 0,
            r.0 <= self.0,
    {
        VirtAddr(align_down_u64(self.0))
    }

    pub fn align_up(self) -> (r: VirtAddr)
        requires
            self.0 + PAGE_SIZE - 1 <= u64::MAX,
        ensures
            r.0 == spec_align_up(self.0),
            r.0 % PAGE_SIZE == 0,
            self.0 <= r.0 < self.0 + PAGE_SIZE,
    {
        VirtAddr(align_up_u64(self.0))
    }

    /// The physical address this virtual address stands for; defined only
    /// inside the identity-mapped window.
    pub fn from_pmap(self) -> (r: PhysAddr)
        requires
            PMAP_BASE <= self.0,
        ensures
            r.0 == self.0 - PMAP_BASE,
    {
        PhysAddr(self.0 - PMAP_BASE)
    }
}

/// `(a + 4095) & !4095`, shown equal to rounding up to the next multiple
/// of the page size.
pub fn align_up_u64(a: u64) -> (r: u64)
    requires
        a + PAGE_SIZE - 1 <= u64::MAX,
    ensures
        r == spec_align_up(a),
        r % PAGE_SIZE == 0,
        a <= r < a + PAGE_SIZE,
{
    let b = a + (PAGE_SIZE - 1);
    let r = b & !(PAGE_SIZE - 1);
    proof {
        assert(r == b - (b % 4096) && b - (b % 4096) <= b && b % 4096 < 4096) by (bit_vector)
            requires
                r == b & !4095u64,
        ;
        assert((b - (b % 4096)) as u64 % 4096 == 0) by (nonlinear_arith)
            requires
                b % 4096 < 4096,
        ;
        assert(a <= r) by (nonlinear_arith)
            requires
                r == b - (b % 4096),
                b == a + 4095,
                b % 4096 < 4096,
        ;
    }
    r
}

/// `a & !4095`, shown equal to rounding down to a multiple of the page size.
pub fn align_down_u64(a: u64) -> (r: u64)
    ensures
        r == spec_align_down(a),
        r % PAGE_SIZE == 0,
        r <= a,
{
    let r = a & !(PAGE_SIZE - 1);
    proof {
        assert(r == a - (a % 4096) && a % 4096 < 4096) by (bit_vector)
            requires
                r == a & !4095u64,
        ;
        assert((a - (a % 4096)) as u64 % 4096 == 0) by (nonlinear_arith)
            requires
                a % 4096 < 4096,
        ;
    }
    r
}

} // verus!
