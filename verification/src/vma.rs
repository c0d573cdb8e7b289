//! The virtual-memory area (VMA) layer: reservations of virtual ranges
//! inside a protection domain, eager mappings with a guard prefix, and
//! lazily-mapped ranges grown on demand by the page-fault handler.
//!
//! The allocator keeps the free intervals of the user address space and,
//! as ghost state, the set of ranges currently reserved: any two live
//! VMAs of one domain are disjoint.

use vstd::prelude::*;

use crate::addr::{PhysAddr, PAGE_SIZE};
use crate::frame::FrameAllocator;
use crate::paging::{
    fa_fits, lemma_page_base_self, lemma_same_page_base, page_base, same_page, ActiveMapping,
    MemoryError,
};
use crate::table::flags_wf;

verus! {

/// A half-open virtual range `[base, base + size)`.
pub open spec fn range_wf(base: u64, size: u64) -> bool {
    &&& size > 0
    &&& base % PAGE_SIZE == 0
    &&& size % PAGE_SIZE == 0
    &&& base + size <= 0x1_0000_0000_0000
    &&& base > 0
}

/// Two ranges do not overlap.
pub open spec fn ranges_disjoint(a: (u64, u64), b: (u64, u64)) -> bool {
    a.0 + a.1 <= b.0 || b.0 + b.1 <= a.0
}

/// Every mapped page of the domain lies inside some live reservation:
/// the discipline the allocator's exclusive ownership gives the paging
/// layer. A freshly reserved range is then unmapped, since it was carved
/// out of free space, disjoint from every reservation.
pub open spec fn domain_mapped_in(vma_alloc: VmaAllocator, mapping: ActiveMapping) -> bool {
    forall|v: u64|
        #[trigger] mapping.resolve(v) is Some ==> exists|r: (u64, u64)|
            #[trigger] vma_alloc.allocated@.contains(r) && r.0 <= page_base(v) < r.0 + r.1
}

/// A reserved virtual range: address space claimed, no backing yet.
pub struct Vma {
    pub base: u64,
    pub size: u64,
}

/// A fully backed virtual range, the first `guard_size` bytes left
/// unmapped to catch underflow.
pub struct MappedVma {
    pub base: u64,
    pub size: u64,
    pub guard_size: u64,
    pub flags: u64,
}

/// A reserved range with a current extent mapped on demand: page faults
/// below the extent allocate and map a frame; the tail of the
/// reservation past `max_extent` is a permanent guard.
pub struct LazilyMappedVma {
    pub base: u64,
    pub size: u64,
    pub max_extent: u64,
    pub extent: u64,
    pub flags: u64,
    /// The bytes of the lazily mapped range, zero until written: the
    /// logical content of the linear memory within the extent.
    pub contents: Vec<u8>,
}

/// Reserves virtual ranges for one protection domain by first fit.
pub struct VmaAllocator {
    /// Free intervals `(base, size)`, kept disjoint.
    pub free: Vec<(u64, u64)>,
    /// The ranges currently reserved.
    pub allocated: Ghost<Set<(u64, u64)>>,
}

impl MappedVma {
    pub open spec fn wf(self) -> bool {
        &&& range_wf(self.base, self.size)
        &&& self.guard_size % PAGE_SIZE == 0
        &&& self.guard_size < self.size
    }

    pub fn address(&self) -> (r: u64)
        ensures
            r == self.base,
    {
        self.base
    }

    pub fn size(&self) -> (r: u64)
        ensures
            r == self.size,
    {
        self.size
    }
}

impl LazilyMappedVma {
    pub open spec fn wf(self) -> bool {
        &&& range_wf(self.base, self.size)
        &&& self.extent <= self.max_extent
        &&& self.max_extent <= self.size
        &&& self.extent % PAGE_SIZE == 0
        &&& self.max_extent % PAGE_SIZE == 0
        &&& self.contents@.len() == self.extent
    }

    /// A placeholder for a thread without a heap yet.
    pub fn dummy() -> (r: LazilyMappedVma)
        ensures
            r.extent == 0,
            r.contents@.len() == 0,
    {
        LazilyMappedVma {
            base: 0,
            size: 0,
            max_extent: 0,
            extent: 0,
            flags: 0,
            contents: Vec::new(),
        }
    }

    pub fn address(&self) -> (r: u64)
        ensures
            r == self.base,
    {
        self.base
    }

    /// The currently allocated size in bytes.
    pub fn size(&self) -> (r: u64)
        ensures
            r == self.extent,
    {
        self.extent
    }

    /// Grows the extent by `delta` bytes without backing the new pages;
    /// returns the extent before the growth. Fails, changing nothing,
    /// when the growth would reach into the guard region.
    pub fn expand(&mut self, delta: u64) -> (r: Result<u64, MemoryError>)
        requires
            old(self).wf(),
            delta % PAGE_SIZE == 0,
        ensures
            final(self).wf(),
            final(self).base == old(self).base,
            final(self).size == old(self).size,
            final(self).max_extent == old(self).max_extent,
            final(self).flags == old(self).flags,
            match r {
                Ok(before) => old(self).extent + delta <= old(self).max_extent && before == old(self).extent && final(self).extent == old(self).extent + delta && final(self).contents@
                    == old(self).contents@ + Seq::new(delta as nat, |i: int| 0u8),
                Err(e) => e == MemoryError::InvalidRange && old(self).extent + delta > old(self).max_extent && *final(self) == *old(self),
            },
    {
        if delta > self.max_extent - self.extent {
            proof {
                assert(self.contents@ =~= old(self).contents@);
            }
            return Err(MemoryError::InvalidRange);
        }
        let before = self.extent;
        let mut pushed: u64 = 0;
        while pushed < delta
            invariant
                pushed <= delta,
                self.base == old(self).base,
                self.size == old(self).size,
                self.max_extent == old(self).max_extent,
                self.flags == old(self).flags,
                self.extent == old(self).extent,
                self.contents@ == old(self).contents@ + Seq::new(pushed as nat, |i: int| 0u8),
                old(self).contents@.len() == old(self).extent,
                old(self).extent + delta <= old(self).max_extent,
            decreases delta - pushed,
        {
            self.contents.push(0);
            pushed += 1;
            proof {
                assert(self.contents@ =~= old(self).contents@ + Seq::new(
                    pushed as nat,
                    |i: int| 0u8,
                ));
            }
        }
        self.extent = self.extent + delta;
        Ok(before)
    }

    /// Writes bytes into the lazily mapped range at `offset`; the range
    /// written must lie within the extent.
    pub fn write_bytes(&mut self, offset: u64, data: &Vec<u8>)
        requires
            old(self).wf(),
            offset + data@.len() <= old(self).extent,
        ensures
            final(self).wf(),
            final(self).base == old(self).base,
            final(self).size == old(self).size,
            final(self).max_extent == old(self).max_extent,
            final(self).extent == old(self).extent,
            final(self).flags == old(self).flags,
            final(self).contents@.len() == old(self).contents@.len(),
            forall|i: int|
                0 <= i < data@.len() ==> #[trigger] final(self).contents@[offset + i] == data@[i],
            forall|i: int|
                0 <= i < old(self).contents@.len() && !(offset <= i < offset + data@.len())
                    ==> #[trigger] final(self).contents@[i] == old(self).contents@[i],
    {
        let clen = self.contents.len();
        let base_idx = offset as usize;
        proof {
            assert(base_idx == offset);
        }
        let mut k: usize = 0;
        while k < data.len()
            invariant
                k <= data@.len(),
                base_idx == offset,
                clen == self.contents@.len(),
                offset + data@.len() <= self.contents@.len(),
                self.contents@.len() == old(self).contents@.len(),
                self.base == old(self).base,
                self.size == old(self).size,
                self.max_extent == old(self).max_extent,
                self.extent == old(self).extent,
                self.flags == old(self).flags,
                forall|i: int|
                    0 <= i < k ==> #[trigger] self.contents@[offset + i] == data@[i],
                forall|i: int|
                    0 <= i < old(self).contents@.len() && !(offset <= i < offset + k)
                        ==> #[trigger] self.contents@[i] == old(self).contents@[i],
            decreases data@.len() - k,
        {
            let idx = base_idx + k;
            self.contents[idx] = data[k];
            proof {
                assert(self.contents@[offset + k] == data@[k as int]);
            }
            k += 1;
        }
    }

    /// Handles a page fault at `fault_addr`: when the address lies inside
    /// the extent and its page is unmapped, a frame is allocated and
    /// mapped there and the fault is handled; any other fault is not.
    pub fn try_handle_page_fault(
        &mut self,
        mapping: &mut ActiveMapping,
        fa: &mut FrameAllocator,
        fault_addr: u64,
    ) -> (r: bool)
        requires
            old(self).wf(),
            old(mapping).wf(),
            old(fa).wf(),
            fa_fits(*old(fa)),
            flags_wf(old(self).flags),
        ensures
            final(self).wf(),
            *final(self) == *old(self),
            final(mapping).wf(),
            final(fa).wf(),
            final(fa).mem@ == old(fa).mem@,
            r ==> old(self).base <= fault_addr < old(self).base + old(self).extent && (forall|
                v2: u64,
            |
                !same_page(v2, fault_addr) ==> #[trigger] final(mapping).resolve(v2) == old(mapping).resolve(v2)) && (match final(mapping).resolve(fault_addr) {
                Some(m) => m.1 == old(self).flags,
                None => false,
            }),
            !r ==> (forall|v2: u64|
                #[trigger] final(mapping).resolve(v2) == old(mapping).resolve(v2)) && (fault_addr
                < old(self).base || fault_addr >= old(self).base + old(self).extent || old(mapping).resolve(fault_addr) is Some || final(fa).free_list@.len() == 0),
            old(self).base <= fault_addr < old(self).base + old(self).extent && !(old(mapping).resolve(fault_addr) is Some) && old(fa).free_list@.len() >= 4 ==> r,
            // With the page tables already present, one frame suffices,
            // and the page takes exactly the old stack top.
            old(self).base <= fault_addr < old(self).base + old(self).extent && !(old(mapping).resolve(fault_addr) is Some) && crate::paging::l1_path_exists(*old(mapping), fault_addr)
                ==> (r <==> old(fa).free_list@.len() >= 1) && (r ==> final(mapping).resolve(
                fault_addr,
            ) == Some(((old(fa).free_list@[0] * crate::addr::PAGE_SIZE) as u64, old(self).flags))
                && final(fa).free_list@ == old(fa).free_list@.skip(1)),
    {
        if fault_addr < self.base || fault_addr >= self.base + self.extent {
            return false;
        }
        if mapping.translate(fault_addr).is_some() {
            return false;
        }
        let res = mapping.map_page(
            fa,
            fault_addr,
            self.flags,
            crate::table::CacheType::WriteBack,
        );
        proof {
            let fl = self.flags;
            assert(fl | 0u64 == fl) by (bit_vector);
        }
        match res {
            Ok(()) => true,
            Err(_) => false,
        }
    }
}

impl VmaAllocator {
    pub open spec fn wf(self) -> bool {
        &&& forall|i: int|
            0 <= i < self.free@.len() ==> range_wf(
                (#[trigger] self.free@[i]).0,
                self.free@[i].1,
            )
        &&& forall|i: int, j: int|
            0 <= i < j < self.free@.len() ==> ranges_disjoint(
                #[trigger] self.free@[i],
                #[trigger] self.free@[j],
            )
        &&& forall|r: (u64, u64)| #[trigger] self.allocated@.contains(r) ==> range_wf(r.0, r.1)
        &&& forall|r1: (u64, u64), r2: (u64, u64)|
            #[trigger] self.allocated@.contains(r1) && #[trigger] self.allocated@.contains(r2)
                && r1 != r2 ==> ranges_disjoint(r1, r2)
        &&& forall|i: int, r: (u64, u64)|
            0 <= i < self.free@.len() && #[trigger] self.allocated@.contains(r) ==> ranges_disjoint(
                #[trigger] self.free@[i],
                r,
            )
    }

    /// An allocator owning the free range `[base, base + size)`.
    pub fn new(base: u64, size: u64) -> (r: VmaAllocator)
        requires
            range_wf(base, size),
        ensures
            r.wf(),
            r.allocated@ == Set::<(u64, u64)>::empty(),
    {
        let mut free: Vec<(u64, u64)> = Vec::new();
        free.push((base, size));
        VmaAllocator { free, allocated: Ghost(Set::empty()) }
    }

    /// Reserves a range of `size` bytes by first fit. The new reservation
    /// is disjoint from every other live reservation of this domain.
    pub fn create_vma(&mut self, size: u64) -> (r: Result<Vma, MemoryError>)
        requires
            old(self).wf(),
            size > 0,
            size % PAGE_SIZE == 0,
        ensures
            final(self).wf(),
            match r {
                Ok(vma) => vma.size == size && range_wf(vma.base, vma.size) && !old(self).allocated@.contains((vma.base, vma.size)) && final(self).allocated@ == old(self).allocated@.insert((vma.base, vma.size)) && (forall|r2: (u64, u64)|
                    #[trigger] old(self).allocated@.contains(r2) ==> ranges_disjoint(
                        (vma.base, vma.size),
                        r2,
                    )) && (exists|i: int|
                    0 <= i < old(self).free@.len() && (#[trigger] old(self).free@[i]).0 == vma.base
                        && old(self).free@[i].1 >= size && (forall|j: int|
                        0 <= j < old(self).free@.len() && j != i ==> final(self).free@.contains(
                            #[trigger] old(self).free@[j],
                        )) && (old(self).free@[i].1 > size ==> final(self).free@.contains(
                        ((vma.base + size) as u64, (old(self).free@[i].1 - size) as u64),
                    ))),
                Err(e) => e == MemoryError::OutOfMemory && *final(self) == *old(self) && forall|
                    i: int,
                | 0 <= i < old(self).free@.len() ==> (#[trigger] old(self).free@[i]).1 < size,
            },
    {
        let mut i: usize = 0;
        while i < self.free.len()
            invariant
                self == old(self),
                self.wf(),
                size > 0,
                size % PAGE_SIZE == 0,
                i <= self.free@.len(),
                forall|k: int| 0 <= k < i ==> (#[trigger] self.free@[k]).1 < size,
            decreases self.free@.len() - i,
        {
            let (base, fsize) = self.free[i];
            if fsize >= size {
                if fsize == size {
                    self.free.remove(i);
                } else {
                    self.free[i] = (base + size, fsize - size);
                }
                let vma = Vma { base, size };
                proof {
                    let nr = (base, size);
                    assert(!old(self).allocated@.contains(nr) && forall|r2: (u64, u64)|
                        #[trigger] old(self).allocated@.contains(r2) ==> ranges_disjoint(nr, r2))
                        by {
                        assert forall|r2: (u64, u64)|
                            #[trigger] old(self).allocated@.contains(r2) implies ranges_disjoint(
                            nr,
                            r2,
                        ) by {
                            assert(ranges_disjoint(old(self).free@[i as int], r2));
                        }
                        if old(self).allocated@.contains(nr) {
                            assert(ranges_disjoint(old(self).free@[i as int], nr));
                        }
                    }
                    self.allocated@ = self.allocated@.insert(nr);
                    if fsize == size {
                        assert forall|k: int, j: int|
                            0 <= k < j < self.free@.len() implies ranges_disjoint(
                            #[trigger] self.free@[k],
                            #[trigger] self.free@[j],
                        ) by {
                            if j < i as int {
                                assert(self.free@[k] == old(self).free@[k]);
                                assert(self.free@[j] == old(self).free@[j]);
                            } else if k < i as int {
                                assert(self.free@[k] == old(self).free@[k]);
                                assert(self.free@[j] == old(self).free@[j + 1]);
                            } else {
                                assert(self.free@[k] == old(self).free@[k + 1]);
                                assert(self.free@[j] == old(self).free@[j + 1]);
                            }
                        }
                        assert forall|k: int|
                            0 <= k < self.free@.len() implies range_wf(
                            (#[trigger] self.free@[k]).0,
                            self.free@[k].1,
                        ) by {
                            if k < i as int {
                                assert(self.free@[k] == old(self).free@[k]);
                            } else {
                                assert(self.free@[k] == old(self).free@[k + 1]);
                            }
                        }
                        assert forall|k: int, r: (u64, u64)|
                            0 <= k < self.free@.len() && #[trigger] self.allocated@.contains(
                                r,
                            ) implies ranges_disjoint(#[trigger] self.free@[k], r) by {
                            let o = if k < i as int {
                                k
                            } else {
                                k + 1
                            };
                            assert(self.free@[k] == old(self).free@[o]);
                            if r == nr {
                                assert(ranges_disjoint(old(self).free@[o], old(self).free@[
                                    i as int]));
                            }
                        }
                    }
                    // The carving's bookkeeping: every other free
                    // interval survives; a strict remainder stays free.
                    assert(old(self).free@[i as int].0 == base && old(self).free@[i as int].1
                        == fsize);
                    if fsize == size {
                        assert forall|j: int|
                            0 <= j < old(self).free@.len() && j != i as int implies
                            self.free@.contains(#[trigger] old(self).free@[j]) by {
                            if j < i as int {
                                assert(self.free@[j] == old(self).free@[j]);
                            } else {
                                assert(self.free@[j - 1] == old(self).free@[j]);
                            }
                        }
                    } else {
                        assert forall|j: int|
                            0 <= j < old(self).free@.len() && j != i as int implies
                            self.free@.contains(#[trigger] old(self).free@[j]) by {
                            assert(self.free@[j] == old(self).free@[j]);
                        }
                        assert(self.free@[i as int] == (((base + size) as u64, (fsize
                            - size) as u64)));
                        assert(self.free@.contains(self.free@[i as int]));
                    }
                }
                return Ok(vma);
            }
            i += 1;
        }
        Err(MemoryError::OutOfMemory)
    }

    /// Releases a reservation, making its range free again. The caller
    /// must own the reservation: it has to be a live one of this domain.
    pub fn release_vma(&mut self, base: u64, size: u64)
        requires
            old(self).wf(),
            old(self).allocated@.contains((base, size)),
        ensures
            final(self).wf(),
            final(self).allocated@ == old(self).allocated@.remove((base, size)),
    {
        proof {
            self.allocated@ = self.allocated@.remove((base, size));
        }
        self.free.push((base, size));
        proof {
            let nr = (base, size);
            assert forall|k: int, j: int|
                0 <= k < j < self.free@.len() implies ranges_disjoint(
                #[trigger] self.free@[k],
                #[trigger] self.free@[j],
            ) by {
                if j == self.free@.len() - 1 {
                    assert(old(self).allocated@.contains(nr));
                    assert(ranges_disjoint(old(self).free@[k], nr));
                }
            }
        }
    }
}

impl Vma {
    pub fn address(&self) -> (r: u64)
        ensures
            r == self.base,
    {
        self.base
    }

    pub fn size(&self) -> (r: u64)
        ensures
            r == self.size,
    {
        self.size
    }

    /// Backs the reservation with frames eagerly: every page past the
    /// guard prefix is mapped with `flags`; the guard stays unmapped.
    /// On `OutOfMemory` the pages mapped so far stay mapped: a later
    /// attempt reuses the partial work.
    pub fn map(
        self,
        mapping: &mut ActiveMapping,
        fa: &mut FrameAllocator,
        guard_size: u64,
        usable_size: u64,
        flags: u64,
    ) -> (r: Result<MappedVma, MemoryError>)
        requires
            range_wf(self.base, self.size),
            old(mapping).wf(),
            old(fa).wf(),
            fa_fits(*old(fa)),
            flags_wf(flags),
            guard_size % PAGE_SIZE == 0,
            usable_size % PAGE_SIZE == 0,
            usable_size > 0,
            guard_size + usable_size == self.size,
        ensures
            final(mapping).wf(),
            final(fa).wf(),
            final(fa).mem@ == old(fa).mem@,
            forall|v2: u64|
                !(self.base + guard_size <= #[trigger] page_base(v2) < self.base + self.size)
                    ==> final(mapping).resolve(v2) == old(mapping).resolve(v2),
            match r {
                Ok(m) => m.base == self.base && m.size == self.size && m.guard_size == guard_size
                    && m.flags == flags && m.wf() && forall|v2: u64|
                    self.base + guard_size <= #[trigger] page_base(v2) < self.base + self.size
                        ==> (match final(mapping).resolve(v2) {
                        Some(p) => p.1 == flags,
                        None => false,
                    }),
                Err(e) => e == MemoryError::OutOfMemory || e == MemoryError::AlreadyMapped,
            },
            final(fa).free_list@.len() >= old(fa).free_list@.len() - 4 * (usable_size as int
                / PAGE_SIZE as int),
            // Success is owed when the target pages are free and the
            // frame allocator holds enough for the pages and their
            // tables.
            (forall|v2: u64|
                self.base + guard_size <= #[trigger] page_base(v2) < self.base + self.size ==> old(mapping).resolve(v2) is None) && old(fa).free_list@.len() >= 4 * (
            usable_size as int / PAGE_SIZE as int) ==> r is Ok,
    {
        broadcast use crate::paging::group_idx_bounds;

        let ghost cond = (forall|v2: u64|
            self.base + guard_size <= #[trigger] page_base(v2) < self.base + self.size ==> old(mapping).resolve(v2) is None) && old(fa).free_list@.len() >= 4 * (
        usable_size as int / PAGE_SIZE as int);
        let start = self.base + guard_size;
        let pages = usable_size / PAGE_SIZE;
        let mut j: u64 = 0;
        while j < pages
            invariant
                mapping.wf(),
                fa.wf(),
                fa_fits(*fa),
                fa.mem@ == old(fa).mem@,
                flags_wf(flags),
                0 <= j <= pages,
                pages == usable_size / PAGE_SIZE,
                pages * PAGE_SIZE == usable_size,
                start == self.base + guard_size,
                start % PAGE_SIZE == 0,
                range_wf(self.base, self.size),
                guard_size + usable_size == self.size,
                guard_size % PAGE_SIZE == 0,
                usable_size % PAGE_SIZE == 0,
                forall|v2: u64|
                    !(start <= #[trigger] page_base(v2) < start + usable_size) ==> mapping.resolve(
                        v2,
                    ) == old(mapping).resolve(v2),
                forall|v2: u64|
                    start <= #[trigger] page_base(v2) < start + j * PAGE_SIZE ==> (
                    match mapping.resolve(v2) {
                        Some(p) => p.1 == flags,
                        None => false,
                    }),
                forall|v2: u64|
                    start + j * PAGE_SIZE <= #[trigger] page_base(v2) < start + usable_size
                        ==> mapping.resolve(v2) == old(mapping).resolve(v2),
                fa.free_list@.len() >= old(fa).free_list@.len() - 4 * j,
                cond == ((forall|v2: u64|
                    self.base + guard_size <= #[trigger] page_base(v2) < self.base + self.size
                        ==> old(mapping).resolve(v2) is None) && old(fa).free_list@.len() >= 4 * (
                usable_size as int / PAGE_SIZE as int)),
            decreases pages - j,
        {
            proof {
                assert(j * 4096 < usable_size && (j + 1) * 4096 <= usable_size)
                    by (nonlinear_arith)
                    requires
                        j < pages,
                        pages * 4096 == usable_size,
                ;
            }
            let p = start + j * PAGE_SIZE;
            proof {
                lemma_page_base_self(p);
            }
            let ghost before = *mapping;
            let ghost fa_before = *fa;
            let step = mapping.map_page(fa, p, flags, crate::table::CacheType::WriteBack);
            proof {
                if cond {
                    // The page was still unmapped and at least four
                    // frames remained, so this step cannot have failed.
                    assert(before.resolve(p) == old(mapping).resolve(p));
                    assert(old(mapping).resolve(p) is None);
                    assert(4 * j + 4 <= 4 * (usable_size as int / PAGE_SIZE as int))
                        by (nonlinear_arith)
                        requires
                            j < pages,
                            pages == usable_size as int / PAGE_SIZE as int,
                    ;
                    assert(fa_before.free_list@.len() >= 4);
                    assert(step is Ok);
                }
            }
            match step {
                Ok(()) => {},
                Err(MemoryError::AlreadyMapped) => {
                    return Err(MemoryError::AlreadyMapped);
                },
                Err(_) => {
                    return Err(MemoryError::OutOfMemory);
                },
            }
            proof {
                let fl = flags;
                assert(fl | 0u64 == fl) by (bit_vector);
                assert forall|v2: u64|
                    start <= #[trigger] page_base(v2) < start + (j + 1) * PAGE_SIZE implies (
                match mapping.resolve(v2) {
                    Some(pp) => pp.1 == flags,
                    None => false,
                }) by {
                    lemma_same_page_base(v2, p);
                    if !same_page(v2, p) {
                        assert(page_base(v2) % 4096 == 0) by (bit_vector)
                            requires
                                page_base(v2) == v2 & 0xFFFF_FFFF_F000u64,
                        ;
                        assert(page_base(v2) < p || page_base(v2) >= p + 4096);
                    }
                }
                assert forall|v2: u64|
                    start + (j + 1) * PAGE_SIZE <= #[trigger] page_base(v2) < start
                        + usable_size implies mapping.resolve(v2) == old(mapping).resolve(v2) by {
                    lemma_same_page_base(v2, p);
                }
                assert forall|v2: u64|
                    !(start <= #[trigger] page_base(v2) < start + usable_size) implies
                    mapping.resolve(v2) == old(mapping).resolve(v2) by {
                    lemma_same_page_base(v2, p);
                }
            }
            j += 1;
        }
        Ok(MappedVma { base: self.base, size: self.size, guard_size, flags })
    }

    /// Turns the reservation into a lazily mapped range: the extent
    /// starts at `initial_size` with zeroed content, nothing is backed
    /// yet, and the final `guard_size` bytes can never be reached by
    /// growth.
    pub fn map_lazily(self, initial_size: u64, guard_size: u64, flags: u64) -> (r: LazilyMappedVma)
        requires
            range_wf(self.base, self.size),
            initial_size % PAGE_SIZE == 0,
            guard_size % PAGE_SIZE == 0,
            guard_size < self.size,
            initial_size <= self.size - guard_size,
        ensures
            r.wf(),
            r.base == self.base,
            r.size == self.size,
            r.max_extent == self.size - guard_size,
            r.extent == initial_size,
            r.flags == flags,
            r.contents@ == Seq::new(initial_size as nat, |i: int| 0u8),
    {
        let mut contents: Vec<u8> = Vec::new();
        let mut k: u64 = 0;
        while k < initial_size
            invariant
                k <= initial_size,
                contents@.len() == k,
                forall|i: int| 0 <= i < k ==> #[trigger] contents@[i] == 0,
            decreases initial_size - k,
        {
            contents.push(0);
            k += 1;
        }
        proof {
            assert(contents@ =~= Seq::new(initial_size as nat, |i: int| 0u8));
        }
        LazilyMappedVma {
            base: self.base,
            size: self.size,
            max_extent: self.size - guard_size,
            extent: initial_size,
            flags,
            contents,
        }
    }
}

impl VmaAllocator {
    /// Destroys a mapped VMA: every backed page is unmapped, the freed
    /// frames (pages and emptied tables) are returned to the caller for
    /// the frame allocator, and the reservation is released.
    pub fn destroy_vma(
        &mut self,
        mapping: &mut ActiveMapping,
        vma: &MappedVma,
    ) -> (r: Vec<PhysAddr>)
        requires
            old(self).wf(),
            old(mapping).wf(),
            vma.wf(),
            old(self).allocated@.contains((vma.base, vma.size)),
        ensures
            final(self).wf(),
            final(mapping).wf(),
            final(self).allocated@ == old(self).allocated@.remove((vma.base, vma.size)),
            forall|v2: u64|
                vma.base <= #[trigger] page_base(v2) < vma.base + vma.size ==> final(mapping).resolve(v2) is None,
            forall|v2: u64|
                !(vma.base <= #[trigger] page_base(v2) < vma.base + vma.size) ==> final(mapping).resolve(v2) == old(mapping).resolve(v2),
            forall|v2: u64|
                vma.base <= #[trigger] page_base(v2) < vma.base + vma.size && old(mapping).resolve(v2) is Some ==> r@.contains(
                    PhysAddr(old(mapping).resolve(v2)->Some_0.0),
                ),
    {
        let mut released: Vec<PhysAddr> = Vec::new();
        unmap_range(mapping, vma.base, vma.size, &mut released);
        self.release_vma(vma.base, vma.size);
        released
    }

    /// Destroys a lazily mapped VMA, as `destroy_vma` does for a mapped
    /// one.
    pub fn destroy_lazy_vma(
        &mut self,
        mapping: &mut ActiveMapping,
        vma: &LazilyMappedVma,
    ) -> (r: Vec<PhysAddr>)
        requires
            old(self).wf(),
            old(mapping).wf(),
            vma.wf(),
            old(self).allocated@.contains((vma.base, vma.size)),
        ensures
            final(self).wf(),
            final(mapping).wf(),
            final(self).allocated@ == old(self).allocated@.remove((vma.base, vma.size)),
            forall|v2: u64|
                vma.base <= #[trigger] page_base(v2) < vma.base + vma.size ==> final(mapping).resolve(v2) is None,
            forall|v2: u64|
                !(vma.base <= #[trigger] page_base(v2) < vma.base + vma.size) ==> final(mapping).resolve(v2) == old(mapping).resolve(v2),
            forall|v2: u64|
                vma.base <= #[trigger] page_base(v2) < vma.base + vma.size && old(mapping).resolve(v2) is Some ==> r@.contains(
                    PhysAddr(old(mapping).resolve(v2)->Some_0.0),
                ),
    {
        let mut released: Vec<PhysAddr> = Vec::new();
        unmap_range(mapping, vma.base, vma.size, &mut released);
        self.release_vma(vma.base, vma.size);
        released
    }
}

/// Unmaps every page of `[base, base + size)`, appending the frames that
/// come free (page frames and emptied tables) to `released`.
fn unmap_range(mapping: &mut ActiveMapping, base: u64, size: u64, released: &mut Vec<PhysAddr>)
    requires
        old(mapping).wf(),
        range_wf(base, size),
    ensures
        final(mapping).wf(),
        forall|v2: u64|
            base <= #[trigger] page_base(v2) < base + size ==> final(mapping).resolve(v2) is None,
        forall|v2: u64|
            !(base <= #[trigger] page_base(v2) < base + size) ==> final(mapping).resolve(v2) == old(mapping).resolve(v2),
        old(released)@.is_prefix_of(final(released)@),
        // The frame of every page that was mapped in the range is among
        // the released frames (together with the emptied tables).
        forall|v2: u64|
            base <= #[trigger] page_base(v2) < base + size && old(mapping).resolve(v2) is Some
                ==> final(released)@.contains(PhysAddr(old(mapping).resolve(v2)->Some_0.0)),
{
    broadcast use crate::paging::group_idx_bounds;

    let pages = size / PAGE_SIZE;
    let mut j: u64 = 0;
    while j < pages
        invariant
            mapping.wf(),
            0 <= j <= pages,
            pages == size / PAGE_SIZE,
            pages * PAGE_SIZE == size,
            range_wf(base, size),
            forall|v2: u64|
                base <= #[trigger] page_base(v2) < base + j * PAGE_SIZE ==> mapping.resolve(
                    v2,
                ) is None,
            forall|v2: u64|
                !(base <= #[trigger] page_base(v2) < base + j * PAGE_SIZE) ==> mapping.resolve(v2)
                    == old(mapping).resolve(v2),
            old(released)@.is_prefix_of(released@),
            forall|v2: u64|
                base <= #[trigger] page_base(v2) < base + j * PAGE_SIZE && old(mapping).resolve(v2) is Some ==> released@.contains(
                    PhysAddr(old(mapping).resolve(v2)->Some_0.0),
                ),
        decreases pages - j,
    {
        proof {
            assert(j * 4096 < size && (j + 1) * 4096 <= size) by (nonlinear_arith)
                requires
                    j < pages,
                    pages * 4096 == size,
            ;
        }
        let p = base + j * PAGE_SIZE;
        proof {
            lemma_page_base_self(p);
        }
        let ghost rel_before = released@;
        let r = mapping.unmap(p, released);
        if let Some(frame) = r {
            released.push(frame);
        }
        proof {
            // The vector only grows, so earlier frames stay in it.
            assert(rel_before.is_prefix_of(released@));
            assert forall|x: PhysAddr| rel_before.contains(x) implies released@.contains(x) by {
                let k = choose|k: int| 0 <= k < rel_before.len() && rel_before[k] == x;
                assert(released@[k] == x);
            }
            if old(mapping).resolve(p) is Some {
                assert(released@[released@.len() - 1] == PhysAddr(
                    old(mapping).resolve(p)->Some_0.0,
                ));
            }
            assert forall|v2: u64|
                base <= #[trigger] page_base(v2) < base + (j + 1) * PAGE_SIZE && old(mapping).resolve(v2) is Some implies released@.contains(
                PhysAddr(old(mapping).resolve(v2)->Some_0.0),
            ) by {
                lemma_same_page_base(v2, p);
                if same_page(v2, p) {
                    assert(old(mapping).resolve(v2) == old(mapping).resolve(p));
                } else {
                    assert(page_base(v2) % 4096 == 0) by (bit_vector)
                        requires
                            page_base(v2) == v2 & 0xFFFF_FFFF_F000u64,
                    ;
                    assert(page_base(v2) < p || page_base(v2) >= p + 4096);
                }
            }
        }
        proof {
            assert forall|v2: u64|
                base <= #[trigger] page_base(v2) < base + (j + 1) * PAGE_SIZE implies
                mapping.resolve(v2) is None by {
                lemma_same_page_base(v2, p);
                if !same_page(v2, p) {
                    assert(page_base(v2) % 4096 == 0) by (bit_vector)
                        requires
                            page_base(v2) == v2 & 0xFFFF_FFFF_F000u64,
                    ;
                    assert(page_base(v2) < p || page_base(v2) >= p + 4096);
                }
            }
            assert forall|v2: u64|
                !(base <= #[trigger] page_base(v2) < base + (j + 1) * PAGE_SIZE) implies
                mapping.resolve(v2) == old(mapping).resolve(v2) by {
                lemma_same_page_base(v2, p);
                assert(page_base(v2) % 4096 == 0) by (bit_vector)
                    requires
                        page_base(v2) == v2 & 0xFFFF_FFFF_F000u64,
                ;
            }
        }
        j += 1;
    }
}

} // verus!
