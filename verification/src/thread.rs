//! Threads: a mapped stack with a guard prefix, a lazily grown heap, the
//! static data of a running module (code VMA and context record), a
//! status cell and the blocked-on scheme id.
//!
//! On the machine the status and the blocked-on id are atomic cells with
//! release/acquire ordering and the thread id counter is a shared atomic;
//! the verified model carries them as plain values, and the id counter is
//! passed in by the caller that owns it.

use vstd::prelude::*;

use crate::addr::{PhysAddr, PAGE_SIZE};
use crate::frame::FrameAllocator;
use crate::paging::{fa_fits, page_base, ActiveMapping, MemoryError};
use crate::table::{flags_wf, NX, PRESENT, WRITABLE};
use crate::vma::{LazilyMappedVma, MappedVma, VmaAllocator};
use crate::wasm::vmctx::{VmContextContainer, WASM_PAGE_SIZE};

verus! {

/// Stack size in bytes.
pub const STACK_SIZE: u64 = 0x4_0000;

/// Amount of guard pages for stack underflow.
pub const AMOUNT_GUARD_PAGES: u64 = 2;

/// The sentinel meaning "not blocked on any scheme".
pub const SCHEME_ID_SENTINEL: u64 = 0xFFFF_FFFF_FFFF_FFFF;

/// The stack of a thread: a mapped VMA and the current stack pointer,
/// which grows downwards from the top of the range.
pub struct Stack {
    pub vma: MappedVma,
    pub current_location: u64,
}

#[derive(Clone, Copy, Debug, PartialEq, Eq, Structural, Hash)]
pub struct ThreadId(pub u64);

#[derive(Clone, Copy, Debug, PartialEq, Eq, Structural)]
pub enum ThreadStatus {
    Runnable,
    Blocked,
    Exit(u32),
}

/// The immutable data a WebAssembly module leaves with its thread: the
/// read-execute code region with its image, and the context record the
/// generated code reads.
pub struct StaticWasmThreadData {
    pub code: MappedVma,
    pub code_image: Vec<u8>,
    pub vmctx_container: VmContextContainer,
}

pub struct Thread {
    pub stack: Stack,
    /// The address the first context switch lands at: the word the
    /// trampoline pushed.
    pub entry: u64,
    pub id: ThreadId,
    pub heap: LazilyMappedVma,
    pub static_wasm_data: Option<StaticWasmThreadData>,
    pub status: ThreadStatus,
    /// On what scheme are we blocked? Only applicable for sync IPC; the
    /// sentinel means not blocked on a scheme.
    pub blocked_on: u64,
}

impl ThreadId {
    /// Create a new thread id from the monotone counter.
    pub fn new(counter: &mut u64) -> (r: ThreadId)
        requires
            *old(counter) < u64::MAX,
        ensures
            r.0 == *old(counter),
            *final(counter) == *old(counter) + 1,
    {
        let id = ThreadId(*counter);
        *counter = *counter + 1;
        id
    }

    /// Thread id 0, useful for markers and sentinels when id 0 is known
    /// not to be used.
    pub fn zero() -> (r: ThreadId)
        ensures
            r.0 == 0,
    {
        ThreadId(0)
    }
}

impl Stack {
    /// Creates a stack: a reservation of `size + guard_size` bytes whose
    /// pages past the guard prefix are mapped writable, no-execute.
    pub fn create(
        vma_alloc: &mut VmaAllocator,
        mapping: &mut ActiveMapping,
        fa: &mut FrameAllocator,
        size: u64,
        guard_size: u64,
    ) -> (r: Result<Stack, MemoryError>)
        requires
            old(vma_alloc).wf(),
            old(mapping).wf(),
            old(fa).wf(),
            fa_fits(*old(fa)),
            size > 0,
            size % PAGE_SIZE == 0,
            guard_size % PAGE_SIZE == 0,
            size + guard_size <= 0x1_0000_0000_0000,
        ensures
            final(vma_alloc).wf(),
            final(mapping).wf(),
            final(fa).wf(),
            match r {
                Ok(s) => s.wf() && s.vma.size == size + guard_size && s.vma.guard_size == guard_size
                    && s.current_location == s.vma.base + s.vma.size && (forall|v2: u64|
                    s.vma.base + guard_size <= #[trigger] page_base(v2) < s.vma.base + s.vma.size
                        ==> (match final(mapping).resolve(v2) {
                        Some(p) => p.1 == (PRESENT | WRITABLE | NX),
                        None => false,
                    })) && (forall|v2: u64|
                    !(s.vma.base <= #[trigger] page_base(v2) < s.vma.base + s.vma.size) ==> final(mapping).resolve(v2) == old(mapping).resolve(v2)) && (forall|r2: (u64, u64)|
                    #[trigger] old(vma_alloc).allocated@.contains(r2)
                        ==> crate::vma::ranges_disjoint((s.vma.base, s.vma.size), r2)),
                Err(e) => e == MemoryError::OutOfMemory || e == MemoryError::AlreadyMapped,
            },
            // Success is owed when the domain is coherent, a free range
            // fits, and the allocator holds frames for the pages and
            // their tables.
            crate::vma::domain_mapped_in(*old(vma_alloc), *old(mapping)) && (exists|i: int|
                0 <= i < old(vma_alloc).free@.len() && (#[trigger] old(vma_alloc).free@[i]).1
                    >= size + guard_size) && old(fa).free_list@.len() >= 4 * (size as int
                / PAGE_SIZE as int) ==> r is Ok,
    {
        let ghost hyp = crate::vma::domain_mapped_in(*old(vma_alloc), *old(mapping)) && (exists|
            i: int,
        |
            0 <= i < old(vma_alloc).free@.len() && (#[trigger] old(vma_alloc).free@[i]).1 >= size
                + guard_size) && old(fa).free_list@.len() >= 4 * (size as int / PAGE_SIZE as int);
        let flags = PRESENT | WRITABLE | NX;
        proof {
            lemma_stack_flags();
        }
        let cr = vma_alloc.create_vma(size + guard_size);
        proof {
            if hyp {
                // A fitting interval exists, so the reservation succeeds.
                assert(cr is Ok);
            }
        }
        let vma = match cr {
            Ok(v) => v,
            Err(e) => {
                return Err(e);
            },
        };
        proof {
            if hyp {
                // The fresh range was carved out of free space, disjoint
                // from every reservation, so none of its pages can be
                // mapped in a coherent domain.
                assert forall|v2: u64|
                    vma.base + guard_size <= #[trigger] page_base(v2) < vma.base
                        + vma.size implies old(mapping).resolve(v2) is None by {
                    if old(mapping).resolve(v2) is Some {
                        let r2 = choose|r2: (u64, u64)|
                            #[trigger] old(vma_alloc).allocated@.contains(r2) && r2.0 <= page_base(
                                v2,
                            ) < r2.0 + r2.1;
                        assert(crate::vma::ranges_disjoint((vma.base, vma.size), r2));
                    }
                }
            }
        }
        let mr = vma.map(mapping, fa, guard_size, size, flags);
        proof {
            if hyp {
                assert(mr is Ok);
            }
        }
        let mapped = match mr {
            Ok(m) => m,
            Err(e) => {
                return Err(e);
            },
        };
        Ok(Stack::new(mapped))
    }

    /// Creates a new stack from a mapped VMA; the stack pointer starts at
    /// the top of the range.
    pub fn new(vma: MappedVma) -> (r: Stack)
        requires
            vma.wf(),
        ensures
            r.vma == vma,
            r.current_location == vma.base + vma.size,
            r.wf(),
    {
        let current_location = vma.address() + vma.size();
        Stack { vma, current_location }
    }

    pub open spec fn wf(self) -> bool {
        self.vma.wf() && self.vma.base + self.vma.guard_size <= self.current_location
            <= self.vma.base + self.vma.size
    }

    /// Gets the current location.
    pub fn get_current_location(&self) -> (r: u64)
        ensures
            r == self.current_location,
    {
        self.current_location
    }

    /// Sets the current location.
    pub fn set_current_location(&mut self, location: u64)
        requires
            old(self).vma.base + old(self).vma.guard_size <= location <= old(self).vma.base + old(self).vma.size,
        ensures
            final(self).current_location == location,
            final(self).vma == old(self).vma,
            old(self).vma.wf() ==> final(self).wf(),
    {
        self.current_location = location;
    }

    /// Pushes one machine word: the stack pointer moves down by eight
    /// bytes. The word itself lives in the mapped frames, which the model
    /// does not carry.
    pub fn push(&mut self, value: u64)
        requires
            old(self).wf(),
            old(self).current_location >= old(self).vma.base + old(self).vma.guard_size + 8,
        ensures
            final(self).wf(),
            final(self).current_location == old(self).current_location - 8,
            final(self).vma == old(self).vma,
    {
        let current = self.get_current_location() - 8;
        self.set_current_location(current);
    }
}

/// The flags a stack mapping uses are well formed.
proof fn lemma_stack_flags()
    ensures
        flags_wf(PRESENT | WRITABLE | NX),
{
    assert((1u64 | 2u64 | 0x8000_0000_0000_0000u64) & 0x8000_0000_0000_009Bu64 == (1u64 | 2u64
        | 0x8000_0000_0000_0000u64) && (1u64 | 2u64 | 0x8000_0000_0000_0000u64) & 1u64 == 1u64)
        by (bit_vector);
}

impl Thread {
    pub open spec fn wf(self) -> bool {
        self.stack.wf() && (self.heap.extent > 0 ==> self.heap.wf())
    }

    /// Creates a thread whose first context switch lands at
    /// `entry(first_arg)`: the stack is reserved and mapped inside the
    /// domain, and the trampoline words are pushed onto it.
    pub fn create(
        vma_alloc: &mut VmaAllocator,
        mapping: &mut ActiveMapping,
        fa: &mut FrameAllocator,
        id_counter: &mut u64,
        entry: u64,
        first_arg: u64,
    ) -> (r: Result<Thread, MemoryError>)
        requires
            old(vma_alloc).wf(),
            old(mapping).wf(),
            old(fa).wf(),
            fa_fits(*old(fa)),
            *old(id_counter) < u64::MAX,
        ensures
            final(vma_alloc).wf(),
            final(mapping).wf(),
            final(fa).wf(),
            match r {
                Ok(t) => t.wf() && t.id.0 == *old(id_counter) && t.status == ThreadStatus::Runnable
                    && t.blocked_on == SCHEME_ID_SENTINEL && t.heap.extent == 0
                    && t.static_wasm_data is None && t.entry == entry && t.stack.vma.size
                    == STACK_SIZE + AMOUNT_GUARD_PAGES * PAGE_SIZE && t.stack.vma.guard_size
                    == AMOUNT_GUARD_PAGES * PAGE_SIZE && t.stack.current_location
                    == t.stack.vma.base + t.stack.vma.size - 16 && (forall|v2: u64|
                    !(t.stack.vma.base <= #[trigger] page_base(v2) < t.stack.vma.base
                        + t.stack.vma.size) ==> final(mapping).resolve(v2) == old(mapping).resolve(
                        v2,
                    )) && (forall|r2: (u64, u64)|
                    #[trigger] old(vma_alloc).allocated@.contains(r2)
                        ==> crate::vma::ranges_disjoint(
                        (t.stack.vma.base, t.stack.vma.size),
                        r2,
                    )),
                Err(e) => e == MemoryError::OutOfMemory || e == MemoryError::AlreadyMapped,
            },
            // Success is owed under the same conditions as the stack's.
            crate::vma::domain_mapped_in(*old(vma_alloc), *old(mapping)) && (exists|i: int|
                0 <= i < old(vma_alloc).free@.len() && (#[trigger] old(vma_alloc).free@[i]).1
                    >= STACK_SIZE + AMOUNT_GUARD_PAGES * PAGE_SIZE) && old(fa).free_list@.len()
                >= 4 * (STACK_SIZE as int / PAGE_SIZE as int) ==> r is Ok,
    {
        let ghost hyp = crate::vma::domain_mapped_in(*old(vma_alloc), *old(mapping)) && (exists|
            i: int,
        |
            0 <= i < old(vma_alloc).free@.len() && (#[trigger] old(vma_alloc).free@[i]).1
                >= STACK_SIZE + AMOUNT_GUARD_PAGES * PAGE_SIZE) && old(fa).free_list@.len() >= 4
            * (STACK_SIZE as int / PAGE_SIZE as int);
        let stack_guard_size: u64 = AMOUNT_GUARD_PAGES * PAGE_SIZE;
        let sr = Stack::create(vma_alloc, mapping, fa, STACK_SIZE, stack_guard_size);
        proof {
            if hyp {
                assert(sr is Ok);
            }
        }
        let mut stack = match sr {
            Ok(s) => s,
            Err(e) => {
                return Err(e);
            },
        };
        // Trampoline: the first context switch pops the entry point and
        // its first argument.
        stack.push(entry);
        stack.push(first_arg);
        let mut thread = Thread::new(stack, id_counter);
        thread.entry = entry;
        Ok(thread)
    }

    /// Creates a new thread from the given stack; it starts runnable,
    /// without a heap, and not blocked on any scheme.
    pub fn new(stack: Stack, id_counter: &mut u64) -> (r: Thread)
        requires
            stack.wf(),
            *old(id_counter) < u64::MAX,
        ensures
            r.wf(),
            r.stack == stack,
            r.id.0 == *old(id_counter),
            *final(id_counter) == *old(id_counter) + 1,
            r.status == ThreadStatus::Runnable,
            r.blocked_on == SCHEME_ID_SENTINEL,
            r.heap.extent == 0,
            r.entry == 0,
            r.static_wasm_data is None,
    {
        Thread {
            stack,
            entry: 0,
            heap: LazilyMappedVma::dummy(),
            id: ThreadId::new(id_counter),
            static_wasm_data: None,
            status: ThreadStatus::Runnable,
            blocked_on: SCHEME_ID_SENTINEL,
        }
    }

    /// Sets the thread's WebAssembly data: its heap, code region, code
    /// image and context record.
    pub fn set_wasm_data(
        &mut self,
        code_vma: MappedVma,
        code_image: Vec<u8>,
        heap_vma: LazilyMappedVma,
        vmctx_container: VmContextContainer,
    )
        requires
            heap_vma.wf(),
            old(self).stack.wf(),
        ensures
            final(self).wf(),
            final(self).heap == heap_vma,
            final(self).static_wasm_data matches Some(d) && d.code == code_vma && d.code_image@
                == code_image@ && d.vmctx_container == vmctx_container,
            final(self).stack == old(self).stack,
            final(self).entry == old(self).entry,
            final(self).id == old(self).id,
            final(self).status == old(self).status,
            final(self).blocked_on == old(self).blocked_on,
    {
        self.heap = heap_vma;
        self.static_wasm_data = Some(StaticWasmThreadData { code: code_vma, code_image, vmctx_container });
    }

    /// Gets the thread id.
    pub fn id(&self) -> (r: ThreadId)
        ensures
            r == self.id,
    {
        self.id
    }

    /// Gets the current allocated heap size in bytes.
    pub fn heap_size(&self) -> (r: u64)
        ensures
            r == self.heap.extent,
    {
        self.heap.size()
    }

    /// Grows the heap by `wasm_pages` WebAssembly pages, returning the
    /// heap size before the growth in WebAssembly pages, or `u32::MAX`
    /// when the growth would exceed the reservation.
    pub fn heap_grow(&mut self, wasm_pages: u32) -> (r: u32)
        requires
            old(self).heap.wf(),
            old(self).heap.max_extent <= 0x1_0000_0000,
        ensures
            final(self).heap.wf(),
            final(self).stack == old(self).stack,
            final(self).status == old(self).status,
            if old(self).heap.extent + wasm_pages * WASM_PAGE_SIZE <= old(self).heap.max_extent {
                r == old(self).heap.extent / WASM_PAGE_SIZE && final(self).heap.extent == old(self).heap.extent + wasm_pages * WASM_PAGE_SIZE
            } else {
                r == u32::MAX && final(self).heap == old(self).heap
            },
    {
        proof {
            assert(wasm_pages * 0x1_0000u64 % 4096 == 0) by (bit_vector);
        }
        let delta = (wasm_pages as u64) * WASM_PAGE_SIZE;
        proof {
            assert((wasm_pages as u64) * 0x1_0000u64 == wasm_pages * WASM_PAGE_SIZE);
        }
        match self.heap.expand(delta) {
            Ok(before) => (before / WASM_PAGE_SIZE) as u32,
            Err(_) => u32::MAX,
        }
    }

    /// Handle a page fault for this thread. Returns true exactly when the
    /// heap handled it by mapping a fresh frame.
    pub fn page_fault(
        &mut self,
        mapping: &mut ActiveMapping,
        fa: &mut FrameAllocator,
        fault_addr: u64,
    ) -> (r: bool)
        requires
            old(self).heap.wf(),
            old(mapping).wf(),
            old(fa).wf(),
            fa_fits(*old(fa)),
            flags_wf(old(self).heap.flags),
        ensures
            final(self).heap.wf(),
            final(self).heap == old(self).heap,
            final(self).status == old(self).status,
            final(mapping).wf(),
            final(fa).wf(),
            r ==> old(self).heap.base <= fault_addr < old(self).heap.base + old(self).heap.extent,
            !r ==> fault_addr < old(self).heap.base || fault_addr >= old(self).heap.base + old(self).heap.extent || old(mapping).resolve(fault_addr) is Some || final(fa).free_list@.len() == 0,
            // With the page tables already present, one frame suffices.
            old(self).heap.base <= fault_addr < old(self).heap.base + old(self).heap.extent && !(
            old(mapping).resolve(fault_addr) is Some) && crate::paging::l1_path_exists(
                *old(mapping),
                fault_addr,
            ) ==> (r <==> old(fa).free_list@.len() >= 1),
    {
        self.heap.try_handle_page_fault(mapping, fa, fault_addr)
    }

    /// Sets the status.
    pub fn set_status(&mut self, new_status: ThreadStatus)
        ensures
            final(self).status == new_status,
            final(self).stack == old(self).stack,
            final(self).heap == old(self).heap,
            final(self).id == old(self).id,
            final(self).blocked_on == old(self).blocked_on,
    {
        self.status = new_status;
    }

    /// Gets the status.
    pub fn status(&self) -> (r: ThreadStatus)
        ensures
            r == self.status,
    {
        self.status
    }

    /// Sets the scheme this thread is blocked on.
    pub fn set_blocked_on(&mut self, blocked_on: u64)
        ensures
            final(self).blocked_on == blocked_on,
            final(self).status == old(self).status,
    {
        self.blocked_on = blocked_on;
    }

    /// Gets the scheme this thread is blocked on.
    pub fn blocked_on(&self) -> (r: u64)
        ensures
            r == self.blocked_on,
    {
        self.blocked_on
    }

    /// Unmaps the memory this thread holds — code, stack and heap — and
    /// releases their reservations. The freed frames are returned for the
    /// frame allocator; only legal when no other context can observe the
    /// thread's pages.
    pub fn unmap_memory(
        &mut self,
        vma_alloc: &mut VmaAllocator,
        mapping: &mut ActiveMapping,
    ) -> (r: Vec<PhysAddr>)
        requires
            old(self).wf(),
            old(vma_alloc).wf(),
            old(mapping).wf(),
            old(vma_alloc).allocated@.contains(
                (old(self).stack.vma.base, old(self).stack.vma.size),
            ),
            old(self).static_wasm_data matches Some(d) ==> old(vma_alloc).allocated@.contains(
                (d.code.base, d.code.size),
            ) && d.code.wf() && (d.code.base, d.code.size) != (
                old(self).stack.vma.base,
                old(self).stack.vma.size,
            ) && (d.code.base, d.code.size) != (old(self).heap.base, old(self).heap.size),
            old(self).heap.extent > 0 ==> old(vma_alloc).allocated@.contains(
                (old(self).heap.base, old(self).heap.size),
            ) && (old(self).heap.base, old(self).heap.size) != (
                old(self).stack.vma.base,
                old(self).stack.vma.size,
            ),
        ensures
            final(vma_alloc).wf(),
            final(mapping).wf(),
            final(self).heap.extent == 0,
            final(self).stack == old(self).stack,
            // Every page the thread held resolves to unmapped afterwards.
            forall|v2: u64|
                old(self).stack.vma.base <= #[trigger] page_base(v2) < old(self).stack.vma.base
                    + old(self).stack.vma.size ==> final(mapping).resolve(v2) is None,
            old(self).static_wasm_data matches Some(d) ==> forall|v2: u64|
                d.code.base <= #[trigger] page_base(v2) < d.code.base + d.code.size ==> final(mapping).resolve(v2) is None,
            old(self).heap.extent > 0 ==> forall|v2: u64|
                old(self).heap.base <= #[trigger] page_base(v2) < old(self).heap.base + old(self).heap.size ==> final(mapping).resolve(v2) is None,
            // The three reservations are released; every other one stays.
            !final(vma_alloc).allocated@.contains(
                (old(self).stack.vma.base, old(self).stack.vma.size),
            ),
            old(self).static_wasm_data matches Some(d) ==> !final(vma_alloc).allocated@.contains(
                (d.code.base, d.code.size),
            ),
            old(self).heap.extent > 0 ==> !final(vma_alloc).allocated@.contains(
                (old(self).heap.base, old(self).heap.size),
            ),
            forall|r2: (u64, u64)|
                #[trigger] old(vma_alloc).allocated@.contains(r2) && r2 != (
                    old(self).stack.vma.base,
                    old(self).stack.vma.size,
                ) && (old(self).static_wasm_data matches Some(d) ==> r2 != (
                    d.code.base,
                    d.code.size,
                )) && (old(self).heap.extent > 0 ==> r2 != (
                    old(self).heap.base,
                    old(self).heap.size,
                )) ==> final(vma_alloc).allocated@.contains(r2),
            // The frame behind every page the thread held comes back in
            // the returned vector, with the emptied page tables.
            forall|v2: u64|
                old(self).stack.vma.base <= #[trigger] page_base(v2) < old(self).stack.vma.base
                    + old(self).stack.vma.size && old(mapping).resolve(v2) is Some ==> r@.contains(
                    PhysAddr(old(mapping).resolve(v2)->Some_0.0),
                ),
            old(self).static_wasm_data matches Some(d) ==> forall|v2: u64|
                d.code.base <= #[trigger] page_base(v2) < d.code.base + d.code.size && old(mapping).resolve(v2) is Some ==> r@.contains(
                    PhysAddr(old(mapping).resolve(v2)->Some_0.0),
                ),
            old(self).heap.extent > 0 ==> forall|v2: u64|
                old(self).heap.base <= #[trigger] page_base(v2) < old(self).heap.base + old(self).heap.size && old(mapping).resolve(v2) is Some ==> r@.contains(
                    PhysAddr(old(mapping).resolve(v2)->Some_0.0),
                ),
    {
        let ghost stack_range = (self.stack.vma.base, self.stack.vma.size);
        let ghost heap_range = (self.heap.base, self.heap.size);
        proof {
            // The three reservations are pairwise disjoint ranges, so
            // destroying one leaves the others' pages untouched.
            if self.static_wasm_data is Some {
                let d = self.static_wasm_data->Some_0;
                assert(crate::vma::ranges_disjoint((d.code.base, d.code.size), stack_range));
                if self.heap.extent > 0 {
                    assert(crate::vma::ranges_disjoint((d.code.base, d.code.size), heap_range));
                }
            }
            if self.heap.extent > 0 {
                assert(crate::vma::ranges_disjoint(stack_range, heap_range));
            }
        }
        let mut released: Vec<PhysAddr> = Vec::new();
        if let Some(data) = &self.static_wasm_data {
            let mut r2 = vma_alloc.destroy_vma(mapping, &data.code);
            released.append(&mut r2);
        }
        let ghost rel_a = released@;
        let mut r3 = vma_alloc.destroy_vma(mapping, &self.stack.vma);
        proof {
            lemma_contains_in_concat(rel_a, r3@);
        }
        released.append(&mut r3);
        let ghost rel_b = released@;
        if self.heap.size() > 0 {
            let mut r4 = vma_alloc.destroy_lazy_vma(mapping, &self.heap);
            proof {
                lemma_contains_in_concat(rel_b, r4@);
            }
            released.append(&mut r4);
        }
        self.heap = LazilyMappedVma::dummy();
        released
    }
}

/// An element of either part is an element of the concatenation.
proof fn lemma_contains_in_concat(a: Seq<PhysAddr>, b: Seq<PhysAddr>)
    ensures
        forall|x: PhysAddr| a.contains(x) ==> #[trigger] (a + b).contains(x),
        forall|x: PhysAddr| b.contains(x) ==> #[trigger] (a + b).contains(x),
{
    assert forall|x: PhysAddr| a.contains(x) implies #[trigger] (a + b).contains(x) by {
        let k = choose|k: int| 0 <= k < a.len() && a[k] == x;
        assert((a + b)[k] == x);
    }
    assert forall|x: PhysAddr| b.contains(x) implies #[trigger] (a + b).contains(x) by {
        let k = choose|k: int| 0 <= k < b.len() && b[k] == x;
        assert((a + b)[a.len() + k] == x);
    }
}

} // verus!
