//! Tests of the VMA layer and of threads: reservations, lazy growth,
//! page faults, stacks and status transitions.

use wasmkernel::addr::PhysAddr;
use wasmkernel::frame::{FrameAllocator, MemRegion};
use wasmkernel::paging::ActiveMapping;
use wasmkernel::table::{NX, PRESENT, WRITABLE};
use wasmkernel::thread::{Thread, ThreadId, ThreadStatus, SCHEME_ID_SENTINEL, STACK_SIZE};
use wasmkernel::vma::VmaAllocator;
use wasmkernel::wasm::vmctx::WASM_PAGE_SIZE;

fn machine(frames: usize) -> (VmaAllocator, ActiveMapping, FrameAllocator) {
    let mut fa = FrameAllocator::empty();
    let regions = vec![MemRegion {
        start: 0x1000,
        end: (frames as u64) * 0x1000,
    }];
    fa.init(&regions, PhysAddr::new(0x1000), frames);
    let vma_alloc = VmaAllocator::new(0x1_0000, 0x7000_0000_0000);
    let mapping = ActiveMapping::new();
    (vma_alloc, mapping, fa)
}

#[test]
fn thread_id_counter() {
    let mut counter: u64 = 5;
    let a = ThreadId::new(&mut counter);
    let b = ThreadId::new(&mut counter);
    assert_eq!(a.0, 5);
    assert_eq!(b.0, 6);
    assert_eq!(counter, 7);
    assert_eq!(ThreadId::zero().0, 0);
}

#[test]
fn vma_disjointness() {
    // Two live reservations of the same domain never overlap.
    let (mut vma_alloc, _, _) = machine(8);
    let a = vma_alloc.create_vma(0x4000).unwrap();
    let b = vma_alloc.create_vma(0x2000).unwrap();
    assert!(a.base + a.size <= b.base || b.base + b.size <= a.base);
    // First fit: the second reservation starts where the first ended.
    assert_eq!(b.base, a.base + a.size);
}

#[test]
fn lazy_extent_monotonic() {
    // expand(k) strictly increases the extent by k bytes or fails.
    let (mut vma_alloc, _, _) = machine(8);
    let vma = vma_alloc.create_vma(0x2_0000 + 0x1000).unwrap();
    let mut lazy = vma.map_lazily(0x1000, 0x1000, PRESENT | WRITABLE | NX);
    assert_eq!(lazy.extent, 0x1000);
    assert_eq!(lazy.expand(0x1000).unwrap(), 0x1000);
    assert_eq!(lazy.extent, 0x2000);
    // Growing into the guard fails and changes nothing.
    assert!(lazy.expand(0x2_0000).is_err());
    assert_eq!(lazy.extent, 0x2000);
}

#[test]
fn page_fault_inside_extent_needs_a_frame() {
    // A fault inside the extent succeeds exactly when the frame
    // allocator has frames; outside the extent it is never handled.
    let (mut vma_alloc, mut mapping, mut fa) = machine(64);
    let vma = vma_alloc.create_vma(0x1_0000 + 0x1000).unwrap();
    let mut lazy = vma.map_lazily(0x1_0000, 0x1000, PRESENT | WRITABLE | NX);
    let inside = lazy.base + 0x2000;
    let outside = lazy.base + 0x1_0000;
    assert!(!lazy.try_handle_page_fault(&mut mapping, &mut fa, outside));
    assert!(lazy.try_handle_page_fault(&mut mapping, &mut fa, inside));
    let (_, flags) = mapping.translate(inside).unwrap();
    assert_eq!(flags, PRESENT | WRITABLE | NX);
    // A drained allocator cannot back a fault.
    let (mut vma_alloc2, mut mapping2, mut fa2) = machine(3);
    let vma2 = vma_alloc2.create_vma(0x1_0000 + 0x1000).unwrap();
    let mut lazy2 = vma2.map_lazily(0x1_0000, 0x1000, PRESENT | WRITABLE | NX);
    while fa2.allocate().is_some() {}
    assert!(!lazy2.try_handle_page_fault(&mut mapping2, &mut fa2, lazy2.base));
}

#[test]
fn thread_creation_and_status() {
    let (mut vma_alloc, mut mapping, mut fa) = machine(256);
    let mut counter: u64 = 0;
    let mut t = Thread::create(&mut vma_alloc, &mut mapping, &mut fa, &mut counter, 0x1234, 7)
        .unwrap();
    assert_eq!(t.id().0, 0);
    assert_eq!(t.status(), ThreadStatus::Runnable);
    assert_eq!(t.blocked_on(), SCHEME_ID_SENTINEL);
    // The trampoline pushed two words below the top of the stack.
    assert_eq!(
        t.stack.get_current_location(),
        t.stack.vma.base + t.stack.vma.size - 16
    );
    assert_eq!(t.stack.vma.size, STACK_SIZE + 2 * 0x1000);
    t.set_status(ThreadStatus::Blocked);
    assert_eq!(t.status(), ThreadStatus::Blocked);
    t.set_blocked_on(3);
    assert_eq!(t.blocked_on(), 3);
    t.set_status(ThreadStatus::Exit(9));
    assert_eq!(t.status(), ThreadStatus::Exit(9));
}

#[test]
fn heap_grow_in_wasm_pages() {
    let (mut vma_alloc, mut mapping, mut fa) = machine(256);
    let mut counter: u64 = 0;
    let vma = vma_alloc
        .create_vma(4 * WASM_PAGE_SIZE + 0x1_0000)
        .unwrap();
    let heap = vma.map_lazily(WASM_PAGE_SIZE, 0x1_0000, PRESENT | WRITABLE | NX);
    let mut t = Thread::create(&mut vma_alloc, &mut mapping, &mut fa, &mut counter, 0, 0)
        .unwrap();
    t.heap = heap;
    // Growing by three pages returns the old size (one page) and the
    // extent becomes four pages.
    assert_eq!(t.heap_grow(3), 1);
    assert_eq!(t.heap_size(), 4 * WASM_PAGE_SIZE);
    // Growing past the reservation fails with the sentinel.
    assert_eq!(t.heap_grow(1), u32::MAX);
    assert_eq!(t.heap_size(), 4 * WASM_PAGE_SIZE);
}

#[test]
fn destroy_vma_releases_and_unmaps() {
    let (mut vma_alloc, mut mapping, mut fa) = machine(64);
    let vma = vma_alloc.create_vma(0x3000).unwrap();
    let mapped = vma
        .map(&mut mapping, &mut fa, 0x1000, 0x2000, PRESENT | WRITABLE | NX)
        .unwrap();
    let base = mapped.base;
    assert!(mapping.translate(base + 0x1000).is_some());
    let released = vma_alloc.destroy_vma(&mut mapping, &mapped);
    assert!(mapping.translate(base + 0x1000).is_none());
    // The two page frames came back, with the page tables that emptied.
    assert!(released.len() >= 2);
    // The range can be reserved again.
    let again = vma_alloc.create_vma(0x3000).unwrap();
    let _ = again;
}
