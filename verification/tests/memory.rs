//! Tests of the frame allocator, the paging manager and the buddy tree.

use wasmkernel::addr::{align_down_u64, align_up_u64, PhysAddr};
use wasmkernel::buddy::Tree;
use wasmkernel::cpu::CpuData;
use wasmkernel::frame::{FrameAllocator, MemRegion};
use wasmkernel::paging::ActiveMapping;
use wasmkernel::table::{CacheType, NX, PRESENT, WRITABLE};
use wasmkernel::wait_queue::WaitQueue;

fn small_allocator(frames: usize) -> FrameAllocator {
    let mut fa = FrameAllocator::empty();
    let regions = vec![MemRegion {
        start: 0x1000,
        end: (frames as u64) * 0x1000,
    }];
    fa.init(&regions, PhysAddr::new(0x1000), frames);
    fa
}

#[test]
fn align_helpers() {
    assert_eq!(align_up_u64(0), 0);
    assert_eq!(align_up_u64(1), 0x1000);
    assert_eq!(align_up_u64(0x1000), 0x1000);
    assert_eq!(align_up_u64(0x1001), 0x2000);
    assert_eq!(align_down_u64(0x1FFF), 0x1000);
    assert_eq!(align_down_u64(0x2000), 0x2000);
}

#[test]
fn cpu_data_reference() {
    let mut c = CpuData::new();
    assert_eq!(c.reference, 0);
    c.prepare_to_set(0xFFFF_8000_0000_1000);
    assert_eq!(c.reference, 0xFFFF_8000_0000_1000);
}

#[test]
fn wait_queue_order() {
    let mut q: WaitQueue<u32> = WaitQueue::new();
    assert!(q.pop_front().is_none());
    q.push_back(1);
    q.push_back(2);
    q.push_back(3);
    assert_eq!(q.pop_front(), Some(1));
    assert_eq!(q.pop_front(), Some(2));
    assert_eq!(q.pop_front(), Some(3));
    assert!(q.pop_front().is_none());
}

#[test]
fn frame_allocator_initial_stack() {
    // Frames 1, 2 and 3 of a four-frame machine are usable; the free
    // stack hands them out in address order.
    let mut fa = small_allocator(4);
    assert_eq!(fa.allocate().unwrap().0, 0x1000);
    assert_eq!(fa.allocate().unwrap().0, 0x2000);
    assert_eq!(fa.allocate().unwrap().0, 0x3000);
    assert!(fa.allocate().is_none());
}

#[test]
fn frame_round_trip() {
    // Allocating N frames and returning them, in another order, leaves
    // the same frames allocatable: the free multiset is restored.
    let mut fa = small_allocator(4);
    let a = fa.allocate().unwrap();
    let b = fa.allocate().unwrap();
    let c = fa.allocate().unwrap();
    fa.free(b);
    fa.free(c);
    fa.free(a);
    let mut again = vec![
        fa.allocate().unwrap().0,
        fa.allocate().unwrap().0,
        fa.allocate().unwrap().0,
    ];
    assert!(fa.allocate().is_none());
    again.sort();
    let mut expected = vec![a.0, b.0, c.0];
    expected.sort();
    assert_eq!(again, expected);
}

#[test]
fn consume_and_move_top_pops() {
    let mut fa = small_allocator(3);
    assert_eq!(fa.consume_and_move_top().unwrap().0, 0x1000);
    assert_eq!(fa.consume_and_move_top().unwrap().0, 0x2000);
    assert!(fa.consume_and_move_top().is_err());
}

#[test]
fn mapping_algebra() {
    // map; read_flags == flags. map; unmap; resolve == unmapped.
    let mut fa = small_allocator(64);
    let mut mapping = ActiveMapping::new();
    let v = 0x40_0000u64;
    let flags = PRESENT | WRITABLE;
    mapping
        .map_4k(&mut fa, v, 0x5000, flags, CacheType::WriteBack)
        .unwrap();
    let (frame, got_flags) = mapping.translate(v).unwrap();
    assert_eq!(frame, 0x5000);
    assert_eq!(got_flags, flags);
    // A second map of the same page reports AlreadyMapped.
    assert!(mapping
        .map_4k(&mut fa, v, 0x6000, flags, CacheType::WriteBack)
        .is_err());
    let mut released = Vec::new();
    let unmapped = mapping.unmap(v, &mut released);
    assert_eq!(unmapped.unwrap().0, 0x5000);
    assert!(mapping.translate(v).is_none());
}

#[test]
fn change_flags_keeps_frames() {
    // After change_flags_range, every page reports the new flags and
    // its frame number is unchanged.
    let mut fa = small_allocator(64);
    let mut mapping = ActiveMapping::new();
    let base = 0x80_0000u64;
    mapping
        .map_4k(&mut fa, base, 0x7000, PRESENT | WRITABLE | NX, CacheType::WriteBack)
        .unwrap();
    mapping
        .map_4k(&mut fa, base + 0x1000, 0x8000, PRESENT | WRITABLE | NX, CacheType::WriteBack)
        .unwrap();
    mapping.change_flags_range(base, 0x2000, PRESENT).unwrap();
    assert_eq!(mapping.translate(base).unwrap(), (0x7000, PRESENT));
    assert_eq!(mapping.translate(base + 0x1000).unwrap(), (0x8000, PRESENT));
    // A range with an unmapped page is refused and nothing changes.
    assert!(mapping.change_flags_range(base, 0x3000, PRESENT).is_err());
    assert_eq!(mapping.translate(base).unwrap(), (0x7000, PRESENT));
}

#[test]
fn used_count_exactness() {
    // The level-4 used count tracks present entries through map and
    // unmap; an emptied subtree is detached and the count drops back.
    let mut fa = small_allocator(64);
    let mut mapping = ActiveMapping::new();
    assert_eq!(mapping.table.used_count(), 0);
    mapping
        .map_4k(&mut fa, 0x40_0000, 0x5000, PRESENT | WRITABLE, CacheType::WriteBack)
        .unwrap();
    assert_eq!(mapping.table.used_count(), 1);
    mapping
        .map_4k(&mut fa, 0x41_0000, 0x6000, PRESENT | WRITABLE, CacheType::WriteBack)
        .unwrap();
    // Same level-4 slot: the root count stays at one.
    assert_eq!(mapping.table.used_count(), 1);
    let mut released = Vec::new();
    mapping.unmap(0x40_0000, &mut released);
    assert_eq!(mapping.table.used_count(), 1);
    mapping.unmap(0x41_0000, &mut released);
    // Every table on the path emptied and was detached.
    assert_eq!(mapping.table.used_count(), 0);
    // Three levels of tables came back (level 3, 2 and 1).
    assert_eq!(released.len(), 3);
}

#[test]
fn ensure_tables_then_map_page() {
    let mut fa = small_allocator(64);
    let mut mapping = ActiveMapping::new();
    let v = 0xA0_0000u64;
    mapping.ensure_4k_tables_exist(&mut fa, v).unwrap();
    assert!(mapping.translate(v).is_none());
    mapping
        .map_page(&mut fa, v, PRESENT | WRITABLE, CacheType::WriteBack)
        .unwrap();
    let (frame, flags) = mapping.translate(v).unwrap();
    assert!(frame != 0);
    assert_eq!(flags, PRESENT | WRITABLE);
}

#[test]
fn buddy_tree_allocations() {
    let mut tree = Tree::new();
    tree.init();
    assert_eq!(tree.allocate(3), Some(0));
    assert_eq!(tree.allocate(2), Some(8));
    assert_eq!(tree.allocate(3), Some(16));
    assert_eq!(tree.allocate(4), Some(32));
    assert_eq!(tree.allocate(2), Some(12));
    assert_eq!(tree.allocate(3), Some(24));
    assert_eq!(tree.allocate(6), Some(64));
    assert_eq!(tree.allocate(15), None);
}
