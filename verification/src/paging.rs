//! The hierarchical paging manager: a 4-level page-table tree that maps,
//! unmaps and re-flags 4 KiB pages while keeping every table's used count
//! exact.
//!
//! On the machine the tables live in physical frames and are reached
//! through the recursive mapping; the model owns each next-level table
//! directly, next to the entry word that holds its frame address, and
//! states every operation against `resolve`: the partial map from a
//! virtual page to the physical frame and flags it carries.

use vstd::prelude::*;

use crate::addr::{PhysAddr, PAGE_SIZE};
use crate::frame::{FrameAllocator, MappingError, MappingResult};
use crate::table::{
    count_present, entry_addr, entry_flags, entry_huge, entry_present, flags_wf, frame_addr_wf,
    CacheType, Level1, Level2, Level3, Level4, Table, HUGE_PAGE, PRESENT, WRITABLE,
};

verus! {

/// Error during a memory operation.
#[derive(Clone, Copy, Debug, PartialEq, Eq, Structural)]
pub enum MemoryError {
    /// No physical frames remain, or no virtual range is available.
    OutOfMemory,
    /// A requested range exceeds its ceiling.
    InvalidRange,
    /// Attempt to map a 4 KiB page over an already-present leaf.
    AlreadyMapped,
}

pub open spec fn spec_idx4(v: u64) -> int {
    ((v >> 39) & 0x1FF) as int
}

pub open spec fn spec_idx3(v: u64) -> int {
    ((v >> 30) & 0x1FF) as int
}

pub open spec fn spec_idx2(v: u64) -> int {
    ((v >> 21) & 0x1FF) as int
}

pub open spec fn spec_idx1(v: u64) -> int {
    ((v >> 12) & 0x1FF) as int
}

pub broadcast proof fn lemma_idx4_bound(v: u64)
    ensures
        0 <= #[trigger] spec_idx4(v) < 512,
{
    assert((v >> 39) & 0x1FF < 512) by (bit_vector);
}

pub broadcast proof fn lemma_idx3_bound(v: u64)
    ensures
        0 <= #[trigger] spec_idx3(v) < 512,
{
    assert((v >> 30) & 0x1FF < 512) by (bit_vector);
}

pub broadcast proof fn lemma_idx2_bound(v: u64)
    ensures
        0 <= #[trigger] spec_idx2(v) < 512,
{
    assert((v >> 21) & 0x1FF < 512) by (bit_vector);
}

pub broadcast proof fn lemma_idx1_bound(v: u64)
    ensures
        0 <= #[trigger] spec_idx1(v) < 512,
{
    assert((v >> 12) & 0x1FF < 512) by (bit_vector);
}

pub broadcast group group_idx_bounds {
    lemma_idx4_bound,
    lemma_idx3_bound,
    lemma_idx2_bound,
    lemma_idx1_bound,
}

/// Two addresses fall on the same 4 KiB page (same slot at every level).
pub open spec fn same_page(a: u64, b: u64) -> bool {
    spec_idx4(a) == spec_idx4(b) && spec_idx3(a) == spec_idx3(b) && spec_idx2(a) == spec_idx2(b)
        && spec_idx1(a) == spec_idx1(b)
}

fn idx4(v: u64) -> (r: usize)
    ensures
        r == spec_idx4(v),
        r < 512,
{
    let r = ((v >> 39u64) & 0x1FF) as usize;
    proof {
        lemma_idx4_bound(v);
    }
    r
}

fn idx3(v: u64) -> (r: usize)
    ensures
        r == spec_idx3(v),
        r < 512,
{
    let r = ((v >> 30u64) & 0x1FF) as usize;
    proof {
        lemma_idx3_bound(v);
    }
    r
}

fn idx2(v: u64) -> (r: usize)
    ensures
        r == spec_idx2(v),
        r < 512,
{
    let r = ((v >> 21u64) & 0x1FF) as usize;
    proof {
        lemma_idx2_bound(v);
    }
    r
}

fn idx1(v: u64) -> (r: usize)
    ensures
        r == spec_idx1(v),
        r < 512,
{
    let r = ((v >> 12u64) & 0x1FF) as usize;
    proof {
        lemma_idx1_bound(v);
    }
    r
}

/// A level-1 table: its 512 entries map 4 KiB frames.
pub struct L1Node {
    pub table: Table<Level1>,
}

/// A level-2 table together with the level-1 tables its entries own.
pub struct L2Node {
    pub table: Table<Level2>,
    pub children: Vec<Option<Box<L1Node>>>,
}

/// A level-3 table together with the level-2 tables its entries own.
pub struct L3Node {
    pub table: Table<Level3>,
    pub children: Vec<Option<Box<L2Node>>>,
}

/// The active 4-level mapping, rooted in the level-4 table.
pub struct ActiveMapping {
    pub table: Table<Level4>,
    pub children: Vec<Option<Box<L3Node>>>,
}

pub open spec fn l1_wf(n: L1Node) -> bool {
    n.table.wf() && n.table.count_exact()
}

pub open spec fn l2_wf(n: L2Node) -> bool {
    &&& n.table.wf()
    &&& n.table.count_exact()
    &&& n.children@.len() == 512
    &&& forall|i: int|
        0 <= i < 512 ==> ((#[trigger] n.children@[i]) is Some <==> entry_present(
            n.table.entries@[i],
        ))
    &&& forall|i: int|
        0 <= i < 512 && entry_present(#[trigger] n.table.entries@[i]) ==> !entry_huge(
            n.table.entries@[i],
        )
    &&& forall|i: int|
        0 <= i < 512 && (#[trigger] n.children@[i]) is Some ==> l1_wf(*n.children@[i]->Some_0)
}

pub open spec fn l3_wf(n: L3Node) -> bool {
    &&& n.table.wf()
    &&& n.table.count_exact()
    &&& n.children@.len() == 512
    &&& forall|i: int|
        0 <= i < 512 ==> ((#[trigger] n.children@[i]) is Some <==> entry_present(
            n.table.entries@[i],
        ))
    &&& forall|i: int|
        0 <= i < 512 && entry_present(#[trigger] n.table.entries@[i]) ==> !entry_huge(
            n.table.entries@[i],
        )
    &&& forall|i: int|
        0 <= i < 512 && (#[trigger] n.children@[i]) is Some ==> l2_wf(*n.children@[i]->Some_0)
}

pub open spec fn l1_resolve(n: L1Node, v: u64) -> Option<(u64, u64)> {
    let w = n.table.entries@[spec_idx1(v)];
    if entry_present(w) {
        Some((entry_addr(w), entry_flags(w)))
    } else {
        None
    }
}

pub open spec fn l2_resolve(n: L2Node, v: u64) -> Option<(u64, u64)> {
    let w = n.table.entries@[spec_idx2(v)];
    if !entry_present(w) {
        None
    } else {
        match n.children@[spec_idx2(v)] {
            Some(c) => l1_resolve(*c, v),
            None => None,
        }
    }
}

pub open spec fn l3_resolve(n: L3Node, v: u64) -> Option<(u64, u64)> {
    let w = n.table.entries@[spec_idx3(v)];
    if !entry_present(w) {
        None
    } else {
        match n.children@[spec_idx3(v)] {
            Some(c) => l2_resolve(*c, v),
            None => None,
        }
    }
}

/// The allocator's frames all fit a page-table entry (below 2^52).
pub open spec fn fa_fits(fa: FrameAllocator) -> bool {
    fa.mem@.len() as u64 * PAGE_SIZE <= 0x0010_0000_0000_0000
}

/// A fresh vector of 512 empty level-1 slots.
fn no_l1_children() -> (r: Vec<Option<Box<L1Node>>>)
    ensures
        r@.len() == 512,
        forall|i: int| 0 <= i < 512 ==> (#[trigger] r@[i]) is None,
{
    let mut r: Vec<Option<Box<L1Node>>> = Vec::new();
    let mut i: usize = 0;
    while i < 512
        invariant
            i <= 512,
            r@.len() == i,
            forall|k: int| 0 <= k < i ==> (#[trigger] r@[k]) is None,
        decreases 512 - i,
    {
        r.push(None);
        i += 1;
    }
    r
}

/// A fresh vector of 512 empty level-2 slots.
fn no_l2_children() -> (r: Vec<Option<Box<L2Node>>>)
    ensures
        r@.len() == 512,
        forall|i: int| 0 <= i < 512 ==> (#[trigger] r@[i]) is None,
{
    let mut r: Vec<Option<Box<L2Node>>> = Vec::new();
    let mut i: usize = 0;
    while i < 512
        invariant
            i <= 512,
            r@.len() == i,
            forall|k: int| 0 <= k < i ==> (#[trigger] r@[k]) is None,
        decreases 512 - i,
    {
        r.push(None);
        i += 1;
    }
    r
}

/// A fresh vector of 512 empty level-3 slots.
fn no_l3_children() -> (r: Vec<Option<Box<L3Node>>>)
    ensures
        r@.len() == 512,
        forall|i: int| 0 <= i < 512 ==> (#[trigger] r@[i]) is None,
{
    let mut r: Vec<Option<Box<L3Node>>> = Vec::new();
    let mut i: usize = 0;
    while i < 512
        invariant
            i <= 512,
            r@.len() == i,
            forall|k: int| 0 <= k < i ==> (#[trigger] r@[k]) is None,
        decreases 512 - i,
    {
        r.push(None);
        i += 1;
    }
    r
}

/// An allocated frame fits a page-table entry.
proof fn lemma_frame_fits(f: u64, bound: int)
    requires
        f % 4096 == 0,
        f < bound,
        bound <= 0x0010_0000_0000_0000,
    ensures
        frame_addr_wf(f),
{
    assert(f & 0x000F_FFFF_FFFF_F000u64 == f) by (bit_vector)
        requires
            f % 4096 == 0,
            f < 0x0010_0000_0000_0000u64,
    ;
}

/// `PRESENT | WRITABLE`, the flags of a hierarchical entry, are well formed.
proof fn lemma_table_flags_wf()
    ensures
        flags_wf(PRESENT | WRITABLE),
        (PRESENT | WRITABLE) & HUGE_PAGE != HUGE_PAGE,
{
    assert((1u64 | 2u64) & 0x8000_0000_0000_009Bu64 == (1u64 | 2u64) && (1u64 | 2u64) & 1u64 == 1u64
        && (1u64 | 2u64) & 128u64 != 128u64) by (bit_vector);
}

/// Equal flag bits mean equal HUGE bits.
proof fn lemma_huge_from_flags(a: u64, b: u64)
    requires
        entry_flags(a) == entry_flags(b),
    ensures
        entry_huge(a) == entry_huge(b),
{
    assert((a & 128u64 == 128u64) == (b & 128u64 == 128u64)) by (bit_vector)
        requires
            a & 0x8000_0000_0000_009Bu64 == b & 0x8000_0000_0000_009Bu64,
    ;
}

proof fn lemma_zero_entry()
    ensures
        !entry_present(0u64),
{
    assert(0u64 & 1u64 != 1u64) by (bit_vector);
}

/// Maps a 4 KiB leaf in a level-1 table.
fn l1_map(n: &mut L1Node, v: u64, frame: u64, flags: u64) -> (r: Result<(), MemoryError>)
    requires
        l1_wf(*old(n)),
        frame_addr_wf(frame),
        flags_wf(flags),
    ensures
        l1_wf(*final(n)),
        match r {
            Ok(()) => !(l1_resolve(*old(n), v) is Some) && forall|v2: u64|
                #[trigger] l1_resolve(*final(n), v2) == if spec_idx1(v2) == spec_idx1(v) {
                    Some((frame, flags))
                } else {
                    l1_resolve(*old(n), v2)
                },
            Err(e) => e == MemoryError::AlreadyMapped && l1_resolve(*old(n), v) is Some && *final(n)
                == *old(n),
        },
{
    broadcast use group_idx_bounds;

    let i = idx1(v);
    let w = self_entry(&n.table.entries, i);
    if crate::table::entry_is_present(w) {
        return Err(MemoryError::AlreadyMapped);
    }
    n.table.entry_modifier(i, frame, flags);
    proof {
        assert forall|v2: u64| #[trigger] l1_resolve(*n, v2) == if spec_idx1(v2) == spec_idx1(v) {
            Some((frame, flags))
        } else {
            l1_resolve(*old(n), v2)
        } by {
            let k = spec_idx1(v2);
            if k != spec_idx1(v) && k != 0 {
                assert(n.table.entries@[k] == old(n).table.entries@[k]);
            }
        }
    }
    Ok(())
}

/// Reads one entry word.
fn self_entry(entries: &Vec<u64>, i: usize) -> (r: u64)
    requires
        i < entries@.len(),
    ensures
        r == entries@[i as int],
{
    entries[i]
}

/// Gets the level-1 table under `i`, creating it if it does not exist yet:
/// a frame is taken from the allocator, zero-cleared, and installed with
/// `PRESENT | WRITABLE`, bumping this table's used count.
fn l2_next_table_may_create(n: &mut L2Node, fa: &mut FrameAllocator, i: usize) -> (r: Result<
    (),
    MemoryError,
>)
    requires
        l2_wf(*old(n)),
        old(fa).wf(),
        fa_fits(*old(fa)),
        i < 512,
    ensures
        l2_wf(*final(n)),
        final(fa).wf(),
        final(fa).mem@ == old(fa).mem@,
        final(fa).reserved_end == old(fa).reserved_end,
        final(fa).free_list@ == old(fa).free_list@ || (old(fa).free_list@.len() >= 1 && final(fa).free_list@ == old(fa).free_list@.skip(1)),
        forall|v2: u64| #[trigger] l2_resolve(*final(n), v2) == l2_resolve(*old(n), v2),
        match r {
            Ok(()) => final(n).children@[i as int] is Some && entry_present(
                final(n).table.entries@[i as int],
            ),
            Err(e) => e == MemoryError::OutOfMemory && final(fa).free_list@.len() == 0 && *final(n)
                == *old(n),
        },
        old(fa).free_list@.len() >= 1 ==> r is Ok,
        entry_present(old(n).table.entries@[i as int]) ==> r is Ok && *final(fa) == *old(fa)
            && *final(n) == *old(n),
{
    broadcast use group_idx_bounds;

    let w = self_entry(&n.table.entries, i);
    if crate::table::entry_is_present(w) {
        return Ok(());
    }
    let f = match fa.allocate() {
        Some(f) => f,
        None => {
            return Err(MemoryError::OutOfMemory);
        },
    };
    proof {
        let f0 = old(fa).free_list@[0] as int;
        let ml = old(fa).mem@.len() as int;
        assert(f0 * 4096 < ml * 4096) by (nonlinear_arith)
            requires
                0 <= f0 < ml,
        ;
        lemma_frame_fits(f.0, old(fa).mem@.len() as u64 * PAGE_SIZE as int);
        lemma_table_flags_wf();
        assert(old(fa).free_list@.skip(1) =~= old(fa).free_list@.drop_first());
    }
    n.table.entry_modifier(i, f.0, PRESENT | WRITABLE);
    proof {
        assert(forall|k: int|
            0 <= k < 512 && k != 0 && k != i as int ==> #[trigger] n.table.entries@[k] == old(n).table.entries@[k]);
        assert(entry_present(n.table.entries@[i as int]));
    }
    n.children[i] = Some(Box::new(L1Node { table: Table::new() }));
    proof {
        lemma_zero_entry();
        assert forall|k: int| 0 <= k < 512 implies ((#[trigger] n.children@[k]) is Some
            <==> entry_present(n.table.entries@[k])) by {
            if k != i as int {
                assert(n.children@[k] == old(n).children@[k]);
                if k != 0 {
                    assert(n.table.entries@[k] == old(n).table.entries@[k]);
                }
            }
        }
        assert forall|k: int|
            0 <= k < 512 && entry_present(#[trigger] n.table.entries@[k]) implies !entry_huge(
            n.table.entries@[k],
        ) by {
            if k != i as int && k != 0 {
                assert(n.table.entries@[k] == old(n).table.entries@[k]);
            } else if k == 0 && k != i as int {
                lemma_huge_from_flags(n.table.entries@[0], old(n).table.entries@[0]);
            }
        }
        assert forall|k: int| 0 <= k < 512 && (#[trigger] n.children@[k]) is Some implies l1_wf(
            *n.children@[k]->Some_0,
        ) by {
            if k != i as int {
                assert(n.children@[k] == old(n).children@[k]);
            }
        }
        assert forall|v2: u64| #[trigger] l2_resolve(*n, v2) == l2_resolve(*old(n), v2) by {
            let k = spec_idx2(v2);
            if k == i as int {
                assert(!entry_present(old(n).table.entries@[i as int]));
                assert(l2_resolve(*old(n), v2) is None);
                assert(n.children@[k]->Some_0.table.entries@[spec_idx1(v2)] == 0);
                assert(l1_resolve(*n.children@[k]->Some_0, v2) is None);
            } else if k != 0 {
                assert(n.table.entries@[k] == old(n).table.entries@[k]);
                assert(n.children@[k] == old(n).children@[k]);
            } else {
                assert(n.children@[k] == old(n).children@[k]);
            }
        }
    }
    Ok(())
}

/// Maps a 4 KiB page below a level-2 table, creating the level-1 table on
/// the way when needed.
fn l2_map(n: &mut L2Node, fa: &mut FrameAllocator, v: u64, frame: u64, flags: u64) -> (r: Result<
    (),
    MemoryError,
>)
    requires
        l2_wf(*old(n)),
        old(fa).wf(),
        fa_fits(*old(fa)),
        frame_addr_wf(frame),
        flags_wf(flags),
    ensures
        l2_wf(*final(n)),
        final(fa).wf(),
        final(fa).mem@ == old(fa).mem@,
        final(fa).reserved_end == old(fa).reserved_end,
        final(fa).free_list@ == old(fa).free_list@ || (old(fa).free_list@.len() >= 1 && final(fa).free_list@ == old(fa).free_list@.skip(1)),
        match r {
            Ok(()) => !(l2_resolve(*old(n), v) is Some) && forall|v2: u64|
                #[trigger] l2_resolve(*final(n), v2) == if spec_idx2(v2) == spec_idx2(v)
                    && spec_idx1(v2) == spec_idx1(v) {
                    Some((frame, flags))
                } else {
                    l2_resolve(*old(n), v2)
                },
            Err(e) => (e == MemoryError::OutOfMemory || e == MemoryError::AlreadyMapped) && (forall|
                v2: u64,
            | #[trigger] l2_resolve(*final(n), v2) == l2_resolve(*old(n), v2)) && (e
                == MemoryError::OutOfMemory ==> final(fa).free_list@.len() == 0) && (e
                == MemoryError::AlreadyMapped ==> l2_resolve(*old(n), v) is Some),
        },
        old(fa).free_list@.len() >= 1 && !(l2_resolve(*old(n), v) is Some) ==> r is Ok,
        l2_path(*old(n), v) && !(l2_resolve(*old(n), v) is Some) ==> r is Ok && *final(fa) == *old(
            fa,
        ),
{
    broadcast use group_idx_bounds;

    let i = idx2(v);
    match l2_next_table_may_create(n, fa, i) {
        Ok(()) => {},
        Err(e) => {
            return Err(e);
        },
    }
    let ghost mid = *n;
    match &mut n.children[i] {
        Some(c) => {
            let res = l1_map(c, v, frame, flags);
            proof {
                let newc = *n.children@[i as int]->Some_0;
                let oldc = *mid.children@[i as int]->Some_0;
                match res {
                    Ok(()) => {
                        assert forall|v2: u64| #[trigger] l2_resolve(*n, v2) == if spec_idx2(v2)
                            == spec_idx2(v) && spec_idx1(v2) == spec_idx1(v) {
                            Some((frame, flags))
                        } else {
                            l2_resolve(mid, v2)
                        } by {
                            if spec_idx2(v2) == i as int {
                                assert(l2_resolve(*n, v2) == l1_resolve(newc, v2));
                                assert(l2_resolve(mid, v2) == l1_resolve(oldc, v2));
                            } else {
                                assert(n.table.entries@[spec_idx2(v2)] == mid.table.entries@[
                                    spec_idx2(v2)]);
                                assert(n.children@[spec_idx2(v2)] == mid.children@[spec_idx2(v2)]);
                            }
                        }
                    },
                    Err(_) => {
                        assert(l1_resolve(oldc, v) is Some);
                        assert(l2_resolve(mid, v) is Some);
                        assert forall|v2: u64| #[trigger] l2_resolve(*n, v2) == l2_resolve(
                            mid,
                            v2,
                        ) by {
                            if spec_idx2(v2) == i as int {
                                assert(l2_resolve(*n, v2) == l1_resolve(newc, v2));
                            } else {
                                assert(n.children@[spec_idx2(v2)] == mid.children@[spec_idx2(v2)]);
                            }
                        }
                    },
                }
            }
            res
        },
        None => {
            proof {
                assert(false);
            }
            Err(MemoryError::OutOfMemory)
        },
    }
}

/// Gets the level-2 table under `i` of a level-3 table, creating it if it
/// does not exist yet.
fn l3_next_table_may_create(n: &mut L3Node, fa: &mut FrameAllocator, i: usize) -> (r: Result<
    (),
    MemoryError,
>)
    requires
        l3_wf(*old(n)),
        old(fa).wf(),
        fa_fits(*old(fa)),
        i < 512,
    ensures
        l3_wf(*final(n)),
        final(fa).wf(),
        final(fa).mem@ == old(fa).mem@,
        final(fa).reserved_end == old(fa).reserved_end,
        final(fa).free_list@ == old(fa).free_list@ || (old(fa).free_list@.len() >= 1 && final(fa).free_list@ == old(fa).free_list@.skip(1)),
        forall|v2: u64| #[trigger] l3_resolve(*final(n), v2) == l3_resolve(*old(n), v2),
        match r {
            Ok(()) => final(n).children@[i as int] is Some && entry_present(
                final(n).table.entries@[i as int],
            ),
            Err(e) => e == MemoryError::OutOfMemory && final(fa).free_list@.len() == 0 && *final(n)
                == *old(n),
        },
        old(fa).free_list@.len() >= 1 ==> r is Ok,
        entry_present(old(n).table.entries@[i as int]) ==> r is Ok && *final(fa) == *old(fa)
            && *final(n) == *old(n),
{
    broadcast use group_idx_bounds;

    let w = self_entry(&n.table.entries, i);
    if crate::table::entry_is_present(w) {
        return Ok(());
    }
    let f = match fa.allocate() {
        Some(f) => f,
        None => {
            return Err(MemoryError::OutOfMemory);
        },
    };
    proof {
        let f0 = old(fa).free_list@[0] as int;
        let ml = old(fa).mem@.len() as int;
        assert(f0 * 4096 < ml * 4096) by (nonlinear_arith)
            requires
                0 <= f0 < ml,
        ;
        lemma_frame_fits(f.0, old(fa).mem@.len() as u64 * PAGE_SIZE as int);
        lemma_table_flags_wf();
        assert(old(fa).free_list@.skip(1) =~= old(fa).free_list@.drop_first());
    }
    n.table.entry_modifier(i, f.0, PRESENT | WRITABLE);
    n.children[i] = Some(Box::new(L2Node { table: Table::new(), children: no_l1_children() }));
    proof {
        lemma_zero_entry();
        assert forall|v2: u64| #[trigger] l3_resolve(*n, v2) == l3_resolve(*old(n), v2) by {
            let k = spec_idx3(v2);
            if k == i as int {
                assert(!entry_present(old(n).table.entries@[i as int]));
                assert(l3_resolve(*old(n), v2) is None);
                assert(!entry_present(
                    n.children@[k]->Some_0.table.entries@[spec_idx2(v2)],
                ));
                assert(l2_resolve(*n.children@[k]->Some_0, v2) is None);
            } else if k != 0 {
                assert(n.table.entries@[k] == old(n).table.entries@[k]);
                assert(n.children@[k] == old(n).children@[k]);
            } else {
                assert(n.children@[k] == old(n).children@[k]);
            }
        }
        assert forall|k: int| 0 <= k < 512 implies ((#[trigger] n.children@[k]) is Some
            <==> entry_present(n.table.entries@[k])) by {
            if k != i as int {
                assert(n.children@[k] == old(n).children@[k]);
                if k != 0 {
                    assert(n.table.entries@[k] == old(n).table.entries@[k]);
                }
            }
        }
        assert forall|k: int|
            0 <= k < 512 && entry_present(#[trigger] n.table.entries@[k]) implies !entry_huge(
            n.table.entries@[k],
        ) by {
            if k != i as int && k != 0 {
                assert(n.table.entries@[k] == old(n).table.entries@[k]);
            } else if k == 0 && k != i as int {
                lemma_huge_from_flags(n.table.entries@[0], old(n).table.entries@[0]);
            }
        }
        assert forall|k: int| 0 <= k < 512 && (#[trigger] n.children@[k]) is Some implies l2_wf(
            *n.children@[k]->Some_0,
        ) by {
            if k != i as int {
                assert(n.children@[k] == old(n).children@[k]);
            }
        }
    }
    Ok(())
}

/// Maps a 4 KiB page below a level-3 table.
fn l3_map(n: &mut L3Node, fa: &mut FrameAllocator, v: u64, frame: u64, flags: u64) -> (r: Result<
    (),
    MemoryError,
>)
    requires
        l3_wf(*old(n)),
        old(fa).wf(),
        fa_fits(*old(fa)),
        frame_addr_wf(frame),
        flags_wf(flags),
    ensures
        l3_wf(*final(n)),
        final(fa).wf(),
        final(fa).mem@ == old(fa).mem@,
        final(fa).reserved_end == old(fa).reserved_end,
        final(fa).free_list@ == old(fa).free_list@ || (old(fa).free_list@.len() >= 1 && final(fa).free_list@ == old(fa).free_list@.skip(1)) || (old(fa).free_list@.len() >= 2 && final(fa).free_list@ == old(fa).free_list@.skip(2)),
        match r {
            Ok(()) => !(l3_resolve(*old(n), v) is Some) && forall|v2: u64|
                #[trigger] l3_resolve(*final(n), v2) == if spec_idx3(v2) == spec_idx3(v)
                    && spec_idx2(v2) == spec_idx2(v) && spec_idx1(v2) == spec_idx1(v) {
                    Some((frame, flags))
                } else {
                    l3_resolve(*old(n), v2)
                },
            Err(e) => (e == MemoryError::OutOfMemory || e == MemoryError::AlreadyMapped) && (forall|
                v2: u64,
            | #[trigger] l3_resolve(*final(n), v2) == l3_resolve(*old(n), v2)) && (e
                == MemoryError::OutOfMemory ==> final(fa).free_list@.len() == 0) && (e
                == MemoryError::AlreadyMapped ==> l3_resolve(*old(n), v) is Some),
        },
        old(fa).free_list@.len() >= 2 && !(l3_resolve(*old(n), v) is Some) ==> r is Ok,
        l3_path(*old(n), v) && !(l3_resolve(*old(n), v) is Some) ==> r is Ok && *final(fa) == *old(
            fa,
        ),
{
    broadcast use group_idx_bounds;

    let i = idx3(v);
    match l3_next_table_may_create(n, fa, i) {
        Ok(()) => {},
        Err(e) => {
            return Err(e);
        },
    }
    let ghost mid = *n;
    let ghost fa_mid = *fa;
    match &mut n.children[i] {
        Some(c) => {
            let res = l2_map(c, fa, v, frame, flags);
            proof {
                let newc = *n.children@[i as int]->Some_0;
                let oldc = *mid.children@[i as int]->Some_0;
                if old(fa).free_list@.len() >= 2 {
                    assert(old(fa).free_list@.skip(1).skip(1) =~= old(fa).free_list@.skip(2));
                }
                if old(fa).free_list@.len() >= 1 {
                    assert(old(fa).free_list@.skip(1).skip(0) =~= old(fa).free_list@.skip(1));
                }
                match res {
                    Ok(()) => {
                        assert forall|v2: u64| #[trigger] l3_resolve(*n, v2) == if spec_idx3(v2)
                            == spec_idx3(v) && spec_idx2(v2) == spec_idx2(v) && spec_idx1(v2)
                            == spec_idx1(v) {
                            Some((frame, flags))
                        } else {
                            l3_resolve(mid, v2)
                        } by {
                            if spec_idx3(v2) == i as int {
                                assert(l3_resolve(*n, v2) == l2_resolve(newc, v2));
                                assert(l3_resolve(mid, v2) == l2_resolve(oldc, v2));
                            } else {
                                assert(n.table.entries@[spec_idx3(v2)] == mid.table.entries@[
                                    spec_idx3(v2)]);
                                assert(n.children@[spec_idx3(v2)] == mid.children@[spec_idx3(v2)]);
                            }
                        }
                    },
                    Err(_) => {
                        assert(l2_resolve(oldc, v) is Some ==> l3_resolve(mid, v) is Some);
                        assert forall|v2: u64| #[trigger] l3_resolve(*n, v2) == l3_resolve(
                            mid,
                            v2,
                        ) by {
                            if spec_idx3(v2) == i as int {
                                assert(l3_resolve(*n, v2) == l2_resolve(newc, v2));
                            } else {
                                assert(n.children@[spec_idx3(v2)] == mid.children@[spec_idx3(v2)]);
                            }
                        }
                    },
                }
            }
            res
        },
        None => {
            proof {
                assert(false);
            }
            Err(MemoryError::OutOfMemory)
        },
    }
}

impl ActiveMapping {
    /// The whole tree is well formed, every table's used count exact.
    pub open spec fn wf(self) -> bool {
        &&& self.table.wf()
        &&& self.table.count_exact()
        &&& self.children@.len() == 512
        &&& forall|i: int|
            0 <= i < 512 ==> ((#[trigger] self.children@[i]) is Some <==> entry_present(
                self.table.entries@[i],
            ))
        &&& forall|i: int|
            0 <= i < 512 && entry_present(#[trigger] self.table.entries@[i]) ==> !entry_huge(
                self.table.entries@[i],
            )
        &&& forall|i: int|
            0 <= i < 512 && (#[trigger] self.children@[i]) is Some ==> l3_wf(
                *self.children@[i]->Some_0,
            )
    }

    /// The partial map this tree encodes: the frame and flags carried by
    /// the page `v` falls on, if any.
    pub open spec fn resolve(self, v: u64) -> Option<(u64, u64)> {
        let w = self.table.entries@[spec_idx4(v)];
        if !entry_present(w) {
            None
        } else {
            match self.children@[spec_idx4(v)] {
                Some(c) => l3_resolve(*c, v),
                None => None,
            }
        }
    }

    /// An empty mapping: nothing resolved anywhere.
    pub fn new() -> (r: ActiveMapping)
        ensures
            r.wf(),
            forall|v: u64| #[trigger] r.resolve(v) is None,
    {
        let r = ActiveMapping { table: Table::new(), children: no_l3_children() };
        proof {
            broadcast use group_idx_bounds;

            lemma_zero_entry();
        }
        r
    }

    /// Gets the level-3 table under `i`, creating it if needed.
    fn next_table_may_create(&mut self, fa: &mut FrameAllocator, i: usize) -> (r: Result<
        (),
        MemoryError,
    >)
        requires
            old(self).wf(),
            old(fa).wf(),
            fa_fits(*old(fa)),
            i < 512,
        ensures
            final(self).wf(),
            final(fa).wf(),
            final(fa).mem@ == old(fa).mem@,
            final(fa).reserved_end == old(fa).reserved_end,
            final(fa).free_list@ == old(fa).free_list@ || (old(fa).free_list@.len() >= 1 && final(fa).free_list@ == old(fa).free_list@.skip(1)),
            forall|v2: u64| #[trigger] final(self).resolve(v2) == old(self).resolve(v2),
            match r {
                Ok(()) => final(self).children@[i as int] is Some && entry_present(
                    final(self).table.entries@[i as int],
                ),
                Err(e) => e == MemoryError::OutOfMemory && final(fa).free_list@.len() == 0
                    && *final(self) == *old(self),
            },
            old(fa).free_list@.len() >= 1 ==> r is Ok,
            entry_present(old(self).table.entries@[i as int]) ==> r is Ok && *final(fa) == *old(fa)
                && *final(self) == *old(self),
    {
        broadcast use group_idx_bounds;

        let w = self_entry(&self.table.entries, i);
        if crate::table::entry_is_present(w) {
            return Ok(());
        }
        let f = match fa.allocate() {
            Some(f) => f,
            None => {
                return Err(MemoryError::OutOfMemory);
            },
        };
        proof {
            let f0 = old(fa).free_list@[0] as int;
            let ml = old(fa).mem@.len() as int;
            assert(f0 * 4096 < ml * 4096) by (nonlinear_arith)
                requires
                    0 <= f0 < ml,
            ;
            lemma_frame_fits(f.0, old(fa).mem@.len() as u64 * PAGE_SIZE as int);
            lemma_table_flags_wf();
            assert(old(fa).free_list@.skip(1) =~= old(fa).free_list@.drop_first());
        }
        self.table.entry_modifier(i, f.0, PRESENT | WRITABLE);
        self.children[i] = Some(
            Box::new(L3Node { table: Table::new(), children: no_l2_children() }),
        );
        proof {
            lemma_zero_entry();
            assert forall|v2: u64| #[trigger] self.resolve(v2) == old(self).resolve(v2) by {
                let k = spec_idx4(v2);
                if k == i as int {
                    assert(!entry_present(old(self).table.entries@[i as int]));
                    assert(old(self).resolve(v2) is None);
                    assert(!entry_present(
                        self.children@[k]->Some_0.table.entries@[spec_idx3(v2)],
                    ));
                    assert(l3_resolve(*self.children@[k]->Some_0, v2) is None);
                } else if k != 0 {
                    assert(self.table.entries@[k] == old(self).table.entries@[k]);
                    assert(self.children@[k] == old(self).children@[k]);
                } else {
                    assert(self.children@[k] == old(self).children@[k]);
                }
            }
            assert forall|k: int| 0 <= k < 512 implies ((#[trigger] self.children@[k]) is Some
                <==> entry_present(self.table.entries@[k])) by {
                if k != i as int {
                    assert(self.children@[k] == old(self).children@[k]);
                    if k != 0 {
                        assert(self.table.entries@[k] == old(self).table.entries@[k]);
                    }
                }
            }
            assert forall|k: int|
                0 <= k < 512 && entry_present(#[trigger] self.table.entries@[k]) implies
                !entry_huge(self.table.entries@[k]) by {
                if k != i as int && k != 0 {
                    assert(self.table.entries@[k] == old(self).table.entries@[k]);
                } else if k == 0 && k != i as int {
                    lemma_huge_from_flags(self.table.entries@[0], old(self).table.entries@[0]);
                }
            }
            assert forall|k: int|
                0 <= k < 512 && (#[trigger] self.children@[k]) is Some implies l3_wf(
                *self.children@[k]->Some_0,
            ) by {
                if k != i as int {
                    assert(self.children@[k] == old(self).children@[k]);
                }
            }
        }
        Ok(())
    }

    /// Maps the 4 KiB page at `vaddr` to the frame `paddr` with the given
    /// flags and cache hint, creating the page tables on the way. Needs at
    /// most 3 frames for tables; fails with `AlreadyMapped` when the page
    /// already resolves, with `OutOfMemory` when the allocator runs dry.
    pub fn map_4k(
        &mut self,
        fa: &mut FrameAllocator,
        vaddr: u64,
        paddr: u64,
        flags: u64,
        cache_type: CacheType,
    ) -> (r: Result<(), MemoryError>)
        requires
            old(self).wf(),
            old(fa).wf(),
            fa_fits(*old(fa)),
            frame_addr_wf(paddr),
            flags_wf(flags),
        ensures
            final(self).wf(),
            final(fa).wf(),
            final(fa).mem@ == old(fa).mem@,
            final(fa).reserved_end == old(fa).reserved_end,
            final(fa).free_list@ == old(fa).free_list@ || (old(fa).free_list@.len() >= 1
                && final(fa).free_list@ == old(fa).free_list@.skip(1)) || (old(fa).free_list@.len() >= 2 && final(fa).free_list@ == old(fa).free_list@.skip(2)) || (old(fa).free_list@.len() >= 3 && final(fa).free_list@ == old(fa).free_list@.skip(3)),
            match r {
                Ok(()) => !(old(self).resolve(vaddr) is Some) && forall|v2: u64|
                    #[trigger] final(self).resolve(v2) == if same_page(v2, vaddr) {
                        Some((paddr, flags | cache_type.spec_flags()))
                    } else {
                        old(self).resolve(v2)
                    },
                Err(e) => (e == MemoryError::OutOfMemory || e == MemoryError::AlreadyMapped) && (
                forall|v2: u64| #[trigger] final(self).resolve(v2) == old(self).resolve(v2)) && (e
                    == MemoryError::OutOfMemory ==> final(fa).free_list@.len() == 0) && (e
                    == MemoryError::AlreadyMapped ==> old(self).resolve(vaddr) is Some),
            },
            old(fa).free_list@.len() >= 3 && !(old(self).resolve(vaddr) is Some) ==> r is Ok,
            l1_path_exists(*old(self), vaddr) && !(old(self).resolve(vaddr) is Some) ==> r is Ok
                && *final(fa) == *old(fa),
    {
        broadcast use group_idx_bounds;

        proof {
            crate::table::lemma_flags_with_cache(flags, cache_type.spec_flags());
        }
        let flags = flags | cache_type.to_flags();
        let i = idx4(vaddr);
        match self.next_table_may_create(fa, i) {
            Ok(()) => {},
            Err(e) => {
                return Err(e);
            },
        }
        let ghost mid = *self;
        let ghost fa_mid = *fa;
        match &mut self.children[i] {
            Some(c) => {
                let res = l3_map(c, fa, vaddr, paddr, flags);
                proof {
                    let newc = *self.children@[i as int]->Some_0;
                    let oldc = *mid.children@[i as int]->Some_0;
                    if old(fa).free_list@.len() >= 2 {
                        assert(old(fa).free_list@.skip(1).skip(1) =~= old(fa).free_list@.skip(2));
                    }
                    if old(fa).free_list@.len() >= 3 {
                        assert(old(fa).free_list@.skip(1).skip(2) =~= old(fa).free_list@.skip(3));
                    }
                    if old(fa).free_list@.len() >= 1 {
                        assert(old(fa).free_list@.skip(1).skip(0) =~= old(fa).free_list@.skip(1));
                    }
                    match res {
                        Ok(()) => {
                            assert forall|v2: u64| #[trigger] self.resolve(v2) == if same_page(
                                v2,
                                vaddr,
                            ) {
                                Some((paddr, flags))
                            } else {
                                mid.resolve(v2)
                            } by {
                                if spec_idx4(v2) == i as int {
                                    assert(self.resolve(v2) == l3_resolve(newc, v2));
                                    assert(mid.resolve(v2) == l3_resolve(oldc, v2));
                                } else {
                                    assert(self.table.entries@[spec_idx4(v2)] == mid.table.entries@[
                                        spec_idx4(v2)]);
                                    assert(self.children@[spec_idx4(v2)] == mid.children@[spec_idx4(
                                        v2,
                                    )]);
                                }
                            }
                        },
                        Err(_) => {
                            assert(l3_resolve(oldc, vaddr) is Some ==> mid.resolve(vaddr) is Some);
                            assert forall|v2: u64| #[trigger] self.resolve(v2) == mid.resolve(
                                v2,
                            ) by {
                                if spec_idx4(v2) == i as int {
                                    assert(self.resolve(v2) == l3_resolve(newc, v2));
                                } else {
                                    assert(self.children@[spec_idx4(v2)] == mid.children@[spec_idx4(
                                        v2,
                                    )]);
                                }
                            }
                        },
                    }
                }
                res
            },
            None => {
                proof {
                    assert(false);
                }
                Err(MemoryError::OutOfMemory)
            },
        }
    }

    /// Resolves a virtual address against the active mapping: the physical
    /// frame and the flags of the page it falls on.
    pub fn translate(&self, vaddr: u64) -> (r: Option<(u64, u64)>)
        requires
            self.wf(),
        ensures
            r == self.resolve(vaddr),
    {
        broadcast use group_idx_bounds;

        let i4 = idx4(vaddr);
        let w4 = self_entry(&self.table.entries, i4);
        if !crate::table::entry_is_present(w4) {
            return None;
        }
        match &self.children[i4] {
            Some(c3) => {
                let i3 = idx3(vaddr);
                let w3 = self_entry(&c3.table.entries, i3);
                if !crate::table::entry_is_present(w3) {
                    return None;
                }
                match &c3.children[i3] {
                    Some(c2) => {
                        let i2 = idx2(vaddr);
                        let w2 = self_entry(&c2.table.entries, i2);
                        if !crate::table::entry_is_present(w2) {
                            return None;
                        }
                        match &c2.children[i2] {
                            Some(c1) => {
                                let i1 = idx1(vaddr);
                                let w1 = self_entry(&c1.table.entries, i1);
                                if !crate::table::entry_is_present(w1) {
                                    return None;
                                }
                                Some(
                                    (
                                        crate::table::entry_addr_of(w1),
                                        crate::table::entry_flags_of(w1),
                                    ),
                                )
                            },
                            None => None,
                        }
                    },
                    None => None,
                }
            },
            None => None,
        }
    }
}

/// The result of a lookup with its flags replaced.
pub open spec fn flags_swapped(o: Option<(u64, u64)>, flags: u64) -> Option<(u64, u64)> {
    match o {
        Some(m) => Some((m.0, flags)),
        None => None,
    }
}

/// The level-1 table covering `v` exists below a level-2 table.
pub open spec fn l2_path(n: L2Node, v: u64) -> bool {
    n.children@[spec_idx2(v)] is Some
}

/// The tables covering `v` exist below a level-3 table.
pub open spec fn l3_path(n: L3Node, v: u64) -> bool {
    n.children@[spec_idx3(v)] is Some && l2_path(*n.children@[spec_idx3(v)]->Some_0, v)
}

/// The page tables covering `v` exist down to level 1.
pub open spec fn l1_path_exists(am: ActiveMapping, v: u64) -> bool {
    &&& am.children@[spec_idx4(v)] is Some
    &&& am.children@[spec_idx4(v)]->Some_0.children@[spec_idx3(v)] is Some
    &&& am.children@[spec_idx4(v)]->Some_0.children@[spec_idx3(v)]->Some_0.children@[spec_idx2(
        v,
    )] is Some
}

/// Unmaps the page at `v` in a level-1 table, returning the frame it
/// carried.
fn l1_unmap(n: &mut L1Node, v: u64) -> (r: Option<u64>)
    requires
        l1_wf(*old(n)),
    ensures
        l1_wf(*final(n)),
        r == match l1_resolve(*old(n), v) {
            Some(m) => Some(m.0),
            None => None::<u64>,
        },
        forall|v2: u64|
            #[trigger] l1_resolve(*final(n), v2) == if spec_idx1(v2) == spec_idx1(v) {
                None::<(u64, u64)>
            } else {
                l1_resolve(*old(n), v2)
            },
{
    broadcast use group_idx_bounds;

    let i = idx1(v);
    let w = self_entry(&n.table.entries, i);
    if !crate::table::entry_is_present(w) {
        proof {
            assert forall|v2: u64| #[trigger] l1_resolve(*n, v2) == if spec_idx1(v2) == spec_idx1(
                v,
            ) {
                None::<(u64, u64)>
            } else {
                l1_resolve(*old(n), v2)
            } by {}
        }
        return None;
    }
    let frame = crate::table::entry_addr_of(w);
    n.table.clear_entry(i);
    proof {
        assert forall|v2: u64| #[trigger] l1_resolve(*n, v2) == if spec_idx1(v2) == spec_idx1(v) {
            None::<(u64, u64)>
        } else {
            l1_resolve(*old(n), v2)
        } by {
            let k = spec_idx1(v2);
            if k != spec_idx1(v) && k != 0 {
                assert(n.table.entries@[k] == old(n).table.entries@[k]);
            }
        }
    }
    Some(frame)
}

/// Unmaps the page at `v` below a level-2 table. A level-1 table whose
/// used count reaches zero is detached and its frame pushed to `released`.
fn l2_unmap(n: &mut L2Node, v: u64, released: &mut Vec<PhysAddr>) -> (r: Option<u64>)
    requires
        l2_wf(*old(n)),
    ensures
        l2_wf(*final(n)),
        r == match l2_resolve(*old(n), v) {
            Some(m) => Some(m.0),
            None => None::<u64>,
        },
        forall|v2: u64|
            #[trigger] l2_resolve(*final(n), v2) == if spec_idx2(v2) == spec_idx2(v) && spec_idx1(
                v2,
            ) == spec_idx1(v) {
                None::<(u64, u64)>
            } else {
                l2_resolve(*old(n), v2)
            },
        old(released)@.is_prefix_of(final(released)@),
{
    broadcast use group_idx_bounds;

    let i = idx2(v);
    let w = self_entry(&n.table.entries, i);
    if !crate::table::entry_is_present(w) {
        return None;
    }
    let mut empty_now = false;
    let r;
    match &mut n.children[i] {
        Some(c) => {
            r = l1_unmap(c, v);
            let cnt = c.table.used_count();
            proof {
                if cnt == 0 {
                    crate::table::lemma_count_zero_no_present(
                        n.children@[i as int]->Some_0.table.entries@,
                    );
                }
            }
            if cnt == 0 {
                empty_now = true;
            }
        },
        None => {
            proof {
                assert(false);
            }
            r = None;
        },
    }
    let ghost mid = *n;
    if empty_now {
        let fr = crate::table::entry_addr_of(w);
        n.children[i] = None;
        n.table.clear_entry(i);
        released.push(PhysAddr(fr));
        proof {
            assert forall|v2: u64| #[trigger] l2_resolve(*n, v2) == l2_resolve(mid, v2) by {
                let k = spec_idx2(v2);
                if k == i as int {
                    assert(!entry_present(
                        mid.children@[i as int]->Some_0.table.entries@[spec_idx1(v2)],
                    ));
                    assert(l2_resolve(mid, v2) is None);
                } else if k != 0 {
                    assert(n.table.entries@[k] == mid.table.entries@[k]);
                    assert(n.children@[k] == mid.children@[k]);
                } else {
                    assert(n.children@[k] == mid.children@[k]);
                }
            }
            assert forall|k: int| 0 <= k < 512 implies ((#[trigger] n.children@[k]) is Some
                <==> entry_present(n.table.entries@[k])) by {
                if k != i as int {
                    assert(n.children@[k] == mid.children@[k]);
                    if k != 0 {
                        assert(n.table.entries@[k] == mid.table.entries@[k]);
                    }
                }
            }
            assert forall|k: int|
                0 <= k < 512 && entry_present(#[trigger] n.table.entries@[k]) implies !entry_huge(
                n.table.entries@[k],
            ) by {
                if k != i as int && k != 0 {
                    assert(n.table.entries@[k] == mid.table.entries@[k]);
                } else if k == 0 && k != i as int {
                    lemma_huge_from_flags(n.table.entries@[0], mid.table.entries@[0]);
                }
            }
            assert forall|k: int| 0 <= k < 512 && (#[trigger] n.children@[k]) is Some implies l1_wf(
                *n.children@[k]->Some_0,
            ) by {
                if k != i as int {
                    assert(n.children@[k] == mid.children@[k]);
                }
            }
        }
    }
    proof {
        assert forall|v2: u64| #[trigger] l2_resolve(*n, v2) == if spec_idx2(v2) == spec_idx2(v)
            && spec_idx1(v2) == spec_idx1(v) {
            None::<(u64, u64)>
        } else {
            l2_resolve(*old(n), v2)
        } by {
            let k = spec_idx2(v2);
            if k == i as int {
                assert(mid.children@[k] == n.children@[k] || l2_resolve(*n, v2) == l2_resolve(
                    mid,
                    v2,
                ));
            } else if k != 0 {
                assert(mid.table.entries@[k] == old(n).table.entries@[k]);
                assert(mid.children@[k] == old(n).children@[k]);
            } else {
                assert(mid.children@[k] == old(n).children@[k]);
            }
        }
    }
    r
}

/// Unmaps the page at `v` below a level-3 table, detaching emptied tables.
fn l3_unmap(n: &mut L3Node, v: u64, released: &mut Vec<PhysAddr>) -> (r: Option<u64>)
    requires
        l3_wf(*old(n)),
    ensures
        l3_wf(*final(n)),
        r == match l3_resolve(*old(n), v) {
            Some(m) => Some(m.0),
            None => None::<u64>,
        },
        forall|v2: u64|
            #[trigger] l3_resolve(*final(n), v2) == if spec_idx3(v2) == spec_idx3(v) && spec_idx2(
                v2,
            ) == spec_idx2(v) && spec_idx1(v2) == spec_idx1(v) {
                None::<(u64, u64)>
            } else {
                l3_resolve(*old(n), v2)
            },
        old(released)@.is_prefix_of(final(released)@),
{
    broadcast use group_idx_bounds;

    let i = idx3(v);
    let w = self_entry(&n.table.entries, i);
    if !crate::table::entry_is_present(w) {
        return None;
    }
    let mut empty_now = false;
    let r;
    match &mut n.children[i] {
        Some(c) => {
            r = l2_unmap(c, v, released);
            let cnt = c.table.used_count();
            proof {
                if cnt == 0 {
                    crate::table::lemma_count_zero_no_present(
                        n.children@[i as int]->Some_0.table.entries@,
                    );
                }
            }
            if cnt == 0 {
                empty_now = true;
            }
        },
        None => {
            proof {
                assert(false);
            }
            r = None;
        },
    }
    let ghost mid = *n;
    if empty_now {
        let fr = crate::table::entry_addr_of(w);
        n.children[i] = None;
        n.table.clear_entry(i);
        released.push(PhysAddr(fr));
        proof {
            assert forall|v2: u64| #[trigger] l3_resolve(*n, v2) == l3_resolve(mid, v2) by {
                let k = spec_idx3(v2);
                if k == i as int {
                    assert(!entry_present(
                        mid.children@[i as int]->Some_0.table.entries@[spec_idx2(v2)],
                    ));
                    assert(l3_resolve(mid, v2) is None);
                } else if k != 0 {
                    assert(n.table.entries@[k] == mid.table.entries@[k]);
                    assert(n.children@[k] == mid.children@[k]);
                } else {
                    assert(n.children@[k] == mid.children@[k]);
                }
            }
            assert forall|k: int| 0 <= k < 512 implies ((#[trigger] n.children@[k]) is Some
                <==> entry_present(n.table.entries@[k])) by {
                if k != i as int {
                    assert(n.children@[k] == mid.children@[k]);
                    if k != 0 {
                        assert(n.table.entries@[k] == mid.table.entries@[k]);
                    }
                }
            }
            assert forall|k: int|
                0 <= k < 512 && entry_present(#[trigger] n.table.entries@[k]) implies !entry_huge(
                n.table.entries@[k],
            ) by {
                if k != i as int && k != 0 {
                    assert(n.table.entries@[k] == mid.table.entries@[k]);
                } else if k == 0 && k != i as int {
                    lemma_huge_from_flags(n.table.entries@[0], mid.table.entries@[0]);
                }
            }
            assert forall|k: int| 0 <= k < 512 && (#[trigger] n.children@[k]) is Some implies l2_wf(
                *n.children@[k]->Some_0,
            ) by {
                if k != i as int {
                    assert(n.children@[k] == mid.children@[k]);
                }
            }
        }
    }
    proof {
        assert forall|v2: u64| #[trigger] l3_resolve(*n, v2) == if spec_idx3(v2) == spec_idx3(v)
            && spec_idx2(v2) == spec_idx2(v) && spec_idx1(v2) == spec_idx1(v) {
            None::<(u64, u64)>
        } else {
            l3_resolve(*old(n), v2)
        } by {
            let k = spec_idx3(v2);
            if k == i as int {
                assert(mid.children@[k] == n.children@[k] || l3_resolve(*n, v2) == l3_resolve(
                    mid,
                    v2,
                ));
            } else if k != 0 {
                assert(mid.table.entries@[k] == old(n).table.entries@[k]);
                assert(mid.children@[k] == old(n).children@[k]);
            } else {
                assert(mid.children@[k] == old(n).children@[k]);
            }
        }
    }
    r
}

/// Rewrites the flags of the present page at `v` in a level-1 table.
fn l1_change(n: &mut L1Node, v: u64, flags: u64)
    requires
        l1_wf(*old(n)),
        flags_wf(flags),
        l1_resolve(*old(n), v) is Some,
    ensures
        l1_wf(*final(n)),
        forall|v2: u64|
            #[trigger] l1_resolve(*final(n), v2) == if spec_idx1(v2) == spec_idx1(v) {
                flags_swapped(l1_resolve(*old(n), v2), flags)
            } else {
                l1_resolve(*old(n), v2)
            },
{
    broadcast use group_idx_bounds;

    let i = idx1(v);
    n.table.change_entry_flags(i, flags);
    proof {
        assert forall|v2: u64| #[trigger] l1_resolve(*n, v2) == if spec_idx1(v2) == spec_idx1(v) {
            flags_swapped(l1_resolve(*old(n), v2), flags)
        } else {
            l1_resolve(*old(n), v2)
        } by {
            let k = spec_idx1(v2);
            if k != spec_idx1(v) && k != 0 {
                assert(n.table.entries@[k] == old(n).table.entries@[k]);
            }
        }
    }
}

/// Rewrites the flags of the present page at `v` below a level-2 table.
fn l2_change(n: &mut L2Node, v: u64, flags: u64)
    requires
        l2_wf(*old(n)),
        flags_wf(flags),
        l2_resolve(*old(n), v) is Some,
    ensures
        l2_wf(*final(n)),
        forall|v2: u64|
            #[trigger] l2_resolve(*final(n), v2) == if spec_idx2(v2) == spec_idx2(v) && spec_idx1(
                v2,
            ) == spec_idx1(v) {
                flags_swapped(l2_resolve(*old(n), v2), flags)
            } else {
                l2_resolve(*old(n), v2)
            },
{
    broadcast use group_idx_bounds;

    let i = idx2(v);
    match &mut n.children[i] {
        Some(c) => {
            l1_change(c, v, flags);
            proof {
                let newc = *n.children@[i as int]->Some_0;
                let oldc = *old(n).children@[i as int]->Some_0;
                assert forall|v2: u64| #[trigger] l2_resolve(*n, v2) == if spec_idx2(v2)
                    == spec_idx2(v) && spec_idx1(v2) == spec_idx1(v) {
                    flags_swapped(l2_resolve(*old(n), v2), flags)
                } else {
                    l2_resolve(*old(n), v2)
                } by {
                    if spec_idx2(v2) == i as int {
                        assert(l2_resolve(*n, v2) == l1_resolve(newc, v2));
                        assert(l2_resolve(*old(n), v2) == l1_resolve(oldc, v2));
                    } else {
                        assert(n.table.entries@[spec_idx2(v2)] == old(n).table.entries@[spec_idx2(
                            v2,
                        )]);
                        assert(n.children@[spec_idx2(v2)] == old(n).children@[spec_idx2(v2)]);
                    }
                }
            }
        },
        None => {
            proof {
                assert(false);
            }
        },
    }
}

/// Rewrites the flags of the present page at `v` below a level-3 table.
fn l3_change(n: &mut L3Node, v: u64, flags: u64)
    requires
        l3_wf(*old(n)),
        flags_wf(flags),
        l3_resolve(*old(n), v) is Some,
    ensures
        l3_wf(*final(n)),
        forall|v2: u64|
            #[trigger] l3_resolve(*final(n), v2) == if spec_idx3(v2) == spec_idx3(v) && spec_idx2(
                v2,
            ) == spec_idx2(v) && spec_idx1(v2) == spec_idx1(v) {
                flags_swapped(l3_resolve(*old(n), v2), flags)
            } else {
                l3_resolve(*old(n), v2)
            },
{
    broadcast use group_idx_bounds;

    let i = idx3(v);
    match &mut n.children[i] {
        Some(c) => {
            l2_change(c, v, flags);
            proof {
                let newc = *n.children@[i as int]->Some_0;
                let oldc = *old(n).children@[i as int]->Some_0;
                assert forall|v2: u64| #[trigger] l3_resolve(*n, v2) == if spec_idx3(v2)
                    == spec_idx3(v) && spec_idx2(v2) == spec_idx2(v) && spec_idx1(v2) == spec_idx1(
                    v,
                ) {
                    flags_swapped(l3_resolve(*old(n), v2), flags)
                } else {
                    l3_resolve(*old(n), v2)
                } by {
                    if spec_idx3(v2) == i as int {
                        assert(l3_resolve(*n, v2) == l2_resolve(newc, v2));
                        assert(l3_resolve(*old(n), v2) == l2_resolve(oldc, v2));
                    } else {
                        assert(n.table.entries@[spec_idx3(v2)] == old(n).table.entries@[spec_idx3(
                            v2,
                        )]);
                        assert(n.children@[spec_idx3(v2)] == old(n).children@[spec_idx3(v2)]);
                    }
                }
            }
        },
        None => {
            proof {
                assert(false);
            }
        },
    }
}

impl ActiveMapping {
    /// Unmaps the 4 KiB page at `vaddr`, returning the frame it carried.
    /// Page tables whose used count reaches zero are detached; their
    /// frames are appended to `released` for the caller to return to the
    /// frame allocator.
    pub fn unmap(&mut self, vaddr: u64, released: &mut Vec<PhysAddr>) -> (r: Option<PhysAddr>)
        requires
            old(self).wf(),
        ensures
            final(self).wf(),
            r == match old(self).resolve(vaddr) {
                Some(m) => Some(PhysAddr(m.0)),
                None => None::<PhysAddr>,
            },
            forall|v2: u64|
                #[trigger] final(self).resolve(v2) == if same_page(v2, vaddr) {
                    None::<(u64, u64)>
                } else {
                    old(self).resolve(v2)
                },
            old(released)@.is_prefix_of(final(released)@),
    {
        broadcast use group_idx_bounds;

        let i = idx4(vaddr);
        let w = self_entry(&self.table.entries, i);
        if !crate::table::entry_is_present(w) {
            proof {
                assert(old(released)@.is_prefix_of(released@));
            }
            return None;
        }
        let mut empty_now = false;
        let r;
        match &mut self.children[i] {
            Some(c) => {
                let rr = l3_unmap(c, vaddr, released);
                r = match rr {
                    Some(f) => Some(PhysAddr(f)),
                    None => None,
                };
                let cnt = c.table.used_count();
                proof {
                    if cnt == 0 {
                        crate::table::lemma_count_zero_no_present(
                            self.children@[i as int]->Some_0.table.entries@,
                        );
                    }
                }
                if cnt == 0 {
                    empty_now = true;
                }
            },
            None => {
                proof {
                    assert(false);
                }
                r = None;
            },
        }
        let ghost mid = *self;
        if empty_now {
            let fr = crate::table::entry_addr_of(w);
            self.children[i] = None;
            self.table.clear_entry(i);
            released.push(PhysAddr(fr));
            proof {
                assert forall|v2: u64| #[trigger] self.resolve(v2) == mid.resolve(v2) by {
                    let k = spec_idx4(v2);
                    if k == i as int {
                        assert(!entry_present(
                            mid.children@[i as int]->Some_0.table.entries@[spec_idx3(v2)],
                        ));
                        assert(mid.resolve(v2) is None);
                    } else if k != 0 {
                        assert(self.table.entries@[k] == mid.table.entries@[k]);
                        assert(self.children@[k] == mid.children@[k]);
                    } else {
                        assert(self.children@[k] == mid.children@[k]);
                    }
                }
                assert forall|k: int| 0 <= k < 512 implies ((#[trigger] self.children@[k]) is Some
                    <==> entry_present(self.table.entries@[k])) by {
                    if k != i as int {
                        assert(self.children@[k] == mid.children@[k]);
                        if k != 0 {
                            assert(self.table.entries@[k] == mid.table.entries@[k]);
                        }
                    }
                }
                assert forall|k: int|
                    0 <= k < 512 && entry_present(#[trigger] self.table.entries@[k]) implies
                    !entry_huge(self.table.entries@[k]) by {
                    if k != i as int && k != 0 {
                        assert(self.table.entries@[k] == mid.table.entries@[k]);
                    } else if k == 0 && k != i as int {
                        lemma_huge_from_flags(self.table.entries@[0], mid.table.entries@[0]);
                    }
                }
                assert forall|k: int|
                    0 <= k < 512 && (#[trigger] self.children@[k]) is Some implies l3_wf(
                    *self.children@[k]->Some_0,
                ) by {
                    if k != i as int {
                        assert(self.children@[k] == mid.children@[k]);
                    }
                }
            }
        }
        proof {
            assert forall|v2: u64| #[trigger] self.resolve(v2) == if same_page(v2, vaddr) {
                None::<(u64, u64)>
            } else {
                old(self).resolve(v2)
            } by {
                let k = spec_idx4(v2);
                if k == i as int {
                    assert(mid.children@[k] == self.children@[k] || self.resolve(v2)
                        == mid.resolve(v2));
                } else if k != 0 {
                    assert(mid.table.entries@[k] == old(self).table.entries@[k]);
                    assert(mid.children@[k] == old(self).children@[k]);
                } else {
                    assert(mid.children@[k] == old(self).children@[k]);
                }
            }
        }
        r
    }

    /// Rewrites the flags of the mapped page at `vaddr`, keeping its frame.
    fn change_flags_4k(&mut self, vaddr: u64, flags: u64)
        requires
            old(self).wf(),
            flags_wf(flags),
            old(self).resolve(vaddr) is Some,
        ensures
            final(self).wf(),
            forall|v2: u64|
                #[trigger] final(self).resolve(v2) == if same_page(v2, vaddr) {
                    flags_swapped(old(self).resolve(v2), flags)
                } else {
                    old(self).resolve(v2)
                },
    {
        broadcast use group_idx_bounds;

        let i = idx4(vaddr);
        match &mut self.children[i] {
            Some(c) => {
                l3_change(c, vaddr, flags);
                proof {
                    let newc = *self.children@[i as int]->Some_0;
                    let oldc = *old(self).children@[i as int]->Some_0;
                    assert forall|v2: u64| #[trigger] self.resolve(v2) == if same_page(v2, vaddr) {
                        flags_swapped(old(self).resolve(v2), flags)
                    } else {
                        old(self).resolve(v2)
                    } by {
                        if spec_idx4(v2) == i as int {
                            assert(self.resolve(v2) == l3_resolve(newc, v2));
                            assert(old(self).resolve(v2) == l3_resolve(oldc, v2));
                        } else {
                            assert(self.table.entries@[spec_idx4(v2)] == old(self).table.entries@[
                                spec_idx4(v2)]);
                            assert(self.children@[spec_idx4(v2)] == old(self).children@[spec_idx4(
                                v2,
                            )]);
                        }
                    }
                }
            },
            None => {
                proof {
                    assert(false);
                }
            },
        }
    }

    /// Rewrites the flags of every page in `[vaddr, vaddr + size)` without
    /// disturbing the frames, invalidating nothing outside the range.
    /// Fails with `InvalidRange`, changing nothing, when some page of the
    /// range is not mapped.
    pub fn change_flags_range(&mut self, vaddr: u64, size: u64, flags: u64) -> (r: Result<
        (),
        MemoryError,
    >)
        requires
            old(self).wf(),
            flags_wf(flags),
            vaddr % PAGE_SIZE == 0,
            size % PAGE_SIZE == 0,
            vaddr + size <= 0x1_0000_0000_0000,
        ensures
            final(self).wf(),
            match r {
                Ok(()) => forall|v2: u64|
                    #[trigger] final(self).resolve(v2) == if vaddr <= page_base(v2) < vaddr
                        + size {
                        flags_swapped(old(self).resolve(v2), flags)
                    } else {
                        old(self).resolve(v2)
                    },
                Err(e) => e == MemoryError::InvalidRange && *final(self) == *old(self) && exists|
                    k: int,
                |
                    0 <= k < size as int / PAGE_SIZE as int && #[trigger] old(self).resolve(
                        (vaddr + k * PAGE_SIZE) as u64,
                    ) is None,
            },
    {
        broadcast use group_idx_bounds;

        let pages = size / PAGE_SIZE;
        // First pass: the whole range must be mapped before anything is
        // touched.
        let mut k: u64 = 0;
        while k < pages
            invariant
                self == old(self),
                self.wf(),
                0 <= k <= pages,
                pages == size / PAGE_SIZE,
                vaddr + size <= 0x1_0000_0000_0000,
                vaddr % PAGE_SIZE == 0,
                size % PAGE_SIZE == 0,
                forall|j: int|
                    0 <= j < k ==> #[trigger] self.resolve((vaddr + j * PAGE_SIZE) as u64) is Some,
            decreases pages - k,
        {
            proof {
                assert(k * 4096 < size) by (nonlinear_arith)
                    requires
                        k < pages,
                        pages == size / 4096,
                        size % 4096 == 0,
                ;
            }
            let p = vaddr + k * PAGE_SIZE;
            if self.translate(p).is_none() {
                return Err(MemoryError::InvalidRange);
            }
            k += 1;
        }
        // Second pass: rewrite each page.
        let mut j: u64 = 0;
        while j < pages
            invariant
                self.wf(),
                0 <= j <= pages,
                pages == size / PAGE_SIZE,
                pages * PAGE_SIZE == size,
                vaddr + size <= 0x1_0000_0000_0000,
                vaddr % PAGE_SIZE == 0,
                size % PAGE_SIZE == 0,
                flags_wf(flags),
                forall|k2: int|
                    0 <= k2 < pages ==> #[trigger] old(self).resolve(
                        (vaddr + k2 * PAGE_SIZE) as u64,
                    ) is Some,
                forall|v2: u64|
                    !(vaddr <= #[trigger] page_base(v2) < vaddr + size) ==> self.resolve(v2) == old(self).resolve(v2),
                forall|v2: u64|
                    vaddr <= #[trigger] page_base(v2) < vaddr + j * PAGE_SIZE ==> self.resolve(v2)
                        == flags_swapped(old(self).resolve(v2), flags),
                forall|v2: u64|
                    vaddr + j * PAGE_SIZE <= #[trigger] page_base(v2) < vaddr + size
                        ==> self.resolve(v2) == old(self).resolve(v2),
            decreases pages - j,
        {
            proof {
                assert(j * 4096 < size && (j + 1) * 4096 <= size) by (nonlinear_arith)
                    requires
                        j < pages,
                        pages * 4096 == size,
                ;
            }
            let p = vaddr + j * PAGE_SIZE;
            proof {
                lemma_page_base_self(p);
                assert(page_base(p) == p);
                assert(old(self).resolve((vaddr + j as int * PAGE_SIZE) as u64) is Some);
            }
            let ghost before = *self;
            self.change_flags_4k(p, flags);
            proof {
                assert forall|v2: u64|
                    vaddr <= #[trigger] page_base(v2) < vaddr + (j + 1) * PAGE_SIZE implies
                    self.resolve(v2) == flags_swapped(old(self).resolve(v2), flags) by {
                    lemma_same_page_base(v2, p);
                    if same_page(v2, p) {
                        assert(before.resolve(v2) == old(self).resolve(v2));
                    } else {
                        assert(page_base(v2) != page_base(p));
                        assert(page_base(v2) % 4096 == 0 && p % 4096 == 0) by (bit_vector)
                            requires
                                page_base(v2) == v2 & 0xFFFF_FFFF_F000u64,
                                p % 4096 == 0,
                        ;
                        assert(page_base(v2) < p || page_base(v2) >= p + 4096);
                        assert(page_base(v2) < vaddr + j * PAGE_SIZE);
                    }
                }
                assert forall|v2: u64|
                    vaddr + (j + 1) * PAGE_SIZE <= #[trigger] page_base(v2) < vaddr + size implies
                    self.resolve(v2) == old(self).resolve(v2) by {
                    lemma_same_page_base(v2, p);
                }
                assert forall|v2: u64|
                    !(vaddr <= #[trigger] page_base(v2) < vaddr + size) implies self.resolve(v2)
                        == old(self).resolve(v2) by {
                    lemma_same_page_base(v2, p);
                }
            }
            j += 1;
        }
        Ok(())
    }
}

/// The bits of an address that pick its 4 KiB page, below the 48-bit
/// canonical boundary.
pub open spec fn page_base(v: u64) -> u64 {
    v & 0xFFFF_FFFF_F000
}

/// A page-aligned canonical address is its own page base.
pub proof fn lemma_page_base_self(p: u64)
    requires
        p % 4096 == 0,
        p < 0x1_0000_0000_0000,
    ensures
        page_base(p) == p,
{
    assert(p & 0xFFFF_FFFF_F000u64 == p) by (bit_vector)
        requires
            p % 4096 == 0,
            p < 0x1_0000_0000_0000u64,
    ;
}

/// Two addresses fall on the same page exactly when their page bases agree.
pub proof fn lemma_same_page_base(a: u64, b: u64)
    ensures
        same_page(a, b) <==> page_base(a) == page_base(b),
{
    assert((((a >> 39) & 0x1FF == (b >> 39) & 0x1FF) && ((a >> 30) & 0x1FF == (b >> 30) & 0x1FF)
        && ((a >> 21) & 0x1FF == (b >> 21) & 0x1FF) && ((a >> 12) & 0x1FF == (b >> 12) & 0x1FF))
        <==> (a & 0xFFFF_FFFF_F000u64 == b & 0xFFFF_FFFF_F000u64)) by (bit_vector);
}

impl ActiveMapping {
    /// Pre-creates the level-3, level-2 and level-1 tables covering the
    /// page at `vaddr`, so that a later leaf write cannot itself require
    /// frame allocation; resolves nothing differently. This breaks the
    /// ordering cycle between frame allocation and page-table allocation.
    pub fn ensure_4k_tables_exist(&mut self, fa: &mut FrameAllocator, vaddr: u64) -> (r: Result<
        (),
        MemoryError,
    >)
        requires
            old(self).wf(),
            old(fa).wf(),
            fa_fits(*old(fa)),
        ensures
            final(self).wf(),
            final(fa).wf(),
            final(fa).mem@ == old(fa).mem@,
            final(fa).reserved_end == old(fa).reserved_end,
            forall|v2: u64| #[trigger] final(self).resolve(v2) == old(self).resolve(v2),
            final(fa).free_list@.len() >= old(fa).free_list@.len() - 3,
            match r {
                Ok(()) => l1_path_exists(*final(self), vaddr),
                Err(e) => e == MemoryError::OutOfMemory && final(fa).free_list@.len() == 0,
            },
            old(fa).free_list@.len() >= 3 ==> r is Ok,
            l1_path_exists(*old(self), vaddr) ==> r is Ok && *final(fa) == *old(fa),
    {
        broadcast use group_idx_bounds;

        let i4 = idx4(vaddr);
        match self.next_table_may_create(fa, i4) {
            Ok(()) => {},
            Err(e) => {
                return Err(e);
            },
        }
        let ghost mid1 = *self;
        let res;
        match &mut self.children[i4] {
            Some(c3) => {
                res = l3_ensure_path(c3, fa, vaddr);
            },
            None => {
                proof {
                    assert(false);
                }
                res = Err(MemoryError::OutOfMemory);
            },
        }
        proof {
            assert forall|v2: u64| #[trigger] self.resolve(v2) == mid1.resolve(v2) by {
                if spec_idx4(v2) == i4 as int {
                    assert(self.resolve(v2) == l3_resolve(*self.children@[i4 as int]->Some_0, v2));
                    assert(mid1.resolve(v2) == l3_resolve(*mid1.children@[i4 as int]->Some_0, v2));
                } else {
                    assert(self.children@[spec_idx4(v2)] == mid1.children@[spec_idx4(v2)]);
                }
            }
        }
        res
    }

    /// Maps a fresh frame taken from the allocator at `vaddr`: the page
    /// tables are pre-created, a frame is popped, and the page is mapped
    /// to it, fused so that no scratch mapping is needed.
    pub fn map_page(
        &mut self,
        fa: &mut FrameAllocator,
        vaddr: u64,
        flags: u64,
        cache_type: CacheType,
    ) -> (r: Result<(), MemoryError>)
        requires
            old(self).wf(),
            old(fa).wf(),
            fa_fits(*old(fa)),
            flags_wf(flags),
        ensures
            final(self).wf(),
            final(fa).wf(),
            final(fa).mem@ == old(fa).mem@,
            final(fa).reserved_end == old(fa).reserved_end,
            match r {
                Ok(()) => !(old(self).resolve(vaddr) is Some) && (exists|f: u64|
                    (#[trigger] final(self).resolve(vaddr)) == Some(
                        (f, flags | cache_type.spec_flags()),
                    )) && forall|v2: u64|
                    !same_page(v2, vaddr) ==> #[trigger] final(self).resolve(v2) == old(
                        self,
                    ).resolve(v2),
                Err(e) => (e == MemoryError::AlreadyMapped ==> old(self).resolve(vaddr) is Some
                    && *final(self) == *old(self) && *final(fa) == *old(fa)) && (e
                    == MemoryError::OutOfMemory ==> final(fa).free_list@.len() == 0 && forall|
                    v2: u64,
                | #[trigger] final(self).resolve(v2) == old(self).resolve(v2)) && (e
                    == MemoryError::OutOfMemory || e == MemoryError::AlreadyMapped),
            },
            !(old(self).resolve(vaddr) is Some) && old(fa).free_list@.len() >= 4 ==> r is Ok,
            r is Ok ==> final(fa).free_list@.len() >= old(fa).free_list@.len() - 4,
            r == Err::<(), MemoryError>(MemoryError::OutOfMemory) ==> old(fa).free_list@.len()
                <= 3,
            // With the page tables already in place — the original's
            // contract for this fast path — the mapped frame is exactly
            // the old stack top, one frame is consumed, and failure
            // happens only on an empty stack.
            l1_path_exists(*old(self), vaddr) && !(old(self).resolve(vaddr) is Some) ==> match r {
                Ok(()) => old(fa).free_list@.len() >= 1 && final(self).resolve(vaddr) == Some(
                    ((old(fa).free_list@[0] * PAGE_SIZE) as u64, flags | cache_type.spec_flags()),
                ) && final(fa).free_list@ == old(fa).free_list@.skip(1),
                Err(e) => e == MemoryError::OutOfMemory && old(fa).free_list@.len() == 0,
            },
    {
        if self.translate(vaddr).is_some() {
            return Err(MemoryError::AlreadyMapped);
        }
        match self.ensure_4k_tables_exist(fa, vaddr) {
            Ok(()) => {},
            Err(e) => {
                return Err(e);
            },
        }
        let f = match fa.allocate() {
            Some(f) => f,
            None => {
                return Err(MemoryError::OutOfMemory);
            },
        };
        let paddr = f.0;
        proof {
            let ml = fa.mem@.len() as int;
            let fr = paddr as int;
            assert(fr % 4096 == 0);
            assert(fr < ml * 4096) by (nonlinear_arith)
                requires
                    fr >= 0,
                    ml >= 1,
                    fr <= (ml - 1) * 4096,
            ;
            lemma_frame_fits(paddr, fa.mem@.len() as u64 * PAGE_SIZE as int);
        }
        let res = self.map_4k(fa, vaddr, paddr, flags, cache_type);
        proof {
            if res is Ok {
                assert(same_page(vaddr, vaddr));
                assert(self.resolve(vaddr) == Some((paddr, flags | cache_type.spec_flags())));
            }
        }
        match res {
            Ok(()) => Ok(()),
            Err(e) => Err(e),
        }
    }
}

/// Pre-creates the level-2 and level-1 tables covering `v` below a
/// level-3 table.
fn l3_ensure_path(n: &mut L3Node, fa: &mut FrameAllocator, v: u64) -> (r: Result<(), MemoryError>)
    requires
        l3_wf(*old(n)),
        old(fa).wf(),
        fa_fits(*old(fa)),
    ensures
        l3_wf(*final(n)),
        final(fa).wf(),
        final(fa).mem@ == old(fa).mem@,
        final(fa).reserved_end == old(fa).reserved_end,
        forall|v2: u64| #[trigger] l3_resolve(*final(n), v2) == l3_resolve(*old(n), v2),
        final(fa).free_list@.len() >= old(fa).free_list@.len() - 2,
        match r {
            Ok(()) => final(n).children@[spec_idx3(v)] is Some && final(n).children@[spec_idx3(
                v,
            )]->Some_0.children@[spec_idx2(v)] is Some,
            Err(e) => e == MemoryError::OutOfMemory && final(fa).free_list@.len() == 0,
        },
        old(fa).free_list@.len() >= 2 ==> r is Ok,
        l3_path(*old(n), v) ==> r is Ok && *final(fa) == *old(fa),
{
    broadcast use group_idx_bounds;

    let i3 = idx3(v);
    let i2 = idx2(v);
    match l3_next_table_may_create(n, fa, i3) {
        Ok(()) => {},
        Err(e) => {
            return Err(e);
        },
    }
    let ghost mid = *n;
    let res;
    match &mut n.children[i3] {
        Some(c2) => {
            res = l2_next_table_may_create(c2, fa, i2);
        },
        None => {
            proof {
                assert(false);
            }
            res = Err(MemoryError::OutOfMemory);
        },
    }
    proof {
        assert forall|v2: u64| #[trigger] l3_resolve(*n, v2) == l3_resolve(mid, v2) by {
            if spec_idx3(v2) == i3 as int {
                assert(l3_resolve(*n, v2) == l2_resolve(*n.children@[i3 as int]->Some_0, v2));
                assert(l3_resolve(mid, v2) == l2_resolve(*mid.children@[i3 as int]->Some_0, v2));
            } else {
                assert(n.children@[spec_idx3(v2)] == mid.children@[spec_idx3(v2)]);
            }
        }
    }
    res
}

/// Used-count exactness: in a well-formed mapping, every live table's
/// used count equals the number of its present entries — the root's and,
/// through the node invariants, every lower table's. This holds after
/// any sequence of maps and unmaps, each of which keeps `wf`.
pub proof fn lemma_used_count_exact(am: ActiveMapping)
    requires
        am.wf(),
    ensures
        am.table.used_count_spec() == count_present(am.table.entries@),
        forall|i: int|
            0 <= i < 512 && (#[trigger] am.children@[i]) is Some
                ==> am.children@[i]->Some_0.table.used_count_spec() == count_present(
                am.children@[i]->Some_0.table.entries@,
            ),
{
}

} // verus!
