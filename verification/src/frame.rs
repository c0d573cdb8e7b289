//! The physical frame allocator.
//!
//! Instead of having a fixed area in the memory to keep the stack,
//! each free frame contains a pointer to the next free frame on the stack.
//! This limits the amount of virtual memory that must be reserved: when a
//! frame is allocated it is mapped anyway, and the next pointer is read
//! through that mapping.
//!
//! The model carries physical memory as one word per frame (`mem[f]` is the
//! first word of frame `f`), which is exactly the part of memory the
//! intrusive stack touches, and a ghost sequence `free_list` of the frame
//! numbers on the stack, top first.

use vstd::prelude::*;
use vstd::multiset::Multiset;
use vstd::seq_lib::lemma_multiset_commutative;

use crate::addr::{align_down_u64, align_up_u64, spec_align_down, spec_align_up, PhysAddr, PAGE_SIZE};

verus! {

/// Map result.
pub type MappingResult = Result<(), MappingError>;

/// Error during a mapping request.
#[derive(Clone, Copy, Debug, PartialEq, Eq, Structural)]
pub enum MappingError {
    /// Out of memory.
    OOM,
}

/// One usable region of the boot memory map: the half-open physical range
/// `[start, end)`.
#[derive(Clone, Copy, Debug, PartialEq, Eq, Structural)]
pub struct MemRegion {
    pub start: u64,
    pub end: u64,
}

/// The frame numbers a region contributes to the free stack, in ascending
/// order: the region clipped to `[reserved_end, ..)` and aligned inwards.
pub open spec fn region_frames(r: MemRegion, reserved_end: u64) -> Seq<u64> {
    let lo = region_lo(r, reserved_end);
    let hi = spec_align_down(r.end);
    if lo < hi {
        Seq::new(((hi - lo) / (PAGE_SIZE as int)) as nat, |i: int| (lo / PAGE_SIZE + i) as u64)
    } else {
        Seq::empty()
    }
}

/// The first usable byte a region contributes, after clipping and alignment.
pub open spec fn region_lo(r: MemRegion, reserved_end: u64) -> u64 {
    if spec_align_up(r.start) < reserved_end {
        reserved_end
    } else {
        spec_align_up(r.start)
    }
}

/// The frames every region of a memory map contributes, in map order.
pub open spec fn all_region_frames(regions: Seq<MemRegion>, reserved_end: u64) -> Seq<u64>
    decreases regions.len(),
{
    if regions.len() == 0 {
        Seq::empty()
    } else {
        region_frames(regions[0], reserved_end) + all_region_frames(regions.drop_first(), reserved_end)
    }
}

/// The default frame allocator.
pub struct FrameAllocator {
    /// End of the memory reserved for the kernel image and boot records;
    /// no frame below this address is ever handed out.
    pub reserved_end: PhysAddr,
    /// Physical address of the top of the free stack; null when empty.
    pub top: PhysAddr,
    /// First word of every physical frame, indexed by frame number.
    pub mem: Vec<u64>,
    /// The frame numbers on the free stack, top first.
    pub free_list: Ghost<Seq<u64>>,
}

impl FrameAllocator {
    /// The free stack is well formed: `top` points at the first free frame,
    /// every free frame is a distinct usable frame, and each free frame's
    /// first word holds the address of the next one (0 terminates).
    pub open spec fn wf(self) -> bool {
        &&& self.mem@.len() <= usize::MAX
        &&& self.mem.len() as u64 * PAGE_SIZE <= u64::MAX
        &&& self.top.0 as int == if self.free_list@.len() == 0 {
            0int
        } else {
            self.free_list@[0] * PAGE_SIZE
        }
        &&& forall|i: int|
            0 <= i < self.free_list@.len() ==> 1 <= #[trigger] self.free_list@[i]
                && self.free_list@[i] < self.mem.len()
        &&& forall|i: int, j: int|
            0 <= i < j < self.free_list@.len() ==> #[trigger] self.free_list@[i]
                != #[trigger] self.free_list@[j]
        &&& forall|i: int|
            0 <= i < self.free_list@.len() ==> self.mem@[#[trigger] self.free_list@[i] as int]
                == if i + 1 < self.free_list@.len() {
                (self.free_list@[i + 1] * PAGE_SIZE) as u64
            } else {
                0u64
            }
    }

    /// The multiset of free frame numbers, the allocator's abstract content.
    pub open spec fn free_frames(self) -> Multiset<u64> {
        self.free_list@.to_multiset()
    }

    /// Empty, uninitialized allocator.
    pub fn empty() -> (r: FrameAllocator)
        ensures
            r.wf(),
            r.free_list@.len() == 0,
            r.mem@.len() == 0,
    {
        FrameAllocator {
            reserved_end: PhysAddr::null(),
            top: PhysAddr::null(),
            mem: Vec::new(),
            free_list: Ghost(Seq::empty()),
        }
    }

    /// Initializes the allocator from the boot memory map. `frames` is the
    /// number of physical frames the machine has; the map's usable regions
    /// must lie within them and not overlap — the intrusive stack needs
    /// every frame threaded once — and are assumed sorted by address, the
    /// shape boot loaders hand over; a shuffled map would only change the
    /// stack's initial order.
    pub fn init(&mut self, regions: &Vec<MemRegion>, reserved_end: PhysAddr, frames: usize)
        requires
            old(self).free_list@.len() == 0,
            reserved_end.0 >= PAGE_SIZE,
            reserved_end.0 + PAGE_SIZE <= u64::MAX,
            frames as u64 * PAGE_SIZE <= u64::MAX,
            forall|i: int|
                0 <= i < regions@.len() ==> #[trigger] regions@[i].end <= frames as u64 * PAGE_SIZE,
            forall|i: int|
                0 <= i < regions@.len() ==> #[trigger] regions@[i].start + PAGE_SIZE <= u64::MAX,
            forall|i: int, i2: int|
                0 <= i < i2 < regions@.len() ==> #[trigger] regions@[i].end
                    <= #[trigger] regions@[i2].start,
        ensures
            final(self).wf(),
            final(self).reserved_end.0 == spec_align_up(reserved_end.0),
            final(self).free_list@ == all_region_frames(regions@, spec_align_up(reserved_end.0)),
    {
        self.reserved_end = reserved_end.align_up();
        let mut mem: Vec<u64> = Vec::new();
        let mut k: usize = 0;
        while k < frames
            invariant
                mem@.len() == k,
                k <= frames,
            decreases frames - k,
        {
            mem.push(0);
            k += 1;
        }
        self.mem = mem;
        self.apply_mmap(regions);
    }

    /// Applies the memory map: threads every usable frame onto the free
    /// stack, in address order, and writes the terminator.
    #[verifier::rlimit(80)]
    fn apply_mmap(&mut self, regions: &Vec<MemRegion>)
        requires
            old(self).free_list@.len() == 0,
            old(self).mem@.len() <= usize::MAX,
            old(self).mem@.len() as u64 * PAGE_SIZE <= u64::MAX,
            old(self).reserved_end.0 >= PAGE_SIZE,
            old(self).reserved_end.0 % PAGE_SIZE == 0,
            forall|i: int|
                0 <= i < regions@.len() ==> #[trigger] regions@[i].end
                    <= old(self).mem@.len() as u64 * PAGE_SIZE,
            forall|i: int|
                0 <= i < regions@.len() ==> #[trigger] regions@[i].start + PAGE_SIZE <= u64::MAX,
            forall|i: int, i2: int|
                0 <= i < i2 < regions@.len() ==> #[trigger] regions@[i].end
                    <= #[trigger] regions@[i2].start,
        ensures
            final(self).wf(),
            final(self).reserved_end == old(self).reserved_end,
            final(self).free_list@ == all_region_frames(regions@, old(self).reserved_end.0),
            final(self).mem@.len() == old(self).mem@.len(),
    {
        let reserved = self.reserved_end.0;
        let ghost mut acc: Seq<u64> = Seq::empty();
        // Physical address that will become the top of the stack (0: none yet).
        let mut top: u64 = 0;
        // Frame number of the previously threaded frame (0: none yet).
        let mut prev: u64 = 0;
        let mut j: usize = 0;
        while j < regions.len()
            invariant
                j <= regions@.len(),
                self.mem@.len() == old(self).mem@.len(),
                self.mem@.len() <= usize::MAX,
                self.mem@.len() as u64 * PAGE_SIZE <= u64::MAX,
                self.reserved_end.0 == reserved,
                reserved >= PAGE_SIZE,
                reserved % PAGE_SIZE == 0,
                forall|i: int|
                    0 <= i < regions@.len() ==> #[trigger] regions@[i].end
                        <= self.mem@.len() as u64 * PAGE_SIZE,
                forall|i: int|
                    0 <= i < regions@.len() ==> #[trigger] regions@[i].start + PAGE_SIZE
                        <= u64::MAX,
                forall|i: int, i2: int|
                    0 <= i < i2 < regions@.len() ==> #[trigger] regions@[i].end
                        <= #[trigger] regions@[i2].start,
                acc == all_region_frames(regions@.take(j as int), reserved),
                // Frames threaded so far are usable, ascending, and chained.
                forall|i: int|
                    0 <= i < acc.len() ==> 1 <= #[trigger] acc[i] && acc[i] < self.mem@.len(),
                forall|i: int, i2: int|
                    0 <= i < i2 < acc.len() ==> #[trigger] acc[i] < #[trigger] acc[i2],
                forall|i: int|
                    0 <= i < acc.len() - 1 ==> self.mem@[#[trigger] acc[i] as int]
                        == (acc[i + 1] * PAGE_SIZE) as u64,
                acc.len() == 0 <==> prev == 0,
                acc.len() == 0 ==> top == 0,
                acc.len() > 0 ==> top == acc[0] * PAGE_SIZE && prev == acc[acc.len() - 1]
                    && prev >= 1,
                // Frames of regions not yet processed lie above every frame so far.
                forall|i: int|
                    j <= i < regions@.len() && prev != 0 ==> prev * PAGE_SIZE < region_lo(
                        #[trigger] regions@[i],
                        reserved,
                    ),
            decreases regions@.len() - j,
        {
            let region = regions[j];
            let mut lo = align_up_u64(region.start);
            if lo < reserved {
                lo = reserved;
            }
            let hi = align_down_u64(region.end);
            proof {
                lemma_all_region_frames_take_step(regions@, reserved, j as int);
                assert(lo == region_lo(regions@[j as int], reserved));
            }
            let ghost rf = region_frames(regions@[j as int], reserved);
            let ghost rfl: int = rf.len() as int;
            proof {
                if lo < hi {
                    assert(rfl == (hi - lo) / (PAGE_SIZE as int));
                    assert(rfl * 4096 == hi - lo) by (nonlinear_arith)
                        requires
                            rfl == (hi - lo) / 4096,
                            hi % 4096 == 0,
                            lo % 4096 == 0,
                            lo < hi,
                    ;
                } else {
                    assert(rf =~= Seq::<u64>::empty());
                }
            }
            let mut cur = lo;
            let ghost mut done: int = 0;
            let ghost mut thr: Seq<u64> = acc;
            while cur < hi
                invariant
                    self.mem@.len() == old(self).mem@.len(),
                    self.mem@.len() <= usize::MAX,
                    self.mem@.len() as u64 * PAGE_SIZE <= u64::MAX,
                    self.reserved_end.0 == reserved,
                    cur % PAGE_SIZE == 0,
                    lo % PAGE_SIZE == 0,
                    hi % PAGE_SIZE == 0,
                    hi <= self.mem@.len() as u64 * PAGE_SIZE,
                    lo >= PAGE_SIZE,
                    rfl == rf.len() as int,
                    lo < hi ==> rfl * 4096 == hi - lo && (forall|i: int|
                        0 <= i < rfl ==> #[trigger] rf[i] == lo / PAGE_SIZE + i),
                    0 <= done <= rfl,
                    cur == lo + done * PAGE_SIZE,
                    cur >= hi ==> done == rfl,
                    thr == acc + rf.take(done),
                    forall|i: int|
                        0 <= i < thr.len() ==> 1 <= #[trigger] thr[i] && thr[i] < self.mem@.len(),
                    forall|i: int, i2: int|
                        0 <= i < i2 < thr.len() ==> #[trigger] thr[i] < #[trigger] thr[i2],
                    forall|i: int|
                        0 <= i < thr.len() - 1 ==> self.mem@[#[trigger] thr[i] as int]
                            == (thr[i + 1] * PAGE_SIZE) as u64,
                    thr.len() == 0 <==> prev == 0,
                    thr.len() == 0 ==> top == 0,
                    thr.len() > 0 ==> top == thr[0] * PAGE_SIZE && prev == thr[thr.len() - 1]
                        && prev >= 1 && prev * PAGE_SIZE < cur,
                decreases hi - cur,
            {
                let frame_no = cur / PAGE_SIZE;
                proof {
                    assert(frame_no < self.mem@.len() && frame_no * PAGE_SIZE == cur && frame_no
                        >= 1) by (nonlinear_arith)
                        requires
                            frame_no == cur / PAGE_SIZE,
                            cur < hi,
                            hi <= self.mem@.len() as u64 * PAGE_SIZE,
                            cur % PAGE_SIZE == 0,
                            cur >= lo,
                            lo >= PAGE_SIZE,
                            PAGE_SIZE == 4096,
                    ;
                    assert(done < rfl) by (nonlinear_arith)
                        requires
                            cur == lo + done * PAGE_SIZE,
                            cur < hi,
                            rfl * 4096 == hi - lo,
                            PAGE_SIZE == 4096,
                    ;
                    assert(rf[done] == lo / PAGE_SIZE + done);
                    assert(lo / PAGE_SIZE + done == frame_no) by (nonlinear_arith)
                        requires
                            frame_no == cur / PAGE_SIZE,
                            cur == lo + done * PAGE_SIZE,
                            lo % PAGE_SIZE == 0,
                            done >= 0,
                            PAGE_SIZE == 4096,
                    ;
                    if thr.len() > 0 {
                        assert(prev < frame_no) by (nonlinear_arith)
                            requires
                                prev * PAGE_SIZE < cur,
                                frame_no * PAGE_SIZE == cur,
                                PAGE_SIZE == 4096,
                        ;
                    }
                }
                let ghost old_thr = thr;
                let ghost old_prev = prev;
                let ghost old_mem = self.mem@;
                if prev == 0 {
                    top = cur;
                } else {
                    let p = prev as usize;
                    self.mem[p] = cur;
                }
                prev = frame_no;
                proof {
                    assert(rf.take(done + 1) =~= rf.take(done).push(frame_no));
                    assert(acc + rf.take(done + 1) =~= thr.push(frame_no));
                    thr = thr.push(frame_no);
                    done = done + 1;
                    assert forall|i: int|
                        0 <= i < thr.len() - 1 implies self.mem@[#[trigger] thr[i] as int]
                        == (thr[i + 1] * PAGE_SIZE) as u64 by {
                        if i < old_thr.len() - 1 {
                            assert(old_thr[i] < old_thr[old_thr.len() - 1]);
                            assert(self.mem@[thr[i] as int] == old_mem[thr[i] as int]);
                        } else {
                            assert(thr[i] == old_prev && thr[i + 1] == frame_no);
                            assert(self.mem@[old_prev as int] == cur);
                            assert(frame_no * PAGE_SIZE == cur);
                        }
                    }
                }
                cur = cur + PAGE_SIZE;
                proof {
                    assert(cur >= hi ==> done == rfl) by (nonlinear_arith)
                        requires
                            cur == lo + done * PAGE_SIZE,
                            done <= rfl,
                            rfl * 4096 == hi - lo,
                            PAGE_SIZE == 4096,
                    ;
                }
            }
            proof {
                assert(rf.take(rfl) =~= rf);
                if !(lo < hi) {
                    assert(thr =~= acc + rf);
                }
                let prev_acc = acc;
                acc = acc + rf;
                assert(acc =~= thr);
                assert(acc =~= all_region_frames(regions@.take(j as int + 1), reserved));
                // Frames of later regions lie above everything threaded so far:
                // this region's frames end below the next region's clipped start.
                if rfl > 0 {
                    assert(prev == rf[rfl - 1]);
                    assert(prev * PAGE_SIZE == hi - PAGE_SIZE) by (nonlinear_arith)
                        requires
                            prev == lo / PAGE_SIZE + rfl - 1,
                            rfl * 4096 == hi - lo,
                            lo % PAGE_SIZE == 0,
                            PAGE_SIZE == 4096,
                            rfl > 0,
                    ;
                    assert forall|i: int|
                        j + 1 <= i < regions@.len() && prev != 0 implies prev * PAGE_SIZE
                        < region_lo(#[trigger] regions@[i], reserved) by {
                        assert(regions@[j as int].end <= regions@[i].start);
                        assert(hi <= regions@[j as int].end);
                        assert(lo <= prev * PAGE_SIZE);
                        if spec_align_up(regions@[i].start) < reserved {
                            // Impossible: this region's frames sit at or above
                            // `reserved`, yet below the next region's start.
                            assert(prev * PAGE_SIZE < regions@[i].start);
                            assert(reserved <= lo);
                            assert(false);
                        } else {
                            assert(regions@[i].start <= spec_align_up(regions@[i].start));
                        }
                    }
                }
            }
            j += 1;
        }
        // Write the terminator into the last threaded frame.
        if prev != 0 {
            let p = prev as usize;
            self.mem[p] = 0;
        }
        self.top = PhysAddr::new(top);
        proof {
            assert(regions@.take(regions@.len() as int) =~= regions@);
            self.free_list@ = acc;
            assert forall|i: int|
                0 <= i < acc.len() implies self.mem@[#[trigger] acc[i] as int] == if i + 1
                < acc.len() {
                (acc[i + 1] * PAGE_SIZE) as u64
            } else {
                0u64
            } by {
                if i + 1 < acc.len() {
                    assert(acc[i] < acc[acc.len() - 1]);
                    assert(acc[i + 1] < self.mem@.len());
                    assert(acc[i + 1] * PAGE_SIZE < self.mem@.len() as int * 4096)
                        by (nonlinear_arith)
                        requires
                            acc[i + 1] < self.mem@.len(),
                            PAGE_SIZE == 4096,
                    ;
                } else {
                    assert(acc[i] == prev);
                }
            }
        }
    }

    /// Pops the top frame of the free stack; `None` means out of memory.
    pub fn allocate(&mut self) -> (r: Option<PhysAddr>)
        requires
            old(self).wf(),
        ensures
            final(self).wf(),
            final(self).mem@ == old(self).mem@,
            final(self).reserved_end == old(self).reserved_end,
            match r {
                None => old(self).free_list@.len() == 0 && final(self).free_list@ == old(self).free_list@,
                Some(f) => old(self).free_list@.len() > 0 && f.0 == old(self).free_list@[0]
                    * PAGE_SIZE && f.0 % PAGE_SIZE == 0 && f.0 > 0 && final(self).free_list@ == old(self).free_list@.drop_first() && final(self).free_frames() == old(self).free_frames().remove((f.0 / PAGE_SIZE) as u64),
            },
    {
        if self.top.is_null() {
            return None;
        }
        let f = self.top;
        let frame_no = (f.0 / PAGE_SIZE) as usize;
        proof {
            let f0 = self.free_list@[0] as int;
            assert(f0 * 4096 / 4096 == f0 && f0 * 4096 % 4096 == 0 && (self.mem@.len() as int - 1)
                * 4096 < self.mem@.len() as int * 4096) by (nonlinear_arith)
                requires
                    f0 >= 0,
                    self.mem@.len() >= 1,
            ;
            assert(f0 * 4096 <= (self.mem@.len() as int - 1) * 4096) by (nonlinear_arith)
                requires
                    f0 <= self.mem@.len() as int - 1,
            ;
        }
        let next = self.mem[frame_no];
        self.top = PhysAddr::new(next);
        proof {
            let popped = self.free_list@[0];
            self.free_list@ = self.free_list@.drop_first();
            self.free_list@.to_multiset_ensures();
            old(self).free_list@.to_multiset_ensures();
            assert(old(self).free_list@ =~= seq![popped] + self.free_list@);
            lemma_multiset_commutative(seq![popped], self.free_list@);
            seq![popped].to_multiset_ensures();
            assert(seq![popped] =~= Seq::<u64>::empty().push(popped));
            Seq::<u64>::empty().to_multiset_ensures();
            assert(seq![popped].to_multiset() =~= Multiset::<u64>::empty().insert(popped));
            assert(old(self).free_frames() =~= self.free_frames().insert(popped));
            assert(old(self).free_frames().remove(popped) =~= self.free_frames());
        }
        Some(f)
    }

    /// Pushes a frame back onto the free stack. The frame must be a usable
    /// frame that is not already free — the caller owns it.
    pub fn free(&mut self, frame: PhysAddr)
        requires
            old(self).wf(),
            frame.0 % PAGE_SIZE == 0,
            PAGE_SIZE <= frame.0,
            frame.0 < old(self).mem@.len() as u64 * PAGE_SIZE,
            !old(self).free_list@.contains((frame.0 / PAGE_SIZE) as u64),
        ensures
            final(self).wf(),
            final(self).reserved_end == old(self).reserved_end,
            final(self).mem@.len() == old(self).mem@.len(),
            final(self).free_list@ == seq![(frame.0 / PAGE_SIZE) as u64] + old(self).free_list@,
            final(self).free_frames() == old(self).free_frames().insert(
                (frame.0 / PAGE_SIZE) as u64,
            ),
    {
        let frame_no = (frame.0 / PAGE_SIZE) as usize;
        proof {
            assert(frame_no >= 1 && frame_no < self.mem@.len() && frame_no as u64 * PAGE_SIZE
                == frame.0) by (nonlinear_arith)
                requires
                    frame_no == frame.0 / PAGE_SIZE,
                    frame.0 % PAGE_SIZE == 0,
                    PAGE_SIZE <= frame.0,
                    frame.0 < self.mem@.len() as u64 * PAGE_SIZE,
                    PAGE_SIZE == 4096,
            ;
        }
        self.mem[frame_no] = self.top.0;
        self.top = frame;
        proof {
            self.free_list@ = seq![frame_no as u64] + self.free_list@;
            old(self).free_list@.to_multiset_ensures();
            lemma_multiset_commutative(seq![frame_no as u64], old(self).free_list@);
            seq![frame_no as u64].to_multiset_ensures();
            assert(seq![frame_no as u64] =~= Seq::<u64>::empty().push(frame_no as u64));
            Seq::<u64>::empty().to_multiset_ensures();
            assert(self.free_frames() =~= old(self).free_frames().insert(frame_no as u64));
        }
    }

    /// Consumes the top of the stack and moves it. This is the fast path for
    /// page-table allocation: the caller receives the popped frame, which it
    /// has to map itself; the allocator reads the next top from the frame.
    pub fn consume_and_move_top(&mut self) -> (r: Result<PhysAddr, MappingError>)
        requires
            old(self).wf(),
        ensures
            final(self).wf(),
            final(self).mem@ == old(self).mem@,
            final(self).reserved_end == old(self).reserved_end,
            match r {
                Err(e) => e == MappingError::OOM && old(self).free_list@.len() == 0 && final(self).free_list@ == old(self).free_list@,
                Ok(f) => old(self).free_list@.len() > 0 && f.0 == old(self).free_list@[0]
                    * PAGE_SIZE && f.0 % PAGE_SIZE == 0 && f.0 > 0 && final(self).free_list@
                    == old(self).free_list@.drop_first(),
            },
    {
        match self.allocate() {
            Some(f) => Ok(f),
            None => Err(MappingError::OOM),
        }
    }
}

/// Splitting a memory map after its first `j + 1` regions splits the frame
/// sequence it contributes at the same place.
proof fn lemma_all_region_frames_take_step(regions: Seq<MemRegion>, reserved_end: u64, j: int)
    requires
        0 <= j < regions.len(),
    ensures
        all_region_frames(regions.take(j + 1), reserved_end) == all_region_frames(
            regions.take(j),
            reserved_end,
        ) + region_frames(regions[j], reserved_end),
    decreases j,
{
    if j == 0 {
        assert(regions.take(1).drop_first() =~= Seq::<MemRegion>::empty());
        assert(regions.take(0) =~= Seq::<MemRegion>::empty());
        assert(all_region_frames(regions.take(1), reserved_end) =~= region_frames(
            regions[0],
            reserved_end,
        ));
        assert(all_region_frames(regions.take(0), reserved_end) + region_frames(
            regions[0],
            reserved_end,
        ) =~= region_frames(regions[0], reserved_end));
    } else {
        lemma_all_region_frames_take_step(regions.drop_first(), reserved_end, j - 1);
        assert(regions.take(j + 1).drop_first() =~= regions.drop_first().take(j));
        assert(regions.take(j).drop_first() =~= regions.drop_first().take(j - 1));
        assert(regions.drop_first()[j - 1] == regions[j]);
        assert(all_region_frames(regions.take(j + 1), reserved_end) =~= region_frames(
            regions[0],
            reserved_end,
        ) + all_region_frames(regions.drop_first().take(j), reserved_end));
        assert(all_region_frames(regions.take(j), reserved_end) =~= region_frames(
            regions[0],
            reserved_end,
        ) + all_region_frames(regions.drop_first().take(j - 1), reserved_end));
        assert(all_region_frames(regions.take(j + 1), reserved_end) =~= all_region_frames(
            regions.take(j),
            reserved_end,
        ) + region_frames(regions[j], reserved_end));
    }
}

/// Frame round-trip: allocating `n` frames and then returning them, in any
/// order, leaves the allocator's free multiset equal to the initial one.
/// Allocation pops the head of the free list, so after `n` allocations the
/// frames handed out are `initial.take(n)` and the list is `initial.skip(n)`;
/// returning prepends, so the final list is some `returned + initial.skip(n)`.
pub proof fn lemma_frame_round_trip(initial: Seq<u64>, returned: Seq<u64>, n: int)
    requires
        0 <= n <= initial.len(),
        returned.to_multiset() == initial.take(n).to_multiset(),
    ensures
        (returned + initial.skip(n)).to_multiset() == initial.to_multiset(),
{
    lemma_multiset_commutative(returned, initial.skip(n));
    lemma_multiset_commutative(initial.take(n), initial.skip(n));
    assert(initial.take(n) + initial.skip(n) =~= initial);
}

} // verus!
