//! Page tables and their entries.
//!
//! An entry is a 64-bit word carrying flag bits and a physical frame
//! address. Entry 0 of every table doubles as the table's **used count**:
//! the number of present entries, kept in the architecturally available
//! bits 52..62, which coexist with a mapping installed at entry 0.
//!
//! A table is level-parameterised so that "next table" operations exist
//! only for the hierarchical levels (4, 3 and 2), never for level 1.

use core::marker::PhantomData;
use vstd::prelude::*;

verus! {

/// Entry flag: the mapping is present.
pub const PRESENT: u64 = 1;

/// Entry flag: the mapping is writable.
pub const WRITABLE: u64 = 2;

/// Entry flag: write-through caching.
pub const CACHE_WRITE_THROUGH: u64 = 8;

/// Entry flag: caching disabled.
pub const CACHE_DISABLE: u64 = 16;

/// Entry flag: 2 MiB huge page (only meaningful at level 2).
pub const HUGE_PAGE: u64 = 128;

/// Entry flag: no-execute.
pub const NX: u64 = 0x8000_0000_0000_0000;

/// All bits an entry's flags may carry.
pub const FLAGS_MASK: u64 = 0x8000_0000_0000_009B;

/// The bits of an entry that hold the physical frame address.
pub const ADDR_MASK: u64 = 0x000F_FFFF_FFFF_F000;

/// The available bits of entry 0 that hold the used count.
pub const COUNT_MASK: u64 = 0x3FF0_0000_0000_0000;

/// Cache hint for a new mapping.
#[derive(Clone, Copy, Debug, PartialEq, Eq, Structural)]
pub enum CacheType {
    WriteBack,
    WriteThrough,
    Uncached,
}

impl CacheType {
    /// The flag bits this cache hint adds to an entry.
    pub fn to_flags(self) -> (r: u64)
        ensures
            r == self.spec_flags(),
    {
        match self {
            CacheType::WriteBack => 0,
            CacheType::WriteThrough => CACHE_WRITE_THROUGH,
            CacheType::Uncached => CACHE_DISABLE,
        }
    }

    pub open spec fn spec_flags(self) -> u64 {
        match self {
            CacheType::WriteBack => 0u64,
            CacheType::WriteThrough => CACHE_WRITE_THROUGH,
            CacheType::Uncached => CACHE_DISABLE,
        }
    }
}

pub open spec fn entry_present(w: u64) -> bool {
    w & PRESENT == PRESENT
}

pub open spec fn entry_huge(w: u64) -> bool {
    w & HUGE_PAGE == HUGE_PAGE
}

pub open spec fn entry_flags(w: u64) -> u64 {
    w & FLAGS_MASK
}

pub open spec fn entry_addr(w: u64) -> u64 {
    w & ADDR_MASK
}

pub open spec fn entry_count(w: u64) -> u64 {
    (w >> 52) & 0x3FF
}

/// Flags are well formed when they carry only flag bits and PRESENT is set.
pub open spec fn flags_wf(flags: u64) -> bool {
    flags & FLAGS_MASK == flags && flags & PRESENT == PRESENT
}

/// A frame address fits an entry: page-aligned, below 2^52.
pub open spec fn frame_addr_wf(addr: u64) -> bool {
    addr & ADDR_MASK == addr
}

/// The number of present entries of a table.
pub open spec fn count_present(s: Seq<u64>) -> int
    decreases s.len(),
{
    if s.len() == 0 {
        0
    } else {
        count_present(s.drop_last()) + if entry_present(s.last()) {
            1int
        } else {
            0int
        }
    }
}

/// How updating one entry changes the number of present entries.
pub proof fn lemma_count_present_update(s: Seq<u64>, i: int, w: u64)
    requires
        0 <= i < s.len(),
    ensures
        count_present(s.update(i, w)) == count_present(s) - (if entry_present(s[i]) {
            1int
        } else {
            0int
        }) + (if entry_present(w) {
            1int
        } else {
            0int
        }),
    decreases s.len(),
{
    if i == s.len() - 1 {
        assert(s.update(i, w).drop_last() =~= s.drop_last());
    } else {
        assert(s.update(i, w).drop_last() =~= s.drop_last().update(i, w));
        lemma_count_present_update(s.drop_last(), i, w);
    }
}

/// `count_present` never exceeds the table's length.
pub proof fn lemma_count_present_bound(s: Seq<u64>)
    ensures
        0 <= count_present(s) <= s.len(),
    decreases s.len(),
{
    if s.len() > 0 {
        lemma_count_present_bound(s.drop_last());
    }
}

/// A word for a new mapping: the frame address and the flags, count bits 0.
fn make_word(addr: u64, flags: u64) -> (w: u64)
    requires
        frame_addr_wf(addr),
        flags & FLAGS_MASK == flags,
    ensures
        entry_addr(w) == addr,
        entry_flags(w) == flags,
        entry_count(w) == 0,
        entry_present(w) == (flags & PRESENT == PRESENT),
        entry_huge(w) == (flags & HUGE_PAGE == HUGE_PAGE),
{
    let w = addr | flags;
    proof {
        assert(w & ADDR_MASK == addr && w & FLAGS_MASK == flags && (w >> 52) & 0x3FF == 0 && (w
            & PRESENT == PRESENT) == (flags & PRESENT == PRESENT) && (w & HUGE_PAGE == HUGE_PAGE)
            == (flags & HUGE_PAGE == HUGE_PAGE)) by (bit_vector)
            requires
                w == addr | flags,
                addr & 0x000F_FFFF_FFFF_F000u64 == addr,
                flags & 0x8000_0000_0000_009Bu64 == flags,
        ;
    }
    w
}

/// The word with its count bits replaced.
fn with_count(w: u64, count: u64) -> (r: u64)
    requires
        count < 1024,
    ensures
        entry_count(r) == count,
        entry_addr(r) == entry_addr(w),
        entry_flags(r) == entry_flags(w),
        entry_present(r) == entry_present(w),
        entry_huge(r) == entry_huge(w),
{
    let r = (w & !COUNT_MASK) | (count << 52u64);
    proof {
        assert((r >> 52) & 0x3FF == count && r & ADDR_MASK == w & ADDR_MASK && r & FLAGS_MASK == w
            & FLAGS_MASK && (r & PRESENT == PRESENT) == (w & PRESENT == PRESENT) && (r & HUGE_PAGE
            == HUGE_PAGE) == (w & HUGE_PAGE == HUGE_PAGE)) by (bit_vector)
            requires
                r == (w & !0x3FF0_0000_0000_0000u64) | (count << 52u64),
                count < 1024,
        ;
    }
    r
}

/// The word with everything but its count bits cleared.
fn clear_keep_count(w: u64) -> (r: u64)
    ensures
        entry_count(r) == entry_count(w),
        entry_addr(r) == 0,
        entry_flags(r) == 0,
        !entry_present(r),
        r & COUNT_MASK == r,
{
    let r = w & COUNT_MASK;
    proof {
        assert((r >> 52) & 0x3FF == (w >> 52) & 0x3FF && r & ADDR_MASK == 0 && r & FLAGS_MASK == 0
            && r & PRESENT != PRESENT && r & 0x3FF0_0000_0000_0000u64 == r) by (bit_vector)
            requires
                r == w & 0x3FF0_0000_0000_0000u64,
        ;
    }
    r
}

/// The count bits of a word.
fn count_of(w: u64) -> (r: u64)
    ensures
        r == entry_count(w),
        r < 1024,
{
    let r = (w >> 52u64) & 0x3FF;
    proof {
        assert(r == (w >> 52) & 0x3FF && r < 1024) by (bit_vector)
            requires
                r == (w >> 52u64) & 0x3FF,
        ;
    }
    r
}

/// A table level.
pub trait Level {

}

/// A level that owns a next, lower level: 4, 3 and 2, never 1.
pub trait HierarchicalLevel: Level {
    type NextLevel: Level;
}

pub struct Level4 {}

pub struct Level3 {}

pub struct Level2 {}

pub struct Level1 {}

impl Level for Level4 {

}

impl Level for Level3 {

}

impl Level for Level2 {

}

impl Level for Level1 {

}

impl HierarchicalLevel for Level4 {
    type NextLevel = Level3;
}

impl HierarchicalLevel for Level3 {
    type NextLevel = Level2;
}

impl HierarchicalLevel for Level2 {
    type NextLevel = Level1;
}

/// A 512-entry page table of level `L`.
pub struct Table<L: Level> {
    pub entries: Vec<u64>,
    pub level: PhantomData<L>,
}

impl<L: Level> Table<L> {
    /// A table has 512 entries.
    pub open spec fn wf(self) -> bool {
        self.entries@.len() == 512
    }

    /// The used count is exact: entry 0 carries the number of present
    /// entries.
    pub open spec fn count_exact(self) -> bool {
        entry_count(self.entries@[0]) == count_present(self.entries@)
    }

    /// A fresh, zero-cleared table.
    pub fn new() -> (r: Table<L>)
        ensures
            r.wf(),
            r.count_exact(),
            forall|i: int| 0 <= i < 512 ==> #[trigger] r.entries@[i] == 0,
            r.used_count_spec() == 0,
    {
        let mut entries: Vec<u64> = Vec::new();
        let mut i: usize = 0;
        while i < 512
            invariant
                i <= 512,
                entries@.len() == i,
                forall|k: int| 0 <= k < i ==> #[trigger] entries@[k] == 0,
            decreases 512 - i,
        {
            entries.push(0);
            i += 1;
        }
        let t = Table { entries, level: PhantomData };
        proof {
            lemma_count_present_zero(t.entries@);
            assert(entry_count(0) == 0) by (bit_vector);
        }
        t
    }

    /// The used count entry 0 carries.
    pub open spec fn used_count_spec(self) -> u64 {
        entry_count(self.entries@[0])
    }

    /// Clears the table entries. (internal use only)
    pub fn clear(&mut self)
        requires
            old(self).wf(),
        ensures
            final(self).wf(),
            final(self).count_exact(),
            forall|i: int| 0 <= i < 512 ==> #[trigger] final(self).entries@[i] == 0,
    {
        let mut i: usize = 0;
        while i < 512
            invariant
                i <= 512,
                self.entries@.len() == 512,
                forall|k: int| 0 <= k < i ==> #[trigger] self.entries@[k] == 0,
            decreases 512 - i,
        {
            self.entries[i] = 0;
            i += 1;
        }
        proof {
            lemma_count_present_zero(self.entries@);
            assert(entry_count(0) == 0) by (bit_vector);
        }
    }

    /// Gets the used count.
    pub fn used_count(&self) -> (r: u64)
        requires
            self.wf(),
        ensures
            r == self.used_count_spec(),
            r < 1024,
    {
        count_of(self.entries[0])
    }

    /// Sets the used count.
    pub fn set_used_count(&mut self, count: u64)
        requires
            old(self).wf(),
            count < 1024,
        ensures
            final(self).wf(),
            final(self).used_count_spec() == count,
            final(self).entries@ == old(self).entries@.update(
                0,
                final(self).entries@[0],
            ),
            entry_addr(final(self).entries@[0]) == entry_addr(old(self).entries@[0]),
            entry_flags(final(self).entries@[0]) == entry_flags(old(self).entries@[0]),
            entry_present(final(self).entries@[0]) == entry_present(old(self).entries@[0]),
            count_present(final(self).entries@) == count_present(old(self).entries@),
    {
        let w = with_count(self.entries[0], count);
        proof {
            lemma_count_present_update(self.entries@, 0, w);
        }
        self.entries[0] = w;
        proof {
            assert(final(self).entries@ =~= old(self).entries@.update(0, w));
        }
    }

    /// Increases the used count.
    pub fn increase_used_count(&mut self)
        requires
            old(self).wf(),
            old(self).used_count_spec() < 1023,
        ensures
            final(self).wf(),
            final(self).used_count_spec() == old(self).used_count_spec() + 1,
            final(self).entries@ == old(self).entries@.update(
                0,
                final(self).entries@[0],
            ),
            entry_addr(final(self).entries@[0]) == entry_addr(old(self).entries@[0]),
            entry_flags(final(self).entries@[0]) == entry_flags(old(self).entries@[0]),
            entry_present(final(self).entries@[0]) == entry_present(old(self).entries@[0]),
            count_present(final(self).entries@) == count_present(old(self).entries@),
    {
        let c = self.used_count();
        self.set_used_count(c + 1);
    }

    /// Decreases the used count.
    pub fn decrease_used_count(&mut self)
        requires
            old(self).wf(),
            old(self).used_count_spec() >= 1,
        ensures
            final(self).wf(),
            final(self).used_count_spec() == old(self).used_count_spec() - 1,
            final(self).entries@ == old(self).entries@.update(
                0,
                final(self).entries@[0],
            ),
            entry_addr(final(self).entries@[0]) == entry_addr(old(self).entries@[0]),
            entry_flags(final(self).entries@[0]) == entry_flags(old(self).entries@[0]),
            entry_present(final(self).entries@[0]) == entry_present(old(self).entries@[0]),
            count_present(final(self).entries@) == count_present(old(self).entries@),
    {
        let c = self.used_count();
        self.set_used_count(c - 1);
    }

    /// Writes the entry at `index` with a new mapping, bumping the used
    /// count when the slot was not present before.
    pub fn entry_modifier(&mut self, index: usize, addr: u64, flags: u64)
        requires
            old(self).wf(),
            index < 512,
            frame_addr_wf(addr),
            flags_wf(flags),
            old(self).count_exact(),
        ensures
            final(self).wf(),
            final(self).count_exact(),
            forall|k: int|
                0 <= k < 512 && k != 0 && k != index ==> #[trigger] final(self).entries@[k] == old(
                    self,
                ).entries@[k],
            entry_addr(final(self).entries@[index as int]) == addr,
            entry_flags(final(self).entries@[index as int]) == flags,
            entry_present(final(self).entries@[index as int]),
            entry_huge(final(self).entries@[index as int]) == (flags & HUGE_PAGE == HUGE_PAGE),
            index != 0 ==> entry_addr(final(self).entries@[0]) == entry_addr(old(self).entries@[0])
                && entry_flags(final(self).entries@[0]) == entry_flags(old(self).entries@[0])
                && entry_present(final(self).entries@[0]) == entry_present(old(self).entries@[0]),
            count_present(final(self).entries@) == count_present(old(self).entries@) + (
            if entry_present(old(self).entries@[index as int]) {
                0int
            } else {
                1int
            }),
    {
        proof {
            lemma_count_present_bound(self.entries@);
        }
        let was_present = entry_is_present(self.entries[index]);
        if !was_present {
            self.increase_used_count();
        }
        let w = make_word(addr, flags);
        let w = if index == 0 {
            let keep = clear_keep_count(self.entries[0]);
            let combined = w | keep;
            proof {
                lemma_or_count_only(w, keep);
            }
            combined
        } else {
            w
        };
        proof {
            lemma_count_present_update(self.entries@, index as int, w);
        }
        self.entries[index] = w;
        proof {
            assert(final(self).entries@ =~= self.entries@);
        }
    }

    /// Overwrites the flags of the present entry at `index`, keeping its
    /// frame address.
    pub fn change_entry_flags(&mut self, index: usize, flags: u64)
        requires
            old(self).wf(),
            index < 512,
            flags_wf(flags),
            old(self).count_exact(),
            entry_present(old(self).entries@[index as int]),
        ensures
            final(self).wf(),
            final(self).count_exact(),
            forall|k: int|
                0 <= k < 512 && k != 0 && k != index ==> #[trigger] final(self).entries@[k] == old(
                    self,
                ).entries@[k],
            entry_addr(final(self).entries@[index as int]) == entry_addr(
                old(self).entries@[index as int],
            ),
            entry_flags(final(self).entries@[index as int]) == flags,
            entry_present(final(self).entries@[index as int]),
            index != 0 ==> entry_addr(final(self).entries@[0]) == entry_addr(old(self).entries@[0])
                && entry_flags(final(self).entries@[0]) == entry_flags(old(self).entries@[0])
                && entry_present(final(self).entries@[0]) == entry_present(old(self).entries@[0])
                && final(self).used_count_spec() == old(self).used_count_spec(),
            count_present(final(self).entries@) == count_present(old(self).entries@),
    {
        let addr = entry_addr_of(self.entries[index]);
        let w = make_word(addr, flags);
        let w = if index == 0 {
            let keep = clear_keep_count(self.entries[0]);
            let combined = w | keep;
            proof {
                lemma_or_count_only(w, keep);
            }
            combined
        } else {
            w
        };
        proof {
            lemma_count_present_update(self.entries@, index as int, w);
        }
        self.entries[index] = w;
        proof {
            assert(final(self).entries@ =~= self.entries@);
        }
    }

    /// Clears the entry at `index`, lowering the used count when the slot
    /// was present.
    pub fn clear_entry(&mut self, index: usize)
        requires
            old(self).wf(),
            index < 512,
            old(self).count_exact(),
        ensures
            final(self).wf(),
            final(self).count_exact(),
            forall|k: int|
                0 <= k < 512 && k != 0 && k != index ==> #[trigger] final(self).entries@[k] == old(
                    self,
                ).entries@[k],
            !entry_present(final(self).entries@[index as int]),
            entry_addr(final(self).entries@[index as int]) == 0,
            entry_flags(final(self).entries@[index as int]) == 0,
            index != 0 ==> entry_addr(final(self).entries@[0]) == entry_addr(old(self).entries@[0])
                && entry_flags(final(self).entries@[0]) == entry_flags(old(self).entries@[0])
                && entry_present(final(self).entries@[0]) == entry_present(old(self).entries@[0]),
            count_present(final(self).entries@) == count_present(old(self).entries@) - (
            if entry_present(old(self).entries@[index as int]) {
                1int
            } else {
                0int
            }),
    {
        proof {
            lemma_count_present_pointwise(self.entries@, index as int);
        }
        let was_present = entry_is_present(self.entries[index]);
        if was_present {
            self.decrease_used_count();
        }
        let w = if index == 0 {
            clear_keep_count(self.entries[0])
        } else {
            0
        };
        proof {
            lemma_count_present_update(self.entries@, index as int, w);
            assert(!entry_present(0u64) && entry_addr(0u64) == 0 && entry_flags(0u64) == 0)
                by (bit_vector);
        }
        self.entries[index] = w;
        proof {
            assert(final(self).entries@ =~= self.entries@);
        }
    }
}

/// Whether a word has its PRESENT bit set.
pub fn entry_is_present(w: u64) -> (r: bool)
    ensures
        r == entry_present(w),
{
    w & PRESENT == PRESENT
}

/// The physical frame address a word carries.
pub fn entry_addr_of(w: u64) -> (r: u64)
    ensures
        r == entry_addr(w),
        frame_addr_wf(r),
{
    let r = w & ADDR_MASK;
    proof {
        assert(r & 0x000F_FFFF_FFFF_F000u64 == r) by (bit_vector)
            requires
                r == w & 0x000F_FFFF_FFFF_F000u64,
        ;
    }
    r
}

/// The flag bits a word carries.
pub fn entry_flags_of(w: u64) -> (r: u64)
    ensures
        r == entry_flags(w),
{
    w & FLAGS_MASK
}

/// Adding cache-hint bits to well-formed flags keeps them well formed.
pub proof fn lemma_flags_with_cache(flags: u64, cache: u64)
    requires
        flags_wf(flags),
        cache == 0 || cache == CACHE_WRITE_THROUGH || cache == CACHE_DISABLE,
    ensures
        flags_wf(flags | cache),
{
    assert(((flags | cache) & 0x8000_0000_0000_009Bu64 == (flags | cache)) && ((flags | cache)
        & 1u64 == 1u64)) by (bit_vector)
        requires
            flags & 0x8000_0000_0000_009Bu64 == flags,
            flags & 1u64 == 1u64,
            cache == 0u64 || cache == 8u64 || cache == 16u64,
    ;
}

/// A zero-filled table has no present entries.
proof fn lemma_count_present_zero(s: Seq<u64>)
    requires
        forall|i: int| 0 <= i < s.len() ==> #[trigger] s[i] == 0,
    ensures
        count_present(s) == 0,
    decreases s.len(),
{
    assert(!entry_present(0u64)) by (bit_vector);
    if s.len() > 0 {
        lemma_count_present_zero(s.drop_last());
    }
}

/// A table whose used count is zero has no present entries.
pub proof fn lemma_count_zero_no_present(s: Seq<u64>)
    requires
        count_present(s) == 0,
    ensures
        forall|i: int| 0 <= i < s.len() ==> !entry_present(#[trigger] s[i]),
    decreases s.len(),
{
    if s.len() > 0 {
        lemma_count_present_bound(s.drop_last());
        lemma_count_zero_no_present(s.drop_last());
        assert forall|i: int| 0 <= i < s.len() implies !entry_present(#[trigger] s[i]) by {
            if i < s.len() - 1 {
                assert(s[i] == s.drop_last()[i]);
            }
        }
    }
}

/// A present entry means the count of present entries is at least one.
proof fn lemma_count_present_pointwise(s: Seq<u64>, i: int)
    requires
        0 <= i < s.len(),
    ensures
        entry_present(s[i]) ==> count_present(s) >= 1,
    decreases s.len(),
{
    if i == s.len() - 1 {
        lemma_count_present_bound(s.drop_last());
    } else {
        lemma_count_present_pointwise(s.drop_last(), i);
    }
}

/// Combining a freshly made word (count bits zero) with a count-only word
/// keeps the mapping of the first and the count of the second.
proof fn lemma_or_count_only(w: u64, keep: u64)
    requires
        entry_count(w) == 0,
        keep & COUNT_MASK == keep,
    ensures
        entry_addr(w | keep) == entry_addr(w),
        entry_flags(w | keep) == entry_flags(w),
        entry_present(w | keep) == entry_present(w),
        entry_huge(w | keep) == entry_huge(w),
        entry_count(w | keep) == entry_count(keep),
{
    assert((w | keep) & ADDR_MASK == w & ADDR_MASK && (w | keep) & FLAGS_MASK == w & FLAGS_MASK && (
    (w | keep) & PRESENT == PRESENT) == (w & PRESENT == PRESENT) && ((w | keep) & HUGE_PAGE
        == HUGE_PAGE) == (w & HUGE_PAGE == HUGE_PAGE) && ((w | keep) >> 52) & 0x3FF == (keep >> 52)
        & 0x3FF) by (bit_vector)
        requires
            (w >> 52) & 0x3FF == 0,
            keep & 0x3FF0_0000_0000_0000u64 == keep,
    ;
}

} // verus!
