//! The computable part of the boot handoff: choosing paging flags for
//! each kernel ELF section from the flags the boot record carries. The
//! boot record itself is read by unverified startup code, which hands
//! these plain values in.

use vstd::prelude::*;

use crate::table::{flags_wf, NX, PRESENT, WRITABLE};

verus! {

/// The paging flags a kernel ELF section is mapped with, or `None` for
/// a section that is not mapped at all: one with no flags, or plain
/// writable data that the boot loader already placed.
pub fn section_paging_flags(writable: bool, executable: bool, allocated: bool) -> (r: Option<u64>)
    ensures
        r is None <==> (!writable && !executable && !allocated) || (writable && allocated
            && !executable),
        r matches Some(f) ==> flags_wf(f) && f == PRESENT | (if writable {
            WRITABLE
        } else {
            0u64
        }) | (if !executable {
            NX
        } else {
            0u64
        }),
{
    if !writable && !executable && !allocated {
        return None;
    }
    if writable && allocated && !executable {
        return None;
    }
    let mut paging_flags: u64 = PRESENT;
    if writable {
        paging_flags = paging_flags | WRITABLE;
    }
    if !executable {
        paging_flags = paging_flags | NX;
    }
    proof {
        lemma_section_flags();
    }
    Some(paging_flags)
}

/// Every combination the section mapper builds is a well-formed flag
/// word.
proof fn lemma_section_flags()
    ensures
        flags_wf(PRESENT),
        flags_wf(PRESENT | WRITABLE),
        flags_wf(PRESENT | NX),
        flags_wf(PRESENT | WRITABLE | NX),
        PRESENT | 0u64 == PRESENT,
        (PRESENT | WRITABLE) | 0u64 == PRESENT | WRITABLE,
        (PRESENT | 0u64) | NX == PRESENT | NX,
        (PRESENT | 0u64) | 0u64 == PRESENT,
{
    assert({
        let p = 1u64;
        let w = 2u64;
        let n = 0x8000_0000_0000_0000u64;
        let m = 0x8000_0000_0000_009Bu64;
        (p & m == p) && (p & 1 == 1) && ((p | w) & m == (p | w)) && ((p | w) & 1 == 1) && ((p | n)
            & m == (p | n)) && ((p | n) & 1 == 1) && ((p | w | n) & m == (p | w | n)) && ((p | w
            | n) & 1 == 1) && (p | 0 == p) && ((p | w) | 0 == (p | w)) && ((p | 0) | n == (p
            | n)) && ((p | 0) | 0 == p)
    }) by (bit_vector);
}

} // verus!
