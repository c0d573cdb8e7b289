//! Relocation records collected during code emission, and the byte-level
//! writes that apply them to the code image.

use vstd::prelude::*;

verus! {

/// The kind of a relocation.
#[derive(Clone, Copy, Debug, PartialEq, Eq, Structural)]
pub enum RelocKind {
    /// 32-bit PC-relative.
    X86PCRel4,
    /// 32-bit PC-relative call.
    X86CallPCRel4,
    /// 64-bit absolute.
    Abs8,
    /// 32-bit PC-relative to co-located read-only data; nothing to do.
    X86PCRelRodata4,
    /// Any other kind; not supported.
    Other,
}

/// What a relocation points at.
#[derive(Clone, Copy, Debug, PartialEq, Eq, Structural)]
pub enum RelocationTarget {
    /// A function of the module, by its global function index.
    UserFunction(u32),
    /// A runtime function of the kernel, by its runtime index.
    RuntimeFunction(u32),
    /// A compiler support routine; not supported.
    LibCall,
    /// A jump table of the same function.
    JumpTable(u32),
}

/// One relocation within one function's code.
#[derive(Clone, Copy, Debug, PartialEq, Eq, Structural)]
pub struct Relocation {
    pub kind: RelocKind,
    pub code_offset: u32,
    pub target: RelocationTarget,
    pub addend: i64,
}

/// The machine code of one compiled function with its relocations and
/// jump-table offsets.
pub struct CompiledFunction {
    pub code: Vec<u8>,
    pub relocs: Vec<Relocation>,
    pub jt_offsets: Vec<u32>,
}

/// Byte `i` of the little-endian encoding of a 32-bit word.
pub open spec fn u32_le_byte(v: u64, i: int) -> u8 {
    ((v >> (8 * i)) & 0xFF) as u8
}

/// Byte `i` of the little-endian encoding of a 64-bit word.
pub open spec fn u64_le_byte(v: u64, i: int) -> u8 {
    ((v >> (8 * i)) & 0xFF) as u8
}

/// Writes a 32-bit word into the image, little endian.
pub fn write_u32_le(image: &mut Vec<u8>, offset: usize, v: u32)
    requires
        offset + 4 <= old(image)@.len(),
    ensures
        final(image)@.len() == old(image)@.len(),
        forall|i: int|
            0 <= i < 4 ==> #[trigger] final(image)@[offset + i] == u32_le_byte(v as u64, i),
        forall|i: int|
            0 <= i < old(image)@.len() && !(offset <= i < offset + 4) ==> #[trigger] final(image)@[i] == old(image)@[i],
{
    let ilen = image.len();
    let b0 = (v & 0xFF) as u8;
    let b1 = ((v >> 8u32) & 0xFF) as u8;
    let b2 = ((v >> 16u32) & 0xFF) as u8;
    let b3 = ((v >> 24u32) & 0xFF) as u8;
    proof {
        let v64 = v as u64;
        assert(((v & 0xFF) as u8) == ((v64 >> 0) & 0xFF) as u8 && (((v >> 8u32) & 0xFF) as u8) == ((
        v64 >> 8) & 0xFF) as u8 && (((v >> 16u32) & 0xFF) as u8) == ((v64 >> 16) & 0xFF) as u8 && ((
        (v >> 24u32) & 0xFF) as u8) == ((v64 >> 24) & 0xFF) as u8) by (bit_vector)
            requires
                v64 == v as u64,
        ;
    }
    image[offset] = b0;
    image[offset + 1] = b1;
    image[offset + 2] = b2;
    image[offset + 3] = b3;
}

/// Writes a 64-bit word into the image, little endian.
pub fn write_u64_le(image: &mut Vec<u8>, offset: usize, v: u64)
    requires
        offset + 8 <= old(image)@.len(),
    ensures
        final(image)@.len() == old(image)@.len(),
        forall|i: int| 0 <= i < 8 ==> #[trigger] final(image)@[offset + i] == u64_le_byte(v, i),
        forall|i: int|
            0 <= i < old(image)@.len() && !(offset <= i < offset + 8) ==> #[trigger] final(image)@[i] == old(image)@[i],
{
    let ilen = image.len();
    let mut k: usize = 0;
    while k < 8
        invariant
            k <= 8,
            ilen == image@.len(),
            offset + 8 <= image@.len(),
            image@.len() == old(image)@.len(),
            forall|i: int| 0 <= i < k ==> #[trigger] image@[offset + i] == u64_le_byte(v, i),
            forall|i: int|
                0 <= i < old(image)@.len() && !(offset <= i < offset + k) ==> #[trigger] image@[i]
                    == old(image)@[i],
        decreases 8 - k,
    {
        let sh = (8 * k) as u64;
        let b = ((v >> sh) & 0xFF) as u8;
        image[offset + k] = b;
        k += 1;
    }
}

} // verus!
