//! The context record visible to generated code: heap base pointer,
//! global slots, resolved function imports and table descriptors. Its
//! layout is stable; generated code reads fields by compile-time offset,
//! and the model carries the same content as plain values.

use vstd::prelude::*;

verus! {

/// One WebAssembly page of linear memory.
pub const WASM_PAGE_SIZE: u64 = 0x1_0000;

/// Maximum heap reservation of a module instance.
pub const HEAP_SIZE: u64 = 0x1_0000_0000;

/// Guard region behind every heap, so that out-of-bounds accesses fault
/// instead of aliasing.
pub const HEAP_GUARD_SIZE: u64 = 0x1_0000;

/// A host function the kernel exposes to modules.
#[derive(Clone, Copy, Debug, PartialEq, Eq, Structural)]
pub enum HostFunction {
    /// The built-in test shim behind the `os` module.
    TestShim,
    /// `wasi_snapshot_preview1::environ_sizes_get`.
    EnvironSizesGet,
    /// `wasi_snapshot_preview1::environ_get`.
    EnvironGet,
    /// `wasi_snapshot_preview1::fd_write`.
    FdWrite,
    /// `wasi_snapshot_preview1::proc_exit`.
    ProcExit,
    /// The runtime lowering of `memory.size`.
    MemorySize,
    /// The runtime lowering of `memory.grow`.
    MemoryGrow,
}

/// A resolved function import slot.
#[derive(Clone, Copy, Debug, PartialEq, Eq, Structural)]
pub struct VmFunctionImportEntry {
    pub host: HostFunction,
}

/// One slot of a WebAssembly table: the address of the function it holds
/// (0 while unpopulated).
#[derive(Clone, Copy, Debug, PartialEq, Eq, Structural)]
pub struct VmTableElement {
    pub address: u64,
}

/// A WebAssembly table: a fixed number of function slots.
pub struct WasmTable {
    pub elements: Vec<VmTableElement>,
}

impl WasmTable {
    /// A table of `minimum` empty slots.
    pub fn new(minimum: u32) -> (r: WasmTable)
        ensures
            r.elements@.len() == minimum,
            forall|i: int| 0 <= i < minimum ==> (#[trigger] r.elements@[i]).address == 0,
    {
        let mut elements: Vec<VmTableElement> = Vec::new();
        let mut i: u32 = 0;
        while i < minimum
            invariant
                i <= minimum,
                elements@.len() == i,
                forall|k: int| 0 <= k < i ==> (#[trigger] elements@[k]).address == 0,
            decreases minimum - i,
        {
            elements.push(VmTableElement { address: 0 });
            i += 1;
        }
        WasmTable { elements }
    }

    /// Writes one slot.
    pub fn set(&mut self, index: usize, element: VmTableElement)
        requires
            index < old(self).elements@.len(),
        ensures
            final(self).elements@ == old(self).elements@.update(index as int, element),
    {
        self.elements[index] = element;
    }
}

/// The fixed-layout record the generated code reads.
pub struct VmContextContainer {
    /// Base of the linear memory.
    pub heap_ptr: u64,
    /// One slot per module global.
    pub globals: Vec<i64>,
    /// One resolved entry per function import.
    pub function_imports: Vec<Option<VmFunctionImportEntry>>,
    /// The module's tables.
    pub tables: Vec<WasmTable>,
}

impl VmContextContainer {
    /// A container with unresolved imports and zeroed globals.
    pub fn new(heap_ptr: u64, num_globals: u32, num_imports: u32, tables: Vec<WasmTable>) -> (r:
        VmContextContainer)
        ensures
            r.heap_ptr == heap_ptr,
            r.globals@.len() == num_globals,
            r.function_imports@.len() == num_imports,
            forall|i: int| 0 <= i < num_imports ==> (#[trigger] r.function_imports@[i]) is None,
            r.tables == tables,
    {
        let mut globals: Vec<i64> = Vec::new();
        let mut i: u32 = 0;
        while i < num_globals
            invariant
                i <= num_globals,
                globals@.len() == i,
            decreases num_globals - i,
        {
            globals.push(0);
            i += 1;
        }
        let mut function_imports: Vec<Option<VmFunctionImportEntry>> = Vec::new();
        let mut k: u32 = 0;
        while k < num_imports
            invariant
                k <= num_imports,
                function_imports@.len() == k,
                forall|j: int| 0 <= j < k ==> (#[trigger] function_imports@[j]) is None,
            decreases num_imports - k,
        {
            function_imports.push(None);
            k += 1;
        }
        VmContextContainer { heap_ptr, globals, function_imports, tables }
    }

    /// Writes one global slot.
    pub fn set_global(&mut self, index: usize, value: i64)
        requires
            index < old(self).globals@.len(),
        ensures
            final(self).globals@ == old(self).globals@.update(index as int, value),
            final(self).heap_ptr == old(self).heap_ptr,
            final(self).function_imports == old(self).function_imports,
            final(self).tables == old(self).tables,
    {
        self.globals[index] = value;
    }

    /// Resolves one import slot.
    pub fn set_function_import(&mut self, index: usize, entry: VmFunctionImportEntry)
        requires
            index < old(self).function_imports@.len(),
        ensures
            final(self).function_imports@ == old(self).function_imports@.update(
                index as int,
                Some(entry),
            ),
            final(self).heap_ptr == old(self).heap_ptr,
            final(self).globals == old(self).globals,
            final(self).tables == old(self).tables,
    {
        self.function_imports[index] = Some(entry);
    }
}

} // verus!
