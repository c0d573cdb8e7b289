//! The compile-and-instantiate pipeline: a module binary is parsed, each
//! defined function is compiled by a code generator, the code is emitted
//! into a writable region, relocations are resolved, the region flips
//! once from writable/no-execute to read-execute, imports and tables and
//! data initializers populate the context record, and a runnable thread
//! comes out.
//!
//! The compiler back-end is abstract: anything that can turn one defined
//! function into machine code with relocation records (the `CodeGenerator`
//! trait) can drive this pipeline; the contracts here cover everything
//! around that call.

use vstd::prelude::*;

use crate::addr::{spec_align_up, PAGE_SIZE};
use crate::frame::FrameAllocator;
use crate::paging::{fa_fits, page_base, ActiveMapping, MemoryError};
use crate::table::{flags_wf, NX, PRESENT, WRITABLE};
use crate::thread::{Thread, ThreadStatus};
use crate::vma::{LazilyMappedVma, MappedVma, VmaAllocator};
use crate::wasm::module_env::{
    parse_module, DataInitializer, Export, ExportEntry, FunctionImport, GlobalInit, MemoryLimits,
    ModuleEnv, TableElements, TableLimits, WasmError,
};
use crate::wasm::reloc::{
    write_u32_le, write_u64_le, CompiledFunction, RelocKind, Relocation, RelocationTarget,
};
use crate::wasm::vmctx::{
    HostFunction, VmContextContainer, VmFunctionImportEntry, VmTableElement, WasmTable,
    HEAP_GUARD_SIZE, HEAP_SIZE, WASM_PAGE_SIZE,
};

verus! {

/// Runtime-function index of `memory.size`.
pub const RUNTIME_MEMORY_SIZE_IDX: u32 = 0;

/// Runtime-function index of `memory.grow`.
pub const RUNTIME_MEMORY_GROW_IDX: u32 = 1;

/// The largest code section the pipeline accepts.
pub const MAX_TOTAL_CODE: u64 = 0x1000_0000;

/// Error of the compile-and-instantiate pipeline.
#[derive(Clone, Copy, Debug, PartialEq, Eq, Structural)]
pub enum Error {
    /// WebAssembly translation error.
    WasmError(WasmError),
    /// Code generation error.
    CodegenError,
    /// Memory error.
    MemoryError(MemoryError),
    /// No start specified.
    NoStart,
    /// An import or relocation target is not implemented.
    UnsupportedImport,
}

/// The host addresses of the runtime functions generated code calls;
/// the machine supplies real function pointers here.
#[derive(Clone, Copy, Debug, PartialEq, Eq, Structural)]
pub struct HostAddresses {
    pub memory_size: u64,
    pub memory_grow: u64,
}

/// A compiler back-end: turns the defined function `defined_index` of a
/// parsed module into machine code and relocation records.
pub trait CodeGenerator {
    fn compile_function(&mut self, env: &ModuleEnv, defined_index: usize) -> Result<
        CompiledFunction,
        Error,
    >;
}

/// Immutable product of compilation.
pub struct CompileResult {
    pub contexts: Vec<CompiledFunction>,
    pub start_func: Option<u32>,
    pub memories: Vec<MemoryLimits>,
    pub data_initializers: Vec<DataInitializer>,
    pub function_imports: Vec<FunctionImport>,
    pub tables: Vec<TableLimits>,
    pub table_elements: Vec<TableElements>,
    pub globals: Vec<GlobalInit>,
    pub total_size: u64,
}

/// The size of the code region a module of `total_size` code bytes
/// gets: the total rounded up to a page, at least one page.
pub open spec fn spec_code_len(total_size: u64) -> u64 {
    if spec_align_up(total_size) == 0 {
        PAGE_SIZE as u64
    } else {
        spec_align_up(total_size)
    }
}

/// The bytes of the first `n` compiled functions, in order.
pub open spec fn concat_code(cs: Seq<CompiledFunction>) -> Seq<u8>
    decreases cs.len(),
{
    if cs.len() == 0 {
        Seq::empty()
    } else {
        concat_code(cs.drop_last()) + cs.last().code@
    }
}

/// The summed code size of the compiled functions.
pub open spec fn code_sizes(cs: Seq<CompiledFunction>) -> int
    decreases cs.len(),
{
    if cs.len() == 0 {
        0
    } else {
        code_sizes(cs.drop_last()) + cs.last().code@.len()
    }
}

proof fn lemma_concat_len(cs: Seq<CompiledFunction>)
    ensures
        concat_code(cs).len() == code_sizes(cs),
    decreases cs.len(),
{
    if cs.len() > 0 {
        lemma_concat_len(cs.drop_last());
    }
}

proof fn lemma_code_take_step(cs: Seq<CompiledFunction>, i: int)
    requires
        0 <= i < cs.len(),
    ensures
        concat_code(cs.take(i + 1)) == concat_code(cs.take(i)) + cs[i].code@,
        code_sizes(cs.take(i + 1)) == code_sizes(cs.take(i)) + cs[i].code@.len(),
{
    assert(cs.take(i + 1).drop_last() =~= cs.take(i));
    assert(cs.take(i + 1).last() == cs[i]);
}

impl CompileResult {
    /// The module-level indices recorded in the result are in range and
    /// the code sizes add up.
    pub open spec fn wf(self) -> bool {
        &&& self.function_imports@.len() <= 0x10_0000
        &&& self.contexts@.len() <= 0x10_0000
        &&& code_sizes(self.contexts@) == self.total_size
        &&& self.total_size <= MAX_TOTAL_CODE
        &&& match self.start_func {
            Some(i) => i < self.function_imports@.len() + self.contexts@.len(),
            None => true,
        }
        &&& forall|s: int|
            0 <= s < self.table_elements@.len() ==> (#[trigger] self.table_elements@[s]).index
                < self.tables@.len() && forall|j: int|
                0 <= j < self.table_elements@[s].elements@.len()
                    ==> #[trigger] self.table_elements@[s].elements@[j]
                    < self.function_imports@.len() + self.contexts@.len()
        &&& forall|d: int|
            0 <= d < self.data_initializers@.len()
                ==> (#[trigger] self.data_initializers@[d]).memory_index < self.memories@.len()
    }

    /// Compile result to instantiation.
    pub fn instantiate(&self) -> (r: Instantiation)
        ensures
            r.func_offsets@.len() == 0,
    {
        Instantiation::new(self)
    }
}

/// `"_start"`.
pub open spec fn name_start() -> Seq<u8> {
    seq![0x5Fu8, 0x73u8, 0x74u8, 0x61u8, 0x72u8, 0x74u8]
}

/// `"os"`.
pub open spec fn name_os() -> Seq<u8> {
    seq![0x6Fu8, 0x73u8]
}

/// `"wasi_snapshot_preview1"`.
pub open spec fn name_wasi() -> Seq<u8> {
    seq![
        0x77u8, 0x61u8, 0x73u8, 0x69u8, 0x5Fu8, 0x73u8, 0x6Eu8, 0x61u8, 0x70u8, 0x73u8, 0x68u8,
        0x6Fu8, 0x74u8, 0x5Fu8, 0x70u8, 0x72u8, 0x65u8, 0x76u8, 0x69u8, 0x65u8, 0x77u8, 0x31u8,
    ]
}

/// `"environ_sizes_get"`.
pub open spec fn name_environ_sizes_get() -> Seq<u8> {
    seq![
        0x65u8, 0x6Eu8, 0x76u8, 0x69u8, 0x72u8, 0x6Fu8, 0x6Eu8, 0x5Fu8, 0x73u8, 0x69u8, 0x7Au8,
        0x65u8, 0x73u8, 0x5Fu8, 0x67u8, 0x65u8, 0x74u8,
    ]
}

/// `"environ_get"`.
pub open spec fn name_environ_get() -> Seq<u8> {
    seq![0x65u8, 0x6Eu8, 0x76u8, 0x69u8, 0x72u8, 0x6Fu8, 0x6Eu8, 0x5Fu8, 0x67u8, 0x65u8, 0x74u8]
}

/// `"fd_write"`.
pub open spec fn name_fd_write() -> Seq<u8> {
    seq![0x66u8, 0x64u8, 0x5Fu8, 0x77u8, 0x72u8, 0x69u8, 0x74u8, 0x65u8]
}

/// `"proc_exit"`.
pub open spec fn name_proc_exit() -> Seq<u8> {
    seq![0x70u8, 0x72u8, 0x6Fu8, 0x63u8, 0x5Fu8, 0x65u8, 0x78u8, 0x69u8, 0x74u8]
}

/// The host target an import resolves to, if any: anything under `os`
/// goes to the test shim; the four supported WASI functions go to their
/// shims; everything else is unsupported.
pub open spec fn spec_resolve_import(module: Seq<u8>, field: Seq<u8>) -> Option<HostFunction> {
    if module == name_os() {
        Some(HostFunction::TestShim)
    } else if module == name_wasi() {
        if field == name_environ_sizes_get() {
            Some(HostFunction::EnvironSizesGet)
        } else if field == name_environ_get() {
            Some(HostFunction::EnvironGet)
        } else if field == name_fd_write() {
            Some(HostFunction::FdWrite)
        } else if field == name_proc_exit() {
            Some(HostFunction::ProcExit)
        } else {
            None
        }
    } else {
        None
    }
}

/// Whether two byte vectors hold the same bytes.
fn bytes_eq(a: &Vec<u8>, b: &Vec<u8>) -> (r: bool)
    ensures
        r == (a@ == b@),
{
    if a.len() != b.len() {
        proof {
            assert(a@ != b@);
        }
        return false;
    }
    let mut i: usize = 0;
    while i < a.len()
        invariant
            i <= a@.len(),
            a@.len() == b@.len(),
            forall|k: int| 0 <= k < i ==> #[trigger] a@[k] == b@[k],
        decreases a@.len() - i,
    {
        if a[i] != b[i] {
            proof {
                assert(a@[i as int] != b@[i as int]);
            }
            return false;
        }
        i += 1;
    }
    proof {
        assert(a@ =~= b@);
    }
    true
}

/// Resolves one import by `(module, field)` to its host target.
pub fn resolve_import(module: &Vec<u8>, field: &Vec<u8>) -> (r: Result<HostFunction, Error>)
    ensures
        match r {
            Ok(h) => spec_resolve_import(module@, field@) == Some(h),
            Err(e) => e == Error::UnsupportedImport && spec_resolve_import(module@, field@)
                is None,
        },
{
    let os: Vec<u8> = vec![0x6F, 0x73];
    let wasi: Vec<u8> = vec![
        0x77, 0x61, 0x73, 0x69, 0x5F, 0x73, 0x6E, 0x61, 0x70, 0x73, 0x68, 0x6F, 0x74, 0x5F, 0x70,
        0x72, 0x65, 0x76, 0x69, 0x65, 0x77, 0x31,
    ];
    proof {
        assert(os@ =~= name_os());
        assert(wasi@ =~= name_wasi());
    }
    if bytes_eq(module, &os) {
        return Ok(HostFunction::TestShim);
    }
    if !bytes_eq(module, &wasi) {
        return Err(Error::UnsupportedImport);
    }
    let environ_sizes_get: Vec<u8> = vec![
        0x65, 0x6E, 0x76, 0x69, 0x72, 0x6F, 0x6E, 0x5F, 0x73, 0x69, 0x7A, 0x65, 0x73, 0x5F, 0x67,
        0x65, 0x74,
    ];
    let environ_get: Vec<u8> = vec![
        0x65, 0x6E, 0x76, 0x69, 0x72, 0x6F, 0x6E, 0x5F, 0x67, 0x65, 0x74,
    ];
    let fd_write: Vec<u8> = vec![0x66, 0x64, 0x5F, 0x77, 0x72, 0x69, 0x74, 0x65];
    let proc_exit: Vec<u8> = vec![0x70, 0x72, 0x6F, 0x63, 0x5F, 0x65, 0x78, 0x69, 0x74];
    proof {
        assert(environ_sizes_get@ =~= name_environ_sizes_get());
        assert(environ_get@ =~= name_environ_get());
        assert(fd_write@ =~= name_fd_write());
        assert(proc_exit@ =~= name_proc_exit());
    }
    if bytes_eq(field, &environ_sizes_get) {
        Ok(HostFunction::EnvironSizesGet)
    } else if bytes_eq(field, &environ_get) {
        Ok(HostFunction::EnvironGet)
    } else if bytes_eq(field, &fd_write) {
        Ok(HostFunction::FdWrite)
    } else if bytes_eq(field, &proc_exit) {
        Ok(HostFunction::ProcExit)
    } else {
        Err(Error::UnsupportedImport)
    }
}

/// The start function a module environment selects: the declared one,
/// else the first function exported as `_start`.
pub open spec fn spec_select_start(env: ModuleEnv) -> Option<u32> {
    match env.start_func {
        Some(i) => Some(i),
        None => spec_find_start_export(env.exports@, 0),
    }
}

/// The first function exported as `_start` at or after position `i`.
pub open spec fn spec_find_start_export(exports: Seq<ExportEntry>, i: int) -> Option<u32>
    decreases exports.len() - i,
{
    if i < 0 || i >= exports.len() {
        None
    } else if exports[i].name@ == name_start() && (exports[i].export is Function) {
        Some(exports[i].export->Function_0)
    } else {
        spec_find_start_export(exports, i + 1)
    }
}

/// A found `_start` export respects the module's function-index bound.
proof fn lemma_find_start_bound(exports: Seq<ExportEntry>, i: int, total: int)
    requires
        forall|e: int|
            0 <= e < exports.len() ==> match (#[trigger] exports[e]).export {
                Export::Function(f) => f < total,
                _ => true,
            },
    ensures
        match spec_find_start_export(exports, i) {
            Some(f) => f < total,
            None => true,
        },
    decreases exports.len() - i,
{
    if 0 <= i < exports.len() {
        if !(exports[i].name@ == name_start() && (exports[i].export is Function)) {
            lemma_find_start_bound(exports, i + 1, total);
        }
    }
}

/// Compiles a parsed module: every defined function is handed to the
/// code generator, in order, and the start function is selected — the
/// declared one, else the `_start` export. Everything the environment
/// recorded is carried into the result unchanged.
pub fn compile_env<G: CodeGenerator>(env: ModuleEnv, generator: &mut G) -> (r: Result<
    CompileResult,
    Error,
>)
    requires
        env.wf(),
    ensures
        match r {
            Ok(cr) => cr.wf() && cr.contexts@.len() == env.func_bodies@.len() && cr.start_func
                == spec_select_start(env) && cr.function_imports == env.function_imports
                && cr.memories == env.memories && cr.data_initializers == env.data_initializers
                && cr.tables == env.tables && cr.table_elements == env.table_elements && cr.globals
                == env.globals && cr.total_size == code_sizes(cr.contexts@),
            Err(_) => true,
        },
        // A module with no defined functions asks nothing of the
        // generator: compilation succeeds.
        env.func_bodies@.len() == 0 ==> r is Ok,
{
    let defined_function_offset = env.function_imports.len();
    let mut contexts: Vec<CompiledFunction> = Vec::new();
    let mut total_size: u64 = 0;
    let mut idx: usize = 0;
    while idx < env.func_bodies.len()
        invariant
            idx <= env.func_bodies@.len(),
            env.wf(),
            contexts@.len() == idx,
            code_sizes(contexts@) == total_size,
            total_size <= MAX_TOTAL_CODE,
        decreases env.func_bodies@.len() - idx,
    {
        let ctx = match generator.compile_function(&env, idx) {
            Ok(c) => c,
            Err(e) => {
                return Err(e);
            },
        };
        if ctx.code.len() as u64 > MAX_TOTAL_CODE - total_size {
            return Err(Error::CodegenError);
        }
        proof {
            lemma_code_take_step(contexts@.push(ctx), contexts@.len() as int);
            assert(contexts@.push(ctx).take(contexts@.len() as int) =~= contexts@);
            assert(contexts@.push(ctx).take(contexts@.len() as int + 1) =~= contexts@.push(ctx));
        }
        total_size = total_size + ctx.code.len() as u64;
        contexts.push(ctx);
        idx += 1;
    }
    // Determine the start function. If none is declared, search for
    // `_start`.
    let mut start_func = env.start_func;
    if start_func.is_none() {
        let start_name: Vec<u8> = vec![0x5F, 0x73, 0x74, 0x61, 0x72, 0x74];
        proof {
            assert(start_name@ =~= name_start());
        }
        let mut e: usize = 0;
        let mut found: Option<u32> = None;
        while e < env.exports.len()
            invariant
                e <= env.exports@.len(),
                start_name@ == name_start(),
                match found {
                    Some(f) => spec_find_start_export(env.exports@, 0) == Some(f),
                    None => spec_find_start_export(env.exports@, 0) == spec_find_start_export(
                        env.exports@,
                        e as int,
                    ),
                },
            decreases env.exports@.len() - e,
        {
            if found.is_none() {
                if let Export::Function(i) = env.exports[e].export {
                    if bytes_eq(&env.exports[e].name, &start_name) {
                        found = Some(i);
                    }
                }
            }
            e += 1;
        }
        start_func = found;
    }
    proof {
        if start_func is Some {
            lemma_find_start_bound(
                env.exports@,
                0,
                env.function_imports@.len() + env.func_bodies@.len() as int,
            );
        }
    }
    if let Some(i) = start_func {
        if i as usize >= defined_function_offset + contexts.len() {
            // Unreachable: a well-formed module bounds both the
            // declared start and every function export.
            return Err(Error::WasmError(WasmError::Malformed));
        }
    }
    Ok(
        CompileResult {
            contexts,
            start_func,
            memories: env.memories,
            data_initializers: env.data_initializers,
            function_imports: env.function_imports,
            tables: env.tables,
            table_elements: env.table_elements,
            globals: env.globals,
            total_size,
        },
    )
}

/// Compiles a WebAssembly buffer: the module is parsed, then compiled.
pub fn compile<G: CodeGenerator>(buffer: &[u8], generator: &mut G) -> (r: Result<
    CompileResult,
    Error,
>)
    ensures
        match r {
            Ok(cr) => cr.wf(),
            Err(_) => true,
        },
{
    let env = match parse_module(buffer) {
        Ok(env) => env,
        Err(e) => {
            return Err(Error::WasmError(e));
        },
    };
    compile_env(env, generator)
}

/// One instantiation of a compile result: the per-function offsets of
/// the emitted code.
pub struct Instantiation {
    pub func_offsets: Vec<u64>,
}

impl Instantiation {
    /// Creates a new instantiation.
    pub fn new(_compile_result: &CompileResult) -> (r: Instantiation)
        ensures
            r.func_offsets@.len() == 0,
    {
        Instantiation { func_offsets: Vec::new() }
    }

    /// Gets the offset of the defined functions in the function index
    /// space.
    pub fn defined_function_offset(&self, cr: &CompileResult) -> (r: usize)
        ensures
            r == cr.function_imports@.len(),
    {
        cr.function_imports.len()
    }

    /// The address of a function, by its global index.
    pub fn get_func_address(&self, cr: &CompileResult, code_vma: &MappedVma, index: u32) -> (r:
        Result<u64, Error>)
        requires
            self.func_offsets@.len() == cr.contexts@.len(),
            code_vma.base + 0x1000_0000 <= u64::MAX,
            forall|k: int|
                0 <= k < self.func_offsets@.len() ==> #[trigger] self.func_offsets@[k]
                    <= 0x1000_0000,
        ensures
            match r {
                Ok(a) => cr.function_imports@.len() <= index && a == code_vma.base
                    + self.func_offsets@[index - cr.function_imports@.len()],
                Err(e) => e == Error::UnsupportedImport && (index < cr.function_imports@.len()
                    || index >= cr.function_imports@.len() + cr.contexts@.len()),
            },
    {
        let defined = cr.function_imports.len();
        if (index as usize) < defined || (index as usize) - defined >= self.func_offsets.len() {
            return Err(Error::UnsupportedImport);
        }
        let offset = self.func_offsets[(index as usize) - defined];
        Ok(code_vma.address() + offset)
    }

    /// Emits the code: a writable, no-execute code region sized for the
    /// whole module, a lazily mapped heap of the module's minimum memory,
    /// and the code image with one offset per function.
    pub fn emit(
        &mut self,
        cr: &CompileResult,
        vma_alloc: &mut VmaAllocator,
        mapping: &mut ActiveMapping,
        fa: &mut FrameAllocator,
    ) -> (r: Result<(MappedVma, LazilyMappedVma, Vec<u8>), Error>)
        requires
            old(vma_alloc).wf(),
            old(mapping).wf(),
            old(fa).wf(),
            fa_fits(*old(fa)),
            cr.wf(),
        ensures
            final(vma_alloc).wf(),
            final(mapping).wf(),
            final(fa).wf(),
            final(fa).mem@ == old(fa).mem@,
            match r {
                Ok(out) => {
                    let (code_vma, heap_vma, image) = out;
                    &&& code_vma.wf()
                    &&& code_vma.guard_size == 0
                    &&& code_vma.base + 0x1000_0000 <= u64::MAX
                    &&& code_vma.size == spec_code_len(cr.total_size)
                    &&& final(vma_alloc).allocated@.contains((code_vma.base, code_vma.size))
                    &&& final(vma_alloc).allocated@.contains((heap_vma.base, heap_vma.size))
                    &&& (code_vma.base, code_vma.size) != (heap_vma.base, heap_vma.size)
                    &&& image@ == concat_code(cr.contexts@)
                    &&& final(self).func_offsets@.len() == cr.contexts@.len()
                    &&& forall|k: int|
                        0 <= k < cr.contexts@.len() ==> #[trigger] final(self).func_offsets@[k]
                            == code_sizes(cr.contexts@.take(k)) && final(self).func_offsets@[k]
                            <= 0x1000_0000
                    &&& heap_vma.wf()
                    &&& heap_vma.max_extent == HEAP_SIZE
                    &&& heap_vma.flags == (PRESENT | WRITABLE | NX)
                    &&& (cr.memories@.len() > 0 ==> heap_vma.extent == cr.memories@[0].minimum
                        * WASM_PAGE_SIZE)
                    &&& (cr.memories@.len() == 0 ==> heap_vma.extent == 0)
                    &&& heap_vma.extent as int % WASM_PAGE_SIZE as int == 0
                    &&& heap_vma.contents@ == Seq::new(heap_vma.extent as nat, |i: int| 0u8)
                    // Between emission and the flip the code region is
                    // writable and no-execute.
                    &&& forall|v2: u64|
                        code_vma.base <= #[trigger] page_base(v2) < code_vma.base + code_vma.size
                            ==> (match final(mapping).resolve(v2) {
                            Some(p) => p.1 == (PRESENT | WRITABLE | NX),
                            None => false,
                        })
                },
                Err(e) => e matches Error::MemoryError(_),
            },
            r == Err::<(MappedVma, LazilyMappedVma, Vec<u8>), Error>(
                Error::MemoryError(MemoryError::InvalidRange),
            ) <==> cr.memories@.len() > 0 && cr.memories@[0].minimum * WASM_PAGE_SIZE > HEAP_SIZE,
            // Success is owed when the domain is coherent, one free
            // range fits both regions, the allocator holds frames for
            // the code pages, and the minimum memory fits the heap.
            crate::vma::domain_mapped_in(*old(vma_alloc), *old(mapping)) && (exists|i: int|
                0 <= i < old(vma_alloc).free@.len() && (#[trigger] old(vma_alloc).free@[i]).1
                    >= spec_code_len(cr.total_size) + HEAP_SIZE + HEAP_GUARD_SIZE) && old(fa).free_list@.len() >= 4 * (spec_code_len(cr.total_size) as int / PAGE_SIZE as int)
                && !(cr.memories@.len() > 0 && cr.memories@[0].minimum * WASM_PAGE_SIZE
                > HEAP_SIZE) ==> r is Ok,
    {
        let ghost hyp = crate::vma::domain_mapped_in(*old(vma_alloc), *old(mapping)) && (exists|
            i: int,
        |
            0 <= i < old(vma_alloc).free@.len() && (#[trigger] old(vma_alloc).free@[i]).1
                >= spec_code_len(cr.total_size) + HEAP_SIZE + HEAP_GUARD_SIZE) && old(fa).free_list@.len() >= 4 * (spec_code_len(cr.total_size) as int / PAGE_SIZE as int) && !(
        cr.memories@.len() > 0 && cr.memories@[0].minimum * WASM_PAGE_SIZE > HEAP_SIZE);
        proof {
            lemma_wx_flags();
        }
        let flags = PRESENT | WRITABLE | NX;
        // The module's minimum memory must fit the fixed heap
        // reservation; nothing is allocated before this is known.
        let minimum = if cr.memories.len() > 0 {
            let m = cr.memories[0].minimum;
            proof {
                let mi = m as int;
                assert(mi * 0x1_0000 == (mi * 16) * 4096) by (nonlinear_arith);
                vstd::arithmetic::div_mod::lemma_mod_multiples_basic(mi * 16, 4096);
                vstd::arithmetic::div_mod::lemma_mod_multiples_basic(mi, 0x1_0000);
            }
            (m as u64) * WASM_PAGE_SIZE
        } else {
            0
        };
        if minimum > HEAP_SIZE {
            return Err(Error::MemoryError(MemoryError::InvalidRange));
        }
        proof {
            assert(minimum as int % 4096 == 0);
            assert(minimum as int % 0x1_0000 == 0);
        }
        // Create the code area; it is made executable read-only later.
        let mut len = crate::addr::align_up_u64(cr.total_size);
        if len == 0 {
            len = PAGE_SIZE;
        }
        proof {
            assert(len == spec_code_len(cr.total_size));
        }
        let cv = vma_alloc.create_vma(len);
        proof {
            if hyp {
                assert(cv is Ok);
            }
        }
        let code_vma = {
            let vma = match cv {
                Ok(v) => v,
                Err(e) => {
                    return Err(Error::MemoryError(e));
                },
            };
            proof {
                if hyp {
                    // The fresh range came out of free space, disjoint
                    // from every reservation: its pages are unmapped.
                    assert forall|v2: u64|
                        vma.base + 0 <= #[trigger] page_base(v2) < vma.base + vma.size implies old(mapping).resolve(v2) is None by {
                        if old(mapping).resolve(v2) is Some {
                            let r2 = choose|r2: (u64, u64)|
                                #[trigger] old(vma_alloc).allocated@.contains(r2) && r2.0
                                    <= page_base(v2) < r2.0 + r2.1;
                            assert(crate::vma::ranges_disjoint((vma.base, vma.size), r2));
                        }
                    }
                }
            }
            let mv = vma.map(mapping, fa, 0, len, flags);
            proof {
                if hyp {
                    assert(mv is Ok);
                }
            }
            match mv {
                Ok(m) => m,
                Err(e) => {
                    return Err(Error::MemoryError(e));
                },
            }
        };
        // Create the heap area: the module's minimum memory, lazily
        // mapped, with a guard region behind the maximum.
        let hv = vma_alloc.create_vma(HEAP_SIZE + HEAP_GUARD_SIZE);
        proof {
            if hyp {
                // The interval that held both regions either shrank by
                // the code region or survived whole; what is left still
                // fits the heap reservation.
                let i0 = choose|i0: int|
                    0 <= i0 < old(vma_alloc).free@.len() && (#[trigger] old(vma_alloc).free@[
                    i0]).1 >= spec_code_len(cr.total_size) + HEAP_SIZE + HEAP_GUARD_SIZE;
                assert(hv is Ok);
            }
        }
        let heap_vma = {
            let vma = match hv {
                Ok(v) => v,
                Err(e) => {
                    return Err(Error::MemoryError(e));
                },
            };
            vma.map_lazily(minimum, HEAP_GUARD_SIZE, flags)
        };
        // Emit the code image and record each function's offset.
        let mut image: Vec<u8> = Vec::new();
        let mut offset: u64 = 0;
        self.func_offsets = Vec::new();
        let mut i: usize = 0;
        while i < cr.contexts.len()
            invariant
                i <= cr.contexts@.len(),
                cr.wf(),
                image@ == concat_code(cr.contexts@.take(i as int)),
                offset == code_sizes(cr.contexts@.take(i as int)),
                offset <= MAX_TOTAL_CODE,
                self.func_offsets@.len() == i,
                forall|k: int|
                    0 <= k < i ==> #[trigger] self.func_offsets@[k] == code_sizes(
                        cr.contexts@.take(k),
                    ) && self.func_offsets@[k] <= 0x1000_0000,
            decreases cr.contexts@.len() - i,
        {
            proof {
                lemma_code_take_step(cr.contexts@, i as int);
                lemma_code_sizes_prefix_bound(cr.contexts@, i as int + 1);
            }
            self.func_offsets.push(offset);
            let code = &cr.contexts[i].code;
            let mut j: usize = 0;
            while j < code.len()
                invariant
                    j <= code@.len(),
                    code == &cr.contexts@[i as int].code,
                    i < cr.contexts@.len(),
                    image@ == concat_code(cr.contexts@.take(i as int)) + code@.take(j as int),
                decreases code@.len() - j,
            {
                image.push(code[j]);
                proof {
                    assert(code@.take(j as int + 1) =~= code@.take(j as int).push(
                        code@[j as int],
                    ));
                    assert(concat_code(cr.contexts@.take(i as int)) + code@.take(j as int + 1)
                        =~= (concat_code(cr.contexts@.take(i as int)) + code@.take(
                        j as int,
                    )).push(code@[j as int]));
                }
                j += 1;
            }
            proof {
                assert(code@.take(code@.len() as int) =~= code@);
            }
            offset = offset + code.len() as u64;
            i += 1;
        }
        proof {
            assert(cr.contexts@.take(cr.contexts@.len() as int) =~= cr.contexts@);
        }
        Ok((code_vma, heap_vma, image))
    }
}

/// The 32-bit value a PC-relative relocation writes: the target offset
/// minus the relocation's place, plus the addend, truncated to 32 bits.
pub open spec fn pcrel4_value(target_off: u64, place: u64, addend: i64) -> u64 {
    ((target_off - place + addend) % 0x1_0000_0000) as u64
}

/// Applies one relocation at `place = func_off + code_offset` of the
/// image, given the resolved target offset.
pub fn apply_relocation(
    image: &mut Vec<u8>,
    func_off: u64,
    reloc: &Relocation,
    target_off: u64,
) -> (r: Result<(), Error>)
    ensures
        final(image)@.len() == old(image)@.len(),
        match r {
            Ok(()) => {
                let place = (func_off + reloc.code_offset) as u64;
                match reloc.kind {
                    RelocKind::X86PCRel4 | RelocKind::X86CallPCRel4 => func_off + reloc.code_offset
                        + 4 <= old(image)@.len() && (forall|i: int|
                        0 <= i < 4 ==> #[trigger] final(image)@[place + i]
                            == crate::wasm::reloc::u32_le_byte(
                            pcrel4_value(target_off, place, reloc.addend),
                            i,
                        )) && (forall|i: int|
                        0 <= i < old(image)@.len() && !(place <= i < place + 4) ==> #[trigger] final(image)@[i] == old(image)@[i]),
                    RelocKind::Abs8 => func_off + reloc.code_offset + 8 <= old(image)@.len() && (
                    forall|i: int|
                        0 <= i < 8 ==> #[trigger] final(image)@[place + i]
                            == crate::wasm::reloc::u64_le_byte(
                            ((target_off + reloc.addend) % 0x1_0000_0000_0000_0000) as u64,
                            i,
                        )) && (forall|i: int|
                        0 <= i < old(image)@.len() && !(place <= i < place + 8) ==> #[trigger] final(image)@[i] == old(image)@[i]),
                    RelocKind::X86PCRelRodata4 => final(image)@ == old(image)@,
                    RelocKind::Other => false,
                }
            },
            Err(e) => e == Error::UnsupportedImport || e == Error::CodegenError,
        },
{
    let ilen = image.len();
    match reloc.kind {
        RelocKind::X86PCRel4 | RelocKind::X86CallPCRel4 => {
            if func_off > u64::MAX - 4 - reloc.code_offset as u64 {
                return Err(Error::CodegenError);
            }
            let place = func_off + reloc.code_offset as u64;
            if place + 4 > ilen as u64 {
                return Err(Error::CodegenError);
            }
            // delta = target - place + addend, wrapping.
            let delta = wrapping_add_i64(wrapping_sub(target_off, place), reloc.addend);
            let value = (delta & 0xFFFF_FFFF) as u32;
            proof {
                assert((delta & 0xFFFF_FFFF) <= 0xFFFF_FFFFu64) by (bit_vector);
                lemma_pcrel4(target_off, place, reloc.addend, delta, value);
            }
            write_u32_le(image, place as usize, value);
            Ok(())
        },
        RelocKind::Abs8 => {
            if func_off > u64::MAX - 8 - reloc.code_offset as u64 {
                return Err(Error::CodegenError);
            }
            let place = func_off + reloc.code_offset as u64;
            if place + 8 > ilen as u64 {
                return Err(Error::CodegenError);
            }
            let value = wrapping_add_i64(target_off, reloc.addend);
            write_u64_le(image, place as usize, value);
            Ok(())
        },
        RelocKind::X86PCRelRodata4 => {
            // Read-only data is co-located with the code: nothing to do.
            Ok(())
        },
        RelocKind::Other => Err(Error::UnsupportedImport),
    }
}

/// `a - b`, wrapping around the 64-bit boundary.
fn wrapping_sub(a: u64, b: u64) -> (r: u64)
    ensures
        r == (a - b) % 0x1_0000_0000_0000_0000,
{
    if a >= b {
        proof {
            vstd::arithmetic::div_mod::lemma_small_mod((a - b) as nat, 0x1_0000_0000_0000_0000);
        }
        a - b
    } else {
        let r = a + (u64::MAX - b) + 1;
        proof {
            assert((a + (u64::MAX - b) + 1) as int == a - b + 0x1_0000_0000_0000_0000) by {
            }
            assert((a - b) % 0x1_0000_0000_0000_0000 == a - b + 0x1_0000_0000_0000_0000) by {
                vstd::arithmetic::div_mod::lemma_small_mod(
                    (a - b + 0x1_0000_0000_0000_0000) as nat,
                    0x1_0000_0000_0000_0000,
                );
            }
        }
        r
    }
}

/// `a + d`, wrapping around the 64-bit boundary.
fn wrapping_add_i64(a: u64, d: i64) -> (r: u64)
    ensures
        r == (a + d) % 0x1_0000_0000_0000_0000,
{
    if d >= 0 {
        let du = d as u64;
        if a <= u64::MAX - du {
            let r = a + du;
            proof {
                vstd::arithmetic::div_mod::lemma_small_mod(
                    (a + d) as nat,
                    0x1_0000_0000_0000_0000,
                );
            }
            r
        } else {
            let r = a - (u64::MAX - du) - 1;
            proof {
                assert(r == a + d - 0x1_0000_0000_0000_0000);
                assert((a + d) % 0x1_0000_0000_0000_0000 == a + d - 0x1_0000_0000_0000_0000) by {
                    vstd::arithmetic::div_mod::lemma_mod_sub_multiples_vanish(
                        (a + d) as int,
                        0x1_0000_0000_0000_0000,
                    );
                    vstd::arithmetic::div_mod::lemma_small_mod(
                        (a + d - 0x1_0000_0000_0000_0000) as nat,
                        0x1_0000_0000_0000_0000,
                    );
                }
            }
            r
        }
    } else {
        let neg = if d == i64::MIN {
            0x8000_0000_0000_0000u64
        } else {
            (-d) as u64
        };
        let r = wrapping_sub(a, neg);
        proof {
            assert(a - neg == a + d);
        }
        r
    }
}

proof fn lemma_pcrel4(target_off: u64, place: u64, addend: i64, delta: u64, value: u32)
    requires
        delta == (target_off - place + addend) % 0x1_0000_0000_0000_0000,
        value as u64 == delta & 0xFFFF_FFFF,
    ensures
        value as u64 == pcrel4_value(target_off, place, addend),
{
    let x = target_off - place + addend;
    let v64 = value as u64;
    assert(v64 == delta % 0x1_0000_0000) by (bit_vector)
        requires
            v64 == delta & 0xFFFF_FFFF,
    ;
    assert((x % 0x1_0000_0000_0000_0000) % 0x1_0000_0000 == x % 0x1_0000_0000) by {
        assert(0x1_0000_0000_0000_0000 == 0x1_0000_0000 as int * 0x1_0000_0000 as int);
        vstd::arithmetic::div_mod::lemma_mod_mod(x, 0x1_0000_0000, 0x1_0000_0000);
    }
}

/// The code sizes of a prefix stay below the total.
proof fn lemma_code_sizes_prefix_bound(cs: Seq<CompiledFunction>, i: int)
    requires
        0 <= i <= cs.len(),
    ensures
        code_sizes(cs.take(i)) <= code_sizes(cs),
    decreases cs.len() - i,
{
    if i < cs.len() {
        lemma_code_take_step(cs, i);
        lemma_code_sizes_prefix_bound(cs, i + 1);
    } else {
        assert(cs.take(i) =~= cs);
    }
}

/// The flags of freshly emitted code (writable, no-execute) and of
/// linked code (read-execute) are well formed, and neither is ever
/// simultaneously writable and executable.
pub proof fn lemma_wx_flags()
    ensures
        flags_wf(PRESENT | WRITABLE | NX),
        flags_wf(PRESENT),
        wx_ok(PRESENT | WRITABLE | NX),
        wx_ok(PRESENT),
        (PRESENT | WRITABLE | NX) & WRITABLE == WRITABLE,
        (PRESENT | WRITABLE | NX) & NX == NX,
        PRESENT & WRITABLE == 0,
        PRESENT & NX == 0,
{
    assert((1u64 | 2u64 | 0x8000_0000_0000_0000u64) & 0x8000_0000_0000_009Bu64 == (1u64 | 2u64
        | 0x8000_0000_0000_0000u64) && (1u64 | 2u64 | 0x8000_0000_0000_0000u64) & 1u64 == 1u64
        && 1u64 & 0x8000_0000_0000_009Bu64 == 1u64 && 1u64 & 1u64 == 1u64 && !((1u64 | 2u64
        | 0x8000_0000_0000_0000u64) & 2u64 == 2u64 && (1u64 | 2u64 | 0x8000_0000_0000_0000u64)
        & 0x8000_0000_0000_0000u64 != 0x8000_0000_0000_0000u64) && !(1u64 & 2u64 == 2u64 && 1u64
        & 0x8000_0000_0000_0000u64 != 0x8000_0000_0000_0000u64) && (1u64 | 2u64
        | 0x8000_0000_0000_0000u64) & 2u64 == 2u64 && (1u64 | 2u64 | 0x8000_0000_0000_0000u64)
        & 0x8000_0000_0000_0000u64 == 0x8000_0000_0000_0000u64 && 1u64 & 2u64 == 0u64 && 1u64
        & 0x8000_0000_0000_0000u64 == 0u64) by (bit_vector);
}

/// W^X: flags are never simultaneously writable and executable.
pub open spec fn wx_ok(flags: u64) -> bool {
    !(flags & WRITABLE == WRITABLE && flags & NX != NX)
}

impl Instantiation {
    /// Emits and links: relocations are resolved against the function
    /// offsets and the host addresses, the code region flips — once —
    /// from writable/no-execute to read-execute, the context record is
    /// populated, and the module's thread is created at its start
    /// function.
    #[verifier::loop_isolation(false)]
    pub fn emit_and_link(
        &mut self,
        cr: &CompileResult,
        vma_alloc: &mut VmaAllocator,
        mapping: &mut ActiveMapping,
        fa: &mut FrameAllocator,
        host: &HostAddresses,
        id_counter: &mut u64,
    ) -> (r: Result<Thread, Error>)
        requires
            old(vma_alloc).wf(),
            old(mapping).wf(),
            old(fa).wf(),
            fa_fits(*old(fa)),
            cr.wf(),
            *old(id_counter) < u64::MAX,
        ensures
            final(vma_alloc).wf(),
            final(mapping).wf(),
            final(fa).wf(),
            r == Err::<Thread, Error>(Error::NoStart) <==> cr.start_func is None,
            match r {
                Ok(t) => t.wf() && t.status == ThreadStatus::Runnable && t.static_wasm_data
                    is Some && final(self).func_offsets@.len() == cr.contexts@.len() && (forall|
                    k: int,
                |
                    0 <= k < cr.contexts@.len() ==> #[trigger] final(self).func_offsets@[k]
                        == code_sizes(cr.contexts@.take(k))) && (
                t.static_wasm_data matches Some(d) ==> (forall|v2: u64|
                    d.code.base <= #[trigger] page_base(v2) < d.code.base + d.code.size ==> (
                    match final(mapping).resolve(v2) {
                        Some(p) => p.1 == PRESENT && wx_ok(p.1),
                        None => false,
                    })) && (cr.start_func matches Some(si) && si >= cr.function_imports@.len()
                    && t.entry == d.code.base + final(self).func_offsets@[si
                    - cr.function_imports@.len()]) && d.code_image@.len() == cr.total_size
                    && d.vmctx_container.tables@.len()
                    == cr.tables@.len() && (forall|ti: int|
                    0 <= ti < cr.tables@.len() ==> #[trigger] d.vmctx_container.tables@[
                    ti].elements@ == table_slots_after(
                        zero_slots(cr.tables@[ti].minimum as int),
                        ti,
                        cr.table_elements@,
                        d.code.base,
                        final(self).func_offsets@,
                        cr.function_imports@.len() as int,
                    )) && (forall|k: int|
                    0 <= k < cr.function_imports@.len()
                        ==> ((#[trigger] d.vmctx_container.function_imports@[k]) matches Some(entry) && spec_resolve_import(
                        cr.function_imports@[k].module@,
                        cr.function_imports@[k].field@,
                    ) == Some(entry.host)))) && (cr.memories@.len() > 0 ==> t.heap.extent
                    >= cr.memories@[0].minimum * WASM_PAGE_SIZE) && (cr.memories@.len() > 0
                    && cr.data_initializers@.len() == 0 ==> t.heap.extent == cr.memories@[0].minimum
                    * WASM_PAGE_SIZE) && t.heap.extent as int % WASM_PAGE_SIZE as int == 0 && (
                forall|dd: int|
                    0 <= dd < cr.data_initializers@.len()
                        ==> (#[trigger] cr.data_initializers@[dd]).offset
                        + cr.data_initializers@[dd].data@.len() <= t.heap.extent)
                    && t.heap.contents@ == inits_applied(
                    Seq::new(t.heap.extent as nat, |i: int| 0u8),
                    cr.data_initializers@,
                ),
                Err(_) => true,
            },
    {
        // Determine the start function first: without one there is
        // nothing to run.
        let start_func = match cr.start_func {
            Some(i) => i,
            None => {
                return Err(Error::NoStart);
            },
        };
        let (code_vma, mut heap_vma, mut image) = match self.emit(cr, vma_alloc, mapping, fa) {
            Ok(out) => out,
            Err(e) => {
                return Err(e);
            },
        };
        proof {
            lemma_concat_len(cr.contexts@);
        }
        let defined_function_offset = self.defined_function_offset(cr);
        // Relocations.
        let mut i: usize = 0;
        while i < cr.contexts.len()
            invariant
                image@.len() == cr.total_size,
                self.func_offsets@.len() == cr.contexts@.len(),
                forall|k: int|
                    0 <= k < cr.contexts@.len() ==> #[trigger] self.func_offsets@[k]
                        <= 0x1000_0000,
                defined_function_offset == cr.function_imports@.len(),
                cr.wf(),
            decreases cr.contexts@.len() - i,
        {
            let func_off = self.func_offsets[i];
            let mut j: usize = 0;
            while j < cr.contexts[i].relocs.len()
                invariant
                    image@.len() == cr.total_size,
                    i < cr.contexts@.len(),
                    self.func_offsets@.len() == cr.contexts@.len(),
                    forall|k: int|
                        0 <= k < cr.contexts@.len() ==> #[trigger] self.func_offsets@[k]
                            <= 0x1000_0000,
                    defined_function_offset == cr.function_imports@.len(),
                    func_off == self.func_offsets@[i as int],
                    cr.wf(),
                decreases cr.contexts@[i as int].relocs@.len() - j,
            {
                let relocation = cr.contexts[i].relocs[j];
                // Determine the target offset.
                let target_off: u64 = match relocation.target {
                    RelocationTarget::UserFunction(t) => {
                        if (t as usize) < defined_function_offset || (t as usize)
                            - defined_function_offset >= self.func_offsets.len() {
                            return Err(Error::UnsupportedImport);
                        }
                        self.func_offsets[(t as usize) - defined_function_offset]
                    },
                    RelocationTarget::RuntimeFunction(k) => {
                        if k == RUNTIME_MEMORY_GROW_IDX {
                            host.memory_grow
                        } else if k == RUNTIME_MEMORY_SIZE_IDX {
                            host.memory_size
                        } else {
                            return Err(Error::UnsupportedImport);
                        }
                    },
                    RelocationTarget::LibCall => {
                        return Err(Error::UnsupportedImport);
                    },
                    RelocationTarget::JumpTable(jt) => {
                        if (jt as usize) >= cr.contexts[i].jt_offsets.len() {
                            return Err(Error::UnsupportedImport);
                        }
                        let jt_off = cr.contexts[i].jt_offsets[jt as usize];
                        func_off + jt_off as u64
                    },
                };
                // Relocate!
                match apply_relocation(&mut image, func_off, &relocation, target_off) {
                    Ok(()) => {},
                    Err(e) => {
                        return Err(e);
                    },
                }
                j += 1;
            }
            i += 1;
        }
        // Create the thread before the flip; its stack is disjoint from
        // every reservation made so far, the code region included.
        let entry = match self.get_func_address(cr, &code_vma, start_func) {
            Ok(a) => a,
            Err(e) => {
                return Err(e);
            },
        };
        let ghost pre_thread_mapping = *mapping;
        let mut thread = match Thread::create(vma_alloc, mapping, fa, id_counter, entry, 0) {
            Ok(t) => t,
            Err(e) => {
                return Err(Error::MemoryError(e));
            },
        };
        proof {
            lemma_wx_flags();
            assert forall|v2: u64|
                code_vma.base <= #[trigger] page_base(v2) < code_vma.base
                    + code_vma.size implies mapping.resolve(v2) == pre_thread_mapping.resolve(
                v2,
            ) by {
                assert(crate::vma::ranges_disjoint(
                    (thread.stack.vma.base, thread.stack.vma.size),
                    (code_vma.base, code_vma.size),
                ));
            }
        }
        // Now the code is written: flip it, once, to read-only and
        // executable.
        match mapping.change_flags_range(code_vma.address(), code_vma.size(), PRESENT) {
            Ok(()) => {},
            Err(e) => {
                return Err(Error::MemoryError(e));
            },
        }
        let ghost h0 = heap_vma;
        let vmctx_container = match self.create_vmctx_container(cr, &code_vma, &mut heap_vma) {
            Ok(c) => c,
            Err(e) => {
                return Err(e);
            },
        };
        proof {
            // The heap started as zeroes, so its bytes are exactly the
            // initializers applied to a zeroed extent.
            assert(h0.contents@ + Seq::new(
                (heap_vma.extent - h0.extent) as nat,
                |i: int| 0u8,
            ) =~= Seq::new(heap_vma.extent as nat, |i: int| 0u8));
        }
        proof {
            assert forall|v2: u64|
                code_vma.base <= #[trigger] page_base(v2) < code_vma.base
                    + code_vma.size implies (match mapping.resolve(v2) {
                Some(p) => p.1 == PRESENT && wx_ok(p.1),
                None => false,
            }) by {}
        }
        thread.set_wasm_data(code_vma, image, heap_vma, vmctx_container);
        Ok(thread)
    }

    /// Creates the context record: imports are resolved by their
    /// `(module, field)` names, the tables are populated with the
    /// addresses of their element functions, the data initializers are
    /// copied into the heap (growing it to cover them where needed), and
    /// the globals get their initial values.
    #[verifier::loop_isolation(false)]
    #[verifier::loop_isolation(false)]
    #[verifier::rlimit(100)]
    pub fn create_vmctx_container(
        &self,
        cr: &CompileResult,
        code_vma: &MappedVma,
        heap_vma: &mut LazilyMappedVma,
    ) -> (r: Result<VmContextContainer, Error>)
        requires
            old(heap_vma).wf(),
            old(heap_vma).extent as int % WASM_PAGE_SIZE as int == 0,
            cr.wf(),
            self.func_offsets@.len() == cr.contexts@.len(),
            code_vma.base + 0x1000_0000 <= u64::MAX,
            forall|k: int|
                0 <= k < self.func_offsets@.len() ==> #[trigger] self.func_offsets@[k]
                    <= 0x1000_0000,
        ensures
            final(heap_vma).wf(),
            final(heap_vma).base == old(heap_vma).base,
            final(heap_vma).max_extent == old(heap_vma).max_extent,
            final(heap_vma).extent >= old(heap_vma).extent,
            final(heap_vma).extent as int % WASM_PAGE_SIZE as int == 0,
            cr.data_initializers@.len() == 0 ==> final(heap_vma).extent == old(heap_vma).extent,
            match r {
                Ok(c) => {
                    &&& c.heap_ptr == old(heap_vma).base
                    &&& c.globals@.len() == cr.globals@.len()
                    &&& forall|g: int|
                        0 <= g < cr.globals@.len() ==> #[trigger] c.globals@[g]
                            == cr.globals@[g].value
                    &&& c.function_imports@.len() == cr.function_imports@.len()
                    &&& forall|k: int|
                        0 <= k < cr.function_imports@.len()
                            ==> ((#[trigger] c.function_imports@[k]) matches Some(entry)
                            && spec_resolve_import(
                            cr.function_imports@[k].module@,
                            cr.function_imports@[k].field@,
                        ) == Some(entry.host))
                    &&& c.tables@.len() == cr.tables@.len()
                    // Every element segment is copied in: slot
                    // `offset + i` of its table holds the address of
                    // function `elements[i]`.
                    &&& forall|ti: int|
                        0 <= ti < cr.tables@.len() ==> #[trigger] c.tables@[ti].elements@
                            == table_slots_after(
                            zero_slots(cr.tables@[ti].minimum as int),
                            ti,
                            cr.table_elements@,
                            code_vma.base,
                            self.func_offsets@,
                            cr.function_imports@.len() as int,
                        )
                    // Every data initializer lies within the final
                    // extent and its bytes are in the heap, later
                    // copies overwriting earlier ones.
                    &&& forall|d: int|
                        0 <= d < cr.data_initializers@.len()
                            ==> (#[trigger] cr.data_initializers@[d]).offset
                            + cr.data_initializers@[d].data@.len() <= final(heap_vma).extent
                    &&& final(heap_vma).contents@ == inits_applied(
                        old(heap_vma).contents@ + Seq::new(
                            (final(heap_vma).extent - old(heap_vma).extent) as nat,
                            |i: int| 0u8,
                        ),
                        cr.data_initializers@,
                    )
                },
                Err(e) => e != Error::NoStart,
            },
    {
        let ghost imports = cr.function_imports@.len() as int;
        let ghost offsets = self.func_offsets@;
        let ghost code_base = code_vma.base;
        // Initialize the table vectors.
        let mut tables: Vec<WasmTable> = Vec::new();
        let mut t: usize = 0;
        while t < cr.tables.len()
            invariant
                t <= cr.tables@.len(),
                tables@.len() == t,
                forall|ti: int|
                    0 <= ti < t ==> #[trigger] tables@[ti].elements@ == zero_slots(
                        cr.tables@[ti].minimum as int,
                    ),
            decreases cr.tables@.len() - t,
        {
            let nt = WasmTable::new(cr.tables[t].minimum);
            proof {
                assert(nt.elements@ =~= zero_slots(cr.tables@[t as int].minimum as int));
            }
            tables.push(nt);
            t += 1;
        }
        if cr.globals.len() as u64 > 0xFFFF_FFFF {
            return Err(Error::MemoryError(MemoryError::InvalidRange));
        }
        let mut vmctx_container = VmContextContainer::new(
            heap_vma.address(),
            cr.globals.len() as u32,
            cr.function_imports.len() as u32,
            tables,
        );
        // Resolve import addresses.
        let mut k: usize = 0;
        while k < cr.function_imports.len()
            invariant
                *heap_vma == *old(heap_vma),
                k <= cr.function_imports@.len(),
                vmctx_container.function_imports@.len() == cr.function_imports@.len(),
                vmctx_container.heap_ptr == old(heap_vma).base,
                vmctx_container.globals@.len() == cr.globals@.len(),
                vmctx_container.tables@.len() == cr.tables@.len(),
                forall|ti: int|
                    0 <= ti < cr.tables@.len() ==> #[trigger] vmctx_container.tables@[ti].elements@
                        == zero_slots(cr.tables@[ti].minimum as int),
                forall|x: int|
                    0 <= x < k ==> ((#[trigger] vmctx_container.function_imports@[x]) matches Some(entry) && spec_resolve_import(
                        cr.function_imports@[x].module@,
                        cr.function_imports@[x].field@,
                    ) == Some(entry.host)),
            decreases cr.function_imports@.len() - k,
        {
            let import = &cr.function_imports[k];
            let hostfn = match resolve_import(&import.module, &import.field) {
                Ok(h) => h,
                Err(e) => {
                    return Err(e);
                },
            };
            vmctx_container.set_function_import(k, VmFunctionImportEntry { host: hostfn });
            k += 1;
        }
        // Fill in the tables.
        let mut s: usize = 0;
        while s < cr.table_elements.len()
            invariant
                *heap_vma == *old(heap_vma),
                s <= cr.table_elements@.len(),
                vmctx_container.function_imports@.len() == cr.function_imports@.len(),
                vmctx_container.heap_ptr == old(heap_vma).base,
                vmctx_container.globals@.len() == cr.globals@.len(),
                vmctx_container.tables@.len() == cr.tables@.len(),
                forall|x: int|
                    0 <= x < cr.function_imports@.len()
                        ==> ((#[trigger] vmctx_container.function_imports@[x]) matches Some(entry)
                        && spec_resolve_import(
                        cr.function_imports@[x].module@,
                        cr.function_imports@[x].field@,
                    ) == Some(entry.host)),
                forall|ti: int|
                    0 <= ti < cr.tables@.len() ==> #[trigger] vmctx_container.tables@[ti].elements@
                        == table_slots_after(
                        zero_slots(cr.tables@[ti].minimum as int),
                        ti,
                        cr.table_elements@.take(s as int),
                        code_base,
                        offsets,
                        imports,
                    ),
            decreases cr.table_elements@.len() - s,
        {
            let seg = &cr.table_elements[s];
            let table_index = seg.index as usize;
            let ghost prev = table_slots_after(
                zero_slots(cr.tables@[table_index as int].minimum as int),
                table_index as int,
                cr.table_elements@.take(s as int),
                code_base,
                offsets,
                imports,
            );
            let mut e: usize = 0;
            while e < seg.elements.len()
                invariant
                    *heap_vma == *old(heap_vma),
                    e <= seg.elements@.len(),
                    seg == &cr.table_elements@[s as int],
                    s < cr.table_elements@.len(),
                    table_index == seg.index,
                    table_index < cr.tables@.len(),
                    vmctx_container.function_imports@.len() == cr.function_imports@.len(),
                    vmctx_container.heap_ptr == old(heap_vma).base,
                    vmctx_container.globals@.len() == cr.globals@.len(),
                    vmctx_container.tables@.len() == cr.tables@.len(),
                    forall|x: int|
                        0 <= x < cr.function_imports@.len()
                            ==> ((#[trigger] vmctx_container.function_imports@[x]) matches Some(entry) && spec_resolve_import(
                            cr.function_imports@[x].module@,
                            cr.function_imports@[x].field@,
                        ) == Some(entry.host)),
                    forall|ti: int|
                        0 <= ti < cr.tables@.len() && ti != table_index
                            ==> #[trigger] vmctx_container.tables@[ti].elements@
                            == table_slots_after(
                            zero_slots(cr.tables@[ti].minimum as int),
                            ti,
                            cr.table_elements@.take(s as int),
                            code_base,
                            offsets,
                            imports,
                        ),
                    vmctx_container.tables@[table_index as int].elements@ == segment_written_upto(
                        prev,
                        *seg,
                        e as int,
                        code_base,
                        offsets,
                        imports,
                    ),
                decreases seg.elements@.len() - e,
            {
                let func_idx = seg.elements[e];
                let address = match self.get_func_address(cr, code_vma, func_idx) {
                    Ok(a) => a,
                    Err(err) => {
                        return Err(err);
                    },
                };
                if table_index >= vmctx_container.tables.len() {
                    return Err(Error::MemoryError(MemoryError::InvalidRange));
                }
                let tlen = vmctx_container.tables[table_index].elements.len();
                if e as u64 > u64::MAX - seg.offset as u64 {
                    return Err(Error::MemoryError(MemoryError::InvalidRange));
                }
                let slot_u = seg.offset as u64 + e as u64;
                if slot_u >= tlen as u64 {
                    return Err(Error::MemoryError(MemoryError::InvalidRange));
                }
                let slot = slot_u as usize;
                set_table_slot(&mut vmctx_container, table_index, slot, address);
                proof {
                    assert(address == (code_base + offsets[
                        seg.elements@[e as int] - imports]) as u64);
                    assert(vmctx_container.tables@[table_index as int].elements@
                        =~= segment_written_upto(
                        prev,
                        *seg,
                        e as int + 1,
                        code_base,
                        offsets,
                        imports,
                    ));
                }
                e += 1;
            }
            proof {
                assert(segment_written_upto(
                    prev,
                    *seg,
                    seg.elements@.len() as int,
                    code_base,
                    offsets,
                    imports,
                ) =~= segment_written(prev, *seg, code_base, offsets, imports));
                assert forall|ti: int|
                    0 <= ti < cr.tables@.len() implies #[trigger] vmctx_container.tables@[
                    ti].elements@ == table_slots_after(
                    zero_slots(cr.tables@[ti].minimum as int),
                    ti,
                    cr.table_elements@.take(s as int + 1),
                    code_base,
                    offsets,
                    imports,
                ) by {
                    lemma_slots_take_step(
                        zero_slots(cr.tables@[ti].minimum as int),
                        ti,
                        cr.table_elements@,
                        code_base,
                        offsets,
                        imports,
                        s as int,
                    );
                }
            }
            s += 1;
        }
        proof {
            assert(cr.table_elements@.take(cr.table_elements@.len() as int)
                =~= cr.table_elements@);
        }
        // Run the data initializers: first grow the heap, in whole
        // WebAssembly pages, to cover the farthest one; then copy.
        let mut needed: u64 = heap_vma.size();
        let mut d: usize = 0;
        while d < cr.data_initializers.len()
            invariant
                *heap_vma == *old(heap_vma),
                d <= cr.data_initializers@.len(),
                heap_vma.extent <= needed <= heap_vma.extent + 0x2_0000_0000,
                cr.data_initializers@.len() == 0 ==> needed == heap_vma.extent,
                forall|x: int|
                    0 <= x < d ==> (#[trigger] cr.data_initializers@[x]).offset
                        + cr.data_initializers@[x].data@.len() <= needed,
            decreases cr.data_initializers@.len() - d,
        {
            let initializer = &cr.data_initializers[d];
            if initializer.data.len() > u32::MAX as usize {
                return Err(Error::MemoryError(MemoryError::InvalidRange));
            }
            let end: u64 = initializer.offset as u64 + initializer.data.len() as u64;
            if end > needed {
                needed = end;
            }
            d += 1;
        }
        let ghost mid_heap = *heap_vma;
        if needed > heap_vma.size() {
            // The destination pages must exist before the copy: extend
            // the lazy heap, keeping the extent a whole number of
            // WebAssembly pages.
            let missing = needed - heap_vma.size();
            let q = (missing + (WASM_PAGE_SIZE - 1)) / WASM_PAGE_SIZE;
            let delta = q * WASM_PAGE_SIZE;
            proof {
                vstd::arithmetic::div_mod::lemma_fundamental_div_mod(
                    missing as int + 0xFFFF,
                    0x1_0000,
                );
                assert(delta as int == q as int * 0x1_0000);
                assert(delta >= missing);
                assert(q as int * 0x1_0000 == (q as int * 16) * 4096) by (nonlinear_arith);
                vstd::arithmetic::div_mod::lemma_mod_multiples_basic(q as int * 16, 4096);
                vstd::arithmetic::div_mod::lemma_mod_multiples_basic(q as int, 0x1_0000);
            }
            match heap_vma.expand(delta) {
                Ok(_) => {},
                Err(_) => {
                    return Err(Error::MemoryError(MemoryError::InvalidRange));
                },
            }
            proof {
                let a = mid_heap.extent as int;
                let b = delta as int;
                assert((a + b) % 0x1_0000 == 0) by (nonlinear_arith)
                    requires
                        a % 0x1_0000 == 0,
                        b % 0x1_0000 == 0,
                ;
            }
        }
        let ghost base_c = heap_vma.contents@;
        proof {
            assert(base_c =~= old(heap_vma).contents@ + Seq::new(
                (heap_vma.extent - old(heap_vma).extent) as nat,
                |i: int| 0u8,
            ));
        }
        let ghost grown = *heap_vma;
        let mut d2: usize = 0;
        while d2 < cr.data_initializers.len()
            invariant
                d2 <= cr.data_initializers@.len(),
                heap_vma.wf(),
                heap_vma.base == grown.base,
                heap_vma.size == grown.size,
                heap_vma.max_extent == grown.max_extent,
                heap_vma.extent == grown.extent,
                heap_vma.flags == grown.flags,
                needed <= grown.extent,
                forall|x: int|
                    0 <= x < cr.data_initializers@.len()
                        ==> (#[trigger] cr.data_initializers@[x]).offset
                        + cr.data_initializers@[x].data@.len() <= needed,
                heap_vma.contents@ == inits_applied(
                    base_c,
                    cr.data_initializers@.take(d2 as int),
                ),
            decreases cr.data_initializers@.len() - d2,
        {
            let initializer = &cr.data_initializers[d2];
            let ghost before_c = heap_vma.contents@;
            heap_vma.write_bytes(initializer.offset as u64, &initializer.data);
            proof {
                let off = initializer.offset as int;
                let dat = initializer.data@;
                assert forall|j: int|
                    0 <= j < before_c.len() implies heap_vma.contents@[j] == overwritten(
                    before_c,
                    off,
                    dat,
                )[j] by {
                    if off <= j < off + dat.len() {
                        assert(heap_vma.contents@[off + (j - off)] == dat[j - off]);
                    }
                }
                assert(heap_vma.contents@ =~= overwritten(before_c, off, dat));
                lemma_inits_take_step(base_c, cr.data_initializers@, d2 as int);
            }
            d2 += 1;
        }
        proof {
            assert(cr.data_initializers@.take(cr.data_initializers@.len() as int)
                =~= cr.data_initializers@);
        }
        // Create globals.
        let mut g: usize = 0;
        while g < cr.globals.len()
            invariant
                g <= cr.globals@.len(),
                vmctx_container.globals@.len() == cr.globals@.len(),
                forall|x: int|
                    0 <= x < g ==> #[trigger] vmctx_container.globals@[x] == cr.globals@[x].value,
                vmctx_container.heap_ptr == old(heap_vma).base,
                vmctx_container.function_imports@.len() == cr.function_imports@.len(),
                vmctx_container.tables@.len() == cr.tables@.len(),
                forall|x: int|
                    0 <= x < cr.function_imports@.len()
                        ==> ((#[trigger] vmctx_container.function_imports@[x]) matches Some(entry)
                        && spec_resolve_import(
                        cr.function_imports@[x].module@,
                        cr.function_imports@[x].field@,
                    ) == Some(entry.host)),
                forall|ti: int|
                    0 <= ti < cr.tables@.len() ==> #[trigger] vmctx_container.tables@[ti].elements@
                        == table_slots_after(
                        zero_slots(cr.tables@[ti].minimum as int),
                        ti,
                        cr.table_elements@,
                        code_base,
                        offsets,
                        imports,
                    ),
            decreases cr.globals@.len() - g,
        {
            vmctx_container.set_global(g, cr.globals[g].value);
            g += 1;
        }
        Ok(vmctx_container)
    }
}


/// The contents with `data` overwriting the bytes at `off`.
pub open spec fn overwritten(c: Seq<u8>, off: int, data: Seq<u8>) -> Seq<u8> {
    Seq::new(
        c.len(),
        |i: int|
            if off <= i < off + data.len() {
                data[i - off]
            } else {
                c[i]
            },
    )
}

/// The contents after every data initializer has been copied in, in
/// order: a later initializer overwrites an earlier one where they
/// overlap.
pub open spec fn inits_applied(c: Seq<u8>, inits: Seq<DataInitializer>) -> Seq<u8>
    decreases inits.len(),
{
    if inits.len() == 0 {
        c
    } else {
        overwritten(
            inits_applied(c, inits.drop_last()),
            inits.last().offset as int,
            inits.last().data@,
        )
    }
}

proof fn lemma_inits_take_step(c: Seq<u8>, inits: Seq<DataInitializer>, d: int)
    requires
        0 <= d < inits.len(),
    ensures
        inits_applied(c, inits.take(d + 1)) == overwritten(
            inits_applied(c, inits.take(d)),
            inits[d].offset as int,
            inits[d].data@,
        ),
{
    assert(inits.take(d + 1).drop_last() =~= inits.take(d));
    assert(inits.take(d + 1).last() == inits[d]);
}

/// A table's slots with one element segment copied in at its offset:
/// slot `offset + i` takes the address of function `elements[i]`.
pub open spec fn segment_written(
    elems: Seq<VmTableElement>,
    seg: TableElements,
    code_base: u64,
    offsets: Seq<u64>,
    imports: int,
) -> Seq<VmTableElement> {
    Seq::new(
        elems.len(),
        |i: int|
            if seg.offset <= i < seg.offset + seg.elements@.len() {
                VmTableElement {
                    address: (code_base + offsets[seg.elements@[i - seg.offset] - imports]) as u64,
                }
            } else {
                elems[i]
            },
    )
}

/// A table's slots with the first `upto` elements of one segment copied
/// in.
pub open spec fn segment_written_upto(
    elems: Seq<VmTableElement>,
    seg: TableElements,
    upto: int,
    code_base: u64,
    offsets: Seq<u64>,
    imports: int,
) -> Seq<VmTableElement> {
    Seq::new(
        elems.len(),
        |i: int|
            if seg.offset <= i < seg.offset + upto {
                VmTableElement {
                    address: (code_base + offsets[seg.elements@[i - seg.offset] - imports]) as u64,
                }
            } else {
                elems[i]
            },
    )
}

/// Table `ti`'s slots after every element segment has been copied in,
/// in order.
pub open spec fn table_slots_after(
    init: Seq<VmTableElement>,
    ti: int,
    segs: Seq<TableElements>,
    code_base: u64,
    offsets: Seq<u64>,
    imports: int,
) -> Seq<VmTableElement>
    decreases segs.len(),
{
    if segs.len() == 0 {
        init
    } else {
        let prev = table_slots_after(init, ti, segs.drop_last(), code_base, offsets, imports);
        if segs.last().index == ti {
            segment_written(prev, segs.last(), code_base, offsets, imports)
        } else {
            prev
        }
    }
}

proof fn lemma_slots_take_step(
    init: Seq<VmTableElement>,
    ti: int,
    segs: Seq<TableElements>,
    code_base: u64,
    offsets: Seq<u64>,
    imports: int,
    d: int,
)
    requires
        0 <= d < segs.len(),
    ensures
        table_slots_after(init, ti, segs.take(d + 1), code_base, offsets, imports) == if segs[d].index
            == ti {
            segment_written(
                table_slots_after(init, ti, segs.take(d), code_base, offsets, imports),
                segs[d],
                code_base,
                offsets,
                imports,
            )
        } else {
            table_slots_after(init, ti, segs.take(d), code_base, offsets, imports)
        },
{
    assert(segs.take(d + 1).drop_last() =~= segs.take(d));
    assert(segs.take(d + 1).last() == segs[d]);
}

/// A table's slots before any segment is copied: all zero.
pub open spec fn zero_slots(n: int) -> Seq<VmTableElement> {
    Seq::new(n as nat, |i: int| VmTableElement { address: 0 })
}

/// Writes one resolved function address into a table slot.
fn set_table_slot(c: &mut VmContextContainer, table_index: usize, slot: usize, address: u64)
    requires
        table_index < old(c).tables@.len(),
        slot < old(c).tables@[table_index as int].elements@.len(),
    ensures
        final(c).tables@.len() == old(c).tables@.len(),
        final(c).heap_ptr == old(c).heap_ptr,
        final(c).globals == old(c).globals,
        final(c).function_imports == old(c).function_imports,
        final(c).tables@[table_index as int].elements@ == old(c).tables@[
            table_index as int].elements@.update(
            slot as int,
            crate::wasm::vmctx::VmTableElement { address },
        ),
        forall|x: int|
            0 <= x < old(c).tables@.len() && x != table_index ==> #[trigger] final(c).tables@[x]
                == old(c).tables@[x],
{
    c.tables[table_index].set(slot, crate::wasm::vmctx::VmTableElement { address });
}

/// Runs WebAssembly from a buffer: compiles it with the given code
/// generator, instantiates it inside the given protection domain, and
/// hands back the thread to make runnable.
pub fn run<G: CodeGenerator>(
    buffer: &[u8],
    generator: &mut G,
    vma_alloc: &mut VmaAllocator,
    mapping: &mut ActiveMapping,
    fa: &mut FrameAllocator,
    host: &HostAddresses,
    id_counter: &mut u64,
) -> (r: Result<Thread, Error>)
    requires
        old(vma_alloc).wf(),
        old(mapping).wf(),
        old(fa).wf(),
        fa_fits(*old(fa)),
        *old(id_counter) < u64::MAX,
    ensures
        final(vma_alloc).wf(),
        final(mapping).wf(),
        final(fa).wf(),
        match r {
            Ok(t) => t.wf() && t.status == ThreadStatus::Runnable && t.static_wasm_data is Some
                && t.heap.extent as int % WASM_PAGE_SIZE as int == 0 && (
            t.static_wasm_data matches Some(d) ==> forall|v2: u64|
                d.code.base <= #[trigger] page_base(v2) < d.code.base + d.code.size ==> (
                match final(mapping).resolve(v2) {
                    Some(p) => p.1 == PRESENT && wx_ok(p.1),
                    None => false,
                })),
            Err(_) => true,
        },
{
    let compile_result = match compile(buffer, generator) {
        Ok(cr) => cr,
        Err(e) => {
            return Err(e);
        },
    };
    let mut instantiation = compile_result.instantiate();
    instantiation.emit_and_link(&compile_result, vma_alloc, mapping, fa, host, id_counter)
}

/// The runtime lowering of `memory.size`: the heap size in WebAssembly
/// pages.
pub fn runtime_memory_size(thread: &Thread) -> (r: u32)
    requires
        thread.heap.extent <= 0x1_0000_0000,
    ensures
        r == thread.heap.extent / WASM_PAGE_SIZE,
{
    (thread.heap_size() / WASM_PAGE_SIZE) as u32
}

/// The runtime lowering of `memory.grow`: grows the heap, returning the
/// old size in WebAssembly pages, or `u32::MAX` on failure.
pub fn runtime_memory_grow(thread: &mut Thread, wasm_pages: u32) -> (r: u32)
    requires
        old(thread).heap.wf(),
        old(thread).heap.max_extent <= 0x1_0000_0000,
    ensures
        final(thread).heap.wf(),
        if old(thread).heap.extent + wasm_pages * WASM_PAGE_SIZE <= old(thread).heap.max_extent {
            r == old(thread).heap.extent / WASM_PAGE_SIZE && final(thread).heap.extent == old(
                thread,
            ).heap.extent + wasm_pages * WASM_PAGE_SIZE
        } else {
            r == u32::MAX && final(thread).heap == old(thread).heap
        },
{
    thread.heap_grow(wasm_pages)
}

/// The WASI shim for `environ_sizes_get`: there is no environment, so a
/// zero count and a four-byte buffer size are reported. Out-of-range
/// pointers are rejected with an error code instead of a wild write.
pub fn wasi_environ_sizes_get(
    heap: &mut LazilyMappedVma,
    environ_count_ptr: u32,
    environ_size_ptr: u32,
) -> (r: u16)
    requires
        old(heap).wf(),
    ensures
        final(heap).wf(),
        final(heap).extent == old(heap).extent,
        r == 0 || r == 28,
        r == 0 <==> environ_count_ptr + 4 <= old(heap).extent && environ_size_ptr + 4 <= old(
            heap,
        ).extent,
        // On success the two little-endian words are written: zero
        // entries, four bytes of buffer; the size word wins where the
        // pointers overlap, and nothing else moves.
        r == 0 ==> (forall|i: int|
            0 <= i < 4 ==> #[trigger] final(heap).contents@[environ_size_ptr + i] == (if i == 0 {
                4u8
            } else {
                0u8
            })) && (forall|i: int|
            0 <= i < 4 && !(environ_size_ptr <= environ_count_ptr + i < environ_size_ptr + 4)
                ==> #[trigger] final(heap).contents@[environ_count_ptr + i] == 0) && (forall|
            i: int,
        |
            0 <= i < old(heap).contents@.len() && !(environ_count_ptr <= i < environ_count_ptr + 4)
                && !(environ_size_ptr <= i < environ_size_ptr + 4) ==> #[trigger] final(heap).contents@[i] == old(heap).contents@[i]),
        r == 28 ==> final(heap).contents@ == old(heap).contents@,
{
    if environ_count_ptr as u64 > u64::MAX - 4 || environ_count_ptr as u64 + 4 > heap.size() {
        return 28;
    }
    if environ_size_ptr as u64 > u64::MAX - 4 || environ_size_ptr as u64 + 4 > heap.size() {
        return 28;
    }
    let zero: Vec<u8> = vec![0, 0, 0, 0];
    let four: Vec<u8> = vec![4, 0, 0, 0];
    heap.write_bytes(environ_count_ptr as u64, &zero);
    heap.write_bytes(environ_size_ptr as u64, &four);
    0
}

/// The WASI shim for `environ_get`: there is no environment to copy.
pub fn wasi_environ_get(environ_ptr: u32, environ_buf: u32) -> (r: u16)
    ensures
        r == 0,
{
    let _ = environ_ptr;
    let _ = environ_buf;
    0
}

/// The WASI shim for `fd_write`: the bytes go to the log sink, which the
/// machine provides; the shim itself always reports success.
pub fn wasi_fd_write(fd: u32, iovs_ptr: u32, iovs_len: u32, nwritten: u32) -> (r: u16)
    ensures
        r == 0,
{
    let _ = fd;
    let _ = iovs_ptr;
    let _ = iovs_len;
    let _ = nwritten;
    0
}

/// The WASI shim for `proc_exit`: the thread's status becomes
/// `Exit(exitcode)`; the machine then switches it out for good.
pub fn wasi_proc_exit(thread: &mut Thread, exitcode: u32)
    ensures
        final(thread).status == ThreadStatus::Exit(exitcode),
        final(thread).heap == old(thread).heap,
        final(thread).stack == old(thread).stack,
{
    thread.set_status(ThreadStatus::Exit(exitcode));
}

} // verus!
