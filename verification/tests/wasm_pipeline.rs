//! End-to-end tests of the WebAssembly pipeline: parsing, relocation,
//! instantiation and the host shims.

use wasmkernel::addr::PhysAddr;
use wasmkernel::frame::{FrameAllocator, MemRegion};
use wasmkernel::paging::ActiveMapping;
use wasmkernel::table::PRESENT;
use wasmkernel::thread::ThreadStatus;
use wasmkernel::vma::VmaAllocator;
use wasmkernel::wasm::module_env::{parse_module, WasmError};
use wasmkernel::wasm::pipeline::{
    apply_relocation, resolve_import, run, wasi_environ_sizes_get, wasi_fd_write, wasi_proc_exit,
    runtime_memory_grow, runtime_memory_size, CodeGenerator, Error, HostAddresses,
};
use wasmkernel::wasm::reloc::{CompiledFunction, RelocKind, Relocation, RelocationTarget};
use wasmkernel::wasm::module_env::ModuleEnv;
use wasmkernel::wasm::vmctx::{HostFunction, WASM_PAGE_SIZE};

fn machine(frames: usize) -> (VmaAllocator, ActiveMapping, FrameAllocator) {
    let mut fa = FrameAllocator::empty();
    let regions = vec![MemRegion {
        start: 0x1000,
        end: (frames as u64) * 0x1000,
    }];
    fa.init(&regions, PhysAddr::new(0x1000), frames);
    let vma_alloc = VmaAllocator::new(0x1_0000, 0x7000_0000_0000);
    let mapping = ActiveMapping::new();
    (vma_alloc, mapping, fa)
}

fn host() -> HostAddresses {
    HostAddresses {
        memory_size: 0x1111_0000,
        memory_grow: 0x2222_0000,
    }
}

/// A back-end that emits one `ret` per function and no relocations.
struct RetGenerator;

impl CodeGenerator for RetGenerator {
    fn compile_function(&mut self, _env: &ModuleEnv, _idx: usize) -> Result<CompiledFunction, Error> {
        Ok(CompiledFunction {
            code: vec![0xC3],
            relocs: vec![],
            jt_offsets: vec![],
        })
    }
}

/// A back-end that emits eight bytes per function; the first function
/// carries a call relocation against the second.
struct CallGenerator;

impl CodeGenerator for CallGenerator {
    fn compile_function(&mut self, env: &ModuleEnv, idx: usize) -> Result<CompiledFunction, Error> {
        let defined = env.function_imports.len() as u32;
        let relocs = if idx == 0 {
            vec![Relocation {
                kind: RelocKind::X86CallPCRel4,
                code_offset: 4,
                target: RelocationTarget::UserFunction(defined + 1),
                addend: -4,
            }]
        } else {
            vec![]
        };
        Ok(CompiledFunction {
            code: vec![0x90, 0x90, 0x90, 0xE8, 0, 0, 0, 0],
            relocs,
            jt_offsets: vec![],
        })
    }
}

fn empty_module() -> Vec<u8> {
    vec![0x00, 0x61, 0x73, 0x6D, 0x01, 0x00, 0x00, 0x00]
}

fn section(id: u8, payload: &[u8]) -> Vec<u8> {
    let mut out = vec![id, payload.len() as u8];
    out.extend_from_slice(payload);
    out
}

/// A module exporting an empty `_start`, with `extra` sections between
/// the function and code sections.
fn start_module(extra: &[Vec<u8>]) -> Vec<u8> {
    let mut m = empty_module();
    // One type: () -> ().
    m.extend_from_slice(&section(1, &[0x01, 0x60, 0x00, 0x00]));
    // One defined function of that type.
    m.extend_from_slice(&section(3, &[0x01, 0x00]));
    for s in extra {
        m.extend_from_slice(s);
    }
    // Export "_start" as function 0.
    m.extend_from_slice(&section(
        7,
        &[0x01, 0x06, 0x5F, 0x73, 0x74, 0x61, 0x72, 0x74, 0x00, 0x00],
    ));
    // One empty body.
    m.extend_from_slice(&section(10, &[0x01, 0x02, 0x00, 0x0B]));
    m
}

#[test]
fn parse_rejects_bad_magic() {
    match parse_module(&[0, 1, 2, 3, 4, 5, 6, 7]) {
        Err(WasmError::BadMagic) => {}
        _ => panic!("expected BadMagic"),
    }
}

#[test]
fn parse_empty_module() {
    let env = parse_module(&empty_module()).unwrap();
    assert_eq!(env.func_bodies.len(), 0);
    assert!(env.start_func.is_none());
    assert_eq!(env.exports.len(), 0);
}

#[test]
fn parse_start_module() {
    let env = parse_module(&start_module(&[])).unwrap();
    assert_eq!(env.func_bodies.len(), 1);
    assert_eq!(env.exports.len(), 1);
    assert_eq!(env.exports[0].name, b"_start".to_vec());
}

#[test]
fn empty_module_has_no_start() {
    // S1: a module with no functions and no start.
    let (mut vma_alloc, mut mapping, mut fa) = machine(256);
    let mut counter = 0u64;
    let r = run(
        &empty_module(),
        &mut RetGenerator,
        &mut vma_alloc,
        &mut mapping,
        &mut fa,
        &host(),
        &mut counter,
    );
    match r {
        Err(Error::NoStart) => {}
        _ => panic!("expected NoStart"),
    }
}

#[test]
fn identity_start_runs_and_exits() {
    // S2: a module exporting an empty `_start` yields a runnable
    // thread; the proc_exit shim then marks it exited.
    let (mut vma_alloc, mut mapping, mut fa) = machine(512);
    let mut counter = 0u64;
    let mut t = run(
        &start_module(&[]),
        &mut RetGenerator,
        &mut vma_alloc,
        &mut mapping,
        &mut fa,
        &host(),
        &mut counter,
    )
    .unwrap();
    assert_eq!(t.status(), ThreadStatus::Runnable);
    let data = t.static_wasm_data.as_ref().unwrap();
    // The code image holds the generated return.
    assert_eq!(data.code_image, vec![0xC3]);
    // W^X: after the flip the code region is present, not writable,
    // executable.
    let (_, flags) = mapping.translate(data.code.base).unwrap();
    assert_eq!(flags, PRESENT);
    wasi_proc_exit(&mut t, 0);
    assert_eq!(t.status(), ThreadStatus::Exit(0));
}

#[test]
fn memory_grow_on_instance() {
    // S3: memory.grow(3) on a heap with minimum 1 returns 1; the size
    // becomes 4 pages and the lazy extent 4 * 64 KiB.
    let memory = section(5, &[0x01, 0x00, 0x01]);
    let (mut vma_alloc, mut mapping, mut fa) = machine(512);
    let mut counter = 0u64;
    let mut t = run(
        &start_module(&[memory]),
        &mut RetGenerator,
        &mut vma_alloc,
        &mut mapping,
        &mut fa,
        &host(),
        &mut counter,
    )
    .unwrap();
    assert_eq!(t.heap_size(), WASM_PAGE_SIZE);
    assert_eq!(runtime_memory_grow(&mut t, 3), 1);
    assert_eq!(runtime_memory_size(&t), 4);
    assert_eq!(t.heap.extent, 4 * WASM_PAGE_SIZE);
}

#[test]
fn out_of_bounds_fault_exits_thread() {
    // S4: a load past the extent faults into the guard region; the
    // fault is not handled and the thread is marked exited.
    let memory = section(5, &[0x01, 0x00, 0x01]);
    let (mut vma_alloc, mut mapping, mut fa) = machine(512);
    let mut counter = 0u64;
    let mut t = run(
        &start_module(&[memory]),
        &mut RetGenerator,
        &mut vma_alloc,
        &mut mapping,
        &mut fa,
        &host(),
        &mut counter,
    )
    .unwrap();
    let guard_addr = t.heap.base + t.heap.extent;
    assert!(!t.page_fault(&mut mapping, &mut fa, guard_addr));
    t.set_status(ThreadStatus::Exit(0xFF));
    assert_eq!(t.status(), ThreadStatus::Exit(0xFF));
    // A fault inside the extent is handled by mapping a fresh frame.
    let inside = t.heap.base + 0x4000;
    assert!(t.page_fault(&mut mapping, &mut fa, inside));
    assert!(mapping.translate(inside).is_some());
}

#[test]
fn data_initializer_reaches_heap() {
    // S5: the segment [0x10] = "hi" lands at heap + 0x10.
    let memory = section(5, &[0x01, 0x00, 0x01]);
    let data = section(11, &[0x01, 0x00, 0x41, 0x10, 0x0B, 0x02, 0x68, 0x69]);
    let mut module = start_module(&[memory]);
    module.extend_from_slice(&data);
    let (mut vma_alloc, mut mapping, mut fa) = machine(512);
    let mut counter = 0u64;
    let t = run(
        &module,
        &mut RetGenerator,
        &mut vma_alloc,
        &mut mapping,
        &mut fa,
        &host(),
        &mut counter,
    )
    .unwrap();
    assert_eq!(t.heap.contents[0x10], 0x68);
    assert_eq!(t.heap.contents[0x11], 0x69);
    assert_eq!(t.heap.contents[0x12], 0);
}

#[test]
fn data_initializer_grows_heap_by_whole_wasm_pages() {
    // A segment ending just past the first page grows the extent to
    // exactly two pages, never to a finer boundary.
    let memory = section(5, &[0x01, 0x00, 0x01]);
    // offset 0x1_0000 as LEB128 is 80 80 04.
    let data = section(11, &[0x01, 0x00, 0x41, 0x80, 0x80, 0x04, 0x0B, 0x02, 0x68, 0x69]);
    let mut module = start_module(&[memory]);
    module.extend_from_slice(&data);
    let (mut vma_alloc, mut mapping, mut fa) = machine(512);
    let mut counter = 0u64;
    let t = run(
        &module,
        &mut RetGenerator,
        &mut vma_alloc,
        &mut mapping,
        &mut fa,
        &host(),
        &mut counter,
    )
    .unwrap();
    assert_eq!(t.heap.extent, 2 * WASM_PAGE_SIZE);
    assert_eq!(runtime_memory_size(&t), 2);
    assert_eq!(t.heap.contents[0x1_0000], 0x68);
    assert_eq!(t.heap.contents[0x1_0001], 0x69);
}

#[test]
fn table_element_resolves_to_function_address() {
    // S6: an element segment at offset 0 populates slot 0 with the
    // address of function 0 — the code base, since it is emitted first.
    let table = section(4, &[0x01, 0x70, 0x00, 0x02]);
    let elem = section(9, &[0x01, 0x00, 0x41, 0x00, 0x0B, 0x01, 0x00]);
    let mut module = start_module(&[table]);
    module.extend_from_slice(&elem);
    let (mut vma_alloc, mut mapping, mut fa) = machine(512);
    let mut counter = 0u64;
    let t = run(
        &module,
        &mut RetGenerator,
        &mut vma_alloc,
        &mut mapping,
        &mut fa,
        &host(),
        &mut counter,
    )
    .unwrap();
    let data = t.static_wasm_data.as_ref().unwrap();
    let table0 = &data.vmctx_container.tables[0];
    assert_eq!(table0.elements[0].address, data.code.base);
    assert_eq!(table0.elements[1].address, 0);
}

fn two_function_module() -> Vec<u8> {
    let mut m = empty_module();
    m.extend_from_slice(&section(1, &[0x01, 0x60, 0x00, 0x00]));
    m.extend_from_slice(&section(3, &[0x02, 0x00, 0x00]));
    m.extend_from_slice(&section(
        7,
        &[0x01, 0x06, 0x5F, 0x73, 0x74, 0x61, 0x72, 0x74, 0x00, 0x00],
    ));
    m.extend_from_slice(&section(10, &[0x02, 0x02, 0x00, 0x0B, 0x02, 0x00, 0x0B]));
    m
}

#[test]
fn relocation_value_of_a_call() {
    // For two defined functions where f0 calls f1 through a 32-bit
    // PC-relative call, the value at the call site is
    // off(f1) - (off(f0) + call_offset + 4) with the -4 carried by the
    // addend the emitter records.
    let (mut vma_alloc, mut mapping, mut fa) = machine(512);
    let mut counter = 0u64;
    let t = run(
        &two_function_module(),
        &mut CallGenerator,
        &mut vma_alloc,
        &mut mapping,
        &mut fa,
        &host(),
        &mut counter,
    )
    .unwrap();
    let image = &t.static_wasm_data.as_ref().unwrap().code_image;
    // off(f0) = 0, off(f1) = 8, call site displacement at offset 4.
    let value = u32::from_le_bytes([image[4], image[5], image[6], image[7]]);
    assert_eq!(value as i32, 8 - (0 + 4 + 4));
}

#[test]
fn apply_relocation_writes_exact_bytes() {
    let mut image = vec![0u8; 16];
    let reloc = Relocation {
        kind: RelocKind::X86CallPCRel4,
        code_offset: 2,
        target: RelocationTarget::UserFunction(1),
        addend: 0,
    };
    apply_relocation(&mut image, 0, &reloc, 8).unwrap();
    assert_eq!(&image[2..6], &[6, 0, 0, 0]);
    let abs = Relocation {
        kind: RelocKind::Abs8,
        code_offset: 8,
        target: RelocationTarget::RuntimeFunction(0),
        addend: 2,
    };
    apply_relocation(&mut image, 0, &abs, 0x1111_0000).unwrap();
    assert_eq!(&image[8..16], &[0x02, 0x00, 0x11, 0x11, 0, 0, 0, 0]);
}

#[test]
fn import_resolution_table() {
    assert_eq!(
        resolve_import(&b"os".to_vec(), &b"anything".to_vec()).unwrap(),
        HostFunction::TestShim
    );
    let wasi = b"wasi_snapshot_preview1".to_vec();
    assert_eq!(
        resolve_import(&wasi, &b"environ_sizes_get".to_vec()).unwrap(),
        HostFunction::EnvironSizesGet
    );
    assert_eq!(
        resolve_import(&wasi, &b"environ_get".to_vec()).unwrap(),
        HostFunction::EnvironGet
    );
    assert_eq!(
        resolve_import(&wasi, &b"fd_write".to_vec()).unwrap(),
        HostFunction::FdWrite
    );
    assert_eq!(
        resolve_import(&wasi, &b"proc_exit".to_vec()).unwrap(),
        HostFunction::ProcExit
    );
    assert!(resolve_import(&wasi, &b"clock_time_get".to_vec()).is_err());
    assert!(resolve_import(&b"env".to_vec(), &b"f".to_vec()).is_err());
}

#[test]
fn imported_function_is_resolved_in_context() {
    // An import of wasi proc_exit ends up resolved in the context
    // record.
    let mut m = empty_module();
    m.extend_from_slice(&section(1, &[0x02, 0x60, 0x01, 0x7F, 0x00, 0x60, 0x00, 0x00]));
    let mut imp = vec![0x01];
    imp.push(22);
    imp.extend_from_slice(b"wasi_snapshot_preview1");
    imp.push(9);
    imp.extend_from_slice(b"proc_exit");
    imp.extend_from_slice(&[0x00, 0x00]);
    m.extend_from_slice(&section(2, &imp));
    m.extend_from_slice(&section(3, &[0x01, 0x01]));
    m.extend_from_slice(&section(
        7,
        &[0x01, 0x06, 0x5F, 0x73, 0x74, 0x61, 0x72, 0x74, 0x00, 0x01],
    ));
    m.extend_from_slice(&section(10, &[0x01, 0x02, 0x00, 0x0B]));
    let (mut vma_alloc, mut mapping, mut fa) = machine(512);
    let mut counter = 0u64;
    let t = run(
        &m,
        &mut RetGenerator,
        &mut vma_alloc,
        &mut mapping,
        &mut fa,
        &host(),
        &mut counter,
    )
    .unwrap();
    let data = t.static_wasm_data.as_ref().unwrap();
    let entry = data.vmctx_container.function_imports[0].unwrap();
    assert_eq!(entry.host, HostFunction::ProcExit);
}

#[test]
fn wasi_shims_report() {
    let (mut vma_alloc, _, _) = machine(8);
    let vma = vma_alloc.create_vma(0x1_0000 + 0x1000).unwrap();
    let mut heap = vma.map_lazily(0x1_0000, 0x1000, PRESENT);
    assert_eq!(wasi_environ_sizes_get(&mut heap, 0, 8), 0);
    assert_eq!(&heap.contents[0..4], &[0, 0, 0, 0]);
    assert_eq!(&heap.contents[8..12], &[4, 0, 0, 0]);
    // Out-of-range pointers are rejected, not written through.
    assert_eq!(wasi_environ_sizes_get(&mut heap, 0xFFFF_FFFF, 8), 28);
    assert_eq!(wasi_fd_write(1, 0, 0, 0), 0);
}

/// A back-end that refuses every function.
struct FailingGenerator;

impl CodeGenerator for FailingGenerator {
    fn compile_function(&mut self, _env: &ModuleEnv, _idx: usize) -> Result<CompiledFunction, Error> {
        Err(Error::CodegenError)
    }
}

#[test]
fn codegen_error_propagates() {
    let (mut vma_alloc, mut mapping, mut fa) = machine(256);
    let mut counter = 0u64;
    let r = run(
        &start_module(&[]),
        &mut FailingGenerator,
        &mut vma_alloc,
        &mut mapping,
        &mut fa,
        &host(),
        &mut counter,
    );
    match r {
        Err(Error::CodegenError) => {}
        _ => panic!("expected CodegenError"),
    }
}

#[test]
fn oversized_minimum_memory_is_invalid() {
    // A minimum of 65537 WebAssembly pages exceeds the 4 GiB heap
    // reservation: 0x10001 as LEB128 is 81 80 04.
    let memory = section(5, &[0x01, 0x00, 0x81, 0x80, 0x04]);
    let (mut vma_alloc, mut mapping, mut fa) = machine(512);
    let mut counter = 0u64;
    let r = run(
        &start_module(&[memory]),
        &mut RetGenerator,
        &mut vma_alloc,
        &mut mapping,
        &mut fa,
        &host(),
        &mut counter,
    );
    match r {
        Err(Error::MemoryError(wasmkernel::paging::MemoryError::InvalidRange)) => {}
        _ => panic!("expected InvalidRange"),
    }
}

#[test]
fn unsupported_import_is_rejected() {
    // An import from an unknown module fails instantiation.
    let mut m = empty_module();
    m.extend_from_slice(&section(1, &[0x01, 0x60, 0x00, 0x00]));
    let mut imp = vec![0x01];
    imp.push(3);
    imp.extend_from_slice(b"env");
    imp.push(1);
    imp.extend_from_slice(b"f");
    imp.extend_from_slice(&[0x00, 0x00]);
    m.extend_from_slice(&section(2, &imp));
    m.extend_from_slice(&section(3, &[0x01, 0x00]));
    m.extend_from_slice(&section(
        7,
        &[0x01, 0x06, 0x5F, 0x73, 0x74, 0x61, 0x72, 0x74, 0x00, 0x01],
    ));
    m.extend_from_slice(&section(10, &[0x01, 0x02, 0x00, 0x0B]));
    let (mut vma_alloc, mut mapping, mut fa) = machine(512);
    let mut counter = 0u64;
    let r = run(
        &m,
        &mut RetGenerator,
        &mut vma_alloc,
        &mut mapping,
        &mut fa,
        &host(),
        &mut counter,
    );
    match r {
        Err(Error::UnsupportedImport) => {}
        _ => panic!("expected UnsupportedImport"),
    }
}
