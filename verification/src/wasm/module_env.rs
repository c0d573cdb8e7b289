//! The module environment: a single pass over a WebAssembly binary that
//! records imports, function bodies, memories, tables, element segments,
//! data initializers, globals, exports and the optional start function.
//! Function indices are global: the first `|imports|` indices refer to
//! the imports, the rest to the defined functions in order.

use vstd::prelude::*;

verus! {

/// The module binary fails to parse or uses something unsupported.
#[derive(Clone, Copy, Debug, PartialEq, Eq, Structural)]
pub enum WasmError {
    /// The input ends in the middle of a construct.
    UnexpectedEnd,
    /// The magic number or version is wrong.
    BadMagic,
    /// A construct is malformed.
    Malformed,
    /// A well-formed construct this kernel does not support.
    Unsupported,
}

/// A function import: the module and field names it is resolved by.
pub struct FunctionImport {
    pub module: Vec<u8>,
    pub field: Vec<u8>,
    pub type_index: u32,
}

/// The raw body of one defined function and its offset in the binary.
pub struct FunctionBody {
    pub body: Vec<u8>,
    pub offset: usize,
}

/// A function signature: parameter and result value-type codes.
pub struct FuncType {
    pub params: Vec<u8>,
    pub results: Vec<u8>,
}

/// Linear-memory limits, in WebAssembly pages.
#[derive(Clone, Copy, Debug, PartialEq, Eq, Structural)]
pub struct MemoryLimits {
    pub minimum: u32,
    pub maximum: Option<u32>,
}

/// Table limits, in elements.
#[derive(Clone, Copy, Debug, PartialEq, Eq, Structural)]
pub struct TableLimits {
    pub minimum: u32,
    pub maximum: Option<u32>,
}

/// One element segment: function indices copied into a table at an
/// offset.
pub struct TableElements {
    pub index: u32,
    pub offset: u32,
    pub elements: Vec<u32>,
}

/// One data segment: bytes copied into a linear memory at an offset.
pub struct DataInitializer {
    pub memory_index: u32,
    pub offset: u32,
    pub data: Vec<u8>,
}

/// What an export refers to.
#[derive(Clone, Copy, Debug, PartialEq, Eq, Structural)]
pub enum Export {
    Function(u32),
    Table(u32),
    Memory(u32),
    Global(u32),
}

/// One export: a name bound to an item of the module.
pub struct ExportEntry {
    pub name: Vec<u8>,
    pub export: Export,
}

/// One global with its constant initial value.
#[derive(Clone, Copy, Debug, PartialEq, Eq, Structural)]
pub struct GlobalInit {
    pub value: i64,
}

/// Everything one pass over the binary records.
pub struct ModuleEnv {
    pub types: Vec<FuncType>,
    pub function_imports: Vec<FunctionImport>,
    pub func_types: Vec<u32>,
    pub func_bodies: Vec<FunctionBody>,
    pub memories: Vec<MemoryLimits>,
    pub tables: Vec<TableLimits>,
    pub table_elements: Vec<TableElements>,
    pub data_initializers: Vec<DataInitializer>,
    pub globals: Vec<GlobalInit>,
    pub exports: Vec<ExportEntry>,
    pub start_func: Option<u32>,
}

impl ModuleEnv {
    /// The number of function indices the module knows.
    pub open spec fn total_functions(self) -> int {
        self.function_imports@.len() + self.func_bodies@.len() as int
    }

    /// Every index recorded anywhere stays within the module.
    pub open spec fn wf(self) -> bool {
        &&& self.function_imports@.len() <= 0x10_0000
        &&& self.func_bodies@.len() <= 0x10_0000
        &&& self.func_types@.len() == self.func_bodies@.len()
        &&& match self.start_func {
            Some(i) => i < self.total_functions(),
            None => true,
        }
        &&& forall|e: int|
            0 <= e < self.exports@.len() ==> match (#[trigger] self.exports@[e]).export {
                Export::Function(i) => i < self.total_functions(),
                _ => true,
            }
        &&& forall|s: int|
            0 <= s < self.table_elements@.len() ==> (#[trigger] self.table_elements@[s]).index
                < self.tables@.len() && forall|j: int|
                0 <= j < self.table_elements@[s].elements@.len()
                    ==> #[trigger] self.table_elements@[s].elements@[j] < self.total_functions()
        &&& forall|d: int|
            0 <= d < self.data_initializers@.len()
                ==> (#[trigger] self.data_initializers@[d]).memory_index < self.memories@.len()
    }

    fn empty() -> (r: ModuleEnv)
        ensures
            r.types@.len() == 0,
            r.function_imports@.len() == 0,
            r.func_types@.len() == 0,
            r.func_bodies@.len() == 0,
            r.memories@.len() == 0,
            r.tables@.len() == 0,
            r.table_elements@.len() == 0,
            r.data_initializers@.len() == 0,
            r.globals@.len() == 0,
            r.exports@.len() == 0,
            r.start_func is None,
    {
        ModuleEnv {
            types: Vec::new(),
            function_imports: Vec::new(),
            func_types: Vec::new(),
            func_bodies: Vec::new(),
            memories: Vec::new(),
            tables: Vec::new(),
            table_elements: Vec::new(),
            data_initializers: Vec::new(),
            globals: Vec::new(),
            exports: Vec::new(),
            start_func: None,
        }
    }
}

/// The 8-byte preamble is `\0asm` followed by version 1.
pub open spec fn preamble_ok(d: Seq<u8>) -> bool {
    d.len() >= 8 && d[0] == 0 && d[1] == 0x61 && d[2] == 0x73 && d[3] == 0x6D && d[4] == 1 && d[5]
        == 0 && d[6] == 0 && d[7] == 0
}

fn read_byte(data: &[u8], pos: &mut usize) -> (r: Result<u8, WasmError>)
    ensures
        match r {
            Ok(_) => *old(pos) < data@.len() && *final(pos) == *old(pos) + 1,
            Err(e) => *final(pos) == *old(pos) && e != WasmError::BadMagic,
        },
{
    if *pos >= data.len() {
        return Err(WasmError::UnexpectedEnd);
    }
    let b = data[*pos];
    *pos = *pos + 1;
    Ok(b)
}

fn read_leb_u32(data: &[u8], pos: &mut usize) -> (r: Result<u32, WasmError>)
    requires
        *old(pos) <= data@.len(),
    ensures
        match r {
            Ok(_) => *old(pos) < *final(pos) <= data@.len(),
            Err(e) => (*old(pos) <= *final(pos) <= data@.len() || *final(pos) == *old(pos)) && e
                != WasmError::BadMagic,
        },
{
    let mut result: u32 = 0;
    let mut shift: u32 = 0;
    let mut k: usize = 0;
    while k < 5
        invariant
            k <= 5,
            shift == 7 * k,
            *old(pos) + k == *pos,
            *pos <= data@.len(),
            k > 0 ==> *old(pos) < *pos,
        decreases 5 - k,
    {
        let b = match read_byte(data, pos) {
            Ok(b) => b,
            Err(e) => {
                return Err(e);
            },
        };
        let low = (b & 0x7F) as u32;
        proof {
            let bb = b;
            assert((bb & 0x7F) < 128) by (bit_vector);
        }
        if shift <= 25 {
            let sh = shift;
            proof {
                assert((low << sh) <= u32::MAX) by (bit_vector)
                    requires
                        low < 128u32,
                        sh <= 25u32,
                ;
            }
            result = result | (low << shift);
        } else {
            // Bits past 32 must be zero.
            if b & 0x70 != 0 {
                return Err(WasmError::Malformed);
            }
            let sh = shift;
            proof {
                assert((low << sh) >= 0) by (bit_vector);
            }
            result = result | (low << shift);
        }
        if b & 0x80 == 0 {
            return Ok(result);
        }
        shift += 7;
        k += 1;
    }
    Err(WasmError::Malformed)
}

/// Reads a signed LEB128 value of at most 64 bits.
fn read_leb_i64(data: &[u8], pos: &mut usize) -> (r: Result<i64, WasmError>)
    requires
        *old(pos) <= data@.len(),
    ensures
        match r {
            Ok(_) => *old(pos) < *final(pos) <= data@.len(),
            Err(e) => (*old(pos) <= *final(pos) <= data@.len() || *final(pos) == *old(pos)) && e
                != WasmError::BadMagic,
        },
{
    let mut result: u64 = 0;
    let mut shift: u64 = 0;
    let mut k: usize = 0;
    while k < 10
        invariant
            k <= 10,
            shift == 7 * k,
            *old(pos) + k == *pos,
            *pos <= data@.len(),
            k > 0 ==> *old(pos) < *pos,
        decreases 10 - k,
    {
        let b = match read_byte(data, pos) {
            Ok(b) => b,
            Err(e) => {
                return Err(e);
            },
        };
        let low = (b & 0x7F) as u64;
        if shift <= 56 {
            let sh = shift;
            proof {
                assert((low << sh) <= u64::MAX) by (bit_vector);
            }
            result = result | (low << shift);
        }
        if b & 0x80 == 0 {
            // Sign-extend from the last group.
            if b & 0x40 != 0 && shift <= 56 {
                let sh = shift + 7;
                let ones: u64 = 0xFFFF_FFFF_FFFF_FFFF;
                proof {
                    assert((ones << sh) >= 0) by (bit_vector);
                }
                result = result | (ones << sh);
            }
            return Ok(result as i64);
        }
        shift += 7;
        k += 1;
    }
    Err(WasmError::Malformed)
}

fn read_bytes(data: &[u8], pos: &mut usize, len: usize) -> (r: Result<Vec<u8>, WasmError>)
    ensures
        match r {
            Ok(v) => v@.len() == len && *final(pos) == *old(pos) + len && *final(pos)
                <= data@.len(),
            Err(e) => *final(pos) == *old(pos) && e != WasmError::BadMagic,
        },
{
    let dlen = data.len();
    if len > dlen || *pos > dlen - len {
        return Err(WasmError::UnexpectedEnd);
    }
    let mut v: Vec<u8> = Vec::new();
    let mut k: usize = 0;
    while k < len
        invariant
            k <= len,
            v@.len() == k,
            dlen == data@.len(),
            *pos + len <= dlen,
            *old(pos) == *pos,
        decreases len - k,
    {
        v.push(data[*pos + k]);
        k += 1;
    }
    *pos = *pos + len;
    Ok(v)
}

/// Reads the constant expression `i32.const n; end` or `i64.const n;
/// end` that offsets and globals use.
fn read_const_expr(data: &[u8], pos: &mut usize) -> (r: Result<i64, WasmError>)
    requires
        *old(pos) <= data@.len(),
    ensures
        match r {
            Ok(_) => *old(pos) < *final(pos) <= data@.len(),
            Err(e) => (*old(pos) <= *final(pos) <= data@.len() || *final(pos) == *old(pos)) && e
                != WasmError::BadMagic,
        },
{
    let op = match read_byte(data, pos) {
        Ok(b) => b,
        Err(e) => {
            return Err(e);
        },
    };
    if op != 0x41 && op != 0x42 {
        return Err(WasmError::Unsupported);
    }
    let v = match read_leb_i64(data, pos) {
        Ok(v) => v,
        Err(e) => {
            return Err(e);
        },
    };
    let end = match read_byte(data, pos) {
        Ok(b) => b,
        Err(e) => {
            return Err(e);
        },
    };
    if end != 0x0B {
        return Err(WasmError::Malformed);
    }
    Ok(v)
}

fn read_limits_u32(data: &[u8], pos: &mut usize) -> (r: Result<(u32, Option<u32>), WasmError>)
    requires
        *old(pos) <= data@.len(),
    ensures
        match r {
            Ok(_) => *old(pos) < *final(pos) <= data@.len(),
            Err(e) => (*old(pos) <= *final(pos) <= data@.len() || *final(pos) == *old(pos)) && e
                != WasmError::BadMagic,
        },
{
    let kind = match read_byte(data, pos) {
        Ok(b) => b,
        Err(e) => {
            return Err(e);
        },
    };
    let minimum = match read_leb_u32(data, pos) {
        Ok(v) => v,
        Err(e) => {
            return Err(e);
        },
    };
    if kind == 0 {
        Ok((minimum, None))
    } else if kind == 1 {
        let maximum = match read_leb_u32(data, pos) {
            Ok(v) => v,
            Err(e) => {
                return Err(e);
            },
        };
        Ok((minimum, Some(maximum)))
    } else {
        Err(WasmError::Malformed)
    }
}

fn read_name(data: &[u8], pos: &mut usize) -> (r: Result<Vec<u8>, WasmError>)
    requires
        *old(pos) <= data@.len(),
    ensures
        match r {
            Ok(_) => *old(pos) <= *final(pos) <= data@.len(),
            Err(e) => (*old(pos) <= *final(pos) <= data@.len() || *final(pos) == *old(pos)) && e
                != WasmError::BadMagic,
        },
{
    let len = match read_leb_u32(data, pos) {
        Ok(v) => v,
        Err(e) => {
            return Err(e);
        },
    };
    if len > 0xFFFF {
        return Err(WasmError::Malformed);
    }
    read_bytes(data, pos, len as usize)
}

/// Checks that every recorded index points inside the module.
fn validate(env: &ModuleEnv) -> (r: Result<(), WasmError>)
    ensures
        r is Ok ==> env.wf(),
        r matches Err(e) ==> e != WasmError::BadMagic,
{
    if env.func_types.len() != env.func_bodies.len() {
        return Err(WasmError::Malformed);
    }
    if env.function_imports.len() > 0x10_0000 || env.func_bodies.len() > 0x10_0000 {
        return Err(WasmError::Malformed);
    }
    let total: u64 = env.function_imports.len() as u64 + env.func_bodies.len() as u64;
    if let Some(i) = env.start_func {
        if i as u64 >= total {
            return Err(WasmError::Malformed);
        }
    }
    let mut e: usize = 0;
    while e < env.exports.len()
        invariant
            e <= env.exports@.len(),
            total == env.function_imports@.len() + env.func_bodies@.len(),
            forall|x: int|
                0 <= x < e ==> match (#[trigger] env.exports@[x]).export {
                    Export::Function(i) => i < total,
                    _ => true,
                },
        decreases env.exports@.len() - e,
    {
        if let Export::Function(i) = env.exports[e].export {
            if i as u64 >= total {
                return Err(WasmError::Malformed);
            }
        }
        e += 1;
    }
    let mut s: usize = 0;
    while s < env.table_elements.len()
        invariant
            s <= env.table_elements@.len(),
            total == env.function_imports@.len() + env.func_bodies@.len(),
            forall|x: int|
                0 <= x < s ==> (#[trigger] env.table_elements@[x]).index < env.tables@.len()
                    && forall|j: int|
                    0 <= j < env.table_elements@[x].elements@.len()
                        ==> #[trigger] env.table_elements@[x].elements@[j] < total,
        decreases env.table_elements@.len() - s,
    {
        let seg = &env.table_elements[s];
        if seg.index as usize >= env.tables.len() {
            return Err(WasmError::Malformed);
        }
        let mut j: usize = 0;
        while j < seg.elements.len()
            invariant
                j <= seg.elements@.len(),
                seg == &env.table_elements@[s as int],
                s < env.table_elements@.len(),
                total == env.function_imports@.len() + env.func_bodies@.len(),
                forall|x: int|
                    0 <= x < j ==> #[trigger] env.table_elements@[s as int].elements@[x] < total,
            decreases seg.elements@.len() - j,
        {
            if seg.elements[j] as u64 >= total {
                return Err(WasmError::Malformed);
            }
            j += 1;
        }
        s += 1;
    }
    let mut d: usize = 0;
    while d < env.data_initializers.len()
        invariant
            d <= env.data_initializers@.len(),
            forall|x: int|
                0 <= x < d ==> (#[trigger] env.data_initializers@[x]).memory_index
                    < env.memories@.len(),
        decreases env.data_initializers@.len() - d,
    {
        if env.data_initializers[d].memory_index as usize >= env.memories.len() {
            return Err(WasmError::Malformed);
        }
        d += 1;
    }
    Ok(())
}

/// Parses a WebAssembly module binary into its environment.
#[verifier::loop_isolation(false)]
pub fn parse_module(data: &[u8]) -> (r: Result<ModuleEnv, WasmError>)
    ensures
        match r {
            Ok(env) => env.wf(),
            Err(_) => true,
        },
        // The preamble decides `BadMagic`, and nothing else does.
        r == Err::<ModuleEnv, WasmError>(WasmError::BadMagic) <==> data@.len() >= 8
            && !preamble_ok(data@),
        data@.len() < 8 ==> r == Err::<ModuleEnv, WasmError>(WasmError::UnexpectedEnd),
{
    let mut pos: usize = 0;
    if data.len() < 8 {
        return Err(WasmError::UnexpectedEnd);
    }
    if data[0] != 0 || data[1] != 0x61 || data[2] != 0x73 || data[3] != 0x6D {
        return Err(WasmError::BadMagic);
    }
    if data[4] != 1 || data[5] != 0 || data[6] != 0 || data[7] != 0 {
        return Err(WasmError::BadMagic);
    }
    pos = 8;
    let mut env = ModuleEnv::empty();
    while pos < data.len()
        invariant
            pos <= data@.len(),
        decreases data@.len() - pos,
    {
        let id = match read_byte(data, &mut pos) {
            Ok(b) => b,
            Err(e) => {
                return Err(e);
            },
        };
        let size = match read_leb_u32(data, &mut pos) {
            Ok(v) => v,
            Err(e) => {
                return Err(e);
            },
        };
        if size as usize > data.len() || pos > data.len() - size as usize {
            return Err(WasmError::UnexpectedEnd);
        }
        let section_end = pos + size as usize;
        match parse_section(data, &mut pos, id, section_end, &mut env) {
            Ok(()) => {},
            Err(e) => {
                return Err(e);
            },
        }
        if pos != section_end {
            return Err(WasmError::Malformed);
        }
    }
    match validate(&env) {
        Ok(()) => Ok(env),
        Err(e) => Err(e),
    }
}

/// Parses the content of one section.
fn parse_section(
    data: &[u8],
    pos: &mut usize,
    id: u8,
    section_end: usize,
    env: &mut ModuleEnv,
) -> (r: Result<(), WasmError>)
    requires
        *old(pos) <= section_end <= data@.len(),
    ensures
        *final(pos) <= data@.len(),
        r matches Err(e) ==> e != WasmError::BadMagic,
{
    if id == 0 {
        // Custom section: skipped.
        *pos = section_end;
        return Ok(());
    }
    let count = match read_leb_u32(data, pos) {
        Ok(v) => v,
        Err(e) => {
            return Err(e);
        },
    };
    if id == 8 {
        // The start section holds one function index, not a vector; the
        // value read is the index itself.
        env.start_func = Some(count);
        return Ok(());
    }
    let mut n: u32 = 0;
    while n < count
        invariant
            *pos <= data@.len(),
        decreases count - n,
    {
        match parse_item(data, pos, id, env) {
            Ok(()) => {},
            Err(e) => {
                return Err(e);
            },
        }
        n += 1;
    }
    Ok(())
}

/// Parses one item of a vector-shaped section.
fn parse_item(data: &[u8], pos: &mut usize, id: u8, env: &mut ModuleEnv) -> (r: Result<
    (),
    WasmError,
>)
    requires
        *old(pos) <= data@.len(),
    ensures
        *final(pos) <= data@.len(),
        r matches Err(e) ==> e != WasmError::BadMagic,
{
    if id == 1 {
        // Type section: `func` signatures.
        let form = match read_byte(data, pos) {
            Ok(b) => b,
            Err(e) => {
                return Err(e);
            },
        };
        if form != 0x60 {
            return Err(WasmError::Malformed);
        }
        let params = match read_name(data, pos) {
            Ok(v) => v,
            Err(e) => {
                return Err(e);
            },
        };
        let results = match read_name(data, pos) {
            Ok(v) => v,
            Err(e) => {
                return Err(e);
            },
        };
        env.types.push(FuncType { params, results });
        Ok(())
    } else if id == 2 {
        // Import section; only function imports are supported.
        let module = match read_name(data, pos) {
            Ok(v) => v,
            Err(e) => {
                return Err(e);
            },
        };
        let field = match read_name(data, pos) {
            Ok(v) => v,
            Err(e) => {
                return Err(e);
            },
        };
        let kind = match read_byte(data, pos) {
            Ok(b) => b,
            Err(e) => {
                return Err(e);
            },
        };
        if kind != 0 {
            return Err(WasmError::Unsupported);
        }
        let type_index = match read_leb_u32(data, pos) {
            Ok(v) => v,
            Err(e) => {
                return Err(e);
            },
        };
        env.function_imports.push(FunctionImport { module, field, type_index });
        Ok(())
    } else if id == 3 {
        // Function section: the type of each defined function.
        let t = match read_leb_u32(data, pos) {
            Ok(v) => v,
            Err(e) => {
                return Err(e);
            },
        };
        env.func_types.push(t);
        Ok(())
    } else if id == 4 {
        // Table section.
        let elem_type = match read_byte(data, pos) {
            Ok(b) => b,
            Err(e) => {
                return Err(e);
            },
        };
        if elem_type != 0x70 {
            return Err(WasmError::Unsupported);
        }
        let (minimum, maximum) = match read_limits_u32(data, pos) {
            Ok(v) => v,
            Err(e) => {
                return Err(e);
            },
        };
        env.tables.push(TableLimits { minimum, maximum });
        Ok(())
    } else if id == 5 {
        // Memory section.
        let (minimum, maximum) = match read_limits_u32(data, pos) {
            Ok(v) => v,
            Err(e) => {
                return Err(e);
            },
        };
        env.memories.push(MemoryLimits { minimum, maximum });
        Ok(())
    } else if id == 6 {
        // Global section: type, mutability and a constant initializer.
        let _valtype = match read_byte(data, pos) {
            Ok(b) => b,
            Err(e) => {
                return Err(e);
            },
        };
        let _mutability = match read_byte(data, pos) {
            Ok(b) => b,
            Err(e) => {
                return Err(e);
            },
        };
        let value = match read_const_expr(data, pos) {
            Ok(v) => v,
            Err(e) => {
                return Err(e);
            },
        };
        env.globals.push(GlobalInit { value });
        Ok(())
    } else if id == 7 {
        // Export section.
        let name = match read_name(data, pos) {
            Ok(v) => v,
            Err(e) => {
                return Err(e);
            },
        };
        let kind = match read_byte(data, pos) {
            Ok(b) => b,
            Err(e) => {
                return Err(e);
            },
        };
        let index = match read_leb_u32(data, pos) {
            Ok(v) => v,
            Err(e) => {
                return Err(e);
            },
        };
        let export = if kind == 0 {
            Export::Function(index)
        } else if kind == 1 {
            Export::Table(index)
        } else if kind == 2 {
            Export::Memory(index)
        } else if kind == 3 {
            Export::Global(index)
        } else {
            return Err(WasmError::Malformed);
        };
        env.exports.push(ExportEntry { name, export });
        Ok(())
    } else if id == 9 {
        // Element section: active segments with a constant offset.
        let index = match read_leb_u32(data, pos) {
            Ok(v) => v,
            Err(e) => {
                return Err(e);
            },
        };
        let offset = match read_const_expr(data, pos) {
            Ok(v) => v,
            Err(e) => {
                return Err(e);
            },
        };
        if offset < 0 || offset > u32::MAX as i64 {
            return Err(WasmError::Malformed);
        }
        let n = match read_leb_u32(data, pos) {
            Ok(v) => v,
            Err(e) => {
                return Err(e);
            },
        };
        if n > 0xFFFF {
            return Err(WasmError::Malformed);
        }
        let mut elements: Vec<u32> = Vec::new();
        let mut k: u32 = 0;
        while k < n
            invariant
                *pos <= data@.len(),
            decreases n - k,
        {
            let f = match read_leb_u32(data, pos) {
                Ok(v) => v,
                Err(e) => {
                    return Err(e);
                },
            };
            elements.push(f);
            k += 1;
        }
        env.table_elements.push(TableElements { index, offset: offset as u32, elements });
        Ok(())
    } else if id == 10 {
        // Code section: the raw bytes of one function body.
        let size = match read_leb_u32(data, pos) {
            Ok(v) => v,
            Err(e) => {
                return Err(e);
            },
        };
        let offset = *pos;
        let body = match read_bytes(data, pos, size as usize) {
            Ok(v) => v,
            Err(e) => {
                return Err(e);
            },
        };
        env.func_bodies.push(FunctionBody { body, offset });
        Ok(())
    } else if id == 11 {
        // Data section: active segments with a constant offset.
        let memory_index = match read_leb_u32(data, pos) {
            Ok(v) => v,
            Err(e) => {
                return Err(e);
            },
        };
        let offset = match read_const_expr(data, pos) {
            Ok(v) => v,
            Err(e) => {
                return Err(e);
            },
        };
        if offset < 0 || offset > u32::MAX as i64 {
            return Err(WasmError::Malformed);
        }
        let n = match read_leb_u32(data, pos) {
            Ok(v) => v,
            Err(e) => {
                return Err(e);
            },
        };
        if n as usize > data.len() {
            return Err(WasmError::UnexpectedEnd);
        }
        let bytes = match read_bytes(data, pos, n as usize) {
            Ok(v) => v,
            Err(e) => {
                return Err(e);
            },
        };
        env.data_initializers.push(
            DataInitializer { memory_index, offset: offset as u32, data: bytes },
        );
        Ok(())
    } else {
        Err(WasmError::Malformed)
    }
}

} // verus!
