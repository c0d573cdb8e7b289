//! The WebAssembly compile-and-instantiate pipeline: the module
//! environment parsed from the binary, the relocation records, the
//! context record and the emit-link-instantiate steps.

pub mod module_env;
pub mod pipeline;
pub mod reloc;
pub mod vmctx;
