//! A verified model of the memory-and-execution substrate of a small
//! WebAssembly microkernel: physical frame allocation, hierarchical paging,
//! virtual-memory areas, threads, and the compile-and-instantiate pipeline
//! that turns a module binary into a runnable thread.

pub mod addr;
pub mod boot;
pub mod cpu;
pub mod frame;
pub mod table;
pub mod paging;
pub mod vma;
pub mod wait_queue;
pub mod buddy;
pub mod thread;
pub mod wasm;
