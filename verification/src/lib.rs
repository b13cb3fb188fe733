//! Snapshot fuzzing of code that runs inside a hardware-virtualized guest.
//!
//! The library holds the guest's memory (a physical arena, the page tables in
//! it and the virtual address space they describe), the state of the virtual
//! machine around it (register templates, coverage breakpoints, reset and exit
//! handling) and the fuzzer's own rules (corpus, input scheduling, phases).
//! The hypervisor, threads, files and the command line are driven from outside
//! the library, which is handed plain values and hands plain values back.

pub mod paging;
pub mod memory;
pub mod x64;
pub mod vm;
pub mod text;
pub mod snapshot;
pub mod corpus;
pub mod config;
pub mod fuzz;
