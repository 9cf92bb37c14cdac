//! Anything related to allocation: the memory map, the heap that the
//! optimised build claims, and the padded first-fit allocator of debug builds.

pub mod dbg;
pub mod memmap;
pub mod opt;
