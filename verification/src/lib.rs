//! The verified core of a small x86-64 hobby kernel: heap bookkeeping,
//! framebuffer addressing, the text cursor and the exception table.

pub mod alloc_handler;
pub mod gfx;
pub mod interrupt;
pub mod small_vec;
