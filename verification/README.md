# kernel

The verified core of a small x86-64 hobby kernel, written in Verus.

- `src/alloc_handler/` — the memory map as the allocators read it (`memmap`),
  the regions the optimised build hands to its heap (`opt`), and the padded
  first-fit allocator of debug builds (`dbg`).
- `src/small_vec.rs` — the `smallvec` lists that the debug allocator keeps.
- `src/gfx.rs` — the text cursor and the framebuffer cells a drawing writes.
- `src/interrupt.rs` — the exceptions the kernel handles and the table that
  routes a vector to its handler.
- `app/` — the freestanding kernel binary around the library: boot entry,
  bootloader requests, framebuffer and heap glue, interrupt handlers. It
  needs a nightly toolchain and a bare-metal target.

There is no font renderer here: glyph rasterising is floating-point work and
stays outside the verified library.

The debug allocator keeps its blocks in a fixed array of `MAX_BLOCK_COUNT`
slots, and the interrupt table is a fixed array too, so neither allocates.
The debug allocator's gap and allocation lists are `SmallVec`s stored inline
for two gaps and five allocations; past that they grow on the heap, which,
from inside the global allocator's own lock, is a re-entrant allocation.
