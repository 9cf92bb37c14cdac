//! Framebuffer text output: where each character goes and which framebuffer
//! cells a batch of pixels writes.

use embedded_graphics::pixelcolor::Rgb888;
use embedded_graphics::pixelcolor::IntoStorage;
use vstd::prelude::*;

verus! {

/// Height of a text line in pixels (the 10x20 font).
pub const LINE_HEIGHT: i32 = 20;

/// The text cursor: where the next character is drawn.
#[derive(Copy, Clone, Default, Debug, PartialEq, Eq)]
pub struct TextInfo {
    pub pos: (i32, i32),
}

/// The cursor has run past the right edge of a screen `width` pixels wide.
pub open spec fn past_right_edge(pos: (i32, i32), width: u64) -> bool {
    pos.0 + 1 > width as i32
}

impl TextInfo {
    /// Starts a character on a screen `width` pixels wide: where the cursor
    /// has run past the right edge it moves to the start of the next line.
    /// Returns where the character is to be drawn.
    pub fn begin_char(&mut self, width: u64) -> (at: (i32, i32))
        requires
            old(self).pos.0 < i32::MAX,
            past_right_edge(old(self).pos, width) ==> old(self).pos.1 + LINE_HEIGHT <= i32::MAX,
        ensures
            final(self).pos == (if past_right_edge(old(self).pos, width) {
                (0i32, (old(self).pos.1 + LINE_HEIGHT) as i32)
            } else {
                old(self).pos
            }),
            at == final(self).pos,
            old(self).pos.0 >= width as i32 ==> at == (0i32, (old(self).pos.1 + LINE_HEIGHT) as i32),
            old(self).pos.0 < width as i32 ==> at == old(self).pos,
    {
        if self.pos.0 + 1 > width as i32 {
            self.pos.0 = 0;
            self.pos.1 = self.pos.1 + LINE_HEIGHT;
        }
        self.pos
    }

    /// Finishes character `c`, whose drawing ended at `next`: the cursor
    /// moves there, and back to the left edge after a newline.
    pub fn end_char(&mut self, next: (i32, i32), c: char)
        ensures
            final(self).pos == (if c == '\n' {
                (0i32, next.1)
            } else {
                next
            }),
    {
        self.pos = next;
        if c == '\n' {
            self.pos.0 = 0;
        }
    }
}

/// A pixel to draw: its coordinates and its colour.
#[derive(Clone, Copy, Debug, PartialEq, Eq)]
pub struct Pixel {
    pub x: i32,
    pub y: i32,
    pub r: u8,
    pub g: u8,
    pub b: u8,
}

/// A write of one framebuffer cell.
#[derive(Clone, Copy, Debug, PartialEq, Eq)]
pub struct PixelWrite {
    /// Index of the 32-bit cell.
    pub index: usize,
    /// Value stored there.
    pub value: u32,
}

/// The point lies on a screen of `width` by `height` pixels.
pub open spec fn in_bounds(x: i32, y: i32, width: u64, height: u64) -> bool {
    0 <= x < width as i32 && 0 <= y < height as i32
}

/// The cell of an on-screen point, row after row.
pub open spec fn cell_index(x: i32, y: i32, width: u64) -> int {
    x + y * (width as i32)
}

/// The cell index of an on-screen point fits the 32-bit arithmetic that
/// computes it.
pub open spec fn index_computable(x: i32, y: i32, width: u64, height: u64) -> bool {
    in_bounds(x, y, width, height) ==> cell_index(x, y, width) <= i32::MAX
}

/// The 32-bit storage of an RGB colour with eight bits per channel: `0x00RRGGBB`.
pub open spec fn rgb888_storage(r: u8, g: u8, b: u8) -> u32 {
    (r as u32 * 0x10000 + g as u32 * 0x100 + b as u32) as u32
}

/// `Rgb888::new(r, g, b).into_storage()`: the colour packed as `0x00RRGGBB`.
#[verifier::external_body]
fn rgb888_into_storage(r: u8, g: u8, b: u8) -> (v: u32)
    ensures
        v == rgb888_storage(r, g, b),
{
    Rgb888::new(r, g, b).into_storage()
}

/// The cell that an on-screen point of a screen `width` by `height` pixels
/// falls in; `None` for a point off the screen.
pub fn pixel_index(x: i32, y: i32, width: u64, height: u64) -> (r: Option<usize>)
    requires
        index_computable(x, y, width, height),
    ensures
        r == (if in_bounds(x, y, width, height) {
            Some(cell_index(x, y, width) as usize)
        } else {
            None::<usize>
        }),
{
    let w = width as i32;
    let h = height as i32;
    if 0 <= x && x < w && 0 <= y && y < h {
        proof {
            assert(0 <= y * w <= x + y * w) by (nonlinear_arith)
                requires
                    0 <= x,
                    0 <= y,
                    0 < w,
            ;
        }
        let index = (x + y * w) as u32;
        Some(index as usize)
    } else {
        None
    }
}

/// The write that drawing `p` makes, if `p` is on the screen.
pub open spec fn write_of(p: Pixel, width: u64, height: u64) -> Option<PixelWrite> {
    if in_bounds(p.x, p.y, width, height) {
        Some(
            PixelWrite {
                index: cell_index(p.x, p.y, width) as usize,
                value: rgb888_storage(p.r, p.g, p.b),
            },
        )
    } else {
        None
    }
}

/// The writes that drawing `pixels` makes, in order.
pub open spec fn planned_writes(pixels: Seq<Pixel>, width: u64, height: u64) -> Seq<PixelWrite>
    decreases pixels.len(),
{
    if pixels.len() == 0 {
        Seq::empty()
    } else {
        let rest = planned_writes(pixels.drop_last(), width, height);
        match write_of(pixels.last(), width, height) {
            Some(w) => rest.push(w),
            None => rest,
        }
    }
}

/// The framebuffer write that drawing `p` on a screen `width` by `height`
/// pixels makes: its colour packed into the cell of its point; nothing for a
/// point off the screen.
pub fn pixel_write(width: u64, height: u64, p: Pixel) -> (r: Option<PixelWrite>)
    requires
        index_computable(p.x, p.y, width, height),
    ensures
        r == write_of(p, width, height),
{
    match pixel_index(p.x, p.y, width, height) {
        Some(index) => {
            let value = rgb888_into_storage(p.r, p.g, p.b);
            Some(PixelWrite { index, value })
        },
        None => None,
    }
}

/// The framebuffer writes that drawing `pixels` on a screen `width` by
/// `height` pixels makes: one per on-screen pixel, in order; off-screen
/// pixels are dropped.
pub fn draw_iter(width: u64, height: u64, pixels: &[Pixel]) -> (writes: Vec<PixelWrite>)
    requires
        forall|i: int|
            0 <= i < pixels@.len() ==> index_computable(
                #[trigger] pixels@[i].x,
                pixels@[i].y,
                width,
                height,
            ),
    ensures
        writes@ == planned_writes(pixels@, width, height),
{
    let mut writes: Vec<PixelWrite> = Vec::new();
    let mut i: usize = 0;
    while i < pixels.len()
        invariant
            i <= pixels@.len(),
            forall|k: int|
                0 <= k < pixels@.len() ==> index_computable(
                    #[trigger] pixels@[k].x,
                    pixels@[k].y,
                    width,
                    height,
                ),
            writes@ == planned_writes(pixels@.take(i as int), width, height),
        decreases pixels@.len() - i,
    {
        let p = pixels[i];
        proof {
            assert(pixels@.take(i as int + 1).drop_last() =~= pixels@.take(i as int));
            assert(index_computable(pixels@[i as int].x, pixels@[i as int].y, width, height));
        }
        if let Some(w) = pixel_write(width, height, p) {
            writes.push(w);
        }
        i = i + 1;
    }
    assert(pixels@.take(pixels@.len() as int) =~= pixels@);
    writes
}

/// Law (line wrap): the cursor wraps exactly when it stands at or past the
/// right edge, and a character is then drawn at the left edge of the next
/// line; otherwise it is drawn where the cursor stands, left of the edge.
/// Either way the character starts on the screen's width or at column 0.
pub proof fn lemma_cursor_wraps_past_edge(pos: (i32, i32), width: u64)
    ensures
        past_right_edge(pos, width) <==> pos.0 >= width as i32,
        ({
            let at = if past_right_edge(pos, width) {
                (0i32, (pos.1 + LINE_HEIGHT) as i32)
            } else {
                pos
            };
            at.0 == 0 || at.0 < width as i32
        }),
{
}

/// Law (one pixel): a point with `0 <= x < width` and `0 <= y < height`
/// writes its colour, packed as `0x00RRGGBB`, into cell `x + y * width`,
/// whatever the colour; any other point writes nothing.
pub proof fn lemma_pixel_write_exact(p: Pixel, width: u64, height: u64)
    ensures
        (0 <= p.x < width as i32 && 0 <= p.y < height as i32) ==> write_of(p, width, height)
            == Some(
            PixelWrite {
                index: (p.x + p.y * (width as i32)) as usize,
                value: (p.r as u32 * 0x10000 + p.g as u32 * 0x100 + p.b as u32) as u32,
            },
        ),
        !(0 <= p.x < width as i32 && 0 <= p.y < height as i32) ==> write_of(p, width, height) is None,
        in_bounds(p.x, p.y, width, height) <==> (0 <= p.x < width as i32 && 0 <= p.y < height as i32),
        cell_index(p.x, p.y, width) == p.x + p.y * (width as i32),
{
}

/// The on-screen pixels of `pixels`, in order.
pub open spec fn visible_pixels(pixels: Seq<Pixel>, width: u64, height: u64) -> Seq<Pixel> {
    pixels.filter(|p: Pixel| 0 <= p.x < width as i32 && 0 <= p.y < height as i32)
}

/// Law (a batch): drawing writes once per on-screen pixel, in order, and the
/// `k`-th write is the cell `x + y * width` and the packed colour of the
/// `k`-th on-screen pixel, whatever its colour.
pub proof fn lemma_draw_writes_every_visible_pixel(pixels: Seq<Pixel>, width: u64, height: u64)
    ensures
        planned_writes(pixels, width, height).len() == visible_pixels(pixels, width, height).len(),
        forall|k: int|
            0 <= k < planned_writes(pixels, width, height).len() ==> {
                let p = #[trigger] visible_pixels(pixels, width, height)[k];
                planned_writes(pixels, width, height)[k] == PixelWrite {
                    index: (p.x + p.y * (width as i32)) as usize,
                    value: (p.r as u32 * 0x10000 + p.g as u32 * 0x100 + p.b as u32) as u32,
                }
            },
    decreases pixels.len(),
{
    if pixels.len() > 0 {
        lemma_draw_writes_every_visible_pixel(pixels.drop_last(), width, height);
        lemma_pixel_write_exact(pixels.last(), width, height);
        reveal_with_fuel(Seq::<Pixel>::filter, 1);
        assert(visible_pixels(pixels, width, height) == {
            let rest = visible_pixels(pixels.drop_last(), width, height);
            let p = pixels.last();
            if 0 <= p.x < width as i32 && 0 <= p.y < height as i32 {
                rest.push(p)
            } else {
                rest
            }
        });
    }
}

/// Law: every cell that drawing writes lies inside the visible frame of
/// `width` by `height` cells, and no more cells are written than pixels given.
pub proof fn lemma_writes_inside_frame(pixels: Seq<Pixel>, width: u64, height: u64)
    requires
        forall|i: int|
            0 <= i < pixels.len() ==> index_computable(
                #[trigger] pixels[i].x,
                pixels[i].y,
                width,
                height,
            ),
    ensures
        planned_writes(pixels, width, height).len() <= pixels.len(),
        forall|k: int|
            0 <= k < planned_writes(pixels, width, height).len() ==> (
            #[trigger] planned_writes(pixels, width, height)[k]).index < (width as i32) * (
            height as i32),
    decreases pixels.len(),
{
    if pixels.len() > 0 {
        let init = pixels.drop_last();
        assert forall|i: int| 0 <= i < init.len() implies index_computable(
            #[trigger] init[i].x,
            init[i].y,
            width,
            height,
        ) by {
            assert(init[i] == pixels[i]);
        }
        lemma_writes_inside_frame(init, width, height);
        let p = pixels.last();
        assert(index_computable(pixels[pixels.len() - 1].x, pixels[pixels.len() - 1].y, width, height));
        if in_bounds(p.x, p.y, width, height) {
            let w = width as i32;
            let h = height as i32;
            let x = p.x;
            let y = p.y;
            assert(x + y * w < w * h && 0 <= x + y * w) by (nonlinear_arith)
                requires
                    0 <= x < w,
                    0 <= y < h,
            {
                assert(y * w + w <= h * w);
            }
        }
    }
}

} // verus!
