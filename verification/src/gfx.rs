//! The display of the CHIP-8 machine: a 64x32 grid of 1-bit pixels (stored
//! as bytes, 0 for off and nonzero for on), drawn on by XOR-compositing
//! 8-pixel-wide sprites, with collision detection against the pre-draw state.

use vstd::prelude::*;

use vstd::arithmetic::div_mod::lemma_fundamental_div_mod_converse_div;
use vstd::arithmetic::div_mod::lemma_fundamental_div_mod_converse_mod;

verus! {

/// Width of the display in pixels.
pub const GFX_WIDTH: usize = 64;

/// Height of the display in pixels.
pub const GFX_HEIGHT: usize = 32;

/// Number of pixels in the framebuffer.
pub const GFX_SIZE: usize = GFX_WIDTH * GFX_HEIGHT;

/// The framebuffer plus a dirty flag for the renderer.  `buf` always holds
/// exactly `GFX_SIZE` entries, row-major: pixel `(x, y)` is `buf[y * 64 + x]`.
pub struct Gfx {
    pub buf: Vec<u8>,
    pub dirty: bool,
}

/// Row-major index of pixel `(x, y)`.
pub open spec fn pixel_index(x: int, y: int) -> int {
    y * 64 + x
}

/// Whether bit `dx` of sprite row `row` is set, counting from the most
/// significant bit: bit 0 is the leftmost pixel of the row.
pub open spec fn sprite_bit(row: u8, dx: int) -> bool {
    row & (0x80u8 >> (dx as u8)) != 0
}

/// The framebuffer after XOR-drawing `sprite` (one byte per row, 8 pixels
/// wide) with its top-left corner at `(x0, y0)`.  Pixels that fall off the
/// right or bottom edge are clipped.  Meaningful for `0 <= x0 < 64` and
/// `0 <= y0 < 32`.
pub open spec fn drawn_buf(buf: Seq<u8>, x0: int, y0: int, sprite: Seq<u8>) -> Seq<u8> {
    Seq::new(buf.len(), |j: int| {
        let px = j % 64;
        let py = j / 64;
        if x0 <= px < x0 + 8 && y0 <= py < y0 + sprite.len()
            && sprite_bit(sprite[py - y0], px - x0) {
            buf[j] ^ 0xFFu8
        } else {
            buf[j]
        }
    })
}

/// Whether drawing `sprite` at `(x0, y0)` collides: some on-screen pixel was
/// already set before the draw and the sprite bit aimed at it is set too.
pub open spec fn draw_collision(buf: Seq<u8>, x0: int, y0: int, sprite: Seq<u8>) -> bool {
    exists|dx: int, dy: int|
        0 <= dx < 8 && 0 <= dy < sprite.len()
        && x0 + dx < 64 && y0 + dy < 32
        && buf[pixel_index(x0 + dx, y0 + dy)] != 0
        && sprite_bit(sprite[dy], dx)
}

/// `drawn_buf` restricted to the sprite bits already processed when the draw
/// loop stands at row `dy`, column `dx`: all rows before `dy` whole, and the
/// first `dx` columns of row `dy`.
spec fn drawn_buf_upto(buf: Seq<u8>, x0: int, y0: int, sprite: Seq<u8>, dy: int, dx: int) -> Seq<u8> {
    Seq::new(buf.len(), |j: int| {
        let px = j % 64;
        let py = j / 64;
        if x0 <= px < x0 + 8 && y0 <= py < y0 + sprite.len()
            && (py - y0 < dy || (py - y0 == dy && px - x0 < dx))
            && sprite_bit(sprite[py - y0], px - x0) {
            buf[j] ^ 0xFFu8
        } else {
            buf[j]
        }
    })
}

/// `draw_collision` restricted in the same way as `drawn_buf_upto`.
spec fn draw_collision_upto(buf: Seq<u8>, x0: int, y0: int, sprite: Seq<u8>, dy: int, dx: int) -> bool {
    exists|cx: int, cy: int|
        0 <= cx < 8 && 0 <= cy < sprite.len()
        && (cy < dy || (cy == dy && cx < dx))
        && x0 + cx < 64 && y0 + cy < 32
        && buf[pixel_index(x0 + cx, y0 + cy)] != 0
        && sprite_bit(sprite[cy], cx)
}

/// On a display with every pixel off, no draw can collide.
pub proof fn lemma_draw_on_clear_no_collision(buf: Seq<u8>, x0: int, y0: int, sprite: Seq<u8>)
    requires
        buf.len() == 2048,
        0 <= x0 < 64,
        0 <= y0 < 32,
        forall|j: int| 0 <= j < buf.len() ==> buf[j] == 0u8,
    ensures
        !draw_collision(buf, x0, y0, sprite),
{
    if draw_collision(buf, x0, y0, sprite) {
        let (dx, dy) = choose|dx: int, dy: int|
            0 <= dx < 8 && 0 <= dy < sprite.len()
            && x0 + dx < 64 && y0 + dy < 32
            && buf[pixel_index(x0 + dx, y0 + dy)] != 0
            && sprite_bit(sprite[dy], dx);
        lemma_pixel_coords(x0 + dx, y0 + dy);
        assert(false);
    }
}

/// Drawing the same sprite at the same place twice restores the display:
/// XOR compositing is its own inverse, pixel by pixel.
pub proof fn lemma_draw_twice_restores(buf: Seq<u8>, x0: int, y0: int, sprite: Seq<u8>)
    requires
        buf.len() == 2048,
    ensures
        drawn_buf(drawn_buf(buf, x0, y0, sprite), x0, y0, sprite) =~= buf,
{
    let once = drawn_buf(buf, x0, y0, sprite);
    let twice = drawn_buf(once, x0, y0, sprite);
    assert forall|j: int| 0 <= j < 2048 implies twice[j] == buf[j] by {
        let b = buf[j];
        assert((b ^ 0xFFu8) ^ 0xFFu8 == b) by (bit_vector);
    }
}

/// A pixel index decomposes back into its coordinates.
proof fn lemma_pixel_coords(x: int, y: int)
    requires
        0 <= x < 64,
        0 <= y < 32,
    ensures
        0 <= pixel_index(x, y) < 2048,
        pixel_index(x, y) % 64 == x,
        pixel_index(x, y) / 64 == y,
{
    lemma_fundamental_div_mod_converse_mod(y * 64 + x, 64, y, x);
    lemma_fundamental_div_mod_converse_div(y * 64 + x, 64, y, x);
}

/// XOR with zero changes nothing.
proof fn lemma_xor_zero(b: u8)
    ensures
        b ^ 0u8 == b,
{
    assert(b ^ 0u8 == b) by (bit_vector);
}

impl Gfx {
    /// The framebuffer has one byte per pixel.
    pub open spec fn wf(self) -> bool {
        self.buf@.len() == GFX_SIZE
    }

    /// A blank display, marked dirty so the first frame is rendered.
    pub fn new() -> (r: Gfx)
        ensures
            r.wf(),
            r.dirty,
            forall|j: int| 0 <= j < GFX_SIZE ==> r.buf@[j] == 0u8,
    {
        let mut buf: Vec<u8> = Vec::new();
        let mut i: usize = 0;
        while i < GFX_SIZE
            invariant
                i <= GFX_SIZE,
                buf@.len() == i,
                forall|j: int| 0 <= j < i ==> buf@[j] == 0u8,
            decreases GFX_SIZE - i,
        {
            buf.push(0u8);
            i = i + 1;
        }
        Gfx { buf, dirty: true }
    }

    /// Switch every pixel off and mark the display dirty.
    pub fn clear(&mut self)
        requires
            old(self).wf(),
        ensures
            final(self).wf(),
            final(self).dirty,
            forall|j: int| 0 <= j < GFX_SIZE ==> final(self).buf@[j] == 0u8,
    {
        let mut i: usize = 0;
        while i < GFX_SIZE
            invariant
                i <= GFX_SIZE,
                self.buf@.len() == GFX_SIZE,
                forall|j: int| 0 <= j < i ==> self.buf@[j] == 0u8,
            decreases GFX_SIZE - i,
        {
            self.buf[i] = 0u8;
            i = i + 1;
        }
        self.dirty = true;
    }

    /// XOR value `v` onto pixel `(x, y)`.  Off-screen coordinates change
    /// nothing.  Returns whether the pixel was set before the XOR and `v` is
    /// set too: the collision test checks the pre-XOR state.
    pub fn set(&mut self, x: u8, y: u8, v: u8) -> (r: bool)
        requires
            old(self).wf(),
        ensures
            final(self).wf(),
            final(self).dirty == old(self).dirty,
            if x < 64 && y < 32 {
                final(self).buf@ == old(self).buf@.update(
                    pixel_index(x as int, y as int),
                    old(self).buf@[pixel_index(x as int, y as int)] ^ v,
                ) && r == (old(self).buf@[pixel_index(x as int, y as int)] != 0 && v != 0)
            } else {
                final(self).buf@ == old(self).buf@ && r == false
            },
    {
        if x < 64 && y < 32 {
            let idx: usize = y as usize * 64 + x as usize;
            let old_pixel = self.buf[idx];
            self.buf[idx] = old_pixel ^ v;
            old_pixel != 0 && v != 0
        } else {
            false
        }
    }

    /// XOR-draw the sprite whose rows are `data` with its top-left corner at
    /// `(x % 64, y % 32)`; pixels past the right or bottom edge are clipped.
    /// Marks the display dirty and returns whether any collision occurred.
    pub fn draw_sprite(&mut self, x: u8, y: u8, height: u8, data: &[u8]) -> (r: bool)
        requires
            old(self).wf(),
            data@.len() == height,
        ensures
            final(self).wf(),
            final(self).dirty,
            final(self).buf@ == drawn_buf(old(self).buf@, (x % 64) as int, (y % 32) as int, data@),
            r == draw_collision(old(self).buf@, (x % 64) as int, (y % 32) as int, data@),
    {
        let x0 = x % 64;
        let y0 = y % 32;

        let mut collision = false;

        proof {
            assert(self.buf@ =~= drawn_buf_upto(old(self).buf@, x0 as int, y0 as int, data@, 0, 0));
        }
        let mut dy: u8 = 0;
        while dy < height
            invariant
                old(self).wf(),
                self.wf(),
                self.dirty == old(self).dirty,
                x0 == x % 64,
                y0 == y % 32,
                data@.len() == height,
                dy <= height,
                self.buf@ =~= drawn_buf_upto(old(self).buf@, x0 as int, y0 as int, data@, dy as int, 0),
                collision == draw_collision_upto(old(self).buf@, x0 as int, y0 as int, data@, dy as int, 0),
            decreases height - dy,
        {
            let sprite_byte = *vstd::slice::slice_index_get(data, dy as usize);
            let mut dx: u8 = 0;
            while dx < 8
                invariant
                    old(self).wf(),
                    self.wf(),
                    self.dirty == old(self).dirty,
                    x0 == x % 64,
                    y0 == y % 32,
                    data@.len() == height,
                    dy < height,
                    dx <= 8,
                    sprite_byte == data@[dy as int],
                    self.buf@ =~= drawn_buf_upto(old(self).buf@, x0 as int, y0 as int, data@, dy as int, dx as int),
                    collision == draw_collision_upto(old(self).buf@, x0 as int, y0 as int, data@, dy as int, dx as int),
                decreases 8 - dx,
            {
                let ghost pre_buf = self.buf@;
                let ghost pre_coll = collision;
                let bit = sprite_byte & (0x80u8 >> dx);
                let pixel = if bit == 0 { 0u8 } else { 0xFFu8 };
                let px = x0 + dx;
                let py = y0 as u16 + dy as u16;
                let c = if py < 32 { self.set(px, py as u8, pixel) } else { false };
                collision = collision || c;
                proof {
                    lemma_step_draw(
                        old(self).buf@, pre_buf, self.buf@,
                        x0 as int, y0 as int, data@,
                        dy as int, dx as int,
                        pixel, pre_coll, c,
                    );
                }
                dx = dx + 1;
            }
            proof {
                assert(drawn_buf_upto(old(self).buf@, x0 as int, y0 as int, data@, dy as int, 8)
                    =~= drawn_buf_upto(old(self).buf@, x0 as int, y0 as int, data@, dy as int + 1, 0));
                lemma_row_rollover_collision(old(self).buf@, x0 as int, y0 as int, data@, dy as int);
            }
            dy = dy + 1;
        }
        self.dirty = true;
        proof {
            assert(self.buf@ =~= drawn_buf(old(self).buf@, x0 as int, y0 as int, data@));
            lemma_full_collision(old(self).buf@, x0 as int, y0 as int, data@);
        }
        collision
    }

    /// The current frame, one byte per pixel, 0 off and nonzero on.  Reading
    /// the frame clears the dirty flag, so a renderer reads it exactly once
    /// per frame it draws.
    pub fn get_frame(&mut self) -> (r: &Vec<u8>)
        requires
            old(self).wf(),
        ensures
            final(self).wf(),
            !final(self).dirty,
            final(self).buf@ == old(self).buf@,
            r@ == final(self).buf@,
    {
        self.dirty = false;
        &self.buf
    }
}

/// One step of the draw loop preserves the partially-drawn-buffer and
/// partial-collision descriptions.
proof fn lemma_step_draw(
    base: Seq<u8>, pre: Seq<u8>, post: Seq<u8>,
    x0: int, y0: int, sprite: Seq<u8>,
    dy: int, dx: int,
    pixel: u8, pre_coll: bool, c: bool,
)
    requires
        base.len() == 2048,
        0 <= x0 < 64,
        0 <= y0 < 32,
        0 <= dy < sprite.len(),
        0 <= dx < 8,
        pixel == (if sprite_bit(sprite[dy], dx) { 0xFFu8 } else { 0u8 }),
        pre =~= drawn_buf_upto(base, x0, y0, sprite, dy, dx),
        pre_coll == draw_collision_upto(base, x0, y0, sprite, dy, dx),
        // what the pixel write and collision test produced
        if x0 + dx < 64 && y0 + dy < 32 {
            post == pre.update(pixel_index(x0 + dx, y0 + dy),
                pre[pixel_index(x0 + dx, y0 + dy)] ^ pixel)
            && c == (pre[pixel_index(x0 + dx, y0 + dy)] != 0 && pixel != 0)
        } else {
            post == pre && c == false
        },
    ensures
        post =~= drawn_buf_upto(base, x0, y0, sprite, dy, dx + 1),
        (pre_coll || c) == draw_collision_upto(base, x0, y0, sprite, dy, dx + 1),
{
    let px = x0 + dx;
    let py = y0 + dy;
    let next = drawn_buf_upto(base, x0, y0, sprite, dy, dx + 1);
    if px < 64 && py < 32 {
        let idx = pixel_index(px, py);
        lemma_pixel_coords(px, py);
        // the pixel written this step was untouched by the earlier steps
        assert(pre[idx] == base[idx]);
        assert forall|j: int| 0 <= j < 2048 && j != idx implies next[j] == pre[j] by {
            if j % 64 == px && j / 64 == py {
                vstd::arithmetic::div_mod::lemma_fundamental_div_mod(j, 64);
                assert(j == idx);
            }
        }
        if sprite_bit(sprite[dy], dx) {
            assert(next[idx] == base[idx] ^ 0xFFu8);
            assert(post[idx] == pre[idx] ^ pixel);
        } else {
            assert(next[idx] == base[idx]);
            lemma_xor_zero(pre[idx]);
            assert(post[idx] == pre[idx] ^ 0u8);
        }
        assert(post =~= next);
        // collision bookkeeping
        if c {
            assert(base[pixel_index(x0 + dx, y0 + dy)] != 0 && sprite_bit(sprite[dy], dx));
            assert(draw_collision_upto(base, x0, y0, sprite, dy, dx + 1));
        }
        if pre_coll {
            let (cx, cy) = choose|cx: int, cy: int|
                0 <= cx < 8 && 0 <= cy < sprite.len()
                && (cy < dy || (cy == dy && cx < dx))
                && x0 + cx < 64 && y0 + cy < 32
                && base[pixel_index(x0 + cx, y0 + cy)] != 0
                && sprite_bit(sprite[cy], cx);
            assert(0 <= cx < 8 && 0 <= cy < sprite.len()
                && (cy < dy || (cy == dy && cx < dx + 1))
                && x0 + cx < 64 && y0 + cy < 32
                && base[pixel_index(x0 + cx, y0 + cy)] != 0
                && sprite_bit(sprite[cy], cx));
        }
        if !pre_coll && !c && draw_collision_upto(base, x0, y0, sprite, dy, dx + 1) {
            let (cx, cy) = choose|cx: int, cy: int|
                0 <= cx < 8 && 0 <= cy < sprite.len()
                && (cy < dy || (cy == dy && cx < dx + 1))
                && x0 + cx < 64 && y0 + cy < 32
                && base[pixel_index(x0 + cx, y0 + cy)] != 0
                && sprite_bit(sprite[cy], cx);
            if cy < dy || (cy == dy && cx < dx) {
                assert(draw_collision_upto(base, x0, y0, sprite, dy, dx));
            } else {
                assert(cx == dx && cy == dy);
                assert(c);
            }
            assert(false);
        }
    } else {
        // the step touched nothing: the new cell of the region is off screen
        assert forall|j: int| 0 <= j < 2048 implies next[j] == pre[j] by {
            if x0 <= j % 64 < x0 + 8 && y0 <= j / 64 < y0 + sprite.len()
                && (j / 64 - y0 < dy || (j / 64 - y0 == dy && j % 64 - x0 < dx + 1)) {
                if !(j / 64 - y0 < dy || (j / 64 - y0 == dy && j % 64 - x0 < dx)) {
                    assert(j % 64 - x0 == dx && j / 64 - y0 == dy);
                    assert(j % 64 < 64 && j / 64 < 32) by {
                        vstd::arithmetic::div_mod::lemma_fundamental_div_mod(j, 64);
                    }
                    assert(false);
                }
            }
        }
        assert(post =~= next);
        if draw_collision_upto(base, x0, y0, sprite, dy, dx + 1) {
            let (cx, cy) = choose|cx: int, cy: int|
                0 <= cx < 8 && 0 <= cy < sprite.len()
                && (cy < dy || (cy == dy && cx < dx + 1))
                && x0 + cx < 64 && y0 + cy < 32
                && base[pixel_index(x0 + cx, y0 + cy)] != 0
                && sprite_bit(sprite[cy], cx);
            assert(cy < dy || (cy == dy && cx < dx));
            assert(draw_collision_upto(base, x0, y0, sprite, dy, dx));
        }
        if pre_coll {
            assert(draw_collision_upto(base, x0, y0, sprite, dy, dx + 1));
        }
    }
}

/// Finishing row `dy` is the same as standing at the start of row `dy + 1`.
proof fn lemma_row_rollover_collision(base: Seq<u8>, x0: int, y0: int, sprite: Seq<u8>, dy: int)
    ensures
        draw_collision_upto(base, x0, y0, sprite, dy, 8)
            == draw_collision_upto(base, x0, y0, sprite, dy + 1, 0),
{
    if draw_collision_upto(base, x0, y0, sprite, dy, 8) {
        let (cx, cy) = choose|cx: int, cy: int|
            0 <= cx < 8 && 0 <= cy < sprite.len()
            && (cy < dy || (cy == dy && cx < 8))
            && x0 + cx < 64 && y0 + cy < 32
            && base[pixel_index(x0 + cx, y0 + cy)] != 0
            && sprite_bit(sprite[cy], cx);
        assert(cy < dy + 1);
        assert(draw_collision_upto(base, x0, y0, sprite, dy + 1, 0));
    }
    if draw_collision_upto(base, x0, y0, sprite, dy + 1, 0) {
        let (cx, cy) = choose|cx: int, cy: int|
            0 <= cx < 8 && 0 <= cy < sprite.len()
            && cy < dy + 1
            && x0 + cx < 64 && y0 + cy < 32
            && base[pixel_index(x0 + cx, y0 + cy)] != 0
            && sprite_bit(sprite[cy], cx);
        assert(cy < dy || (cy == dy && cx < 8));
        assert(draw_collision_upto(base, x0, y0, sprite, dy, 8));
    }
}

/// Having processed every row is the full collision condition.
proof fn lemma_full_collision(base: Seq<u8>, x0: int, y0: int, sprite: Seq<u8>)
    ensures
        draw_collision_upto(base, x0, y0, sprite, sprite.len() as int, 0)
            == draw_collision(base, x0, y0, sprite),
{
    if draw_collision_upto(base, x0, y0, sprite, sprite.len() as int, 0) {
        let (cx, cy) = choose|cx: int, cy: int|
            0 <= cx < 8 && 0 <= cy < sprite.len()
            && cy < sprite.len()
            && x0 + cx < 64 && y0 + cy < 32
            && base[pixel_index(x0 + cx, y0 + cy)] != 0
            && sprite_bit(sprite[cy], cx);
        assert(draw_collision(base, x0, y0, sprite));
    }
    if draw_collision(base, x0, y0, sprite) {
        let (cx, cy) = choose|cx: int, cy: int|
            0 <= cx < 8 && 0 <= cy < sprite.len()
            && x0 + cx < 64 && y0 + cy < 32
            && base[pixel_index(x0 + cx, y0 + cy)] != 0
            && sprite_bit(sprite[cy], cx);
        assert(draw_collision_upto(base, x0, y0, sprite, sprite.len() as int, 0));
    }
}

} // verus!
