//! Sprite sheet layout and sprite blitting.
//!
//! Decoding the sheet image and caching sprite pixels is the host's
//! business; the layout arithmetic and the copy into the frame live here.

use vstd::prelude::*;

use crate::draw::frame_index;
use crate::draw::lemma_frame_index_injective;
use crate::draw::pixel_channel;
use crate::draw::valid_pixel;
use crate::SCREEN_HEIGHT;
use crate::SCREEN_WIDTH;

verus! {

/// How a sprite sheet is cut into sprites.
pub struct SpritesheetConfig {
    /// Width of one sprite, in pixels.
    pub sprite_width: u32,
    /// Height of one sprite, in pixels.
    pub sprite_height: u32,
    /// Pixels between neighbouring sprites.
    pub padding: u32,
}

impl Default for SpritesheetConfig {
    /// One tile per sprite, no padding.
    fn default() -> (config: SpritesheetConfig)
        ensures
            config.sprite_width == 16,
            config.sprite_height == 16,
            config.padding == 0,
    {
        SpritesheetConfig { sprite_width: 16, sprite_height: 16, padding: 0 }
    }
}

impl SpritesheetConfig {
    /// Pixel position in the sheet of the sprite in the given grid cell.
    pub fn sprite_origin(&self, row_index: u32, col_index: u32) -> (origin: (u32, u32))
        requires
            row_index * (self.sprite_height + self.padding) <= u32::MAX,
            col_index * (self.sprite_width + self.padding) <= u32::MAX,
            self.sprite_height + self.padding <= u32::MAX,
            self.sprite_width + self.padding <= u32::MAX,
        ensures
            origin.0 == row_index * self.sprite_height + row_index * self.padding,
            origin.1 == col_index * self.sprite_width + col_index * self.padding,
    {
        proof {
            assert(row_index * (self.sprite_height + self.padding)
                == row_index * self.sprite_height + row_index * self.padding)
                by (nonlinear_arith);
            assert(col_index * (self.sprite_width + self.padding)
                == col_index * self.sprite_width + col_index * self.padding)
                by (nonlinear_arith);
        }
        let x = row_index * (self.sprite_height + self.padding);
        let y = col_index * (self.sprite_width + self.padding);
        (x, y)
    }
}

/// Whether a sprite drawn with its top-left corner at `(dest_x, dest_y)`
/// covers the screen pixel `(px, py)`.
pub open spec fn sprite_covers(
    dest_x: int,
    dest_y: int,
    width: int,
    height: int,
    px: int,
    py: int,
) -> bool {
    dest_x <= px < dest_x + width && dest_y <= py < dest_y + height
}

/// Byte index of channel `c` of the sprite pixel `(dx, dy)`.
pub open spec fn sprite_byte_index(width: int, dx: int, dy: int, c: int) -> int {
    4 * (dy * width + dx) + c
}

/// Whether the sprite pixel `(dx, dy)` is drawn at all: fully transparent
/// pixels are skipped.
pub open spec fn sprite_pixel_opaque(sprite: Seq<u8>, width: int, dx: int, dy: int) -> bool {
    sprite[sprite_byte_index(width, dx, dy, 3)] > 0
}

/// Copy one sprite's pixels into the frame with the sprite's top-left
/// corner at `(dest_x, dest_y)`, skipping fully transparent sprite pixels
/// and whatever falls off the screen.
pub fn draw_sprite_pixels(
    frame: &mut Vec<u8>,
    sprite: &[u8],
    sprite_width: u32,
    sprite_height: u32,
    dest_x: i32,
    dest_y: i32,
)
    requires
        old(frame)@.len() == SCREEN_WIDTH * SCREEN_HEIGHT * 4,
        sprite@.len() == sprite_width * sprite_height * 4,
        sprite_width <= i32::MAX,
        sprite_height <= i32::MAX,
        dest_x + sprite_width <= i32::MAX,
        dest_y + sprite_height <= i32::MAX,
    ensures
        final(frame)@.len() == old(frame)@.len(),
        forall|px: int, py: int, c: int| valid_pixel(px, py) && 0 <= c < 4
            ==> #[trigger] pixel_channel(final(frame)@, px, py, c)
                == (if sprite_covers(
                    dest_x as int,
                    dest_y as int,
                    sprite_width as int,
                    sprite_height as int,
                    px,
                    py,
                ) && sprite_pixel_opaque(sprite@, sprite_width as int, px - dest_x, py - dest_y) {
                    sprite@[sprite_byte_index(sprite_width as int, px - dest_x, py - dest_y, c)]
                } else {
                    pixel_channel(old(frame)@, px, py, c)
                }),
{
    let mut y: u32 = 0;
    while y < sprite_height
        invariant
            0 <= y <= sprite_height,
            frame@.len() == SCREEN_WIDTH * SCREEN_HEIGHT * 4,
            frame@.len() == old(frame)@.len(),
            sprite@.len() == sprite_width * sprite_height * 4,
            sprite_width <= i32::MAX,
            sprite_height <= i32::MAX,
            dest_x + sprite_width <= i32::MAX,
            dest_y + sprite_height <= i32::MAX,
            forall|px: int, py: int, c: int| valid_pixel(px, py) && 0 <= c < 4
                ==> #[trigger] pixel_channel(frame@, px, py, c)
                    == (if sprite_covers(
                        dest_x as int,
                        dest_y as int,
                        sprite_width as int,
                        sprite_height as int,
                        px,
                        py,
                    ) && py - dest_y < y
                        && sprite_pixel_opaque(
                        sprite@,
                        sprite_width as int,
                        px - dest_x,
                        py - dest_y,
                    ) {
                        sprite@[sprite_byte_index(
                            sprite_width as int,
                            px - dest_x,
                            py - dest_y,
                            c,
                        )]
                    } else {
                        pixel_channel(old(frame)@, px, py, c)
                    }),
        decreases sprite_height - y,
    {
        let mut x: u32 = 0;
        while x < sprite_width
            invariant
                0 <= y < sprite_height,
                0 <= x <= sprite_width,
                frame@.len() == SCREEN_WIDTH * SCREEN_HEIGHT * 4,
                frame@.len() == old(frame)@.len(),
                sprite@.len() == sprite_width * sprite_height * 4,
                sprite_width <= i32::MAX,
                sprite_height <= i32::MAX,
                dest_x + sprite_width <= i32::MAX,
                dest_y + sprite_height <= i32::MAX,
                forall|px: int, py: int, c: int| valid_pixel(px, py) && 0 <= c < 4
                    ==> #[trigger] pixel_channel(frame@, px, py, c)
                        == (if sprite_covers(
                            dest_x as int,
                            dest_y as int,
                            sprite_width as int,
                            sprite_height as int,
                            px,
                            py,
                        ) && (py - dest_y < y || (py - dest_y == y && px - dest_x < x))
                            && sprite_pixel_opaque(
                            sprite@,
                            sprite_width as int,
                            px - dest_x,
                            py - dest_y,
                        ) {
                            sprite@[sprite_byte_index(
                                sprite_width as int,
                                px - dest_x,
                                py - dest_y,
                                c,
                            )]
                        } else {
                            pixel_channel(old(frame)@, px, py, c)
                        }),
            decreases sprite_width - x,
        {
            let target_x = dest_x + x as i32;
            let target_y = dest_y + y as i32;
            if target_x >= 0 && target_y >= 0 && target_x < SCREEN_WIDTH as i32
                && target_y < SCREEN_HEIGHT as i32 {
                let ghost prev = frame@;
                let sprite_len = sprite.len();
                proof {
                    assert(sprite@.len() <= usize::MAX);
                    assert(((y as int) * sprite_width + x) * 4 + 3 < sprite@.len())
                        by (nonlinear_arith)
                        requires
                            0 <= x < sprite_width,
                            0 <= y < sprite_height,
                            sprite@.len() == sprite_width * sprite_height * 4,
                    {
                    }
                }
                let sprite_idx = ((y as usize) * (sprite_width as usize) + (x as usize)) * 4;
                // Skip fully transparent pixels.
                if sprite[sprite_idx + 3] > 0 {
                    let dst_idx = ((target_y as usize) * (SCREEN_WIDTH as usize)
                        + (target_x as usize)) * 4;
                    proof {
                        assert(dst_idx == frame_index(target_x as int, target_y as int));
                        assert(frame_index(target_x as int, target_y as int) + 3 < frame@.len())
                            by (nonlinear_arith)
                            requires
                                0 <= target_x < 160,
                                0 <= target_y < 144,
                                frame@.len() == 160 * 144 * 4,
                                dst_idx == 4 * (target_y * 160 + target_x),
                        {
                        }
                    }
                    frame[dst_idx] = sprite[sprite_idx];
                    frame[dst_idx + 1] = sprite[sprite_idx + 1];
                    frame[dst_idx + 2] = sprite[sprite_idx + 2];
                    frame[dst_idx + 3] = sprite[sprite_idx + 3];
                    proof {
                        lemma_sprite_blit_step(
                            prev,
                            frame@,
                            old(frame)@,
                            sprite@,
                            sprite_width as int,
                            sprite_height as int,
                            dest_x as int,
                            dest_y as int,
                            x as int,
                            y as int,
                            dst_idx as int,
                            sprite_idx as int,
                        );
                    }
                }
            }
            x = x + 1;
        }
        y = y + 1;
    }
}

/// One blit write extends the row-by-row invariant of `draw_sprite_pixels`
/// by the pixel just written.
proof fn lemma_sprite_blit_step(
    prev: Seq<u8>,
    now: Seq<u8>,
    orig: Seq<u8>,
    sprite: Seq<u8>,
    width: int,
    height: int,
    dest_x: int,
    dest_y: int,
    x: int,
    y: int,
    dst_idx: int,
    sprite_idx: int,
)
    requires
        prev.len() == SCREEN_WIDTH * SCREEN_HEIGHT * 4,
        orig.len() == prev.len(),
        sprite.len() == width * height * 4,
        0 <= x < width,
        0 <= y < height,
        valid_pixel(dest_x + x, dest_y + y),
        dst_idx == frame_index(dest_x + x, dest_y + y),
        sprite_idx == sprite_byte_index(width, x, y, 0),
        sprite_pixel_opaque(sprite, width, x, y),
        now == prev.update(dst_idx, sprite[sprite_idx]).update(
            dst_idx + 1,
            sprite[sprite_idx + 1],
        ).update(dst_idx + 2, sprite[sprite_idx + 2]).update(dst_idx + 3, sprite[sprite_idx + 3]),
        forall|px: int, py: int, c: int| valid_pixel(px, py) && 0 <= c < 4
            ==> #[trigger] pixel_channel(prev, px, py, c)
                == (if sprite_covers(dest_x, dest_y, width, height, px, py)
                    && (py - dest_y < y || (py - dest_y == y && px - dest_x < x))
                    && sprite_pixel_opaque(sprite, width, px - dest_x, py - dest_y) {
                    sprite[sprite_byte_index(width, px - dest_x, py - dest_y, c)]
                } else {
                    pixel_channel(orig, px, py, c)
                }),
    ensures
        now.len() == prev.len(),
        forall|px: int, py: int, c: int| valid_pixel(px, py) && 0 <= c < 4
            ==> #[trigger] pixel_channel(now, px, py, c)
                == (if sprite_covers(dest_x, dest_y, width, height, px, py)
                    && (py - dest_y < y || (py - dest_y == y && px - dest_x < x + 1))
                    && sprite_pixel_opaque(sprite, width, px - dest_x, py - dest_y) {
                    sprite[sprite_byte_index(width, px - dest_x, py - dest_y, c)]
                } else {
                    pixel_channel(orig, px, py, c)
                }),
{
    assert forall|px: int, py: int, c: int| valid_pixel(px, py) && 0 <= c < 4
        implies #[trigger] pixel_channel(now, px, py, c)
            == (if sprite_covers(dest_x, dest_y, width, height, px, py)
                && (py - dest_y < y || (py - dest_y == y && px - dest_x < x + 1))
                && sprite_pixel_opaque(sprite, width, px - dest_x, py - dest_y) {
                sprite[sprite_byte_index(width, px - dest_x, py - dest_y, c)]
            } else {
                pixel_channel(orig, px, py, c)
            }) by {
        assert(frame_index(px, py) + c < prev.len()) by (nonlinear_arith)
            requires
                0 <= px < 160,
                0 <= py < 144,
                0 <= c < 4,
                prev.len() == 160 * 144 * 4,
        {
        }
        if px == dest_x + x && py == dest_y + y {
            assert(frame_index(px, py) + c == dst_idx + c);
            assert(now[dst_idx + c] == sprite[sprite_idx + c]);
        } else {
            assert(frame_index(px, py) + c != dst_idx && frame_index(px, py) + c != dst_idx + 1
                && frame_index(px, py) + c != dst_idx + 2
                && frame_index(px, py) + c != dst_idx + 3) by {
                if frame_index(px, py) + c == dst_idx + 0 {
                    lemma_frame_index_injective(px, py, c, dest_x + x, dest_y + y, 0);
                }
                if frame_index(px, py) + c == dst_idx + 1 {
                    lemma_frame_index_injective(px, py, c, dest_x + x, dest_y + y, 1);
                }
                if frame_index(px, py) + c == dst_idx + 2 {
                    lemma_frame_index_injective(px, py, c, dest_x + x, dest_y + y, 2);
                }
                if frame_index(px, py) + c == dst_idx + 3 {
                    lemma_frame_index_injective(px, py, c, dest_x + x, dest_y + y, 3);
                }
            }
            assert(pixel_channel(now, px, py, c) == pixel_channel(prev, px, py, c));
        }
    }
}

} // verus!
