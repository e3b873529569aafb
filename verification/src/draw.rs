//! Direct drawing into the RGBA frame buffer.

use vstd::prelude::*;

use crate::SCREEN_HEIGHT;
use crate::SCREEN_WIDTH;
use crate::TILE_SIZE;

verus! {

/// Byte index of channel `c == 0` of the pixel at `(x, y)` in the frame.
pub open spec fn frame_index(x: int, y: int) -> int {
    4 * (y * (SCREEN_WIDTH as int) + x)
}

/// Whether `(x, y)` lies on the logical screen.
pub open spec fn valid_pixel(x: int, y: int) -> bool {
    0 <= x < SCREEN_WIDTH && 0 <= y < SCREEN_HEIGHT
}

/// Channel `c` of the pixel at `(x, y)` in a frame.
pub open spec fn pixel_channel(frame: Seq<u8>, x: int, y: int, c: int) -> u8 {
    frame[frame_index(x, y) + c]
}

/// Every byte of the frame belongs to exactly one channel of one pixel.
pub proof fn lemma_frame_index_injective(x1: int, y1: int, c1: int, x2: int, y2: int, c2: int)
    requires
        0 <= x1 < SCREEN_WIDTH,
        0 <= x2 < SCREEN_WIDTH,
        0 <= y1,
        0 <= y2,
        0 <= c1 < 4,
        0 <= c2 < 4,
        frame_index(x1, y1) + c1 == frame_index(x2, y2) + c2,
    ensures
        x1 == x2,
        y1 == y2,
        c1 == c2,
{
    assert(x1 == x2 && y1 == y2 && c1 == c2) by (nonlinear_arith)
        requires
            0 <= x1 < 160,
            0 <= x2 < 160,
            0 <= y1,
            0 <= y2,
            0 <= c1 < 4,
            0 <= c2 < 4,
            4 * (y1 * 160 + x1) + c1 == 4 * (y2 * 160 + x2) + c2,
    {
    }
}

/// Whether `(x, y)` lies on the axis-aligned segment that `line` paints: a
/// vertical segment when the x coordinates agree, otherwise a horizontal
/// segment when the y coordinates agree.  The end point is excluded.
pub open spec fn on_line(from: (u32, u32), to: (u32, u32), x: int, y: int) -> bool {
    if from.0 == to.0 {
        let lo = if from.1 <= to.1 { from.1 as int } else { to.1 as int };
        let hi = if from.1 <= to.1 { to.1 as int } else { from.1 as int };
        x == from.0 && lo <= y < hi
    } else if from.1 == to.1 {
        let lo = if from.0 <= to.0 { from.0 as int } else { to.0 as int };
        let hi = if from.0 <= to.0 { to.0 as int } else { from.0 as int };
        y == from.1 && lo <= x < hi
    } else {
        false
    }
}

/// Paint a horizontal or vertical line of opaque white pixels, end point
/// excluded.  Any other pair of points paints nothing.
pub fn line(from: (u32, u32), to: (u32, u32), frame: &mut Vec<u8>)
    requires
        old(frame)@.len() == SCREEN_WIDTH * SCREEN_HEIGHT * 4,
        from.0 == to.0 ==> from.0 < SCREEN_WIDTH && from.1 <= SCREEN_HEIGHT
            && to.1 <= SCREEN_HEIGHT,
        from.0 != to.0 && from.1 == to.1 ==> from.1 < SCREEN_HEIGHT
            && from.0 <= SCREEN_WIDTH && to.0 <= SCREEN_WIDTH,
    ensures
        final(frame)@.len() == old(frame)@.len(),
        forall|x: int, y: int, c: int| valid_pixel(x, y) && 0 <= c < 4
            ==> #[trigger] pixel_channel(final(frame)@, x, y, c) == (if on_line(from, to, x, y) {
                255u8
            } else {
                pixel_channel(old(frame)@, x, y, c)
            }),
{
    let (x0, y0) = from;
    let (x1, y1) = to;
    if x0 == x1 {
        let y_start = if y0 < y1 { y0 } else { y1 };
        let y_end = if y0 < y1 { y1 } else { y0 };
        let mut y = y_start;
        while y < y_end
            invariant
                frame@.len() == SCREEN_WIDTH * SCREEN_HEIGHT * 4,
                frame@.len() == old(frame)@.len(),
                x0 < SCREEN_WIDTH,
                y_end <= SCREEN_HEIGHT,
                y_start <= y <= y_end,
                forall|px: int, py: int, c: int| valid_pixel(px, py) && 0 <= c < 4
                    ==> #[trigger] pixel_channel(frame@, px, py, c)
                        == (if px == x0 && y_start <= py < y {
                        255u8
                    } else {
                        pixel_channel(old(frame)@, px, py, c)
                    }),
            decreases y_end - y,
        {
            let ghost prev = frame@;
            let index = ((x0 + y * SCREEN_WIDTH) as usize) * 4;
            proof {
                assert(index == frame_index(x0 as int, y as int));
                assert(frame_index(x0 as int, y as int) + 3 < frame@.len())
                    by (nonlinear_arith)
                    requires
                        0 <= x0 < 160,
                        0 <= y < 144,
                        frame@.len() == 160 * 144 * 4,
                        index == 4 * (y * 160 + x0),
                {
                }
            }
            frame[index] = 255;
            frame[index + 1] = 255;
            frame[index + 2] = 255;
            frame[index + 3] = 255;
            proof {
                assert forall|px: int, py: int, c: int| valid_pixel(px, py) && 0 <= c < 4
                    implies #[trigger] pixel_channel(frame@, px, py, c)
                        == (if px == x0 && y_start <= py < y + 1 {
                            255u8
                        } else {
                            pixel_channel(old(frame)@, px, py, c)
                        }) by {
                    assert(frame_index(px, py) + c < frame@.len()) by (nonlinear_arith)
                        requires
                            0 <= px < 160,
                            0 <= py < 144,
                            0 <= c < 4,
                            frame@.len() == 160 * 144 * 4,
                    {
                    }
                    if px == x0 && py == y {
                        assert(frame_index(px, py) + c == index + c);
                    } else {
                        assert(frame_index(px, py) + c != index && frame_index(px, py) + c
                            != index + 1 && frame_index(px, py) + c != index + 2
                            && frame_index(px, py) + c != index + 3) by {
                            if frame_index(px, py) + c == index + 0 {
                                lemma_frame_index_injective(px, py, c, x0 as int, y as int, 0);
                            }
                            if frame_index(px, py) + c == index + 1 {
                                lemma_frame_index_injective(px, py, c, x0 as int, y as int, 1);
                            }
                            if frame_index(px, py) + c == index + 2 {
                                lemma_frame_index_injective(px, py, c, x0 as int, y as int, 2);
                            }
                            if frame_index(px, py) + c == index + 3 {
                                lemma_frame_index_injective(px, py, c, x0 as int, y as int, 3);
                            }
                        }
                        assert(frame@[frame_index(px, py) + c] == prev[frame_index(px, py) + c]);
                        assert(pixel_channel(frame@, px, py, c)
                            == pixel_channel(prev, px, py, c));
                    }
                }
            }
            y = y + 1;
        }
    } else if y0 == y1 {
        let x_start = if x0 < x1 { x0 } else { x1 };
        let x_end = if x0 < x1 { x1 } else { x0 };
        let mut x = x_start;
        while x < x_end
            invariant
                frame@.len() == SCREEN_WIDTH * SCREEN_HEIGHT * 4,
                frame@.len() == old(frame)@.len(),
                y0 < SCREEN_HEIGHT,
                x_end <= SCREEN_WIDTH,
                x_start <= x <= x_end,
                forall|px: int, py: int, c: int| valid_pixel(px, py) && 0 <= c < 4
                    ==> #[trigger] pixel_channel(frame@, px, py, c)
                        == (if py == y0 && x_start <= px < x {
                        255u8
                    } else {
                        pixel_channel(old(frame)@, px, py, c)
                    }),
            decreases x_end - x,
        {
            let ghost prev = frame@;
            let index = ((x + y0 * SCREEN_WIDTH) as usize) * 4;
            proof {
                assert(index == frame_index(x as int, y0 as int));
                assert(frame_index(x as int, y0 as int) + 3 < frame@.len())
                    by (nonlinear_arith)
                    requires
                        0 <= x < 160,
                        0 <= y0 < 144,
                        frame@.len() == 160 * 144 * 4,
                        index == 4 * (y0 * 160 + x),
                {
                }
            }
            frame[index] = 255;
            frame[index + 1] = 255;
            frame[index + 2] = 255;
            frame[index + 3] = 255;
            proof {
                assert forall|px: int, py: int, c: int| valid_pixel(px, py) && 0 <= c < 4
                    implies #[trigger] pixel_channel(frame@, px, py, c)
                        == (if py == y0 && x_start <= px < x + 1 {
                            255u8
                        } else {
                            pixel_channel(old(frame)@, px, py, c)
                        }) by {
                    assert(frame_index(px, py) + c < frame@.len()) by (nonlinear_arith)
                        requires
                            0 <= px < 160,
                            0 <= py < 144,
                            0 <= c < 4,
                            frame@.len() == 160 * 144 * 4,
                    {
                    }
                    if px == x && py == y0 {
                        assert(frame_index(px, py) + c == index + c);
                    } else {
                        assert(frame_index(px, py) + c != index && frame_index(px, py) + c
                            != index + 1 && frame_index(px, py) + c != index + 2
                            && frame_index(px, py) + c != index + 3) by {
                            if frame_index(px, py) + c == index + 0 {
                                lemma_frame_index_injective(px, py, c, x as int, y0 as int, 0);
                            }
                            if frame_index(px, py) + c == index + 1 {
                                lemma_frame_index_injective(px, py, c, x as int, y0 as int, 1);
                            }
                            if frame_index(px, py) + c == index + 2 {
                                lemma_frame_index_injective(px, py, c, x as int, y0 as int, 2);
                            }
                            if frame_index(px, py) + c == index + 3 {
                                lemma_frame_index_injective(px, py, c, x as int, y0 as int, 3);
                            }
                        }
                        assert(frame@[frame_index(px, py) + c] == prev[frame_index(px, py) + c]);
                        assert(pixel_channel(frame@, px, py, c)
                            == pixel_channel(prev, px, py, c));
                    }
                }
            }
            x = x + 1;
        }
    }
}

/// Whether `(x, y)` lies on the debug grid: an interior vertical tile edge
/// or any horizontal tile edge.
pub open spec fn on_grid(x: int, y: int) -> bool {
    (x % (TILE_SIZE as int) == 0 && x >= TILE_SIZE) || y % (TILE_SIZE as int) == 0
}

/// Paint the tile grid in opaque white over the frame.
pub fn draw_grid(frame: &mut Vec<u8>)
    requires
        old(frame)@.len() == SCREEN_WIDTH * SCREEN_HEIGHT * 4,
    ensures
        final(frame)@.len() == old(frame)@.len(),
        forall|x: int, y: int, c: int| valid_pixel(x, y) && 0 <= c < 4
            ==> #[trigger] pixel_channel(final(frame)@, x, y, c) == (if on_grid(x, y) {
                255u8
            } else {
                pixel_channel(old(frame)@, x, y, c)
            }),
{
    let columns = SCREEN_WIDTH / TILE_SIZE;
    let mut k: u32 = 1;
    while k < columns
        invariant
            columns == SCREEN_WIDTH / TILE_SIZE,
            1 <= k <= columns,
            frame@.len() == old(frame)@.len(),
            frame@.len() == SCREEN_WIDTH * SCREEN_HEIGHT * 4,
            forall|x: int, y: int, c: int| valid_pixel(x, y) && 0 <= c < 4
                ==> #[trigger] pixel_channel(frame@, x, y, c)
                    == (if x % (TILE_SIZE as int) == 0 && TILE_SIZE <= x < k * TILE_SIZE {
                        255u8
                    } else {
                        pixel_channel(old(frame)@, x, y, c)
                    }),
        decreases columns - k,
    {
        let ghost prev = frame@;
        line((k * TILE_SIZE, 0), (k * TILE_SIZE, SCREEN_HEIGHT), frame);
        proof {
            assert forall|x: int, y: int, c: int| valid_pixel(x, y) && 0 <= c < 4
                implies #[trigger] pixel_channel(frame@, x, y, c)
                    == (if x % (TILE_SIZE as int) == 0 && TILE_SIZE <= x < (k + 1) * TILE_SIZE {
                        255u8
                    } else {
                        pixel_channel(old(frame)@, x, y, c)
                    }) by {
                assert(x % 16 == 0 && 16 <= x < (k + 1) * 16 && !(16 <= x < k * 16)
                    ==> x == k * 16) by (nonlinear_arith)
                    requires
                        0 <= x,
                {
                }
            }
        }
        k = k + 1;
    }
    proof {
        assert(columns == 10);
    }
    let rows = SCREEN_HEIGHT / TILE_SIZE;
    let mut k: u32 = 0;
    while k < rows
        invariant
            rows == SCREEN_HEIGHT / TILE_SIZE,
            k <= rows,
            frame@.len() == old(frame)@.len(),
            frame@.len() == SCREEN_WIDTH * SCREEN_HEIGHT * 4,
            forall|x: int, y: int, c: int| valid_pixel(x, y) && 0 <= c < 4
                ==> #[trigger] pixel_channel(frame@, x, y, c)
                    == (if (x % (TILE_SIZE as int) == 0 && x >= TILE_SIZE)
                        || (y % (TILE_SIZE as int) == 0 && y < k * TILE_SIZE) {
                        255u8
                    } else {
                        pixel_channel(old(frame)@, x, y, c)
                    }),
        decreases rows - k,
    {
        line((0, k * TILE_SIZE), (SCREEN_WIDTH, k * TILE_SIZE), frame);
        proof {
            assert forall|x: int, y: int, c: int| valid_pixel(x, y) && 0 <= c < 4
                implies #[trigger] pixel_channel(frame@, x, y, c)
                    == (if (x % (TILE_SIZE as int) == 0 && x >= TILE_SIZE)
                        || (y % (TILE_SIZE as int) == 0 && y < (k + 1) * TILE_SIZE) {
                        255u8
                    } else {
                        pixel_channel(old(frame)@, x, y, c)
                    }) by {
                assert(y % 16 == 0 && y < (k + 1) * 16 && !(y < k * 16) ==> y == k * 16)
                    by (nonlinear_arith)
                    requires
                        0 <= y,
                {
                }
            }
        }
        k = k + 1;
    }
    proof {
        assert(rows == 9);
    }
}

} // verus!
