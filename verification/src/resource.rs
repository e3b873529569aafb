//! Shared resource payloads owned by the runtime itself.
//!
//! Most resources are gameplay data defined by the host; the light map is
//! the one buffer the runtime provides, an RGBA accumulation surface that
//! lighting writes into and rendering reads from.

use vstd::prelude::*;

use crate::SCREEN_HEIGHT;
use crate::SCREEN_WIDTH;

verus! {

/// An RGBA light accumulation buffer covering the logical screen.
pub struct LightMap {
    /// Four bytes per texel, row by row.
    pub buffer: Vec<u8>,
    /// Texels per row.
    pub width: u32,
    /// Rows.
    pub height: u32,
    /// How many screen pixels one texel covers.
    pub scale: u32,
}

impl LightMap {
    /// The buffer holds exactly four bytes per texel.
    pub open spec fn wf(self) -> bool {
        self.buffer@.len() == self.width * self.height * 4
    }
}

impl Default for LightMap {
    /// A black, fully transparent light map covering the screen one texel
    /// per pixel.
    fn default() -> (map: LightMap)
        ensures
            map.wf(),
            map.width == SCREEN_WIDTH,
            map.height == SCREEN_HEIGHT,
            map.scale == 1,
            forall|i: int| 0 <= i < map.buffer@.len() ==> map.buffer@[i] == 0u8,
    {
        let scale: u32 = 1;
        let width: u32 = SCREEN_WIDTH / scale;
        let height: u32 = SCREEN_HEIGHT / scale;
        let buffer = vec![0u8; (width * height * 4) as usize];
        LightMap { buffer, width, height, scale }
    }
}

impl LightMap {
    /// Darken the whole map again: every byte back to zero.
    pub fn clear(&mut self)
        ensures
            final(self).buffer@.len() == old(self).buffer@.len(),
            forall|i: int| 0 <= i < final(self).buffer@.len() ==> final(self).buffer@[i] == 0u8,
            final(self).width == old(self).width,
            final(self).height == old(self).height,
            final(self).scale == old(self).scale,
    {
        let n = self.buffer.len();
        for i in 0..n
            invariant
                n == self.buffer@.len(),
                forall|j: int| 0 <= j < i ==> self.buffer@[j] == 0u8,
                self.width == old(self).width,
                self.height == old(self).height,
                self.scale == old(self).scale,
        {
            self.buffer[i] = 0;
        }
    }
}

} // verus!
