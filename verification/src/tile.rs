//! Tile map data: levels, tiles, transitions and tile animation.
//!
//! Loading the on-disk map format is the host's business; the types here
//! hold the loaded world as plain values, and the operations on them are
//! verified.

use vstd::prelude::*;

use crate::draw::frame_index;
use crate::draw::lemma_frame_index_injective;
use crate::draw::pixel_channel;
use crate::draw::valid_pixel;
use crate::ivec2::IVec2;
use crate::movement_util::Direction;
use crate::SCREEN_HEIGHT;
use crate::SCREEN_WIDTH;
use crate::TILE_SIZE;

verus! {

/// The identifier of the level the simulation is currently in.
pub struct CurrentLevelId(pub String);

/// A walk from an entrance tile to a destination entity in another level.
#[derive(Clone)]
pub struct Transition {
    pub entity_id: String,
    pub destination: String,
}

/// A cycling animation over positions in the tileset.
pub struct TileAnimation {
    /// Position of each frame in the tileset, in pixels.
    pub frames: Vec<IVec2>,
    /// How long each frame is shown, in microseconds.
    pub frame_duration_micros: u64,
    /// Index of the frame currently shown.
    pub current_frame: usize,
    /// Time accumulated since the last frame change, in microseconds.
    pub accumulated_micros: u64,
}

impl TileAnimation {
    /// The current frame index names a frame.
    pub open spec fn wf(self) -> bool {
        self.current_frame < self.frames@.len()
    }

    /// An animation at its first frame with nothing accumulated.
    pub fn new(frames: Vec<IVec2>, frame_duration_micros: u64) -> (animation: TileAnimation)
        ensures
            frames@.len() > 0 ==> animation.wf(),
            animation.frames == frames,
            animation.frame_duration_micros == frame_duration_micros,
            animation.current_frame == 0,
            animation.accumulated_micros == 0,
    {
        TileAnimation { frames, frame_duration_micros, current_frame: 0, accumulated_micros: 0 }
    }

    /// Accumulate elapsed time; each time one whole frame duration has
    /// accumulated, step to the next frame, wrapping around at the end.
    pub fn update(&mut self, delta_micros: u64)
        requires
            old(self).wf(),
            old(self).accumulated_micros + delta_micros <= u64::MAX,
        ensures
            final(self).wf(),
            final(self).frames == old(self).frames,
            final(self).frame_duration_micros == old(self).frame_duration_micros,
            old(self).accumulated_micros + delta_micros >= old(self).frame_duration_micros
                ==> final(self).current_frame
                        == (old(self).current_frame + 1) as int % old(self).frames@.len() as int
                    && final(self).accumulated_micros
                        == old(self).accumulated_micros + delta_micros
                            - old(self).frame_duration_micros,
            old(self).accumulated_micros + delta_micros < old(self).frame_duration_micros
                ==> final(self).current_frame == old(self).current_frame
                    && final(self).accumulated_micros
                        == old(self).accumulated_micros + delta_micros,
    {
        self.accumulated_micros = self.accumulated_micros + delta_micros;
        if self.accumulated_micros >= self.frame_duration_micros {
            let n = self.frames.len();
            proof {
                assert(self.current_frame < n);
            }
            self.current_frame = (self.current_frame + 1) % n;
            self.accumulated_micros = self.accumulated_micros - self.frame_duration_micros;
        }
    }

    /// The tileset position of the frame currently shown.
    pub fn current_position(&self) -> (position: IVec2)
        requires
            self.wf(),
        ensures
            position == self.frames@[self.current_frame as int],
    {
        self.frames[self.current_frame]
    }
}

/// One tile of a level.
pub struct TileData {
    /// Where the tile's pixels lie in the tileset, in pixels.
    pub tileset_position: IVec2,
    /// Where the tile lies in the level, in pixels.
    pub position: IVec2,
    /// Whether characters may walk onto this tile.
    pub traversable: bool,
    /// The level transition this tile triggers, if any.
    pub transition: Option<Transition>,
    /// The animation cycling this tile's pixels, if any.
    pub animation: Option<TileAnimation>,
}

/// Where an entity placed in the map sits.
pub struct EntityInstance {
    /// Position in its level, in pixels.
    pub position: IVec2,
    pub level_id: String,
    /// Facing direction, set only for destination entities.
    pub direction: Option<Direction>,
}

/// One level: its tiles keyed by grid coordinate, and its tileset pixels.
pub struct Level {
    /// Grid coordinate and tile, one entry per occupied cell.
    pub tiles: Vec<((i64, i64), TileData)>,
    /// RGBA bytes of the tileset image, row by row.
    pub tileset_pixels: Vec<u8>,
    pub tileset_width: u32,
    pub tileset_height: u32,
    pub level_id: String,
    /// Whether the level is indoors, where no outdoor lighting applies.
    pub indoors: bool,
}

impl Level {
    /// Whether some tile occupies this grid cell.
    pub open spec fn has_tile(self, x: int, y: int) -> bool {
        exists|i: int| 0 <= i < self.tiles@.len() && self.tiles@[i].0 == (x as i64, y as i64)
    }

    /// Each grid cell is occupied by at most one tile.
    pub open spec fn wf(self) -> bool {
        forall|i: int, j: int| 0 <= i < j < self.tiles@.len()
            ==> (#[trigger] self.tiles@[i]).0 != (#[trigger] self.tiles@[j]).0
    }

    /// The tile at a grid cell, if one is there.
    pub fn get_tile(&self, x: i64, y: i64) -> (result: Option<&TileData>)
        requires
            self.wf(),
        ensures
            result is Some <==> self.has_tile(x as int, y as int),
            result matches Some(tile) ==> forall|i: int| 0 <= i < self.tiles@.len()
                && (#[trigger] self.tiles@[i]).0 == (x, y) ==> *tile == self.tiles@[i].1,
    {
        let n = self.tiles.len();
        for i in 0..n
            invariant
                n == self.tiles@.len(),
                self.wf(),
                forall|j: int| 0 <= j < i ==> (#[trigger] self.tiles@[j]).0 != (x, y),
        {
            if self.tiles[i].0.0 == x && self.tiles[i].0.1 == y {
                proof {
                    assert forall|j: int| 0 <= j < self.tiles@.len()
                        && (#[trigger] self.tiles@[j]).0 == (x, y)
                        implies self.tiles@[j].1 == self.tiles@[i as int].1 by {
                        if j < i {
                        } else if j > i {
                            assert(self.tiles@[i as int].0 != self.tiles@[j].0);
                        }
                    }
                }
                return Some(&self.tiles[i].1);
            }
        }
        None
    }
}

/// The loaded tile map: all levels and placed entities.
pub struct TileMap {
    pub levels: Vec<Level>,
    /// Identifier of the level the player starts in.
    pub initial_level_id: String,
    /// Side length of one tile, in pixels.
    pub tilesize: i64,
    /// Where the player starts, in pixels.
    pub player_starting_position: IVec2,
    /// Placed entities keyed by their identifier.
    pub entities: Vec<(String, EntityInstance)>,
}

impl TileMap {
    /// Whether some level carries this identifier.
    pub open spec fn has_level(self, id: Seq<char>) -> bool {
        exists|i: int| 0 <= i < self.levels@.len() && self.levels@[i].level_id@ == id
    }

    /// Each level identifier names at most one level.
    pub open spec fn wf(self) -> bool {
        forall|i: int, j: int| 0 <= i < j < self.levels@.len()
            ==> (#[trigger] self.levels@[i]).level_id@ != (#[trigger] self.levels@[j]).level_id@
    }

    /// The level with the given identifier.  Asking for an identifier no
    /// level carries is a caller bug, so it is ruled out up front.
    pub fn get_level(&self, id: &CurrentLevelId) -> (level: &Level)
        requires
            self.wf(),
            self.has_level(id.0@),
        ensures
            level.level_id@ == id.0@,
            forall|i: int| 0 <= i < self.levels@.len()
                && (#[trigger] self.levels@[i]).level_id@ == id.0@
                ==> *level == self.levels@[i],
    {
        let n = self.levels.len();
        for i in 0..n
            invariant
                n == self.levels@.len(),
                self.wf(),
                self.has_level(id.0@),
                forall|j: int| 0 <= j < i ==> (#[trigger] self.levels@[j]).level_id@ != id.0@,
        {
            if self.levels[i].level_id == id.0 {
                proof {
                    assert forall|j: int| 0 <= j < self.levels@.len()
                        && (#[trigger] self.levels@[j]).level_id@ == id.0@
                        implies self.levels@[j] == self.levels@[i as int] by {
                        if j < i {
                        } else if j > i {
                            assert(self.levels@[i as int].level_id@ != self.levels@[j].level_id@);
                        }
                    }
                }
                return &self.levels[i];
            }
        }
        proof {
            assert(false);
        }
        &self.levels[0]
    }

    /// The identifier of the level the player starts in.
    pub fn initial_level_id(&self) -> (id: String)
        ensures
            id@ == self.initial_level_id@,
    {
        self.initial_level_id.clone()
    }

    /// Whether some placed entity carries this identifier.
    pub open spec fn has_entity(self, id: Seq<char>) -> bool {
        exists|i: int| 0 <= i < self.entities@.len() && self.entities@[i].0@ == id
    }

    /// Each placed entity identifier names at most one entity.
    pub open spec fn entities_wf(self) -> bool {
        forall|i: int, j: int| 0 <= i < j < self.entities@.len()
            ==> (#[trigger] self.entities@[i]).0@ != (#[trigger] self.entities@[j]).0@
    }

    /// The placed entity with the given identifier, if any.
    pub fn get_entity(&self, id: &String) -> (result: Option<&EntityInstance>)
        requires
            self.entities_wf(),
        ensures
            result is Some <==> self.has_entity(id@),
            result matches Some(entity) ==> forall|i: int| 0 <= i < self.entities@.len()
                && (#[trigger] self.entities@[i]).0@ == id@ ==> *entity == self.entities@[i].1,
    {
        let n = self.entities.len();
        for i in 0..n
            invariant
                n == self.entities@.len(),
                self.entities_wf(),
                forall|j: int| 0 <= j < i ==> (#[trigger] self.entities@[j]).0@ != id@,
        {
            if self.entities[i].0 == *id {
                proof {
                    assert forall|j: int| 0 <= j < self.entities@.len()
                        && (#[trigger] self.entities@[j]).0@ == id@
                        implies self.entities@[j].1 == self.entities@[i as int].1 by {
                        if j < i {
                        } else if j > i {
                            assert(self.entities@[i as int].0@ != self.entities@[j].0@);
                        }
                    }
                }
                return Some(&self.entities[i].1);
            }
        }
        None
    }
}

/// Where a tile id's pixels lie in a tileset of the given width in tiles.
pub fn tile_id_to_position(id: u32, tileset_width: i64) -> (position: IVec2)
    requires
        tileset_width >= 1,
    ensures
        position.x == (id as int % tileset_width as int) * TILE_SIZE,
        position.y == (id as int / tileset_width as int) * TILE_SIZE,
{
    let w = tileset_width as u64;
    let r = (id as u64) % w;
    let q = (id as u64) / w;
    proof {
        assert(r <= id as u64 && q <= id as u64) by (nonlinear_arith)
            requires
                w >= 1,
                r == (id as u64) % w,
                q == (id as u64) / w,
        {
        }
    }
    let x = (r * (TILE_SIZE as u64)) as i64;
    let y = (q * (TILE_SIZE as u64)) as i64;
    IVec2::new(x, y)
}

// ---------------------------------------------------------------------------
// Tile custom data: the animation grammar.
//
//     animationTiles:1,2,3
//     frameTime:100
//
// The first line names the tile ids of the animation frames, the second the
// time each frame is shown, in milliseconds.
// ---------------------------------------------------------------------------

/// Whether a byte is a decimal digit.
pub open spec fn is_ascii_digit(b: u8) -> bool {
    48 <= b && b <= 57
}

/// The number a string of decimal digits denotes.
pub open spec fn digits_value(s: Seq<u8>) -> int
    decreases s.len(),
{
    if s.len() == 0 {
        0
    } else {
        digits_value(s.drop_last()) * 10 + (s.last() - 48)
    }
}

/// A non-empty string of decimal digits.
pub open spec fn all_digits(s: Seq<u8>) -> bool {
    s.len() > 0 && forall|i: int| 0 <= i < s.len() ==> is_ascii_digit(#[trigger] s[i])
}

/// Index of the first occurrence of a byte, or -1 if it does not occur.
pub open spec fn first_index_of(s: Seq<u8>, b: u8) -> int
    decreases s.len(),
{
    if s.len() == 0 {
        -1
    } else if s[0] == b {
        0
    } else {
        let rest = first_index_of(s.drop_first(), b);
        if rest < 0 {
            -1
        } else {
            rest + 1
        }
    }
}

proof fn lemma_first_index_of(s: Seq<u8>, b: u8)
    ensures
        first_index_of(s, b) == -1 ==> forall|i: int| 0 <= i < s.len() ==> s[i] != b,
        first_index_of(s, b) >= 0 ==> 0 <= first_index_of(s, b) < s.len()
            && s[first_index_of(s, b)] == b
            && forall|i: int| 0 <= i < first_index_of(s, b) ==> s[i] != b,
    decreases s.len(),
{
    if s.len() == 0 {
    } else if s[0] == b {
    } else {
        lemma_first_index_of(s.drop_first(), b);
        assert forall|i: int| 1 <= i < s.len() implies s[i] == s.drop_first()[i - 1] by {}
    }
}

/// A string of digits denotes a non-negative number.
proof fn lemma_digits_value_nonneg(s: Seq<u8>)
    requires
        forall|i: int| 0 <= i < s.len() ==> is_ascii_digit(#[trigger] s[i]),
    ensures
        digits_value(s) >= 0,
    decreases s.len(),
{
    if s.len() > 0 {
        lemma_digits_value_nonneg(s.drop_last());
    }
}

/// Appending further digits never shrinks the denoted number.
proof fn lemma_digits_value_grows(s: Seq<u8>, i: int)
    requires
        0 <= i <= s.len(),
        forall|j: int| 0 <= j < s.len() ==> is_ascii_digit(#[trigger] s[j]),
    ensures
        digits_value(s) >= digits_value(s.subrange(0, i)),
    decreases s.len() - i,
{
    lemma_digits_value_nonneg(s.subrange(0, i));
    if i == s.len() {
        assert(s.subrange(0, i) =~= s);
    } else {
        let head = s.subrange(0, s.len() - 1);
        if i == s.len() - 1 {
            assert(s.drop_last() =~= s.subrange(0, i));
            lemma_digits_value_nonneg(s.drop_last());
        } else {
            lemma_digits_value_grows(head, i);
            assert(head.subrange(0, i) =~= s.subrange(0, i));
            lemma_digits_value_nonneg(head);
            assert(s.drop_last() =~= head);
        }
    }
}

/// The tile ids a comma-separated list of decimal numerals denotes, or
/// nothing if the text is not of that form or an id does not fit.
pub open spec fn spec_parse_ids(s: Seq<u8>) -> Option<Seq<u32>>
    decreases s.len(),
{
    let comma = first_index_of(s, 44);
    if comma < 0 || comma >= s.len() {
        if all_digits(s) && digits_value(s) <= u32::MAX {
            Some(seq![digits_value(s) as u32])
        } else {
            None
        }
    } else {
        let head = s.subrange(0, comma);
        let tail = s.subrange(comma + 1, s.len() as int);
        if all_digits(head) && digits_value(head) <= u32::MAX {
            match spec_parse_ids(tail) {
                Some(ids) => Some(seq![digits_value(head) as u32] + ids),
                None => None,
            }
        } else {
            None
        }
    }
}

/// The frame tile ids and the frame time in milliseconds that a tile's
/// custom data denotes, or nothing if the data is not animation data: it
/// must open with the animation keyword, hold a colon on each of its first
/// two lines, name its ids as decimal numerals that fit in a tile id, and
/// name a frame time whose microsecond value fits in a time value.
pub open spec fn spec_animation_data(data: Seq<u8>) -> Option<(Seq<u32>, int)> {
    if data.len() < 14 || data.subrange(0, 14) != animation_keyword() {
        None
    } else {
        let newline = first_index_of(data, 10);
        if newline < 0 {
            None
        } else {
            let first_line = data.subrange(0, newline);
            let colon0 = first_index_of(first_line, 58);
            let rest = data.subrange(newline + 1, data.len() as int);
            let newline1 = first_index_of(rest, 10);
            let second_line = if newline1 < 0 {
                rest
            } else {
                rest.subrange(0, newline1)
            };
            let colon1 = first_index_of(second_line, 58);
            if colon0 < 0 || colon1 < 0 {
                None
            } else {
                let ids_text = first_line.subrange(colon0 + 1, first_line.len() as int);
                let millis_text = second_line.subrange(colon1 + 1, second_line.len() as int);
                match spec_parse_ids(ids_text) {
                    Some(ids) => if all_digits(millis_text)
                        && digits_value(millis_text) * 1000 <= u64::MAX {
                        Some((ids, digits_value(millis_text)))
                    } else {
                        None
                    },
                    None => None,
                }
            }
        }
    }
}

/// The keyword opening tile animation data, as bytes: "animationTiles".
pub open spec fn animation_keyword() -> Seq<u8> {
    seq![97u8, 110u8, 105u8, 109u8, 97u8, 116u8, 105u8, 111u8, 110u8, 84u8, 105u8, 108u8, 101u8,
        115u8]
}

/// Index of the first occurrence of a byte within `[from, to)`.
fn find_byte(data: &[u8], from: usize, to: usize, b: u8) -> (result: Option<usize>)
    requires
        from <= to <= data@.len(),
    ensures
        ({
            let found = first_index_of(data@.subrange(from as int, to as int), b);
            match result {
                Some(i) => from <= i < to && found == i - from,
                None => found == -1,
            }
        }),
{
    let ghost sub = data@.subrange(from as int, to as int);
    proof {
        lemma_first_index_of(sub, b);
    }
    let mut i = from;
    while i < to
        invariant
            from <= i <= to <= data@.len(),
            sub == data@.subrange(from as int, to as int),
            forall|j: int| 0 <= j < i - from ==> sub[j] != b,
        decreases to - i,
    {
        if data[i] == b {
            proof {
                assert(sub[i - from] == b);
                lemma_first_index_of(sub, b);
            }
            return Some(i);
        }
        i = i + 1;
    }
    proof {
        lemma_first_index_of(sub, b);
    }
    None
}

/// Parse the decimal numeral in `[from, to)`, or nothing if the range is
/// not a numeral or its value does not fit.
fn parse_number(data: &[u8], from: usize, to: usize) -> (result: Option<u64>)
    requires
        from <= to <= data@.len(),
    ensures
        ({
            let s = data@.subrange(from as int, to as int);
            match result {
                Some(value) => all_digits(s) && value == digits_value(s),
                None => !(all_digits(s) && digits_value(s) <= u64::MAX),
            }
        }),
{
    let ghost s = data@.subrange(from as int, to as int);
    if from == to {
        return None;
    }
    let mut value: u64 = 0;
    let mut i = from;
    while i < to
        invariant
            from <= i <= to <= data@.len(),
            s == data@.subrange(from as int, to as int),
            value == digits_value(s.subrange(0, i - from)),
            forall|j: int| 0 <= j < i - from ==> is_ascii_digit(#[trigger] s[j]),
        decreases to - i,
    {
        let d = data[i];
        proof {
            assert(s[i - from] == data@[i as int]);
            assert(s.subrange(0, i + 1 - from).drop_last() =~= s.subrange(0, i - from));
            assert(s.subrange(0, i + 1 - from).last() == s[i - from]);
        }
        if d < 48 || d > 57 {
            return None;
        }
        if value > (u64::MAX - (d - 48) as u64) / 10 {
            proof {
                // The digits seen so far already overflow, and more digits
                // only grow the value.
                assert(digits_value(s.subrange(0, i + 1 - from)) > u64::MAX);
                if all_digits(s) {
                    lemma_digits_value_grows(s, i + 1 - from);
                }
            }
            return None;
        }
        value = value * 10 + (d - 48) as u64;
        i = i + 1;
    }
    proof {
        assert(s.subrange(0, to - from as int) =~= s);
    }
    Some(value)
}

/// Parse the comma-separated tile id list in `[from, to)`.
fn parse_ids(data: &[u8], from: usize, to: usize) -> (result: Option<Vec<u32>>)
    requires
        from <= to <= data@.len(),
    ensures
        ({
            let s = data@.subrange(from as int, to as int);
            match result {
                Some(ids) => spec_parse_ids(s) == Some(ids@),
                None => spec_parse_ids(s) is None,
            }
        }),
    decreases to - from,
{
    let ghost s = data@.subrange(from as int, to as int);
    match find_byte(data, from, to, 44) {
        None => {
            proof {
                lemma_digits_value_nonneg_if(s);
            }
            match parse_number(data, from, to) {
                Some(value) => {
                    if value <= u32::MAX as u64 {
                        let ids = vec![value as u32];
                        proof {
                            assert(ids@ =~= seq![digits_value(s) as u32]);
                        }
                        Some(ids)
                    } else {
                        None
                    }
                },
                None => None,
            }
        },
        Some(comma) => {
            let ghost head = s.subrange(0, comma - from);
            let ghost tail = s.subrange(comma - from + 1, s.len() as int);
            proof {
                assert(head =~= data@.subrange(from as int, comma as int));
                assert(tail =~= data@.subrange(comma + 1 as int, to as int));
                lemma_digits_value_nonneg_if(head);
            }
            let value = match parse_number(data, from, comma) {
                Some(value) => value,
                None => {
                    return None;
                },
            };
            if value > u32::MAX as u64 {
                return None;
            }
            match parse_ids(data, comma + 1, to) {
                Some(rest) => {
                    let mut ids = vec![value as u32];
                    let mut rest = rest;
                    ids.append(&mut rest);
                    proof {
                        assert(ids@ =~= seq![digits_value(head) as u32]
                            + spec_parse_ids(tail).unwrap());
                    }
                    Some(ids)
                },
                None => None,
            }
        },
    }
}

/// A digit string denotes a non-negative number; anything else is settled
/// case by case.
proof fn lemma_digits_value_nonneg_if(s: Seq<u8>)
    ensures
        all_digits(s) ==> digits_value(s) >= 0,
{
    if all_digits(s) {
        lemma_digits_value_nonneg(s);
    }
}

/// Whether the data opens with the animation keyword.
fn starts_with_animation_keyword(data: &[u8]) -> (result: bool)
    ensures
        result <==> data@.len() >= 14 && data@.subrange(0, 14) == animation_keyword(),
{
    if data.len() < 14 {
        return false;
    }
    let matched = data[0] == 97 && data[1] == 110 && data[2] == 105 && data[3] == 109
        && data[4] == 97 && data[5] == 116 && data[6] == 105 && data[7] == 111 && data[8] == 110
        && data[9] == 84 && data[10] == 105 && data[11] == 108 && data[12] == 101
        && data[13] == 115;
    proof {
        if matched {
            assert(data@.subrange(0, 14) =~= animation_keyword());
        } else {
            assert(data@.subrange(0, 14) != animation_keyword()) by {
                if data@.subrange(0, 14) == animation_keyword() {
                    assert(forall|i: int| 0 <= i < 14
                        ==> data@[i] == #[trigger] animation_keyword()[i]);
                }
            }
        }
    }
    matched
}

/// Read a tile's custom data.  If it is animation data, the result cycles
/// through the named tiles' positions in the tileset, each shown for the
/// named frame time; any malformed data reads as no animation.
pub fn read_animation_data(data: &[u8], tileset_width: i64) -> (result: Option<TileAnimation>)
    requires
        tileset_width >= 1,
    ensures
        result is Some <==> spec_animation_data(data@) is Some,
        result matches Some(animation) ==> ({
            let (ids, millis) = spec_animation_data(data@).unwrap();
            &&& animation.wf()
            &&& animation.current_frame == 0
            &&& animation.accumulated_micros == 0
            &&& animation.frame_duration_micros == millis * 1000
            &&& animation.frames@.len() == ids.len()
            &&& forall|i: int| 0 <= i < ids.len()
                ==> (#[trigger] animation.frames@[i]).x
                        == (ids[i] as int % tileset_width as int) * TILE_SIZE
                    && animation.frames@[i].y
                        == (ids[i] as int / tileset_width as int) * TILE_SIZE
        }),
{
    if !starts_with_animation_keyword(data) {
        return None;
    }
    let len = data.len();
    proof {
        assert(data@.subrange(0, len as int) =~= data@);
    }
    let newline = match find_byte(data, 0, len, 10) {
        Some(i) => i,
        None => {
            return None;
        },
    };
    let ghost first_line = data@.subrange(0, newline as int);
    let colon0 = match find_byte(data, 0, newline, 58) {
        Some(i) => i,
        None => {
            return None;
        },
    };
    let ghost rest = data@.subrange(newline + 1 as int, len as int);
    let rest_end = match find_byte(data, newline + 1, len, 10) {
        Some(i) => i,
        None => len,
    };
    let ghost second_line = if first_index_of(rest, 10) < 0 {
        rest
    } else {
        rest.subrange(0, first_index_of(rest, 10))
    };
    proof {
        assert(second_line =~= data@.subrange(newline + 1 as int, rest_end as int));
    }
    let colon1 = match find_byte(data, newline + 1, rest_end, 58) {
        Some(i) => i,
        None => {
            return None;
        },
    };
    proof {
        assert(first_line.subrange(colon0 + 1, first_line.len() as int)
            =~= data@.subrange(colon0 + 1 as int, newline as int));
        assert(second_line.subrange(first_index_of(second_line, 58) + 1,
            second_line.len() as int)
            =~= data@.subrange(colon1 + 1 as int, rest_end as int));
    }
    let ids = match parse_ids(data, colon0 + 1, newline) {
        Some(ids) => ids,
        None => {
            return None;
        },
    };
    let millis = match parse_number(data, colon1 + 1, rest_end) {
        Some(value) => value,
        None => {
            return None;
        },
    };
    if millis > u64::MAX / 1000 {
        proof {
            assert(digits_value(data@.subrange(colon1 + 1 as int, rest_end as int)) * 1000
                > u64::MAX) by (nonlinear_arith)
                requires
                    digits_value(data@.subrange(colon1 + 1 as int, rest_end as int)) == millis,
                    millis > u64::MAX / 1000,
            {
            }
        }
        return None;
    }
    proof {
        assert(millis * 1000 <= u64::MAX) by (nonlinear_arith)
            requires
                0 <= millis <= u64::MAX / 1000,
        {
        }
    }
    let frame_duration_micros = millis * 1000;
    let ghost spec_ids = spec_animation_data(data@).unwrap().0;
    proof {
        assert(spec_ids == ids@);
        assert(ids@.len() > 0) by {
            lemma_parse_ids_nonempty(data@.subrange(colon0 + 1 as int, newline as int));
        }
    }
    let mut frames: Vec<IVec2> = Vec::new();
    let count = ids.len();
    for i in 0..count
        invariant
            count == ids@.len(),
            tileset_width >= 1,
            frames@.len() == i,
            forall|j: int| 0 <= j < i
                ==> (#[trigger] frames@[j]).x
                        == (ids@[j] as int % tileset_width as int) * TILE_SIZE
                    && frames@[j].y == (ids@[j] as int / tileset_width as int) * TILE_SIZE,
    {
        frames.push(tile_id_to_position(ids[i], tileset_width));
    }
    Some(TileAnimation::new(frames, frame_duration_micros))
}

/// A parsed id list always names at least one id.
proof fn lemma_parse_ids_nonempty(s: Seq<u8>)
    requires
        spec_parse_ids(s) is Some,
    ensures
        spec_parse_ids(s).unwrap().len() > 0,
{
}

/// Whether the tile drawn with its top-left corner at `(screen_x, screen_y)`
/// covers the screen pixel `(px, py)`.
pub open spec fn tile_covers(screen_x: int, screen_y: int, tilesize: int, px: int, py: int)
    -> bool {
    screen_x <= px < screen_x + tilesize && screen_y <= py < screen_y + tilesize
}

/// Byte index in the tileset of channel `c` of the pixel `(dx, dy)` within
/// the tile whose top-left corner lies at `origin`.
pub open spec fn tileset_byte_index(origin: IVec2, tileset_width: int, dx: int, dy: int, c: int)
    -> int {
    4 * ((origin.y + dy) * tileset_width + origin.x + dx) + c
}

/// Copy one tile's pixels from the tileset into the frame with the tile's
/// top-left corner at `(screen_x, screen_y)`, skipping whatever falls off
/// the screen.
pub fn draw_tile(
    frame: &mut Vec<u8>,
    tileset: &[u8],
    tileset_width: u32,
    tile: &TileData,
    tilesize: i64,
    screen_x: i64,
    screen_y: i64,
)
    requires
        old(frame)@.len() == SCREEN_WIDTH * SCREEN_HEIGHT * 4,
        0 <= tilesize,
        0 <= tile.tileset_position.x,
        0 <= tile.tileset_position.y,
        tile.tileset_position.x + tilesize <= tileset_width,
        tile.tileset_position.y + tilesize <= u32::MAX,
        (tile.tileset_position.y + tilesize) * (tileset_width as int) * 4 <= tileset@.len(),
        screen_x + tilesize <= i64::MAX,
        screen_y + tilesize <= i64::MAX,
    ensures
        final(frame)@.len() == old(frame)@.len(),
        forall|px: int, py: int, c: int| valid_pixel(px, py) && 0 <= c < 4
            ==> #[trigger] pixel_channel(final(frame)@, px, py, c)
                == (if tile_covers(screen_x as int, screen_y as int, tilesize as int, px, py) {
                    tileset@[tileset_byte_index(
                        tile.tileset_position,
                        tileset_width as int,
                        px - screen_x,
                        py - screen_y,
                        c,
                    )]
                } else {
                    pixel_channel(old(frame)@, px, py, c)
                }),
{
    let origin_x = tile.tileset_position.x;
    let origin_y = tile.tileset_position.y;
    let mut y: i64 = 0;
    while y < tilesize
        invariant
            0 <= y <= tilesize,
            frame@.len() == SCREEN_WIDTH * SCREEN_HEIGHT * 4,
            frame@.len() == old(frame)@.len(),
            origin_x == tile.tileset_position.x,
            origin_y == tile.tileset_position.y,
            0 <= origin_x,
            0 <= origin_y,
            origin_x + tilesize <= tileset_width,
            origin_y + tilesize <= u32::MAX,
            (origin_y + tilesize) * (tileset_width as int) * 4 <= tileset@.len(),
            screen_x + tilesize <= i64::MAX,
            screen_y + tilesize <= i64::MAX,
            forall|px: int, py: int, c: int| valid_pixel(px, py) && 0 <= c < 4
                ==> #[trigger] pixel_channel(frame@, px, py, c)
                    == (if tile_covers(screen_x as int, screen_y as int, tilesize as int, px, py)
                        && py - screen_y < y {
                        tileset@[tileset_byte_index(
                            tile.tileset_position,
                            tileset_width as int,
                            px - screen_x,
                            py - screen_y,
                            c,
                        )]
                    } else {
                        pixel_channel(old(frame)@, px, py, c)
                    }),
        decreases tilesize - y,
    {
        let mut x: i64 = 0;
        while x < tilesize
            invariant
                0 <= y < tilesize,
                0 <= x <= tilesize,
                frame@.len() == SCREEN_WIDTH * SCREEN_HEIGHT * 4,
                frame@.len() == old(frame)@.len(),
                origin_x == tile.tileset_position.x,
                origin_y == tile.tileset_position.y,
                0 <= origin_x,
                0 <= origin_y,
                origin_x + tilesize <= tileset_width,
                origin_y + tilesize <= u32::MAX,
                (origin_y + tilesize) * (tileset_width as int) * 4 <= tileset@.len(),
                screen_x + tilesize <= i64::MAX,
                screen_y + tilesize <= i64::MAX,
                forall|px: int, py: int, c: int| valid_pixel(px, py) && 0 <= c < 4
                    ==> #[trigger] pixel_channel(frame@, px, py, c)
                        == (if tile_covers(
                            screen_x as int,
                            screen_y as int,
                            tilesize as int,
                            px,
                            py,
                        ) && (py - screen_y < y || (py - screen_y == y && px - screen_x < x)) {
                            tileset@[tileset_byte_index(
                                tile.tileset_position,
                                tileset_width as int,
                                px - screen_x,
                                py - screen_y,
                                c,
                            )]
                        } else {
                            pixel_channel(old(frame)@, px, py, c)
                        }),
            decreases tilesize - x,
        {
            let screen_pixel_x = screen_x + x;
            let screen_pixel_y = screen_y + y;
            if screen_pixel_x >= 0 && screen_pixel_y >= 0
                && screen_pixel_x < SCREEN_WIDTH as i64 && screen_pixel_y < SCREEN_HEIGHT as i64 {
                let ghost prev = frame@;
                let ts_len = tileset.len();
                let src_row = (origin_y + y) as u64;
                let src_col = (origin_x + x) as u64;
                proof {
                    assert(tileset@.len() <= usize::MAX);
                    assert((src_row + 1) * (tileset_width as int) * 4
                        <= (origin_y + tilesize) * (tileset_width as int) * 4)
                        by (nonlinear_arith)
                        requires
                            src_row + 1 <= origin_y + tilesize,
                            tileset_width >= 0,
                    {
                    }
                    assert((src_row * (tileset_width as u64) + src_col) * 4 + 3 < tileset@.len())
                        by (nonlinear_arith)
                        requires
                            0 <= src_col,
                            src_col < tileset_width,
                            0 <= src_row,
                            (src_row + 1) * (tileset_width as int) * 4 <= tileset@.len(),
                    {
                    }
                }
                let src_idx = ((src_row * (tileset_width as u64) + src_col) * 4) as usize;
                let dst_idx = (((screen_pixel_y as u64) * (SCREEN_WIDTH as u64)
                    + (screen_pixel_x as u64)) * 4) as usize;
                proof {
                    assert(dst_idx == frame_index(screen_pixel_x as int, screen_pixel_y as int));
                    assert(frame_index(screen_pixel_x as int, screen_pixel_y as int) + 3
                        < frame@.len()) by (nonlinear_arith)
                        requires
                            0 <= screen_pixel_x < 160,
                            0 <= screen_pixel_y < 144,
                            frame@.len() == 160 * 144 * 4,
                            dst_idx == 4 * (screen_pixel_y * 160 + screen_pixel_x),
                    {
                    }
                    assert(src_idx + 0 == tileset_byte_index(
                        tile.tileset_position,
                        tileset_width as int,
                        x as int,
                        y as int,
                        0,
                    ));
                }
                frame[dst_idx] = tileset[src_idx];
                frame[dst_idx + 1] = tileset[src_idx + 1];
                frame[dst_idx + 2] = tileset[src_idx + 2];
                frame[dst_idx + 3] = tileset[src_idx + 3];
                proof {
                    assert forall|px: int, py: int, c: int| valid_pixel(px, py) && 0 <= c < 4
                        implies #[trigger] pixel_channel(frame@, px, py, c)
                            == (if tile_covers(
                                screen_x as int,
                                screen_y as int,
                                tilesize as int,
                                px,
                                py,
                            ) && (py - screen_y < y || (py - screen_y == y
                                && px - screen_x < x + 1)) {
                                tileset@[tileset_byte_index(
                                    tile.tileset_position,
                                    tileset_width as int,
                                    px - screen_x,
                                    py - screen_y,
                                    c,
                                )]
                            } else {
                                pixel_channel(old(frame)@, px, py, c)
                            }) by {
                        assert(frame_index(px, py) + c < frame@.len()) by (nonlinear_arith)
                            requires
                                0 <= px < 160,
                                0 <= py < 144,
                                0 <= c < 4,
                                frame@.len() == 160 * 144 * 4,
                        {
                        }
                        if px == screen_pixel_x as int && py == screen_pixel_y as int {
                            assert(frame_index(px, py) + c == dst_idx + c);
                            assert(frame@[dst_idx + c] == tileset@[src_idx + c]);
                            assert(src_idx + c == tileset_byte_index(
                                tile.tileset_position,
                                tileset_width as int,
                                px - screen_x,
                                py - screen_y,
                                c,
                            ));
                        } else {
                            assert(frame_index(px, py) + c != dst_idx && frame_index(px, py) + c
                                != dst_idx + 1 && frame_index(px, py) + c != dst_idx + 2
                                && frame_index(px, py) + c != dst_idx + 3) by {
                                if frame_index(px, py) + c == dst_idx + 0 {
                                    lemma_frame_index_injective(
                                        px, py, c,
                                        screen_pixel_x as int, screen_pixel_y as int, 0,
                                    );
                                }
                                if frame_index(px, py) + c == dst_idx + 1 {
                                    lemma_frame_index_injective(
                                        px, py, c,
                                        screen_pixel_x as int, screen_pixel_y as int, 1,
                                    );
                                }
                                if frame_index(px, py) + c == dst_idx + 2 {
                                    lemma_frame_index_injective(
                                        px, py, c,
                                        screen_pixel_x as int, screen_pixel_y as int, 2,
                                    );
                                }
                                if frame_index(px, py) + c == dst_idx + 3 {
                                    lemma_frame_index_injective(
                                        px, py, c,
                                        screen_pixel_x as int, screen_pixel_y as int, 3,
                                    );
                                }
                            }
                            assert(pixel_channel(frame@, px, py, c)
                                == pixel_channel(prev, px, py, c));
                        }
                    }
                }
            }
            x = x + 1;
        }
        y = y + 1;
    }
}

} // verus!
