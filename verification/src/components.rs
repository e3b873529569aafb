//! Component payloads the runtime defines itself.
//!
//! Gameplay attaches these to entities; positions and frame indices are
//! plain integers, and frame times are microseconds.

use vstd::prelude::*;

use crate::ivec2::IVec2;
use crate::movement_util::Direction;

verus! {

/// Which sprite sheet family an animated sprite draws from.
#[derive(PartialEq, Eq, Structural, Debug, Copy, Clone)]
pub enum SpriteType {
    Player,
}

impl Default for SpriteType {
    /// The player is the only sprite family so far.
    fn default() -> (t: SpriteType)
        ensures
            t == SpriteType::Player,
    {
        SpriteType::Player
    }
}

/// Marks the entity the player controls.
pub struct Player;

/// Where the player starts, in pixels.
pub struct PlayerStartingPosition(pub IVec2);

/// Marks an entity able to cast the fire spell.
pub struct FireSpell;

/// The spell effects the game knows.
#[derive(PartialEq, Eq, Structural, Debug, Copy, Clone)]
pub enum SpellEffectType {
    Fireball,
}

/// Sprite-sheet cells of the player animation for one facing and motion
/// state, in display order.
pub open spec fn spec_sprite_frames(direction: Direction, is_moving: bool) -> Seq<(u32, u32)> {
    match (direction, is_moving) {
        (Direction::Down, false) => seq![(1u32, 0u32)],
        (Direction::Up, false) => seq![(4u32, 0u32)],
        (Direction::Left, false) => seq![(6u32, 0u32)],
        (Direction::Right, false) => seq![(8u32, 0u32)],
        (Direction::Down, true) => seq![(1u32, 0u32), (0u32, 0u32), (1u32, 0u32), (2u32, 0u32)],
        (Direction::Up, true) => seq![(4u32, 0u32), (3u32, 0u32), (4u32, 0u32), (5u32, 0u32)],
        (Direction::Left, true) => seq![(6u32, 0u32), (7u32, 0u32)],
        (Direction::Right, true) => seq![(8u32, 0u32), (9u32, 0u32)],
    }
}

/// A sprite cycling through sheet cells as its entity moves.
#[derive(Debug)]
pub struct AnimatedSprite {
    pub sprite_type: SpriteType,
    /// Index into the frame list for the current facing and motion state.
    pub current_animation_frame: usize,
    /// Time spent on the current frame, in microseconds.
    pub frame_time_micros: u64,
}

impl AnimatedSprite {
    /// A sprite at the first frame of its animation.
    pub fn new(sprite_type: SpriteType) -> (sprite: AnimatedSprite)
        ensures
            sprite.sprite_type == sprite_type,
            sprite.current_animation_frame == 0,
            sprite.frame_time_micros == 0,
    {
        AnimatedSprite { sprite_type, current_animation_frame: 0, frame_time_micros: 0 }
    }

    /// The sheet cells to cycle through for a facing and motion state.
    pub fn get_sprite_frames(&self, direction: &Direction, is_moving: bool)
        -> (frames: Vec<(u32, u32)>)
        ensures
            frames@ == spec_sprite_frames(*direction, is_moving),
    {
        let frames = match (direction, is_moving) {
            (Direction::Down, false) => vec![(1u32, 0u32)],
            (Direction::Up, false) => vec![(4u32, 0u32)],
            (Direction::Left, false) => vec![(6u32, 0u32)],
            (Direction::Right, false) => vec![(8u32, 0u32)],
            (Direction::Down, true) => vec![(1u32, 0u32), (0, 0), (1, 0), (2, 0)],
            (Direction::Up, true) => vec![(4u32, 0u32), (3, 0), (4, 0), (5, 0)],
            (Direction::Left, true) => vec![(6u32, 0u32), (7, 0)],
            (Direction::Right, true) => vec![(8u32, 0u32), (9, 0)],
        };
        proof {
            assert(frames@ =~= spec_sprite_frames(*direction, is_moving));
        }
        frames
    }

    /// The sheet cell to show now: the current frame index taken modulo the
    /// length of the frame list for this facing and motion state.
    pub fn get_current_frame(&self, direction: &Direction, is_moving: bool) -> (cell: (u32, u32))
        ensures
            ({
                let frames = spec_sprite_frames(*direction, is_moving);
                cell == frames[self.current_animation_frame as int % frames.len() as int]
            }),
    {
        let frames = self.get_sprite_frames(direction, is_moving);
        let n = frames.len();
        frames[self.current_animation_frame % n]
    }
}

/// Sheet cells of the fireball effect, in display order.
pub open spec fn spec_spell_frames(effect_type: SpellEffectType) -> Seq<(u32, u32)> {
    Seq::new(11, |i: int| (i as u32, 0u32))
}

/// A spell effect playing out at some position.
#[derive(Debug, Clone)]
pub struct SpellEffect {
    pub effect_type: SpellEffectType,
    /// Index of the frame currently shown.
    pub current_frame: usize,
    /// Time spent on the current frame, in microseconds.
    pub frame_time_micros: u64,
    /// Whether the animation has played through.
    pub is_finished: bool,
}

impl SpellEffect {
    /// An effect at the start of its animation.
    pub fn new(effect_type: SpellEffectType) -> (effect: SpellEffect)
        ensures
            effect.effect_type == effect_type,
            effect.current_frame == 0,
            effect.frame_time_micros == 0,
            !effect.is_finished,
    {
        SpellEffect { effect_type, current_frame: 0, frame_time_micros: 0, is_finished: false }
    }

    /// The sheet cells this effect cycles through.
    pub fn get_sprite_frames(&self) -> (frames: Vec<(u32, u32)>)
        ensures
            frames@ == spec_spell_frames(self.effect_type),
    {
        let mut frames: Vec<(u32, u32)> = Vec::new();
        let mut i: u32 = 0;
        while i <= 10
            invariant
                i <= 11,
                frames@.len() == i,
                forall|j: int| 0 <= j < i ==> frames@[j] == (j as u32, 0u32),
            decreases 11 - i,
        {
            frames.push((i, 0));
            i = i + 1;
        }
        proof {
            assert(frames@ =~= spec_spell_frames(self.effect_type));
        }
        frames
    }
}

} // verus!
