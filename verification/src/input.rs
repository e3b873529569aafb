//! Keyboard input snapshot.
//!
//! Held direction keys form a stack: the most recently pressed direction
//! wins, and releasing it falls back to the next one still held.  The host
//! translates its raw key events into [`Key`] values and feeds them in.

use vstd::prelude::*;

use crate::movement_util::Direction;

verus! {

/// The keys the simulation reacts to.
#[derive(PartialEq, Eq, Structural, Debug, Copy, Clone)]
pub enum Key {
    W,
    A,
    S,
    D,
    Up,
    Down,
    Left,
    Right,
    J,
    K,
    Space,
    LShift,
    /// Any key the simulation does not handle.
    Other,
}

/// Mathematical content of an input snapshot.
#[verifier::ext_equal]
pub struct InputModel {
    /// Directions currently held, oldest first; the last one is active.
    pub directions: Seq<Direction>,
    pub shift: bool,
    pub j: bool,
    pub k: bool,
    pub space: bool,
}

/// The held-direction stack with every instance of one direction removed,
/// keeping the order of the rest.
pub open spec fn remove_direction(s: Seq<Direction>, d: Direction) -> Seq<Direction>
    decreases s.len(),
{
    if s.len() == 0 {
        Seq::empty()
    } else {
        let rest = remove_direction(s.drop_last(), d);
        if s.last() == d {
            rest
        } else {
            rest.push(s.last())
        }
    }
}

/// The direction a key maps to, if any.
pub open spec fn spec_key_direction(key: Key) -> Option<Direction> {
    match key {
        Key::W | Key::Up => Some(Direction::Up),
        Key::A | Key::Left => Some(Direction::Left),
        Key::S | Key::Down => Some(Direction::Down),
        Key::D | Key::Right => Some(Direction::Right),
        _ => None,
    }
}

/// The input snapshot after one key event: a pressed direction moves to the
/// top of the stack, a released one leaves it, and the four flag keys track
/// their pressed state.
pub open spec fn spec_process_key(m: InputModel, key: Key, pressed: bool) -> InputModel {
    match spec_key_direction(key) {
        Some(d) => {
            let kept = remove_direction(m.directions, d);
            InputModel {
                directions: if pressed { kept.push(d) } else { kept },
                ..m
            }
        },
        None => match key {
            Key::J => InputModel { j: pressed, ..m },
            Key::K => InputModel { k: pressed, ..m },
            Key::Space => InputModel { space: pressed, ..m },
            Key::LShift => InputModel { shift: pressed, ..m },
            _ => m,
        },
    }
}

/// The active direction: the most recently pressed one still held.
pub open spec fn spec_current_direction(m: InputModel) -> Option<Direction> {
    if m.directions.len() == 0 {
        None
    } else {
        Some(m.directions.last())
    }
}

/// The horizontal component of the active direction's unit step.
pub open spec fn spec_input_x(m: InputModel) -> i32 {
    match spec_current_direction(m) {
        Some(Direction::Left) => -1i32,
        Some(Direction::Right) => 1i32,
        _ => 0i32,
    }
}

/// The vertical component of the active direction's unit step.
pub open spec fn spec_input_y(m: InputModel) -> i32 {
    match spec_current_direction(m) {
        Some(Direction::Up) => -1i32,
        Some(Direction::Down) => 1i32,
        _ => 0i32,
    }
}

/// Snapshot of the keys the simulation reads each step.
pub struct Input {
    direction_stack: Vec<Direction>,
    shift: bool,
    j: bool,
    k: bool,
    space: bool,
}

impl View for Input {
    type V = InputModel;

    closed spec fn view(&self) -> InputModel {
        InputModel {
            directions: self.direction_stack@,
            shift: self.shift,
            j: self.j,
            k: self.k,
            space: self.space,
        }
    }
}

impl Input {
    /// Nothing held, nothing pressed.
    pub fn new() -> (input: Input)
        ensures
            input@.directions == Seq::<Direction>::empty(),
            !input@.shift,
            !input@.j,
            !input@.k,
            !input@.space,
    {
        Input {
            direction_stack: Vec::new(),
            shift: false,
            j: false,
            k: false,
            space: false,
        }
    }

    /// Apply one key event.  Returns whether the key is one the simulation
    /// handles.
    pub fn process_key(&mut self, key: Key, pressed: bool) -> (handled: bool)
        ensures
            final(self)@ == spec_process_key(old(self)@, key, pressed),
            handled <==> key != Key::Other,
    {
        match key {
            Key::W | Key::Up => {
                self.handle_direction_key(Direction::Up, pressed);
                true
            },
            Key::A | Key::Left => {
                self.handle_direction_key(Direction::Left, pressed);
                true
            },
            Key::S | Key::Down => {
                self.handle_direction_key(Direction::Down, pressed);
                true
            },
            Key::D | Key::Right => {
                self.handle_direction_key(Direction::Right, pressed);
                true
            },
            Key::J => {
                self.j = pressed;
                true
            },
            Key::K => {
                self.k = pressed;
                true
            },
            Key::Space => {
                self.space = pressed;
                true
            },
            Key::LShift => {
                self.shift = pressed;
                true
            },
            Key::Other => false,
        }
    }

    /// Move a pressed direction to the top of the stack or drop a released
    /// one from it.
    fn handle_direction_key(&mut self, direction: Direction, is_pressed: bool)
        ensures
            final(self)@ == (InputModel {
                directions: if is_pressed {
                    remove_direction(old(self)@.directions, direction).push(direction)
                } else {
                    remove_direction(old(self)@.directions, direction)
                },
                ..old(self)@
            }),
    {
        let ghost original = self.direction_stack@;
        let mut kept: Vec<Direction> = Vec::new();
        let n = self.direction_stack.len();
        for i in 0..n
            invariant
                n == original.len(),
                self.direction_stack@ == original,
                kept@ == remove_direction(original.subrange(0, i as int), direction),
        {
            let d = self.direction_stack[i];
            proof {
                assert(original.subrange(0, i + 1 as int).drop_last()
                    =~= original.subrange(0, i as int));
                assert(original.subrange(0, i + 1 as int).last() == original[i as int]);
            }
            if d != direction {
                kept.push(d);
            }
        }
        proof {
            assert(original.subrange(0, n as int) =~= original);
        }
        if is_pressed {
            kept.push(direction);
        }
        self.direction_stack = kept;
    }

    /// The most recently pressed direction still held, if any.
    pub fn current_direction(&self) -> (result: Option<Direction>)
        ensures
            result == spec_current_direction(self@),
    {
        if self.direction_stack.len() == 0 {
            None
        } else {
            Some(self.direction_stack[self.direction_stack.len() - 1])
        }
    }

    /// Whether the sprint key is held.
    pub fn shift(&self) -> (held: bool)
        ensures
            held == self@.shift,
    {
        self.shift
    }

    /// Whether no direction key is held.
    pub fn none(&self) -> (idle: bool)
        ensures
            idle <==> self@.directions.len() == 0,
    {
        self.direction_stack.len() == 0
    }

    /// The horizontal component of the active direction's unit step.
    pub fn x(&self) -> (r: i32)
        ensures
            r == spec_input_x(self@),
    {
        match self.current_direction() {
            Some(Direction::Left) => -1,
            Some(Direction::Right) => 1,
            _ => 0,
        }
    }

    /// The vertical component of the active direction's unit step.
    pub fn y(&self) -> (r: i32)
        ensures
            r == spec_input_y(self@),
    {
        match self.current_direction() {
            Some(Direction::Up) => -1,
            Some(Direction::Down) => 1,
            _ => 0,
        }
    }

    /// Both components of the active direction's unit step.
    pub fn vector(&self) -> (v: (i32, i32))
        ensures
            v.0 == spec_input_x(self@),
            v.1 == spec_input_y(self@),
    {
        (self.x(), self.y())
    }

    /// Forget all held directions and the sprint key.
    pub fn clear(&mut self)
        ensures
            final(self)@ == (InputModel {
                directions: Seq::empty(),
                shift: false,
                ..old(self)@
            }),
    {
        self.direction_stack.clear();
        self.shift = false;
    }

    /// Whether the j key is held.
    pub fn j(&self) -> (held: bool)
        ensures
            held == self@.j,
    {
        self.j
    }

    /// Whether the k key is held.
    pub fn k(&self) -> (held: bool)
        ensures
            held == self@.k,
    {
        self.k
    }

    /// Whether the spell key is held.
    pub fn space(&self) -> (held: bool)
        ensures
            held == self@.space,
    {
        self.space
    }
}

} // verus!
