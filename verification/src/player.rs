//! The player's movement: a rectangle that walks, jumps and falls through a
//! hit map.
//!
//! Positions and distances are fixed-point numbers that count sub-pixels.
//! Each simulation step moves the player by the distance `step`, which the
//! caller derives from the time that has passed.

use vstd::prelude::*;
use crate::hit_map::{shifted, HitMap};
use crate::hit_map::{KIND_DEAD, KIND_NEXT_LEVEL, PLAYER_HEIGHT, PLAYER_WIDTH, SUBPIXELS};

verus! {

/// Speed of the player, in pixels per second.
pub const UPDATE_SPEED: i64 = 60;

/// Number of frames of the walking animation.
pub const ANIMATION_COUNT: i64 = 8;

/// The walking animation advances by one frame for this many pixels walked.
pub const ANIMATION_PIXELS: i64 = 7;

/// The animation phase at which the walking animation starts over.
pub const ANIMATION_END: i64 = 524288;

/// Number of sprites that face one way.
pub const SPRITES_PER_SIDE: usize = 9;

/// The way the player faces.
#[derive(Clone, Copy, Debug, PartialEq, Eq, Structural)]
pub enum PlayerOrientation {
    Left,
    Right,
}

/// What the player is doing.
#[derive(Clone, Copy, Debug, PartialEq, Eq, Structural)]
pub enum PlayerState {
    Standing,
    Jumping,
    Falling,
}

/// What the keys ask of the player in one step.
#[derive(Clone, Copy, Debug, PartialEq, Eq, Structural)]
pub struct Input {
    pub up: bool,
    pub left: bool,
    pub right: bool,
}

/// How a step ends for the level.
#[derive(Clone, Copy, Debug, PartialEq, Eq, Structural)]
pub enum Outcome {
    /// The level goes on.
    Play,
    /// The player stands on a deadly cell.
    Dead,
    /// The player stands on a cell that ends the level.
    Next,
}

/// Whether a number can be held as a coordinate.
pub open spec fn fits(v: int) -> bool {
    i64::MIN <= v <= i64::MAX
}

/// A number cut to the nearest one that can be held as a coordinate.
pub open spec fn clamped(v: int) -> int {
    if v > i64::MAX {
        i64::MAX as int
    } else if v < i64::MIN {
        i64::MIN as int
    } else {
        v
    }
}

/// The distance that the player covers in `micros` microseconds.
pub open spec fn distance_in(micros: int) -> int {
    UPDATE_SPEED * SUBPIXELS * micros / 1000000
}

/// The distance that the player covers in `micros` microseconds.
pub fn distance(micros: u32) -> (step: i64)
    ensures
        step == distance_in(micros as int),
        0 <= step,
{
    let scaled: u64 = 3932160u64 * (micros as u64);
    (scaled / 1000000) as i64
}

/// The player as the movement rules see it.
pub struct PlayerView {
    pub orientation: PlayerOrientation,
    pub state: PlayerState,
    pub x: int,
    pub y: int,
    pub jump_phase: int,
    pub animation_phase: int,
    pub jump_max: int,
}

impl PlayerView {
    /// The player's left edge is free at (`x`, `y`).
    pub open spec fn free_left(hit_map: &HitMap, x: int, y: int) -> bool {
        fits(x) && fits(y) && !hit_map.blocks_column(x, y)
    }

    /// The player's right edge is free at (`x`, `y`).
    pub open spec fn free_right(hit_map: &HitMap, x: int, y: int) -> bool {
        fits(x) && fits(y) && !hit_map.blocks_column(shifted(x, PLAYER_WIDTH - 1), y)
    }

    /// The player's top edge is free at (`x`, `y`).
    pub open spec fn free_top(hit_map: &HitMap, x: int, y: int) -> bool {
        fits(x) && fits(y) && !hit_map.blocks_row(x, y)
    }

    /// The player's bottom edge is free at (`x`, `y`).
    pub open spec fn free_bottom(hit_map: &HitMap, x: int, y: int) -> bool {
        fits(x) && fits(y) && !hit_map.blocks_row(x, shifted(y, PLAYER_HEIGHT - 1))
    }

    /// The walking animation after a walk of `step`: it advances by a
    /// seventh of the distance and starts over at its end. A step backwards
    /// leaves it as it is.
    pub open spec fn animate(self, step: int) -> PlayerView {
        let advance = if step > 0 {
            step / (ANIMATION_PIXELS as int)
        } else {
            0
        };
        let phase = self.animation_phase + advance;
        PlayerView {
            animation_phase: if phase >= ANIMATION_END {
                0
            } else {
                phase
            },
            ..self
        }
    }

    /// A step to the left: the player turns left, and walks where the left
    /// edge is free at the new place.
    pub open spec fn move_left(self, step: int, hit_map: &HitMap) -> PlayerView {
        let turned = PlayerView { orientation: PlayerOrientation::Left, ..self };
        if Self::free_left(hit_map, self.x - step, self.y) {
            (PlayerView { x: self.x - step, ..turned }).animate(step)
        } else {
            turned
        }
    }

    /// A step to the right: the player turns right, and walks where the
    /// right edge is free at the new place.
    pub open spec fn move_right(self, step: int, hit_map: &HitMap) -> PlayerView {
        let turned = PlayerView { orientation: PlayerOrientation::Right, ..self };
        if Self::free_right(hit_map, self.x + step, self.y) {
            (PlayerView { x: self.x + step, ..turned }).animate(step)
        } else {
            turned
        }
    }

    /// A step of a jump: the player rises, or starts to fall where the jump
    /// has reached its height or the top edge is blocked at the new place.
    pub open spec fn move_up(self, step: int, hit_map: &HitMap) -> PlayerView {
        if self.jump_phase >= self.jump_max || !Self::free_top(hit_map, self.x, self.y - step) {
            PlayerView { state: PlayerState::Falling, ..self }
        } else {
            PlayerView { y: self.y - step, jump_phase: clamped(self.jump_phase + step), ..self }
        }
    }

    /// A step of a fall: the player sinks, or stands where the bottom edge is
    /// blocked at the new place.
    pub open spec fn move_down(self, step: int, hit_map: &HitMap) -> PlayerView {
        if Self::free_bottom(hit_map, self.x, self.y + step) {
            PlayerView { y: self.y + step, ..self }
        } else {
            PlayerView { state: PlayerState::Standing, ..self }
        }
    }

    /// Whether a jump can start: the player stands, and the top edge is free
    /// one pixel up.
    pub open spec fn can_jump(self, hit_map: &HitMap) -> bool {
        self.state == PlayerState::Standing && Self::free_top(
            hit_map,
            self.x,
            self.y - SUBPIXELS,
        )
    }

    /// The start of a jump, where one can start.
    pub open spec fn jump(self, hit_map: &HitMap) -> PlayerView {
        if self.can_jump(hit_map) {
            PlayerView { state: PlayerState::Jumping, jump_phase: 0, ..self }
        } else {
            self
        }
    }

    /// Whether the bottom edge is free one pixel down.
    pub open spec fn can_fall(self, hit_map: &HitMap) -> bool {
        Self::free_bottom(hit_map, self.x, self.y + SUBPIXELS)
    }

    /// Whether the player's cell is deadly.
    pub open spec fn is_dead(self, hit_map: &HitMap) -> bool {
        hit_map.spec_kind_at(self.x, self.y) == Some(KIND_DEAD)
    }

    /// Whether the player's cell ends the level.
    pub open spec fn is_next_level(self, hit_map: &HitMap) -> bool {
        hit_map.spec_kind_at(self.x, self.y) == Some(KIND_NEXT_LEVEL)
    }

    /// The sprite that shows the player: the sprites that face right come
    /// first, and of each side the first shows a jump or fall and the others
    /// the frames of the walk.
    pub open spec fn sprite_index(self) -> int {
        let index = match self.state {
            PlayerState::Standing => 1 + self.animation_phase / (SUBPIXELS as int),
            _ => 0,
        };
        match self.orientation {
            PlayerOrientation::Left => SPRITES_PER_SIDE + index,
            PlayerOrientation::Right => index,
        }
    }

    /// The player after the fall check of a step: a standing player whose
    /// bottom edge is free one pixel down starts to fall.
    pub open spec fn settle(self, hit_map: &HitMap) -> PlayerView {
        if self.state == PlayerState::Standing && self.can_fall(hit_map) {
            PlayerView { state: PlayerState::Falling, ..self }
        } else {
            self
        }
    }

    /// The player after the keys of a step: a jump where `up` is held, then
    /// a walk to the left where `left` is held, else to the right where
    /// `right` is held.
    pub open spec fn steer(self, input: Input, step: int, hit_map: &HitMap) -> PlayerView {
        let jumped = if input.up {
            self.jump(hit_map)
        } else {
            self
        };
        if input.left {
            jumped.move_left(step, hit_map)
        } else if input.right {
            jumped.move_right(step, hit_map)
        } else {
            jumped
        }
    }

    /// The player after the vertical movement of a step: a jumping player
    /// rises, and a player that falls, also one that has just stopped
    /// rising, sinks.
    pub open spec fn lift(self, step: int, hit_map: &HitMap) -> PlayerView {
        let risen = if self.state == PlayerState::Jumping {
            self.move_up(step, hit_map)
        } else {
            self
        };
        if risen.state == PlayerState::Falling {
            risen.move_down(step, hit_map)
        } else {
            risen
        }
    }

    /// How a step ends: only a standing player dies or ends the level, and
    /// death comes first.
    pub open spec fn outcome(self, hit_map: &HitMap) -> Outcome {
        if self.state == PlayerState::Standing && self.is_dead(hit_map) {
            Outcome::Dead
        } else if self.state == PlayerState::Standing && self.is_next_level(hit_map) {
            Outcome::Next
        } else {
            Outcome::Play
        }
    }

    /// The player after one whole step.
    pub open spec fn update(self, input: Input, step: int, hit_map: &HitMap) -> PlayerView {
        self.settle(hit_map).steer(input, step, hit_map).lift(step, hit_map)
    }

    /// A player that enters a level at (`x`, `y`): it faces left, and stands
    /// where its bottom edge is blocked one pixel down and falls elsewhere.
    pub open spec fn spawn(x: int, y: int, jump_max: int, hit_map: &HitMap) -> PlayerView {
        PlayerView {
            orientation: PlayerOrientation::Left,
            state: if Self::free_bottom(hit_map, x, y + SUBPIXELS) {
                PlayerState::Falling
            } else {
                PlayerState::Standing
            },
            x,
            y,
            jump_phase: 0,
            animation_phase: 0,
            jump_max,
        }
    }
}

/// The player: where it is, which way it faces and what it is doing.
#[derive(Clone, Copy, Debug)]
pub struct Player {
    orientation: PlayerOrientation,
    state: PlayerState,
    x: i64,
    y: i64,
    jump_phase: i64,
    animation_phase: i64,
    jump_max: i64,
}

impl View for Player {
    type V = PlayerView;

    closed spec fn view(&self) -> PlayerView {
        PlayerView {
            orientation: self.orientation,
            state: self.state,
            x: self.x as int,
            y: self.y as int,
            jump_phase: self.jump_phase as int,
            animation_phase: self.animation_phase as int,
            jump_max: self.jump_max as int,
        }
    }
}

impl Player {
    /// The animation phase lies inside the walking animation. This holds of
    /// every player.
    pub open spec fn wf(&self) -> bool {
        0 <= self@.animation_phase < ANIMATION_END
    }

    #[verifier::type_invariant]
    spec fn well_formed(&self) -> bool {
        self.wf()
    }

    /// A player at (`x`, `y`) that faces left and whose jumps rise by
    /// `jump_max`. It stands where its bottom edge is blocked one pixel down
    /// and falls elsewhere.
    pub fn spawn(x: i64, y: i64, jump_max: i64, hit_map: &HitMap) -> (player: Player)
        ensures
            player.wf(),
            player@ == PlayerView::spawn(x as int, y as int, jump_max as int, hit_map),
    {
        let free = match y.checked_add(SUBPIXELS) {
            Some(below) => !hit_map.check_bottom(x, below),
            None => false,
        };
        Player {
            orientation: PlayerOrientation::Left,
            state: if free {
                PlayerState::Falling
            } else {
                PlayerState::Standing
            },
            x,
            y,
            jump_phase: 0,
            animation_phase: 0,
            jump_max,
        }
    }

    /// The way the player faces.
    pub fn orientation(&self) -> (orientation: PlayerOrientation)
        ensures
            orientation == self@.orientation,
    {
        self.orientation
    }

    /// What the player is doing.
    pub fn state(&self) -> (state: PlayerState)
        ensures
            state == self@.state,
    {
        self.state
    }

    /// The player's place, as (`x`, `y`).
    pub fn position(&self) -> (position: (i64, i64))
        ensures
            position.0 == self@.x,
            position.1 == self@.y,
    {
        (self.x, self.y)
    }

    /// How far the current jump has risen.
    pub fn jump_phase(&self) -> (phase: i64)
        ensures
            phase == self@.jump_phase,
    {
        self.jump_phase
    }

    /// How far the walking animation has run.
    pub fn animation_phase(&self) -> (phase: i64)
        ensures
            phase == self@.animation_phase,
    {
        self.animation_phase
    }

    /// Walks a step to the left, where the left edge is free there.
    pub fn move_left(&mut self, step: i64, hit_map: &HitMap)
        ensures
            final(self)@ == old(self)@.move_left(step as int, hit_map),
    {
        proof {
            use_type_invariant(&*self);
        }
        self.orientation = PlayerOrientation::Left;
        match self.x.checked_sub(step) {
            Some(x) => {
                if !hit_map.check_left(x, self.y) {
                    self.x = x;
                    self.animate(step);
                }
            },
            None => {},
        }
    }

    /// Walks a step to the right, where the right edge is free there.
    pub fn move_right(&mut self, step: i64, hit_map: &HitMap)
        ensures
            final(self)@ == old(self)@.move_right(step as int, hit_map),
    {
        proof {
            use_type_invariant(&*self);
        }
        self.orientation = PlayerOrientation::Right;
        match self.x.checked_add(step) {
            Some(x) => {
                if !hit_map.check_right(x, self.y) {
                    self.x = x;
                    self.animate(step);
                }
            },
            None => {},
        }
    }

    /// Rises a step, or starts to fall where the jump has reached its height
    /// or the top edge is blocked there.
    pub fn move_up(&mut self, step: i64, hit_map: &HitMap)
        ensures
            final(self)@ == old(self)@.move_up(step as int, hit_map),
    {
        proof {
            use_type_invariant(&*self);
        }
        let target = match self.y.checked_sub(step) {
            Some(y) => if self.jump_phase >= self.jump_max || hit_map.check_top(self.x, y) {
                None
            } else {
                Some(y)
            },
            None => None,
        };
        match target {
            Some(y) => {
                self.y = y;
                self.jump_phase = match self.jump_phase.checked_add(step) {
                    Some(phase) => phase,
                    None => if step > 0 {
                        i64::MAX
                    } else {
                        i64::MIN
                    },
                };
            },
            None => {
                self.state = PlayerState::Falling;
            },
        }
    }

    /// Sinks a step, or stands where the bottom edge is blocked there.
    pub fn move_down(&mut self, step: i64, hit_map: &HitMap)
        ensures
            final(self)@ == old(self)@.move_down(step as int, hit_map),
    {
        proof {
            use_type_invariant(&*self);
        }
        let target = match self.y.checked_add(step) {
            Some(y) => if hit_map.check_bottom(self.x, y) {
                None
            } else {
                Some(y)
            },
            None => None,
        };
        match target {
            Some(y) => {
                self.y = y;
            },
            None => {
                self.state = PlayerState::Standing;
            },
        }
    }

    /// Starts a jump, where the player stands and the top edge is free one
    /// pixel up.
    pub fn jump(&mut self, hit_map: &HitMap)
        ensures
            final(self)@ == old(self)@.jump(hit_map),
    {
        proof {
            use_type_invariant(&*self);
        }
        if self.state == PlayerState::Standing {
            let free = match self.y.checked_sub(SUBPIXELS) {
                Some(above) => !hit_map.check_top(self.x, above),
                None => false,
            };
            if free {
                self.state = PlayerState::Jumping;
                self.jump_phase = 0;
            }
        }
    }

    /// Whether the bottom edge is free one pixel down.
    pub fn can_fall(&self, hit_map: &HitMap) -> (free: bool)
        ensures
            free == self@.can_fall(hit_map),
    {
        match self.y.checked_add(SUBPIXELS) {
            Some(below) => !hit_map.check_bottom(self.x, below),
            None => false,
        }
    }

    /// Whether the player's cell is deadly.
    pub fn is_dead(&self, hit_map: &HitMap) -> (dead: bool)
        ensures
            dead == self@.is_dead(hit_map),
    {
        hit_map.check_dead(self.x, self.y)
    }

    /// Whether the player's cell ends the level.
    pub fn is_next_level(&self, hit_map: &HitMap) -> (next: bool)
        ensures
            next == self@.is_next_level(hit_map),
    {
        hit_map.check_next_level(self.x, self.y)
    }

    /// The sprite that shows the player, one of the 18 of the sprite sheet.
    pub fn sprite_index(&self) -> (index: usize)
        ensures
            index == self@.sprite_index(),
            index < 2 * SPRITES_PER_SIDE,
    {
        proof {
            use_type_invariant(self);
        }
        let index: usize = match self.state {
            PlayerState::Standing => 1 + (self.animation_phase as u64 / 65536) as usize,
            _ => 0,
        };
        match self.orientation {
            PlayerOrientation::Left => SPRITES_PER_SIDE + index,
            PlayerOrientation::Right => index,
        }
    }

    /// Advances the walking animation after a walk of `step`.
    fn animate(&mut self, step: i64)
        ensures
            final(self)@ == old(self)@.animate(step as int),
    {
        proof {
            use_type_invariant(&*self);
        }
        let advance: i64 = if step > 0 {
            ((step as u64) / 7) as i64
        } else {
            0
        };
        let phase = self.animation_phase + advance;
        self.animation_phase = if phase >= ANIMATION_END {
            0
        } else {
            phase
        };
    }

    /// One simulation step: the fall check, the keys, the vertical movement,
    /// and how the step ends for the level.
    pub fn update(&mut self, input: Input, step: i64, hit_map: &HitMap) -> (outcome: Outcome)
        ensures
            final(self)@ == old(self)@.update(input, step as int, hit_map),
            outcome == final(self)@.outcome(hit_map),
    {
        proof {
            use_type_invariant(&*self);
        }
        if self.state == PlayerState::Standing && self.can_fall(hit_map) {
            self.state = PlayerState::Falling;
        }
        if input.up {
            self.jump(hit_map);
        }
        if input.left {
            self.move_left(step, hit_map);
        } else if input.right {
            self.move_right(step, hit_map);
        }
        if self.state == PlayerState::Jumping {
            self.move_up(step, hit_map);
        }
        if self.state == PlayerState::Falling {
            self.move_down(step, hit_map);
        }
        if self.state == PlayerState::Standing {
            if self.is_dead(hit_map) {
                Outcome::Dead
            } else if self.is_next_level(hit_map) {
                Outcome::Next
            } else {
                Outcome::Play
            }
        } else {
            Outcome::Play
        }
    }
}

} // verus!
