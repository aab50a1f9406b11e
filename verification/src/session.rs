//! A level in play: the hit map of the level and the player in it, advanced
//! one simulation step at a time.

use vstd::prelude::*;
use crate::hit_map::HitMap;
use crate::player::{distance, distance_in, Input, Outcome, Player, PlayerView};

verus! {

/// A level in play. The hit map never changes while the level is played.
#[derive(Debug)]
pub struct LevelSession {
    hit_map: HitMap,
    player: Player,
}

impl LevelSession {
    /// The hit map of the level.
    pub closed spec fn spec_hit_map(&self) -> HitMap {
        self.hit_map
    }

    /// The player.
    pub closed spec fn spec_player(&self) -> Player {
        self.player
    }

    /// A session over `hit_map` whose player enters at (`x`, `y`) and jumps
    /// as high as `jump_max`.
    pub fn new(hit_map: HitMap, x: i64, y: i64, jump_max: i64) -> (session: LevelSession)
        ensures
            session.spec_hit_map() == hit_map,
            session.spec_player()@ == PlayerView::spawn(
                x as int,
                y as int,
                jump_max as int,
                &hit_map,
            ),
    {
        let player = Player::spawn(x, y, jump_max, &hit_map);
        LevelSession { hit_map, player }
    }

    /// Advances the level by `elapsed_micros` microseconds under the keys
    /// `input`, and says how the step ends for the level. The player moves
    /// by the distance that it covers in that time.
    pub fn step(&mut self, elapsed_micros: u32, input: Input) -> (outcome: Outcome)
        ensures
            final(self).spec_hit_map() == old(self).spec_hit_map(),
            final(self).spec_player()@ == old(self).spec_player()@.update(
                input,
                distance_in(elapsed_micros as int),
                &old(self).spec_hit_map(),
            ),
            outcome == final(self).spec_player()@.outcome(&old(self).spec_hit_map()),
    {
        let step = distance(elapsed_micros);
        self.player.update(input, step, &self.hit_map)
    }

    /// The hit map of the level.
    pub fn hit_map(&self) -> (hit_map: &HitMap)
        ensures
            *hit_map == self.spec_hit_map(),
    {
        &self.hit_map
    }

    /// The player.
    pub fn player(&self) -> (player: &Player)
        ensures
            *player == self.spec_player(),
    {
        &self.player
    }
}

} // verus!
