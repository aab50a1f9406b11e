use the_mouse::hit_map::{HitMap, KIND_BLOCK, KIND_DEAD, KIND_NEXT_LEVEL, KIND_NONE, SUBPIXELS};
use the_mouse::player::{distance, Input, Outcome, Player, PlayerOrientation, PlayerState};
use the_mouse::player::{ANIMATION_COUNT, ANIMATION_END, ANIMATION_PIXELS, UPDATE_SPEED};

const PX: i64 = 65536;
const JUMP_MAX: i64 = 30 * PX;

/// A room of 100 x 100 free cells with a floor in row 60 and the given cells.
fn room(cells: &[(usize, usize, u8)]) -> HitMap {
    let mut map = vec![KIND_NONE; 100 * 100];
    for x in 0..100 {
        map[60 * 100 + x] = KIND_BLOCK;
    }
    for &(x, y, kind) in cells {
        map[y * 100 + x] = kind;
    }
    HitMap::new(map, 100)
}

/// A player whose bottom row of probes is row 59, right above the floor.
fn standing_player(hit_map: &HitMap) -> Player {
    let player = Player::spawn(40 * PX, 44 * PX, JUMP_MAX, hit_map);
    assert_eq!(player.state(), PlayerState::Standing);
    player
}

const NO_KEYS: Input = Input { up: false, left: false, right: false };

#[test]
fn player_constants() {
    assert_eq!(SUBPIXELS, 65536);
    assert_eq!(UPDATE_SPEED, 60);
    assert_eq!(ANIMATION_COUNT, 8);
    assert_eq!(ANIMATION_PIXELS, 7);
    assert_eq!(ANIMATION_END, ANIMATION_COUNT * SUBPIXELS);
}

#[test]
fn distance_scales_the_speed_by_the_time() {
    assert_eq!(distance(0), 0);
    assert_eq!(distance(1_000_000), 60 * PX);
    assert_eq!(distance(500_000), 30 * PX);
    assert_eq!(distance(16_667), 65537);
    assert_eq!(distance(1), 3);
    assert_eq!(distance(u32::MAX), 16888498598);
}

#[test]
fn spawn_stands_on_the_floor_and_falls_above_it() {
    let hit_map = room(&[]);
    let standing = Player::spawn(40 * PX, 44 * PX, JUMP_MAX, &hit_map);
    assert_eq!(standing.state(), PlayerState::Standing);
    assert_eq!(standing.orientation(), PlayerOrientation::Left);
    assert_eq!(standing.position(), (40 * PX, 44 * PX));
    assert_eq!(standing.jump_phase(), 0);
    assert_eq!(standing.animation_phase(), 0);
    let falling = Player::spawn(40 * PX, 43 * PX, JUMP_MAX, &hit_map);
    assert_eq!(falling.state(), PlayerState::Falling);
}

#[test]
fn spawn_outside_the_map_stands() {
    let hit_map = room(&[]);
    assert_eq!(Player::spawn(-50 * PX, 0, JUMP_MAX, &hit_map).state(), PlayerState::Standing);
    assert_eq!(Player::spawn(0, i64::MAX, JUMP_MAX, &hit_map).state(), PlayerState::Standing);
}

#[test]
fn can_fall_looks_one_pixel_below_the_bottom_edge() {
    let hit_map = room(&[]);
    assert!(!Player::spawn(40 * PX, 44 * PX, JUMP_MAX, &hit_map).can_fall(&hit_map));
    assert!(Player::spawn(40 * PX, 43 * PX, JUMP_MAX, &hit_map).can_fall(&hit_map));
    assert!(!Player::spawn(40 * PX, i64::MAX, JUMP_MAX, &hit_map).can_fall(&hit_map));
}

#[test]
fn move_left_walks_and_turns() {
    let hit_map = room(&[]);
    let mut player = standing_player(&hit_map);
    player.move_right(PX, &hit_map);
    assert_eq!(player.orientation(), PlayerOrientation::Right);
    assert_eq!(player.position(), (41 * PX, 44 * PX));
    player.move_left(2 * PX, &hit_map);
    assert_eq!(player.orientation(), PlayerOrientation::Left);
    assert_eq!(player.position(), (39 * PX, 44 * PX));
    assert_eq!(player.state(), PlayerState::Standing);
}

#[test]
fn move_left_stops_at_a_wall_but_still_turns() {
    let hit_map = room(&[(38, 50, KIND_BLOCK)]);
    let mut player = standing_player(&hit_map);
    player.move_right(0, &hit_map);
    assert_eq!(player.orientation(), PlayerOrientation::Right);
    player.move_left(PX, &hit_map);
    assert_eq!(player.position(), (39 * PX, 44 * PX));
    let phase = player.animation_phase();
    player.move_left(PX, &hit_map);
    assert_eq!(player.position(), (39 * PX, 44 * PX));
    assert_eq!(player.orientation(), PlayerOrientation::Left);
    assert_eq!(player.animation_phase(), phase);
}

#[test]
fn move_right_stops_where_the_right_edge_hits() {
    // the right edge is nine pixels right of the position
    let hit_map = room(&[(51, 50, KIND_BLOCK)]);
    let mut player = standing_player(&hit_map);
    player.move_right(PX, &hit_map);
    assert_eq!(player.position(), (41 * PX, 44 * PX));
    player.move_right(PX, &hit_map);
    assert_eq!(player.position(), (41 * PX, 44 * PX));
    assert_eq!(player.orientation(), PlayerOrientation::Right);
}

#[test]
fn walking_stops_at_the_edge_of_the_map() {
    let hit_map = room(&[]);
    let mut player = Player::spawn(0, 44 * PX, JUMP_MAX, &hit_map);
    player.move_left(PX, &hit_map);
    assert_eq!(player.position(), (0, 44 * PX));
    let mut player = Player::spawn(90 * PX, 44 * PX, JUMP_MAX, &hit_map);
    player.move_right(PX, &hit_map);
    assert_eq!(player.position(), (90 * PX, 44 * PX));
}

#[test]
fn walking_past_the_coordinates_does_not_move() {
    let hit_map = room(&[]);
    let mut player = Player::spawn(i64::MIN + 5, 0, JUMP_MAX, &hit_map);
    player.move_left(10, &hit_map);
    assert_eq!(player.position(), (i64::MIN + 5, 0));
    let mut player = Player::spawn(i64::MAX - 5, 0, JUMP_MAX, &hit_map);
    player.move_right(10, &hit_map);
    assert_eq!(player.position(), (i64::MAX - 5, 0));
}

#[test]
fn walking_advances_the_animation_by_a_seventh() {
    let hit_map = room(&[]);
    let mut player = standing_player(&hit_map);
    player.move_right(7 * PX, &hit_map);
    assert_eq!(player.animation_phase(), PX);
    assert_eq!(player.sprite_index(), 2);
    player.move_left(PX, &hit_map);
    assert_eq!(player.animation_phase(), PX + 9362);
    assert_eq!(player.sprite_index(), 9 + 2);
}

#[test]
fn animation_starts_over_at_its_end() {
    let hit_map = room(&[]);
    let mut player = standing_player(&hit_map);
    for frame in 1..8 {
        if frame % 2 == 1 {
            player.move_right(7 * PX, &hit_map);
        } else {
            player.move_left(7 * PX, &hit_map);
        }
        assert_eq!(player.animation_phase(), frame * PX);
        player.move_left(0, &hit_map);
        assert_eq!(player.animation_phase(), frame * PX);
    }
    player.move_left(7 * PX, &hit_map);
    assert_eq!(player.animation_phase(), 0);
}

#[test]
fn animation_wraps_to_zero_when_it_reaches_eight_frames() {
    let hit_map = room(&[]);
    let mut player = standing_player(&hit_map);
    player.move_right(28 * PX, &hit_map);
    assert_eq!(player.animation_phase(), 4 * PX);
    player.move_left(21 * PX, &hit_map);
    assert_eq!(player.animation_phase(), 7 * PX);
    player.move_right(7 * PX - 1, &hit_map);
    assert_eq!(player.animation_phase(), 8 * PX - 1);
    player.move_left(7, &hit_map);
    assert_eq!(player.animation_phase(), 0);
    player.move_right(14 * PX, &hit_map);
    assert_eq!(player.animation_phase(), 2 * PX);
    player.move_left(49 * PX, &hit_map);
    assert_eq!(player.animation_phase(), 0);
}

#[test]
fn a_step_backwards_does_not_animate() {
    let hit_map = room(&[]);
    let mut player = standing_player(&hit_map);
    player.move_left(-7 * PX, &hit_map);
    assert_eq!(player.position(), (47 * PX, 44 * PX));
    assert_eq!(player.animation_phase(), 0);
}

#[test]
fn sprite_index_follows_state_and_orientation() {
    let hit_map = room(&[]);
    let mut player = standing_player(&hit_map);
    assert_eq!(player.sprite_index(), 9 + 1);
    player.move_right(0, &hit_map);
    assert_eq!(player.sprite_index(), 1);
    player.move_right(49 * PX, &hit_map);
    assert_eq!(player.animation_phase(), 7 * PX);
    assert_eq!(player.sprite_index(), 8);
    player.jump(&hit_map);
    assert_eq!(player.state(), PlayerState::Jumping);
    assert_eq!(player.sprite_index(), 0);
    player.move_left(0, &hit_map);
    assert_eq!(player.sprite_index(), 9);
    let falling = Player::spawn(40 * PX, 10 * PX, JUMP_MAX, &hit_map);
    assert_eq!(falling.sprite_index(), 9);
}

#[test]
fn jump_starts_only_from_standing() {
    let hit_map = room(&[]);
    let mut player = standing_player(&hit_map);
    player.jump(&hit_map);
    assert_eq!(player.state(), PlayerState::Jumping);
    assert_eq!(player.jump_phase(), 0);
    let mut falling = Player::spawn(40 * PX, 10 * PX, JUMP_MAX, &hit_map);
    falling.jump(&hit_map);
    assert_eq!(falling.state(), PlayerState::Falling);
}

#[test]
fn jump_is_refused_under_a_ceiling() {
    let hit_map = room(&[(45, 43, KIND_BLOCK)]);
    let mut player = standing_player(&hit_map);
    player.jump(&hit_map);
    assert_eq!(player.state(), PlayerState::Standing);
    let hit_map = room(&[(45, 42, KIND_BLOCK)]);
    let mut player = standing_player(&hit_map);
    player.jump(&hit_map);
    assert_eq!(player.state(), PlayerState::Jumping);
}

#[test]
fn move_up_rises_until_the_jump_is_spent() {
    let hit_map = room(&[]);
    let mut player = standing_player(&hit_map);
    player.jump(&hit_map);
    player.move_up(20 * PX, &hit_map);
    assert_eq!(player.position(), (40 * PX, 24 * PX));
    assert_eq!(player.jump_phase(), 20 * PX);
    assert_eq!(player.state(), PlayerState::Jumping);
    player.move_up(10 * PX, &hit_map);
    assert_eq!(player.position(), (40 * PX, 14 * PX));
    assert_eq!(player.jump_phase(), JUMP_MAX);
    assert_eq!(player.state(), PlayerState::Jumping);
    player.move_up(PX, &hit_map);
    assert_eq!(player.position(), (40 * PX, 14 * PX));
    assert_eq!(player.state(), PlayerState::Falling);
}

#[test]
fn move_up_falls_under_a_ceiling() {
    let hit_map = room(&[(45, 40, KIND_BLOCK)]);
    let mut player = standing_player(&hit_map);
    player.jump(&hit_map);
    player.move_up(3 * PX, &hit_map);
    assert_eq!(player.position(), (40 * PX, 41 * PX));
    assert_eq!(player.state(), PlayerState::Jumping);
    player.move_up(PX, &hit_map);
    assert_eq!(player.position(), (40 * PX, 41 * PX));
    assert_eq!(player.jump_phase(), 3 * PX);
    assert_eq!(player.state(), PlayerState::Falling);
}

#[test]
fn move_down_sinks_until_the_floor() {
    let hit_map = room(&[]);
    let mut player = Player::spawn(40 * PX, 40 * PX, JUMP_MAX, &hit_map);
    assert_eq!(player.state(), PlayerState::Falling);
    player.move_down(4 * PX, &hit_map);
    assert_eq!(player.position(), (40 * PX, 44 * PX));
    assert_eq!(player.state(), PlayerState::Falling);
    player.move_down(PX, &hit_map);
    assert_eq!(player.position(), (40 * PX, 44 * PX));
    assert_eq!(player.state(), PlayerState::Standing);
}

#[test]
fn is_dead_and_is_next_level_read_the_cell_of_the_position() {
    let hit_map = room(&[(40, 44, KIND_DEAD), (41, 44, KIND_NEXT_LEVEL)]);
    let mut player = standing_player(&hit_map);
    assert!(player.is_dead(&hit_map));
    assert!(!player.is_next_level(&hit_map));
    player.move_right(PX, &hit_map);
    assert!(!player.is_dead(&hit_map));
    assert!(player.is_next_level(&hit_map));
    let outside = Player::spawn(-5 * PX, 0, JUMP_MAX, &hit_map);
    assert!(!outside.is_dead(&hit_map));
    assert!(!outside.is_next_level(&hit_map));
}

#[test]
fn update_without_keys_keeps_a_standing_player() {
    let hit_map = room(&[]);
    let mut player = standing_player(&hit_map);
    assert_eq!(player.update(NO_KEYS, PX, &hit_map), Outcome::Play);
    assert_eq!(player.state(), PlayerState::Standing);
    assert_eq!(player.position(), (40 * PX, 44 * PX));
}

#[test]
fn update_makes_a_player_without_ground_fall() {
    let hit_map = room(&[]);
    let mut player = Player::spawn(40 * PX, 40 * PX, JUMP_MAX, &hit_map);
    assert_eq!(player.update(NO_KEYS, PX, &hit_map), Outcome::Play);
    assert_eq!(player.state(), PlayerState::Falling);
    assert_eq!(player.position(), (40 * PX, 41 * PX));
    for _ in 0..3 {
        player.update(NO_KEYS, PX, &hit_map);
    }
    assert_eq!(player.position(), (40 * PX, 44 * PX));
    assert_eq!(player.state(), PlayerState::Falling);
    assert_eq!(player.update(NO_KEYS, PX, &hit_map), Outcome::Play);
    assert_eq!(player.state(), PlayerState::Standing);
    assert_eq!(player.position(), (40 * PX, 44 * PX));
}

#[test]
fn update_walks_off_a_ledge_and_falls() {
    // a ledge in row 50 under columns 40 to 49 only
    let mut cells = Vec::new();
    for x in 40..50 {
        cells.push((x, 50, KIND_BLOCK));
    }
    let hit_map = room(&cells);
    let mut player = Player::spawn(40 * PX, 34 * PX, JUMP_MAX, &hit_map);
    assert_eq!(player.state(), PlayerState::Standing);
    let right = Input { up: false, left: false, right: true };
    for _ in 0..9 {
        player.update(right, PX, &hit_map);
        assert_eq!(player.state(), PlayerState::Standing);
    }
    assert_eq!(player.position(), (49 * PX, 34 * PX));
    player.update(right, PX, &hit_map);
    assert_eq!(player.position(), (50 * PX, 34 * PX));
    assert_eq!(player.state(), PlayerState::Standing);
    player.update(NO_KEYS, PX, &hit_map);
    assert_eq!(player.state(), PlayerState::Falling);
    assert_eq!(player.position(), (50 * PX, 35 * PX));
}

#[test]
fn update_jumps_rises_and_comes_down() {
    let hit_map = room(&[]);
    let mut player = standing_player(&hit_map);
    let up = Input { up: true, left: false, right: false };
    assert_eq!(player.update(up, 10 * PX, &hit_map), Outcome::Play);
    assert_eq!(player.state(), PlayerState::Jumping);
    assert_eq!(player.position(), (40 * PX, 34 * PX));
    assert_eq!(player.jump_phase(), 10 * PX);
    player.update(up, 10 * PX, &hit_map);
    player.update(up, 10 * PX, &hit_map);
    assert_eq!(player.position(), (40 * PX, 14 * PX));
    assert_eq!(player.state(), PlayerState::Jumping);
    // the jump is spent: the player starts to fall and sinks in the same step
    player.update(up, 10 * PX, &hit_map);
    assert_eq!(player.state(), PlayerState::Falling);
    assert_eq!(player.position(), (40 * PX, 24 * PX));
    for _ in 0..20 {
        assert_eq!(player.update(NO_KEYS, PX, &hit_map), Outcome::Play);
    }
    assert_eq!(player.position(), (40 * PX, 44 * PX));
    assert_eq!(player.state(), PlayerState::Falling);
    player.update(NO_KEYS, PX, &hit_map);
    assert_eq!(player.position(), (40 * PX, 44 * PX));
    assert_eq!(player.state(), PlayerState::Standing);
}

#[test]
fn a_long_step_passes_through_a_thin_floor() {
    // only the row at the new place is probed, not the rows in between
    let hit_map = room(&[]);
    let mut player = Player::spawn(40 * PX, 40 * PX, JUMP_MAX, &hit_map);
    player.move_down(14 * PX, &hit_map);
    assert_eq!(player.position(), (40 * PX, 54 * PX));
    assert_eq!(player.state(), PlayerState::Falling);
}

#[test]
fn update_prefers_left_over_right() {
    let hit_map = room(&[]);
    let mut player = standing_player(&hit_map);
    player.update(Input { up: false, left: true, right: true }, PX, &hit_map);
    assert_eq!(player.position(), (39 * PX, 44 * PX));
    assert_eq!(player.orientation(), PlayerOrientation::Left);
}

#[test]
fn update_reports_death_for_a_standing_player() {
    let hit_map = room(&[(41, 44, KIND_DEAD)]);
    let mut player = standing_player(&hit_map);
    let right = Input { up: false, left: false, right: true };
    assert_eq!(player.update(right, PX, &hit_map), Outcome::Dead);
    assert_eq!(player.state(), PlayerState::Standing);
}

#[test]
fn update_reports_the_end_of_the_level() {
    let hit_map = room(&[(39, 44, KIND_NEXT_LEVEL)]);
    let mut player = standing_player(&hit_map);
    let left = Input { up: false, left: true, right: false };
    assert_eq!(player.update(left, PX, &hit_map), Outcome::Next);
}

#[test]
fn update_reports_nothing_while_in_the_air() {
    let hit_map = room(&[(40, 34, KIND_DEAD), (40, 24, KIND_NEXT_LEVEL)]);
    let mut player = standing_player(&hit_map);
    let up = Input { up: true, left: false, right: false };
    assert_eq!(player.update(up, 10 * PX, &hit_map), Outcome::Play);
    assert_eq!(player.position(), (40 * PX, 34 * PX));
    assert!(player.is_dead(&hit_map));
    assert_eq!(player.update(up, 10 * PX, &hit_map), Outcome::Play);
    assert!(player.is_next_level(&hit_map));
}
