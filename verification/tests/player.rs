use inverse::fixed::UNITS_PER_TILE;
use inverse::level::Levels;
use inverse::player::{Player, Signal};

const U: i64 = UNITS_PER_TILE;
const HALF: i64 = 100_000;

/// A grid of `num_levels` levels whose tiles are all `fill`, but for the
/// listed cells of the first level, which are the opposite.
fn grid(num_levels: usize, fill: bool, others: &[(usize, usize)]) -> Levels {
    let mut levels = Levels {
        tiles: vec![fill; 154 * num_levels],
        num_levels,
        level_index: 0,
        x_offset: 0,
        limited_gem: None,
        full_gem: None,
    };
    for (col, row) in others {
        levels.tiles[col * 11 + row] = !fill;
    }
    levels
}

fn body_at(x: i64, y: i64) -> Player {
    let mut player = Player::new();
    player.position = [x, y];
    player
}

#[test]
fn new_player_rests_in_the_middle() {
    let player = Player::new();
    assert_eq!(player.position, [3_000_000, 2_200_000]);
    assert_eq!(player.velocity, [0, 0]);
    assert!(!player.air_kind);
    assert!(!player.on_ground);
    assert_eq!(player.cyote_time, 0);
    assert_eq!(player.inputs_down, [false; 4]);
    assert_eq!(player.inputs_ready, [false; 4]);
}

#[test]
fn player_constants() {
    assert_eq!(Player::UPDATES_PER_SECOND, 60);
    assert_eq!(Player::UPS_SCALE, 2);
    assert_eq!(Player::SIZE, U / 2);
    assert_eq!(Player::GRAVITY, -(U / 32 / 2 / 2));
    assert_eq!(Player::ACCELERATION, U / 32 / 2 / 2);
    assert_eq!(Player::JUMP_FACTOR * Player::GRAVITY, -46_875);
    assert_eq!(Player::MAXIMUM_UPDATES_PER_FRAME, 5);
    assert_eq!(Player::CYOTE_FRAMES, 3);
}

#[test]
fn gravity_follows_the_polarity() {
    let mut player = Player::new();
    assert_eq!(player.gravity(), -3_125);
    assert_eq!(player.gravity(), Player::GRAVITY);
    player.air_kind = true;
    assert_eq!(player.gravity(), 3_125);
    assert_eq!(player.gravity(), -Player::GRAVITY);
}

#[test]
fn update_input_holds_and_readies() {
    let mut player = Player::new();
    player.update_input([true, false, false, true], [true, false, true, false]);
    assert_eq!(player.inputs_down, [true, false, false, true]);
    // A press counts only on a slot that is held.
    assert_eq!(player.inputs_ready, [true, false, false, false]);
    // What is held stays held, and what is ready stays ready while held.
    player.update_input([false, true, false, false], [false, false, false, true]);
    assert_eq!(player.inputs_down, [true, true, false, true]);
    assert_eq!(player.inputs_ready, [true, false, false, true]);
}

#[test]
fn update_input_drops_a_press_that_is_no_longer_held() {
    let mut player = Player::new();
    player.update_input([true, true, true, true], [true, true, true, true]);
    assert_eq!(player.inputs_ready, [true; 4]);
    player.inputs_down = [false; 4];
    player.update_input([false, true, false, false], [false; 4]);
    assert_eq!(player.inputs_down, [false, true, false, false]);
    assert_eq!(player.inputs_ready, [false, true, false, false]);
}

#[test]
fn update_input_leaves_the_body_alone() {
    let mut player = body_at(17, -4);
    player.velocity = [5, 6];
    player.air_kind = true;
    player.on_ground = true;
    player.cyote_time = 2;
    player.update_input([true; 4], [true; 4]);
    assert_eq!(player.position, [17, -4]);
    assert_eq!(player.velocity, [5, 6]);
    assert!(player.air_kind);
    assert!(player.on_ground);
    assert_eq!(player.cyote_time, 2);
}

#[test]
fn move_by_moves_freely_through_open_tiles() {
    let levels = Levels::new();
    let mut player = Player::new();
    assert_eq!(player.move_by(&levels, [1_000, -2_000]), Some(false));
    assert_eq!(player.position, [3_001_000, 2_198_000]);
    assert_eq!(player.velocity, [0, 0]);
}

#[test]
fn move_by_stops_at_a_tile_to_the_right() {
    let levels = grid(1, false, &[(8, 5)]);
    let mut player = Player::new();
    assert_eq!(player.move_by(&levels, [250_000, 0]), Some(true));
    assert_eq!(player.position, [8 * U - HALF, 2_200_000]);
}

#[test]
fn move_by_stops_at_a_tile_to_the_left() {
    let levels = grid(1, false, &[(6, 5)]);
    let mut player = Player::new();
    assert_eq!(player.move_by(&levels, [-250_000, 0]), Some(true));
    assert_eq!(player.position, [7 * U + HALF, 2_200_000]);
}

#[test]
fn move_by_stops_at_a_tile_above() {
    let levels = grid(1, false, &[(7, 6)]);
    let mut player = Player::new();
    assert_eq!(player.move_by(&levels, [0, 150_000]), Some(true));
    assert_eq!(player.position, [3_000_000, 6 * U - HALF]);
}

#[test]
fn move_by_stops_at_a_tile_below() {
    let levels = grid(1, false, &[(7, 4)]);
    let mut player = Player::new();
    assert_eq!(player.move_by(&levels, [0, -150_000]), Some(true));
    assert_eq!(player.position, [3_000_000, 5 * U + HALF]);
}

#[test]
fn move_by_touches_without_stopping() {
    // The far corners are one unit short of the edge: a body may lie against
    // a tile.
    let levels = grid(1, false, &[(8, 5), (7, 6)]);
    let mut player = Player::new();
    assert_eq!(player.move_by(&levels, [100_000, 0]), Some(false));
    assert_eq!(player.position, [3_100_000, 2_200_000]);
    assert_eq!(player.move_by(&levels, [0, 100_000]), Some(false));
    assert_eq!(player.position, [3_100_000, 2_300_000]);
    assert_eq!(player.move_by(&levels, [1, 0]), Some(true));
    assert_eq!(player.position, [3_100_000, 2_300_000]);
    assert_eq!(player.move_by(&levels, [0, 1]), Some(true));
    assert_eq!(player.position, [3_100_000, 2_300_000]);
}

#[test]
fn move_by_is_stopped_by_the_other_polarity_only() {
    let solid = grid(1, true, &[(8, 5)]);
    let mut player = Player::new();
    player.air_kind = true;
    // An inverted body moves through `true` tiles and is stopped by `false`.
    assert_eq!(player.move_by(&solid, [250_000, 0]), Some(true));
    assert_eq!(player.position, [8 * U - HALF, 2_200_000]);
    let mut player = Player::new();
    player.air_kind = true;
    assert_eq!(player.move_by(&solid, [-250_000, 0]), Some(false));
    assert_eq!(player.position, [2_750_000, 2_200_000]);
}

#[test]
fn move_by_without_movement_reports_an_overlap_and_stays() {
    let levels = grid(1, false, &[(7, 5)]);
    let mut player = Player::new();
    assert_eq!(player.move_by(&levels, [0, 0]), Some(true));
    assert_eq!(player.position, [3_000_000, 2_200_000]);
    let mut player = Player::new();
    assert_eq!(player.move_by(&Levels::new(), [0, 0]), Some(false));
    assert_eq!(player.position, [3_000_000, 2_200_000]);
}

#[test]
fn move_by_finds_nothing_above_and_below_the_screen() {
    let levels = Levels::new();
    let mut player = body_at(3_000_000, 11 * U - HALF);
    assert_eq!(player.move_by(&levels, [5, 0]), Some(false));
    assert_eq!(player.move_by(&levels, [5, 1]), None);
    assert_eq!(player.position, [3_000_010, 11 * U - HALF + 1]);

    let mut player = body_at(3_000_000, HALF);
    assert_eq!(player.move_by(&levels, [0, -1]), None);
    assert_eq!(player.position, [3_000_000, HALF - 1]);
}

#[test]
fn move_by_keeps_what_it_did_before_it_found_nothing() {
    // The right upper corner comes first and is stopped; the lower corners
    // then reach below the screen.
    let levels = grid(1, false, &[(8, 0)]);
    let mut player = body_at(3_000_000, 0);
    assert_eq!(player.move_by(&levels, [250_000, 0]), None);
    assert_eq!(player.position, [8 * U - HALF, 0]);
}

#[test]
fn move_by_meets_solid_space_left_of_the_screen() {
    let levels = Levels::new();
    let mut player = body_at(105_000, 2_200_000);
    assert_eq!(player.move_by(&levels, [-10_000, 0]), Some(true));
    assert_eq!(player.position, [HALF, 2_200_000]);

    // To an inverted body that space is open.
    let solid = grid(1, true, &[]);
    let mut player = body_at(105_000, 2_200_000);
    player.air_kind = true;
    assert_eq!(player.move_by(&solid, [-400_000, 0]), Some(false));
    assert_eq!(player.position, [-295_000, 2_200_000]);
}

#[test]
fn move_by_meets_open_space_right_of_the_screen() {
    let levels = Levels::new();
    let mut player = body_at(5_950_000, 2_200_000);
    assert_eq!(player.move_by(&levels, [100_000, 0]), Some(false));
    assert_eq!(player.position, [6_050_000, 2_200_000]);

    // An inverted body is stopped by it.
    let solid = grid(1, true, &[]);
    let mut player = body_at(5_850_000, 2_200_000);
    player.air_kind = true;
    assert_eq!(player.move_by(&solid, [100_000, 0]), Some(true));
    assert_eq!(player.position, [15 * U - HALF, 2_200_000]);
}

#[test]
fn move_by_saturates() {
    let levels = Levels::new();
    let mut player = body_at(i64::MAX - 5, 2_200_000);
    assert_eq!(player.move_by(&levels, [10, 0]), Some(false));
    assert_eq!(player.position, [i64::MAX, 2_200_000]);
    let mut player = body_at(3_000_000, i64::MIN + 5);
    assert_eq!(player.move_by(&levels, [0, -10]), None);
    assert_eq!(player.position, [3_000_000, i64::MIN]);
}

#[test]
fn is_intersecting_tells_overlap() {
    let mut player = Player::new();
    assert!(!player.is_intersecting(&Levels::new()));
    assert!(player.is_intersecting(&grid(1, false, &[(7, 5)])));
    assert!(!player.is_intersecting(&grid(1, false, &[(6, 5), (8, 5), (7, 4), (7, 6)])));
    player.air_kind = true;
    assert!(player.is_intersecting(&Levels::new()));
    assert!(!player.is_intersecting(&grid(1, false, &[(7, 5)])));
    assert_eq!(player.position, [3_000_000, 2_200_000]);
}

#[test]
fn is_intersecting_looks_at_all_four_corners() {
    let mut player = body_at(7 * U, 5 * U);
    for cell in [(6, 4), (7, 4), (6, 5), (7, 5)] {
        assert!(player.is_intersecting(&grid(1, false, &[cell])));
    }
    assert!(!player.is_intersecting(&Levels::new()));
}

#[test]
fn is_intersecting_where_there_is_nothing() {
    let mut player = body_at(3_000_000, 11 * U);
    assert!(player.is_intersecting(&Levels::new()));
    let before = player;
    assert!(player.is_intersecting(&grid(1, true, &[])));
    assert_eq!(player, before);
}

#[test]
fn flip_moves_a_normal_body_down_into_the_tile() {
    let levels = grid(1, false, &[(7, 4)]);
    let mut player = body_at(3_000_000, 5 * U + HALF);
    assert!(player.flip(&levels));
    assert_eq!(player.position, [3_000_000, 5 * U - HALF]);
    assert!(player.air_kind);
}

#[test]
fn flip_moves_an_inverted_body_up_out_of_the_tile() {
    let levels = grid(1, false, &[(7, 4)]);
    let mut player = body_at(3_000_000, 5 * U - HALF);
    player.air_kind = true;
    assert!(player.flip(&levels));
    assert_eq!(player.position, [3_000_000, 5 * U + HALF]);
    assert!(!player.air_kind);
}

#[test]
fn flip_that_would_overlap_changes_nothing() {
    let levels = Levels::new();
    let mut player = body_at(3_000_000, 5 * U + HALF);
    player.velocity = [11, -12];
    player.on_ground = true;
    player.cyote_time = 3;
    player.inputs_down = [true, false, true, false];
    player.inputs_ready = [false, false, true, false];
    let before = player;
    assert!(!player.flip(&levels));
    assert_eq!(player, before);

    // Half of the flipped body would lie in an open tile.
    let levels = grid(1, false, &[(7, 4)]);
    let mut player = body_at(7 * U, 5 * U + HALF);
    let before = player;
    assert!(!player.flip(&levels));
    assert_eq!(player, before);

    // Below the screen there is nothing to stand in.
    let levels = grid(1, true, &[]);
    let mut player = body_at(3_000_000, HALF);
    let before = player;
    assert!(!player.flip(&levels));
    assert_eq!(player, before);
}

#[test]
fn update_adds_gravity_and_moves() {
    let mut levels = Levels::new();
    let mut player = Player::new();
    player.update(&mut levels);
    assert_eq!(player.velocity, [0, -3_125]);
    assert_eq!(player.position, [3_000_000, 2_196_875]);
    assert!(!player.on_ground);
    player.update(&mut levels);
    assert_eq!(player.velocity, [0, -6_250]);
    assert_eq!(player.position, [3_000_000, 2_190_625]);

    let mut levels = grid(1, true, &[]);
    let mut player = Player::new();
    player.air_kind = true;
    player.update(&mut levels);
    assert_eq!(player.velocity, [0, 3_125]);
    assert_eq!(player.position, [3_000_000, 2_203_125]);
    assert_eq!(levels, grid(1, true, &[]));
}

#[test]
fn body_resting_on_a_solid_tile_is_on_the_ground() {
    let mut levels = grid(1, false, &[(7, 4)]);
    let mut player = body_at(3_000_000, 5 * U + HALF);
    player.update(&mut levels);
    assert!(player.on_ground);
    assert_eq!(player.cyote_time, 3);
    assert_eq!(player.position, [3_000_000, 5 * U + HALF]);
    assert_eq!(player.velocity, [0, 0]);
}

#[test]
fn body_resting_on_a_solid_tile_with_a_small_speed_downwards_is_on_the_ground() {
    let mut levels = grid(1, false, &[(7, 4)]);
    let mut player = body_at(3_000_000, 5 * U + HALF);
    player.velocity = [0, -20_000];
    player.update(&mut levels);
    assert!(player.on_ground);
    assert_eq!(player.position, [3_000_000, 5 * U + HALF]);
    assert_eq!(player.velocity, [0, 0]);
}

#[test]
fn body_over_a_tile_of_its_own_polarity_is_not_on_the_ground() {
    let mut levels = Levels::new();
    let mut player = body_at(3_000_000, 5 * U + HALF);
    player.on_ground = true;
    player.update(&mut levels);
    assert!(!player.on_ground);
    assert_eq!(player.position, [3_000_000, 5 * U + HALF - 3_125]);
    assert_eq!(player.velocity, [0, -3_125]);

    // To an inverted body the solid tile is no support.
    let mut levels = grid(1, true, &[]);
    let mut player = body_at(3_000_000, 5 * U + HALF);
    player.air_kind = true;
    player.velocity = [0, -20_000];
    player.update(&mut levels);
    assert!(!player.on_ground);
    assert_eq!(player.position, [3_000_000, 5 * U + HALF - 16_875]);
}

#[test]
fn inverted_body_rests_under_an_open_tile_above() {
    let mut levels = grid(1, true, &[(7, 6)]);
    let mut player = body_at(3_000_000, 6 * U - HALF);
    player.air_kind = true;
    player.update(&mut levels);
    assert!(player.on_ground);
    assert_eq!(player.position, [3_000_000, 6 * U - HALF]);
    assert_eq!(player.velocity, [0, 0]);

    let mut levels = grid(1, true, &[]);
    let mut player = body_at(3_000_000, 6 * U - HALF);
    player.air_kind = true;
    player.update(&mut levels);
    assert!(!player.on_ground);
}

#[test]
fn one_supporting_corner_is_enough() {
    // The body straddles columns 6 and 7; only one of them has a tile under
    // it.
    for col in [6, 7] {
        let mut levels = grid(1, false, &[(col, 4)]);
        let mut player = body_at(7 * U, 5 * U + HALF);
        player.update(&mut levels);
        assert!(player.on_ground);
        assert_eq!(player.position, [7 * U, 5 * U + HALF]);
    }
}

#[test]
fn a_tile_hit_against_gravity_is_no_ground() {
    let mut levels = grid(1, false, &[(7, 6)]);
    let mut player = body_at(3_000_000, 6 * U - HALF - 10_000);
    player.velocity = [0, 50_000];
    player.cyote_time = 2;
    player.update(&mut levels);
    assert!(!player.on_ground);
    assert_eq!(player.cyote_time, 1);
    assert_eq!(player.position, [3_000_000, 6 * U - HALF]);
    assert_eq!(player.velocity, [0, 0]);
}

#[test]
fn body_dropped_over_a_floor_settles_on_it() {
    let cells: Vec<(usize, usize)> = (0..14).map(|col| (col, 0)).collect();
    let mut levels = grid(1, false, &cells);
    let mut player = body_at(7 * U, 5 * U);
    for _ in 0..200 {
        player.update(&mut levels);
    }
    assert!(player.on_ground);
    // The top of the floor tile plus half the body's height.
    assert_eq!(player.position, [7 * U, U + Player::SIZE / 2]);
    assert_eq!(player.velocity[1], 0);
    assert_eq!(player.velocity, [0, 0]);
    assert_eq!(levels.level_index, 0);
}

#[test]
fn body_dropped_over_a_floor_falls_faster_and_faster_until_it_lands() {
    let cells: Vec<(usize, usize)> = (0..14).map(|col| (col, 0)).collect();
    let mut levels = grid(1, false, &cells);
    let mut player = body_at(7 * U, 5 * U);
    let mut steps = 0;
    while !player.on_ground {
        let before = player;
        player.update(&mut levels);
        steps += 1;
        if !player.on_ground {
            assert_eq!(player.velocity[1], before.velocity[1] - 3_125);
            assert_eq!(player.position[1], before.position[1] + player.velocity[1]);
        }
    }
    // 3.75 tiles at 1/128 of a tile per step and step: 3125 * n * (n + 1) / 2
    // first reaches 1500000 at n = 31.
    assert_eq!(steps, 31);
}

#[test]
fn inverted_body_settles_under_a_ceiling_of_open_tiles() {
    let cells: Vec<(usize, usize)> = (0..14).map(|col| (col, 10)).collect();
    let mut levels = grid(1, true, &cells);
    let mut player = body_at(7 * U, 5 * U);
    player.air_kind = true;
    for _ in 0..200 {
        player.update(&mut levels);
    }
    assert!(player.on_ground);
    assert_eq!(player.position, [7 * U, 10 * U - HALF]);
    assert_eq!(player.velocity, [0, 0]);
}

#[test]
fn body_that_finds_nothing_sideways_changes_level() {
    let mut levels = grid(3, false, &[]);
    let mut player = body_at(3_500_000, 11 * U - 20_000);
    player.inputs_down = [true, true, false, false];
    player.on_ground = true;
    player.cyote_time = 2;
    player.update(&mut levels);
    assert_eq!((levels.level_index, levels.x_offset), (1, 14));
    assert_eq!(player.position, [HALF, 11 * U - 20_000]);
    // The step ends there: gravity was added, the rest is as it was.
    assert_eq!(player.velocity, [0, -3_125]);
    assert!(player.on_ground);
    assert_eq!(player.cyote_time, 2);
    assert_eq!(player.inputs_down, [true, true, false, false]);

    let mut levels = grid(3, false, &[]);
    let mut player = body_at(3_000_000, 11 * U - 20_000);
    player.update(&mut levels);
    assert_eq!((levels.level_index, levels.x_offset), (2, 28));
    assert_eq!(player.position, [15 * U - HALF, 11 * U - 20_000]);
}

#[test]
fn level_change_goes_by_where_the_sweep_left_the_body() {
    let mut levels = grid(2, false, &[]);
    let mut player = body_at(2_999_000, -5);
    player.velocity = [2_000, 0];
    player.update(&mut levels);
    assert_eq!(levels.level_index, 1);
    assert_eq!(player.position, [HALF, -5]);
    assert_eq!(player.velocity, [2_000, -3_125]);
}

#[test]
fn a_sweep_along_gravity_that_finds_nothing_meets_no_tile() {
    let mut levels = Levels::new();
    let mut player = body_at(3_000_000, HALF + 1_000);
    player.update(&mut levels);
    assert!(!player.on_ground);
    assert_eq!(player.position, [3_000_000, HALF - 2_125]);
    assert_eq!(player.velocity, [0, -3_125]);
    // From there on every step changes level.
    player.update(&mut levels);
    assert_eq!(player.position, [15 * U - HALF, HALF - 2_125]);
    assert_eq!(player.velocity, [0, -6_250]);
    player.update(&mut levels);
    assert_eq!(player.position, [HALF, HALF - 2_125]);
}

#[test]
fn jump_leaves_the_ground_against_gravity() {
    let mut levels = grid(1, false, &[(7, 4)]);
    let mut player = body_at(3_000_000, 5 * U + HALF);
    player.update_input([true, false, false, false], [true, false, false, false]);
    player.update(&mut levels);
    assert!(player.on_ground);
    assert_eq!(player.velocity, [0, 46_875]);
    assert_eq!(player.inputs_ready, [false; 4]);
    assert_eq!(player.inputs_down, [false; 4]);
    player.update(&mut levels);
    assert!(!player.on_ground);
    assert_eq!(player.cyote_time, 2);
    assert_eq!(player.velocity, [0, 43_750]);
    assert_eq!(player.position, [3_000_000, 5 * U + HALF + 43_750]);

    let mut levels = grid(1, true, &[(7, 6)]);
    let mut player = body_at(3_000_000, 6 * U - HALF);
    player.air_kind = true;
    player.update_input([true, false, false, false], [true, false, false, false]);
    player.update(&mut levels);
    assert_eq!(player.velocity, [0, -46_875]);
}

#[test]
fn jump_needs_ground_or_grace() {
    let mut levels = Levels::new();
    let mut player = Player::new();
    player.inputs_down[0] = true;
    player.inputs_ready[0] = true;
    player.update(&mut levels);
    assert_eq!(player.velocity, [0, -3_125]);
    assert!(player.inputs_ready[0]);

    // Grace is counted down before the jump is looked at.
    let mut player = Player::new();
    player.inputs_ready[0] = true;
    player.cyote_time = 1;
    player.update(&mut levels);
    assert_eq!(player.cyote_time, 0);
    assert_eq!(player.velocity, [0, -3_125]);
    assert!(player.inputs_ready[0]);

    let mut player = Player::new();
    player.inputs_ready[0] = true;
    player.cyote_time = 2;
    player.update(&mut levels);
    assert_eq!(player.cyote_time, 1);
    assert_eq!(player.velocity, [0, 46_875]);
    assert!(!player.inputs_ready[0]);
}

#[test]
fn grace_runs_out_after_leaving_the_ground() {
    let mut levels = grid(1, false, &[(7, 4)]);
    let mut player = body_at(3_000_000, 5 * U + HALF);
    player.update(&mut levels);
    assert_eq!(player.cyote_time, 3);
    levels.tiles[7 * 11 + 4] = false;
    let mut seen = Vec::new();
    for _ in 0..5 {
        player.update(&mut levels);
        assert!(!player.on_ground);
        seen.push(player.cyote_time);
    }
    assert_eq!(seen, vec![2, 1, 0, 0, 0]);
}

#[test]
fn held_directions_push_and_speed_is_damped() {
    let mut levels = grid(1, false, &[(7, 4)]);
    let ground = 5 * U + HALF;
    let mut player = body_at(3_000_000, ground);
    player.update_input([false, false, false, true], [false; 4]);
    player.update(&mut levels);
    assert_eq!(player.velocity, [3_125, 0]);
    assert_eq!(player.position, [3_000_000, ground]);
    assert_eq!(player.inputs_down, [false; 4]);
    player.update_input([false, false, false, true], [false; 4]);
    player.update(&mut levels);
    assert_eq!(player.position, [3_003_125, ground]);
    assert_eq!(player.velocity, [2_812 + 3_125, 0]);
    // Nothing held: the speed is damped only.
    player.update(&mut levels);
    assert_eq!(player.position, [3_003_125 + 5_937, ground]);
    assert_eq!(player.velocity, [5_343, 0]);
    player.update_input([false, true, false, false], [false; 4]);
    player.update(&mut levels);
    assert_eq!(player.velocity, [4_808 - 3_125, 0]);
    player.update_input([false, true, false, true], [false; 4]);
    player.update(&mut levels);
    assert_eq!(player.velocity, [1_514, 0]);
}

#[test]
fn a_tile_met_sideways_stops_the_body_sideways() {
    let mut levels = grid(1, false, &[(8, 5)]);
    let mut player = Player::new();
    player.velocity = [250_000, 0];
    player.update(&mut levels);
    assert_eq!(player.position, [8 * U - HALF, 2_196_875]);
    assert_eq!(player.velocity, [0, -3_125]);
}

#[test]
fn flip_on_the_ground_takes_the_body_into_the_tiles_that_it_stands_on() {
    let mut levels = grid(1, false, &[(7, 4)]);
    let mut player = body_at(3_000_000, 5 * U + HALF);
    player.update_input([false, false, true, false], [false, false, true, false]);
    player.update(&mut levels);
    assert!(player.on_ground);
    assert!(player.air_kind);
    assert_eq!(player.position, [3_000_000, 5 * U - HALF]);
    assert_eq!(player.velocity, [0, 0]);
    assert_eq!(player.inputs_ready, [false; 4]);
    // There it hangs under the open tiles above it.
    player.update(&mut levels);
    assert!(player.on_ground);
    assert_eq!(player.position, [3_000_000, 5 * U - HALF]);
    // And it flips back out.
    player.update_input([false, false, true, false], [false, false, true, false]);
    player.update(&mut levels);
    assert!(!player.air_kind);
    assert_eq!(player.position, [3_000_000, 5 * U + HALF]);
}

#[test]
fn flip_on_the_ground_is_turned_down_where_the_body_would_overlap() {
    // The body stands on one tile with half its width; under the other half
    // there is no tile to flip into.
    let mut levels = grid(1, false, &[(7, 4)]);
    let mut player = body_at(7 * U, 5 * U + HALF);
    player.update_input([false, false, true, false], [false, false, true, false]);
    player.update(&mut levels);
    assert!(player.on_ground);
    assert!(!player.air_kind);
    assert_eq!(player.position, [7 * U, 5 * U + HALF]);
    assert_eq!(player.velocity, [0, 0]);
    assert_eq!(player.inputs_ready, [false; 4]);
}

#[test]
fn flip_needs_the_ground() {
    let mut levels = grid(1, false, &[(7, 4)]);
    let mut player = body_at(3_000_000, 5 * U + HALF + 50_000);
    player.inputs_down[2] = true;
    player.inputs_ready[2] = true;
    player.update(&mut levels);
    assert!(!player.on_ground);
    assert!(!player.air_kind);
    assert!(player.inputs_ready[2]);
    assert_eq!(player.position, [3_000_000, 5 * U + HALF + 50_000 - 3_125]);
}

#[test]
fn update_lets_go_of_held_inputs_but_keeps_presses() {
    let mut levels = Levels::new();
    let mut player = Player::new();
    player.update_input([true, true, true, true], [false, true, false, true]);
    player.update(&mut levels);
    assert_eq!(player.inputs_down, [false; 4]);
    assert_eq!(player.inputs_ready, [false, true, false, true]);
}

#[test]
fn speed_saturates() {
    let mut levels = Levels::new();
    let mut player = Player::new();
    player.velocity = [0, i64::MIN];
    player.update(&mut levels);
    assert_eq!(player.velocity, [0, i64::MIN]);
    assert_eq!(player.position, [3_000_000, i64::MIN + 2_200_000]);

    let mut player = Player::new();
    player.velocity = [0, i64::MAX];
    player.update(&mut levels);
    assert_eq!(player.velocity, [0, i64::MAX - 3_125]);
    assert_eq!(player.position, [3_000_000, i64::MAX]);

    let mut player = Player::new();
    player.velocity = [i64::MIN, 0];
    player.update(&mut levels);
    // Far left of the screen is solid: each corner in turn is stopped and
    // puts the body one tile further right, and then one tile further up.
    let corner = (i64::MIN + 3_000_000 + HALF - 1) as i128;
    let floor = corner.div_euclid(U as i128) * U as i128;
    assert_eq!(player.position[0] as i128, floor + 4 * U as i128 + HALF as i128);
    assert_eq!(player.position[1], 9 * U + HALF);
    assert_eq!(player.velocity, [0, 0]);
    assert!(player.on_ground);
}

#[test]
fn corners_are_one_unit_short_on_the_far_side() {
    let player = Player::new();
    assert_eq!(player.corner(0), [3_099_999, 2_299_999]);
    assert_eq!(player.corner(1), [2_900_000, 2_299_999]);
    assert_eq!(player.corner(2), [2_900_000, 2_100_000]);
    assert_eq!(player.corner(3), [3_099_999, 2_100_000]);
    let far = body_at(i64::MAX, i64::MIN);
    assert_eq!(far.corner(0), [i64::MAX, i64::MIN + 99_999]);
    assert_eq!(far.corner(2), [i64::MAX - 100_000, i64::MIN]);
}

#[test]
fn signals_tell_open_blocked_and_nothing() {
    let levels = grid(1, false, &[(7, 5)]);
    // The body straddles four cells, one corner in each.
    let mut player = body_at(7 * U, 5 * U);
    assert_eq!(player.signal(&levels, 0), Signal::Blocked);
    assert_eq!(player.signal(&levels, 1), Signal::Open);
    assert_eq!(player.signal(&levels, 2), Signal::Open);
    assert_eq!(player.signal(&levels, 3), Signal::Open);
    player.air_kind = true;
    assert_eq!(player.signal(&levels, 0), Signal::Open);
    assert_eq!(player.signal(&levels, 1), Signal::Blocked);
    let low = body_at(7 * U, 0);
    assert_eq!(low.signal(&levels, 0), Signal::Open);
    assert_eq!(low.signal(&levels, 2), Signal::Nothing);
    assert_eq!(low.signal(&levels, 3), Signal::Nothing);
    let left = body_at(0, 5 * U);
    assert_eq!(left.signal(&levels, 1), Signal::Blocked);
    let right = body_at(15 * U, 5 * U);
    assert_eq!(right.signal(&levels, 0), Signal::Open);
}

#[test]
fn update_changes_the_window_only() {
    let mut levels = grid(3, false, &[(3, 3), (9, 9)]);
    levels.limited_gem = Some(17);
    let before = levels.clone();
    let mut player = body_at(3_500_000, -1);
    player.update(&mut levels);
    assert_eq!(levels.tiles, before.tiles);
    assert_eq!(levels.num_levels, 3);
    assert_eq!(levels.limited_gem, Some(17));
    assert_eq!(levels.full_gem, None);
    assert_eq!(levels.level_index, 1);
}
