use gameoflife::{
    crosshair, glider, glider_gun, glider_mistake, init, pattern, place, read_cell, rotation,
    step_generation, write_pattern, GameState, Pattern,
};

const GUN_POINTS: [(i32, i32); 36] = [
    (0, 5),
    (0, 6),
    (1, 5),
    (1, 6),
    (10, 5),
    (10, 6),
    (10, 7),
    (11, 4),
    (11, 8),
    (12, 3),
    (12, 9),
    (13, 3),
    (13, 9),
    (14, 6),
    (15, 4),
    (15, 8),
    (16, 5),
    (16, 6),
    (16, 7),
    (17, 6),
    (20, 3),
    (20, 4),
    (20, 5),
    (21, 3),
    (21, 4),
    (21, 5),
    (22, 2),
    (22, 6),
    (24, 1),
    (24, 2),
    (24, 6),
    (24, 7),
    (34, 3),
    (34, 4),
    (35, 3),
    (35, 4),
];

/// Checks that exactly the cells of `expected` hold `value` in the written
/// generation and that every other cell is dead.
fn assert_written(state: &GameState, expected: &[(i64, i64)], value: u32) {
    for y in 0..state.height() {
        for x in 0..state.width() {
            let wanted = expected.contains(&(x as i64, y as i64));
            let here: u32 = state.written_cell(x, y);
            if wanted {
                assert_eq!(here, value, "cell ({}, {})", x, y);
            } else {
                assert_eq!(here, 0, "cell ({}, {})", x, y);
            }
        }
    }
}

#[test]
fn catalog_holds_the_three_stampable_patterns() {
    let first = pattern(0);
    assert_eq!((first.origin_x, first.origin_y), (1, 1));
    assert_eq!(first.points, vec![(1, 0), (2, 1), (0, 2), (1, 2), (2, 2)]);
    let second = pattern(1);
    assert_eq!((second.origin_x, second.origin_y), (1, 1));
    assert_eq!(second.points, vec![(1, 0), (2, 0), (2, 1), (0, 2), (1, 2), (2, 2)]);
    let third = pattern(2);
    assert_eq!((third.origin_x, third.origin_y), (18, 5));
    assert_eq!(third.points, GUN_POINTS.to_vec());
}

#[test]
fn catalog_functions_agree_with_the_index() {
    assert_eq!(glider().points, pattern(0).points);
    assert_eq!(glider_mistake().points, pattern(1).points);
    assert_eq!(glider_gun().points, pattern(2).points);
}

#[test]
fn crosshair_has_four_arms_of_four_points() {
    let mark = crosshair();
    assert_eq!((mark.origin_x, mark.origin_y), (0, 0));
    assert_eq!(mark.points.len(), 16);
    for reach in 20..24i32 {
        assert!(mark.points.contains(&(reach, 0)));
        assert!(mark.points.contains(&(-reach, 0)));
        assert!(mark.points.contains(&(0, reach)));
        assert!(mark.points.contains(&(0, -reach)));
    }
}

#[test]
fn rotations_are_the_four_sign_pairs() {
    assert_eq!(rotation(0), (1, 1));
    assert_eq!(rotation(1), (1, -1));
    assert_eq!(rotation(2), (-1, -1));
    assert_eq!(rotation(3), (-1, 1));
}

#[test]
fn place_subtracts_origin_applies_sign_adds_cell() {
    assert_eq!(place(50, 1, 0, 18), 32);
    assert_eq!(place(50, 1, 35, 18), 67);
    assert_eq!(place(50, -1, 35, 18), 33);
    assert_eq!(place(0, 1, 0, 18), -18);
    assert_eq!(place(0, -1, 35, 18), -17);
    assert_eq!(place(u32::MAX, 1, 5, 0), 4294967300);
    assert_eq!(
        place(u32::MAX, i32::MIN, i32::MIN, i32::MAX),
        (i32::MIN as i128) * (i32::MIN as i128 - i32::MAX as i128) + u32::MAX as i128
    );
}

#[test]
fn gun_stamped_at_fifty_fifty_sets_exactly_its_cells() {
    let mut state = init((120, 100), 1);
    write_pattern(&mut state, 50, 50, &glider_gun(), (1, 1), 7);
    let expected: Vec<(i64, i64)> =
        GUN_POINTS.iter().map(|p| (50 + p.0 as i64 - 18, 50 + p.1 as i64 - 5)).collect();
    assert_eq!(expected.len(), 36);
    assert_written(&state, &expected, 7);
    for y in 0..100u32 {
        for x in 0..120u32 {
            assert_eq!(read_cell(&state, x, y), 0);
        }
    }
}

#[test]
fn stamping_applies_the_signs_to_the_offsets() {
    let signs: [(i32, i32); 4] = [(1, 1), (1, -1), (-1, -1), (-1, 1)];
    for sign in signs {
        let mut state = init((120, 100), 1);
        write_pattern(&mut state, 60, 40, &glider_gun(), sign, 1);
        let expected: Vec<(i64, i64)> = GUN_POINTS
            .iter()
            .map(|p| {
                (60 + sign.0 as i64 * (p.0 as i64 - 18), 40 + sign.1 as i64 * (p.1 as i64 - 5))
            })
            .collect();
        assert_written(&state, &expected, 1);
    }
}

#[test]
fn glider_stamp_is_centred_on_its_origin() {
    let mut state = init((10, 10), 1);
    write_pattern(&mut state, 4, 4, &glider(), (1, 1), 1);
    assert_written(&state, &[(4, 3), (5, 4), (3, 5), (4, 5), (5, 5)], 1);
}

#[test]
fn stamp_drops_points_outside_the_grid() {
    let mut state = init((10, 10), 1);
    write_pattern(&mut state, 0, 0, &glider(), (1, 1), 1);
    // Of (0,-1), (1,0), (-1,1), (0,1), (1,1) three lie inside.
    assert_written(&state, &[(1, 0), (0, 1), (1, 1)], 1);
    let mut corner = init((10, 10), 1);
    write_pattern(&mut corner, 9, 9, &glider(), (1, 1), 1);
    assert_written(&corner, &[(9, 8)], 1);
    let mut far = init((10, 10), 1);
    write_pattern(&mut far, u32::MAX, u32::MAX, &glider(), (1, 1), 1);
    assert_written(&far, &[], 1);
}

#[test]
fn stamp_does_not_wrap_around_the_number_range() {
    // The offsets reach past both ends of the range of the coordinates; no
    // such point may come back into the grid.
    let shape = Pattern {
        origin_x: i32::MIN,
        origin_y: 0,
        points: vec![(i32::MAX, 0), (i32::MIN + 2, 1)],
    };
    let mut state = init((6, 6), 1);
    write_pattern(&mut state, 3, 3, &shape, (1, 1), 1);
    assert_written(&state, &[(5, 4)], 1);
    let mut mirrored = init((6, 6), 1);
    write_pattern(&mut mirrored, 3, 3, &shape, (-1, 1), 1);
    assert_written(&mirrored, &[(1, 4)], 1);
}

#[test]
fn stamp_overwrites_and_keeps_the_rest() {
    let mut state = init((10, 10), 1);
    write_pattern(&mut state, 4, 4, &glider(), (1, 1), 1);
    step_generation(&mut state, 5);
    // The step saw an empty read generation: the interior died.
    assert_written(&state, &[], 1);
    write_pattern(&mut state, 4, 4, &glider(), (1, 1), 3);
    write_pattern(&mut state, 5, 4, &glider(), (1, 1), 5);
    assert_eq!(state.written_cell(4, 3), 3);
    assert_eq!(state.written_cell(5, 3), 5);
    assert_eq!(state.written_cell(5, 4), 3);
    assert_eq!(state.written_cell(6, 4), 5);
    assert_eq!(state.written_cell(4, 5), 5);
    assert_eq!(state.written_cell(3, 5), 3);
    assert_eq!(state.written_cell(5, 5), 5);
    assert_eq!(state.written_cell(6, 5), 5);
}

#[test]
fn empty_pattern_stamps_nothing() {
    let shape = Pattern { origin_x: 0, origin_y: 0, points: vec![] };
    let mut state = init((4, 4), 1);
    write_pattern(&mut state, 1, 1, &shape, (1, 1), 1);
    assert_written(&state, &[], 1);
}

#[test]
fn gun_in_a_fresh_window_grid() {
    let mut state = init((1280, 720), 2);
    write_pattern(&mut state, 50, 50, &glider_gun(), (1, 1), 7);
    let mut alive: u32 = 0;
    for y in 0..360u32 {
        for x in 0..640u32 {
            let here: u32 = state.written_cell(x, y);
            if here != 0 {
                assert_eq!(here, 7);
                assert!(32 <= x && x <= 67 && 46 <= y && y <= 54);
                alive += 1;
            }
        }
    }
    assert_eq!(alive, 36);
    for cell in [(32u32, 50u32), (32, 51), (56, 46), (44, 54), (67, 48), (67, 49)] {
        assert_eq!(state.written_cell(cell.0, cell.1), 7);
    }
    assert_eq!(state.written_cell(50, 50), 0);
    assert_eq!(state.frame(), 1);
}

#[test]
fn glider_reflected_in_both_directions() {
    let mut state = init((40, 40), 2);
    write_pattern(&mut state, 6, 6, &glider(), (-1, -1), 3);
    assert_written(&state, &[(6, 7), (5, 6), (7, 5), (6, 5), (5, 5)], 3);
}

#[test]
fn glider_clipped_at_the_first_cell() {
    let mut state = init((40, 40), 2);
    write_pattern(&mut state, 0, 0, &glider(), (1, 1), 3);
    assert_written(&state, &[(1, 0), (0, 1), (1, 1)], 3);
}

#[test]
fn stamping_twice_is_stamping_once() {
    let mut once = init((30, 30), 1);
    write_pattern(&mut once, 20, 8, &glider_gun(), (-1, 1), 11);
    let mut twice = init((30, 30), 1);
    write_pattern(&mut twice, 20, 8, &glider_gun(), (-1, 1), 11);
    write_pattern(&mut twice, 20, 8, &glider_gun(), (-1, 1), 11);
    for y in 0..30u32 {
        for x in 0..30u32 {
            assert_eq!(twice.written_cell(x, y), once.written_cell(x, y));
            assert_eq!(read_cell(&twice, x, y), 0);
        }
    }
}
