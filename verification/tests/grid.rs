use gameoflife::{
    clear_generation, init, read_cell, swap_generations, try_init, write_cell_checked,
    write_cell_unchecked, GameState,
};

fn count_written(state: &GameState) -> u32 {
    let mut alive: u32 = 0;
    for y in 0..state.height() {
        for x in 0..state.width() {
            if state.written_cell(x, y) > 0 {
                alive += 1;
            }
        }
    }
    alive
}

#[test]
fn init_divides_the_window_into_cells() {
    let state = init((1280, 720), 2);
    assert_eq!(state.width(), 640);
    assert_eq!(state.height(), 360);
    assert_eq!(state.cell_size(), 2);
    assert_eq!(state.frame(), 1);
    assert_eq!(state.mouse_position(), (640, 360));
    assert_eq!(state.selected_pattern(), 2);
    assert_eq!(state.selected_rotation(), 0);
    assert!(!state.is_paused());
}

#[test]
fn init_leaves_remainder_pixels_unused() {
    let state = init((103, 58), 10);
    assert_eq!(state.width(), 10);
    assert_eq!(state.height(), 5);
    assert_eq!(state.mouse_position(), (51, 29));
}

#[test]
fn init_starts_with_every_cell_dead() {
    let state = init((30, 20), 2);
    for y in 0..state.height() {
        for x in 0..state.width() {
            assert_eq!(read_cell(&state, x, y), 0);
            assert_eq!(state.written_cell(x, y), 0);
        }
    }
}

#[test]
fn init_accepts_a_window_smaller_than_a_cell() {
    let state = init((3, 3), 5);
    assert_eq!(state.width(), 0);
    assert_eq!(state.height(), 0);
    assert_eq!(read_cell(&state, 0, 0), 0);
}

#[test]
fn read_outside_the_grid_is_zero() {
    let mut state = init((8, 6), 1);
    for y in 0..6u32 {
        for x in 0..8u32 {
            write_cell_unchecked(&mut state, x, y, 1);
        }
    }
    swap_generations(&mut state);
    assert_eq!(read_cell(&state, 7, 5), 1);
    assert_eq!(read_cell(&state, 8, 0), 0);
    assert_eq!(read_cell(&state, 0, 6), 0);
    assert_eq!(read_cell(&state, 8, 6), 0);
    assert_eq!(read_cell(&state, u32::MAX, 0), 0);
    assert_eq!(read_cell(&state, 0, u32::MAX), 0);
    assert_eq!(read_cell(&state, u32::MAX, u32::MAX), 0);
}

#[test]
fn read_at_a_decremented_zero_is_zero() {
    let mut state = init((4, 4), 1);
    write_cell_unchecked(&mut state, 0, 0, 1);
    swap_generations(&mut state);
    let zero: u32 = 0;
    let below: u32 = zero.wrapping_sub(1);
    assert_eq!(read_cell(&state, below, 0), 0);
    assert_eq!(read_cell(&state, 0, below), 0);
    assert_eq!(read_cell(&state, below, below), 0);
    assert_eq!(read_cell(&state, 0, 0), 1);
}

#[test]
fn cells_are_addressed_row_by_row() {
    let mut state = init((3, 2), 1);
    let mut stamp: u32 = 0;
    for y in 0..2u32 {
        for x in 0..3u32 {
            stamp += 1;
            write_cell_unchecked(&mut state, x, y, stamp);
        }
    }
    assert_eq!(state.written_cell(0, 0), 1);
    assert_eq!(state.written_cell(2, 0), 3);
    assert_eq!(state.written_cell(0, 1), 4);
    assert_eq!(state.written_cell(2, 1), 6);
    swap_generations(&mut state);
    assert_eq!(read_cell(&state, 1, 0), 2);
    assert_eq!(read_cell(&state, 1, 1), 5);
}

#[test]
fn checked_write_ignores_cells_outside_the_grid() {
    let mut state = init((5, 4), 1);
    write_cell_checked(&mut state, 5, 0, 1);
    write_cell_checked(&mut state, 0, 4, 1);
    write_cell_checked(&mut state, u32::MAX, u32::MAX, 1);
    assert_eq!(count_written(&state), 0);
    write_cell_checked(&mut state, 4, 3, 1);
    assert_eq!(count_written(&state), 1);
    assert_eq!(state.written_cell(4, 3), 1);
}

#[test]
fn writes_do_not_touch_the_read_generation() {
    let mut state = init((5, 4), 1);
    write_cell_checked(&mut state, 2, 2, 1);
    assert_eq!(read_cell(&state, 2, 2), 0);
    assert_eq!(state.written_cell(2, 2), 1);
}

#[test]
fn swap_exchanges_the_generations() {
    let mut state = init((5, 4), 1);
    write_cell_checked(&mut state, 1, 2, 1);
    swap_generations(&mut state);
    assert_eq!(read_cell(&state, 1, 2), 1);
    assert_eq!(state.written_cell(1, 2), 0);
    swap_generations(&mut state);
    assert_eq!(read_cell(&state, 1, 2), 0);
    assert_eq!(state.written_cell(1, 2), 1);
}

#[test]
fn clear_twice_leaves_the_written_generation_empty() {
    let mut state = init((6, 6), 1);
    for y in 0..6u32 {
        for x in 0..6u32 {
            write_cell_unchecked(&mut state, x, y, 1);
        }
    }
    assert_eq!(count_written(&state), 36);
    clear_generation(&mut state);
    assert_eq!(count_written(&state), 0);
    clear_generation(&mut state);
    assert_eq!(count_written(&state), 0);
}

#[test]
fn clear_keeps_the_read_generation() {
    let mut state = init((6, 6), 1);
    write_cell_unchecked(&mut state, 3, 3, 1);
    swap_generations(&mut state);
    write_cell_unchecked(&mut state, 2, 2, 1);
    clear_generation(&mut state);
    assert_eq!(read_cell(&state, 3, 3), 1);
    assert_eq!(state.written_cell(2, 2), 0);
}

#[test]
fn try_init_refuses_cells_without_a_size() {
    assert!(try_init((1280, 720), 0).is_none());
    assert!(try_init((0, 0), 0).is_none());
}

#[test]
fn try_init_agrees_with_init() {
    let state = try_init((1280, 720), 2).unwrap();
    assert_eq!(state.width(), 640);
    assert_eq!(state.height(), 360);
    assert_eq!(state.cell_size(), 2);
    assert_eq!(state.frame(), 1);
    assert_eq!(state.mouse_position(), (640, 360));
    assert_eq!(state.selected_pattern(), 2);
    assert_eq!(state.selected_rotation(), 0);
    assert!(!state.is_paused());
    assert_eq!(read_cell(&state, 639, 359), 0);
    assert_eq!(state.written_cell(639, 359), 0);
    let empty = try_init((0, 0), 1).unwrap();
    assert_eq!((empty.width(), empty.height()), (0, 0));
}

#[test]
fn any_value_may_be_written() {
    let mut state = init((4, 4), 1);
    write_cell_checked(&mut state, 1, 1, u32::MAX);
    write_cell_unchecked(&mut state, 2, 1, 1000);
    write_cell_checked(&mut state, 9, 9, 77);
    write_cell_checked(&mut state, u32::MAX, 0, u32::MAX);
    assert_eq!(state.written_cell(1, 1), u32::MAX);
    assert_eq!(state.written_cell(2, 1), 1000);
    assert_eq!(count_written(&state), 2);
    assert_eq!(state.frame(), 1);
    for y in 0..4u32 {
        for x in 0..4u32 {
            assert_eq!(read_cell(&state, x, y), 0);
        }
    }
}

#[test]
fn births_are_checked_in_both_generations() {
    let mut state = init((4, 4), 1);
    assert!(state.births_by(0));
    write_cell_checked(&mut state, 1, 1, 10);
    assert!(!state.births_by(9));
    assert!(state.births_by(10));
    assert!(state.births_by(u32::MAX));
    swap_generations(&mut state);
    assert!(!state.births_by(9));
    assert!(state.births_by(10));
    write_cell_checked(&mut state, 3, 3, 12);
    assert!(!state.births_by(11));
    assert!(state.births_by(12));
    clear_generation(&mut state);
    assert!(!state.births_by(9));
    assert!(state.births_by(10));
    let empty = init((0, 0), 1);
    assert!(empty.births_by(0));
}

#[test]
fn reads_of_a_stamped_glider() {
    let mut state = init((40, 40), 2);
    gameoflife::write_pattern(&mut state, 1, 1, &gameoflife::glider(), (1, 1), 7);
    swap_generations(&mut state);
    // Column 20 of row 1 is outside; its index would be that of (0, 2).
    assert_eq!(read_cell(&state, 20, 1), 0);
    assert_eq!(read_cell(&state, u32::MAX, 0), 0);
    assert_eq!(read_cell(&state, 0, u32::MAX), 0);
    assert_eq!(read_cell(&state, 1, 20), 0);
    assert_eq!(read_cell(&state, 0, 2), 7);
    assert_eq!(read_cell(&state, 1, 0), 7);
    assert_eq!(read_cell(&state, 2, 1), 7);
    assert_eq!(read_cell(&state, 1, 2), 7);
    assert_eq!(read_cell(&state, 2, 2), 7);
    assert_eq!(read_cell(&state, 1, 1), 0);
}
