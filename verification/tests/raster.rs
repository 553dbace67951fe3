use gameoflife::{
    draw_cell, draw_generation, draw_mark, draw_pattern, draw_point, glider, init, shade,
    write_cell_checked, Color, ImageBuffer, Pattern,
};

const FILL: u8 = 0xee;

fn pixel(bytes: &[u8], pitch: usize, x: usize, y: usize) -> (u8, u8, u8) {
    let offset: usize = y * pitch + x * 3;
    (bytes[offset], bytes[offset + 1], bytes[offset + 2])
}

fn gray(level: u8) -> (u8, u8, u8) {
    (level, level, level)
}

#[test]
fn shade_is_full_at_birth() {
    assert_eq!(shade(1, 1), 255);
    assert_eq!(shade(977, 977), 255);
    assert_eq!(shade(u32::MAX, u32::MAX), 255);
}

#[test]
fn shade_loses_one_step_per_frame() {
    assert_eq!(shade(5, 6), 254);
    assert_eq!(shade(5, 15), 245);
    assert_eq!(shade(1, 208), 48);
    assert_eq!(shade(100, 307), 48);
}

#[test]
fn shade_stops_at_the_floor() {
    assert_eq!(shade(1, 209), 47);
    assert_eq!(shade(1, 210), 47);
    assert_eq!(shade(1, 100_000), 47);
    assert_eq!(shade(1, u32::MAX), 47);
}

#[test]
fn shade_of_a_dead_cell_is_the_background() {
    assert_eq!(shade(0, 0), 24);
    assert_eq!(shade(0, 1), 24);
    assert_eq!(shade(0, u32::MAX), 24);
}

#[test]
fn shade_never_rises_with_the_frame() {
    let birth: u32 = 40;
    let mut last: u8 = shade(birth, birth);
    assert_eq!(last, 255);
    for frame in birth + 1..birth + 400 {
        let now: u8 = shade(birth, frame);
        assert!(now <= last);
        assert!(now >= 47);
        last = now;
    }
    assert_eq!(last, 47);
}

#[test]
fn point_is_three_bytes_at_row_times_pitch_plus_three_columns() {
    let mut bytes = vec![0u8; 4 * 20];
    let mut buffer = ImageBuffer { width: 5, height: 4, pitch: 20, pixels: &mut bytes };
    assert!(buffer.is_valid());
    draw_point(&mut buffer, 3, 2, Color::rgb(10, 20, 30));
    let mut expected = vec![0u8; 4 * 20];
    expected[2 * 20 + 3 * 3] = 10;
    expected[2 * 20 + 3 * 3 + 1] = 20;
    expected[2 * 20 + 3 * 3 + 2] = 30;
    assert_eq!(bytes, expected);
}

#[test]
fn point_outside_the_buffer_is_dropped() {
    let mut bytes = vec![FILL; 4 * 20];
    let mut buffer = ImageBuffer { width: 5, height: 4, pitch: 20, pixels: &mut bytes };
    draw_point(&mut buffer, 5, 0, Color::rgb(1, 2, 3));
    draw_point(&mut buffer, 0, 4, Color::rgb(1, 2, 3));
    draw_point(&mut buffer, usize::MAX, usize::MAX, Color::rgb(1, 2, 3));
    assert_eq!(bytes, vec![FILL; 4 * 20]);
}

#[test]
fn point_in_the_last_pixel_of_a_tight_buffer() {
    let mut bytes = vec![0u8; 2 * 6];
    let mut buffer = ImageBuffer { width: 2, height: 2, pitch: 6, pixels: &mut bytes };
    assert!(buffer.is_valid());
    draw_point(&mut buffer, 1, 1, Color::rgb(7, 8, 9));
    assert_eq!(bytes, vec![0, 0, 0, 0, 0, 0, 0, 0, 0, 7, 8, 9]);
}

#[test]
fn validity_asks_for_room_in_rows_and_bytes() {
    let mut bytes = vec![0u8; 40];
    assert!(ImageBuffer { width: 3, height: 4, pitch: 10, pixels: &mut bytes }.is_valid());
    assert!(ImageBuffer { width: 3, height: 4, pitch: 9, pixels: &mut bytes }.is_valid());
    assert!(!ImageBuffer { width: 3, height: 4, pitch: 8, pixels: &mut bytes }.is_valid());
    assert!(!ImageBuffer { width: 3, height: 5, pitch: 9, pixels: &mut bytes }.is_valid());
    assert!(!ImageBuffer { width: 3, height: 4, pitch: 11, pixels: &mut bytes }.is_valid());
    assert!(ImageBuffer { width: 0, height: 0, pitch: 0, pixels: &mut bytes }.is_valid());
    assert!(!ImageBuffer { width: usize::MAX, height: 1, pitch: 40, pixels: &mut bytes }
        .is_valid());
    assert!(!ImageBuffer { width: 1, height: usize::MAX, pitch: 40, pixels: &mut bytes }
        .is_valid());
}

#[test]
fn mark_is_two_by_two_pixels() {
    let mut bytes = vec![0u8; 5 * 18];
    let mut buffer = ImageBuffer { width: 6, height: 5, pitch: 18, pixels: &mut bytes };
    draw_mark(&mut buffer, 2, 1, Color::rgb(9, 8, 7));
    for y in 0..5usize {
        for x in 0..6usize {
            let inside = (x == 2 || x == 3) && (y == 1 || y == 2);
            let wanted = if inside { (9, 8, 7) } else { (0, 0, 0) };
            assert_eq!(pixel(&bytes, 18, x, y), wanted);
        }
    }
}

#[test]
fn mark_is_clipped_at_the_edges() {
    let mut bytes = vec![0u8; 3 * 9];
    let mut buffer = ImageBuffer { width: 3, height: 3, pitch: 9, pixels: &mut bytes };
    draw_mark(&mut buffer, 2, 2, Color::rgb(1, 1, 1));
    draw_mark(&mut buffer, 3, 0, Color::rgb(2, 2, 2));
    draw_mark(&mut buffer, u128::MAX, u128::MAX, Color::rgb(3, 3, 3));
    draw_mark(&mut buffer, u128::MAX, 0, Color::rgb(3, 3, 3));
    let mut expected = vec![0u8; 27];
    expected[2 * 9 + 6] = 1;
    expected[2 * 9 + 7] = 1;
    expected[2 * 9 + 8] = 1;
    assert_eq!(bytes, expected);
}

#[test]
fn cell_mark_sits_at_the_corner_of_its_square() {
    let mut bytes = vec![0u8; 12 * 40];
    let mut buffer = ImageBuffer { width: 12, height: 12, pitch: 40, pixels: &mut bytes };
    draw_cell(&mut buffer, 2, 1, 4, Color::rgb(5, 6, 7));
    for y in 0..12usize {
        for x in 0..12usize {
            let inside = (x == 8 || x == 9) && (y == 4 || y == 5);
            let wanted = if inside { (5, 6, 7) } else { (0, 0, 0) };
            assert_eq!(pixel(&bytes, 40, x, y), wanted);
        }
    }
}

#[test]
fn cell_far_outside_is_dropped() {
    let mut bytes = vec![FILL; 4 * 12];
    let mut buffer = ImageBuffer { width: 4, height: 4, pitch: 12, pixels: &mut bytes };
    draw_cell(&mut buffer, u32::MAX, u32::MAX, u32::MAX, Color::rgb(1, 2, 3));
    draw_cell(&mut buffer, 2, 0, 2, Color::rgb(1, 2, 3));
    assert_eq!(bytes, vec![FILL; 4 * 12]);
}

#[test]
fn generation_is_drawn_in_shades_of_grey() {
    let mut state = init((8, 6), 2);
    write_cell_checked(&mut state, 1, 1, 3);
    write_cell_checked(&mut state, 2, 1, 1);
    let mut bytes = vec![FILL; 6 * 24];
    let mut buffer = ImageBuffer { width: 8, height: 6, pitch: 24, pixels: &mut bytes };
    draw_generation(&mut buffer, 13, &state);
    for y in 0..6usize {
        for x in 0..8usize {
            let level: u8 = if y / 2 == 1 && x / 2 == 1 {
                245
            } else if y / 2 == 1 && x / 2 == 2 {
                243
            } else {
                24
            };
            assert_eq!(pixel(&bytes, 24, x, y), gray(level), "pixel ({}, {})", x, y);
        }
    }
}

#[test]
fn generation_marks_do_not_fill_large_squares() {
    let mut state = init((9, 6), 3);
    write_cell_checked(&mut state, 1, 0, 1);
    let mut bytes = vec![FILL; 6 * 30];
    let mut buffer = ImageBuffer { width: 9, height: 6, pitch: 30, pixels: &mut bytes };
    draw_generation(&mut buffer, 1, &state);
    for y in 0..6usize {
        for x in 0..9usize {
            let marked = x % 3 < 2 && y % 3 < 2;
            let wanted = if !marked {
                gray(FILL)
            } else if x / 3 == 1 && y / 3 == 0 {
                gray(255)
            } else {
                gray(24)
            };
            assert_eq!(pixel(&bytes, 30, x, y), wanted, "pixel ({}, {})", x, y);
        }
    }
    // The bytes between the rows stay as they were.
    for y in 0..6usize {
        for i in 27..30usize {
            assert_eq!(bytes[y * 30 + i], FILL);
        }
    }
}

#[test]
fn overlapping_marks_show_the_later_cell() {
    // With squares of one pixel the mark of a cell reaches over its right
    // and lower neighbours, which are drawn later and cover it again.
    let mut state = init((3, 2), 1);
    write_cell_checked(&mut state, 0, 0, 4);
    write_cell_checked(&mut state, 2, 1, 2);
    let mut bytes = vec![FILL; 4 * 15];
    let mut buffer = ImageBuffer { width: 5, height: 4, pitch: 15, pixels: &mut bytes };
    draw_generation(&mut buffer, 4, &state);
    let rows: [[u8; 5]; 4] = [
        [255, 24, 24, 24, FILL],
        [24, 24, 253, 253, FILL],
        [24, 24, 253, 253, FILL],
        [FILL, FILL, FILL, FILL, FILL],
    ];
    for y in 0..4usize {
        for x in 0..5usize {
            assert_eq!(pixel(&bytes, 15, x, y), gray(rows[y][x]), "pixel ({}, {})", x, y);
        }
    }
}

#[test]
fn generation_is_clipped_by_a_small_buffer() {
    let mut state = init((8, 8), 2);
    write_cell_checked(&mut state, 1, 1, 1);
    let mut bytes = vec![FILL; 3 * 9];
    let mut buffer = ImageBuffer { width: 3, height: 3, pitch: 9, pixels: &mut bytes };
    draw_generation(&mut buffer, 1, &state);
    let rows: [[u8; 3]; 3] = [[24, 24, 24], [24, 24, 24], [24, 24, 255]];
    for y in 0..3usize {
        for x in 0..3usize {
            assert_eq!(pixel(&bytes, 9, x, y), gray(rows[y][x]));
        }
    }
}

#[test]
fn generation_of_an_empty_grid_draws_nothing() {
    let state = init((1, 1), 2);
    let mut bytes = vec![FILL; 12];
    let mut buffer = ImageBuffer { width: 2, height: 2, pitch: 6, pixels: &mut bytes };
    draw_generation(&mut buffer, 1, &state);
    assert_eq!(bytes, vec![FILL; 12]);
}

#[test]
fn pattern_is_drawn_in_one_colour() {
    let mut bytes = vec![0u8; 20 * 60];
    let mut buffer = ImageBuffer { width: 20, height: 20, pitch: 60, pixels: &mut bytes };
    draw_pattern(&mut buffer, 4, 4, 2, &glider(), (1, 1), Color::rgb(0xf7, 0xca, 0x88));
    let cells: [(usize, usize); 5] = [(4, 3), (5, 4), (3, 5), (4, 5), (5, 5)];
    for y in 0..20usize {
        for x in 0..20usize {
            let inside = cells.contains(&(x / 2, y / 2));
            let wanted = if inside { (0xf7, 0xca, 0x88) } else { (0, 0, 0) };
            assert_eq!(pixel(&bytes, 60, x, y), wanted, "pixel ({}, {})", x, y);
        }
    }
}

#[test]
fn pattern_points_left_of_or_above_the_grid_are_dropped() {
    // With squares of one pixel the mark of column -1 would reach pixel 0.
    let shape = Pattern { origin_x: 0, origin_y: 0, points: vec![(-1, 0), (0, -1), (1, 1)] };
    let mut bytes = vec![0u8; 4 * 12];
    let mut buffer = ImageBuffer { width: 4, height: 4, pitch: 12, pixels: &mut bytes };
    draw_pattern(&mut buffer, 0, 0, 1, &shape, (1, 1), Color::rgb(9, 9, 9));
    for y in 0..4usize {
        for x in 0..4usize {
            let inside = (x == 1 || x == 2) && (y == 1 || y == 2);
            let wanted = if inside { (9, 9, 9) } else { (0, 0, 0) };
            assert_eq!(pixel(&bytes, 12, x, y), wanted);
        }
    }
}

#[test]
fn pattern_is_drawn_with_the_signs_applied() {
    let shape = Pattern { origin_x: 1, origin_y: 0, points: vec![(3, 1)] };
    let mut bytes = vec![0u8; 12 * 36];
    let mut buffer = ImageBuffer { width: 12, height: 12, pitch: 36, pixels: &mut bytes };
    draw_pattern(&mut buffer, 5, 5, 1, &shape, (-1, -1), Color::rgb(4, 4, 4));
    for y in 0..12usize {
        for x in 0..12usize {
            let inside = (x == 3 || x == 4) && (y == 4 || y == 5);
            let wanted = if inside { (4, 4, 4) } else { (0, 0, 0) };
            assert_eq!(pixel(&bytes, 36, x, y), wanted);
        }
    }
}

#[test]
fn pattern_far_outside_the_buffer_is_dropped() {
    let shape = Pattern { origin_x: i32::MIN, origin_y: i32::MIN, points: vec![(i32::MAX, 0)] };
    let mut bytes = vec![FILL; 4 * 12];
    let mut buffer = ImageBuffer { width: 4, height: 4, pitch: 12, pixels: &mut bytes };
    draw_pattern(&mut buffer, u32::MAX, u32::MAX, u32::MAX, &shape, (i32::MIN, 1), Color::rgb(1, 1, 1));
    draw_pattern(&mut buffer, u32::MAX, u32::MAX, 1, &shape, (1, 1), Color::rgb(1, 1, 1));
    assert_eq!(bytes, vec![FILL; 4 * 12]);
}

#[test]
fn squares_of_no_size_put_every_mark_in_the_corner() {
    let mut bytes = vec![0u8; 3 * 9];
    let mut buffer = ImageBuffer { width: 3, height: 3, pitch: 9, pixels: &mut bytes };
    draw_pattern(&mut buffer, 700, 900, 0, &glider(), (1, 1), Color::rgb(6, 6, 6));
    for y in 0..3usize {
        for x in 0..3usize {
            let wanted = if x < 2 && y < 2 { (6, 6, 6) } else { (0, 0, 0) };
            assert_eq!(pixel(&bytes, 9, x, y), wanted);
        }
    }
}

#[test]
fn a_cell_fades_from_frame_to_frame() {
    let mut state = init((16, 16), 2);
    write_cell_checked(&mut state, 3, 4, 10);
    let frames: [(u32, u8); 5] = [(10, 255), (110, 155), (218, 47), (300, 47), (1000, 47)];
    for (frame, level) in frames {
        let mut bytes = vec![FILL; 16 * 48];
        let mut buffer = ImageBuffer { width: 16, height: 16, pitch: 48, pixels: &mut bytes };
        draw_generation(&mut buffer, frame, &state);
        for (x, y) in [(6usize, 8usize), (7, 8), (6, 9), (7, 9)] {
            assert_eq!(pixel(&bytes, 48, x, y), gray(level), "frame {}", frame);
        }
        assert_eq!(pixel(&bytes, 48, 8, 8), gray(24));
        assert_eq!(pixel(&bytes, 48, 5, 8), gray(24));
    }
}
