use donut::frame::{render, screen_bytes, Frame, Sample};
use donut::shade::{glyph_for, luminance_index, ramp_glyph, BACKGROUND, RAMP_LEN};

const RAMP: &[u8; 12] = b".,-~:;=!*#$@";

fn sample(column: isize, row: isize, depth: f32, luminance: f32) -> Sample {
    Sample { column, row, depth: depth.to_bits(), luminance: luminance.to_bits() }
}

fn allowed(g: u8) -> bool {
    g == b' ' || RAMP.contains(&g)
}

#[test]
fn ramp_matches_the_glyph_table() {
    assert_eq!(RAMP_LEN, 12);
    for i in 0..RAMP_LEN {
        assert_eq!(ramp_glyph(i), RAMP[i]);
    }
    assert_eq!(BACKGROUND, b' ');
}

#[test]
fn luminance_is_quantised_in_eighths() {
    assert_eq!(luminance_index(0.1f32.to_bits()), 0);
    assert_eq!(luminance_index(0.125f32.to_bits()), 1);
    assert_eq!(luminance_index(0.5f32.to_bits()), 4);
    assert_eq!(luminance_index(0.74f32.to_bits()), 5);
    assert_eq!(luminance_index(1.0f32.to_bits()), 8);
    assert_eq!(luminance_index(1.37f32.to_bits()), 10);
    assert_eq!(luminance_index(1.4f32.to_bits()), 11);
    assert_eq!(luminance_index(f32::from_bits(1).to_bits()), 0);
}

#[test]
fn bright_luminance_clamps_to_last_glyph() {
    assert_eq!(glyph_for(1.5f32.to_bits()), b'@');
    assert_eq!(glyph_for(2.0f32.to_bits()), b'@');
    assert_eq!(glyph_for(1.0e30f32.to_bits()), b'@');
    assert_eq!(glyph_for(f32::INFINITY.to_bits()), b'@');
    assert_eq!(glyph_for(0.3f32.to_bits()), b'-');
    assert_eq!(glyph_for(0.9f32.to_bits()), b'!');
}

#[test]
fn grid_has_requested_shape_and_glyphs() {
    let mut samples = Vec::new();
    for i in 0..200isize {
        let l = (i as f32) / 100.0 - 0.3;
        samples.push(sample(i % 90 - 5, i % 30 - 3, 0.2 + (i % 7) as f32 * 0.01, l));
    }
    let grid = render(&samples, 80, 24);
    assert_eq!(grid.len(), 24);
    for row in &grid {
        assert_eq!(row.len(), 80);
        assert!(row.iter().all(|&g| allowed(g)));
    }
    assert!(grid.iter().any(|row| row.iter().any(|&g| g != b' ')));
}

#[test]
fn zero_size_gives_empty_grid() {
    let samples = vec![sample(0, 0, 0.5, 0.5)];
    assert!(render(&samples, 0, 24).is_empty());
    assert!(render(&samples, 80, 0).is_empty());
    assert!(render(&samples, 0, 0).is_empty());
}

#[test]
fn rendering_is_deterministic() {
    let samples = vec![
        sample(1, 1, 0.3, 0.7),
        sample(1, 1, 0.4, 0.2),
        sample(3, 0, 0.3, 1.2),
        sample(2, 2, 0.1, 0.05),
    ];
    let a = render(&samples, 5, 3);
    let b = render(&samples, 5, 3);
    assert_eq!(a, b);
    assert_eq!(screen_bytes(&a), screen_bytes(&b));
}

#[test]
fn nearer_sample_wins_in_either_order() {
    let near = sample(2, 1, 0.5, 1.2);
    let far = sample(2, 1, 0.25, 0.3);
    let a = render(&vec![near, far], 4, 3);
    let b = render(&vec![far, near], 4, 3);
    assert_eq!(a, b);
    assert_eq!(a[1][2], b'#');
}

#[test]
fn equal_depth_keeps_first_glyph() {
    let first = sample(0, 0, 0.5, 0.2);
    let second = sample(0, 0, 0.5, 1.0);
    let grid = render(&vec![first, second], 2, 2);
    assert_eq!(grid[0][0], b',');
}

#[test]
fn unlit_or_behind_samples_are_not_drawn() {
    let samples = vec![
        sample(0, 0, 0.5, 0.0),
        sample(1, 0, 0.5, -0.7),
        sample(0, 1, 0.0, 0.9),
        sample(1, 1, -0.5, 0.9),
        sample(2, 1, f32::NAN, 0.9),
        sample(2, 0, 0.5, f32::NAN),
    ];
    let grid = render(&samples, 3, 2);
    assert_eq!(grid, vec![b"   ".to_vec(), b"   ".to_vec()]);
}

#[test]
fn untouched_cells_stay_background() {
    let samples = vec![
        sample(-1, 0, 0.5, 0.9),
        sample(0, -1, 0.5, 0.9),
        sample(4, 0, 0.5, 0.9),
        sample(0, 3, 0.5, 0.9),
        sample(isize::MAX, isize::MIN, 0.5, 0.9),
    ];
    let grid = render(&samples, 4, 3);
    assert_eq!(grid.len(), 3);
    assert!(grid.iter().all(|row| row.iter().all(|&g| g == b' ')));
}

#[test]
fn single_sample_lands_on_its_cell() {
    let grid = render(&vec![sample(3, 2, 0.4, 0.5)], 5, 4);
    for (y, row) in grid.iter().enumerate() {
        for (x, &g) in row.iter().enumerate() {
            if x == 3 && y == 2 {
                assert_eq!(g, b':');
            } else {
                assert_eq!(g, b' ');
            }
        }
    }
}

#[test]
fn frame_plots_and_reports_cells() {
    let mut f = Frame::new(3, 2);
    assert_eq!(f.width(), 3);
    assert_eq!(f.height(), 2);
    f.plot(&sample(1, 1, 0.3, 0.8));
    f.plot(&sample(1, 1, 0.2, 1.4));
    assert_eq!(f.glyph_at(1, 1), b'=');
    assert_eq!(f.glyph_at(0, 0), b' ');
    f.plot_all(&vec![sample(1, 1, 0.35, 1.4)]);
    assert_eq!(f.glyph_at(1, 1), b'@');
    assert_eq!(f.rows(), vec![b"   ".to_vec(), b" @ ".to_vec()]);
}

#[test]
fn screen_bytes_home_the_cursor_and_end_each_row() {
    let grid = render(&vec![sample(0, 1, 0.4, 1.0)], 2, 2);
    assert_eq!(screen_bytes(&grid), b"\x1b[H  \n* \n".to_vec());
    assert_eq!(screen_bytes(&Vec::new()), b"\x1b[H".to_vec());
}
