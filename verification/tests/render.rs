use snake::game::{draw_number, draw_object, draw_on_point};
use snake::glyphs::{glyph_lit_at, glyph_row_at, to_digits};
use snake::resource::GameWorld;

const WHITE: [u8; 4] = [255, 255, 255, 255];

#[test]
fn opaque_white_overwrites_the_pixel() {
    // frame of 2x2 pixels, stride 2, with varied existing contents
    let mut frame: Vec<u8> = (0..16).map(|i| (i * 7 + 3) as u8).collect();
    let before = frame.clone();
    draw_on_point(1, 0, WHITE, &mut frame, 2);
    // bytes of pixel (1,0) are offset 4..8
    assert_eq!(&frame[4..8], &[255, 255, 255, 255]);
    assert_eq!(&frame[0..4], &before[0..4]);
    assert_eq!(&frame[8..], &before[8..]);
}

#[test]
fn out_of_range_offset_leaves_the_buffer_unmodified() {
    let mut frame: Vec<u8> = vec![9; 16];
    draw_on_point(5, 5, WHITE, &mut frame, 2);
    assert_eq!(frame, vec![9; 16]);
    // the last pixel that fits is offset 12..16; (0,2) with stride 2 is offset 16
    draw_on_point(0, 2, WHITE, &mut frame, 2);
    assert_eq!(frame, vec![9; 16]);
}

#[test]
fn zero_alpha_keeps_colors_and_forces_opaque_alpha() {
    let mut frame: Vec<u8> = vec![10, 20, 30, 40, 50, 60, 70, 80];
    draw_on_point(0, 0, [200, 100, 9, 0], &mut frame, 2);
    assert_eq!(frame, vec![10, 20, 30, 255, 50, 60, 70, 80]);
}

#[test]
fn half_alpha_blends_toward_the_source() {
    let mut frame: Vec<u8> = vec![0, 0, 0, 0];
    draw_on_point(0, 0, [255, 101, 0, 51], &mut frame, 1);
    // alpha 51/255 = 1/5: channels become src/5 + dst*4/5, rounded down
    assert_eq!(frame, vec![51, 20, 0, 255]);
}

#[test]
fn draw_object_paints_every_listed_pixel() {
    let mut frame: Vec<u8> = vec![0; 4 * 4 * 4];
    let points = vec![[0u32, 0u32], [2, 1], [3, 3]];
    draw_object(&points, &mut frame, 4);
    for (x, y) in [(0usize, 0usize), (2, 1), (3, 3)] {
        let i = (y * 4 + x) * 4;
        assert_eq!(&frame[i..i + 4], &[255, 255, 255, 255]);
    }
    let lit: usize = frame.iter().filter(|&&b| b == 255).count();
    assert_eq!(lit, 12);
}

#[test]
fn to_digits_splits_most_significant_first() {
    assert_eq!(to_digits(0), vec![0]);
    assert_eq!(to_digits(7), vec![7]);
    assert_eq!(to_digits(907), vec![9, 0, 7]);
    assert_eq!(to_digits(4294967295), vec![4, 2, 9, 4, 9, 6, 7, 2, 9, 5]);
}

#[test]
fn glyph_rows_match_the_font() {
    assert_eq!(glyph_row_at(0, 0), 7);
    assert_eq!(glyph_row_at(0, 1), 5);
    assert_eq!(glyph_row_at(1, 0), 2);
    assert_eq!(glyph_row_at(4, 2), 7);
    assert!(glyph_lit_at(1, 0, 1));
    assert!(!glyph_lit_at(1, 0, 0));
    assert!(glyph_lit_at(8, 1, 0));
    assert!(!glyph_lit_at(8, 1, 1));
    assert!(glyph_lit_at(8, 1, 2));
}

#[test]
fn draw_number_lights_the_glyph_cells() {
    // a one-pixel cell size makes glyph cells single pixels
    let mut w = GameWorld::new(16, 16, 1);
    let mut frame: Vec<u8> = vec![0; 16 * 16 * 4];
    draw_number(1, 0, 0, &mut frame, 16, &mut w);
    // digit 1 in a 3x5 font, drawn one cell right of (0,0)
    let expected = [
        (2usize, 0usize),
        (1, 1),
        (2, 1),
        (2, 2),
        (2, 3),
        (1, 4),
        (2, 4),
        (3, 4),
    ];
    for (x, y) in expected {
        let i = (y * 16 + x) * 4;
        assert_eq!(&frame[i..i + 4], &[255, 255, 255, 255], "pixel ({x},{y})");
    }
    let lit: usize = frame.iter().filter(|&&b| b == 255).count();
    assert_eq!(lit, expected.len() * 4);
}

#[test]
fn draw_number_renders_a_zero_score() {
    let mut w = GameWorld::new(16, 16, 1);
    let mut frame: Vec<u8> = vec![0; 16 * 16 * 4];
    draw_number(0, 0, 0, &mut frame, 16, &mut w);
    // the zero glyph lights its 12-cell ring
    let lit: usize = frame.iter().filter(|&&b| b == 255).count();
    assert_eq!(lit, 12 * 4);
}

#[test]
fn draw_number_renders_each_digit_in_its_slot() {
    let mut w = GameWorld::new(32, 16, 1);
    let mut frame: Vec<u8> = vec![0; 32 * 16 * 4];
    draw_number(10, 0, 0, &mut frame, 32, &mut w);
    // "1" occupies columns 1..4, "0" occupies columns 6..9
    let one_lit = 8;
    let zero_lit = 12;
    let lit: usize = frame.iter().filter(|&&b| b == 255).count();
    assert_eq!(lit, (one_lit + zero_lit) * 4);
    // the hollow center of the zero stays dark
    let i = (2 * 32 + 7) * 4;
    assert_eq!(&frame[i..i + 4], &[0, 0, 0, 0]);
    // a corner of the zero's ring is lit
    let i = (0 * 32 + 6) * 4;
    assert_eq!(&frame[i..i + 4], &[255, 255, 255, 255]);
}
