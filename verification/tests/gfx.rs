use kernel::gfx::{draw_iter, pixel_index, pixel_write, Pixel, PixelWrite, TextInfo, LINE_HEIGHT};

#[test]
fn cursor_stays_inside_the_line() {
    let mut t = TextInfo { pos: (10, 20) };
    assert_eq!(t.begin_char(800), (10, 20));
    assert_eq!(t.pos, (10, 20));
}

#[test]
fn cursor_wraps_past_the_right_edge() {
    let mut t = TextInfo { pos: (800, 20) };
    assert_eq!(t.begin_char(800), (0, 20 + LINE_HEIGHT));
    assert_eq!(t.pos, (0, 40));
    // The last column still takes a character.
    let mut t = TextInfo { pos: (799, 20) };
    assert_eq!(t.begin_char(800), (799, 20));
}

#[test]
fn cursor_follows_the_drawn_text() {
    let mut t = TextInfo { pos: (0, 20) };
    t.end_char((10, 20), 'a');
    assert_eq!(t.pos, (10, 20));
    t.end_char((10, 40), '\n');
    assert_eq!(t.pos, (0, 40));
}

#[test]
fn default_cursor_is_at_origin() {
    assert_eq!(TextInfo::default().pos, (0, 0));
}

#[test]
fn pixel_index_is_row_major() {
    assert_eq!(pixel_index(0, 0, 640, 480), Some(0));
    assert_eq!(pixel_index(3, 2, 640, 480), Some(1283));
    assert_eq!(pixel_index(639, 479, 640, 480), Some(640 * 480 - 1));
}

#[test]
fn pixel_index_rejects_points_off_screen() {
    assert_eq!(pixel_index(-1, 0, 640, 480), None);
    assert_eq!(pixel_index(0, -1, 640, 480), None);
    assert_eq!(pixel_index(640, 0, 640, 480), None);
    assert_eq!(pixel_index(0, 480, 640, 480), None);
}

#[test]
fn draw_iter_writes_packed_colours_of_visible_pixels() {
    let pixels = [
        Pixel { x: 2, y: 3, r: 0xAA, g: 0xBB, b: 0xCC },
        Pixel { x: 20, y: 3, r: 1, g: 2, b: 3 },
        Pixel { x: 9, y: 9, r: 0xFF, g: 0xFF, b: 0xFF },
        Pixel { x: -5, y: 9, r: 0, g: 0, b: 0 },
    ];
    let writes = draw_iter(10, 10, &pixels);
    assert_eq!(
        writes,
        vec![
            PixelWrite { index: 32, value: 0x00AABBCC },
            PixelWrite { index: 99, value: 0x00FFFFFF },
        ]
    );
    // Every write lands inside the 10 x 10 frame.
    assert!(writes.iter().all(|w| w.index < 100));
}

#[test]
fn draw_iter_on_nothing_writes_nothing() {
    assert!(draw_iter(10, 10, &[]).is_empty());
}

#[test]
fn pixel_write_packs_the_colour_into_its_cell() {
    let p = Pixel { x: 4, y: 1, r: 0x12, g: 0x34, b: 0x56 };
    assert_eq!(pixel_write(8, 8, p), Some(PixelWrite { index: 12, value: 0x0012_3456 }));
    assert_eq!(pixel_write(4, 8, p), None);
}
