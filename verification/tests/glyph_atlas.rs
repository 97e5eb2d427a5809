use chariot_client::resources::glyph_cache::{coverage_alpha, AtlasCursor};

#[test]
fn atlas_rows_and_reset() {
    let mut c = AtlasCursor::new(10);
    assert_eq!(c.texture_size(), (160, 160));
    assert_eq!(c.place(60, 8), (0, 0, false));
    assert_eq!(c.place(60, 8), (60, 0, false));
    assert_eq!(c.current_offset(), (120, 0));
    // does not fit in the rest of the row: next row
    assert_eq!(c.place(50, 8), (0, 10, false));
    assert_eq!(c.current_offset(), (50, 10));
    let mut d = AtlasCursor::new(10);
    assert_eq!(d.place(150, 8), (0, 0, false));
    // next row would need 10 + 155 > 160 rows: new texture
    assert_eq!(d.place(20, 155), (0, 0, true));
    assert_eq!(d.current_offset(), (20, 0));
}

#[test]
fn coverage_becomes_alpha() {
    assert_eq!(coverage_alpha(&[30, 60, 90, 7, 255, 255, 254, 0]), vec![30, 60, 90, 60, 255, 255, 254, 254]);
    assert_eq!(coverage_alpha(&[1, 2]), vec![1, 2]);
    assert_eq!(coverage_alpha(&[]), Vec::<u8>::new());
}

#[test]
fn place_near_the_coordinate_limit_without_wrapping() {
    let mut c = AtlasCursor::new(16);
    let (x, y, fresh) = c.place(16, u32::MAX);
    assert_eq!((x, y, fresh), (0, 0, false));
}
