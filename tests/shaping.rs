use caxton::shaping::{ShapedGlyph, ShapingResult};

fn glyph(id: u32, unsafe_to_break: bool, cluster: u32, x_advance: i32) -> ShapedGlyph {
    ShapedGlyph { glyph_id: id, unsafe_to_break, cluster, x_advance, y_advance: 0, x_offset: 1, y_offset: -1 }
}

#[test]
fn entries_and_total_width() {
    let r = ShapingResult::from_glyphs(&[glyph(5, false, 0, 100), glyph(7, true, 3, 50)]);
    assert_eq!(r.total_width, 150);
    assert_eq!(r.data[0].0, [5, 0, 100, 0, 1, -1]);
    assert_eq!(r.data[1].0, [7 | (1 << 16), 3, 50, 0, 1, -1]);
    assert_eq!(r.data_as_i32s(), vec![5, 0, 100, 0, 1, -1, 7 | (1 << 16), 3, 50, 0, 1, -1]);
}

#[test]
fn empty_run() {
    let r = ShapingResult::from_glyphs(&[]);
    assert_eq!(r.total_width, 0);
    assert!(r.data_as_i32s().is_empty());
}

#[test]
fn total_width_wraps() {
    let r = ShapingResult::from_glyphs(&[glyph(1, false, 0, i32::MAX), glyph(2, false, 1, 1)]);
    assert_eq!(r.total_width, i32::MIN);
}
