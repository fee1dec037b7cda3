use caxton::glyph_bounds::{pack_bounding_box, pack_bounding_boxes, BoundingBox};

#[test]
fn bounding_box_layout() {
    let b = BoundingBox { x_min: 1, y_min: -1, x_max: 300, y_max: -300 };
    assert_eq!(pack_bounding_box(b), 1 | (0xFFFF << 16) | (300 << 32) | ((-300i16 as u16 as u64) << 48));
}

#[test]
fn missing_bounding_box_is_zero() {
    let b = BoundingBox { x_min: 2, y_min: 3, x_max: 4, y_max: 5 };
    let packed = pack_bounding_boxes(&[None, Some(b)]);
    assert_eq!(packed, vec![0, 2 | (3 << 16) | (4 << 32) | (5 << 48)]);
}
