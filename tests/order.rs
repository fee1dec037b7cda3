use caxton::order::packing_order;

#[test]
fn tallest_first_missing_boxes_before_all() {
    let heights = [Some(10), None, Some(30), Some(10), None, Some(-5)];
    assert_eq!(packing_order(&heights), vec![1, 4, 2, 0, 3, 5]);
}

#[test]
fn empty_font_has_no_order() {
    assert!(packing_order(&[]).is_empty());
}

#[test]
fn extreme_heights() {
    let heights = [Some(i16::MIN), Some(i16::MAX), None, Some(0)];
    assert_eq!(packing_order(&heights), vec![2, 1, 3, 0]);
}
