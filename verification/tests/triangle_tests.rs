use vason::triangle::sort_by_y;

#[test]
fn sort_by_y_orders_from_top_to_bottom() {
    let pts = [(1, 5), (2, 3), (3, 9)];
    for (a, b, c) in [(0, 1, 2), (0, 2, 1), (1, 0, 2), (1, 2, 0), (2, 0, 1), (2, 1, 0)] {
        assert_eq!(sort_by_y(pts[a], pts[b], pts[c]), ((2, 3), (1, 5), (3, 9)));
    }
}

#[test]
fn sort_by_y_keeps_the_order_of_equal_rows() {
    assert_eq!(sort_by_y((1, 4), (2, 4), (3, 4)), ((1, 4), (2, 4), (3, 4)));
    assert_eq!(sort_by_y((1, 4), (2, 0), (3, 4)), ((2, 0), (1, 4), (3, 4)));
    assert_eq!(sort_by_y((1, 4), (2, 4), (3, 0)), ((3, 0), (1, 4), (2, 4)));
}
