use ironrdp_client::region::{Rectangle, Region};

fn rect(left: u16, top: u16, right: u16, bottom: u16) -> Rectangle {
    Rectangle { left, top, right, bottom }
}

fn covers(r: &Region, x: u16, y: u16) -> usize {
    r.rectangles
        .iter()
        .filter(|c| c.left <= x && x < c.right && c.top <= y && y < c.bottom)
        .count()
}

fn inside(rs: &[Rectangle], x: u16, y: u16) -> bool {
    rs.iter().any(|c| c.left <= x && x < c.right && c.top <= y && y < c.bottom)
}

#[test]
fn union_keeps_rectangles_disjoint() {
    let inputs = [rect(0, 0, 10, 10), rect(5, 5, 15, 15), rect(2, 8, 12, 9), rect(0, 0, 3, 3), rect(20, 0, 20, 5)];
    let mut region = Region::new();
    for r in inputs {
        region.union_rectangle(r);
    }
    for y in 0..20 {
        for x in 0..25 {
            let n = covers(&region, x, y);
            assert!(n <= 1, "({}, {}) covered {} times", x, y, n);
            assert_eq!(n == 1, inside(&inputs, x, y), "({}, {})", x, y);
        }
    }
    assert_eq!(region.extents, rect(0, 0, 15, 15));
}

#[test]
fn empty_rectangles_add_nothing() {
    let mut region = Region::new();
    region.union_rectangle(rect(4, 4, 4, 9));
    region.union_rectangle(rect(4, 9, 8, 2));
    assert!(region.rectangles.is_empty());
    assert_eq!(region.extents, rect(0, 0, 0, 0));
}

#[test]
fn from_rectangles_matches_inputs() {
    let inputs = [rect(1, 1, 4, 4), rect(1, 1, 4, 4), rect(3, 0, 6, 2)];
    let region = Region::from_rectangles(&inputs);
    for y in 0..8 {
        for x in 0..8 {
            assert_eq!(covers(&region, x, y) == 1, inside(&inputs, x, y));
            assert!(covers(&region, x, y) <= 1);
        }
    }
    assert_eq!(region.extents, rect(1, 0, 6, 4));
}
