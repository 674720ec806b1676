use rogue::geometry::{Point, Rect};

#[test]
fn distances() {
    let a = Point::new(0, 0);
    let b = Point::new(3, 4);
    assert_eq!(a.manhattan(b), 7);
    assert_eq!(a.chebyshev(b), 4);
}

#[test]
fn rect_center_and_contains() {
    let r = Rect::new(2, 2, 4, 4);
    assert_eq!(r.center(), Point::new(4, 4));
    assert!(r.contains(Point::new(3, 3)));
    assert!(!r.contains(Point::new(6, 6)));
}

#[test]
fn rect_sides_and_edges() {
    let r = Rect::new(-3, 5, 7, 2);
    assert_eq!(r.width(), 7);
    assert_eq!(r.height(), 2);
    assert!(r.contains(Point::new(-3, 5)));
    assert!(!r.contains(Point::new(4, 5)));
    assert!(!r.contains(Point::new(0, 7)));
    // The centre rounds toward zero.
    assert_eq!(Rect::new(-5, -5, 2, 2).center(), Point::new(-4, -4));
    assert_eq!(Rect::new(-3, 0, 2, 1).center(), Point::new(-2, 0));
}

#[test]
fn intersection_is_symmetric() {
    let a = Rect::new(0, 0, 4, 4);
    let b = Rect::new(4, 4, 2, 2);
    let c = Rect::new(5, 0, 2, 2);
    assert!(a.intersects(&b) && b.intersects(&a));
    assert!(!a.intersects(&c) && !c.intersects(&a));
}

#[test]
fn chebyshev_bounded_by_manhattan() {
    let pts = [Point::new(0, 0), Point::new(-3, 7), Point::new(5, -2), Point::new(9, 9)];
    for a in pts {
        for b in pts {
            let c = a.chebyshev(b);
            let m = a.manhattan(b);
            assert!(c <= m && m <= 2 * c);
            assert_eq!(c, b.chebyshev(a));
            assert_eq!(m, b.manhattan(a));
        }
    }
}

#[test]
fn offset_adds_coordinates() {
    assert_eq!(Point::new(2, -1).offset(Point::new(-5, 4)), Point::new(-3, 3));
}
