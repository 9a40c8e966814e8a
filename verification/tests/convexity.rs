use i_curve::collision::convex::Convexity;
use i_curve::math::point::IntPoint;

#[test]
fn convex_test_0() {
    let convex = [
        IntPoint::new(0, 0),
        IntPoint::new(10, 0),
        IntPoint::new(10, 10),
        IntPoint::new(0, 10),
    ]
    .is_convex();

    assert!(convex);
}

#[test]
fn convex_test_1() {
    let convex = [
        IntPoint::new(0, 0),
        IntPoint::new(0, 10),
        IntPoint::new(10, 10),
        IntPoint::new(10, 0),
    ]
    .is_convex();

    assert!(convex);
}

#[test]
fn convex_test_2() {
    let convex = [
        IntPoint::new(0, 0),
        IntPoint::new(0, 10),
        IntPoint::new(10, 0),
        IntPoint::new(10, 10),
    ]
    .is_convex();

    assert!(!convex);
}

#[test]
fn convex_test_3() {
    let convex_hull = [
        IntPoint::new(0, 0),
        IntPoint::new(10, 0),
        IntPoint::new(10, 10),
        IntPoint::new(0, 10),
    ];

    assert!(convex_hull.convex_contains(IntPoint::new(1, 1)));
    assert!(convex_hull.convex_contains(IntPoint::new(1, 9)));
    assert!(convex_hull.convex_contains(IntPoint::new(9, 9)));
    assert!(convex_hull.convex_contains(IntPoint::new(9, 1)));

    assert!(!convex_hull.convex_contains(IntPoint::new(-1, -1)));
    assert!(!convex_hull.convex_contains(IntPoint::new(-1, 1)));
    assert!(!convex_hull.convex_contains(IntPoint::new(-1, 9)));
    assert!(!convex_hull.convex_contains(IntPoint::new(-1, 11)));

    assert!(!convex_hull.convex_contains(IntPoint::new(11, -1)));
    assert!(!convex_hull.convex_contains(IntPoint::new(11, 1)));
    assert!(!convex_hull.convex_contains(IntPoint::new(11, 9)));
    assert!(!convex_hull.convex_contains(IntPoint::new(11, 11)));

    assert!(!convex_hull.convex_contains(IntPoint::new(-1, -1)));
    assert!(!convex_hull.convex_contains(IntPoint::new(1, -1)));
    assert!(!convex_hull.convex_contains(IntPoint::new(9, -1)));
    assert!(!convex_hull.convex_contains(IntPoint::new(11, -1)));

    assert!(!convex_hull.convex_contains(IntPoint::new(-1, 11)));
    assert!(!convex_hull.convex_contains(IntPoint::new(1, 11)));
    assert!(!convex_hull.convex_contains(IntPoint::new(9, 11)));
    assert!(!convex_hull.convex_contains(IntPoint::new(11, 11)));

    assert!(convex_hull.convex_contains(IntPoint::new(0, 0)));
    assert!(convex_hull.convex_contains(IntPoint::new(5, 0)));
    assert!(convex_hull.convex_contains(IntPoint::new(10, 0)));

    assert!(convex_hull.convex_contains(IntPoint::new(0, 10)));
    assert!(convex_hull.convex_contains(IntPoint::new(5, 10)));
    assert!(convex_hull.convex_contains(IntPoint::new(10, 10)));

    assert!(convex_hull.convex_contains(IntPoint::new(0, 5)));
    assert!(convex_hull.convex_contains(IntPoint::new(10, 5)));
}

#[test]
fn convex_test_overlaps_with_unit_margin_0() {
    let path_0 = [
        IntPoint::new(0, 0),
        IntPoint::new(10, 0),
        IntPoint::new(10, 10),
        IntPoint::new(0, 10),
    ];

    let path_1 = [IntPoint::new(10, 5), IntPoint::new(20, 0), IntPoint::new(20, 10)];

    let overlap_0 = path_0.overlaps_with_space(&path_1, 1);
    let overlap_1 = path_1.overlaps_with_space(&path_0, 1);

    assert!(overlap_0);
    assert!(overlap_1);
}

#[test]
fn convex_test_overlaps_with_unit_margin_1() {
    let path_0 = [
        IntPoint::new(0, 0),
        IntPoint::new(10, 0),
        IntPoint::new(10, 10),
        IntPoint::new(0, 10),
    ];

    let path_1 = [IntPoint::new(11, 5), IntPoint::new(20, 0), IntPoint::new(20, 10)];

    let overlap_0 = path_0.overlaps_with_space(&path_1, 1);
    let overlap_1 = path_1.overlaps_with_space(&path_0, 1);

    assert!(overlap_0);
    assert!(overlap_1);
}

#[test]
fn convex_test_overlaps_with_unit_margin_2() {
    let path_0 = [
        IntPoint::new(0, 0),
        IntPoint::new(10, 0),
        IntPoint::new(10, 10),
        IntPoint::new(0, 10),
    ];

    let path_1 = [IntPoint::new(12, 5), IntPoint::new(20, 0), IntPoint::new(20, 10)];

    let overlap_0 = path_0.overlaps_with_space(&path_1, 1);
    let overlap_1 = path_1.overlaps_with_space(&path_0, 1);

    assert!(!overlap_0);
    assert!(!overlap_1);
}

#[test]
fn convex_test_overlaps_with_unit_margin_3() {
    let path_0 = [
        IntPoint::new(0, 0),
        IntPoint::new(10, 0),
        IntPoint::new(10, 10),
        IntPoint::new(0, 10),
    ];

    let path_1 = [IntPoint::new(10, 5), IntPoint::new(20, 0)];

    let overlap_0 = path_0.overlaps_with_space(&path_1, 1);
    let overlap_1 = path_1.overlaps_with_space(&path_0, 1);

    assert!(overlap_0);
    assert!(overlap_1);
}

#[test]
fn convex_test_overlaps_with_unit_margin_4() {
    let path_0 = [
        IntPoint::new(0, 0),
        IntPoint::new(10, 0),
        IntPoint::new(10, 10),
        IntPoint::new(0, 10),
    ];

    let path_1 = [IntPoint::new(11, 5), IntPoint::new(20, 0)];

    let overlap_0 = path_0.overlaps_with_space(&path_1, 1);
    let overlap_1 = path_1.overlaps_with_space(&path_0, 1);

    assert!(overlap_0);
    assert!(overlap_1);
}

#[test]
fn convex_test_overlaps_with_unit_margin_5() {
    let path_0 = [
        IntPoint::new(0, 0),
        IntPoint::new(10, 0),
        IntPoint::new(10, 10),
        IntPoint::new(0, 10),
    ];

    let path_1 = [IntPoint::new(12, 5), IntPoint::new(20, 0)];

    let overlap_0 = path_0.overlaps_with_space(&path_1, 1);
    let overlap_1 = path_1.overlaps_with_space(&path_0, 1);

    assert!(!overlap_0);
    assert!(!overlap_1);
}

#[test]
fn convex_test_overlaps_with_unit_margin_6() {
    let path_0 = [
        IntPoint::new(0, 0),
        IntPoint::new(10, 0),
        IntPoint::new(10, 10),
        IntPoint::new(0, 10),
    ];

    let path_1 = [IntPoint::new(5, 20), IntPoint::new(20, 5)];

    let overlap_0 = path_0.overlaps_with_space(&path_1, 1);
    let overlap_1 = path_1.overlaps_with_space(&path_0, 1);

    assert!(!overlap_0);
    assert!(!overlap_1);
}

#[test]
fn convexity_test_0() {
    let convex = [
        IntPoint::new(0, 0),
        IntPoint::new(10, 0),
        IntPoint::new(10, 10),
        IntPoint::new(0, 10),
    ]
    .is_convex();

    assert!(convex);
}

#[test]
fn convexity_test_1() {
    let convex = [
        IntPoint::new(0, 0),
        IntPoint::new(0, 10),
        IntPoint::new(10, 10),
        IntPoint::new(10, 0),
    ]
    .is_convex();

    assert!(convex);
}

#[test]
fn convexity_test_2() {
    let convex = [
        IntPoint::new(0, 0),
        IntPoint::new(0, 10),
        IntPoint::new(10, 0),
        IntPoint::new(10, 10),
    ]
    .is_convex();

    assert!(!convex);
}

#[test]
fn convexity_test_3() {
    let convex_hull = [
        IntPoint::new(0, 0),
        IntPoint::new(10, 0),
        IntPoint::new(10, 10),
        IntPoint::new(0, 10),
    ];

    assert!(convex_hull.convex_contains(IntPoint::new(1, 1)));
    assert!(convex_hull.convex_contains(IntPoint::new(1, 9)));
    assert!(convex_hull.convex_contains(IntPoint::new(9, 9)));
    assert!(convex_hull.convex_contains(IntPoint::new(9, 1)));

    assert!(!convex_hull.convex_contains(IntPoint::new(-1, -1)));
    assert!(!convex_hull.convex_contains(IntPoint::new(-1, 1)));
    assert!(!convex_hull.convex_contains(IntPoint::new(-1, 9)));
    assert!(!convex_hull.convex_contains(IntPoint::new(-1, 11)));

    assert!(!convex_hull.convex_contains(IntPoint::new(11, -1)));
    assert!(!convex_hull.convex_contains(IntPoint::new(11, 1)));
    assert!(!convex_hull.convex_contains(IntPoint::new(11, 9)));
    assert!(!convex_hull.convex_contains(IntPoint::new(11, 11)));

    assert!(!convex_hull.convex_contains(IntPoint::new(-1, -1)));
    assert!(!convex_hull.convex_contains(IntPoint::new(1, -1)));
    assert!(!convex_hull.convex_contains(IntPoint::new(9, -1)));
    assert!(!convex_hull.convex_contains(IntPoint::new(11, -1)));

    assert!(!convex_hull.convex_contains(IntPoint::new(-1, 11)));
    assert!(!convex_hull.convex_contains(IntPoint::new(1, 11)));
    assert!(!convex_hull.convex_contains(IntPoint::new(9, 11)));
    assert!(!convex_hull.convex_contains(IntPoint::new(11, 11)));

    assert!(convex_hull.convex_contains(IntPoint::new(0, 0)));
    assert!(convex_hull.convex_contains(IntPoint::new(5, 0)));
    assert!(convex_hull.convex_contains(IntPoint::new(10, 0)));

    assert!(convex_hull.convex_contains(IntPoint::new(0, 10)));
    assert!(convex_hull.convex_contains(IntPoint::new(5, 10)));
    assert!(convex_hull.convex_contains(IntPoint::new(10, 10)));

    assert!(convex_hull.convex_contains(IntPoint::new(0, 5)));
    assert!(convex_hull.convex_contains(IntPoint::new(10, 5)));
}

#[test]
fn convexity_test_overlaps_with_unit_margin_0() {
    let path_0 = [
        IntPoint::new(0, 0),
        IntPoint::new(10, 0),
        IntPoint::new(10, 10),
        IntPoint::new(0, 10),
    ];

    let path_1 = [IntPoint::new(10, 5), IntPoint::new(20, 0), IntPoint::new(20, 10)];

    let overlap_0 = path_0.overlaps_with_unit_margin(&path_1);
    let overlap_1 = path_1.overlaps_with_unit_margin(&path_0);

    assert!(overlap_0);
    assert!(overlap_1);
}

#[test]
fn convexity_test_overlaps_with_unit_margin_1() {
    let path_0 = [
        IntPoint::new(0, 0),
        IntPoint::new(10, 0),
        IntPoint::new(10, 10),
        IntPoint::new(0, 10),
    ];

    let path_1 = [IntPoint::new(11, 5), IntPoint::new(20, 0), IntPoint::new(20, 10)];

    let overlap_0 = path_0.overlaps_with_unit_margin(&path_1);
    let overlap_1 = path_1.overlaps_with_unit_margin(&path_0);

    assert!(overlap_0);
    assert!(overlap_1);
}

#[test]
fn convexity_test_overlaps_with_unit_margin_2() {
    let path_0 = [
        IntPoint::new(0, 0),
        IntPoint::new(10, 0),
        IntPoint::new(10, 10),
        IntPoint::new(0, 10),
    ];

    let path_1 = [IntPoint::new(12, 5), IntPoint::new(20, 0), IntPoint::new(20, 10)];

    let overlap_0 = path_0.overlaps_with_unit_margin(&path_1);
    let overlap_1 = path_1.overlaps_with_unit_margin(&path_0);

    assert!(!overlap_0);
    assert!(!overlap_1);
}

#[test]
fn convexity_test_overlaps_with_unit_margin_3() {
    let path_0 = [
        IntPoint::new(0, 0),
        IntPoint::new(10, 0),
        IntPoint::new(10, 10),
        IntPoint::new(0, 10),
    ];

    let path_1 = [IntPoint::new(10, 5), IntPoint::new(20, 0)];

    let overlap_0 = path_0.overlaps_with_unit_margin(&path_1);
    let overlap_1 = path_1.overlaps_with_unit_margin(&path_0);

    assert!(overlap_0);
    assert!(overlap_1);
}

#[test]
fn convexity_test_overlaps_with_unit_margin_4() {
    let path_0 = [
        IntPoint::new(0, 0),
        IntPoint::new(10, 0),
        IntPoint::new(10, 10),
        IntPoint::new(0, 10),
    ];

    let path_1 = [IntPoint::new(11, 5), IntPoint::new(20, 0)];

    let overlap_0 = path_0.overlaps_with_unit_margin(&path_1);
    let overlap_1 = path_1.overlaps_with_unit_margin(&path_0);

    assert!(overlap_0);
    assert!(overlap_1);
}

#[test]
fn convexity_test_overlaps_with_unit_margin_5() {
    let path_0 = [
        IntPoint::new(0, 0),
        IntPoint::new(10, 0),
        IntPoint::new(10, 10),
        IntPoint::new(0, 10),
    ];

    let path_1 = [IntPoint::new(12, 5), IntPoint::new(20, 0)];

    let overlap_0 = path_0.overlaps_with_unit_margin(&path_1);
    let overlap_1 = path_1.overlaps_with_unit_margin(&path_0);

    assert!(!overlap_0);
    assert!(!overlap_1);
}

#[test]
fn convexity_test_overlaps_with_unit_margin_6() {
    let path_0 = [
        IntPoint::new(0, 0),
        IntPoint::new(10, 0),
        IntPoint::new(10, 10),
        IntPoint::new(0, 10),
    ];

    let path_1 = [IntPoint::new(5, 20), IntPoint::new(20, 5)];

    let overlap_0 = path_0.overlaps_with_unit_margin(&path_1);
    let overlap_1 = path_1.overlaps_with_unit_margin(&path_0);

    assert!(!overlap_0);
    assert!(!overlap_1);
}
