use i_curve::bezier::spline::IntSpline;
use i_curve::bezier::spline_cube::IntCubicSpline;
use i_curve::bezier::position::SplitPosition;
use i_curve::collision::collider::Collider;
use i_curve::collision::pair::{Pair, XBox};
use i_curve::collision::space::Space;
use i_curve::math::point::IntPoint;

#[test]
fn cross_test_0() {
    let a = IntCubicSpline {
        anchors: [
            IntPoint::new(0, 0),
            IntPoint::new(0, 50),
            IntPoint::new(50, 100),
            IntPoint::new(100, 100),
        ],
    };

    let b = IntCubicSpline {
        anchors: [
            IntPoint::new(50, 0),
            IntPoint::new(50, 50),
            IntPoint::new(0, 100),
            IntPoint::new(-50, 100),
        ],
    };

    let result = IntSpline::Cubic(a).overlay(&IntSpline::Cubic(b), &Space::default());

    assert_eq!(result.len(), 1);
}

#[test]
fn cross_test_1() {
    let a = IntCubicSpline {
        anchors: [
            IntPoint::new(0, -100),
            IntPoint::new(413, 295),
            IntPoint::new(100, 0),
            IntPoint::new(-200, 351),
        ],
    };

    let b = IntCubicSpline {
        anchors: [
            IntPoint::new(100, 100),
            IntPoint::new(100, 200),
            IntPoint::new(200, 100),
            IntPoint::new(200, 200),
        ],
    };

    let result = IntSpline::Cubic(a).overlay(&IntSpline::Cubic(b), &Space::default());

    assert_eq!(result.len(), 1);
}

#[test]
fn cross_test_2() {
    let a = IntCubicSpline {
        anchors: [
            IntPoint::new(167, 141),
            IntPoint::new(103, 161),
            IntPoint::new(-50, 175),
            IntPoint::new(-200, 351),
        ],
    };

    let b = IntCubicSpline {
        anchors: [
            IntPoint::new(150, 150),
            IntPoint::new(175, 150),
            IntPoint::new(200, 150),
            IntPoint::new(200, 200),
        ],
    };

    let result = IntSpline::Cubic(a).overlay(&IntSpline::Cubic(b), &Space::default());

    assert_eq!(result.len(), 0);
}

#[test]
fn cross_test_3() {
    let a = IntCubicSpline {
        anchors: [
            IntPoint::new(167, 141),
            IntPoint::new(135, 151),
            IntPoint::new(80, 159),
            IntPoint::new(15, 187),
        ],
    };

    let b = IntCubicSpline {
        anchors: [
            IntPoint::new(115, 143),
            IntPoint::new(124, 150),
            IntPoint::new(137, 150),
            IntPoint::new(150, 150),
        ],
    };

    let result = IntSpline::Cubic(a).overlay(&IntSpline::Cubic(b), &Space::default());

    assert_eq!(result.len(), 1);
}

#[test]
fn cross_test_4() {
    let a = IntCubicSpline {
        anchors: [
            IntPoint::new(167, 141),
            IntPoint::new(135, 151),
            IntPoint::new(80, 159),
            IntPoint::new(15, 187),
        ],
    };

    let b = IntCubicSpline {
        anchors: [
            IntPoint::new(115, 143),
            IntPoint::new(124, 150),
            IntPoint::new(137, 150),
            IntPoint::new(150, 150),
        ],
    };

    let result = IntSpline::Cubic(a).overlay(&IntSpline::Cubic(b), &Space::default());

    assert_eq!(result.len(), 1);
}

#[test]
fn pair_test_pair_0() {
    let space = Space::default();

    let a = IntCubicSpline {
        anchors: [
            IntPoint::new(167, 141),
            IntPoint::new(103, 161),
            IntPoint::new(-50, 175),
            IntPoint::new(-200, 351),
        ],
    };

    let b = IntCubicSpline {
        anchors: [
            IntPoint::new(150, 150),
            IntPoint::new(175, 150),
            IntPoint::new(200, 150),
            IntPoint::new(200, 200),
        ],
    };

    let x0 = XBox {
        position: SplitPosition::new(0, 0),
        collider: Collider::with_spline(IntSpline::Cubic(a), &space),
    };
    let x1 = XBox {
        position: SplitPosition::new(0, 0),
        collider: Collider::with_spline(IntSpline::Cubic(b), &space),
    };
    let pair = Pair {
        a_box: x0,
        b_box: x1,
    };

    let overlap = pair.overlap(&space);

    assert_eq!(overlap, true);
}

#[test]
fn pair_test_1() {
    let space = Space::default();

    let a = IntCubicSpline {
        anchors: [
            IntPoint::new(167, 141),
            IntPoint::new(151, 146),
            IntPoint::new(129, 150),
            IntPoint::new(103, 157),
        ],
    };

    let b = IntCubicSpline {
        anchors: [
            IntPoint::new(130, 149),
            IntPoint::new(136, 150),
            IntPoint::new(143, 150),
            IntPoint::new(150, 150),
        ],
    };

    let x0 = XBox {
        position: SplitPosition::new(0, 0),
        collider: Collider::with_spline(IntSpline::Cubic(a), &space),
    };
    let x1 = XBox {
        position: SplitPosition::new(0, 0),
        collider: Collider::with_spline(IntSpline::Cubic(b), &space),
    };
    let pair = Pair {
        a_box: x0,
        b_box: x1,
    };

    assert_eq!(pair.overlap(&space), true);
}

#[test]
fn solver_test_5() {
    let a = IntCubicSpline {
        anchors: [
            IntPoint::new(0, 0),
            IntPoint::new(0, 1000),
            IntPoint::new(2000, 1000),
            IntPoint::new(2000, 0),
        ],
    };

    let b = IntCubicSpline {
        anchors: [
            IntPoint::new(0, 20),
            IntPoint::new(0, 1020),
            IntPoint::new(2000, 1020),
            IntPoint::new(2000, 20),
        ],
    };

    let result = IntSpline::Cubic(a).overlay(&IntSpline::Cubic(b), &Space::default());

    assert!(result.len() > 0);
}

#[test]
fn solver_test_6() {
    let a = IntCubicSpline {
        anchors: [
            IntPoint::new(0, 0),
            IntPoint::new(0, 100_000),
            IntPoint::new(200_000, 100_000),
            IntPoint::new(200_000, 0),
        ],
    };

    let b = IntCubicSpline {
        anchors: [
            IntPoint::new(0, 20),
            IntPoint::new(0, 100_020),
            IntPoint::new(200_000, 100_020),
            IntPoint::new(200_000, 20),
        ],
    };

    let result = IntSpline::Cubic(a).overlay(&IntSpline::Cubic(b), &Space::default());

    assert!(result.len() > 0);
}
