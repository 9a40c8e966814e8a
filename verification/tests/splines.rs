use i_curve::bezier::spline_cube::IntCubeSpline;
use i_curve::math::point::IntPoint;

#[test]
fn spline_cube_test_0() {
    let spline = IntCubeSpline {
        anchors: [
            IntPoint::new(0, 0),
            IntPoint::new(100, 100),
            IntPoint::new(300, 100),
            IntPoint::new(400, 0),
        ],
    };

    assert_eq!(false, spline.is_flat(8, 0));
}

#[test]
fn spline_cube_test_1() {
    let spline = IntCubeSpline {
        anchors: [
            IntPoint::new(0, 0),
            IntPoint::new(100, 1),
            IntPoint::new(300, 1),
            IntPoint::new(400, 0),
        ],
    };

    assert_eq!(false, spline.is_flat(8, 0));
    assert_eq!(true, spline.is_flat(8, 1));
}
