use i_curve::collision::x_segment::XOverlap;
use i_curve::math::point::IntPoint;
use i_curve::math::x_segment::XSegment;

#[test]
fn x_segment_test_cross_point_0() {
    let s0 = XSegment::new(IntPoint::new(0, -5), IntPoint::new(0, 5));
    let s1 = XSegment::new(IntPoint::new(-5, 0), IntPoint::new(5, 0));

    assert_eq!(s0.cross_point(&s1), IntPoint::new(0, 0));
}

#[test]
fn x_segment_test_cross_point_1() {
    let s0 = XSegment::new(IntPoint::new(-5, 0), IntPoint::new(5, 0));
    let s1 = XSegment::new(IntPoint::new(-5, -5), IntPoint::new(5, 5));

    assert_eq!(s0.cross_point(&s1), IntPoint::new(0, 0));
}

#[test]
fn x_segment_test_degenerate_collinear_cross() {
    let cases = [
        [
            IntPoint::new(0, 0),
            IntPoint::new(1, 0),
            IntPoint::new(2, 0),
            IntPoint::new(3, 0),
        ],
        [
            IntPoint::new(0, 0),
            IntPoint::new(0, 1),
            IntPoint::new(0, 2),
            IntPoint::new(0, 3),
        ],
        [
            IntPoint::new(0, 0),
            IntPoint::new(1, 1),
            IntPoint::new(2, 2),
            IntPoint::new(3, 3),
        ],
    ];

    for [a, b, c, d] in cases {
        let ab = XSegment::new(a, b);
        let ac = XSegment::new(a, c);
        let ad = XSegment::new(a, d);

        let bc = XSegment::new(b, c);
        let bd = XSegment::new(b, d);

        let cd = XSegment::new(c, d);

        // ab

        assert_eq!(
            ab.degenerate_collinear_cross(&ab).unwrap(),
            XOverlap::Segment(ab)
        );
        assert_eq!(
            ab.degenerate_collinear_cross(&ac).unwrap(),
            XOverlap::Segment(ab)
        );
        assert_eq!(
            ab.degenerate_collinear_cross(&ad).unwrap(),
            XOverlap::Segment(ab)
        );

        assert_eq!(
            ab.degenerate_collinear_cross(&bc).unwrap(),
            XOverlap::Point(b)
        );
        assert_eq!(
            ab.degenerate_collinear_cross(&bd).unwrap(),
            XOverlap::Point(b)
        );

        assert_eq!(ab.degenerate_collinear_cross(&cd), None);

        // ac

        assert_eq!(
            ac.degenerate_collinear_cross(&ab).unwrap(),
            XOverlap::Segment(ab)
        );
        assert_eq!(
            ac.degenerate_collinear_cross(&ac).unwrap(),
            XOverlap::Segment(ac)
        );
        assert_eq!(
            ac.degenerate_collinear_cross(&ad).unwrap(),
            XOverlap::Segment(ac)
        );

        assert_eq!(
            ac.degenerate_collinear_cross(&bc).unwrap(),
            XOverlap::Segment(bc)
        );
        assert_eq!(
            ac.degenerate_collinear_cross(&bd).unwrap(),
            XOverlap::Segment(bc)
        );

        assert_eq!(
            ac.degenerate_collinear_cross(&cd).unwrap(),
            XOverlap::Point(c)
        );

        // ad

        assert_eq!(
            ad.degenerate_collinear_cross(&ab).unwrap(),
            XOverlap::Segment(ab)
        );
        assert_eq!(
            ad.degenerate_collinear_cross(&ac).unwrap(),
            XOverlap::Segment(ac)
        );
        assert_eq!(
            ad.degenerate_collinear_cross(&ad).unwrap(),
            XOverlap::Segment(ad)
        );

        assert_eq!(
            ad.degenerate_collinear_cross(&bc).unwrap(),
            XOverlap::Segment(bc)
        );
        assert_eq!(
            ad.degenerate_collinear_cross(&bd).unwrap(),
            XOverlap::Segment(bd)
        );

        assert_eq!(
            ad.degenerate_collinear_cross(&cd).unwrap(),
            XOverlap::Segment(cd)
        );

        // bc

        assert_eq!(
            bc.degenerate_collinear_cross(&ab).unwrap(),
            XOverlap::Point(b)
        );
        assert_eq!(
            bc.degenerate_collinear_cross(&ac).unwrap(),
            XOverlap::Segment(bc)
        );
        assert_eq!(
            bc.degenerate_collinear_cross(&ad).unwrap(),
            XOverlap::Segment(bc)
        );

        assert_eq!(
            bc.degenerate_collinear_cross(&bc).unwrap(),
            XOverlap::Segment(bc)
        );
        assert_eq!(
            bc.degenerate_collinear_cross(&bd).unwrap(),
            XOverlap::Segment(bc)
        );

        assert_eq!(
            bc.degenerate_collinear_cross(&cd).unwrap(),
            XOverlap::Point(c)
        );

        // bd

        assert_eq!(
            bd.degenerate_collinear_cross(&ab).unwrap(),
            XOverlap::Point(b)
        );
        assert_eq!(
            bd.degenerate_collinear_cross(&ac).unwrap(),
            XOverlap::Segment(bc)
        );
        assert_eq!(
            bd.degenerate_collinear_cross(&ad).unwrap(),
            XOverlap::Segment(bd)
        );

        assert_eq!(
            bd.degenerate_collinear_cross(&bc).unwrap(),
            XOverlap::Segment(bc)
        );
        assert_eq!(
            bd.degenerate_collinear_cross(&bd).unwrap(),
            XOverlap::Segment(bd)
        );

        assert_eq!(
            bd.degenerate_collinear_cross(&cd).unwrap(),
            XOverlap::Segment(cd)
        );

        // cd

        assert_eq!(cd.degenerate_collinear_cross(&ab), None);
        assert_eq!(
            cd.degenerate_collinear_cross(&ac).unwrap(),
            XOverlap::Point(c)
        );
        assert_eq!(
            cd.degenerate_collinear_cross(&ad).unwrap(),
            XOverlap::Segment(cd)
        );

        assert_eq!(
            cd.degenerate_collinear_cross(&bc).unwrap(),
            XOverlap::Point(c)
        );
        assert_eq!(
            cd.degenerate_collinear_cross(&bd).unwrap(),
            XOverlap::Segment(cd)
        );

        assert_eq!(
            cd.degenerate_collinear_cross(&cd).unwrap(),
            XOverlap::Segment(cd)
        );
    }
}

#[test]
fn x_segment_test_0() {
    let s0 = XSegment::new(IntPoint::new(0, 0), IntPoint::new(10, 10));
    let s1 = XSegment::new(IntPoint::new(10, 0), IntPoint::new(20, 0));

    assert!(s0.cross(&s1).is_none());
    assert!(s1.cross(&s0).is_none());
}

#[test]
fn x_segment_test_1() {
    let s0 = XSegment::new(IntPoint::new(0, 0), IntPoint::new(5, 5));
    let s1 = XSegment::new(IntPoint::new(0, 5), IntPoint::new(2, 3));

    assert!(s0.cross(&s1).is_none());
    assert!(s1.cross(&s0).is_none());
}

#[test]
fn x_segment_test_2() {
    let s0 = XSegment::new(IntPoint::new(0, 0), IntPoint::new(5, 5));
    let s1 = XSegment::new(IntPoint::new(3, 2), IntPoint::new(5, 0));

    assert!(s0.cross(&s1).is_none());
    assert!(s1.cross(&s0).is_none());
}

#[test]
fn x_segment_test_3() {
    let s0 = XSegment::new(IntPoint::new(0, 0), IntPoint::new(3, 3));
    let s1 = XSegment::new(IntPoint::new(2, 5), IntPoint::new(5, 2));

    assert!(s0.cross(&s1).is_none());
    assert!(s1.cross(&s0).is_none());
}

#[test]
fn x_segment_test_4() {
    let s0 = XSegment::new(IntPoint::new(0, 0), IntPoint::new(2, 2));
    let s1 = XSegment::new(IntPoint::new(3, 3), IntPoint::new(5, 5));

    assert!(s0.cross(&s1).is_none());
    assert!(s1.cross(&s0).is_none());
}

#[test]
fn x_segment_test_5() {
    let s0 = XSegment::new(IntPoint::new(0, 0), IntPoint::new(2, 2));
    let s1 = XSegment::new(IntPoint::new(0, 1), IntPoint::new(2, 3));

    assert!(s0.cross(&s1).is_none());
    assert!(s1.cross(&s0).is_none());
}

#[test]
fn x_segment_test_6() {
    let s0 = XSegment::new(IntPoint::new(0, 4), IntPoint::new(17, 0));
    let s1 = XSegment::new(IntPoint::new(9, 2), IntPoint::new(12, 2));

    assert!(s0.cross(&s1).is_none());
    assert!(s1.cross(&s0).is_none());
}
