use i_curve::math::ab_segment::Contain;
use i_curve::math::point::IntPoint;
use i_curve::math::rect::IntRect;
use i_curve::math::segment::IntSegment;

#[test]
fn test_contains_0() {
    let result =
        IntSegment::new(IntPoint::new(0, 0), IntPoint::new(10, 0)).contains(IntPoint::new(5, 0));
    assert_eq!(result, Contain::Inside);
}

#[test]
fn test_contains_1() {
    let result =
        IntSegment::new(IntPoint::new(0, 0), IntPoint::new(10, 0)).contains(IntPoint::new(-5, 0));
    assert_eq!(result, Contain::Outside);
}

#[test]
fn test_contains_2() {
    let result =
        IntSegment::new(IntPoint::new(0, 0), IntPoint::new(10, 0)).contains(IntPoint::new(15, 0));
    assert_eq!(result, Contain::Outside);
}

#[test]
fn test_contains_3() {
    let result =
        IntSegment::new(IntPoint::new(0, 0), IntPoint::new(10, 0)).contains(IntPoint::new(0, 0));
    assert_eq!(result, Contain::End);
}

#[test]
fn test_contains_4() {
    let result =
        IntSegment::new(IntPoint::new(0, 0), IntPoint::new(10, 0)).contains(IntPoint::new(10, 0));
    assert_eq!(result, Contain::End);
}

#[test]
fn test_contains_5() {
    let result =
        IntSegment::new(IntPoint::new(5, 5), IntPoint::new(10, 10)).contains(IntPoint::new(15, 15));
    assert_eq!(result, Contain::Outside);
}

#[test]
fn test_contains_6() {
    let result =
        IntSegment::new(IntPoint::new(5, 5), IntPoint::new(10, 10)).contains(IntPoint::new(0, 0));
    assert_eq!(result, Contain::Outside);
}

#[test]
fn test_contains_7() {
    let result =
        IntSegment::new(IntPoint::new(5, 5), IntPoint::new(10, 10)).contains(IntPoint::new(5, 5));
    assert_eq!(result, Contain::End);
}

#[test]
fn test_contains_8() {
    let result =
        IntSegment::new(IntPoint::new(5, 5), IntPoint::new(10, 10)).contains(IntPoint::new(10, 10));
    assert_eq!(result, Contain::End);
}

#[test]
fn test_contains_9() {
    let result =
        IntSegment::new(IntPoint::new(5, 5), IntPoint::new(10, 10)).contains(IntPoint::new(7, 7));
    assert_eq!(result, Contain::Inside);
}

#[test]
fn segment_test_0() {
    let s = IntSegment::new(IntPoint::new(0, 0), IntPoint::new(10, 0));
    assert_eq!(s.closest_point(IntPoint::new(-10, 10)), IntPoint::new(0, 0));
    assert_eq!(
        s.closest_point(IntPoint::new(-10, -10)),
        IntPoint::new(0, 0)
    );
}

#[test]
fn segment_test_1() {
    let s = IntSegment::new(IntPoint::new(0, 0), IntPoint::new(10, 0));
    assert_eq!(s.closest_point(IntPoint::new(20, 10)), IntPoint::new(10, 0));
    assert_eq!(
        s.closest_point(IntPoint::new(20, -10)),
        IntPoint::new(10, 0)
    );
}

#[test]
fn segment_test_2() {
    let s = IntSegment::new(IntPoint::new(0, 0), IntPoint::new(10, 0));
    assert_eq!(s.closest_point(IntPoint::new(0, 10)), IntPoint::new(0, 0));
    assert_eq!(s.closest_point(IntPoint::new(0, -10)), IntPoint::new(0, 0));
}

#[test]
fn segment_test_3() {
    let s = IntSegment::new(IntPoint::new(0, 0), IntPoint::new(10, 0));
    assert_eq!(s.closest_point(IntPoint::new(10, 10)), IntPoint::new(10, 0));
    assert_eq!(
        s.closest_point(IntPoint::new(10, -10)),
        IntPoint::new(10, 0)
    );
}

#[test]
fn segment_test_4() {
    let s = IntSegment::new(IntPoint::new(0, 0), IntPoint::new(10, 0));
    assert_eq!(s.closest_point(IntPoint::new(-10, 0)), IntPoint::new(0, 0));
}

#[test]
fn segment_test_5() {
    let s = IntSegment::new(IntPoint::new(0, 0), IntPoint::new(10, 0));
    assert_eq!(s.closest_point(IntPoint::new(20, 0)), IntPoint::new(10, 0));
}

#[test]
fn rect_test_0() {
    let rect = IntRect::with_points(&vec![
        IntPoint::new(0, 0),
        IntPoint::new(-7, 10),
        IntPoint::new(20, -5),
    ]);

    assert_eq!(rect.min.x, -7);
    assert_eq!(rect.max.x, 20);
    assert_eq!(rect.min.y, -5);
    assert_eq!(rect.max.y, 10);
}

#[test]
fn rect_test_1() {
    let a = IntRect::with_points(&vec![IntPoint::new(0, 0), IntPoint::new(10, 10)]);

    let b = IntRect::with_points(&vec![IntPoint::new(10, 10), IntPoint::new(20, 0)]);

    assert_eq!(a.is_intersect_border_exclude(&b), false);
    assert_eq!(a.is_intersect_border_include(&b), true);
}
