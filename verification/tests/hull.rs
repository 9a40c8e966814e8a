use i_curve::collision::convex::Convexity;
use i_curve::collision::four_convex_path::FourConvexPath;
use i_curve::convex::builder::FourConvexBuilder;
use i_curve::math::point::IntPoint;
use rand::Rng;

#[test]
fn four_convex_path_test_0() {
    let result = [
        IntPoint::new(0, 0),
    ]
    .to_four_convex();

    assert_eq!(result.len, 1);
    assert_eq!(result.buffer[0], IntPoint::new(0, 0));
    assert!(result.buffer.is_convex());
}

#[test]
fn four_convex_path_test_1() {
    let result = [
        IntPoint::new(0, 0),
        IntPoint::new(0, 0),
    ]
    .to_four_convex();

    assert_eq!(result.len, 1);
    assert_eq!(result.buffer[0], IntPoint::new(0, 0));
    assert!(result.buffer.is_convex());
}

#[test]
fn four_convex_path_test_2() {
    let result = [
        IntPoint::new(0, 0),
        IntPoint::new(10, 0),
    ]
    .to_four_convex();

    assert_eq!(result.len, 2);
    assert_eq!(result.buffer[0], IntPoint::new(0, 0));
    assert_eq!(result.buffer[1], IntPoint::new(10, 0));
    assert!(result.buffer.is_convex());
}

#[test]
fn four_convex_path_test_3() {
    let result = [
        IntPoint::new(10, 0),
        IntPoint::new(0, 0),
    ]
    .to_four_convex();

    assert_eq!(result.len, 2);
    assert_eq!(result.buffer[0], IntPoint::new(0, 0));
    assert_eq!(result.buffer[1], IntPoint::new(10, 0));
    assert!(result.buffer.is_convex());
}

#[test]
fn four_convex_path_test_4() {
    let result = [
        IntPoint::new(0, 0),
        IntPoint::new(10, -10),
        IntPoint::new(10, 10),
    ]
    .to_four_convex();

    assert_eq!(result.len, 3);
    assert_eq!(result.buffer[0], IntPoint::new(0, 0));
    assert_eq!(result.buffer[1], IntPoint::new(10, -10));
    assert_eq!(result.buffer[2], IntPoint::new(10, 10));
    assert!(result.slice().is_convex());
}

#[test]
fn four_convex_path_test_5() {
    let result = [
        IntPoint::new(0, 0),
        IntPoint::new(10, 10),
        IntPoint::new(10, -10),
    ]
    .to_four_convex();

    assert_eq!(result.len, 3);
    assert_eq!(result.buffer[0], IntPoint::new(0, 0));
    assert_eq!(result.buffer[1], IntPoint::new(10, -10));
    assert_eq!(result.buffer[2], IntPoint::new(10, 10));
    assert!(result.slice().is_convex());
}

#[test]
fn four_convex_path_test_6() {
    let result = [
        IntPoint::new(0, 0),
        IntPoint::new(20, 0),
        IntPoint::new(10, 10),
        IntPoint::new(10, -10),
    ]
    .to_four_convex();

    assert_eq!(result.len, 4);
    assert_eq!(result.buffer[0], IntPoint::new(0, 0));
    assert_eq!(result.buffer[1], IntPoint::new(10, -10));
    assert_eq!(result.buffer[2], IntPoint::new(20, 0));
    assert_eq!(result.buffer[3], IntPoint::new(10, 10));
    assert!(result.slice().is_convex());
}

#[test]
fn four_convex_path_test_7() {
    let result = [
        IntPoint::new(0, 0),
        IntPoint::new(10, 0),
        IntPoint::new(10, 10),
        IntPoint::new(10, -10),
    ]
    .to_four_convex();

    assert_eq!(result.len, 3);
    assert_eq!(result.buffer[0], IntPoint::new(0, 0));
    assert_eq!(result.buffer[1], IntPoint::new(10, -10));
    assert_eq!(result.buffer[2], IntPoint::new(10, 10));
    assert!(result.slice().is_convex());
}

#[test]
fn four_convex_path_test_8() {
    let result = [
        IntPoint::new(0, 0),
        IntPoint::new(5, 0),
        IntPoint::new(10, 10),
        IntPoint::new(10, -10),
    ]
    .to_four_convex();

    assert_eq!(result.len, 3);
    assert_eq!(result.buffer[0], IntPoint::new(0, 0));
    assert_eq!(result.buffer[1], IntPoint::new(10, -10));
    assert_eq!(result.buffer[2], IntPoint::new(10, 10));
    assert!(result.slice().is_convex());
}

#[test]
fn four_convex_path_test_9() {
    let result = [
        IntPoint::new(0, 0),
        IntPoint::new(5, 0),
        IntPoint::new(10, 0),
        IntPoint::new(15, 0),
    ]
    .to_four_convex();

    assert_eq!(result.len, 2);
    assert_eq!(result.buffer[0], IntPoint::new(0, 0));
    assert_eq!(result.buffer[1], IntPoint::new(15, 0));
    assert!(result.slice().is_convex());
}

#[test]
fn four_convex_path_test_10() {
    let result = [
        IntPoint::new(0, 0),
        IntPoint::new(5, 0),
        IntPoint::new(10, 0),
        IntPoint::new(15, 10),
    ]
    .to_four_convex();

    assert_eq!(result.len, 3);
    assert_eq!(result.buffer[0], IntPoint::new(0, 0));
    assert_eq!(result.buffer[1], IntPoint::new(10, 0));
    assert_eq!(result.buffer[2], IntPoint::new(15, 10));
    assert!(result.slice().is_convex());
}

#[test]
fn four_convex_path_test_11() {
    let result = [
        IntPoint::new(0, 0),
        IntPoint::new(0, 5),
        IntPoint::new(0, 10),
        IntPoint::new(0, 15),
    ]
    .to_four_convex();

    assert_eq!(result.len, 2);
    assert_eq!(result.buffer[0], IntPoint::new(0, 0));
    assert_eq!(result.buffer[1], IntPoint::new(0, 15));
    assert!(result.slice().is_convex());
}

#[test]
fn four_convex_path_test_12() {
    let result = [
        IntPoint::new(0, 0),
        IntPoint::new(0, -5),
        IntPoint::new(0, -10),
        IntPoint::new(0, -15),
    ]
    .to_four_convex();

    assert_eq!(result.len, 2);
    assert_eq!(result.buffer[0], IntPoint::new(0, -15));
    assert_eq!(result.buffer[1], IntPoint::new(0, 0));
    assert!(result.slice().is_convex());
}

#[test]
fn four_convex_path_test_13() {
    let result = [
        IntPoint::new(0, 0),
        IntPoint::new(10, -10),
        IntPoint::new(5, 5),
        IntPoint::new(10, 10),
    ]
    .to_four_convex();

    assert_eq!(result.len, 3);
    assert_eq!(result.buffer[0], IntPoint::new(0, 0));
    assert_eq!(result.buffer[1], IntPoint::new(10, -10));
    assert_eq!(result.buffer[2], IntPoint::new(10, 10));
    assert!(result.slice().is_convex());
}

#[test]
fn builder_test_0() {
    let mut builder = FourConvexBuilder::default();
    let result = builder.build(&vec![
        IntPoint::new(0, 0),
    ]);

    assert_eq!(result.len(), 1);
    assert_eq!(result[0], IntPoint::new(0, 0));
    assert!(result.is_convex());
}

#[test]
fn builder_test_1() {
    let mut builder = FourConvexBuilder::default();
    let result = builder.build(&vec![
        IntPoint::new(0, 0),
        IntPoint::new(0, 0),
    ]);

    assert_eq!(result.len(), 1);
    assert_eq!(result[0], IntPoint::new(0, 0));
    assert!(result.is_convex());
}

#[test]
fn builder_test_2() {
    let mut builder = FourConvexBuilder::default();
    let result = builder.build(&vec![
        IntPoint::new(0, 0),
        IntPoint::new(10, 0),
    ]);

    assert_eq!(result.len(), 2);
    assert_eq!(result[0], IntPoint::new(0, 0));
    assert_eq!(result[1], IntPoint::new(10, 0));
    assert!(result.is_convex());
}

#[test]
fn builder_test_3() {
    let mut builder = FourConvexBuilder::default();
    let result = builder.build(&vec![
        IntPoint::new(10, 0),
        IntPoint::new(0, 0),
    ]);

    assert_eq!(result.len(), 2);
    assert_eq!(result[0], IntPoint::new(0, 0));
    assert_eq!(result[1], IntPoint::new(10, 0));
    assert!(result.is_convex());
}

#[test]
fn builder_test_4() {
    let mut builder = FourConvexBuilder::default();
    let result = builder.build(&vec![
        IntPoint::new(0, 0),
        IntPoint::new(10, -10),
        IntPoint::new(10, 10),
    ]);

    assert_eq!(result.len(), 3);
    assert_eq!(result[0], IntPoint::new(0, 0));
    assert_eq!(result[1], IntPoint::new(10, -10));
    assert_eq!(result[2], IntPoint::new(10, 10));
    assert!(result.is_convex());
}

#[test]
fn builder_test_5() {
    let mut builder = FourConvexBuilder::default();
    let result = builder.build(&vec![
        IntPoint::new(0, 0),
        IntPoint::new(10, 10),
        IntPoint::new(10, -10),
    ]);

    assert_eq!(result.len(), 3);
    assert_eq!(result[0], IntPoint::new(0, 0));
    assert_eq!(result[1], IntPoint::new(10, -10));
    assert_eq!(result[2], IntPoint::new(10, 10));
    assert!(result.is_convex());
}

#[test]
fn builder_test_6() {
    let mut builder = FourConvexBuilder::default();
    let result = builder.build(&vec![
        IntPoint::new(0, 0),
        IntPoint::new(20, 0),
        IntPoint::new(10, 10),
        IntPoint::new(10, -10),
    ]);

    assert_eq!(result.len(), 4);
    assert_eq!(result[0], IntPoint::new(0, 0));
    assert_eq!(result[1], IntPoint::new(10, -10));
    assert_eq!(result[2], IntPoint::new(20, 0));
    assert_eq!(result[3], IntPoint::new(10, 10));
    assert!(result.is_convex());
}

#[test]
fn builder_test_7() {
    let mut builder = FourConvexBuilder::default();
    let result = builder.build(&vec![
        IntPoint::new(0, 0),
        IntPoint::new(10, 0),
        IntPoint::new(10, 10),
        IntPoint::new(10, -10),
    ]);

    assert_eq!(result.len(), 3);
    assert_eq!(result[0], IntPoint::new(0, 0));
    assert_eq!(result[1], IntPoint::new(10, -10));
    assert_eq!(result[2], IntPoint::new(10, 10));
    assert!(result.is_convex());
}

#[test]
fn builder_test_8() {
    let mut builder = FourConvexBuilder::default();
    let result = builder.build(&vec![
        IntPoint::new(0, 0),
        IntPoint::new(5, 0),
        IntPoint::new(10, 10),
        IntPoint::new(10, -10),
    ]);

    assert_eq!(result.len(), 3);
    assert_eq!(result[0], IntPoint::new(0, 0));
    assert_eq!(result[1], IntPoint::new(10, -10));
    assert_eq!(result[2], IntPoint::new(10, 10));
    assert!(result.is_convex());
}

#[test]
fn builder_test_9() {
    let mut builder = FourConvexBuilder::default();
    let result = builder.build(&vec![
        IntPoint::new(0, 0),
        IntPoint::new(5, 0),
        IntPoint::new(10, 0),
        IntPoint::new(15, 0),
    ]);

    assert_eq!(result.len(), 2);
    assert_eq!(result[0], IntPoint::new(0, 0));
    assert_eq!(result[1], IntPoint::new(15, 0));
    assert!(result.is_convex());
}

#[test]
fn builder_test_10() {
    let mut builder = FourConvexBuilder::default();
    let result = builder.build(&vec![
        IntPoint::new(0, 0),
        IntPoint::new(5, 0),
        IntPoint::new(10, 0),
        IntPoint::new(15, 10),
    ]);

    assert_eq!(result.len(), 3);
    assert_eq!(result[0], IntPoint::new(0, 0));
    assert_eq!(result[1], IntPoint::new(10, 0));
    assert_eq!(result[2], IntPoint::new(15, 10));
    assert!(result.is_convex());
}

#[test]
fn builder_test_11() {
    let mut builder = FourConvexBuilder::default();
    let result = builder.build(&vec![
        IntPoint::new(0, 0),
        IntPoint::new(0, 5),
        IntPoint::new(0, 10),
        IntPoint::new(0, 15),
    ]);

    assert_eq!(result.len(), 2);
    assert_eq!(result[0], IntPoint::new(0, 0));
    assert_eq!(result[1], IntPoint::new(0, 15));
    assert!(result.is_convex());
}

#[test]
fn builder_test_12() {
    let mut builder = FourConvexBuilder::default();
    let result = builder.build(&vec![
        IntPoint::new(0, 0),
        IntPoint::new(0, -5),
        IntPoint::new(0, -10),
        IntPoint::new(0, -15),
    ]);

    assert_eq!(result.len(), 2);
    assert_eq!(result[0], IntPoint::new(0, -15));
    assert_eq!(result[1], IntPoint::new(0, 0));
    assert!(result.is_convex());
}

#[test]
fn builder_test_13() {
    let mut builder = FourConvexBuilder::default();
    let result = builder.build(&vec![
        IntPoint::new(0, 0),
        IntPoint::new(10, -10),
        IntPoint::new(5, 5),
        IntPoint::new(10, 10),
    ]);

    assert_eq!(result.len(), 3);
    assert_eq!(result[0], IntPoint::new(0, 0));
    assert_eq!(result[1], IntPoint::new(10, -10));
    assert_eq!(result[2], IntPoint::new(10, 10));
    assert!(result.is_convex());
}

#[test]
fn four_convex_path_test_random() {
    let range = -1000i64..=1000i64;
    let mut rng = rand::rng();
    let mut points = [IntPoint::new(0, 0); 4];
    for _ in 0..1000 {
        for i in 0..4 {
            let x = rng.random_range(range.clone());
            let y = rng.random_range(range.clone());
            points[i] = IntPoint::new(x, y);
        }

        let result = points.to_four_convex();
        assert!(result.slice().is_convex());
    }
}

#[test]
fn builder_test_random() {
    let mut builder = FourConvexBuilder::default();
    let mut points = Vec::with_capacity(4);
    let range = -1000i64..=1000i64;
    let mut rng = rand::rng();
    for _ in 0..1000 {
        points.clear();
        let x = rng.random_range(range.clone());
        let y = rng.random_range(range.clone());
        points.push(IntPoint::new(x, y));

        let result = builder.build(&points);
        assert!(result.is_convex());
    }
}
