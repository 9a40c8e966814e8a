use i_curve::data::link_list::LinkList;
use i_curve::math::normalize::{VectorNormalization16, VectorNormalization16Util};
use i_curve::math::point::IntPoint;

#[test]
fn link_list_test_00() {
    let mut list = LinkList::new(vec![0, 1, 3]);
    list.split_at(1, 1, 2);

    assert_eq!(list.nodes[0].item, 0);
    assert_eq!(list.nodes[1].item, 1);
    assert_eq!(list.nodes[3].item, 2);
    assert_eq!(list.nodes[2].item, 3);
}

#[test]
fn link_list_test_01() {
    let mut list = LinkList::new(vec![0, 2, 3]);
    list.split_at(0, 0, 1);

    assert_eq!(list.nodes[0].item, 0);
    assert_eq!(list.nodes[3].item, 1);
    assert_eq!(list.nodes[1].item, 2);
    assert_eq!(list.nodes[2].item, 3);
}

#[test]
fn link_list_test_02() {
    let mut list = LinkList::new(vec![0, 1, 2]);
    list.split_at(2, 2, 3);

    assert_eq!(list.nodes[0].item, 0);
    assert_eq!(list.nodes[1].item, 1);
    assert_eq!(list.nodes[2].item, 2);
    assert_eq!(list.nodes[3].item, 3);
}

#[test]
fn test_basic_normalization() {
    let unit = VectorNormalization16Util::UNIT as i64;
    assert_eq!(
        IntPoint::new(unit, 0).normalized_16bit(),
        IntPoint::new(unit, 0)
    );
    assert_eq!(
        IntPoint::new(0, unit).normalized_16bit(),
        IntPoint::new(0, unit)
    );
    assert_eq!(
        IntPoint::new(3, 4).normalized_16bit(),
        IntPoint::new(39321, 52428)
    );
}

#[test]
fn test_big_numbers() {
    let x: i64 = 507758875930;
    let y: i64 = 748317763344;
    let p = IntPoint::new(x, y).normalized_16bit();
    let n = p.normalized_16bit();
    let unit = VectorNormalization16Util::UNIT as i64;
    assert!(n.x.abs() <= unit);
    assert!(n.y.abs() <= unit);

    let sqr_len = n.x * n.x + n.y * n.y;
    let error = unit * unit - sqr_len;

    assert!(error < unit * 100);
}

#[test]
fn test_empty() {
    let set = i_curve::data::bitset::IndexBitSet::default();
    let mut result = Vec::new();
    for i in set.indices() {
        result.push(i);
    }
    assert!(result.is_empty());
}

#[test]
fn test_single_value() {
    let mut set = i_curve::data::bitset::IndexBitSet::default();
    set.insert(42);
    let mut result = Vec::new();
    for i in set.indices() {
        result.push(i);
    }
    assert_eq!(result, vec![42]);
}

#[test]
fn test_duplicates() {
    let mut set = i_curve::data::bitset::IndexBitSet::default();
    set.insert(10);
    set.insert(10);
    set.insert(10);
    let mut result = Vec::new();
    for i in set.indices() {
        result.push(i);
    }
    assert_eq!(result, vec![10]);
}

#[test]
fn test_ordered_values() {
    let mut set = i_curve::data::bitset::IndexBitSet::default();
    for i in 0..100 {
        set.insert(i);
    }
    let mut result = Vec::new();
    for i in set.indices() {
        result.push(i);
    }
    let expected: Vec<_> = (0..100).collect();
    assert_eq!(result, expected);
}

#[test]
fn test_reuse_and_clean() {
    let mut set = i_curve::data::bitset::IndexBitSet::default();
    let mut result = Vec::new();

    set.insert(1);
    set.insert(2);
    for i in set.indices() {
        result.push(i);
    }
    assert_eq!(result.len(), 2);

    // Second call should be empty now
    set.clear();
    result.clear();
    for i in set.indices() {
        result.push(i);
    }
    assert!(result.is_empty());

    // Reuse
    set.insert(5);
    set.insert(10);
    for i in set.indices() {
        result.push(i);
    }
    assert_eq!(result.len(), 2);
    assert!(result.contains(&5) && result.contains(&10));
}
