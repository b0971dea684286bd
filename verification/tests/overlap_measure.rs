use fingers::detection::Box;
use fingers::fixed::Fixed;
use fingers::overlap::intersection_over_union;

/// A box whose corners are given in hundredths.
fn rect(xmin: i64, ymin: i64, xmax: i64, ymax: i64) -> Box {
    Box {
        xmin: Fixed::from_ratio(xmin, 100),
        ymin: Fixed::from_ratio(ymin, 100),
        xmax: Fixed::from_ratio(xmax, 100),
        ymax: Fixed::from_ratio(ymax, 100),
    }
}

#[test]
fn identical_unit_boxes_overlap_completely() {
    let unit = rect(0, 0, 100, 100);
    assert_eq!(intersection_over_union(&unit, &unit).raw(), 65536);
    let small = rect(25, 25, 50, 75);
    assert_eq!(intersection_over_union(&small, &small).raw(), 65536);
}

#[test]
fn disjoint_boxes_do_not_overlap() {
    let a = rect(0, 0, 100, 100);
    let b = rect(200, 200, 300, 300);
    assert_eq!(intersection_over_union(&a, &b).raw(), 0);
    let beside = rect(150, 0, 250, 100);
    assert_eq!(intersection_over_union(&a, &beside).raw(), 0);
}

#[test]
fn touching_boxes_do_not_overlap() {
    let a = rect(0, 0, 100, 100);
    let b = rect(100, 0, 200, 100);
    assert_eq!(intersection_over_union(&a, &b).raw(), 0);
}

#[test]
fn overlap_is_symmetric() {
    let boxes = [
        rect(0, 0, 100, 100),
        rect(50, 0, 150, 100),
        rect(10, 20, 30, 90),
        rect(-50, -50, 20, 20),
        rect(100, 100, 0, 0),
        rect(40, 40, 40, 40),
    ];
    for a in boxes.iter() {
        for b in boxes.iter() {
            assert_eq!(intersection_over_union(a, b), intersection_over_union(b, a));
        }
    }
}

#[test]
fn half_shifted_unit_boxes_overlap_by_a_third() {
    let a = Box {
        xmin: Fixed::from_int(0),
        ymin: Fixed::from_int(0),
        xmax: Fixed::from_int(1),
        ymax: Fixed::from_int(1),
    };
    let b = Box {
        xmin: Fixed::from_ratio(1, 2),
        ymin: Fixed::from_int(0),
        xmax: Fixed::from_ratio(3, 2),
        ymax: Fixed::from_int(1),
    };
    // 0.5 shared of 1.5 covered: floor(65536 / 3).
    assert_eq!(intersection_over_union(&a, &b).raw(), 21845);
}

#[test]
fn contained_box_overlaps_by_its_share() {
    let outer = Box {
        xmin: Fixed::from_int(0),
        ymin: Fixed::from_int(0),
        xmax: Fixed::from_int(2),
        ymax: Fixed::from_int(2),
    };
    let inner = Box {
        xmin: Fixed::from_int(0),
        ymin: Fixed::from_int(0),
        xmax: Fixed::from_int(1),
        ymax: Fixed::from_int(1),
    };
    assert_eq!(intersection_over_union(&outer, &inner).raw(), 16384);
}

#[test]
fn boxes_without_area_overlap_by_zero() {
    let point = rect(40, 40, 40, 40);
    assert_eq!(intersection_over_union(&point, &point).raw(), 0);
    let line = rect(0, 50, 100, 50);
    let unit = rect(0, 0, 100, 100);
    assert_eq!(intersection_over_union(&line, &unit).raw(), 0);
    assert_eq!(intersection_over_union(&line, &line).raw(), 0);
}

#[test]
fn inverted_box_shares_nothing() {
    let inverted = rect(100, 100, 0, 0);
    let unit = rect(0, 0, 100, 100);
    assert_eq!(intersection_over_union(&inverted, &unit).raw(), 0);
    assert_eq!(intersection_over_union(&inverted, &inverted).raw(), 0);
    // Inverted along one axis only: the raw area is negative and counts as none.
    let twisted = rect(100, 0, 0, 100);
    assert_eq!(intersection_over_union(&twisted, &unit).raw(), 0);
    assert_eq!(intersection_over_union(&twisted, &twisted).raw(), 0);
}

#[test]
fn extreme_boxes_stay_in_range() {
    let all = Box {
        xmin: Fixed::from_raw(i32::MIN),
        ymin: Fixed::from_raw(i32::MIN),
        xmax: Fixed::from_raw(i32::MAX),
        ymax: Fixed::from_raw(i32::MAX),
    };
    assert_eq!(intersection_over_union(&all, &all).raw(), 65536);
    let quarter = Box {
        xmin: Fixed::from_raw(0),
        ymin: Fixed::from_raw(0),
        xmax: Fixed::from_raw(i32::MAX),
        ymax: Fixed::from_raw(i32::MAX),
    };
    let r = intersection_over_union(&all, &quarter).raw();
    assert!(0 <= r && r <= 65536);
    assert_eq!(r, 16383);
}
