use murali::path::resample_plan;

#[test]
fn rounds_split_from_the_start() {
    // MoveTo, then two drawing segments, resampled to six segments.
    let plan = resample_plan(&vec![true, false, false], 6);
    assert_eq!(plan, vec![vec![false, true, true], vec![false, true, false, false, false]]);
}

#[test]
fn long_enough_path_is_left_alone() {
    assert!(resample_plan(&vec![true, false, false], 3).is_empty());
    assert!(resample_plan(&vec![true, false, false], 1).is_empty());
}

#[test]
fn empty_path_is_left_alone() {
    assert!(resample_plan(&vec![], 10).is_empty());
}

#[test]
fn moves_alone_never_split() {
    assert!(resample_plan(&vec![true, true], 8).is_empty());
}

#[test]
fn plan_reaches_target_count() {
    let kinds = vec![true, false, false, true, false];
    let target = 23;
    let mut len = kinds.len();
    for round in resample_plan(&kinds, target) {
        assert_eq!(round.len(), len);
        len += round.iter().filter(|s| **s).count();
    }
    assert_eq!(len, target);
}

#[test]
fn quota_never_exceeds_path_length() {
    // One drawing segment doubles each round: 1, 2, 4, 8, then 2 more.
    let plan = resample_plan(&vec![false], 10);
    let splits: Vec<usize> = plan.iter().map(|r| r.iter().filter(|s| **s).count()).collect();
    assert_eq!(splits, vec![1, 2, 4, 2]);
}

use murali::path::{is_single_closed_contour, rotated_order, RotatedSegment};

#[test]
fn single_closed_contour_check() {
    assert!(is_single_closed_contour(true, &vec![true, false, false]));
    assert!(!is_single_closed_contour(false, &vec![true, false, false]));
    assert!(!is_single_closed_contour(true, &vec![false, true]));
    assert!(!is_single_closed_contour(true, &vec![true, false, true, false]));
    assert!(!is_single_closed_contour(true, &vec![]));
}

#[test]
fn rotation_restarts_at_shift() {
    // A closed square: move to point 0, lines to points 1, 2, 3.
    assert_eq!(
        rotated_order(4, 1),
        (1, vec![RotatedSegment::Keep(2), RotatedSegment::Keep(3), RotatedSegment::CloseToStart])
    );
    assert_eq!(
        rotated_order(4, 2),
        (2, vec![RotatedSegment::Keep(3), RotatedSegment::CloseToStart, RotatedSegment::Keep(1)])
    );
    assert_eq!(
        rotated_order(4, 3),
        (3, vec![RotatedSegment::CloseToStart, RotatedSegment::Keep(1), RotatedSegment::Keep(2)])
    );
    assert_eq!(rotated_order(1, 0), (0, vec![]));
}

#[test]
fn rotation_by_zero_keeps_the_contour() {
    assert_eq!(
        rotated_order(4, 0),
        (0, vec![RotatedSegment::Keep(1), RotatedSegment::Keep(2), RotatedSegment::Keep(3)])
    );
}
