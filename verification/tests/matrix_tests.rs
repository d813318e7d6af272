use murali::matrix::{
    cell_continuity_key, continuity_sources, matrix_dims, part_continuity_key, MatrixSelection,
};

#[test]
fn cells_selection() {
    let s = MatrixSelection::Cells(vec![(0, 1), (2, 2)]);
    assert!(s.is_selected(0, 1));
    assert!(s.is_selected(2, 2));
    assert!(!s.is_selected(1, 0));
    assert!(!MatrixSelection::Cells(vec![]).is_selected(0, 0));
}

#[test]
fn row_and_column_selection() {
    let r = MatrixSelection::Row(1);
    assert!(r.is_selected(1, 0));
    assert!(r.is_selected(1, 9));
    assert!(!r.is_selected(0, 1));
    let c = MatrixSelection::Column(2);
    assert!(c.is_selected(5, 2));
    assert!(!c.is_selected(2, 5));
}

#[test]
fn dims_of_ragged_matrix() {
    assert_eq!(matrix_dims(&vec![2, 5, 3]), (3, 5));
    assert_eq!(matrix_dims(&vec![]), (0, 0));
    assert_eq!(matrix_dims(&vec![0, 0]), (2, 0));
}

#[test]
fn part_key_prefers_explicit_key() {
    let k = part_continuity_key(&Some("lhs".to_string()), &"x".to_string(), 3);
    assert_eq!(k, "lhs");
}

#[test]
fn part_key_defaults_to_text_and_index() {
    assert_eq!(part_continuity_key(&None, &"x".to_string(), 3), "x#3");
    assert_eq!(part_continuity_key(&None, &"=".to_string(), 120), "=#120");
    assert_eq!(part_continuity_key(&None, &"".to_string(), 0), "#0");
}

#[test]
fn cell_key_defaults_to_text_and_position() {
    assert_eq!(cell_continuity_key(&None, &"7".to_string(), 1, 20), "7@1:20");
    assert_eq!(cell_continuity_key(&Some("k".to_string()), &"7".to_string(), 1, 2), "k");
}

#[test]
fn continuity_matches_last_equal_source_key() {
    let src = vec!["a".to_string(), "b".to_string(), "a".to_string()];
    let tgt = vec!["a".to_string(), "c".to_string(), "b".to_string()];
    assert_eq!(continuity_sources(&src, &tgt), vec![Some(2), None, Some(1)]);
}

#[test]
fn continuity_with_no_sources() {
    let tgt = vec!["a".to_string()];
    assert_eq!(continuity_sources(&vec![], &tgt), vec![None]);
    assert!(continuity_sources(&vec!["a".to_string()], &vec![]).is_empty());
}

#[test]
fn default_keys_differ_by_position() {
    let t = "a".to_string();
    assert_ne!(part_continuity_key(&None, &t, 1), part_continuity_key(&None, &t, 11));
    assert_ne!(cell_continuity_key(&None, &t, 1, 12), cell_continuity_key(&None, &t, 11, 2));
}
