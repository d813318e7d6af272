use murali::table::{visible_line_indices, TableGrid, TableTitlePosition, TextSlot};

fn s(v: &[&str]) -> Vec<String> {
    v.iter().map(|x| x.to_string()).collect()
}

fn grid() -> TableGrid {
    TableGrid::new(vec![s(&["1", "2", "3"]), s(&["4", "5", "6"])])
}

#[test]
fn line_indices_with_outer_lines() {
    assert_eq!(visible_line_indices(3, true), vec![0, 1, 2, 3]);
    assert_eq!(visible_line_indices(0, true), vec![0]);
}

#[test]
fn line_indices_inner_only() {
    assert_eq!(visible_line_indices(3, false), vec![1, 2]);
    assert_eq!(visible_line_indices(1, false), Vec::<usize>::new());
    assert_eq!(visible_line_indices(0, false), Vec::<usize>::new());
}

#[test]
fn defaults() {
    let t = grid();
    assert_eq!(t.title_position, TableTitlePosition::Bottom);
    assert!(t.include_outer_lines);
    assert!(!t.labels_inside);
    assert!(t.title.is_none());
}

#[test]
fn rows_and_columns() {
    let t = grid();
    assert_eq!(t.num_rows(), 2);
    assert_eq!(t.num_cols(), 3);
    let empty = TableGrid::new(vec![]);
    assert_eq!(empty.num_rows(), 0);
    assert_eq!(empty.num_cols(), 0);
}

#[test]
fn cells_are_counted_from_one() {
    let t = grid();
    assert_eq!(t.get_cell(1, 1).map(|c| c.as_str()), Some("1"));
    assert_eq!(t.get_cell(2, 3).map(|c| c.as_str()), Some("6"));
    assert_eq!(t.get_cell(0, 1), None);
    assert_eq!(t.get_cell(1, 0), None);
    assert_eq!(t.get_cell(3, 1), None);
    assert_eq!(t.get_cell(1, 4), None);
}

#[test]
fn grid_size_with_labels_inside() {
    let t = grid()
        .with_row_labels(s(&["r1", "r2"]))
        .with_col_labels(s(&["a", "b", "c"]));
    assert_eq!(t.grid_size(), (3, 2));
    assert_eq!(t.label_offsets(), (0, 0));
    let inside = t.with_labels_inside(true);
    assert_eq!(inside.grid_size(), (4, 3));
    assert_eq!(inside.label_offsets(), (1, 1));
}

#[test]
fn line_order_horizontal_then_vertical() {
    let t = grid();
    let (h, v) = t.line_order();
    assert_eq!(h, vec![0, 1, 2]);
    assert_eq!(v, vec![0, 1, 2, 3]);
    let (h, v) = grid().with_outer_lines(false).line_order();
    assert_eq!(h, vec![1]);
    assert_eq!(v, vec![1, 2]);
}

#[test]
fn text_order_labels_then_cells() {
    let t = TableGrid::new(vec![s(&["x", "y"]), s(&["z"])])
        .with_col_labels(s(&["A", "B"]))
        .with_row_labels(s(&["R"]));
    let e: Vec<(String, TextSlot)> =
        t.text_entries().into_iter().map(|e| (e.content, e.slot)).collect();
    assert_eq!(
        e,
        vec![
            ("A".to_string(), TextSlot::ColumnLabel(0)),
            ("B".to_string(), TextSlot::ColumnLabel(1)),
            ("R".to_string(), TextSlot::RowLabel(0)),
            ("x".to_string(), TextSlot::Cell(0, 0)),
            ("y".to_string(), TextSlot::Cell(0, 1)),
            ("z".to_string(), TextSlot::Cell(1, 0)),
        ]
    );
}

#[test]
fn title_builders() {
    let t = grid().with_title("T".to_string()).with_title_position(TableTitlePosition::Top);
    assert_eq!(t.title.as_deref(), Some("T"));
    assert_eq!(t.title_position, TableTitlePosition::Top);
}
