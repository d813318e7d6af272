use murali::surface::{surface_indices, SurfaceRenderMode};

#[test]
fn no_rows_no_triangles() {
    assert!(surface_indices(0, 4).is_empty());
    assert!(surface_indices(1, 4).is_empty());
}

#[test]
fn two_by_two_grid_is_one_quad() {
    assert_eq!(surface_indices(2, 2), vec![0, 1, 2, 1, 3, 2]);
}

#[test]
fn three_rows_of_three() {
    let idx = surface_indices(3, 3);
    assert_eq!(
        idx,
        vec![
            0, 1, 3, 1, 4, 3, //
            1, 2, 4, 2, 5, 4, //
            3, 4, 6, 4, 7, 6, //
            4, 5, 7, 5, 8, 7,
        ]
    );
}

#[test]
fn single_column_has_no_quads() {
    assert!(surface_indices(5, 1).is_empty());
}

#[test]
fn indices_stay_below_vertex_count() {
    let rows = 6;
    let v = 5;
    let idx = surface_indices(rows, v);
    assert_eq!(idx.len(), 6 * (rows - 1) * (v - 1));
    assert!(idx.iter().all(|&i| (i as usize) < rows * v));
}

#[test]
fn indices_wrap_past_sixteen_bits() {
    // Row 0 of a 70000-wide grid: the bottom-left index 70000 is cut to 16 bits.
    let idx = surface_indices(2, 70000);
    assert_eq!(idx[2], (70000u32 % 65536) as u16);
}

#[test]
fn render_modes_compare() {
    assert_ne!(SurfaceRenderMode::Solid, SurfaceRenderMode::Wireframe);
    assert_eq!(SurfaceRenderMode::SolidWithWireframe, SurfaceRenderMode::SolidWithWireframe);
}
