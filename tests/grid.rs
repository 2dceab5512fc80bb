use cloth_sim::grid::{grid_coord, spring_neighbors, GridCoord, SpringFamily};

#[test]
fn grid_coord_decodes_row_major_index() {
    assert_eq!(grid_coord(7, 3), GridCoord { col: 1, row: 2 });
    assert_eq!(grid_coord(0, 30), GridCoord { col: 0, row: 0 });
    assert_eq!(grid_coord(899, 30), GridCoord { col: 29, row: 29 });
}

#[test]
fn interior_vertex_has_all_stretch_and_shear_neighbors() {
    assert_eq!(spring_neighbors(4, 3, 3, SpringFamily::Stretch), vec![5, 3, 7, 1]);
    assert_eq!(spring_neighbors(4, 3, 3, SpringFamily::Shear), vec![8, 2, 6, 0]);
}

#[test]
fn bend_springs_reach_two_cells() {
    assert_eq!(spring_neighbors(12, 5, 5, SpringFamily::Bend), vec![14, 10, 22, 2]);
    assert_eq!(spring_neighbors(4, 3, 3, SpringFamily::Bend), Vec::<usize>::new());
}

#[test]
fn corner_vertex_has_fewer_neighbors() {
    assert_eq!(spring_neighbors(0, 3, 3, SpringFamily::Stretch), vec![1, 3]);
    assert_eq!(spring_neighbors(0, 3, 3, SpringFamily::Shear), vec![4]);
    assert_eq!(spring_neighbors(0, 3, 3, SpringFamily::Bend), vec![2, 6]);
    assert_eq!(spring_neighbors(8, 3, 3, SpringFamily::Stretch), vec![7, 5]);
}

#[test]
fn edge_vertex_on_wide_grid() {
    // Vertex (col 3, row 0) of a 4 × 2 grid.
    assert_eq!(spring_neighbors(3, 4, 2, SpringFamily::Stretch), vec![2, 7]);
    assert_eq!(spring_neighbors(3, 4, 2, SpringFamily::Shear), vec![6]);
    assert_eq!(spring_neighbors(3, 4, 2, SpringFamily::Bend), vec![1]);
}
