use cloth_sim::grid::GridCoord;
use cloth_sim::topology::{generate_cloth, generate_sphere, TopologyError};

/// Twice the signed area of a lattice triangle projected on the X/Z plane,
/// with the column along +X and the row along +Z. Seen from +Y, a
/// counter-clockwise triangle gives a positive Y component of
/// `(b - a) × (c - a)`.
fn normal_y(a: GridCoord, b: GridCoord, c: GridCoord) -> i64 {
    let (ax, az) = (a.col as i64, a.row as i64);
    let (bx, bz) = (b.col as i64, b.row as i64);
    let (cx, cz) = (c.col as i64, c.row as i64);
    (bz - az) * (cx - ax) - (bx - ax) * (cz - az)
}

#[test]
fn cloth_two_by_two_is_one_quad() {
    let mesh = generate_cloth(2, 2).unwrap();
    assert_eq!(mesh.indices, vec![0, 2, 1, 2, 3, 1]);
    assert_eq!(
        mesh.coords,
        vec![
            GridCoord { col: 0, row: 0 },
            GridCoord { col: 1, row: 0 },
            GridCoord { col: 0, row: 1 },
            GridCoord { col: 1, row: 1 },
        ]
    );
}

#[test]
fn cloth_triangles_turn_counter_clockwise_from_above() {
    for (w, h) in [(2usize, 2usize), (3, 4), (5, 2)] {
        let mesh = generate_cloth(w, h).unwrap();
        for t in mesh.indices.chunks(3) {
            let a = mesh.coords[t[0] as usize];
            let b = mesh.coords[t[1] as usize];
            let c = mesh.coords[t[2] as usize];
            assert!(normal_y(a, b, c) > 0, "triangle {:?} of {}x{}", t, w, h);
        }
    }
}

#[test]
fn cloth_counts_and_index_range() {
    for (w, h) in [(2usize, 2usize), (3, 4), (30, 30), (7, 2)] {
        let mesh = generate_cloth(w, h).unwrap();
        assert_eq!(mesh.coords.len(), w * h);
        assert_eq!(mesh.indices.len(), 6 * (w - 1) * (h - 1));
        assert!(mesh.indices.iter().all(|&i| (i as usize) < w * h));
    }
}

#[test]
fn cloth_three_by_two_exact_indices() {
    let mesh = generate_cloth(3, 2).unwrap();
    assert_eq!(mesh.indices, vec![0, 3, 1, 3, 4, 1, 1, 4, 2, 4, 5, 2]);
    assert_eq!(mesh.coords[4], GridCoord { col: 1, row: 1 });
}

#[test]
fn cloth_rejects_small_sides() {
    assert_eq!(generate_cloth(1, 5).err(), Some(TopologyError::TooSmall));
    assert_eq!(generate_cloth(5, 1).err(), Some(TopologyError::TooSmall));
    assert_eq!(generate_cloth(0, 0).err(), Some(TopologyError::TooSmall));
}

#[test]
fn cloth_rejects_more_vertices_than_u32_indices() {
    assert_eq!(generate_cloth(65536, 65536).err(), Some(TopologyError::TooLarge));
    assert_eq!(generate_cloth(usize::MAX, 2).err(), Some(TopologyError::TooLarge));
}

#[test]
fn sphere_one_sector_two_stacks_exact() {
    let mesh = generate_sphere(1, 2).unwrap();
    assert_eq!(mesh.indices, vec![1, 2, 3, 2, 4, 3]);
    assert_eq!(mesh.coords.len(), 6);
    assert_eq!(mesh.coords[5], GridCoord { col: 1, row: 2 });
}

#[test]
fn sphere_counts_and_index_range() {
    for (sectors, stacks) in [(16usize, 16usize), (4, 3), (1, 1), (3, 1), (5, 2)] {
        let mesh = generate_sphere(sectors, stacks).unwrap();
        let count = (sectors + 1) * (stacks + 1);
        assert_eq!(mesh.coords.len(), count);
        assert_eq!(mesh.indices.len(), 6 * sectors * (stacks - 1));
        assert!(mesh.indices.iter().all(|&i| (i as usize) < count));
    }
}

#[test]
fn sphere_pole_bands_give_one_triangle_per_cell() {
    let mesh = generate_sphere(4, 3).unwrap();
    // The band at the first pole: one triangle per sector, none using row 0
    // as its second corner row.
    assert_eq!(&mesh.indices[0..3], &[1, 5, 6]);
    assert_eq!(mesh.indices.len(), 3 * 4 + 6 * 4 + 3 * 4);
}

#[test]
fn sphere_rejects_zero_counts() {
    assert_eq!(generate_sphere(0, 3).err(), Some(TopologyError::TooSmall));
    assert_eq!(generate_sphere(3, 0).err(), Some(TopologyError::TooSmall));
}

#[test]
fn sphere_rejects_more_vertices_than_u32_indices() {
    assert_eq!(generate_sphere(65535, 65536).err(), Some(TopologyError::TooLarge));
    assert_eq!(generate_sphere(usize::MAX, 1).err(), Some(TopologyError::TooLarge));
}
