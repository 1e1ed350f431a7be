use ses::extract::{marching_cubes, Crossing, EdgeKey, LatticePoint, Surface};
use ses::grid::DistanceGrid;

const MAX: i32 = 1000;

/// A lattice of `nx * ny * nz` points whose values are given with `x` fastest.
fn lattice(nx: usize, ny: usize, nz: usize, values: &[i32]) -> DistanceGrid {
    let mut g = match DistanceGrid::new(nx - 1, ny - 1, nz - 1, MAX) {
        Ok(g) => g,
        Err(_) => panic!("grid refused"),
    };
    let all = g.clip((0, 0, 0), (nx as i32 - 1, ny as i32 - 1, nz as i32 - 1));
    assert_eq!(g.count(&all), values.len());
    g.add_sphere(&all, &values.to_vec());
    g
}

fn extract(g: &DistanceGrid, iso: i32) -> Surface {
    match marching_cubes(g, iso) {
        Some(s) => s,
        None => panic!("too many vertices"),
    }
}

fn point(ix: usize, iy: usize, iz: usize) -> LatticePoint {
    LatticePoint { ix, iy, iz }
}

fn key(axis: u8, ix: usize, iy: usize, iz: usize) -> EdgeKey {
    EdgeKey { axis, ix, iy, iz }
}

#[test]
fn a_field_that_stays_on_one_side_has_no_surface() {
    let g = lattice(3, 3, 3, &[5; 27]);
    let s = extract(&g, 0);
    assert!(s.crossings.is_empty());
    assert!(s.indices.is_empty());
    let s = extract(&g, 6);
    assert!(s.crossings.is_empty());
    assert!(s.indices.is_empty());
}

#[test]
fn a_lattice_without_cells_has_no_surface() {
    let g = lattice(1, 2, 2, &[-1, 1, -1, 1]);
    let s = extract(&g, 0);
    assert!(s.crossings.is_empty());
    assert!(s.indices.is_empty());
}

#[test]
fn one_corner_below_gives_one_triangle() {
    let g = lattice(2, 2, 2, &[-1, 1, 1, 1, 1, 1, 1, 1]);
    let s = extract(&g, 0);
    assert_eq!(
        s.crossings,
        vec![
            Crossing { key: key(0, 0, 0, 0), from: point(0, 0, 0), to: point(1, 0, 0) },
            Crossing { key: key(1, 0, 0, 0), from: point(0, 1, 0), to: point(0, 0, 0) },
            Crossing { key: key(2, 0, 0, 0), from: point(0, 0, 0), to: point(0, 0, 1) },
        ]
    );
    assert_eq!(s.indices, vec![0, 2, 1]);
}

#[test]
fn a_value_equal_to_the_isovalue_is_not_below() {
    let g = lattice(2, 2, 2, &[0, 1, 1, 1, 1, 1, 1, 1]);
    let s = extract(&g, 0);
    assert!(s.crossings.is_empty());
    let s = extract(&g, 1);
    assert_eq!(s.crossings.len(), 3);
    assert_eq!(s.indices, vec![0, 2, 1]);
}

#[test]
fn neighbouring_cells_share_the_vertices_on_their_common_face() {
    // 3 x 2 x 2 points; only the point (1, 0, 0) lies below
    let g = lattice(3, 2, 2, &[1, -1, 1, 1, 1, 1, 1, 1, 1, 1, 1, 1]);
    let s = extract(&g, 0);
    assert_eq!(
        s.crossings,
        vec![
            Crossing { key: key(0, 0, 0, 0), from: point(0, 0, 0), to: point(1, 0, 0) },
            Crossing { key: key(1, 1, 0, 0), from: point(1, 0, 0), to: point(1, 1, 0) },
            Crossing { key: key(2, 1, 0, 0), from: point(1, 0, 0), to: point(1, 0, 1) },
            Crossing { key: key(0, 1, 0, 0), from: point(1, 0, 0), to: point(2, 0, 0) },
        ]
    );
    assert_eq!(s.indices, vec![0, 1, 2, 3, 2, 1]);
}

fn value_at(values: &[i32], n: usize, ix: usize, iy: usize, iz: usize) -> i32 {
    values[ix + iy * n + iz * n * n]
}

fn end_of(k: &EdgeKey) -> (usize, usize, usize) {
    match k.axis {
        0 => (k.ix + 1, k.iy, k.iz),
        1 => (k.ix, k.iy + 1, k.iz),
        _ => (k.ix, k.iy, k.iz + 1),
    }
}

#[test]
fn vertices_are_exactly_the_lattice_edges_that_change_sides() {
    let n = 6;
    let mut values = Vec::new();
    let mut seed: u32 = 12345;
    for _ in 0..n * n * n {
        seed = seed.wrapping_mul(1664525).wrapping_add(1013904223);
        values.push(((seed >> 16) % 21) as i32 - 10);
    }
    let g = lattice(n, n, n, &values);
    let s = extract(&g, 0);

    // index validity
    assert_eq!(s.indices.len() % 3, 0);
    assert!(s.indices.iter().all(|&i| (i as usize) < s.crossings.len()));

    // no two vertices on the same edge
    for i in 0..s.crossings.len() {
        for j in 0..i {
            assert_ne!(s.crossings[i].key, s.crossings[j].key);
        }
    }

    // every vertex sits on an edge that changes sides, between the ends of that edge
    for c in &s.crossings {
        let a = (c.key.ix, c.key.iy, c.key.iz);
        let b = end_of(&c.key);
        let from = (c.from.ix, c.from.iy, c.from.iz);
        let to = (c.to.ix, c.to.iy, c.to.iz);
        assert!((from == a && to == b) || (from == b && to == a));
        let below_a = value_at(&values, n, a.0, a.1, a.2) < 0;
        let below_b = value_at(&values, n, b.0, b.1, b.2) < 0;
        assert_ne!(below_a, below_b);
    }

    // every edge that changes sides has a vertex
    let mut expected = 0;
    for iz in 0..n {
        for iy in 0..n {
            for ix in 0..n {
                let here = value_at(&values, n, ix, iy, iz) < 0;
                if ix + 1 < n && (value_at(&values, n, ix + 1, iy, iz) < 0) != here {
                    expected += 1;
                    assert!(s.crossings.iter().any(|c| c.key == key(0, ix, iy, iz)));
                }
                if iy + 1 < n && (value_at(&values, n, ix, iy + 1, iz) < 0) != here {
                    expected += 1;
                    assert!(s.crossings.iter().any(|c| c.key == key(1, ix, iy, iz)));
                }
                if iz + 1 < n && (value_at(&values, n, ix, iy, iz + 1) < 0) != here {
                    expected += 1;
                    assert!(s.crossings.iter().any(|c| c.key == key(2, ix, iy, iz)));
                }
            }
        }
    }
    assert_eq!(s.crossings.len(), expected);
}

#[test]
fn extraction_is_repeatable() {
    let values: Vec<i32> = (0..64).map(|i| ((i * 7 + 3) % 11) as i32 - 5).collect();
    let g = lattice(4, 4, 4, &values);
    let a = extract(&g, 0);
    let b = extract(&g, 0);
    assert_eq!(a.crossings, b.crossings);
    assert_eq!(a.indices, b.indices);
    assert!(!a.crossings.is_empty());
}

#[test]
fn a_placed_surface_becomes_a_mesh() {
    let g = lattice(2, 2, 2, &[-1, 1, 1, 1, 1, 1, 1, 1]);
    let s = extract(&g, 0);
    let vertices: Vec<u8> = vec![1, 2, 3, 4, 5, 6, 7, 8, 9];
    let normals: Vec<u8> = vec![9, 8, 7, 6, 5, 4, 3, 2, 1];
    let m = s.into_mesh(vertices, normals);
    assert!(m.is_well_formed());
    assert_eq!(m.vertices, vec![1, 2, 3, 4, 5, 6, 7, 8, 9]);
    assert_eq!(m.normals, vec![9, 8, 7, 6, 5, 4, 3, 2, 1]);
    assert_eq!(m.indices, vec![0, 2, 1]);
}
