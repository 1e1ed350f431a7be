use ses::atom_hash::{build_atom_hash, query_atom_hash, AtomHash, CellId};
use ses::rank::RANK_INFINITY;

fn hash(cells: &Vec<CellId>) -> AtomHash {
    match build_atom_hash(cells, 0x4000_0000) {
        Some(h) => h,
        None => panic!("no hash"),
    }
}

fn cell(ix: i32, iy: i32, iz: i32) -> CellId {
    CellId { ix, iy, iz }
}

#[test]
fn query_returns_the_atoms_of_the_27_cells_around() {
    let atoms = vec![
        cell(0, 0, 0),
        cell(1, 0, 0),
        cell(2, 0, 0),
        cell(0, 0, 0),
        cell(-1, -1, -1),
        cell(0, 5, 0),
    ];
    let h = hash(&atoms);
    // cells are walked with z fastest, then y, then x; atoms of a cell in rising order
    assert_eq!(query_atom_hash(&h, 0, 0, 0), vec![4, 0, 3, 1]);
    assert_eq!(query_atom_hash(&h, 1, 0, 0), vec![0, 3, 1, 2]);
    assert_eq!(query_atom_hash(&h, 3, 0, 0), vec![2]);
    assert_eq!(query_atom_hash(&h, 0, 4, 1), vec![5]);
    assert_eq!(query_atom_hash(&h, 9, 9, 9), Vec::<usize>::new());
}

#[test]
fn query_of_an_empty_hash_is_empty() {
    let h = hash(&Vec::new());
    assert_eq!(query_atom_hash(&h, 0, 0, 0), Vec::<usize>::new());
}

#[test]
fn query_at_the_end_of_the_integer_range() {
    let atoms = vec![cell(i32::MAX, i32::MIN, 0), cell(i32::MAX - 1, i32::MIN + 1, 1)];
    let h = hash(&atoms);
    assert_eq!(query_atom_hash(&h, i32::MAX, i32::MIN, 0), vec![1, 0]);
    assert_eq!(query_atom_hash(&h, i32::MIN, i32::MIN, 0), Vec::<usize>::new());
}

#[test]
fn every_atom_is_found_from_its_own_cell_and_its_neighbours() {
    let mut atoms = Vec::new();
    for i in 0..40i32 {
        atoms.push(cell(i % 4, (i / 4) % 3, i % 5));
    }
    let h = hash(&atoms);
    for x in -2..6 {
        for y in -2..5 {
            for z in -2..7 {
                let mut found = query_atom_hash(&h, x, y, z);
                found.sort();
                let expected: Vec<usize> = (0..atoms.len())
                    .filter(|&i| {
                        (atoms[i].ix - x).abs() <= 1
                            && (atoms[i].iy - y).abs() <= 1
                            && (atoms[i].iz - z).abs() <= 1
                    })
                    .collect();
                assert_eq!(found, expected);
            }
        }
    }
}

#[test]
fn there_is_no_hash_without_a_usable_cell_size() {
    let atoms = vec![cell(0, 0, 0)];
    assert!(build_atom_hash(&atoms, 0).is_none());
    assert!(build_atom_hash(&atoms, -5).is_none());
    assert!(build_atom_hash(&atoms, RANK_INFINITY).is_none());
    assert!(build_atom_hash(&atoms, i32::MAX).is_none());
    assert!(build_atom_hash(&atoms, 1).is_some());
    assert!(build_atom_hash(&atoms, RANK_INFINITY - 1).is_some());
}
