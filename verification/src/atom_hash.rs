//! A spatial hash of atoms.
//!
//! Space is cut into cubic cells, and every atom lies in the cell that holds
//! its center. The hash keeps, for every cell, the atoms in it, so that the
//! atoms near a point are found by looking at the point's cell and the 26
//! cells around it.

use crate::rank::is_positive_finite;
use crate::rank::positive_finite;
use std::collections::HashMap;
use vstd::prelude::*;

verus! {

/// A cell of the hash, by its integer coordinates.
#[derive(Clone, Copy, Debug, PartialEq, Eq, Structural)]
pub struct CellId {
    pub ix: i32,
    pub iy: i32,
    pub iz: i32,
}

/// One number per cell.
pub open spec fn cell_code(ix: int, iy: int, iz: int) -> int {
    ((ix + 0x8000_0000) * 0x1_0000_0000 + (iy + 0x8000_0000)) * 0x1_0000_0000 + (iz
        + 0x8000_0000)
}

/// The atoms among the first `n` whose cell is `(ix, iy, iz)`, in rising
/// order.
pub open spec fn bucket(atoms: Seq<CellId>, ix: int, iy: int, iz: int, n: int) -> Seq<usize>
    decreases n,
{
    if n <= 0 {
        Seq::empty()
    } else {
        let prev = bucket(atoms, ix, iy, iz, n - 1);
        let a = atoms[n - 1];
        if a.ix == ix && a.iy == iy && a.iz == iz {
            prev.push((n - 1) as usize)
        } else {
            prev
        }
    }
}

/// The cell that comes `n`-th when the 27 cells around `(ix, iy, iz)` are
/// walked with `z` fastest, then `y`, then `x`.
pub open spec fn neighbour(ix: int, iy: int, iz: int, n: int) -> (int, int, int) {
    (ix + n / 9 - 1, iy + (n / 3) % 3 - 1, iz + n % 3 - 1)
}

/// The atoms in the first `n` of the 27 cells around `(ix, iy, iz)`, cell
/// after cell.
pub open spec fn neighbours(atoms: Seq<CellId>, ix: int, iy: int, iz: int, n: int) -> Seq<usize>
    decreases n,
{
    if n <= 0 {
        Seq::empty()
    } else {
        let c = neighbour(ix, iy, iz, n - 1);
        neighbours(atoms, ix, iy, iz, n - 1) + bucket(atoms, c.0, c.1, c.2, atoms.len() as int)
    }
}

/// The map holds exactly the buckets of the first `n` atoms that are not
/// empty.
spec fn holds(map: Map<u128, Vec<usize>>, atoms: Seq<CellId>, n: int) -> bool {
    forall|ix: i32, iy: i32, iz: i32|
        {
            let code = #[trigger] cell_code(ix as int, iy as int, iz as int) as u128;
            &&& map.contains_key(code) <==> bucket(atoms, ix as int, iy as int, iz as int, n).len()
                > 0
            &&& map.contains_key(code) ==> map[code]@ == bucket(
                atoms,
                ix as int,
                iy as int,
                iz as int,
                n,
            )
        }
}

/// No atom lies in a cell whose coordinates are not 32-bit numbers.
proof fn lemma_bucket_off_range(atoms: Seq<CellId>, ix: int, iy: int, iz: int, n: int)
    requires
        !(i32::MIN <= ix <= i32::MAX && i32::MIN <= iy <= i32::MAX && i32::MIN <= iz <= i32::MAX),
    ensures
        bucket(atoms, ix, iy, iz, n) == Seq::<usize>::empty(),
    decreases n,
{
    if n > 0 {
        lemma_bucket_off_range(atoms, ix, iy, iz, n - 1);
    }
}

/// The atoms of a molecule, bucketed by cell.
pub struct AtomHash {
    cells: HashMap<u128, Vec<usize>>,
    atoms: Ghost<Seq<CellId>>,
}

impl View for AtomHash {
    type V = Seq<CellId>;

    /// The cell of every atom, by atom number.
    closed spec fn view(&self) -> Seq<CellId> {
        self.atoms@
    }
}

impl AtomHash {
    /// The buckets hold exactly the atoms of their cells.
    pub closed spec fn wf(&self) -> bool {
        holds(self.cells@, self.atoms@, self.atoms@.len() as int)
    }
}

fn code_of(ix: i32, iy: i32, iz: i32) -> (code: u128)
    ensures
        code == cell_code(ix as int, iy as int, iz as int),
{
    let a = (ix as i64 + 0x8000_0000) as u128;
    let b = (iy as i64 + 0x8000_0000) as u128;
    let c = (iz as i64 + 0x8000_0000) as u128;
    (a * 0x1_0000_0000 + b) * 0x1_0000_0000 + c
}

/// Buckets the atoms by cell; `cells[i]` is the cell that holds the center
/// of atom `i`, and `cell_size` is the rank of the cells' edge length. There
/// is no hash when the edge length is not a finite number above zero; the
/// atoms are then to be gone through one by one.
pub fn build_atom_hash(cells: &Vec<CellId>, cell_size: i32) -> (r: Option<AtomHash>)
    ensures
        r is Some <==> is_positive_finite(cell_size),
        match r {
            Some(h) => h.wf() && h@ == cells@,
            None => true,
        },
{
    broadcast use vstd::std_specs::hash::group_hash_axioms;

    if !positive_finite(cell_size) {
        return None;
    }
    let mut map: HashMap<u128, Vec<usize>> = HashMap::new();
    let mut i: usize = 0;
    while i < cells.len()
        invariant
            i <= cells@.len(),
            holds(map@, cells@, i as int),
        decreases cells@.len() - i,
    {
        let c = cells[i];
        let code = code_of(c.ix, c.iy, c.iz);
        let ghost before = map@;
        let taken = map.remove(&code);
        let mut list = match taken {
            Some(l) => l,
            None => Vec::new(),
        };
        list.push(i);
        map.insert(code, list);
        proof {
            assert forall|ix: i32, iy: i32, iz: i32|
                {
                    let cd = #[trigger] cell_code(ix as int, iy as int, iz as int) as u128;
                    &&& map@.contains_key(cd) <==> bucket(
                        cells@,
                        ix as int,
                        iy as int,
                        iz as int,
                        i + 1,
                    ).len() > 0
                    &&& map@.contains_key(cd) ==> map@[cd]@ == bucket(
                        cells@,
                        ix as int,
                        iy as int,
                        iz as int,
                        i + 1,
                    )
                } by {
                let cd = cell_code(ix as int, iy as int, iz as int) as u128;
                assert(before.contains_key(cd) <==> bucket(
                    cells@,
                    ix as int,
                    iy as int,
                    iz as int,
                    i as int,
                ).len() > 0);
                if cd == code {
                    assert(ix == c.ix && iy == c.iy && iz == c.iz);
                } else {
                    assert(!(ix == c.ix && iy == c.iy && iz == c.iz));
                }
            }
        }
        i += 1;
    }
    Some(AtomHash { cells: map, atoms: Ghost(cells@) })
}

/// The atoms in the 27 cells around the cell `(ix, iy, iz)`: cell after cell
/// with `z` fastest, each cell's atoms in rising order.
pub fn query_atom_hash(h: &AtomHash, ix: i32, iy: i32, iz: i32) -> (found: Vec<usize>)
    requires
        h.wf(),
    ensures
        found@ == neighbours(h@, ix as int, iy as int, iz as int, 27),
{
    broadcast use vstd::std_specs::hash::group_hash_axioms;

    let mut found: Vec<usize> = Vec::new();
    let mut n: usize = 0;
    while n < 27
        invariant
            n <= 27,
            h.wf(),
            found@ == neighbours(h@, ix as int, iy as int, iz as int, n as int),
        decreases 27 - n,
    {
        let x = ix as i64 + (n / 9) as i64 - 1;
        let y = iy as i64 + ((n / 3) % 3) as i64 - 1;
        let z = iz as i64 + (n % 3) as i64 - 1;
        let ghost so_far = found@;
        let ghost want = bucket(h@, x as int, y as int, z as int, h@.len() as int);
        if -0x8000_0000 <= x && x <= 0x7fff_ffff && -0x8000_0000 <= y && y <= 0x7fff_ffff
            && -0x8000_0000 <= z && z <= 0x7fff_ffff {
            let code = code_of(x as i32, y as i32, z as i32);
            assert(code == cell_code(x as i32 as int, y as i32 as int, z as i32 as int) as u128);
            match h.cells.get(&code) {
                Some(list) => {
                    let mut j: usize = 0;
                    while j < list.len()
                        invariant
                            j <= list@.len(),
                            list@ == want,
                            found@ == so_far + want.subrange(0, j as int),
                        decreases list@.len() - j,
                    {
                        found.push(list[j]);
                        assert(want.subrange(0, j + 1) == want.subrange(0, j as int).push(
                            want[j as int],
                        ));
                        j += 1;
                    }
                    assert(want.subrange(0, want.len() as int) == want);
                },
                None => {
                    assert(want.len() == 0);
                    assert(so_far + want == so_far);
                },
            }
        } else {
            proof {
                lemma_bucket_off_range(h@, x as int, y as int, z as int, h@.len() as int);
                assert(so_far + want == so_far);
            }
        }
        n += 1;
    }
    found
}

/// A bucket holds exactly the atoms of its cell.
pub proof fn lemma_bucket_members(atoms: Seq<CellId>, ix: int, iy: int, iz: int, n: int, i: usize)
    requires
        0 <= n <= atoms.len() <= usize::MAX,
    ensures
        bucket(atoms, ix, iy, iz, n).contains(i) <==> (i < n && atoms[i as int].ix == ix
            && atoms[i as int].iy == iy && atoms[i as int].iz == iz),
    decreases n,
{
    if n > 0 {
        lemma_bucket_members(atoms, ix, iy, iz, n - 1, i);
        let prev = bucket(atoms, ix, iy, iz, n - 1);
        let cur = bucket(atoms, ix, iy, iz, n);
        if cur.contains(i) {
            let j = choose|j: int| 0 <= j < cur.len() && cur[j] == i;
            if j < prev.len() {
                assert(prev[j] == i);
            }
        }
        if prev.contains(i) {
            let j = choose|j: int| 0 <= j < prev.len() && prev[j] == i;
            assert(cur[j] == i);
        }
        if i == n - 1 && atoms[i as int].ix == ix && atoms[i as int].iy == iy && atoms[i as int].iz
            == iz {
            assert(cur[prev.len() as int] == i);
        }
    }
}

/// Whether atom `i` lies in one of the first `n` cells around `(ix, iy, iz)`.
pub open spec fn in_first_cells(atoms: Seq<CellId>, ix: int, iy: int, iz: int, n: int, i: int) -> bool {
    exists|m: int|
        0 <= m < n && #[trigger] neighbour(ix, iy, iz, m) == (
            atoms[i].ix as int,
            atoms[i].iy as int,
            atoms[i].iz as int,
        )
}

proof fn lemma_neighbours_members(atoms: Seq<CellId>, ix: int, iy: int, iz: int, n: int, i: usize)
    requires
        i < atoms.len() <= usize::MAX,
        0 <= n,
    ensures
        neighbours(atoms, ix, iy, iz, n).contains(i) <==> in_first_cells(
            atoms,
            ix,
            iy,
            iz,
            n,
            i as int,
        ),
    decreases n,
{
    if n > 0 {
        lemma_neighbours_members(atoms, ix, iy, iz, n - 1, i);
        let c = neighbour(ix, iy, iz, n - 1);
        let own = (atoms[i as int].ix as int, atoms[i as int].iy as int, atoms[i as int].iz as int);
        lemma_bucket_members(atoms, c.0, c.1, c.2, atoms.len() as int, i);
        let prev = neighbours(atoms, ix, iy, iz, n - 1);
        let last = bucket(atoms, c.0, c.1, c.2, atoms.len() as int);
        let cur = neighbours(atoms, ix, iy, iz, n);
        assert(cur == prev + last);
        if cur.contains(i) {
            let j = choose|j: int| 0 <= j < cur.len() && cur[j] == i;
            if j < prev.len() {
                assert(prev[j] == i);
                let m = choose|m: int| 0 <= m < n - 1 && #[trigger] neighbour(ix, iy, iz, m) == own;
                assert(neighbour(ix, iy, iz, m) == own);
            } else {
                assert(last[j - prev.len()] == i);
                assert(neighbour(ix, iy, iz, n - 1) == own);
            }
        }
        if in_first_cells(atoms, ix, iy, iz, n, i as int) {
            let m = choose|m: int| 0 <= m < n && #[trigger] neighbour(ix, iy, iz, m) == own;
            if m < n - 1 {
                assert(in_first_cells(atoms, ix, iy, iz, n - 1, i as int));
                let j = choose|j: int| 0 <= j < prev.len() && prev[j] == i;
                assert(cur[j] == i);
            } else {
                let j = choose|j: int| 0 <= j < last.len() && last[j] == i;
                assert(cur[prev.len() + j] == i);
            }
        }
    }
}

/// A query finds exactly the atoms whose cell is at most one step away
/// along every axis.
pub proof fn lemma_query_finds_the_atoms_around(
    atoms: Seq<CellId>,
    ix: int,
    iy: int,
    iz: int,
    i: usize,
)
    requires
        i < atoms.len() <= usize::MAX,
    ensures
        neighbours(atoms, ix, iy, iz, 27).contains(i) <==> {
            &&& ix - 1 <= atoms[i as int].ix <= ix + 1
            &&& iy - 1 <= atoms[i as int].iy <= iy + 1
            &&& iz - 1 <= atoms[i as int].iz <= iz + 1
        },
{
    lemma_neighbours_members(atoms, ix, iy, iz, 27, i);
    let a = atoms[i as int];
    if ix - 1 <= a.ix <= ix + 1 && iy - 1 <= a.iy <= iy + 1 && iz - 1 <= a.iz <= iz + 1 {
        let m = (a.ix - ix + 1) * 9 + (a.iy - iy + 1) * 3 + (a.iz - iz + 1);
        assert(neighbour(ix, iy, iz, m) == (a.ix as int, a.iy as int, a.iz as int));
    }
}

} // verus!
