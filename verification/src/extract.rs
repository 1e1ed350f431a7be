//! Surface extraction: marching cubes with one vertex per lattice edge.
//!
//! The lattice is walked cell by cell, `x` fastest, then `y`, then `z`. In
//! each cell the twelve edges are looked at in order. An edge that the
//! surface crosses gets a vertex the first time it is met; a cell that meets
//! it later reuses that vertex. The cell's triangles then name their corners
//! by the vertices of the edges they sit on.
//!
//! What comes out is the surface's topology: for every vertex the lattice
//! edge that carries it, with the order of its end points, and the triangle
//! list. Placing a vertex on its edge is left to the caller.

use crate::grid::cell_coords;
use crate::grid::cell_index;
use crate::grid::lemma_coords_of_index;
use crate::grid::lemma_index_of_coords;
use crate::grid::DistanceGrid;
use crate::grid::GridView;
use crate::mesh::Mesh;
use crate::tables::bit;
use crate::tables::config_of;
use crate::tables::edge_marked;
use crate::tables::lemma_config_bits;
use crate::tables::lemma_corner_offsets;
use crate::tables::lemma_edge_corners;
use crate::tables::lemma_edge_table_marks_crossed_edges;
use crate::tables::lemma_tri_table_names_marked_edges;
use crate::tables::nibble;
use crate::tables::tri_entry;
use crate::tables::CORNER_OFFSETS;
use crate::tables::EDGE_CORNERS;
use crate::tables::EDGE_TABLE;
use crate::tables::TRI_TABLE;
use std::collections::HashMap;
use vstd::prelude::*;

verus! {

/// A point of the lattice.
#[derive(Clone, Copy, Debug, PartialEq, Eq, Structural)]
pub struct LatticePoint {
    pub ix: usize,
    pub iy: usize,
    pub iz: usize,
}

/// The name of a lattice edge: the edge along `axis` (0, 1 or 2 for `x`, `y`
/// or `z`) that starts at the lattice point `(ix, iy, iz)`.
#[derive(Clone, Copy, Debug, PartialEq, Eq, Hash, Structural)]
pub struct EdgeKey {
    pub axis: u8,
    pub ix: usize,
    pub iy: usize,
    pub iz: usize,
}

/// A mesh vertex, by where it sits: on the lattice edge `key`, between the
/// lattice points `from` and `to`, which are the edge's two ends in the order
/// in which the vertex is to be interpolated.
#[derive(Clone, Copy, Debug, PartialEq, Eq, Structural)]
pub struct Crossing {
    pub key: EdgeKey,
    pub from: LatticePoint,
    pub to: LatticePoint,
}

/// The topology of an extracted surface: its vertices, each on a lattice
/// edge, and its triangles as vertex numbers in threes.
pub struct Surface {
    pub crossings: Vec<Crossing>,
    pub indices: Vec<u32>,
}

impl Surface {
    /// Triangles are whole and name existing vertices.
    pub open spec fn wf(&self) -> bool {
        &&& self.indices@.len() % 3 == 0
        &&& forall|j: int|
            0 <= j < self.indices@.len() ==> (#[trigger] self.indices@[j]) < self.crossings@.len()
    }

    /// Makes a mesh of the surface once its vertices have been placed:
    /// `vertices` and `normals` hold three scalars for every vertex, in the
    /// order of the vertices.
    pub fn into_mesh<S>(self, vertices: Vec<S>, normals: Vec<S>) -> (m: Mesh<S>)
        requires
            self.wf(),
            vertices@.len() == 3 * self.crossings@.len(),
            normals@.len() == vertices@.len(),
        ensures
            m.wf(),
            m.vertex_count() == self.crossings@.len(),
            m.vertices == vertices,
            m.normals == normals,
            m.indices == self.indices,
    {
        Mesh { vertices, normals, indices: self.indices }
    }
}

/// Number of cells of the lattice.
pub open spec fn cell_count(g: GridView) -> int {
    (g.nx - 1) * (g.ny - 1) * (g.nz - 1)
}

/// Corner `j` of cell `c`, cells being numbered as they are walked.
pub open spec fn corner(g: GridView, c: int, j: int) -> LatticePoint {
    let o = cell_coords(g.nx - 1, g.ny - 1, c);
    LatticePoint {
        ix: (o.0 + CORNER_OFFSETS[j][0]) as usize,
        iy: (o.1 + CORNER_OFFSETS[j][1]) as usize,
        iz: (o.2 + CORNER_OFFSETS[j][2]) as usize,
    }
}

/// Whether the field at a lattice point lies strictly below the isovalue.
pub open spec fn below(g: GridView, iso: i32, p: LatticePoint) -> bool {
    g.at(p.ix as int, p.iy as int, p.iz as int) < iso
}

/// The configuration of cell `c`: bit `j` tells whether corner `j` is below.
pub open spec fn config(g: GridView, iso: i32, c: int) -> int {
    config_of(Seq::new(8, |j: int| below(g, iso, corner(g, c, j))))
}

/// The name of the lattice edge between two neighbouring lattice points.
pub open spec fn key_between(a: LatticePoint, b: LatticePoint) -> EdgeKey {
    if a.ix != b.ix {
        EdgeKey { axis: 0, ix: if a.ix < b.ix { a.ix } else { b.ix }, iy: a.iy, iz: a.iz }
    } else if a.iy != b.iy {
        EdgeKey { axis: 1, ix: a.ix, iy: if a.iy < b.iy { a.iy } else { b.iy }, iz: a.iz }
    } else {
        EdgeKey { axis: 2, ix: a.ix, iy: a.iy, iz: if a.iz < b.iz { a.iz } else { b.iz } }
    }
}

/// Edge `e` of cell `c` as a vertex site.
pub open spec fn site(g: GridView, c: int, e: int) -> Crossing {
    let a = corner(g, c, EDGE_CORNERS[e][0] as int);
    let b = corner(g, c, EDGE_CORNERS[e][1] as int);
    Crossing { key: key_between(a, b), from: a, to: b }
}

/// Slot `k` stands for edge `k % 12` of cell `k / 12`. The slot is marked
/// when the edge table marks that edge in the cell's configuration.
pub open spec fn slot_marked(g: GridView, iso: i32, k: int) -> bool {
    bit(EDGE_TABLE[config(g, iso, k / 12)] as u64, (k % 12) as u64)
}

/// The vertex site that slot `k` stands for.
pub open spec fn slot_site(g: GridView, k: int) -> Crossing {
    site(g, k / 12, k % 12)
}

/// Whether some vertex of `s` sits on the edge `key`.
pub open spec fn has_key(s: Seq<Crossing>, key: EdgeKey) -> bool {
    exists|i: int| 0 <= i < s.len() && (#[trigger] s[i]).key == key
}

/// The vertices made by the first `k` slots: a marked slot makes a vertex
/// unless an earlier slot already made one on the same lattice edge.
pub open spec fn crossings_upto(g: GridView, iso: i32, k: int) -> Seq<Crossing>
    decreases k,
{
    if k <= 0 {
        Seq::empty()
    } else {
        let prev = crossings_upto(g, iso, k - 1);
        if slot_marked(g, iso, k - 1) && !has_key(prev, slot_site(g, k - 1).key) {
            prev.push(slot_site(g, k - 1))
        } else {
            prev
        }
    }
}

/// Number of triangles in a row of the triangle table.
pub open spec fn tri_count(row: u64) -> int {
    if nibble(row, 0) == 15 {
        0
    } else if nibble(row, 3) == 15 {
        1
    } else if nibble(row, 6) == 15 {
        2
    } else if nibble(row, 9) == 15 {
        3
    } else if nibble(row, 12) == 15 {
        4
    } else {
        5
    }
}

/// The lattice edges under the corners of the first `n` triangles of cell
/// `c`, in the order of the triangle table.
pub open spec fn cell_triangle_keys(g: GridView, iso: i32, c: int, n: int) -> Seq<EdgeKey>
    decreases n,
{
    if n <= 0 {
        Seq::empty()
    } else {
        let row = TRI_TABLE[config(g, iso, c)];
        let t = (3 * (n - 1)) as u64;
        cell_triangle_keys(g, iso, c, n - 1).push(
            site(g, c, nibble(row, t) as int).key,
        ).push(site(g, c, nibble(row, (t + 1) as u64) as int).key).push(
            site(g, c, nibble(row, (t + 2) as u64) as int).key,
        )
    }
}

/// The lattice edges under the triangle corners of the first `c` cells.
pub open spec fn triangle_keys_upto(g: GridView, iso: i32, c: int) -> Seq<EdgeKey>
    decreases c,
{
    if c <= 0 {
        Seq::empty()
    } else {
        triangle_keys_upto(g, iso, c - 1) + cell_triangle_keys(
            g,
            iso,
            c - 1,
            tri_count(TRI_TABLE[config(g, iso, c - 1)]),
        )
    }
}

/// The vertices of the surface at `iso`, in the order in which they are made.
pub open spec fn surface_crossings(g: GridView, iso: i32) -> Seq<Crossing> {
    crossings_upto(g, iso, 12 * cell_count(g))
}

/// For each triangle corner of the surface at `iso`, the lattice edge that
/// carries it.
pub open spec fn surface_triangle_keys(g: GridView, iso: i32) -> Seq<EdgeKey> {
    triangle_keys_upto(g, iso, cell_count(g))
}

/// The most vertices a surface can have: vertex numbers are 32 bits wide.
pub open spec fn max_vertices() -> int {
    0x1_0000_0000
}

/// An edge key names an edge that starts on the lattice.
pub open spec fn valid_key(g: GridView, key: EdgeKey) -> bool {
    key.axis < 3 && g.contains(key.ix as int, key.iy as int, key.iz as int)
}

/// One number per lattice edge: three times the index of its start, plus its
/// axis.
pub open spec fn key_code(g: GridView, key: EdgeKey) -> int {
    g.index(key.ix as int, key.iy as int, key.iz as int) * 3 + key.axis
}

/// Distinct edges have distinct codes.
proof fn lemma_key_code_injective(g: GridView, a: EdgeKey, b: EdgeKey)
    requires
        g.wf(),
        valid_key(g, a),
        valid_key(g, b),
        key_code(g, a) == key_code(g, b),
    ensures
        a == b,
        0 <= key_code(g, a) < 3 * g.total(),
{
    lemma_index_of_coords(
        g.nx as int,
        g.ny as int,
        g.nz as int,
        a.ix as int,
        a.iy as int,
        a.iz as int,
    );
    lemma_index_of_coords(
        g.nx as int,
        g.ny as int,
        g.nz as int,
        b.ix as int,
        b.iy as int,
        b.iz as int,
    );
}

/// No axis has more points than the whole lattice.
proof fn lemma_dims_fit(g: GridView)
    requires
        g.wf(),
    ensures
        g.nx <= g.total(),
        g.ny <= g.total(),
        g.nz <= g.total(),
        g.nx * g.ny <= g.total(),
        cell_count(g) <= g.total(),
        (g.nx - 1) * (g.ny - 1) <= g.total(),
        0 <= cell_count(g),
        0 <= (g.nx - 1) * (g.ny - 1),
{
    let (nx, ny, nz) = (g.nx as int, g.ny as int, g.nz as int);
    assert(nx <= nx * ny * nz && ny <= nx * ny * nz && nz <= nx * ny * nz && nx * ny <= nx * ny
        * nz && 0 <= (nx - 1) * (ny - 1) * (nz - 1) <= nx * ny * nz && 0 <= (nx - 1) * (ny - 1)
        <= nx * ny * nz) by (nonlinear_arith)
        requires
            nx >= 1,
            ny >= 1,
            nz >= 1,
    ;
}

/// The corners of a cell are lattice points, one step at most from the
/// cell's origin.
proof fn lemma_corner_on_lattice(g: GridView, c: int, j: int)
    requires
        g.wf(),
        0 <= c < cell_count(g),
        0 <= j < 8,
    ensures
        ({
            let o = cell_coords(g.nx - 1, g.ny - 1, c);
            let p = corner(g, c, j);
            &&& 0 <= o.0 < g.nx - 1
            &&& 0 <= o.1 < g.ny - 1
            &&& 0 <= o.2 < g.nz - 1
            &&& p.ix == o.0 + CORNER_OFFSETS[j][0]
            &&& p.iy == o.1 + CORNER_OFFSETS[j][1]
            &&& p.iz == o.2 + CORNER_OFFSETS[j][2]
            &&& CORNER_OFFSETS[j][0] <= 1
            &&& CORNER_OFFSETS[j][1] <= 1
            &&& CORNER_OFFSETS[j][2] <= 1
            &&& g.contains(p.ix as int, p.iy as int, p.iz as int)
        }),
{
    let (mx, my, mz) = (g.nx - 1, g.ny - 1, g.nz - 1);
    assert(mx >= 1 && my >= 1 && mz >= 1) by (nonlinear_arith)
        requires
            mx >= 0,
            my >= 0,
            mz >= 0,
            0 < mx * my * mz,
    ;
    lemma_coords_of_index(mx, my, mz, c);
    lemma_corner_offsets(j);
    lemma_dims_fit(g);
}

/// The site of an edge of a cell: its ends are corners of the cell, one
/// lattice step apart, and its key is valid.
proof fn lemma_site_on_lattice(g: GridView, c: int, e: int)
    requires
        g.wf(),
        0 <= c < cell_count(g),
        0 <= e < 12,
    ensures
        valid_key(g, site(g, c, e).key),
        EDGE_CORNERS[e][0] < 8,
        EDGE_CORNERS[e][1] < 8,
{
    lemma_edge_corners(e);
    lemma_corner_on_lattice(g, c, EDGE_CORNERS[e][0] as int);
    lemma_corner_on_lattice(g, c, EDGE_CORNERS[e][1] as int);
}

/// The cache knows every vertex by the code of its edge, and nothing else.
spec fn mirrors(g: GridView, crossings: Seq<Crossing>, cache: Map<u128, u32>) -> bool {
    &&& crossings.len() <= max_vertices()
    &&& forall|i: int| 0 <= i < crossings.len() ==> valid_key(g, (#[trigger] crossings[i]).key)
    &&& forall|i: int|
        0 <= i < crossings.len() ==> {
            &&& cache.contains_key(key_code(g, (#[trigger] crossings[i]).key) as u128)
            &&& cache[key_code(g, crossings[i].key) as u128] == i
        }
    &&& forall|code: u128| #[trigger]
        cache.contains_key(code) ==> {
            &&& cache[code] < crossings.len()
            &&& key_code(g, crossings[cache[code] as int].key) == code
        }
}

/// Every triangle corner names a vertex on the lattice edge it belongs to.
pub open spec fn corners_sit_on(crossings: Seq<Crossing>, indices: Seq<u32>, keys: Seq<EdgeKey>) -> bool {
    &&& indices.len() == keys.len()
    &&& forall|j: int|
        0 <= j < indices.len() ==> {
            &&& (#[trigger] indices[j]) < crossings.len()
            &&& crossings[indices[j] as int].key == keys[j]
        }
}

/// The configuration of the cell at `(cx, cy, cz)`.
fn cube_config(
    grid: &DistanceGrid,
    iso: i32,
    cx: usize,
    cy: usize,
    cz: usize,
    Ghost(c): Ghost<int>,
) -> (ci: usize)
    requires
        grid@.wf(),
        0 <= c < cell_count(grid@),
        (cx as int, cy as int, cz as int) == cell_coords(grid@.nx - 1, grid@.ny - 1, c),
    ensures
        ci == config(grid@, iso, c),
        ci < 256,
{
    proof {
        assert forall|j: int| 0 <= j < 8 implies grid@.contains(
            corner(grid@, c, j).ix as int,
            corner(grid@, c, j).iy as int,
            corner(grid@, c, j).iz as int,
        ) by {
            lemma_corner_on_lattice(grid@, c, j);
        }
        lemma_corner_on_lattice(grid@, c, 0);
        lemma_corner_on_lattice(grid@, c, 1);
        lemma_corner_on_lattice(grid@, c, 2);
        lemma_corner_on_lattice(grid@, c, 3);
        lemma_corner_on_lattice(grid@, c, 4);
        lemma_corner_on_lattice(grid@, c, 5);
        lemma_corner_on_lattice(grid@, c, 6);
        lemma_corner_on_lattice(grid@, c, 7);
        lemma_config_bits(Seq::new(8, |j: int| below(grid@, iso, corner(grid@, c, j))), 0);
    }
    let mut ci: usize = 0;
    if grid.value(cx, cy, cz) < iso {
        ci += 1;
    }
    if grid.value(cx + 1, cy, cz) < iso {
        ci += 2;
    }
    if grid.value(cx + 1, cy + 1, cz) < iso {
        ci += 4;
    }
    if grid.value(cx, cy + 1, cz) < iso {
        ci += 8;
    }
    if grid.value(cx, cy, cz + 1) < iso {
        ci += 16;
    }
    if grid.value(cx + 1, cy, cz + 1) < iso {
        ci += 32;
    }
    if grid.value(cx + 1, cy + 1, cz + 1) < iso {
        ci += 64;
    }
    if grid.value(cx, cy + 1, cz + 1) < iso {
        ci += 128;
    }
    ci
}

/// Finds or makes the vertex on edge `e` of the cell at `(cx, cy, cz)`.
/// Gives `None` when a vertex is due and the vertex numbers have run out.
fn visit_edge(
    grid: &DistanceGrid,
    cx: usize,
    cy: usize,
    cz: usize,
    e: usize,
    Ghost(iso): Ghost<i32>,
    Ghost(c): Ghost<int>,
    crossings: &mut Vec<Crossing>,
    cache: &mut HashMap<u128, u32>,
) -> (r: Option<u32>)
    requires
        grid@.wf(),
        0 <= c < cell_count(grid@),
        (cx as int, cy as int, cz as int) == cell_coords(grid@.nx - 1, grid@.ny - 1, c),
        e < 12,
        slot_marked(grid@, iso, 12 * c + e),
        old(crossings)@ == crossings_upto(grid@, iso, 12 * c + e),
        mirrors(grid@, old(crossings)@, old(cache)@),
    ensures
        match r {
            Some(v) => {
                &&& final(crossings)@ == crossings_upto(grid@, iso, 12 * c + e + 1)
                &&& mirrors(grid@, final(crossings)@, final(cache)@)
                &&& v < final(crossings)@.len()
                &&& final(crossings)@[v as int].key == site(grid@, c, e as int).key
            },
            None => crossings_upto(grid@, iso, 12 * c + e + 1).len() > max_vertices(),
        },
{
    broadcast use vstd::std_specs::hash::group_hash_axioms;

    let ghost g = grid@;
    let ghost k = 12 * c + e;
    proof {
        lemma_site_on_lattice(g, c, e as int);
        lemma_corner_on_lattice(g, c, EDGE_CORNERS[e as int][0] as int);
        lemma_corner_on_lattice(g, c, EDGE_CORNERS[e as int][1] as int);
        assert(k / 12 == c && k % 12 == e);
    }
    let c0 = EDGE_CORNERS[e][0];
    let c1 = EDGE_CORNERS[e][1];
    let a = LatticePoint {
        ix: cx + CORNER_OFFSETS[c0][0],
        iy: cy + CORNER_OFFSETS[c0][1],
        iz: cz + CORNER_OFFSETS[c0][2],
    };
    let b = LatticePoint {
        ix: cx + CORNER_OFFSETS[c1][0],
        iy: cy + CORNER_OFFSETS[c1][1],
        iz: cz + CORNER_OFFSETS[c1][2],
    };
    let key = if a.ix != b.ix {
        EdgeKey { axis: 0, ix: if a.ix < b.ix { a.ix } else { b.ix }, iy: a.iy, iz: a.iz }
    } else if a.iy != b.iy {
        EdgeKey { axis: 1, ix: a.ix, iy: if a.iy < b.iy { a.iy } else { b.iy }, iz: a.iz }
    } else {
        EdgeKey { axis: 2, ix: a.ix, iy: a.iy, iz: if a.iz < b.iz { a.iz } else { b.iz } }
    };
    assert(a == corner(g, c, EDGE_CORNERS[e as int][0] as int));
    assert(b == corner(g, c, EDGE_CORNERS[e as int][1] as int));
    assert(key == site(g, c, e as int).key);
    let at = grid.index(key.ix, key.iy, key.iz);
    let code: u128 = (at as u128) * 3 + (key.axis as u128);
    assert(code == key_code(g, key));
    let found = cache.get(&code);
    match found {
        Some(v) => {
            let v = *v;
            proof {
                lemma_key_code_injective(g, crossings@[v as int].key, key);
                assert(has_key(crossings@, key));
            }
            Some(v)
        },
        None => {
            proof {
                if has_key(crossings@, key) {
                    let i = choose|i: int| 0 <= i < crossings@.len() && (#[trigger] crossings@[i]).key == key;
                    assert(cache@.contains_key(key_code(g, crossings@[i].key) as u128));
                }
            }
            if crossings.len() > 0xffff_ffff {
                return None;
            }
            let v = crossings.len() as u32;
            let ghost before = crossings@;
            let ghost cache_before = cache@;
            crossings.push(Crossing { key, from: a, to: b });
            cache.insert(code, v);
            proof {
                assert(crossings@ == before.push(slot_site(g, k)));
                assert forall|i: int| 0 <= i < crossings@.len() implies {
                    &&& cache@.contains_key(key_code(g, (#[trigger] crossings@[i]).key) as u128)
                    &&& cache@[key_code(g, crossings@[i].key) as u128] == i
                } by {
                    if i < before.len() {
                        assert(before[i].key == crossings@[i].key);
                        assert(cache_before.contains_key(key_code(g, before[i].key) as u128));
                        if key_code(g, before[i].key) == key_code(g, key) {
                            lemma_key_code_injective(g, before[i].key, key);
                        }
                    }
                }
                assert forall|cd: u128| #[trigger] cache@.contains_key(cd) implies {
                    &&& cache@[cd] < crossings@.len()
                    &&& key_code(g, crossings@[cache@[cd] as int].key) == cd
                } by {
                    if cd != code {
                        assert(cache_before.contains_key(cd));
                    }
                }
                assert forall|i: int| 0 <= i < crossings@.len() implies valid_key(
                    g,
                    (#[trigger] crossings@[i]).key,
                ) by {
                    if i < before.len() {
                        assert(before[i].key == crossings@[i].key);
                    }
                }
            }
            Some(v)
        },
    }
}

/// `new` is `old` with more at the end.
spec fn extends(new: Seq<Crossing>, old: Seq<Crossing>) -> bool {
    &&& old.len() <= new.len()
    &&& forall|i: int| 0 <= i < old.len() ==> #[trigger] new[i] == old[i]
}

proof fn lemma_crossings_extend(g: GridView, iso: i32, k: int, n: int)
    requires
        k <= n,
    ensures
        extends(crossings_upto(g, iso, n), crossings_upto(g, iso, k)),
    decreases n - k,
{
    if k < n {
        lemma_crossings_extend(g, iso, k, n - 1);
    }
}

/// Slots that are not marked make no vertices.
proof fn lemma_unmarked_slots_add_nothing(g: GridView, iso: i32, k: int, n: int)
    requires
        k <= n,
        forall|j: int| k <= j < n ==> !slot_marked(g, iso, j),
    ensures
        crossings_upto(g, iso, n) == crossings_upto(g, iso, k),
    decreases n - k,
{
    if k < n {
        lemma_unmarked_slots_add_nothing(g, iso, k, n - 1);
    }
}

/// The vertices of the marked edges of the cell being walked, as far as its
/// first `e` edges go.
spec fn edges_known(
    g: GridView,
    iso: i32,
    c: int,
    e: int,
    crossings: Seq<Crossing>,
    edge_verts: Seq<u32>,
) -> bool {
    forall|d: int|
        0 <= d < e && #[trigger] slot_marked(g, iso, 12 * c + d) ==> {
            &&& edge_verts[d] < crossings.len()
            &&& crossings[edge_verts[d] as int].key == site(g, c, d).key
        }
}

/// Takes in the cell at `(cx, cy, cz)`: makes the vertices its edges still
/// lack and appends its triangles. Gives `false` when the vertex numbers have
/// run out.
fn visit_cell(
    grid: &DistanceGrid,
    iso: i32,
    cx: usize,
    cy: usize,
    cz: usize,
    Ghost(c): Ghost<int>,
    crossings: &mut Vec<Crossing>,
    cache: &mut HashMap<u128, u32>,
    indices: &mut Vec<u32>,
) -> (ok: bool)
    requires
        grid@.wf(),
        0 <= c < cell_count(grid@),
        (cx as int, cy as int, cz as int) == cell_coords(grid@.nx - 1, grid@.ny - 1, c),
        old(crossings)@ == crossings_upto(grid@, iso, 12 * c),
        mirrors(grid@, old(crossings)@, old(cache)@),
        corners_sit_on(old(crossings)@, old(indices)@, triangle_keys_upto(grid@, iso, c)),
        old(indices)@.len() % 3 == 0,
    ensures
        ok ==> {
            &&& final(crossings)@ == crossings_upto(grid@, iso, 12 * (c + 1))
            &&& mirrors(grid@, final(crossings)@, final(cache)@)
            &&& corners_sit_on(
                final(crossings)@,
                final(indices)@,
                triangle_keys_upto(grid@, iso, c + 1),
            )
            &&& final(indices)@.len() % 3 == 0
        },
        !ok ==> surface_crossings(grid@, iso).len() > max_vertices(),
{
    let ghost g = grid@;
    let ghost base = triangle_keys_upto(g, iso, c);
    let ghost start = crossings@;
    let ghost indices_before = indices@;
    let ci = cube_config(grid, iso, cx, cy, cz, Ghost(c));
    let ghost row = TRI_TABLE[ci as int];
    if EDGE_TABLE[ci] == 0 {
        proof {
            assert forall|j: int| 12 * c <= j < 12 * (c + 1) implies !slot_marked(g, iso, j) by {
                let d = (j % 12) as u64;
                assert(j / 12 == c);
                assert(!bit(0u64, d)) by (bit_vector);
            }
            lemma_unmarked_slots_add_nothing(g, iso, 12 * c, 12 * (c + 1));
            if nibble(row, 0) != 15 {
                lemma_tri_table_names_marked_edges(ci as int, 0, 0);
                let d = nibble(row, 0);
                assert(!bit(0u64, d)) by (bit_vector);
            }
            assert(tri_count(row) == 0);
            assert(base + cell_triangle_keys(g, iso, c, 0) =~= base);
        }
        return true;
    }
    let mut edge_verts: [u32; 12] = [0u32;12];
    let mut e: usize = 0;
    while e < 12
        invariant
            e <= 12,
            g == grid@,
            g.wf(),
            0 <= c < cell_count(g),
            (cx as int, cy as int, cz as int) == cell_coords(g.nx - 1, g.ny - 1, c),
            ci == config(g, iso, c),
            ci < 256,
            crossings@ == crossings_upto(g, iso, 12 * c + e),
            mirrors(g, crossings@, cache@),
            extends(crossings@, start),
            indices@ == indices_before,
            edges_known(g, iso, c, e as int, crossings@, edge_verts@),
        decreases 12 - e,
    {
        let ghost k = 12 * c + e;
        let ghost prev = crossings@;
        let ghost verts_before = edge_verts@;
        assert(k / 12 == c && k % 12 == e);
        if edge_marked(ci, e) {
            match visit_edge(grid, cx, cy, cz, e, Ghost(iso), Ghost(c), crossings, cache) {
                Some(v) => {
                    edge_verts[e] = v;
                },
                None => {
                    proof {
                        lemma_crossings_extend(g, iso, k + 1, 12 * cell_count(g));
                    }
                    return false;
                },
            }
        }
        proof {
            lemma_crossings_extend(g, iso, k, k + 1);
            assert forall|d: int| 0 <= d < e + 1 && #[trigger] slot_marked(g, iso, 12 * c + d) implies {
                &&& edge_verts@[d] < crossings@.len()
                &&& crossings@[edge_verts@[d] as int].key == site(g, c, d).key
            } by {
                if d < e {
                    assert(verts_before[d] < prev.len());
                    assert(crossings@[verts_before[d] as int] == prev[verts_before[d] as int]);
                }
            }
        }
        e += 1;
    }
    let mut n: usize = 0;
    let mut more = true;
    assert(base + cell_triangle_keys(g, iso, c, 0) =~= base);
    assert forall|j: int| 0 <= j < indices@.len() implies {
        &&& (#[trigger] indices@[j]) < crossings@.len()
        &&& crossings@[indices@[j] as int].key == base[j]
    } by {
        assert(crossings@[indices@[j] as int] == start[indices@[j] as int]);
    }
    while n < 5 && more
        invariant
            n <= 5,
            g == grid@,
            g.wf(),
            0 <= c < cell_count(g),
            ci == config(g, iso, c),
            ci < 256,
            row == TRI_TABLE[ci as int],
            base == triangle_keys_upto(g, iso, c),
            crossings@ == crossings_upto(g, iso, 12 * (c + 1)),
            mirrors(g, crossings@, cache@),
            edges_known(g, iso, c, 12, crossings@, edge_verts@),
            forall|m: int| 0 <= m < n ==> nibble(row, #[trigger] ((3 * m) as u64)) != 15,
            !more ==> n < 5 && nibble(row, (3 * n) as u64) == 15,
            corners_sit_on(crossings@, indices@, base + cell_triangle_keys(g, iso, c, n as int)),
            indices@.len() % 3 == 0,
        decreases (5 - n) + (if more { 1int } else { 0int }),
    {
        let e0 = tri_entry(ci, 3 * n);
        if e0 < 0 {
            more = false;
        } else {
            let e1 = tri_entry(ci, 3 * n + 1);
            let e2 = tri_entry(ci, 3 * n + 2);
            proof {
                lemma_tri_table_names_marked_edges(ci as int, n as int, 0);
                lemma_tri_table_names_marked_edges(ci as int, n as int, 1);
                lemma_tri_table_names_marked_edges(ci as int, n as int, 2);
                assert((12 * c + e0) / 12 == c && (12 * c + e0) % 12 == e0);
                assert((12 * c + e1) / 12 == c && (12 * c + e1) % 12 == e1);
                assert((12 * c + e2) / 12 == c && (12 * c + e2) % 12 == e2);
                assert(slot_marked(g, iso, 12 * c + e0));
                assert(slot_marked(g, iso, 12 * c + e1));
                assert(slot_marked(g, iso, 12 * c + e2));
            }
            let v0 = edge_verts[e0 as usize];
            let v1 = edge_verts[e1 as usize];
            let v2 = edge_verts[e2 as usize];
            let ghost keys_before = base + cell_triangle_keys(g, iso, c, n as int);
            indices.push(v0);
            indices.push(v1);
            indices.push(v2);
            proof {
                let t = (3 * n) as u64;
                assert(nibble(row, t) == e0);
                assert(nibble(row, (t + 1) as u64) == e1);
                assert(nibble(row, (t + 2) as u64) == e2);
                assert(base + cell_triangle_keys(g, iso, c, n + 1) =~= keys_before.push(
                    site(g, c, e0 as int).key,
                ).push(site(g, c, e1 as int).key).push(site(g, c, e2 as int).key));
            }
            n += 1;
        }
    }
    proof {
        assert(nibble(row, 0) == nibble(row, (3 * 0) as u64));
        assert(nibble(row, 3) == nibble(row, (3 * 1) as u64));
        assert(nibble(row, 6) == nibble(row, (3 * 2) as u64));
        assert(nibble(row, 9) == nibble(row, (3 * 3) as u64));
        assert(nibble(row, 12) == nibble(row, (3 * 4) as u64));
        assert(n == tri_count(row));
    }
    true
}

/// Extracts the surface on which the field crosses `isovalue`.
///
/// The result lists one vertex for every lattice edge that the edge table
/// marks in some cell, in the order in which the walk first meets the edges,
/// and for every triangle of every cell, in walking order, the three
/// vertices that sit on the edges the triangle table names. Nothing is
/// returned when there would be more vertices than 32-bit vertex numbers.
pub fn marching_cubes(grid: &DistanceGrid, isovalue: i32) -> (r: Option<Surface>)
    requires
        grid@.wf(),
    ensures
        r is Some <==> surface_crossings(grid@, isovalue).len() <= max_vertices(),
        match r {
            Some(s) => {
                &&& s.crossings@ == surface_crossings(grid@, isovalue)
                &&& corners_sit_on(
                    s.crossings@,
                    s.indices@,
                    surface_triangle_keys(grid@, isovalue),
                )
                &&& s.wf()
            },
            None => true,
        },
{
    let ghost g = grid@;
    let mut crossings: Vec<Crossing> = Vec::new();
    let mut indices: Vec<u32> = Vec::new();
    let mut cache: HashMap<u128, u32> = HashMap::new();
    let nx = grid.nx();
    let ny = grid.ny();
    let nz = grid.nz();
    proof {
        lemma_dims_fit(g);
    }
    if nx < 2 || ny < 2 || nz < 2 {
        proof {
            assert(cell_count(g) == 0) by (nonlinear_arith)
                requires
                    g.nx == 1 || g.ny == 1 || g.nz == 1,
                    g.nx >= 1,
                    g.ny >= 1,
                    g.nz >= 1,
            ;
        }
        return Some(Surface { crossings, indices });
    }
    let mx = nx - 1;
    let my = ny - 1;
    let mz = nz - 1;
    let ghost mut c: int = 0;
    let mut cz: usize = 0;
    assert(cell_index(mx as int, my as int, 0, 0, 0) == 0) by (nonlinear_arith);
    while cz < mz
        invariant
            g == grid@,
            g.wf(),
            mx == g.nx - 1,
            my == g.ny - 1,
            mz == g.nz - 1,
            mx >= 1,
            my >= 1,
            mz >= 1,
            cz <= mz,
            c == cell_index(mx as int, my as int, 0, 0, cz as int),
            crossings@ == crossings_upto(g, isovalue, 12 * c),
            mirrors(g, crossings@, cache@),
            corners_sit_on(crossings@, indices@, triangle_keys_upto(g, isovalue, c)),
            indices@.len() % 3 == 0,
        decreases mz - cz,
    {
        let mut cy: usize = 0;
        while cy < my
            invariant
                g == grid@,
                g.wf(),
                mx == g.nx - 1,
                my == g.ny - 1,
                mz == g.nz - 1,
                mx >= 1,
                my >= 1,
                mz >= 1,
                cz < mz,
                cy <= my,
                c == cell_index(mx as int, my as int, 0, cy as int, cz as int),
                crossings@ == crossings_upto(g, isovalue, 12 * c),
                mirrors(g, crossings@, cache@),
                corners_sit_on(crossings@, indices@, triangle_keys_upto(g, isovalue, c)),
                indices@.len() % 3 == 0,
            decreases my - cy,
        {
            let mut cx: usize = 0;
            while cx < mx
                invariant
                    g == grid@,
                    g.wf(),
                    mx == g.nx - 1,
                    my == g.ny - 1,
                    mz == g.nz - 1,
                    mx >= 1,
                    my >= 1,
                    mz >= 1,
                    cz < mz,
                    cy < my,
                    cx <= mx,
                    c == cell_index(mx as int, my as int, cx as int, cy as int, cz as int),
                    crossings@ == crossings_upto(g, isovalue, 12 * c),
                    mirrors(g, crossings@, cache@),
                    corners_sit_on(crossings@, indices@, triangle_keys_upto(g, isovalue, c)),
                    indices@.len() % 3 == 0,
                decreases mx - cx,
            {
                proof {
                    lemma_index_of_coords(
                        mx as int,
                        my as int,
                        mz as int,
                        cx as int,
                        cy as int,
                        cz as int,
                    );
                }
                let ok = visit_cell(
                    grid,
                    isovalue,
                    cx,
                    cy,
                    cz,
                    Ghost(c),
                    &mut crossings,
                    &mut cache,
                    &mut indices,
                );
                if !ok {
                    return None;
                }
                proof {
                    c = c + 1;
                }
                cx += 1;
            }
            assert(cell_index(mx as int, my as int, mx as int, cy as int, cz as int) == cell_index(
                mx as int,
                my as int,
                0,
                cy + 1,
                cz as int,
            )) by (nonlinear_arith);
            cy += 1;
        }
        assert(cell_index(mx as int, my as int, 0, my as int, cz as int) == cell_index(
            mx as int,
            my as int,
            0,
            0,
            cz + 1,
        )) by (nonlinear_arith);
        cz += 1;
    }
    assert(c == cell_count(g)) by (nonlinear_arith)
        requires
            c == cell_index(mx as int, my as int, 0, 0, mz as int),
            mx == g.nx - 1,
            my == g.ny - 1,
            mz == g.nz - 1,
    ;
    Some(Surface { crossings, indices })
}

/// Hash-consing: no two vertices sit on the same lattice edge.
pub proof fn lemma_vertices_have_distinct_edges(g: GridView, iso: i32, k: int)
    ensures
        forall|i: int, j: int|
            0 <= i < j < crossings_upto(g, iso, k).len() ==> (#[trigger] crossings_upto(
                g,
                iso,
                k,
            )[i]).key != (#[trigger] crossings_upto(g, iso, k)[j]).key,
    decreases k,
{
    if k > 0 {
        lemma_vertices_have_distinct_edges(g, iso, k - 1);
        let prev = crossings_upto(g, iso, k - 1);
        let cur = crossings_upto(g, iso, k);
        assert forall|i: int, j: int| 0 <= i < j < cur.len() implies (#[trigger] cur[i]).key != (
        #[trigger] cur[j]).key by {
            if j == prev.len() {
                assert(prev[i].key == cur[i].key);
            } else {
                assert(prev[i] == cur[i] && prev[j] == cur[j]);
            }
        }
    }
}

/// Every vertex was made by a marked slot, and sits where that slot says.
pub proof fn lemma_vertex_comes_from_marked_slot(g: GridView, iso: i32, k: int, i: int) -> (j: int)
    requires
        0 <= i < crossings_upto(g, iso, k).len(),
    ensures
        0 <= j < k,
        slot_marked(g, iso, j),
        crossings_upto(g, iso, k)[i] == slot_site(g, j),
    decreases k,
{
    let prev = crossings_upto(g, iso, k - 1);
    if i < prev.len() {
        lemma_crossings_extend(g, iso, k - 1, k);
        lemma_vertex_comes_from_marked_slot(g, iso, k - 1, i)
    } else {
        k - 1
    }
}

/// Every marked slot has a vertex on its lattice edge once it has been taken
/// in.
pub proof fn lemma_marked_slot_has_vertex(g: GridView, iso: i32, j: int, k: int)
    requires
        0 <= j < k,
        slot_marked(g, iso, j),
    ensures
        has_key(crossings_upto(g, iso, k), slot_site(g, j).key),
    decreases k,
{
    let prev = crossings_upto(g, iso, k - 1);
    let cur = crossings_upto(g, iso, k);
    let key = slot_site(g, j).key;
    lemma_crossings_extend(g, iso, k - 1, k);
    if j < k - 1 {
        lemma_marked_slot_has_vertex(g, iso, j, k - 1);
        let i = choose|i: int| 0 <= i < prev.len() && (#[trigger] prev[i]).key == key;
        assert(cur[i].key == key);
    } else {
        if has_key(prev, key) {
            let i = choose|i: int| 0 <= i < prev.len() && (#[trigger] prev[i]).key == key;
            assert(cur[i].key == key);
        } else {
            assert(cur[prev.len() as int].key == key);
        }
    }
}

/// A slot is marked exactly when the field changes sides along its edge:
/// one end lies below the isovalue and the other does not.
pub proof fn lemma_marked_iff_straddles(g: GridView, iso: i32, c: int, e: int)
    requires
        g.wf(),
        0 <= c < cell_count(g),
        0 <= e < 12,
    ensures
        slot_marked(g, iso, 12 * c + e) == (below(g, iso, site(g, c, e).from) != below(
            g,
            iso,
            site(g, c, e).to,
        )),
{
    let b = Seq::new(8, |j: int| below(g, iso, corner(g, c, j)));
    let ci = config(g, iso, c);
    assert((12 * c + e) / 12 == c && (12 * c + e) % 12 == e);
    lemma_edge_corners(e);
    lemma_config_bits(b, EDGE_CORNERS[e][0] as int);
    lemma_config_bits(b, EDGE_CORNERS[e][1] as int);
    lemma_edge_table_marks_crossed_edges(ci, e);
}

impl EdgeKey {
    /// The lattice point at which the edge starts.
    pub open spec fn low(self) -> LatticePoint {
        LatticePoint { ix: self.ix, iy: self.iy, iz: self.iz }
    }

    /// The lattice point at which the edge ends, one step along its axis.
    pub open spec fn high(self) -> LatticePoint {
        if self.axis == 0 {
            LatticePoint { ix: (self.ix + 1) as usize, iy: self.iy, iz: self.iz }
        } else if self.axis == 1 {
            LatticePoint { ix: self.ix, iy: (self.iy + 1) as usize, iz: self.iz }
        } else {
            LatticePoint { ix: self.ix, iy: self.iy, iz: (self.iz + 1) as usize }
        }
    }

    /// The edge lies on the lattice, both ends included.
    pub open spec fn on_lattice(self, g: GridView) -> bool {
        &&& valid_key(g, self)
        &&& g.contains(self.high().ix as int, self.high().iy as int, self.high().iz as int)
        &&& self.ix + 1 <= usize::MAX
        &&& self.iy + 1 <= usize::MAX
        &&& self.iz + 1 <= usize::MAX
    }
}

/// The two ends of a site are the two ends of its edge, in one order or the
/// other.
pub proof fn lemma_site_ends(g: GridView, c: int, e: int)
    requires
        g.wf(),
        0 <= c < cell_count(g),
        0 <= e < 12,
    ensures
        site(g, c, e).key.on_lattice(g),
        (site(g, c, e).from == site(g, c, e).key.low() && site(g, c, e).to == site(
            g,
            c,
            e,
        ).key.high()) || (site(g, c, e).from == site(g, c, e).key.high() && site(g, c, e).to
            == site(g, c, e).key.low()),
{
    lemma_edge_corners(e);
    lemma_dims_fit(g);
    lemma_corner_on_lattice(g, c, EDGE_CORNERS[e][0] as int);
    lemma_corner_on_lattice(g, c, EDGE_CORNERS[e][1] as int);
    if e == 0 {
    } else if e == 1 {
    } else if e == 2 {
    } else if e == 3 {
    } else if e == 4 {
    } else if e == 5 {
    } else if e == 6 {
    } else if e == 7 {
    } else if e == 8 {
    } else if e == 9 {
    } else if e == 10 {
    } else {
    }
}

/// The edge number under which a cell sees the lattice edge along `axis`
/// that lies `du` and `dv` steps from the cell's origin across the other two
/// axes, taken in the order `x`, `y`, `z`.
pub open spec fn edge_number(axis: int, du: int, dv: int) -> int {
    if axis == 0 {
        if du == 0 && dv == 0 {
            0
        } else if dv == 0 {
            2
        } else if du == 0 {
            4
        } else {
            6
        }
    } else if axis == 1 {
        if du == 0 && dv == 0 {
            3
        } else if dv == 0 {
            1
        } else if du == 0 {
            7
        } else {
            5
        }
    } else {
        if du == 0 && dv == 0 {
            8
        } else if dv == 0 {
            9
        } else if du == 0 {
            11
        } else {
            10
        }
    }
}

/// Every edge of the lattice is an edge of some cell, provided there are
/// cells at all.
pub proof fn lemma_lattice_edge_is_in_some_cell(g: GridView, key: EdgeKey) -> (slot: int)
    requires
        g.wf(),
        g.nx >= 2,
        g.ny >= 2,
        g.nz >= 2,
        key.on_lattice(g),
    ensures
        0 <= slot < 12 * cell_count(g),
        slot_site(g, slot).key == key,
{
    let (mx, my, mz) = (g.nx - 1, g.ny - 1, g.nz - 1);
    let ox: int = if key.ix == mx {
        key.ix - 1
    } else {
        key.ix as int
    };
    let oy: int = if key.iy == my {
        key.iy - 1
    } else {
        key.iy as int
    };
    let oz: int = if key.iz == mz {
        key.iz - 1
    } else {
        key.iz as int
    };
    let (dx, dy, dz) = (key.ix - ox, key.iy - oy, key.iz - oz);
    let e = if key.axis == 0 {
        edge_number(0, dy, dz)
    } else if key.axis == 1 {
        edge_number(1, dx, dz)
    } else {
        edge_number(2, dx, dy)
    };
    let c = cell_index(mx, my, ox, oy, oz);
    lemma_index_of_coords(mx, my, mz, ox, oy, oz);
    lemma_edge_corners(e);
    lemma_dims_fit(g);
    lemma_corner_on_lattice(g, c, EDGE_CORNERS[e][0] as int);
    lemma_corner_on_lattice(g, c, EDGE_CORNERS[e][1] as int);
    let slot = 12 * c + e;
    assert(slot / 12 == c && slot % 12 == e);
    if e == 0 {
    } else if e == 1 {
    } else if e == 2 {
    } else if e == 3 {
    } else if e == 4 {
    } else if e == 5 {
    } else if e == 6 {
    } else if e == 7 {
    } else if e == 8 {
    } else if e == 9 {
    } else if e == 10 {
    } else {
    }
    slot
}

/// The vertices of a surface are exactly the lattice edges along which the
/// field changes sides: an edge of the lattice carries a vertex when one of
/// its ends lies below the isovalue and the other does not, and only then.
pub proof fn lemma_vertex_iff_edge_changes_sides(g: GridView, iso: i32, key: EdgeKey)
    requires
        g.wf(),
        g.nx >= 2,
        g.ny >= 2,
        g.nz >= 2,
        key.on_lattice(g),
    ensures
        has_key(surface_crossings(g, iso), key) <==> (below(g, iso, key.low()) != below(
            g,
            iso,
            key.high(),
        )),
{
    let all = surface_crossings(g, iso);
    let slots = 12 * cell_count(g);
    if has_key(all, key) {
        let i = choose|i: int| 0 <= i < all.len() && (#[trigger] all[i]).key == key;
        let j = lemma_vertex_comes_from_marked_slot(g, iso, slots, i);
        assert(0 <= j / 12 < cell_count(g) && 0 <= j % 12 < 12 && 12 * (j / 12) + j % 12 == j);
        lemma_site_ends(g, j / 12, j % 12);
        lemma_marked_iff_straddles(g, iso, j / 12, j % 12);
    }
    if below(g, iso, key.low()) != below(g, iso, key.high()) {
        let j = lemma_lattice_edge_is_in_some_cell(g, key);
        assert(0 <= j / 12 < cell_count(g) && 0 <= j % 12 < 12 && 12 * (j / 12) + j % 12 == j);
        lemma_site_ends(g, j / 12, j % 12);
        lemma_marked_iff_straddles(g, iso, j / 12, j % 12);
        lemma_marked_slot_has_vertex(g, iso, j, slots);
    }
}

} // verus!
