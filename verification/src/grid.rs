//! The clamped distance field on a uniform lattice.
//!
//! The lattice has `nx * ny * nz` points; point `(ix, iy, iz)` is stored at
//! `ix + iy * nx + iz * nx * ny`, so `x` runs fastest. Every stored value lies
//! in the band `[-max_dist, max_dist]`, and a fresh or cleared lattice holds
//! `max_dist` everywhere. Adding a sphere can only lower values.

use crate::error::SesError;
use vstd::arithmetic::div_mod::lemma_fundamental_div_mod;
use vstd::arithmetic::div_mod::lemma_fundamental_div_mod_converse;
use vstd::prelude::*;

verus! {

/// Position of lattice point `(ix, iy, iz)` in the dense array.
pub open spec fn cell_index(nx: int, ny: int, ix: int, iy: int, iz: int) -> int {
    ix + iy * nx + iz * nx * ny
}

/// The lattice point stored at position `i` of the dense array.
pub open spec fn cell_coords(nx: int, ny: int, i: int) -> (int, int, int) {
    (i % nx, (i / nx) % ny, (i / nx) / ny)
}

/// `d` clamped into the band `[-m, m]`.
pub open spec fn clamp_band(d: i32, m: i32) -> i32 {
    if d > m {
        m
    } else if d < -m {
        (-m) as i32
    } else {
        d
    }
}

/// The value a cell takes when a sphere at signed distance `d` is merged into
/// it: the smaller of the current value and the clamped distance.
pub open spec fn lowered(cur: i32, d: i32, m: i32) -> i32 {
    if clamp_band(d, m) < cur {
        clamp_band(d, m)
    } else {
        cur
    }
}

/// An axis-aligned block of lattice points, bounds inclusive. It is empty
/// when a lower bound exceeds its upper bound.
#[derive(Clone, Copy, Debug, PartialEq, Eq, Structural)]
pub struct CellBox {
    pub x0: usize,
    pub x1: usize,
    pub y0: usize,
    pub y1: usize,
    pub z0: usize,
    pub z1: usize,
}

impl CellBox {
    /// Whether the block holds no point.
    pub open spec fn is_empty(self) -> bool {
        self.x0 > self.x1 || self.y0 > self.y1 || self.z0 > self.z1
    }

    /// Whether the point `(ix, iy, iz)` lies in the block.
    pub open spec fn contains(self, ix: int, iy: int, iz: int) -> bool {
        &&& self.x0 <= ix <= self.x1
        &&& self.y0 <= iy <= self.y1
        &&& self.z0 <= iz <= self.z1
    }

    /// Number of points along `x`, for a block that is not empty.
    pub open spec fn width(self) -> int {
        self.x1 - self.x0 + 1
    }

    /// Number of points along `y`, for a block that is not empty.
    pub open spec fn height(self) -> int {
        self.y1 - self.y0 + 1
    }

    /// Number of points along `z`, for a block that is not empty.
    pub open spec fn depth(self) -> int {
        self.z1 - self.z0 + 1
    }

    /// Number of lattice points in the block.
    pub open spec fn volume(self) -> int {
        if self.is_empty() {
            0
        } else {
            self.width() * self.height() * self.depth()
        }
    }

    /// Rank of a point of the block when the block is walked with `x`
    /// fastest, then `y`, then `z`.
    pub open spec fn offset(self, ix: int, iy: int, iz: int) -> int {
        cell_index(
            self.width(),
            self.height(),
            ix - self.x0,
            iy - self.y0,
            iz - self.z0,
        )
    }

    /// The block does not reach past the lattice.
    pub open spec fn within(self, g: GridView) -> bool {
        self.x1 < g.nx && self.y1 < g.ny && self.z1 < g.nz
    }
}

/// What a grid is, mathematically: its point counts, its band and its cells.
pub struct GridView {
    pub nx: nat,
    pub ny: nat,
    pub nz: nat,
    pub max_dist: i32,
    pub cells: Seq<i32>,
}

impl GridView {
    /// Number of lattice points.
    pub open spec fn total(self) -> nat {
        self.nx * self.ny * self.nz
    }

    /// There is at least one point along every axis, the points can be
    /// addressed, there is one cell per point, the band is positive, and every
    /// cell lies in the band.
    pub open spec fn wf(self) -> bool {
        &&& self.nx >= 1
        &&& self.ny >= 1
        &&& self.nz >= 1
        &&& self.total() <= usize::MAX
        &&& self.cells.len() == self.total()
        &&& self.max_dist > 0
        &&& forall|i: int|
            0 <= i < self.cells.len() ==> -self.max_dist <= #[trigger] self.cells[i]
                <= self.max_dist
    }

    /// Whether `(ix, iy, iz)` is a point of the lattice.
    pub open spec fn contains(self, ix: int, iy: int, iz: int) -> bool {
        0 <= ix < self.nx && 0 <= iy < self.ny && 0 <= iz < self.nz
    }

    /// Where the lattice point `(ix, iy, iz)` is stored.
    pub open spec fn index(self, ix: int, iy: int, iz: int) -> int {
        cell_index(self.nx as int, self.ny as int, ix, iy, iz)
    }

    /// The lattice point that is stored at position `i`.
    pub open spec fn coords(self, i: int) -> (int, int, int) {
        cell_coords(self.nx as int, self.ny as int, i)
    }

    /// The value at a lattice point.
    pub open spec fn at(self, ix: int, iy: int, iz: int) -> i32 {
        self.cells[self.index(ix, iy, iz)]
    }

    /// The value read at any integer position: points off the lattice read
    /// the default, `max_dist`.
    pub open spec fn sample(self, ix: int, iy: int, iz: int) -> i32 {
        if self.contains(ix, iy, iz) {
            self.at(ix, iy, iz)
        } else {
            self.max_dist
        }
    }

    /// The same lattice with every cell back at the default.
    pub open spec fn cleared(self) -> GridView {
        GridView { cells: Seq::new(self.cells.len(), |i: int| self.max_dist), ..self }
    }

    /// The influence block of a sphere whose bounding box spans the integer
    /// positions `lo ..= hi`: the lower corner is cut off at zero, the upper
    /// corner at the last lattice point and then at zero.
    pub open spec fn clip(self, lo: (i32, i32, i32), hi: (i32, i32, i32)) -> CellBox {
        CellBox {
            x0: clip_low(lo.0),
            x1: clip_high(hi.0, self.nx),
            y0: clip_low(lo.1),
            y1: clip_high(hi.1, self.ny),
            z0: clip_low(lo.2),
            z1: clip_high(hi.2, self.nz),
        }
    }

    /// The cells after the first `k` points of the block `bx` (walked with
    /// `x` fastest) have taken their distances from `dists`.
    pub open spec fn with_sphere_upto(self, bx: CellBox, dists: Seq<i32>, k: int) -> Seq<i32> {
        Seq::new(
            self.cells.len(),
            |i: int|
                {
                    let (ix, iy, iz) = self.coords(i);
                    if bx.contains(ix, iy, iz) && bx.offset(ix, iy, iz) < k {
                        lowered(self.cells[i], dists[bx.offset(ix, iy, iz)], self.max_dist)
                    } else {
                        self.cells[i]
                    }
                },
        )
    }

    /// The lattice after a sphere has been merged in: every point of the
    /// block `bx` holds the smaller of its old value and its clamped distance,
    /// where `dists` lists the distances of the block's points with `x`
    /// fastest; every other point is untouched.
    pub open spec fn with_sphere(self, bx: CellBox, dists: Seq<i32>) -> GridView {
        GridView { cells: self.with_sphere_upto(bx, dists, bx.volume()), ..self }
    }
}

/// A lower bound cut off at zero.
pub open spec fn clip_low(g: i32) -> usize {
    if g < 0 {
        0
    } else {
        g as usize
    }
}

/// An upper bound cut off at the last of `n` points, and then at zero.
pub open spec fn clip_high(g: i32, n: nat) -> usize {
    if g < 0 {
        0
    } else if g >= n {
        (n - 1) as usize
    } else {
        g as usize
    }
}

/// A lattice point inside an `nx * ny * nz` lattice has its index inside the
/// dense array, and the index determines the point.
pub proof fn lemma_index_of_coords(nx: int, ny: int, nz: int, ix: int, iy: int, iz: int)
    requires
        0 <= ix < nx,
        0 <= iy < ny,
        0 <= iz < nz,
    ensures
        0 <= cell_index(nx, ny, ix, iy, iz) < nx * ny * nz,
        cell_coords(nx, ny, cell_index(nx, ny, ix, iy, iz)) == (ix, iy, iz),
{
    let i = cell_index(nx, ny, ix, iy, iz);
    let q = iy + iz * ny;
    assert(i == q * nx + ix) by (nonlinear_arith)
        requires
            i == ix + iy * nx + iz * nx * ny,
            q == iy + iz * ny,
    ;
    assert(0 <= q < ny * nz) by (nonlinear_arith)
        requires
            q == iy + iz * ny,
            0 <= iy < ny,
            0 <= iz < nz,
    ;
    assert(0 <= i < nx * ny * nz) by (nonlinear_arith)
        requires
            i == q * nx + ix,
            0 <= ix < nx,
            0 <= q < ny * nz,
    ;
    lemma_fundamental_div_mod_converse(i, nx, q, ix);
    assert(q == iz * ny + iy);
    lemma_fundamental_div_mod_converse(q, ny, iz, iy);
}

/// Every position of the dense array is the index of exactly one lattice
/// point.
pub proof fn lemma_coords_of_index(nx: int, ny: int, nz: int, i: int)
    requires
        nx >= 1,
        ny >= 1,
        nz >= 1,
        0 <= i < nx * ny * nz,
    ensures
        ({
            let (ix, iy, iz) = cell_coords(nx, ny, i);
            &&& 0 <= ix < nx
            &&& 0 <= iy < ny
            &&& 0 <= iz < nz
            &&& cell_index(nx, ny, ix, iy, iz) == i
        }),
{
    let ix = i % nx;
    let q = i / nx;
    let iy = q % ny;
    let iz = q / ny;
    lemma_fundamental_div_mod(i, nx);
    lemma_fundamental_div_mod(q, ny);
    assert(0 <= q < ny * nz) by (nonlinear_arith)
        requires
            i == nx * q + ix,
            0 <= ix < nx,
            0 <= i < nx * ny * nz,
            ny >= 1,
            nz >= 1,
    ;
    assert(0 <= iz < nz) by (nonlinear_arith)
        requires
            q == ny * iz + iy,
            0 <= iy < ny,
            0 <= q < ny * nz,
    ;
    assert(ix + iy * nx + iz * nx * ny == i) by (nonlinear_arith)
        requires
            i == nx * q + ix,
            q == ny * iz + iy,
    ;
}

/// One step of merging a sphere: the point `(ix, iy, iz)` of the block is the
/// only one whose turn comes at its offset.
proof fn lemma_sphere_step(g: GridView, bx: CellBox, dists: Seq<i32>, ix: int, iy: int, iz: int)
    requires
        g.wf(),
        bx.within(g),
        bx.contains(ix, iy, iz),
    ensures
        ({
            let k = bx.offset(ix, iy, iz);
            let idx = g.index(ix, iy, iz);
            &&& 0 <= k < bx.volume()
            &&& 0 <= idx < g.cells.len()
            &&& g.with_sphere_upto(bx, dists, k)[idx] == g.cells[idx]
            &&& g.with_sphere_upto(bx, dists, k + 1) == g.with_sphere_upto(bx, dists, k).update(
                idx,
                lowered(g.cells[idx], dists[k], g.max_dist),
            )
        }),
{
    let k = bx.offset(ix, iy, iz);
    let idx = g.index(ix, iy, iz);
    let (nx, ny, nz) = (g.nx as int, g.ny as int, g.nz as int);
    let (w, h, d) = (bx.width(), bx.height(), bx.depth());
    lemma_index_of_coords(nx, ny, nz, ix, iy, iz);
    lemma_index_of_coords(w, h, d, ix - bx.x0, iy - bx.y0, iz - bx.z0);
    let before = g.with_sphere_upto(bx, dists, k);
    let after = g.with_sphere_upto(bx, dists, k + 1);
    let stepped = before.update(idx, lowered(g.cells[idx], dists[k], g.max_dist));
    assert forall|i: int| 0 <= i < after.len() implies after[i] == stepped[i] by {
        if i != idx {
            let (jx, jy, jz) = g.coords(i);
            lemma_coords_of_index(nx, ny, nz, i);
            if bx.contains(jx, jy, jz) {
                lemma_index_of_coords(w, h, d, jx - bx.x0, jy - bx.y0, jz - bx.z0);
            }
        }
    }
    assert(after =~= stepped);
}

/// What merging a sphere does to one lattice point: a point of the block
/// takes the smaller of its value and its clamped distance, any other point
/// keeps its value.
pub proof fn lemma_with_sphere_at(
    g: GridView,
    bx: CellBox,
    dists: Seq<i32>,
    ix: int,
    iy: int,
    iz: int,
)
    requires
        g.wf(),
        g.contains(ix, iy, iz),
    ensures
        g.with_sphere(bx, dists).at(ix, iy, iz) == if bx.contains(ix, iy, iz) {
            lowered(g.at(ix, iy, iz), dists[bx.offset(ix, iy, iz)], g.max_dist)
        } else {
            g.at(ix, iy, iz)
        },
{
    lemma_index_of_coords(g.nx as int, g.ny as int, g.nz as int, ix, iy, iz);
    if bx.contains(ix, iy, iz) {
        lemma_index_of_coords(
            bx.width(),
            bx.height(),
            bx.depth(),
            ix - bx.x0,
            iy - bx.y0,
            iz - bx.z0,
        );
    }
}

/// Merging a sphere keeps every cell in the band and raises none.
pub proof fn lemma_with_sphere_lowers(g: GridView, bx: CellBox, dists: Seq<i32>)
    requires
        g.wf(),
    ensures
        g.with_sphere(bx, dists).wf(),
        forall|i: int|
            0 <= i < g.cells.len() ==> #[trigger] g.with_sphere(bx, dists).cells[i] <= g.cells[i],
{
}

/// A fieldless description of one merged sphere: its influence block and the
/// distances of the block's points.
pub struct Stamp {
    pub bx: CellBox,
    pub dists: Seq<i32>,
}

impl GridView {
    /// The lattice after the spheres of `stamps` have been merged in, first
    /// to last.
    pub open spec fn replay(self, stamps: Seq<Stamp>) -> GridView
        decreases stamps.len(),
    {
        if stamps.len() == 0 {
            self
        } else {
            self.replay(stamps.drop_last()).with_sphere(stamps.last().bx, stamps.last().dists)
        }
    }
}

/// Band clamp: whatever spheres are merged into a well-formed lattice, every
/// cell stays within `[-max_dist, max_dist]`; and no cell ends above where it
/// started.
pub proof fn lemma_replay_stays_in_band(g: GridView, stamps: Seq<Stamp>)
    requires
        g.wf(),
    ensures
        g.replay(stamps).wf(),
        g.replay(stamps).max_dist == g.max_dist,
        g.replay(stamps).cells.len() == g.cells.len(),
        forall|i: int|
            0 <= i < g.cells.len() ==> -g.max_dist <= #[trigger] g.replay(stamps).cells[i]
                <= g.cells[i],
    decreases stamps.len(),
{
    if stamps.len() > 0 {
        let prev = g.replay(stamps.drop_last());
        lemma_replay_stays_in_band(g, stamps.drop_last());
        lemma_with_sphere_lowers(prev, stamps.last().bx, stamps.last().dists);
        assert forall|i: int| 0 <= i < g.cells.len() implies -g.max_dist <= #[trigger] g.replay(
            stamps,
        ).cells[i] <= g.cells[i] by {
            assert(g.replay(stamps).cells[i] <= prev.cells[i]);
        }
    }
}

/// Clearing forgets the past: two lattices of the same shape and band, once
/// cleared and fed the same spheres, hold the same cells.
pub proof fn lemma_clear_then_replay_is_reproducible(a: GridView, b: GridView, stamps: Seq<Stamp>)
    requires
        a.nx == b.nx,
        a.ny == b.ny,
        a.nz == b.nz,
        a.max_dist == b.max_dist,
        a.cells.len() == b.cells.len(),
    ensures
        a.cleared().replay(stamps) == b.cleared().replay(stamps),
{
    assert(a.cleared().cells =~= b.cleared().cells);
}

/// A band-limited signed distance field. Values are ranks of distances; see
/// the crate documentation.
pub struct DistanceGrid {
    nx: usize,
    ny: usize,
    nz: usize,
    max_dist: i32,
    data: Vec<i32>,
}

impl View for DistanceGrid {
    type V = GridView;

    closed spec fn view(&self) -> GridView {
        GridView {
            nx: self.nx as nat,
            ny: self.ny as nat,
            nz: self.nz as nat,
            max_dist: self.max_dist,
            cells: self.data@,
        }
    }
}

impl DistanceGrid {
    /// A lattice that spans `sx`, `sy` and `sz` cells along the axes, so it
    /// has one point more than that on each, with every cell at `max_dist`.
    /// Fails when the number of points cannot be addressed.
    pub fn new(sx: usize, sy: usize, sz: usize, max_dist: i32) -> (r: Result<DistanceGrid, SesError>)
        requires
            max_dist > 0,
        ensures
            match r {
                Ok(g) => {
                    &&& (sx + 1) * (sy + 1) * (sz + 1) <= usize::MAX
                    &&& g@.wf()
                    &&& g@.nx == sx + 1
                    &&& g@.ny == sy + 1
                    &&& g@.nz == sz + 1
                    &&& g@.max_dist == max_dist
                    &&& g@ == g@.cleared()
                },
                Err(e) => e == SesError::GridTooLarge && (sx + 1) * (sy + 1) * (sz + 1)
                    > usize::MAX,
            },
    {
        let ghost p = (sx + 1) * (sy + 1) * (sz + 1);
        assert(p >= (sx + 1) * (sy + 1) && p >= sx + 1 && p >= sy + 1 && p >= sz + 1
            && (sx + 1) * (sy + 1) >= sx + 1 && (sx + 1) * (sy + 1) >= sy + 1) by (nonlinear_arith)
            requires
                p == (sx + 1) * (sy + 1) * (sz + 1),
                sx >= 0,
                sy >= 0,
                sz >= 0,
        ;
        let nx = match sx.checked_add(1) {
            Some(n) => n,
            None => { return Err(SesError::GridTooLarge); },
        };
        let ny = match sy.checked_add(1) {
            Some(n) => n,
            None => { return Err(SesError::GridTooLarge); },
        };
        let nz = match sz.checked_add(1) {
            Some(n) => n,
            None => { return Err(SesError::GridTooLarge); },
        };
        let nxy = match nx.checked_mul(ny) {
            Some(n) => n,
            None => { return Err(SesError::GridTooLarge); },
        };
        let total = match nxy.checked_mul(nz) {
            Some(n) => n,
            None => { return Err(SesError::GridTooLarge); },
        };
        let data = vec![max_dist; total];
        let g = DistanceGrid { nx, ny, nz, max_dist, data };
        assert(g@.cells =~= g@.cleared().cells);
        Ok(g)
    }

    /// Number of lattice points along `x`.
    pub fn nx(&self) -> (n: usize)
        ensures
            n == self@.nx,
    {
        self.nx
    }

    /// Number of lattice points along `y`.
    pub fn ny(&self) -> (n: usize)
        ensures
            n == self@.ny,
    {
        self.ny
    }

    /// Number of lattice points along `z`.
    pub fn nz(&self) -> (n: usize)
        ensures
            n == self@.nz,
    {
        self.nz
    }

    /// The clamp bound, which is also the value of an untouched cell.
    pub fn max_dist(&self) -> (m: i32)
        ensures
            m == self@.max_dist,
    {
        self.max_dist
    }

    /// Where lattice point `(ix, iy, iz)` is stored.
    pub fn index(&self, ix: usize, iy: usize, iz: usize) -> (i: usize)
        requires
            self@.wf(),
            self@.contains(ix as int, iy as int, iz as int),
        ensures
            i == self@.index(ix as int, iy as int, iz as int),
            i < self@.cells.len(),
    {
        proof {
            let (nx, ny, nz) = (self.nx as int, self.ny as int, self.nz as int);
            lemma_index_of_coords(nx, ny, nz, ix as int, iy as int, iz as int);
            assert(0 <= iz * ny + iy < ny * nz && (iz * ny + iy) * nx + ix == cell_index(
                nx,
                ny,
                ix as int,
                iy as int,
                iz as int,
            ) && iz * ny <= iz * ny + iy && (iz * ny + iy) * nx <= (iz * ny + iy) * nx + ix
                && ny * nz <= nx * ny * nz) by (nonlinear_arith)
                requires
                    0 <= ix < nx,
                    0 <= iy < ny,
                    0 <= iz < nz,
            ;
        }
        (iz * self.ny + iy) * self.nx + ix
    }

    /// The value at a lattice point.
    pub fn value(&self, ix: usize, iy: usize, iz: usize) -> (v: i32)
        requires
            self@.wf(),
            self@.contains(ix as int, iy as int, iz as int),
        ensures
            v == self@.at(ix as int, iy as int, iz as int),
    {
        let i = self.index(ix, iy, iz);
        self.data[i]
    }

    /// The value at any integer position; positions off the lattice read the
    /// default.
    pub fn get(&self, ix: i32, iy: i32, iz: i32) -> (v: i32)
        requires
            self@.wf(),
        ensures
            v == self@.sample(ix as int, iy as int, iz as int),
    {
        if ix < 0 || iy < 0 || iz < 0 {
            return self.max_dist;
        }
        let (x, y, z) = (ix as usize, iy as usize, iz as usize);
        if x >= self.nx || y >= self.ny || z >= self.nz {
            return self.max_dist;
        }
        self.value(x, y, z)
    }

    /// The influence block of a sphere whose bounding box spans the integer
    /// positions `lo ..= hi`.
    pub fn clip(&self, lo: (i32, i32, i32), hi: (i32, i32, i32)) -> (bx: CellBox)
        requires
            self@.wf(),
        ensures
            bx == self@.clip(lo, hi),
            bx.within(self@),
    {
        CellBox {
            x0: clip_low_exec(lo.0),
            x1: clip_high_exec(hi.0, self.nx),
            y0: clip_low_exec(lo.1),
            y1: clip_high_exec(hi.1, self.ny),
            z0: clip_low_exec(lo.2),
            z1: clip_high_exec(hi.2, self.nz),
        }
    }

    /// Number of lattice points in a block that lies within the lattice.
    pub fn count(&self, bx: &CellBox) -> (n: usize)
        requires
            self@.wf(),
            bx.within(self@),
        ensures
            n == bx.volume(),
    {
        if bx.x0 > bx.x1 || bx.y0 > bx.y1 || bx.z0 > bx.z1 {
            return 0;
        }
        proof {
            lemma_volume_fits(self@, *bx);
        }
        let w = bx.x1 - bx.x0 + 1;
        let h = bx.y1 - bx.y0 + 1;
        let d = bx.z1 - bx.z0 + 1;
        w * h * d
    }

    /// Merges a sphere into the field. `bx` is the sphere's influence block
    /// and `dists` holds, for each point of the block with `x` running
    /// fastest, the signed distance from that point to the sphere's surface.
    /// Each point of the block takes the smaller of its value and the
    /// distance clamped into the band.
    pub fn add_sphere(&mut self, bx: &CellBox, dists: &Vec<i32>)
        requires
            old(self)@.wf(),
            bx.within(old(self)@),
            dists.len() == bx.volume(),
        ensures
            final(self)@ == old(self)@.with_sphere(*bx, dists@),
            final(self)@.wf(),
            forall|i: int|
                0 <= i < old(self)@.cells.len() ==> #[trigger] final(self)@.cells[i] <= old(
                    self,
                )@.cells[i],
            forall|ix: int, iy: int, iz: int|
                old(self)@.contains(ix, iy, iz) ==> #[trigger] final(self)@.at(ix, iy, iz) == if bx.contains(
                    ix,
                    iy,
                    iz,
                ) {
                    lowered(
                        old(self)@.at(ix, iy, iz),
                        dists@[bx.offset(ix, iy, iz)],
                        old(self)@.max_dist,
                    )
                } else {
                    old(self)@.at(ix, iy, iz)
                },
    {
        let ghost g0 = self@;
        proof {
            lemma_with_sphere_lowers(g0, *bx, dists@);
            assert forall|ix: int, iy: int, iz: int| g0.contains(ix, iy, iz) implies #[trigger] g0.with_sphere(
                *bx,
                dists@,
            ).at(ix, iy, iz) == if bx.contains(ix, iy, iz) {
                lowered(g0.at(ix, iy, iz), dists@[bx.offset(ix, iy, iz)], g0.max_dist)
            } else {
                g0.at(ix, iy, iz)
            } by {
                lemma_with_sphere_at(g0, *bx, dists@, ix, iy, iz);
            }
        }
        if bx.x0 > bx.x1 || bx.y0 > bx.y1 || bx.z0 > bx.z1 {
            assert(g0.with_sphere_upto(*bx, dists@, 0) =~= g0.cells);
            return;
        }
        let ghost w = bx.width();
        let ghost h = bx.height();
        let m = self.max_dist;
        let mut k: usize = 0;
        let mut iz = bx.z0;
        assert(g0.with_sphere_upto(*bx, dists@, 0) =~= g0.cells);
        assert(bx.offset(bx.x0 as int, bx.y0 as int, bx.z0 as int) == 0) by (nonlinear_arith);
        while iz <= bx.z1
            invariant
                !bx.is_empty(),
                g0.wf(),
                bx.within(g0),
                dists.len() == bx.volume(),
                w == bx.width(),
                h == bx.height(),
                m == g0.max_dist,
                bx.z0 <= iz <= bx.z1 + 1,
                k == bx.offset(bx.x0 as int, bx.y0 as int, iz as int),
                self@ == (GridView { cells: g0.with_sphere_upto(*bx, dists@, k as int), ..g0 }),
            decreases bx.z1 + 1 - iz,
        {
            let mut iy = bx.y0;
            while iy <= bx.y1
                invariant
                    !bx.is_empty(),
                    g0.wf(),
                    bx.within(g0),
                    dists.len() == bx.volume(),
                    w == bx.width(),
                    h == bx.height(),
                    m == g0.max_dist,
                    bx.z0 <= iz <= bx.z1,
                    bx.y0 <= iy <= bx.y1 + 1,
                    k == bx.offset(bx.x0 as int, iy as int, iz as int),
                    self@ == (GridView {
                        cells: g0.with_sphere_upto(*bx, dists@, k as int),
                        ..g0
                    }),
                decreases bx.y1 + 1 - iy,
            {
                let mut ix = bx.x0;
                while ix <= bx.x1
                    invariant
                        !bx.is_empty(),
                        g0.wf(),
                        bx.within(g0),
                        dists.len() == bx.volume(),
                        w == bx.width(),
                        h == bx.height(),
                        m == g0.max_dist,
                        bx.z0 <= iz <= bx.z1,
                        bx.y0 <= iy <= bx.y1,
                        bx.x0 <= ix <= bx.x1 + 1,
                        k == bx.offset(ix as int, iy as int, iz as int),
                        self@ == (GridView {
                            cells: g0.with_sphere_upto(*bx, dists@, k as int),
                            ..g0
                        }),
                    decreases bx.x1 + 1 - ix,
                {
                    proof {
                        lemma_sphere_step(g0, *bx, dists@, ix as int, iy as int, iz as int);
                    }
                    let d = dists[k];
                    let c = if d > m {
                        m
                    } else if d < -m {
                        -m
                    } else {
                        d
                    };
                    let idx = self.index(ix, iy, iz);
                    if c < self.data[idx] {
                        self.data.set(idx, c);
                    }
                    assert(self@.cells =~= g0.with_sphere_upto(*bx, dists@, k + 1));
                    k += 1;
                    ix += 1;
                }
                assert(bx.offset(bx.x1 + 1, iy as int, iz as int) == bx.offset(
                    bx.x0 as int,
                    iy + 1,
                    iz as int,
                )) by (nonlinear_arith)
                    requires
                        w == bx.width(),
                        h == bx.height(),
                ;
                iy += 1;
            }
            assert(bx.offset(bx.x0 as int, bx.y1 + 1, iz as int) == bx.offset(
                bx.x0 as int,
                bx.y0 as int,
                iz + 1,
            )) by (nonlinear_arith)
                requires
                    w == bx.width(),
                    h == bx.height(),
            ;
            iz += 1;
        }
        assert(k == bx.volume()) by (nonlinear_arith)
            requires
                k == bx.offset(bx.x0 as int, bx.y0 as int, bx.z1 + 1),
                !bx.is_empty(),
        ;
    }

    /// Puts every cell back at the default.
    pub fn clear(&mut self)
        requires
            old(self)@.wf(),
        ensures
            final(self)@ == old(self)@.cleared(),
            final(self)@.wf(),
    {
        let n = self.data.len();
        let m = self.max_dist;
        let mut i: usize = 0;
        while i < n
            invariant
                i <= n,
                n == self.data.len(),
                m == self.max_dist,
                m > 0,
                self.nx == old(self).nx,
                self.ny == old(self).ny,
                self.nz == old(self).nz,
                self.max_dist == old(self).max_dist,
                n == old(self).data.len(),
                forall|j: int| 0 <= j < i ==> self.data[j] == m,
            decreases n - i,
        {
            self.data.set(i, m);
            i += 1;
        }
        assert(self@.cells =~= old(self)@.cleared().cells);
    }
}

fn clip_low_exec(g: i32) -> (r: usize)
    ensures
        r == clip_low(g),
{
    if g < 0 {
        0
    } else {
        g as usize
    }
}

fn clip_high_exec(g: i32, n: usize) -> (r: usize)
    requires
        n >= 1,
    ensures
        r == clip_high(g, n as nat),
        r < n,
{
    if g < 0 {
        0
    } else if g as usize >= n {
        n - 1
    } else {
        g as usize
    }
}

/// A block within the lattice has no more points than the lattice.
proof fn lemma_volume_fits(g: GridView, bx: CellBox)
    requires
        g.wf(),
        bx.within(g),
        !bx.is_empty(),
    ensures
        bx.width() * bx.height() <= bx.volume() <= g.total(),
        bx.width() >= 1,
        bx.height() >= 1,
        bx.depth() >= 1,
{
    let (w, h, d) = (bx.width(), bx.height(), bx.depth());
    let (nx, ny, nz) = (g.nx as int, g.ny as int, g.nz as int);
    assert(w * h <= w * h * d <= nx * ny * nz) by (nonlinear_arith)
        requires
            1 <= w <= nx,
            1 <= h <= ny,
            1 <= d <= nz,
    ;
}

} // verus!
