//! The decisions of the surface pipeline.
//!
//! Computing a surface alternates numeric work with a few decisions: whether
//! the input is usable, whether there is anything to do, and whether the
//! accessible surface is already the answer. The decisions are made here; the
//! caller does the work in between.

use crate::error::SesError;
use crate::rank::RANK_INFINITY;
use vstd::prelude::*;

verus! {

/// What the pipeline does next.
#[derive(Clone, Copy, Debug, PartialEq, Eq, Structural)]
pub enum Step {
    /// There are no atoms: the result is the empty mesh.
    ReturnEmpty,
    /// Build the lattice, merge every atom inflated by the probe, and extract
    /// the accessible surface.
    ExtractSas,
    /// The accessible surface is the result.
    ReturnSas,
    /// Clear the lattice, merge a probe sphere at every vertex of the
    /// accessible surface, extract again, filter the components and turn the
    /// normals round.
    ExtractSes,
}

/// Number of atoms that an input of these lengths describes, if any.
pub open spec fn atoms_described(centers_len: int, radii_len: int) -> Option<int> {
    if centers_len % 3 == 0 && radii_len == centers_len / 3 {
        Some(radii_len)
    } else {
        None
    }
}

/// Takes the lengths of the two input arrays and gives the number of
/// atoms. The centers must come in whole triples, and there must be one
/// radius per center.
pub fn atom_count(centers_len: usize, radii_len: usize) -> (r: Result<usize, SesError>)
    ensures
        match r {
            Ok(n) => atoms_described(centers_len as int, radii_len as int) == Some(n as int),
            Err(SesError::InvalidCenterLength) => centers_len % 3 != 0,
            Err(SesError::RadiiMismatch) => centers_len % 3 == 0 && radii_len != centers_len / 3,
            Err(SesError::GridTooLarge) => false,
        },
{
    if centers_len % 3 != 0 {
        return Err(SesError::InvalidCenterLength);
    }
    let n = centers_len / 3;
    if radii_len != n {
        return Err(SesError::RadiiMismatch);
    }
    Ok(n)
}

/// The first step for an input of the given lengths: an error when the
/// lengths do not fit, the empty mesh when there are no atoms, the first
/// extraction otherwise.
pub fn first_step(centers_len: usize, radii_len: usize) -> (r: Result<Step, SesError>)
    ensures
        match r {
            Ok(step) => {
                &&& atoms_described(centers_len as int, radii_len as int) is Some
                &&& step == if radii_len == 0 {
                    Step::ReturnEmpty
                } else {
                    Step::ExtractSas
                }
            },
            Err(SesError::InvalidCenterLength) => centers_len % 3 != 0,
            Err(SesError::RadiiMismatch) => centers_len % 3 == 0 && radii_len != centers_len / 3,
            Err(SesError::GridTooLarge) => false,
        },
{
    match atom_count(centers_len, radii_len) {
        Ok(n) => {
            if n == 0 {
                Ok(Step::ReturnEmpty)
            } else {
                Ok(Step::ExtractSas)
            }
        },
        Err(e) => Err(e),
    }
}

/// The step after the accessible surface has been extracted: it is returned
/// when it was asked for or when it is empty; otherwise the excluded surface
/// is extracted.
pub fn step_after_sas(sas_vertex_count: usize, return_sas: bool) -> (step: Step)
    ensures
        step == if return_sas || sas_vertex_count == 0 {
            Step::ReturnSas
        } else {
            Step::ExtractSes
        },
{
    if return_sas || sas_vertex_count == 0 {
        Step::ReturnSas
    } else {
        Step::ExtractSes
    }
}

/// The box around the atom centers, and the largest radius.
#[derive(Clone, Copy, Debug)]
pub struct Bounds {
    /// The smallest coordinate along each axis.
    pub min: (i32, i32, i32),
    /// The largest coordinate along each axis.
    pub max: (i32, i32, i32),
    /// The largest radius, or zero where no radius is positive.
    pub max_radius: i32,
}

/// The smallest of the coordinates along `axis` of the first `n` centers,
/// starting from infinity.
pub open spec fn lowest(centers: Seq<i32>, axis: int, n: int) -> i32
    decreases n,
{
    if n <= 0 {
        RANK_INFINITY
    } else {
        let rest = lowest(centers, axis, n - 1);
        if centers[3 * (n - 1) + axis] < rest {
            centers[3 * (n - 1) + axis]
        } else {
            rest
        }
    }
}

/// The largest of the coordinates along `axis` of the first `n` centers,
/// starting from minus infinity.
pub open spec fn highest(centers: Seq<i32>, axis: int, n: int) -> i32
    decreases n,
{
    if n <= 0 {
        (-RANK_INFINITY) as i32
    } else {
        let rest = highest(centers, axis, n - 1);
        if centers[3 * (n - 1) + axis] > rest {
            centers[3 * (n - 1) + axis]
        } else {
            rest
        }
    }
}

/// The largest of the first `n` radii, starting from zero.
pub open spec fn widest(radii: Seq<i32>, n: int) -> i32
    decreases n,
{
    if n <= 0 {
        0
    } else {
        let rest = widest(radii, n - 1);
        if radii[n - 1] > rest {
            radii[n - 1]
        } else {
            rest
        }
    }
}

/// The bounds of a molecule: per axis the smallest and the largest center
/// coordinate, and the largest radius. All values are ranks.
pub fn bounds_of(centers: &Vec<i32>, radii: &Vec<i32>) -> (b: Bounds)
    requires
        centers@.len() == 3 * radii@.len(),
    ensures
        b.min == (
            lowest(centers@, 0, radii@.len() as int),
            lowest(centers@, 1, radii@.len() as int),
            lowest(centers@, 2, radii@.len() as int),
        ),
        b.max == (
            highest(centers@, 0, radii@.len() as int),
            highest(centers@, 1, radii@.len() as int),
            highest(centers@, 2, radii@.len() as int),
        ),
        b.max_radius == widest(radii@, radii@.len() as int),
{
    let mut min = (RANK_INFINITY, RANK_INFINITY, RANK_INFINITY);
    let mut max = (-RANK_INFINITY, -RANK_INFINITY, -RANK_INFINITY);
    let mut max_radius: i32 = 0;
    let n = radii.len();
    let scalars = centers.len();
    let mut i: usize = 0;
    while i < n
        invariant
            i <= n,
            n == radii@.len(),
            scalars == 3 * n,
            centers@.len() == 3 * n,
            min == (lowest(centers@, 0, i as int), lowest(centers@, 1, i as int), lowest(
                centers@,
                2,
                i as int,
            )),
            max == (highest(centers@, 0, i as int), highest(centers@, 1, i as int), highest(
                centers@,
                2,
                i as int,
            )),
            max_radius == widest(radii@, i as int),
        decreases n - i,
    {
        let x = centers[3 * i];
        let y = centers[3 * i + 1];
        let z = centers[3 * i + 2];
        let r = radii[i];
        min = (
            if x < min.0 {
                x
            } else {
                min.0
            },
            if y < min.1 {
                y
            } else {
                min.1
            },
            if z < min.2 {
                z
            } else {
                min.2
            },
        );
        max = (
            if x > max.0 {
                x
            } else {
                max.0
            },
            if y > max.1 {
                y
            } else {
                max.1
            },
            if z > max.2 {
                z
            } else {
                max.2
            },
        );
        if r > max_radius {
            max_radius = r;
        }
        i += 1;
    }
    Bounds { min, max, max_radius }
}

} // verus!
