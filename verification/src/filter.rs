//! The component filter.
//!
//! An extracted surface may hold closed shells that belong to no atom. The
//! filter looks at one vertex of every connected component, the first one,
//! lets the caller say which components are anchored, drops the triangles of
//! the others, and renumbers the vertices that are left in the order in which
//! the remaining triangles name them.

use crate::components::first_use_before;
use crate::components::numbered_by_first_use;
use crate::components::triangle_count;
use crate::mesh::Mesh;
use std::collections::HashMap;
use vstd::prelude::*;
use vstd::set_lib::lemma_int_range;
use vstd::set_lib::lemma_len_subset;
use vstd::set_lib::lemma_map_size;
use vstd::set_lib::set_int_range;

verus! {

/// `reps[c]` is the first vertex that carries label `c`.
pub open spec fn are_first_vertices(reps: Seq<usize>, labels: Seq<usize>) -> bool {
    forall|c: int|
        0 <= c < reps.len() ==> {
            &&& (#[trigger] reps[c]) < labels.len()
            &&& labels[reps[c] as int] == c
            &&& forall|j: int| 0 <= j < reps[c] ==> #[trigger] labels[j] != c
        }
}

/// The first vertex of every component, by component number.
pub fn component_representatives(components: &Vec<usize>, count: usize) -> (reps: Vec<usize>)
    requires
        numbered_by_first_use(components@, count as int),
    ensures
        reps@.len() == count,
        are_first_vertices(reps@, components@),
{
    let mut reps: Vec<usize> = Vec::new();
    let mut i: usize = 0;
    while i < components.len()
        invariant
            i <= components@.len(),
            numbered_by_first_use(components@, count as int),
            reps@.len() <= count,
            forall|j: int| 0 <= j < i ==> #[trigger] components@[j] < reps@.len(),
            forall|c: int| 0 <= c < reps@.len() ==> (#[trigger] reps@[c]) < i,
            are_first_vertices(reps@, components@),
        decreases components@.len() - i,
    {
        let label = components[i];
        proof {
            if label > reps@.len() {
                assert(first_use_before(components@, reps@.len() as int, i as int));
            }
        }
        if label == reps.len() {
            let ghost before = reps@;
            reps.push(i);
            proof {
                assert forall|c: int| 0 <= c < reps@.len() implies {
                    &&& (#[trigger] reps@[c]) < components@.len()
                    &&& components@[reps@[c] as int] == c
                    &&& forall|j: int| 0 <= j < reps@[c] ==> #[trigger] components@[j] != c
                } by {
                    if c < before.len() {
                        assert(reps@[c] == before[c]);
                    }
                }
                assert forall|c: int| 0 <= c < reps@.len() implies (#[trigger] reps@[c]) < i
                    + 1 by {
                    if c < before.len() {
                        assert(reps@[c] == before[c]);
                    }
                }
            }
        }
        i += 1;
    }
    proof {
        if reps@.len() < count {
            assert(first_use_before(components@, reps@.len() as int, components@.len() as int));
        }
    }
    reps
}

/// How near a vertex lies to an atom: the rank of its distance from the
/// atom's center, and the rank of its distance from the atom's surface.
#[derive(Clone, Copy, Debug, PartialEq, Eq, Structural)]
pub struct Proximity {
    pub center_dist: i32,
    pub dist: i32,
}

/// Whether an atom at this proximity anchors a vertex: the vertex lies
/// nearer to the atom's surface than `threshold`, and, where there is a
/// `limit`, no farther from the atom's center than that.
pub open spec fn anchors(p: Proximity, limit: Option<i32>, threshold: i32) -> bool {
    &&& match limit {
        Some(l) => p.center_dist <= l,
        None => true,
    }
    &&& p.dist < threshold
}

/// Whether some atom anchors the vertex whose proximities to the atoms in
/// question are `candidates`.
pub fn is_anchored(candidates: &Vec<Proximity>, limit: Option<i32>, threshold: i32) -> (ok: bool)
    ensures
        ok <==> exists|i: int|
            0 <= i < candidates@.len() && anchors(#[trigger] candidates@[i], limit, threshold),
{
    let mut i: usize = 0;
    while i < candidates.len()
        invariant
            i <= candidates@.len(),
            forall|j: int| 0 <= j < i ==> !anchors(#[trigger] candidates@[j], limit, threshold),
        decreases candidates@.len() - i,
    {
        let p = candidates[i];
        let within = match limit {
            Some(l) => p.center_dist <= l,
            None => true,
        };
        if within && p.dist < threshold {
            return true;
        }
        i += 1;
    }
    false
}

/// Whether triangle `t` is kept: it is when the component of its first
/// corner is valid.
pub open spec fn triangle_kept(
    indices: Seq<u32>,
    components: Seq<usize>,
    valid: Seq<bool>,
    t: int,
) -> bool {
    valid[components[indices[3 * t] as int] as int]
}

/// The corners of the kept triangles among the first `n`, in order.
pub open spec fn kept_corners(
    indices: Seq<u32>,
    components: Seq<usize>,
    valid: Seq<bool>,
    n: int,
) -> Seq<u32>
    decreases n,
{
    if n <= 0 {
        Seq::empty()
    } else {
        let prev = kept_corners(indices, components, valid, n - 1);
        if triangle_kept(indices, components, valid, n - 1) {
            prev.push(indices[3 * (n - 1)]).push(indices[3 * (n - 1) + 1]).push(
                indices[3 * (n - 1) + 2],
            )
        } else {
            prev
        }
    }
}

/// Vertex number `c` occurs in `s` before position `i`.
pub open spec fn used_before(s: Seq<u32>, c: int, i: int) -> bool {
    exists|j: int| 0 <= j < i && #[trigger] s[j] == c
}

/// `new` names the same vertices as `old` under new numbers: equal numbers
/// stay equal and different ones stay different, the new numbers are
/// `0 .. count`, each in use, and a number first appears only after all
/// smaller ones have.
pub open spec fn renumbered(new: Seq<u32>, old: Seq<u32>, count: int) -> bool {
    &&& new.len() == old.len()
    &&& forall|j: int| 0 <= j < new.len() ==> #[trigger] new[j] < count
    &&& forall|c: int| 0 <= c < count ==> #[trigger] used_before(new, c, new.len() as int)
    &&& forall|j: int, c: int|
        0 <= j < new.len() && 0 <= c < new[j] ==> #[trigger] used_before(new, c, j)
    &&& forall|i: int, j: int|
        0 <= i < new.len() && 0 <= j < new.len() ==> ((#[trigger] new[i]) == (#[trigger] new[j])
            <==> old[i] == old[j])
}

/// Every corner of `new` carries the position and normal that the matching
/// corner of `old` carries in `source`.
pub open spec fn carried<S>(out: Mesh<S>, source: Mesh<S>, old: Seq<u32>) -> bool {
    forall|j: int, k: int|
        0 <= j < old.len() && 0 <= k < 3 ==> {
            &&& #[trigger] out.coord(out.indices@[j] as int, k) == source.coord(old[j] as int, k)
            &&& out.normal(out.indices@[j] as int, k) == source.normal(old[j] as int, k)
        }
}

/// A set of 32-bit numbers that lacks one has fewer than `2^32` members.
proof fn lemma_room_for_one_more(dom: Set<u32>, missing: u32)
    requires
        dom.finite(),
        !dom.contains(missing),
    ensures
        dom.len() < 0x1_0000_0000,
{
    let all = dom.insert(missing);
    let f = |k: u32| k as int;
    let img = all.map(f);
    assert(vstd::relations::injective_on(f, all));
    lemma_map_size(all, img, f);
    lemma_int_range(0, 0x1_0000_0000);
    assert(img.subset_of(set_int_range(0, 0x1_0000_0000))) by {
        assert forall|v: int| img.contains(v) implies set_int_range(0, 0x1_0000_0000).contains(
            v,
        ) by {
            let k = choose|k: u32| all.contains(k) && f(k) == v;
        }
    }
    lemma_len_subset(img, set_int_range(0, 0x1_0000_0000));
}

/// What holds while the kept corners `olds` are being renumbered.
spec fn renumbering<S>(
    source: Mesh<S>,
    map: Map<u32, u32>,
    verts: Seq<S>,
    norms: Seq<S>,
    out: Seq<u32>,
    olds: Seq<u32>,
) -> bool {
    let count = map.dom().len() as int;
    &&& map.dom().finite()
    &&& verts.len() == 3 * count
    &&& norms.len() == 3 * count
    &&& forall|o: u32| #[trigger]
        map.contains_key(o) ==> {
            &&& o < source.vertex_count()
            &&& map[o] < count
            &&& forall|k: int|
                0 <= k < 3 ==> {
                    &&& #[trigger] verts[3 * map[o] + k] == source.coord(o as int, k)
                    &&& norms[3 * map[o] + k] == source.normal(o as int, k)
                }
        }
    &&& forall|a: u32, b: u32|
        #[trigger] map.contains_key(a) && #[trigger] map.contains_key(b) && map[a] == map[b] ==> a
            == b
    &&& out.len() == olds.len()
    &&& forall|j: int|
        0 <= j < olds.len() ==> map.contains_key(#[trigger] olds[j]) && map[olds[j]] == out[j]
    &&& forall|j: int| 0 <= j < out.len() ==> #[trigger] out[j] < count
    &&& forall|c: int| 0 <= c < count ==> #[trigger] used_before(out, c, out.len() as int)
    &&& forall|j: int, c: int|
        0 <= j < out.len() && 0 <= c < out[j] ==> #[trigger] used_before(out, c, j)
}

/// Appending a number in use, or the next unused one, keeps the numbers in
/// the order of first use.
proof fn lemma_renumber_step(before: Seq<u32>, label: u32, count: int)
    requires
        forall|j: int| 0 <= j < before.len() ==> #[trigger] before[j] < count,
        forall|c: int| 0 <= c < count ==> #[trigger] used_before(before, c, before.len() as int),
        forall|j: int, c: int|
            0 <= j < before.len() && 0 <= c < before[j] ==> #[trigger] used_before(before, c, j),
        label <= count,
    ensures
        ({
            let after = before.push(label);
            let more = if label == count {
                count + 1
            } else {
                count
            };
            &&& forall|j: int| 0 <= j < after.len() ==> #[trigger] after[j] < more
            &&& forall|c: int| 0 <= c < more ==> #[trigger] used_before(after, c, after.len() as int)
            &&& forall|j: int, c: int|
                0 <= j < after.len() && 0 <= c < after[j] ==> #[trigger] used_before(after, c, j)
        }),
{
    let after = before.push(label);
    let more = if label == count {
        count + 1
    } else {
        count
    };
    assert forall|j: int, c: int| 0 <= j < after.len() && 0 <= c < after[j] implies #[trigger] used_before(
        after,
        c,
        j,
    ) by {
        if j < before.len() {
            assert(after[j] == before[j]);
            assert(used_before(before, c, j));
            let w = choose|w: int| 0 <= w < j && #[trigger] before[w] == c;
            assert(after[w] == c);
        } else {
            assert(used_before(before, c, before.len() as int));
            let w = choose|w: int| 0 <= w < before.len() && #[trigger] before[w] == c;
            assert(after[w] == c);
        }
    }
    assert forall|c: int| 0 <= c < more implies #[trigger] used_before(
        after,
        c,
        after.len() as int,
    ) by {
        if c < count {
            assert(used_before(before, c, before.len() as int));
            let w = choose|w: int| 0 <= w < before.len() && #[trigger] before[w] == c;
            assert(after[w] == c);
        } else {
            assert(after[before.len() as int] == c);
        }
    }
    assert forall|j: int| 0 <= j < after.len() implies #[trigger] after[j] < more by {
        if j < before.len() {
            assert(after[j] == before[j]);
        }
    }
}

/// Gives one kept corner its new number, copying the vertex over when it is
/// met for the first time.
fn take_corner<S: Copy>(
    source: &Mesh<S>,
    corner: u32,
    map: &mut HashMap<u32, u32>,
    verts: &mut Vec<S>,
    norms: &mut Vec<S>,
    out: &mut Vec<u32>,
    Ghost(olds): Ghost<Seq<u32>>,
)
    requires
        source.wf(),
        corner < source.vertex_count(),
        renumbering(*source, old(map)@, old(verts)@, old(norms)@, old(out)@, olds),
    ensures
        renumbering(
            *source,
            final(map)@,
            final(verts)@,
            final(norms)@,
            final(out)@,
            olds.push(corner),
        ),
{
    broadcast use vstd::std_specs::hash::group_hash_axioms;

    let ghost map0 = map@;
    let ghost verts0 = verts@;
    let ghost norms0 = norms@;
    let ghost out0 = out@;
    let ghost count0 = map0.dom().len() as int;
    let found = map.get(&corner);
    let number = match found {
        Some(n) => *n,
        None => {
            proof {
                lemma_room_for_one_more(map0.dom(), corner);
            }
            let n = (verts.len() / 3) as u32;
            let total = source.vertices.len();
            assert(3 * corner + 2 < total);
            let at = (corner as usize) * 3;
            verts.push(source.vertices[at]);
            verts.push(source.vertices[at + 1]);
            verts.push(source.vertices[at + 2]);
            norms.push(source.normals[at]);
            norms.push(source.normals[at + 1]);
            norms.push(source.normals[at + 2]);
            map.insert(corner, n);
            proof {
                assert(map@.dom() =~= map0.dom().insert(corner));
                assert forall|o: u32| #[trigger] map@.contains_key(o) implies {
                    &&& o < source.vertex_count()
                    &&& map@[o] < count0 + 1
                    &&& forall|k: int|
                        0 <= k < 3 ==> {
                            &&& #[trigger] verts@[3 * map@[o] + k] == source.coord(o as int, k)
                            &&& norms@[3 * map@[o] + k] == source.normal(o as int, k)
                        }
                } by {
                    if o != corner {
                        assert(map0.contains_key(o));
                        assert forall|k: int| 0 <= k < 3 implies {
                            &&& #[trigger] verts@[3 * map@[o] + k] == source.coord(o as int, k)
                            &&& norms@[3 * map@[o] + k] == source.normal(o as int, k)
                        } by {
                            assert(verts0[3 * map0[o] + k] == source.coord(o as int, k));
                            assert(verts@[3 * map0[o] + k] == verts0[3 * map0[o] + k]);
                            assert(norms@[3 * map0[o] + k] == norms0[3 * map0[o] + k]);
                        }
                    }
                }
                assert forall|a: u32, b: u32|
                    #[trigger] map@.contains_key(a) && #[trigger] map@.contains_key(b) && map@[a]
                        == map@[b] implies a == b by {
                    if a != corner {
                        assert(map0.contains_key(a));
                    }
                    if b != corner {
                        assert(map0.contains_key(b));
                    }
                }
            }
            n
        },
    };
    out.push(number);
    proof {
        let news = olds.push(corner);
        lemma_renumber_step(out0, number, count0);
        assert forall|j: int| 0 <= j < news.len() implies map@.contains_key(#[trigger] news[j])
            && map@[news[j]] == out@[j] by {
            if j < olds.len() {
                assert(news[j] == olds[j]);
                assert(map0.contains_key(olds[j]));
                assert(out@[j] == out0[j]);
            }
        }
        assert(out@ == out0.push(number));
    }
}

/// Drops the triangles whose component is not valid and the vertices that no
/// remaining triangle names. The remaining vertices are numbered in the
/// order in which the remaining triangles name them, and keep their
/// positions and normals.
pub fn retain_components<S: Copy>(mesh: &Mesh<S>, components: &Vec<usize>, valid: &Vec<bool>) -> (out:
    Mesh<S>)
    requires
        mesh.wf(),
        components@.len() == mesh.vertex_count(),
        forall|i: int| 0 <= i < components@.len() ==> #[trigger] components@[i] < valid@.len(),
    ensures
        out.wf(),
        renumbered(
            out.indices@,
            kept_corners(mesh.indices@, components@, valid@, triangle_count(mesh.indices@)),
            out.vertex_count(),
        ),
        carried(
            out,
            *mesh,
            kept_corners(mesh.indices@, components@, valid@, triangle_count(mesh.indices@)),
        ),
{
    broadcast use vstd::std_specs::hash::group_hash_axioms;

    let mut map: HashMap<u32, u32> = HashMap::new();
    let mut verts: Vec<S> = Vec::new();
    let mut norms: Vec<S> = Vec::new();
    let mut out: Vec<u32> = Vec::new();
    let tris = mesh.indices.len() / 3;
    let mut t: usize = 0;
    while t < tris
        invariant
            t <= tris,
            tris == triangle_count(mesh.indices@),
            mesh.indices@.len() <= usize::MAX,
            mesh.wf(),
            components@.len() == mesh.vertex_count(),
            forall|i: int| 0 <= i < components@.len() ==> #[trigger] components@[i] < valid@.len(),
            out@.len() % 3 == 0,
            renumbering(
                *mesh,
                map@,
                verts@,
                norms@,
                out@,
                kept_corners(mesh.indices@, components@, valid@, t as int),
            ),
        decreases tris - t,
    {
        assert(3 * t + 2 < mesh.indices@.len());
        let i0 = mesh.indices[3 * t];
        let i1 = mesh.indices[3 * t + 1];
        let i2 = mesh.indices[3 * t + 2];
        let comp = components[i0 as usize];
        if valid[comp] {
            let ghost olds = kept_corners(mesh.indices@, components@, valid@, t as int);
            take_corner(mesh, i0, &mut map, &mut verts, &mut norms, &mut out, Ghost(olds));
            take_corner(mesh, i1, &mut map, &mut verts, &mut norms, &mut out, Ghost(olds.push(i0)));
            take_corner(
                mesh,
                i2,
                &mut map,
                &mut verts,
                &mut norms,
                &mut out,
                Ghost(olds.push(i0).push(i1)),
            );
        }
        t += 1;
    }
    let result = Mesh { vertices: verts, normals: norms, indices: out };
    proof {
        let olds = kept_corners(mesh.indices@, components@, valid@, tris as int);
        let count = map@.dom().len() as int;
        assert(result.vertex_count() == count);
        assert forall|i: int, j: int| 0 <= i < out@.len() && 0 <= j < out@.len() implies ((
        #[trigger] out@[i]) == (#[trigger] out@[j]) <==> olds[i] == olds[j]) by {
            assert(map@.contains_key(olds[i]) && map@[olds[i]] == out@[i]);
            assert(map@.contains_key(olds[j]) && map@[olds[j]] == out@[j]);
        }
        assert forall|j: int, k: int| 0 <= j < olds.len() && 0 <= k < 3 implies {
            &&& #[trigger] result.coord(result.indices@[j] as int, k) == mesh.coord(
                olds[j] as int,
                k,
            )
            &&& result.normal(result.indices@[j] as int, k) == mesh.normal(olds[j] as int, k)
        } by {
            assert(map@.contains_key(olds[j]) && map@[olds[j]] == out@[j]);
            assert(verts@[3 * map@[olds[j]] + k] == mesh.coord(olds[j] as int, k));
        }
    }
    result
}

/// The component filter. With at most one component the mesh is returned as
/// it is. Otherwise the triangles of the components that `valid` rejects are
/// dropped and the remaining vertices renumbered; see `retain_components`.
pub fn filter_ses_components<S: Copy>(
    mesh: Mesh<S>,
    components: &Vec<usize>,
    count: usize,
    valid: &Vec<bool>,
) -> (out: Mesh<S>)
    requires
        mesh.wf(),
        components@.len() == mesh.vertex_count(),
        count > 1 ==> forall|i: int|
            0 <= i < components@.len() ==> #[trigger] components@[i] < valid@.len(),
    ensures
        out.wf(),
        count <= 1 ==> out == mesh,
        count > 1 ==> renumbered(
            out.indices@,
            kept_corners(mesh.indices@, components@, valid@, triangle_count(mesh.indices@)),
            out.vertex_count(),
        ) && carried(
            out,
            mesh,
            kept_corners(mesh.indices@, components@, valid@, triangle_count(mesh.indices@)),
        ),
{
    if count <= 1 {
        return mesh;
    }
    retain_components(&mesh, components, valid)
}

} // verus!
