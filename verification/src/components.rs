//! Connected components of a triangle list.
//!
//! Two vertices belong together when a chain of triangles leads from one to
//! the other. The components are found with a union-find forest, compressed
//! in two passes on every lookup, and are numbered from zero in the order in
//! which their first vertex appears.

use std::collections::HashMap;
use vstd::prelude::*;

verus! {

/// Number of whole triangles in a triangle list.
pub open spec fn triangle_count(indices: Seq<u32>) -> int {
    indices.len() as int / 3
}

/// The labelling gives one label to the three corners of triangle `t`.
pub open spec fn joined<L>(labels: Seq<L>, indices: Seq<u32>, t: int) -> bool {
    &&& labels[indices[3 * t] as int] == labels[indices[3 * t + 1] as int]
    &&& labels[indices[3 * t + 1] as int] == labels[indices[3 * t + 2] as int]
}

/// The labelling gives one label to the three corners of each of the first
/// `n` triangles.
pub open spec fn joins<L>(labels: Seq<L>, indices: Seq<u32>, n: int) -> bool {
    forall|t: int| 0 <= t < n ==> #[trigger] joined(labels, indices, t)
}

/// Vertices that `fine` puts together, `coarse` puts together too.
pub open spec fn refines(fine: Seq<usize>, coarse: Seq<int>) -> bool {
    forall|a: int, b: int|
        0 <= a < fine.len() && 0 <= b < fine.len() && #[trigger] fine[a] == #[trigger] fine[b]
            ==> coarse[a] == coarse[b]
}

/// The labels are `0 .. count`, each in use, and a label first appears only
/// after all smaller ones have.
pub open spec fn numbered_by_first_use(labels: Seq<usize>, count: int) -> bool {
    &&& forall|i: int| 0 <= i < labels.len() ==> #[trigger] labels[i] < count
    &&& forall|c: int| 0 <= c < count ==> #[trigger] first_use_before(labels, c, labels.len() as int)
    &&& forall|i: int, c: int|
        0 <= i < labels.len() && 0 <= c < labels[i] ==> #[trigger] first_use_before(labels, c, i)
}

/// Label `c` is in use before position `i`.
pub open spec fn first_use_before(labels: Seq<usize>, c: int, i: int) -> bool {
    exists|j: int| 0 <= j < i && #[trigger] labels[j] == c
}

/// `labels` are the connected components of the triangle list: corners of a
/// triangle share a label, and no labelling with that property tells apart
/// two vertices that share a label here.
pub open spec fn are_components(labels: Seq<usize>, count: int, indices: Seq<u32>) -> bool {
    &&& numbered_by_first_use(labels, count)
    &&& joins(labels, indices, triangle_count(indices))
    &&& forall|other: Seq<int>|
        other.len() == labels.len() && #[trigger] joins(other, indices, triangle_count(indices))
            ==> refines(labels, other)
}

/// Every triangle corner of the whole triangles names a vertex.
pub open spec fn corners_in_range(indices: Seq<u32>, vertex_count: int) -> bool {
    forall|j: int| 0 <= j < 3 * triangle_count(indices) ==> #[trigger] indices[j] < vertex_count
}

/// A forest of parent links in which `rep[x]` is the root above `x` and
/// `dist[x]` bounds the number of links from `x` to it.
spec fn forest(parent: Seq<usize>, rep: Seq<int>, dist: Seq<nat>) -> bool {
    &&& rep.len() == parent.len()
    &&& dist.len() == parent.len()
    &&& forall|x: int|
        #![trigger parent[x]]
        #![trigger rep[x]]
        #![trigger dist[x]]
        0 <= x < parent.len() ==> {
            &&& 0 <= parent[x] < parent.len()
            &&& 0 <= rep[x] < parent.len()
            &&& parent[rep[x]] == rep[x]
            &&& (parent[x] == x ==> rep[x] == x && dist[x] == 0)
            &&& (parent[x] != x ==> rep[parent[x] as int] == rep[x] && dist[parent[x] as int]
                < dist[x])
        }
}

/// The roots after the tree under `a` has been hung below `b`.
spec fn merged(rep: Seq<int>, a: int, b: int) -> Seq<int> {
    Seq::new(rep.len(), |z: int| if rep[z] == a { b } else { rep[z] })
}

/// Finds the root above `x` and hangs every vertex on the way directly below
/// it.
fn find(
    parent: &mut Vec<usize>,
    x: usize,
    Ghost(rep): Ghost<Seq<int>>,
    Ghost(dist): Ghost<Seq<nat>>,
) -> (res: (usize, Ghost<Seq<nat>>))
    requires
        forest(old(parent)@, rep, dist),
        x < old(parent)@.len(),
    ensures
        forest(final(parent)@, rep, res.1@),
        res.0 == rep[x as int],
        final(parent)@.len() == old(parent)@.len(),
{
    let mut r = x;
    while parent[r] != r
        invariant
            forest(parent@, rep, dist),
            r < parent@.len(),
            rep[r as int] == rep[x as int],
        decreases dist[r as int],
    {
        r = parent[r];
    }
    let mut y = x;
    let ghost mut d = dist;
    while parent[y] != y
        invariant
            forest(parent@, rep, d),
            parent@.len() == old(parent)@.len(),
            y < parent@.len(),
            r < parent@.len(),
            rep[y as int] == r,
            r == rep[x as int],
        decreases d[y as int],
    {
        let next = parent[y];
        let ghost before = parent@;
        let ghost d_before = d;
        parent.set(y, r);
        proof {
            d = d.update(y as int, 1);
            assert forall|z: int|
                #![trigger parent@[z]]
                #![trigger rep[z]]
                #![trigger d[z]]
                0 <= z < parent@.len() implies {
                &&& 0 <= parent@[z] < parent@.len()
                &&& 0 <= rep[z] < parent@.len()
                &&& parent@[rep[z]] == rep[z]
                &&& (parent@[z] == z ==> rep[z] == z && d[z] == 0)
                &&& (parent@[z] != z ==> rep[parent@[z] as int] == rep[z] && d[parent@[z] as int]
                    < d[z])
            } by {
                assert(0 <= before[z] < before.len());
                assert(before[r as int] == r);
                assert(before[y as int] != y);
            }
        }
        y = next;
    }
    (r, Ghost(d))
}

/// Puts `x` and `y` into one tree.
fn union(
    parent: &mut Vec<usize>,
    x: usize,
    y: usize,
    Ghost(rep): Ghost<Seq<int>>,
    Ghost(dist): Ghost<Seq<nat>>,
) -> (res: Ghost<(Seq<int>, Seq<nat>)>)
    requires
        forest(old(parent)@, rep, dist),
        x < old(parent)@.len(),
        y < old(parent)@.len(),
    ensures
        forest(final(parent)@, res@.0, res@.1),
        res@.0 == merged(rep, rep[x as int], rep[y as int]),
        final(parent)@.len() == old(parent)@.len(),
{
    let first = find(parent, x, Ghost(rep), Ghost(dist));
    let px = first.0;
    let ghost d1 = first.1@;
    let second = find(parent, y, Ghost(rep), Ghost(d1));
    let py = second.0;
    let ghost d2 = second.1@;
    if px != py {
        let ghost before = parent@;
        parent.set(px, py);
        let ghost rep2 = merged(rep, px as int, py as int);
        let ghost d3 = Seq::new(d2.len(), |z: int| if rep[z] == px { d2[z] + 1 } else { d2[z] });
        proof {
            assert forall|z: int|
                #![trigger parent@[z]]
                #![trigger rep2[z]]
                #![trigger d3[z]]
                0 <= z < parent@.len() implies {
                &&& 0 <= parent@[z] < parent@.len()
                &&& 0 <= rep2[z] < parent@.len()
                &&& parent@[rep2[z]] == rep2[z]
                &&& (parent@[z] == z ==> rep2[z] == z && d3[z] == 0)
                &&& (parent@[z] != z ==> rep2[parent@[z] as int] == rep2[z] && d3[parent@[z] as int]
                    < d3[z])
            } by {
                assert(0 <= before[z] < before.len());
                assert(before[px as int] == px);
                assert(before[py as int] == py);
                assert(before[rep[z]] == rep[z]);
            }
        }
        Ghost((rep2, d3))
    } else {
        proof {
            assert(merged(rep, px as int, py as int) =~= rep);
        }
        Ghost((rep, d2))
    }
}

/// `other` gives every vertex the label of its root.
spec fn follows_roots(other: Seq<int>, rep: Seq<int>) -> bool {
    forall|x: int| 0 <= x < rep.len() ==> other[x] == other[#[trigger] rep[x]]
}

/// Every labelling that joins the first `n` triangles follows the roots.
spec fn roots_are_forced(rep: Seq<int>, indices: Seq<u32>, n: int) -> bool {
    forall|other: Seq<int>|
        other.len() == rep.len() && #[trigger] joins(other, indices, n) ==> follows_roots(
            other,
            rep,
        )
}

proof fn lemma_merge_keeps_joins(rep: Seq<int>, indices: Seq<u32>, n: int, a: int, b: int)
    requires
        joins(rep, indices, n),
        0 <= n <= triangle_count(indices),
        corners_in_range(indices, rep.len() as int),
    ensures
        joins(merged(rep, a, b), indices, n),
{
    let m = merged(rep, a, b);
    assert forall|t: int| 0 <= t < n implies #[trigger] joined(m, indices, t) by {
        assert(joined(rep, indices, t));
        assert(indices[3 * t] < rep.len());
        assert(indices[3 * t + 1] < rep.len());
        assert(indices[3 * t + 2] < rep.len());
    }
}

proof fn lemma_merge_follows_roots(other: Seq<int>, rep: Seq<int>, u: int, v: int)
    requires
        other.len() == rep.len(),
        follows_roots(other, rep),
        0 <= u < rep.len(),
        0 <= v < rep.len(),
        other[u] == other[v],
    ensures
        follows_roots(other, merged(rep, rep[u], rep[v])),
{
    let m = merged(rep, rep[u], rep[v]);
    assert forall|x: int| 0 <= x < m.len() implies other[x] == other[#[trigger] m[x]] by {
        assert(other[x] == other[rep[x]]);
        assert(other[u] == other[rep[u]]);
        assert(other[v] == other[rep[v]]);
    }
}

/// Taking in one more triangle: its corners are joined, which keeps the
/// earlier triangles joined and forces nothing that a joining labelling could
/// refuse.
proof fn lemma_triangle_taken_in(
    rep0: Seq<int>,
    rep1: Seq<int>,
    rep2: Seq<int>,
    indices: Seq<u32>,
    t: int,
)
    requires
        0 <= t < triangle_count(indices),
        corners_in_range(indices, rep0.len() as int),
        joins(rep0, indices, t),
        roots_are_forced(rep0, indices, t),
        rep1 == merged(rep0, rep0[indices[3 * t] as int], rep0[indices[3 * t + 1] as int]),
        rep2 == merged(rep1, rep1[indices[3 * t + 1] as int], rep1[indices[3 * t + 2] as int]),
    ensures
        joins(rep2, indices, t + 1),
        roots_are_forced(rep2, indices, t + 1),
{
    let i0 = indices[3 * t] as int;
    let i1 = indices[3 * t + 1] as int;
    let i2 = indices[3 * t + 2] as int;
    assert(indices[3 * t] < rep0.len());
    assert(indices[3 * t + 1] < rep0.len());
    assert(indices[3 * t + 2] < rep0.len());
    lemma_merge_keeps_joins(rep0, indices, t, rep0[i0], rep0[i1]);
    lemma_merge_keeps_joins(rep1, indices, t, rep1[i1], rep1[i2]);
    assert(rep1[i0] == rep1[i1]);
    assert(rep2[i0] == rep2[i1]);
    assert(rep2[i1] == rep2[i2]);
    assert(joined(rep2, indices, t));
    assert(joins(rep2, indices, t + 1));
    assert forall|other: Seq<int>|
        other.len() == rep2.len() && #[trigger] joins(other, indices, t + 1) implies follows_roots(
        other,
        rep2,
    ) by {
        assert(joins(other, indices, t));
        assert(follows_roots(other, rep0));
        assert(joined(other, indices, t));
        lemma_merge_follows_roots(other, rep0, i0, i1);
        lemma_merge_follows_roots(other, rep1, i1, i2);
    }
}

/// Builds the forest in which the corners of every triangle share a root.
fn link_triangles(vertex_count: usize, indices: &Vec<u32>) -> (res: (
    Vec<usize>,
    Ghost<Seq<int>>,
    Ghost<Seq<nat>>,
))
    requires
        corners_in_range(indices@, vertex_count as int),
    ensures
        res.0@.len() == vertex_count,
        res.1@.len() == vertex_count,
        forest(res.0@, res.1@, res.2@),
        joins(res.1@, indices@, triangle_count(indices@)),
        roots_are_forced(res.1@, indices@, triangle_count(indices@)),
{
    let mut parent: Vec<usize> = Vec::new();
    let mut i: usize = 0;
    while i < vertex_count
        invariant
            i <= vertex_count,
            parent@.len() == i,
            forall|j: int| 0 <= j < i ==> parent@[j] == j,
        decreases vertex_count - i,
    {
        parent.push(i);
        i += 1;
    }
    let ghost mut rep = Seq::new(vertex_count as nat, |x: int| x);
    let ghost mut dist = Seq::new(vertex_count as nat, |x: int| 0nat);
    let tris = indices.len() / 3;
    let mut t: usize = 0;
    proof {
        assert forall|other: Seq<int>|
            other.len() == rep.len() && #[trigger] joins(other, indices@, 0) implies follows_roots(
            other,
            rep,
        ) by {}
    }
    while t < tris
        invariant
            t <= tris,
            tris == triangle_count(indices@),
            indices@.len() <= usize::MAX,
            parent@.len() == vertex_count,
            rep.len() == vertex_count,
            forest(parent@, rep, dist),
            corners_in_range(indices@, vertex_count as int),
            joins(rep, indices@, t as int),
            roots_are_forced(rep, indices@, t as int),
        decreases tris - t,
    {
        assert(3 * t + 2 < indices@.len());
        assert(indices@[3 * t] < vertex_count);
        assert(indices@[3 * t + 1] < vertex_count);
        assert(indices@[3 * t + 2] < vertex_count);
        let i0 = indices[3 * t] as usize;
        let i1 = indices[3 * t + 1] as usize;
        let i2 = indices[3 * t + 2] as usize;
        let ghost rep0 = rep;
        let m1 = union(&mut parent, i0, i1, Ghost(rep), Ghost(dist));
        let ghost rep1 = m1@.0;
        let m2 = union(&mut parent, i1, i2, Ghost(rep1), Ghost(m1@.1));
        proof {
            lemma_triangle_taken_in(rep0, rep1, m2@.0, indices@, t as int);
            rep = m2@.0;
            dist = m2@.1;
        }
        t += 1;
    }
    (parent, Ghost(rep), Ghost(dist))
}

/// What the numbering pass has established after some vertices.
spec fn labelled(rep: Seq<int>, comps: Seq<usize>, map: Map<usize, usize>, next: int) -> bool {
    &&& forall|j: int|
        #![trigger comps[j]]
        #![trigger rep[j]]
        0 <= j < comps.len() ==> map.contains_key(rep[j] as usize) && map[rep[j] as usize]
            == comps[j]
    &&& forall|r: usize| #[trigger] map.contains_key(r) ==> map[r] < next
    &&& forall|r1: usize, r2: usize|
        #[trigger] map.contains_key(r1) && #[trigger] map.contains_key(r2) && map[r1] == map[r2]
            ==> r1 == r2
}

/// Appending a label in use, or the next unused one, keeps the numbering.
proof fn lemma_numbering_step(before: Seq<usize>, label: usize, next: int)
    requires
        numbered_by_first_use(before, next),
        label <= next,
    ensures
        numbered_by_first_use(
            before.push(label),
            if label == next {
                next + 1
            } else {
                next
            },
        ),
{
    let after = before.push(label);
    let count = if label == next {
        next + 1
    } else {
        next
    };
    assert forall|i: int, c: int| 0 <= i < after.len() && 0 <= c < after[i] implies #[trigger] first_use_before(
        after,
        c,
        i,
    ) by {
        if i < before.len() {
            assert(after[i] == before[i]);
            assert(first_use_before(before, c, i));
            let w = choose|w: int| 0 <= w < i && #[trigger] before[w] == c;
            assert(after[w] == c);
        } else {
            assert(first_use_before(before, c, before.len() as int));
            let w = choose|w: int| 0 <= w < before.len() && #[trigger] before[w] == c;
            assert(after[w] == c);
        }
    }
    assert forall|c: int| 0 <= c < count implies #[trigger] first_use_before(
        after,
        c,
        after.len() as int,
    ) by {
        if c < next {
            assert(first_use_before(before, c, before.len() as int));
            let w = choose|w: int| 0 <= w < before.len() && #[trigger] before[w] == c;
            assert(after[w] == c);
        } else {
            assert(after[before.len() as int] == c);
        }
    }
    assert forall|i: int| 0 <= i < after.len() implies #[trigger] after[i] < count by {
        if i < before.len() {
            assert(after[i] == before[i]);
        }
    }
}

/// Numbers the roots of the forest in the order in which their first vertex
/// appears, and labels every vertex with the number of its root.
fn number_roots(parent: &mut Vec<usize>, Ghost(rep): Ghost<Seq<int>>, Ghost(dist0): Ghost<Seq<nat>>) -> (r: (
    Vec<usize>,
    usize,
))
    requires
        forest(old(parent)@, rep, dist0),
    ensures
        r.0@.len() == rep.len(),
        numbered_by_first_use(r.0@, r.1 as int),
        forall|a: int, b: int|
            0 <= a < rep.len() && 0 <= b < rep.len() ==> ((#[trigger] r.0@[a]) == (#[trigger] r.0@[b])
                <==> rep[a] == rep[b]),
{
    broadcast use vstd::std_specs::hash::group_hash_axioms;

    let vertex_count = parent.len();
    let ghost mut dist = dist0;
    let mut map: HashMap<usize, usize> = HashMap::new();
    let mut components: Vec<usize> = Vec::new();
    let mut next: usize = 0;
    let mut i: usize = 0;
    while i < vertex_count
        invariant
            i <= vertex_count,
            components@.len() == i,
            next <= i,
            parent@.len() == vertex_count,
            rep.len() == vertex_count,
            forest(parent@, rep, dist),
            labelled(rep, components@, map@, next as int),
            numbered_by_first_use(components@, next as int),
        decreases vertex_count - i,
    {
        let f = find(parent, i, Ghost(rep), Ghost(dist));
        let root = f.0;
        proof {
            dist = f.1@;
        }
        let ghost before = components@;
        let ghost map_before = map@;
        let ghost next_before = next;
        let known = map.get(&root);
        let label = match known {
            Some(l) => *l,
            None => next,
        };
        if label == next {
            map.insert(root, label);
            next += 1;
        }
        components.push(label);
        proof {
            lemma_numbering_step(before, label, next_before as int);
            assert forall|j: int|
                #![trigger components@[j]]
                #![trigger rep[j]]
                0 <= j < components@.len() implies map@.contains_key(rep[j] as usize)
                && map@[rep[j] as usize] == components@[j] by {
                if j < before.len() {
                    assert(before[j] == components@[j]);
                    assert(map_before.contains_key(rep[j] as usize));
                }
            }
            assert forall|r1: usize, r2: usize|
                #[trigger] map@.contains_key(r1) && #[trigger] map@.contains_key(r2) && map@[r1]
                    == map@[r2] implies r1 == r2 by {
                if r1 != root {
                    assert(map_before.contains_key(r1));
                }
                if r2 != root {
                    assert(map_before.contains_key(r2));
                }
            }
            assert forall|r: usize| #[trigger] map@.contains_key(r) implies map@[r] < next by {
                if r != root {
                    assert(map_before.contains_key(r));
                }
            }
        }
        i += 1;
    }
    proof {
        let comps = components@;
        assert forall|a: int, b: int| 0 <= a < rep.len() && 0 <= b < rep.len() implies ((
        #[trigger] comps[a]) == (#[trigger] comps[b]) <==> rep[a] == rep[b]) by {
            assert(map@.contains_key(rep[a] as usize) && map@[rep[a] as usize] == comps[a]);
            assert(map@.contains_key(rep[b] as usize) && map@[rep[b] as usize] == comps[b]);
            assert(0 <= rep[a] < vertex_count && 0 <= rep[b] < vertex_count);
        }
    }
    (components, next)
}

/// Labels the vertices `0 .. vertex_count` by the connected component they
/// belong to in the triangle list `indices`. A trailing incomplete triangle
/// is ignored. Returns the labels and the number of components.
pub fn find_connected_components(vertex_count: usize, indices: &Vec<u32>) -> (r: (
    Vec<usize>,
    usize,
))
    requires
        corners_in_range(indices@, vertex_count as int),
    ensures
        r.0@.len() == vertex_count,
        are_components(r.0@, r.1 as int, indices@),
{
    let linked = link_triangles(vertex_count, indices);
    let mut parent = linked.0;
    let ghost rep = linked.1@;
    let r = number_roots(&mut parent, Ghost(rep), Ghost(linked.2@));
    proof {
        let comps = r.0@;
        assert forall|t: int| 0 <= t < triangle_count(indices@) implies #[trigger] joined(
            comps,
            indices@,
            t,
        ) by {
            assert(joined(rep, indices@, t));
            assert(indices@[3 * t] < vertex_count);
            assert(indices@[3 * t + 1] < vertex_count);
            assert(indices@[3 * t + 2] < vertex_count);
        }
        assert forall|other: Seq<int>|
            other.len() == comps.len() && #[trigger] joins(
                other,
                indices@,
                triangle_count(indices@),
            ) implies refines(comps, other) by {
            assert(follows_roots(other, rep));
            assert forall|a: int, b: int|
                0 <= a < comps.len() && 0 <= b < comps.len() && #[trigger] comps[a]
                    == #[trigger] comps[b] implies other[a] == other[b] by {
                assert(rep[a] == rep[b]);
                assert(other[a] == other[rep[a]]);
                assert(other[b] == other[rep[b]]);
            }
        }
    }
    r
}


/// Vertex `v` is a corner of triangle `t`.
pub open spec fn has_corner(indices: Seq<u32>, t: int, v: int) -> bool {
    indices[3 * t] == v || indices[3 * t + 1] == v || indices[3 * t + 2] == v
}

/// Some triangle has both `a` and `b` among its corners.
pub open spec fn share_triangle(indices: Seq<u32>, a: int, b: int) -> bool {
    exists|t: int|
        0 <= t < triangle_count(indices) && #[trigger] has_corner(indices, t, a) && has_corner(
            indices,
            t,
            b,
        )
}

/// Each vertex of `p` shares a triangle with the next.
pub open spec fn is_chain(indices: Seq<u32>, p: Seq<int>) -> bool {
    &&& p.len() >= 1
    &&& forall|i: int| 0 <= i < p.len() - 1 ==> share_triangle(indices, #[trigger] p[i], p[i + 1])
}

/// A chain of triangles leads from `a` to `b`.
pub open spec fn chained(indices: Seq<u32>, a: int, b: int) -> bool {
    exists|p: Seq<int>| #[trigger] is_chain(indices, p) && p[0] == a && p[p.len() - 1] == b
}

proof fn lemma_chain_to_itself(indices: Seq<u32>, a: int)
    ensures
        chained(indices, a, a),
{
    let p = seq![a];
    assert(is_chain(indices, p) && p[0] == a && p[p.len() - 1] == a);
}

proof fn lemma_chain_one_more(indices: Seq<u32>, a: int, u: int, v: int)
    requires
        chained(indices, a, u),
        share_triangle(indices, u, v),
    ensures
        chained(indices, a, v),
{
    let p = choose|p: Seq<int>| #[trigger] is_chain(indices, p) && p[0] == a && p[p.len() - 1] == u;
    let q = p.push(v);
    assert forall|i: int| 0 <= i < q.len() - 1 implies share_triangle(
        indices,
        #[trigger] q[i],
        q[i + 1],
    ) by {
        if i < p.len() - 1 {
            assert(q[i] == p[i] && q[i + 1] == p[i + 1]);
        }
    }
    assert(is_chain(indices, q) && q[0] == a && q[q.len() - 1] == v);
}

proof fn lemma_chain_keeps_label(labels: Seq<usize>, indices: Seq<u32>, p: Seq<int>)
    requires
        is_chain(indices, p),
        joins(labels, indices, triangle_count(indices)),
        corners_in_range(indices, labels.len() as int),
    ensures
        p.len() > 1 ==> 0 <= p[0] < labels.len() && 0 <= p[p.len() - 1] < labels.len()
            && labels[p[0]] == labels[p[p.len() - 1]],
    decreases p.len(),
{
    if p.len() > 1 {
        let q = p.drop_last();
        assert forall|i: int| 0 <= i < q.len() - 1 implies share_triangle(
            indices,
            #[trigger] q[i],
            q[i + 1],
        ) by {
            assert(q[i] == p[i] && q[i + 1] == p[i + 1]);
        }
        lemma_chain_keeps_label(labels, indices, q);
        let u = p[p.len() - 2];
        let v = p[p.len() - 1];
        assert(share_triangle(indices, u, v));
        let t = choose|t: int|
            0 <= t < triangle_count(indices) && #[trigger] has_corner(indices, t, u) && has_corner(
                indices,
                t,
                v,
            );
        assert(joined(labels, indices, t));
        assert(indices[3 * t] < labels.len());
        assert(indices[3 * t + 1] < labels.len());
        assert(indices[3 * t + 2] < labels.len());
        assert(q[q.len() - 1] == u);
        assert(q[0] == p[0]);
    }
}

/// Two vertices belong to one component exactly when a chain of triangles
/// leads from one to the other.
pub proof fn lemma_components_are_chains(
    labels: Seq<usize>,
    count: int,
    indices: Seq<u32>,
    a: int,
    b: int,
)
    requires
        are_components(labels, count, indices),
        corners_in_range(indices, labels.len() as int),
        0 <= a < labels.len(),
        0 <= b < labels.len(),
    ensures
        labels[a] == labels[b] <==> chained(indices, a, b),
{
    if chained(indices, a, b) {
        let p = choose|p: Seq<int>| #[trigger]
            is_chain(indices, p) && p[0] == a && p[p.len() - 1] == b;
        lemma_chain_keeps_label(labels, indices, p);
    }
    if labels[a] == labels[b] {
        let reached = Seq::new(
            labels.len(),
            |x: int|
                if chained(indices, a, x) {
                    1int
                } else {
                    0int
                },
        );
        assert forall|t: int| 0 <= t < triangle_count(indices) implies #[trigger] joined(
            reached,
            indices,
            t,
        ) by {
            let i0 = indices[3 * t] as int;
            let i1 = indices[3 * t + 1] as int;
            let i2 = indices[3 * t + 2] as int;
            assert(indices[3 * t] < labels.len());
            assert(indices[3 * t + 1] < labels.len());
            assert(indices[3 * t + 2] < labels.len());
            assert(has_corner(indices, t, i0) && has_corner(indices, t, i1) && has_corner(
                indices,
                t,
                i2,
            ));
            assert(share_triangle(indices, i0, i1) && share_triangle(indices, i1, i0));
            assert(share_triangle(indices, i1, i2) && share_triangle(indices, i2, i1));
            if chained(indices, a, i0) {
                lemma_chain_one_more(indices, a, i0, i1);
            }
            if chained(indices, a, i1) {
                lemma_chain_one_more(indices, a, i1, i0);
                lemma_chain_one_more(indices, a, i1, i2);
            }
            if chained(indices, a, i2) {
                lemma_chain_one_more(indices, a, i2, i1);
            }
        }
        assert(joins(reached, indices, triangle_count(indices)));
        assert(refines(labels, reached));
        lemma_chain_to_itself(indices, a);
        assert(reached[a] == 1);
        assert(reached[b] == 1);
    }
}


} // verus!
