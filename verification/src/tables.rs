//! The cube tables of marching cubes.
//!
//! A cube has eight corners and twelve edges. Corner `c` sits at the lattice
//! offset `CORNER_OFFSETS[c]` from the cube's origin, and edge `e` joins the
//! corners `EDGE_CORNERS[e]`. A cube's configuration is the 8-bit number whose
//! bit `c` tells whether corner `c` lies below the isovalue. `EDGE_TABLE`
//! gives, for each configuration, the set of edges the surface crosses, and
//! `TRI_TABLE` the triangles that close the surface within the cube, as edge
//! numbers in threes, ended by `-1`.
//!
//! Every row of both tables is proved here to agree with the corner and
//! edge numbering: an edge is marked exactly when its corners differ, and
//! every triangle names three marked edges.

use vstd::prelude::*;

verus! {

/// Lattice offset of each cube corner from the cube's origin.
pub const CORNER_OFFSETS: [[usize; 3]; 8] = [
    [0, 0, 0],
    [1, 0, 0],
    [1, 1, 0],
    [0, 1, 0],
    [0, 0, 1],
    [1, 0, 1],
    [1, 1, 1],
    [0, 1, 1],
];

/// The two corners that each cube edge joins, in the order in which a
/// crossing on the edge is interpolated.
pub const EDGE_CORNERS: [[usize; 2]; 12] = [
    [0, 1],
    [1, 2],
    [2, 3],
    [3, 0],
    [4, 5],
    [5, 6],
    [6, 7],
    [7, 4],
    [0, 4],
    [1, 5],
    [2, 6],
    [3, 7],
];

/// For each cube configuration, the crossed edges: bit `e` is set when edge
/// `e` has one corner below the isovalue and one not.
pub const EDGE_TABLE: [u16; 256] = [
    0x000, 0x109, 0x203, 0x30a, 0x406, 0x50f, 0x605, 0x70c,
    0x80c, 0x905, 0xa0f, 0xb06, 0xc0a, 0xd03, 0xe09, 0xf00,
    0x190, 0x099, 0x393, 0x29a, 0x596, 0x49f, 0x795, 0x69c,
    0x99c, 0x895, 0xb9f, 0xa96, 0xd9a, 0xc93, 0xf99, 0xe90,
    0x230, 0x339, 0x033, 0x13a, 0x636, 0x73f, 0x435, 0x53c,
    0xa3c, 0xb35, 0x83f, 0x936, 0xe3a, 0xf33, 0xc39, 0xd30,
    0x3a0, 0x2a9, 0x1a3, 0x0aa, 0x7a6, 0x6af, 0x5a5, 0x4ac,
    0xbac, 0xaa5, 0x9af, 0x8a6, 0xfaa, 0xea3, 0xda9, 0xca0,
    0x460, 0x569, 0x663, 0x76a, 0x066, 0x16f, 0x265, 0x36c,
    0xc6c, 0xd65, 0xe6f, 0xf66, 0x86a, 0x963, 0xa69, 0xb60,
    0x5f0, 0x4f9, 0x7f3, 0x6fa, 0x1f6, 0x0ff, 0x3f5, 0x2fc,
    0xdfc, 0xcf5, 0xfff, 0xef6, 0x9fa, 0x8f3, 0xbf9, 0xaf0,
    0x650, 0x759, 0x453, 0x55a, 0x256, 0x35f, 0x055, 0x15c,
    0xe5c, 0xf55, 0xc5f, 0xd56, 0xa5a, 0xb53, 0x859, 0x950,
    0x7c0, 0x6c9, 0x5c3, 0x4ca, 0x3c6, 0x2cf, 0x1c5, 0x0cc,
    0xfcc, 0xec5, 0xdcf, 0xcc6, 0xbca, 0xac3, 0x9c9, 0x8c0,
    0x8c0, 0x9c9, 0xac3, 0xbca, 0xcc6, 0xdcf, 0xec5, 0xfcc,
    0x0cc, 0x1c5, 0x2cf, 0x3c6, 0x4ca, 0x5c3, 0x6c9, 0x7c0,
    0x950, 0x859, 0xb53, 0xa5a, 0xd56, 0xc5f, 0xf55, 0xe5c,
    0x15c, 0x055, 0x35f, 0x256, 0x55a, 0x453, 0x759, 0x650,
    0xaf0, 0xbf9, 0x8f3, 0x9fa, 0xef6, 0xfff, 0xcf5, 0xdfc,
    0x2fc, 0x3f5, 0x0ff, 0x1f6, 0x6fa, 0x7f3, 0x4f9, 0x5f0,
    0xb60, 0xa69, 0x963, 0x86a, 0xf66, 0xe6f, 0xd65, 0xc6c,
    0x36c, 0x265, 0x16f, 0x066, 0x76a, 0x663, 0x569, 0x460,
    0xca0, 0xda9, 0xea3, 0xfaa, 0x8a6, 0x9af, 0xaa5, 0xbac,
    0x4ac, 0x5a5, 0x6af, 0x7a6, 0x0aa, 0x1a3, 0x2a9, 0x3a0,
    0xd30, 0xc39, 0xf33, 0xe3a, 0x936, 0x83f, 0xb35, 0xa3c,
    0x53c, 0x435, 0x73f, 0x636, 0x13a, 0x033, 0x339, 0x230,
    0xe90, 0xf99, 0xc93, 0xd9a, 0xa96, 0xb9f, 0x895, 0x99c,
    0x69c, 0x795, 0x49f, 0x596, 0x29a, 0x393, 0x099, 0x190,
    0xf00, 0xe09, 0xd03, 0xc0a, 0xb06, 0xa0f, 0x905, 0x80c,
    0x70c, 0x605, 0x50f, 0x406, 0x30a, 0x203, 0x109, 0x000,
];

/// For each cube configuration, up to five triangles, each as three edge
/// numbers. A row packs its sixteen entries four bits apiece, entry `t` in
/// bits `4 * t .. 4 * t + 4`; the entry 15 ends the row and reads as `-1`.
pub const TRI_TABLE: [u64; 256] = [
    0xffffffffffffffff, 0xfffffffffffff380, 0xfffffffffffff910, 0xffffffffff189381,
    0xfffffffffffffa21, 0xffffffffffa21380, 0xffffffffff920a29, 0xfffffff89a8a2382,
    0xfffffffffffff2b3, 0xffffffffff0b82b0, 0xffffffffffb32091, 0xfffffffb89b912b1,
    0xffffffffff3ab1a3, 0xfffffffab8a801a0, 0xfffffff9ab9b3093, 0xffffffffffb8aa89,
    0xfffffffffffff874, 0xffffffffff437034, 0xffffffffff748910, 0xfffffff137174914,
    0xffffffffff748a21, 0xfffffffa21403743, 0xfffffff748209a29, 0xffff4973727929a2,
    0xffffffffff2b3748, 0xfffffff40242b74b, 0xfffffffb32748109, 0xffff1292b9b49b74,
    0xfffffff487ab31a3, 0xffff4b7401b41ab1, 0xffff30bab9b09874, 0xfffffffab99b4b74,
    0xfffffffffffff459, 0xffffffffff380459, 0xffffffffff051450, 0xfffffff513538458,
    0xffffffffff459a21, 0xfffffff594a21803, 0xfffffff204245a25, 0xffff8434535235a2,
    0xffffffffffb32459, 0xfffffff594b802b0, 0xfffffffb32510450, 0xffff584b82852512,
    0xfffffff45931ab3a, 0xffffab81a8180594, 0xffff30bab5b05045, 0xfffffffb8aa85845,
    0xffffffffff975879, 0xfffffff375359039, 0xfffffff751710870, 0xffffffffff753351,
    0xfffffff21a759879, 0xffff37503505921a, 0xffff25a758528208, 0xfffffff7533525a2,
    0xfffffff2b3987597, 0xffffb72029279759, 0xffff751871810b32, 0xfffffff51771b12b,
    0xffffb3a31a758859, 0xf0aba010b7905075, 0xf07570805a30b0ab, 0xffffffffff5b75ab,
    0xfffffffffffff56a, 0xffffffffff6a5380, 0xffffffffff6a5109, 0xfffffff6a5891381,
    0xffffffffff162561, 0xfffffff803621561, 0xfffffff620609569, 0xffff823625285895,
    0xffffffffff56ab32, 0xfffffff56a02b80b, 0xfffffff6a5b32910, 0xffffb892b92916a5,
    0xfffffff315356b36, 0xffff6b51505b0b80, 0xffff9505606306b3, 0xfffffff89bb96956,
    0xffffffffff8746a5, 0xfffffffa56374034, 0xfffffff7486a5091, 0xffff49737179156a,
    0xfffffff874156216, 0xffff743403625521, 0xffff620560509748, 0xf962695923497937,
    0xfffffff56a4872b3, 0xffffb720242746a5, 0xffff6a5b32874910, 0xf6a54b7b492b9129,
    0xffff6b51535b3748, 0xfb404b7b016b5b15, 0xf74836b630560950, 0xffff9b7974b96956,
    0xffffffffffa4694a, 0xfffffff380a946a4, 0xfffffff04606a10a, 0xffffa16468618138,
    0xfffffff462421941, 0xffff462942921803, 0xffffffffff624420, 0xfffffff624428238,
    0xfffffff32b46a94a, 0xffff6a4a94b82280, 0xffffa164606102b3, 0xf1b8b12184a16146,
    0xffff36b319639469, 0xf14641916b0181b8, 0xfffffff4600636b3, 0xffffffffff86b846,
    0xfffffffa98a876a7, 0xffffa76a907a0370, 0xffff0818717a176a, 0xfffffff37117a76a,
    0xffff768981861621, 0xf937390976192962, 0xfffffff206607087, 0xffffffffff276237,
    0xffff76898a86ab32, 0xf7a9a76790b72702, 0xfb32a767a1871081, 0xffff17616a71b12b,
    0xf63136b619768698, 0xffffffffff76b190, 0xffff06b0b3607087, 0xfffffffffffff6b7,
    0xfffffffffffffb67, 0xffffffffff67b803, 0xffffffffff67b910, 0xfffffff67b138918,
    0xffffffffff7b621a, 0xfffffff7b6803a21, 0xfffffff7b69a2092, 0xffff89a38a3a27b6,
    0xffffffffff726327, 0xfffffff026067807, 0xfffffff910732672, 0xffff678891681261,
    0xfffffff73171a67a, 0xffff801781a7167a, 0xffff7a69a0a70730, 0xfffffff9a88a7a67,
    0xffffffffff68b486, 0xfffffff640603b63, 0xfffffff109648b68, 0xffff63b139369649,
    0xfffffff1a28b6486, 0xffff640b60b03a21, 0xffff9a2920b648b4, 0xf36463b34923a39a,
    0xfffffff264248328, 0xffffffffff264240, 0xffff834642432091, 0xfffffff642241491,
    0xffff1a6648168318, 0xfffffff40660a01a, 0xf39a9303a6834364, 0xffffffffff4a649a,
    0xffffffffffb67594, 0xfffffff67b594380, 0xfffffffb67045105, 0xffff51345343867b,
    0xfffffffb6721a459, 0xffff594380a217b6, 0xffff204a24a45b67, 0xf67b25a523453843,
    0xfffffff945267327, 0xffff786260680459, 0xffff045051673263, 0xf851584812786826,
    0xffff73167161a459, 0xf459078701671a61, 0xfa737a6a305a4a04, 0xffffa84a458a7a67,
    0xfffffff98b9b6596, 0xffff590650360b63, 0xffffb65510b508b0, 0xfffffff1355363b6,
    0xffff65b8b9b59a21, 0xfa21965690b603b0, 0xf52025a50865b58b, 0xffff35a3a25363b6,
    0xffff283265825985, 0xfffffff260069659, 0xf826283865081851, 0xffffffffff612651,
    0xf698965683a61631, 0xffff06505960a01a, 0xffffffffffa65830, 0xfffffffffffff65a,
    0xffffffffffb57a5b, 0xfffffff03857ba5b, 0xfffffff091ba57b5, 0xffff1381897ba57a,
    0xfffffff15717b21b, 0xffffb27571721380, 0xffff7b2209729579, 0xf289823295b27257,
    0xfffffff573532a52, 0xffff52a578258028, 0xffff2a37353a5109, 0xf25752a278129289,
    0xffffffffff573531, 0xfffffff571170780, 0xfffffff735539309, 0xffffffffff795789,
    0xfffffff8ba8a5485, 0xffff03bba50b5405, 0xffff54aba8a48910, 0xf41314943b54a4ba,
    0xffff8548b2582152, 0xfb151b2b543b0b40, 0xf58b8545b2950520, 0xffffffffff3b2549,
    0xffff483543253a52, 0xfffffff0244252a5, 0xf910854583a532a3, 0xffff2492914252a5,
    0xfffffff153358548, 0xffffffffff501540, 0xffff530509358548, 0xfffffffffffff549,
    0xfffffffba9b947b4, 0xffffba97b9794380, 0xffffb470414b1ba1, 0xf4bab474a1843413,
    0xffff219b294b97b4, 0xf3801b2b197b9479, 0xfffffff04224b47b, 0xffff42343824b47b,
    0xffff947732972a92, 0xf70207872a4797a9, 0xfa040a1a472a3a73, 0xffffffffff4782a1,
    0xfffffff317714194, 0xffff178180714194, 0xffffffffff347304, 0xfffffffffffff784,
    0xffffffffff8ba8a9, 0xfffffffa9bb93903, 0xfffffffba88a0a10, 0xffffffffffa3ba13,
    0xfffffff8b99b1b21, 0xffff9b2921b93903, 0xffffffffffb08b20, 0xfffffffffffffb23,
    0xfffffff98aa82832, 0xffffffffff2902a9, 0xffff8a1810a82832, 0xfffffffffffff2a1,
    0xffffffffff819831, 0xfffffffffffff190, 0xfffffffffffff830, 0xffffffffffffffff,
];

/// Whether bit `i` of `x` is set.
pub open spec fn bit(x: u64, i: u64) -> bool {
    (x >> i) & 1 == 1
}

/// The four bits of `row` at position `t`.
pub open spec fn nibble(row: u64, t: u64) -> u64 {
    (row >> (t << 2)) & 0xf
}

/// First corner of edge `e`.
pub open spec fn edge_from(e: u64) -> u64 {
    if e == 0 {
        0
    } else if e == 1 {
        1
    } else if e == 2 {
        2
    } else if e == 3 {
        3
    } else if e == 4 {
        4
    } else if e == 5 {
        5
    } else if e == 6 {
        6
    } else if e == 7 {
        7
    } else if e == 8 {
        0
    } else if e == 9 {
        1
    } else if e == 10 {
        2
    } else {
        3
    }
}

/// Second corner of edge `e`.
pub open spec fn edge_to(e: u64) -> u64 {
    if e == 0 {
        1
    } else if e == 1 {
        2
    } else if e == 2 {
        3
    } else if e == 3 {
        0
    } else if e == 4 {
        5
    } else if e == 5 {
        6
    } else if e == 6 {
        7
    } else if e == 7 {
        4
    } else if e == 8 {
        4
    } else if e == 9 {
        5
    } else if e == 10 {
        6
    } else {
        7
    }
}

/// Whether edge `e` joins a corner below the isovalue to one that is not, in
/// configuration `ci`.
pub open spec fn edge_crossed(ci: u64, e: u64) -> bool {
    bit(ci, edge_from(e)) != bit(ci, edge_to(e))
}

/// `mask` marks edge `e` exactly when configuration `ci` crosses it.
pub open spec fn mask_agrees(ci: u64, mask: u64, e: u64) -> bool {
    bit(mask, e) == edge_crossed(ci, e)
}

/// `mask` marks exactly the edges that configuration `ci` crosses.
pub open spec fn mask_ok(ci: u64, mask: u64) -> bool {
    &&& mask < 4096
    &&& mask_agrees(ci, mask, 0)
    &&& mask_agrees(ci, mask, 1)
    &&& mask_agrees(ci, mask, 2)
    &&& mask_agrees(ci, mask, 3)
    &&& mask_agrees(ci, mask, 4)
    &&& mask_agrees(ci, mask, 5)
    &&& mask_agrees(ci, mask, 6)
    &&& mask_agrees(ci, mask, 7)
    &&& mask_agrees(ci, mask, 8)
    &&& mask_agrees(ci, mask, 9)
    &&& mask_agrees(ci, mask, 10)
    &&& mask_agrees(ci, mask, 11)
}

/// Entry `t` of `row` names an edge that configuration `ci` crosses.
pub open spec fn names_crossed_edge(ci: u64, row: u64, t: u64) -> bool {
    nibble(row, t) < 12 && edge_crossed(ci, nibble(row, t))
}

/// The triangle of `row` that starts at entry `t` is absent, or whole and
/// over crossed edges.
pub open spec fn triangle_ok(ci: u64, row: u64, t: u64) -> bool {
    nibble(row, t) != 15 ==> {
        &&& names_crossed_edge(ci, row, t)
        &&& names_crossed_edge(ci, row, (t + 1) as u64)
        &&& names_crossed_edge(ci, row, (t + 2) as u64)
    }
}

/// `row` holds whole triangles over edges that configuration `ci` crosses,
/// and ends.
pub open spec fn row_ok(ci: u64, row: u64) -> bool {
    &&& triangle_ok(ci, row, 0)
    &&& triangle_ok(ci, row, 3)
    &&& triangle_ok(ci, row, 6)
    &&& triangle_ok(ci, row, 9)
    &&& triangle_ok(ci, row, 12)
    &&& nibble(row, 15) == 15
}

/// Both tables are sound at configuration `ci`.
pub open spec fn tables_ok_at(ci: int) -> bool {
    mask_ok(ci as u64, EDGE_TABLE[ci] as u64) && row_ok(ci as u64, TRI_TABLE[ci])
}

/// Both tables are sound on the configurations `lo .. hi`.
pub open spec fn tables_ok(lo: int, hi: int) -> bool
    decreases hi - lo,
{
    if lo >= hi {
        true
    } else {
        tables_ok_at(lo) && tables_ok(lo + 1, hi)
    }
}

proof fn lemma_tables_ok_at(lo: int, hi: int, ci: int)
    requires
        tables_ok(lo, hi),
        lo <= ci < hi,
    ensures
        tables_ok_at(ci),
    decreases hi - lo,
{
    if ci != lo {
        lemma_tables_ok_at(lo + 1, hi, ci);
    }
}

proof fn lemma_tables_ok_join(lo: int, mid: int, hi: int)
    requires
        tables_ok(lo, mid),
        tables_ok(mid, hi),
        lo <= mid <= hi,
    ensures
        tables_ok(lo, hi),
    decreases mid - lo,
{
    if lo < mid {
        lemma_tables_ok_join(lo + 1, mid, hi);
    }
}

proof fn lemma_tables_0_to_16()
    ensures
        tables_ok(0, 16),
{
    assert({
        &&& mask_ok(0, 0x000)
        &&& mask_ok(1, 0x109)
        &&& mask_ok(2, 0x203)
        &&& mask_ok(3, 0x30a)
        &&& mask_ok(4, 0x406)
        &&& mask_ok(5, 0x50f)
        &&& mask_ok(6, 0x605)
        &&& mask_ok(7, 0x70c)
        &&& mask_ok(8, 0x80c)
        &&& mask_ok(9, 0x905)
        &&& mask_ok(10, 0xa0f)
        &&& mask_ok(11, 0xb06)
        &&& mask_ok(12, 0xc0a)
        &&& mask_ok(13, 0xd03)
        &&& mask_ok(14, 0xe09)
        &&& mask_ok(15, 0xf00)
    }) by (bit_vector);
    assert({
        &&& row_ok(0, 0xffffffffffffffff)
        &&& row_ok(1, 0xfffffffffffff380)
        &&& row_ok(2, 0xfffffffffffff910)
        &&& row_ok(3, 0xffffffffff189381)
        &&& row_ok(4, 0xfffffffffffffa21)
        &&& row_ok(5, 0xffffffffffa21380)
        &&& row_ok(6, 0xffffffffff920a29)
        &&& row_ok(7, 0xfffffff89a8a2382)
        &&& row_ok(8, 0xfffffffffffff2b3)
        &&& row_ok(9, 0xffffffffff0b82b0)
        &&& row_ok(10, 0xffffffffffb32091)
        &&& row_ok(11, 0xfffffffb89b912b1)
        &&& row_ok(12, 0xffffffffff3ab1a3)
        &&& row_ok(13, 0xfffffffab8a801a0)
        &&& row_ok(14, 0xfffffff9ab9b3093)
        &&& row_ok(15, 0xffffffffffb8aa89)
    }) by (bit_vector);
    assert(tables_ok(16, 16));
    assert(tables_ok(15, 16));
    assert(tables_ok(14, 16));
    assert(tables_ok(13, 16));
    assert(tables_ok(12, 16));
    assert(tables_ok(11, 16));
    assert(tables_ok(10, 16));
    assert(tables_ok(9, 16));
    assert(tables_ok(8, 16));
    assert(tables_ok(7, 16));
    assert(tables_ok(6, 16));
    assert(tables_ok(5, 16));
    assert(tables_ok(4, 16));
    assert(tables_ok(3, 16));
    assert(tables_ok(2, 16));
    assert(tables_ok(1, 16));
    assert(tables_ok(0, 16));
}

proof fn lemma_tables_16_to_32()
    ensures
        tables_ok(16, 32),
{
    assert({
        &&& mask_ok(16, 0x190)
        &&& mask_ok(17, 0x099)
        &&& mask_ok(18, 0x393)
        &&& mask_ok(19, 0x29a)
        &&& mask_ok(20, 0x596)
        &&& mask_ok(21, 0x49f)
        &&& mask_ok(22, 0x795)
        &&& mask_ok(23, 0x69c)
        &&& mask_ok(24, 0x99c)
        &&& mask_ok(25, 0x895)
        &&& mask_ok(26, 0xb9f)
        &&& mask_ok(27, 0xa96)
        &&& mask_ok(28, 0xd9a)
        &&& mask_ok(29, 0xc93)
        &&& mask_ok(30, 0xf99)
        &&& mask_ok(31, 0xe90)
    }) by (bit_vector);
    assert({
        &&& row_ok(16, 0xfffffffffffff874)
        &&& row_ok(17, 0xffffffffff437034)
        &&& row_ok(18, 0xffffffffff748910)
        &&& row_ok(19, 0xfffffff137174914)
        &&& row_ok(20, 0xffffffffff748a21)
        &&& row_ok(21, 0xfffffffa21403743)
        &&& row_ok(22, 0xfffffff748209a29)
        &&& row_ok(23, 0xffff4973727929a2)
        &&& row_ok(24, 0xffffffffff2b3748)
        &&& row_ok(25, 0xfffffff40242b74b)
        &&& row_ok(26, 0xfffffffb32748109)
        &&& row_ok(27, 0xffff1292b9b49b74)
        &&& row_ok(28, 0xfffffff487ab31a3)
        &&& row_ok(29, 0xffff4b7401b41ab1)
        &&& row_ok(30, 0xffff30bab9b09874)
        &&& row_ok(31, 0xfffffffab99b4b74)
    }) by (bit_vector);
    assert(tables_ok(32, 32));
    assert(tables_ok(31, 32));
    assert(tables_ok(30, 32));
    assert(tables_ok(29, 32));
    assert(tables_ok(28, 32));
    assert(tables_ok(27, 32));
    assert(tables_ok(26, 32));
    assert(tables_ok(25, 32));
    assert(tables_ok(24, 32));
    assert(tables_ok(23, 32));
    assert(tables_ok(22, 32));
    assert(tables_ok(21, 32));
    assert(tables_ok(20, 32));
    assert(tables_ok(19, 32));
    assert(tables_ok(18, 32));
    assert(tables_ok(17, 32));
    assert(tables_ok(16, 32));
}

proof fn lemma_tables_32_to_48()
    ensures
        tables_ok(32, 48),
{
    assert({
        &&& mask_ok(32, 0x230)
        &&& mask_ok(33, 0x339)
        &&& mask_ok(34, 0x033)
        &&& mask_ok(35, 0x13a)
        &&& mask_ok(36, 0x636)
        &&& mask_ok(37, 0x73f)
        &&& mask_ok(38, 0x435)
        &&& mask_ok(39, 0x53c)
        &&& mask_ok(40, 0xa3c)
        &&& mask_ok(41, 0xb35)
        &&& mask_ok(42, 0x83f)
        &&& mask_ok(43, 0x936)
        &&& mask_ok(44, 0xe3a)
        &&& mask_ok(45, 0xf33)
        &&& mask_ok(46, 0xc39)
        &&& mask_ok(47, 0xd30)
    }) by (bit_vector);
    assert({
        &&& row_ok(32, 0xfffffffffffff459)
        &&& row_ok(33, 0xffffffffff380459)
        &&& row_ok(34, 0xffffffffff051450)
        &&& row_ok(35, 0xfffffff513538458)
        &&& row_ok(36, 0xffffffffff459a21)
        &&& row_ok(37, 0xfffffff594a21803)
        &&& row_ok(38, 0xfffffff204245a25)
        &&& row_ok(39, 0xffff8434535235a2)
        &&& row_ok(40, 0xffffffffffb32459)
        &&& row_ok(41, 0xfffffff594b802b0)
        &&& row_ok(42, 0xfffffffb32510450)
        &&& row_ok(43, 0xffff584b82852512)
        &&& row_ok(44, 0xfffffff45931ab3a)
        &&& row_ok(45, 0xffffab81a8180594)
        &&& row_ok(46, 0xffff30bab5b05045)
        &&& row_ok(47, 0xfffffffb8aa85845)
    }) by (bit_vector);
    assert(tables_ok(48, 48));
    assert(tables_ok(47, 48));
    assert(tables_ok(46, 48));
    assert(tables_ok(45, 48));
    assert(tables_ok(44, 48));
    assert(tables_ok(43, 48));
    assert(tables_ok(42, 48));
    assert(tables_ok(41, 48));
    assert(tables_ok(40, 48));
    assert(tables_ok(39, 48));
    assert(tables_ok(38, 48));
    assert(tables_ok(37, 48));
    assert(tables_ok(36, 48));
    assert(tables_ok(35, 48));
    assert(tables_ok(34, 48));
    assert(tables_ok(33, 48));
    assert(tables_ok(32, 48));
}

proof fn lemma_tables_48_to_64()
    ensures
        tables_ok(48, 64),
{
    assert({
        &&& mask_ok(48, 0x3a0)
        &&& mask_ok(49, 0x2a9)
        &&& mask_ok(50, 0x1a3)
        &&& mask_ok(51, 0x0aa)
        &&& mask_ok(52, 0x7a6)
        &&& mask_ok(53, 0x6af)
        &&& mask_ok(54, 0x5a5)
        &&& mask_ok(55, 0x4ac)
        &&& mask_ok(56, 0xbac)
        &&& mask_ok(57, 0xaa5)
        &&& mask_ok(58, 0x9af)
        &&& mask_ok(59, 0x8a6)
        &&& mask_ok(60, 0xfaa)
        &&& mask_ok(61, 0xea3)
        &&& mask_ok(62, 0xda9)
        &&& mask_ok(63, 0xca0)
    }) by (bit_vector);
    assert({
        &&& row_ok(48, 0xffffffffff975879)
        &&& row_ok(49, 0xfffffff375359039)
        &&& row_ok(50, 0xfffffff751710870)
        &&& row_ok(51, 0xffffffffff753351)
        &&& row_ok(52, 0xfffffff21a759879)
        &&& row_ok(53, 0xffff37503505921a)
        &&& row_ok(54, 0xffff25a758528208)
        &&& row_ok(55, 0xfffffff7533525a2)
        &&& row_ok(56, 0xfffffff2b3987597)
        &&& row_ok(57, 0xffffb72029279759)
        &&& row_ok(58, 0xffff751871810b32)
        &&& row_ok(59, 0xfffffff51771b12b)
        &&& row_ok(60, 0xffffb3a31a758859)
        &&& row_ok(61, 0xf0aba010b7905075)
        &&& row_ok(62, 0xf07570805a30b0ab)
        &&& row_ok(63, 0xffffffffff5b75ab)
    }) by (bit_vector);
    assert(tables_ok(64, 64));
    assert(tables_ok(63, 64));
    assert(tables_ok(62, 64));
    assert(tables_ok(61, 64));
    assert(tables_ok(60, 64));
    assert(tables_ok(59, 64));
    assert(tables_ok(58, 64));
    assert(tables_ok(57, 64));
    assert(tables_ok(56, 64));
    assert(tables_ok(55, 64));
    assert(tables_ok(54, 64));
    assert(tables_ok(53, 64));
    assert(tables_ok(52, 64));
    assert(tables_ok(51, 64));
    assert(tables_ok(50, 64));
    assert(tables_ok(49, 64));
    assert(tables_ok(48, 64));
}

proof fn lemma_tables_64_to_80()
    ensures
        tables_ok(64, 80),
{
    assert({
        &&& mask_ok(64, 0x460)
        &&& mask_ok(65, 0x569)
        &&& mask_ok(66, 0x663)
        &&& mask_ok(67, 0x76a)
        &&& mask_ok(68, 0x066)
        &&& mask_ok(69, 0x16f)
        &&& mask_ok(70, 0x265)
        &&& mask_ok(71, 0x36c)
        &&& mask_ok(72, 0xc6c)
        &&& mask_ok(73, 0xd65)
        &&& mask_ok(74, 0xe6f)
        &&& mask_ok(75, 0xf66)
        &&& mask_ok(76, 0x86a)
        &&& mask_ok(77, 0x963)
        &&& mask_ok(78, 0xa69)
        &&& mask_ok(79, 0xb60)
    }) by (bit_vector);
    assert({
        &&& row_ok(64, 0xfffffffffffff56a)
        &&& row_ok(65, 0xffffffffff6a5380)
        &&& row_ok(66, 0xffffffffff6a5109)
        &&& row_ok(67, 0xfffffff6a5891381)
        &&& row_ok(68, 0xffffffffff162561)
        &&& row_ok(69, 0xfffffff803621561)
        &&& row_ok(70, 0xfffffff620609569)
        &&& row_ok(71, 0xffff823625285895)
        &&& row_ok(72, 0xffffffffff56ab32)
        &&& row_ok(73, 0xfffffff56a02b80b)
        &&& row_ok(74, 0xfffffff6a5b32910)
        &&& row_ok(75, 0xffffb892b92916a5)
        &&& row_ok(76, 0xfffffff315356b36)
        &&& row_ok(77, 0xffff6b51505b0b80)
        &&& row_ok(78, 0xffff9505606306b3)
        &&& row_ok(79, 0xfffffff89bb96956)
    }) by (bit_vector);
    assert(tables_ok(80, 80));
    assert(tables_ok(79, 80));
    assert(tables_ok(78, 80));
    assert(tables_ok(77, 80));
    assert(tables_ok(76, 80));
    assert(tables_ok(75, 80));
    assert(tables_ok(74, 80));
    assert(tables_ok(73, 80));
    assert(tables_ok(72, 80));
    assert(tables_ok(71, 80));
    assert(tables_ok(70, 80));
    assert(tables_ok(69, 80));
    assert(tables_ok(68, 80));
    assert(tables_ok(67, 80));
    assert(tables_ok(66, 80));
    assert(tables_ok(65, 80));
    assert(tables_ok(64, 80));
}

proof fn lemma_tables_80_to_96()
    ensures
        tables_ok(80, 96),
{
    assert({
        &&& mask_ok(80, 0x5f0)
        &&& mask_ok(81, 0x4f9)
        &&& mask_ok(82, 0x7f3)
        &&& mask_ok(83, 0x6fa)
        &&& mask_ok(84, 0x1f6)
        &&& mask_ok(85, 0x0ff)
        &&& mask_ok(86, 0x3f5)
        &&& mask_ok(87, 0x2fc)
        &&& mask_ok(88, 0xdfc)
        &&& mask_ok(89, 0xcf5)
        &&& mask_ok(90, 0xfff)
        &&& mask_ok(91, 0xef6)
        &&& mask_ok(92, 0x9fa)
        &&& mask_ok(93, 0x8f3)
        &&& mask_ok(94, 0xbf9)
        &&& mask_ok(95, 0xaf0)
    }) by (bit_vector);
    assert({
        &&& row_ok(80, 0xffffffffff8746a5)
        &&& row_ok(81, 0xfffffffa56374034)
        &&& row_ok(82, 0xfffffff7486a5091)
        &&& row_ok(83, 0xffff49737179156a)
        &&& row_ok(84, 0xfffffff874156216)
        &&& row_ok(85, 0xffff743403625521)
        &&& row_ok(86, 0xffff620560509748)
        &&& row_ok(87, 0xf962695923497937)
        &&& row_ok(88, 0xfffffff56a4872b3)
        &&& row_ok(89, 0xffffb720242746a5)
        &&& row_ok(90, 0xffff6a5b32874910)
        &&& row_ok(91, 0xf6a54b7b492b9129)
        &&& row_ok(92, 0xffff6b51535b3748)
        &&& row_ok(93, 0xfb404b7b016b5b15)
        &&& row_ok(94, 0xf74836b630560950)
        &&& row_ok(95, 0xffff9b7974b96956)
    }) by (bit_vector);
    assert(tables_ok(96, 96));
    assert(tables_ok(95, 96));
    assert(tables_ok(94, 96));
    assert(tables_ok(93, 96));
    assert(tables_ok(92, 96));
    assert(tables_ok(91, 96));
    assert(tables_ok(90, 96));
    assert(tables_ok(89, 96));
    assert(tables_ok(88, 96));
    assert(tables_ok(87, 96));
    assert(tables_ok(86, 96));
    assert(tables_ok(85, 96));
    assert(tables_ok(84, 96));
    assert(tables_ok(83, 96));
    assert(tables_ok(82, 96));
    assert(tables_ok(81, 96));
    assert(tables_ok(80, 96));
}

proof fn lemma_tables_96_to_112()
    ensures
        tables_ok(96, 112),
{
    assert({
        &&& mask_ok(96, 0x650)
        &&& mask_ok(97, 0x759)
        &&& mask_ok(98, 0x453)
        &&& mask_ok(99, 0x55a)
        &&& mask_ok(100, 0x256)
        &&& mask_ok(101, 0x35f)
        &&& mask_ok(102, 0x055)
        &&& mask_ok(103, 0x15c)
        &&& mask_ok(104, 0xe5c)
        &&& mask_ok(105, 0xf55)
        &&& mask_ok(106, 0xc5f)
        &&& mask_ok(107, 0xd56)
        &&& mask_ok(108, 0xa5a)
        &&& mask_ok(109, 0xb53)
        &&& mask_ok(110, 0x859)
        &&& mask_ok(111, 0x950)
    }) by (bit_vector);
    assert({
        &&& row_ok(96, 0xffffffffffa4694a)
        &&& row_ok(97, 0xfffffff380a946a4)
        &&& row_ok(98, 0xfffffff04606a10a)
        &&& row_ok(99, 0xffffa16468618138)
        &&& row_ok(100, 0xfffffff462421941)
        &&& row_ok(101, 0xffff462942921803)
        &&& row_ok(102, 0xffffffffff624420)
        &&& row_ok(103, 0xfffffff624428238)
        &&& row_ok(104, 0xfffffff32b46a94a)
        &&& row_ok(105, 0xffff6a4a94b82280)
        &&& row_ok(106, 0xffffa164606102b3)
        &&& row_ok(107, 0xf1b8b12184a16146)
        &&& row_ok(108, 0xffff36b319639469)
        &&& row_ok(109, 0xf14641916b0181b8)
        &&& row_ok(110, 0xfffffff4600636b3)
        &&& row_ok(111, 0xffffffffff86b846)
    }) by (bit_vector);
    assert(tables_ok(112, 112));
    assert(tables_ok(111, 112));
    assert(tables_ok(110, 112));
    assert(tables_ok(109, 112));
    assert(tables_ok(108, 112));
    assert(tables_ok(107, 112));
    assert(tables_ok(106, 112));
    assert(tables_ok(105, 112));
    assert(tables_ok(104, 112));
    assert(tables_ok(103, 112));
    assert(tables_ok(102, 112));
    assert(tables_ok(101, 112));
    assert(tables_ok(100, 112));
    assert(tables_ok(99, 112));
    assert(tables_ok(98, 112));
    assert(tables_ok(97, 112));
    assert(tables_ok(96, 112));
}

proof fn lemma_tables_112_to_128()
    ensures
        tables_ok(112, 128),
{
    assert({
        &&& mask_ok(112, 0x7c0)
        &&& mask_ok(113, 0x6c9)
        &&& mask_ok(114, 0x5c3)
        &&& mask_ok(115, 0x4ca)
        &&& mask_ok(116, 0x3c6)
        &&& mask_ok(117, 0x2cf)
        &&& mask_ok(118, 0x1c5)
        &&& mask_ok(119, 0x0cc)
        &&& mask_ok(120, 0xfcc)
        &&& mask_ok(121, 0xec5)
        &&& mask_ok(122, 0xdcf)
        &&& mask_ok(123, 0xcc6)
        &&& mask_ok(124, 0xbca)
        &&& mask_ok(125, 0xac3)
        &&& mask_ok(126, 0x9c9)
        &&& mask_ok(127, 0x8c0)
    }) by (bit_vector);
    assert({
        &&& row_ok(112, 0xfffffffa98a876a7)
        &&& row_ok(113, 0xffffa76a907a0370)
        &&& row_ok(114, 0xffff0818717a176a)
        &&& row_ok(115, 0xfffffff37117a76a)
        &&& row_ok(116, 0xffff768981861621)
        &&& row_ok(117, 0xf937390976192962)
        &&& row_ok(118, 0xfffffff206607087)
        &&& row_ok(119, 0xffffffffff276237)
        &&& row_ok(120, 0xffff76898a86ab32)
        &&& row_ok(121, 0xf7a9a76790b72702)
        &&& row_ok(122, 0xfb32a767a1871081)
        &&& row_ok(123, 0xffff17616a71b12b)
        &&& row_ok(124, 0xf63136b619768698)
        &&& row_ok(125, 0xffffffffff76b190)
        &&& row_ok(126, 0xffff06b0b3607087)
        &&& row_ok(127, 0xfffffffffffff6b7)
    }) by (bit_vector);
    assert(tables_ok(128, 128));
    assert(tables_ok(127, 128));
    assert(tables_ok(126, 128));
    assert(tables_ok(125, 128));
    assert(tables_ok(124, 128));
    assert(tables_ok(123, 128));
    assert(tables_ok(122, 128));
    assert(tables_ok(121, 128));
    assert(tables_ok(120, 128));
    assert(tables_ok(119, 128));
    assert(tables_ok(118, 128));
    assert(tables_ok(117, 128));
    assert(tables_ok(116, 128));
    assert(tables_ok(115, 128));
    assert(tables_ok(114, 128));
    assert(tables_ok(113, 128));
    assert(tables_ok(112, 128));
}

proof fn lemma_tables_128_to_144()
    ensures
        tables_ok(128, 144),
{
    assert({
        &&& mask_ok(128, 0x8c0)
        &&& mask_ok(129, 0x9c9)
        &&& mask_ok(130, 0xac3)
        &&& mask_ok(131, 0xbca)
        &&& mask_ok(132, 0xcc6)
        &&& mask_ok(133, 0xdcf)
        &&& mask_ok(134, 0xec5)
        &&& mask_ok(135, 0xfcc)
        &&& mask_ok(136, 0x0cc)
        &&& mask_ok(137, 0x1c5)
        &&& mask_ok(138, 0x2cf)
        &&& mask_ok(139, 0x3c6)
        &&& mask_ok(140, 0x4ca)
        &&& mask_ok(141, 0x5c3)
        &&& mask_ok(142, 0x6c9)
        &&& mask_ok(143, 0x7c0)
    }) by (bit_vector);
    assert({
        &&& row_ok(128, 0xfffffffffffffb67)
        &&& row_ok(129, 0xffffffffff67b803)
        &&& row_ok(130, 0xffffffffff67b910)
        &&& row_ok(131, 0xfffffff67b138918)
        &&& row_ok(132, 0xffffffffff7b621a)
        &&& row_ok(133, 0xfffffff7b6803a21)
        &&& row_ok(134, 0xfffffff7b69a2092)
        &&& row_ok(135, 0xffff89a38a3a27b6)
        &&& row_ok(136, 0xffffffffff726327)
        &&& row_ok(137, 0xfffffff026067807)
        &&& row_ok(138, 0xfffffff910732672)
        &&& row_ok(139, 0xffff678891681261)
        &&& row_ok(140, 0xfffffff73171a67a)
        &&& row_ok(141, 0xffff801781a7167a)
        &&& row_ok(142, 0xffff7a69a0a70730)
        &&& row_ok(143, 0xfffffff9a88a7a67)
    }) by (bit_vector);
    assert(tables_ok(144, 144));
    assert(tables_ok(143, 144));
    assert(tables_ok(142, 144));
    assert(tables_ok(141, 144));
    assert(tables_ok(140, 144));
    assert(tables_ok(139, 144));
    assert(tables_ok(138, 144));
    assert(tables_ok(137, 144));
    assert(tables_ok(136, 144));
    assert(tables_ok(135, 144));
    assert(tables_ok(134, 144));
    assert(tables_ok(133, 144));
    assert(tables_ok(132, 144));
    assert(tables_ok(131, 144));
    assert(tables_ok(130, 144));
    assert(tables_ok(129, 144));
    assert(tables_ok(128, 144));
}

proof fn lemma_tables_144_to_160()
    ensures
        tables_ok(144, 160),
{
    assert({
        &&& mask_ok(144, 0x950)
        &&& mask_ok(145, 0x859)
        &&& mask_ok(146, 0xb53)
        &&& mask_ok(147, 0xa5a)
        &&& mask_ok(148, 0xd56)
        &&& mask_ok(149, 0xc5f)
        &&& mask_ok(150, 0xf55)
        &&& mask_ok(151, 0xe5c)
        &&& mask_ok(152, 0x15c)
        &&& mask_ok(153, 0x055)
        &&& mask_ok(154, 0x35f)
        &&& mask_ok(155, 0x256)
        &&& mask_ok(156, 0x55a)
        &&& mask_ok(157, 0x453)
        &&& mask_ok(158, 0x759)
        &&& mask_ok(159, 0x650)
    }) by (bit_vector);
    assert({
        &&& row_ok(144, 0xffffffffff68b486)
        &&& row_ok(145, 0xfffffff640603b63)
        &&& row_ok(146, 0xfffffff109648b68)
        &&& row_ok(147, 0xffff63b139369649)
        &&& row_ok(148, 0xfffffff1a28b6486)
        &&& row_ok(149, 0xffff640b60b03a21)
        &&& row_ok(150, 0xffff9a2920b648b4)
        &&& row_ok(151, 0xf36463b34923a39a)
        &&& row_ok(152, 0xfffffff264248328)
        &&& row_ok(153, 0xffffffffff264240)
        &&& row_ok(154, 0xffff834642432091)
        &&& row_ok(155, 0xfffffff642241491)
        &&& row_ok(156, 0xffff1a6648168318)
        &&& row_ok(157, 0xfffffff40660a01a)
        &&& row_ok(158, 0xf39a9303a6834364)
        &&& row_ok(159, 0xffffffffff4a649a)
    }) by (bit_vector);
    assert(tables_ok(160, 160));
    assert(tables_ok(159, 160));
    assert(tables_ok(158, 160));
    assert(tables_ok(157, 160));
    assert(tables_ok(156, 160));
    assert(tables_ok(155, 160));
    assert(tables_ok(154, 160));
    assert(tables_ok(153, 160));
    assert(tables_ok(152, 160));
    assert(tables_ok(151, 160));
    assert(tables_ok(150, 160));
    assert(tables_ok(149, 160));
    assert(tables_ok(148, 160));
    assert(tables_ok(147, 160));
    assert(tables_ok(146, 160));
    assert(tables_ok(145, 160));
    assert(tables_ok(144, 160));
}

proof fn lemma_tables_160_to_176()
    ensures
        tables_ok(160, 176),
{
    assert({
        &&& mask_ok(160, 0xaf0)
        &&& mask_ok(161, 0xbf9)
        &&& mask_ok(162, 0x8f3)
        &&& mask_ok(163, 0x9fa)
        &&& mask_ok(164, 0xef6)
        &&& mask_ok(165, 0xfff)
        &&& mask_ok(166, 0xcf5)
        &&& mask_ok(167, 0xdfc)
        &&& mask_ok(168, 0x2fc)
        &&& mask_ok(169, 0x3f5)
        &&& mask_ok(170, 0x0ff)
        &&& mask_ok(171, 0x1f6)
        &&& mask_ok(172, 0x6fa)
        &&& mask_ok(173, 0x7f3)
        &&& mask_ok(174, 0x4f9)
        &&& mask_ok(175, 0x5f0)
    }) by (bit_vector);
    assert({
        &&& row_ok(160, 0xffffffffffb67594)
        &&& row_ok(161, 0xfffffff67b594380)
        &&& row_ok(162, 0xfffffffb67045105)
        &&& row_ok(163, 0xffff51345343867b)
        &&& row_ok(164, 0xfffffffb6721a459)
        &&& row_ok(165, 0xffff594380a217b6)
        &&& row_ok(166, 0xffff204a24a45b67)
        &&& row_ok(167, 0xf67b25a523453843)
        &&& row_ok(168, 0xfffffff945267327)
        &&& row_ok(169, 0xffff786260680459)
        &&& row_ok(170, 0xffff045051673263)
        &&& row_ok(171, 0xf851584812786826)
        &&& row_ok(172, 0xffff73167161a459)
        &&& row_ok(173, 0xf459078701671a61)
        &&& row_ok(174, 0xfa737a6a305a4a04)
        &&& row_ok(175, 0xffffa84a458a7a67)
    }) by (bit_vector);
    assert(tables_ok(176, 176));
    assert(tables_ok(175, 176));
    assert(tables_ok(174, 176));
    assert(tables_ok(173, 176));
    assert(tables_ok(172, 176));
    assert(tables_ok(171, 176));
    assert(tables_ok(170, 176));
    assert(tables_ok(169, 176));
    assert(tables_ok(168, 176));
    assert(tables_ok(167, 176));
    assert(tables_ok(166, 176));
    assert(tables_ok(165, 176));
    assert(tables_ok(164, 176));
    assert(tables_ok(163, 176));
    assert(tables_ok(162, 176));
    assert(tables_ok(161, 176));
    assert(tables_ok(160, 176));
}

proof fn lemma_tables_176_to_192()
    ensures
        tables_ok(176, 192),
{
    assert({
        &&& mask_ok(176, 0xb60)
        &&& mask_ok(177, 0xa69)
        &&& mask_ok(178, 0x963)
        &&& mask_ok(179, 0x86a)
        &&& mask_ok(180, 0xf66)
        &&& mask_ok(181, 0xe6f)
        &&& mask_ok(182, 0xd65)
        &&& mask_ok(183, 0xc6c)
        &&& mask_ok(184, 0x36c)
        &&& mask_ok(185, 0x265)
        &&& mask_ok(186, 0x16f)
        &&& mask_ok(187, 0x066)
        &&& mask_ok(188, 0x76a)
        &&& mask_ok(189, 0x663)
        &&& mask_ok(190, 0x569)
        &&& mask_ok(191, 0x460)
    }) by (bit_vector);
    assert({
        &&& row_ok(176, 0xfffffff98b9b6596)
        &&& row_ok(177, 0xffff590650360b63)
        &&& row_ok(178, 0xffffb65510b508b0)
        &&& row_ok(179, 0xfffffff1355363b6)
        &&& row_ok(180, 0xffff65b8b9b59a21)
        &&& row_ok(181, 0xfa21965690b603b0)
        &&& row_ok(182, 0xf52025a50865b58b)
        &&& row_ok(183, 0xffff35a3a25363b6)
        &&& row_ok(184, 0xffff283265825985)
        &&& row_ok(185, 0xfffffff260069659)
        &&& row_ok(186, 0xf826283865081851)
        &&& row_ok(187, 0xffffffffff612651)
        &&& row_ok(188, 0xf698965683a61631)
        &&& row_ok(189, 0xffff06505960a01a)
        &&& row_ok(190, 0xffffffffffa65830)
        &&& row_ok(191, 0xfffffffffffff65a)
    }) by (bit_vector);
    assert(tables_ok(192, 192));
    assert(tables_ok(191, 192));
    assert(tables_ok(190, 192));
    assert(tables_ok(189, 192));
    assert(tables_ok(188, 192));
    assert(tables_ok(187, 192));
    assert(tables_ok(186, 192));
    assert(tables_ok(185, 192));
    assert(tables_ok(184, 192));
    assert(tables_ok(183, 192));
    assert(tables_ok(182, 192));
    assert(tables_ok(181, 192));
    assert(tables_ok(180, 192));
    assert(tables_ok(179, 192));
    assert(tables_ok(178, 192));
    assert(tables_ok(177, 192));
    assert(tables_ok(176, 192));
}

proof fn lemma_tables_192_to_208()
    ensures
        tables_ok(192, 208),
{
    assert({
        &&& mask_ok(192, 0xca0)
        &&& mask_ok(193, 0xda9)
        &&& mask_ok(194, 0xea3)
        &&& mask_ok(195, 0xfaa)
        &&& mask_ok(196, 0x8a6)
        &&& mask_ok(197, 0x9af)
        &&& mask_ok(198, 0xaa5)
        &&& mask_ok(199, 0xbac)
        &&& mask_ok(200, 0x4ac)
        &&& mask_ok(201, 0x5a5)
        &&& mask_ok(202, 0x6af)
        &&& mask_ok(203, 0x7a6)
        &&& mask_ok(204, 0x0aa)
        &&& mask_ok(205, 0x1a3)
        &&& mask_ok(206, 0x2a9)
        &&& mask_ok(207, 0x3a0)
    }) by (bit_vector);
    assert({
        &&& row_ok(192, 0xffffffffffb57a5b)
        &&& row_ok(193, 0xfffffff03857ba5b)
        &&& row_ok(194, 0xfffffff091ba57b5)
        &&& row_ok(195, 0xffff1381897ba57a)
        &&& row_ok(196, 0xfffffff15717b21b)
        &&& row_ok(197, 0xffffb27571721380)
        &&& row_ok(198, 0xffff7b2209729579)
        &&& row_ok(199, 0xf289823295b27257)
        &&& row_ok(200, 0xfffffff573532a52)
        &&& row_ok(201, 0xffff52a578258028)
        &&& row_ok(202, 0xffff2a37353a5109)
        &&& row_ok(203, 0xf25752a278129289)
        &&& row_ok(204, 0xffffffffff573531)
        &&& row_ok(205, 0xfffffff571170780)
        &&& row_ok(206, 0xfffffff735539309)
        &&& row_ok(207, 0xffffffffff795789)
    }) by (bit_vector);
    assert(tables_ok(208, 208));
    assert(tables_ok(207, 208));
    assert(tables_ok(206, 208));
    assert(tables_ok(205, 208));
    assert(tables_ok(204, 208));
    assert(tables_ok(203, 208));
    assert(tables_ok(202, 208));
    assert(tables_ok(201, 208));
    assert(tables_ok(200, 208));
    assert(tables_ok(199, 208));
    assert(tables_ok(198, 208));
    assert(tables_ok(197, 208));
    assert(tables_ok(196, 208));
    assert(tables_ok(195, 208));
    assert(tables_ok(194, 208));
    assert(tables_ok(193, 208));
    assert(tables_ok(192, 208));
}

proof fn lemma_tables_208_to_224()
    ensures
        tables_ok(208, 224),
{
    assert({
        &&& mask_ok(208, 0xd30)
        &&& mask_ok(209, 0xc39)
        &&& mask_ok(210, 0xf33)
        &&& mask_ok(211, 0xe3a)
        &&& mask_ok(212, 0x936)
        &&& mask_ok(213, 0x83f)
        &&& mask_ok(214, 0xb35)
        &&& mask_ok(215, 0xa3c)
        &&& mask_ok(216, 0x53c)
        &&& mask_ok(217, 0x435)
        &&& mask_ok(218, 0x73f)
        &&& mask_ok(219, 0x636)
        &&& mask_ok(220, 0x13a)
        &&& mask_ok(221, 0x033)
        &&& mask_ok(222, 0x339)
        &&& mask_ok(223, 0x230)
    }) by (bit_vector);
    assert({
        &&& row_ok(208, 0xfffffff8ba8a5485)
        &&& row_ok(209, 0xffff03bba50b5405)
        &&& row_ok(210, 0xffff54aba8a48910)
        &&& row_ok(211, 0xf41314943b54a4ba)
        &&& row_ok(212, 0xffff8548b2582152)
        &&& row_ok(213, 0xfb151b2b543b0b40)
        &&& row_ok(214, 0xf58b8545b2950520)
        &&& row_ok(215, 0xffffffffff3b2549)
        &&& row_ok(216, 0xffff483543253a52)
        &&& row_ok(217, 0xfffffff0244252a5)
        &&& row_ok(218, 0xf910854583a532a3)
        &&& row_ok(219, 0xffff2492914252a5)
        &&& row_ok(220, 0xfffffff153358548)
        &&& row_ok(221, 0xffffffffff501540)
        &&& row_ok(222, 0xffff530509358548)
        &&& row_ok(223, 0xfffffffffffff549)
    }) by (bit_vector);
    assert(tables_ok(224, 224));
    assert(tables_ok(223, 224));
    assert(tables_ok(222, 224));
    assert(tables_ok(221, 224));
    assert(tables_ok(220, 224));
    assert(tables_ok(219, 224));
    assert(tables_ok(218, 224));
    assert(tables_ok(217, 224));
    assert(tables_ok(216, 224));
    assert(tables_ok(215, 224));
    assert(tables_ok(214, 224));
    assert(tables_ok(213, 224));
    assert(tables_ok(212, 224));
    assert(tables_ok(211, 224));
    assert(tables_ok(210, 224));
    assert(tables_ok(209, 224));
    assert(tables_ok(208, 224));
}

proof fn lemma_tables_224_to_240()
    ensures
        tables_ok(224, 240),
{
    assert({
        &&& mask_ok(224, 0xe90)
        &&& mask_ok(225, 0xf99)
        &&& mask_ok(226, 0xc93)
        &&& mask_ok(227, 0xd9a)
        &&& mask_ok(228, 0xa96)
        &&& mask_ok(229, 0xb9f)
        &&& mask_ok(230, 0x895)
        &&& mask_ok(231, 0x99c)
        &&& mask_ok(232, 0x69c)
        &&& mask_ok(233, 0x795)
        &&& mask_ok(234, 0x49f)
        &&& mask_ok(235, 0x596)
        &&& mask_ok(236, 0x29a)
        &&& mask_ok(237, 0x393)
        &&& mask_ok(238, 0x099)
        &&& mask_ok(239, 0x190)
    }) by (bit_vector);
    assert({
        &&& row_ok(224, 0xfffffffba9b947b4)
        &&& row_ok(225, 0xffffba97b9794380)
        &&& row_ok(226, 0xffffb470414b1ba1)
        &&& row_ok(227, 0xf4bab474a1843413)
        &&& row_ok(228, 0xffff219b294b97b4)
        &&& row_ok(229, 0xf3801b2b197b9479)
        &&& row_ok(230, 0xfffffff04224b47b)
        &&& row_ok(231, 0xffff42343824b47b)
        &&& row_ok(232, 0xffff947732972a92)
        &&& row_ok(233, 0xf70207872a4797a9)
        &&& row_ok(234, 0xfa040a1a472a3a73)
        &&& row_ok(235, 0xffffffffff4782a1)
        &&& row_ok(236, 0xfffffff317714194)
        &&& row_ok(237, 0xffff178180714194)
        &&& row_ok(238, 0xffffffffff347304)
        &&& row_ok(239, 0xfffffffffffff784)
    }) by (bit_vector);
    assert(tables_ok(240, 240));
    assert(tables_ok(239, 240));
    assert(tables_ok(238, 240));
    assert(tables_ok(237, 240));
    assert(tables_ok(236, 240));
    assert(tables_ok(235, 240));
    assert(tables_ok(234, 240));
    assert(tables_ok(233, 240));
    assert(tables_ok(232, 240));
    assert(tables_ok(231, 240));
    assert(tables_ok(230, 240));
    assert(tables_ok(229, 240));
    assert(tables_ok(228, 240));
    assert(tables_ok(227, 240));
    assert(tables_ok(226, 240));
    assert(tables_ok(225, 240));
    assert(tables_ok(224, 240));
}

proof fn lemma_tables_240_to_256()
    ensures
        tables_ok(240, 256),
{
    assert({
        &&& mask_ok(240, 0xf00)
        &&& mask_ok(241, 0xe09)
        &&& mask_ok(242, 0xd03)
        &&& mask_ok(243, 0xc0a)
        &&& mask_ok(244, 0xb06)
        &&& mask_ok(245, 0xa0f)
        &&& mask_ok(246, 0x905)
        &&& mask_ok(247, 0x80c)
        &&& mask_ok(248, 0x70c)
        &&& mask_ok(249, 0x605)
        &&& mask_ok(250, 0x50f)
        &&& mask_ok(251, 0x406)
        &&& mask_ok(252, 0x30a)
        &&& mask_ok(253, 0x203)
        &&& mask_ok(254, 0x109)
        &&& mask_ok(255, 0x000)
    }) by (bit_vector);
    assert({
        &&& row_ok(240, 0xffffffffff8ba8a9)
        &&& row_ok(241, 0xfffffffa9bb93903)
        &&& row_ok(242, 0xfffffffba88a0a10)
        &&& row_ok(243, 0xffffffffffa3ba13)
        &&& row_ok(244, 0xfffffff8b99b1b21)
        &&& row_ok(245, 0xffff9b2921b93903)
        &&& row_ok(246, 0xffffffffffb08b20)
        &&& row_ok(247, 0xfffffffffffffb23)
        &&& row_ok(248, 0xfffffff98aa82832)
        &&& row_ok(249, 0xffffffffff2902a9)
        &&& row_ok(250, 0xffff8a1810a82832)
        &&& row_ok(251, 0xfffffffffffff2a1)
        &&& row_ok(252, 0xffffffffff819831)
        &&& row_ok(253, 0xfffffffffffff190)
        &&& row_ok(254, 0xfffffffffffff830)
        &&& row_ok(255, 0xffffffffffffffff)
    }) by (bit_vector);
    assert(tables_ok(256, 256));
    assert(tables_ok(255, 256));
    assert(tables_ok(254, 256));
    assert(tables_ok(253, 256));
    assert(tables_ok(252, 256));
    assert(tables_ok(251, 256));
    assert(tables_ok(250, 256));
    assert(tables_ok(249, 256));
    assert(tables_ok(248, 256));
    assert(tables_ok(247, 256));
    assert(tables_ok(246, 256));
    assert(tables_ok(245, 256));
    assert(tables_ok(244, 256));
    assert(tables_ok(243, 256));
    assert(tables_ok(242, 256));
    assert(tables_ok(241, 256));
    assert(tables_ok(240, 256));
}

proof fn lemma_all_tables_ok()
    ensures
        tables_ok(0, 256),
{
    lemma_tables_0_to_16();
    lemma_tables_16_to_32();
    lemma_tables_32_to_48();
    lemma_tables_48_to_64();
    lemma_tables_64_to_80();
    lemma_tables_80_to_96();
    lemma_tables_96_to_112();
    lemma_tables_112_to_128();
    lemma_tables_128_to_144();
    lemma_tables_144_to_160();
    lemma_tables_160_to_176();
    lemma_tables_176_to_192();
    lemma_tables_192_to_208();
    lemma_tables_208_to_224();
    lemma_tables_224_to_240();
    lemma_tables_240_to_256();
    lemma_tables_ok_join(0, 16, 32);
    lemma_tables_ok_join(0, 32, 48);
    lemma_tables_ok_join(0, 48, 64);
    lemma_tables_ok_join(0, 64, 80);
    lemma_tables_ok_join(0, 80, 96);
    lemma_tables_ok_join(0, 96, 112);
    lemma_tables_ok_join(0, 112, 128);
    lemma_tables_ok_join(0, 128, 144);
    lemma_tables_ok_join(0, 144, 160);
    lemma_tables_ok_join(0, 160, 176);
    lemma_tables_ok_join(0, 176, 192);
    lemma_tables_ok_join(0, 192, 208);
    lemma_tables_ok_join(0, 208, 224);
    lemma_tables_ok_join(0, 224, 240);
    lemma_tables_ok_join(0, 240, 256);
}

/// The tables agree with the corner and edge numbering at every
/// configuration: `EDGE_TABLE` marks exactly the crossed edges, and every
/// triangle of `TRI_TABLE` is whole and names three crossed edges.
pub proof fn lemma_tables_sound(ci: int)
    requires
        0 <= ci < 256,
    ensures
        mask_ok(ci as u64, EDGE_TABLE[ci] as u64),
        row_ok(ci as u64, TRI_TABLE[ci]),
{
    lemma_all_tables_ok();
    lemma_tables_ok_at(0, 256, ci);
}

/// `EDGE_TABLE` marks an edge exactly when its two corners lie on different
/// sides of the isovalue.
pub proof fn lemma_edge_table_marks_crossed_edges(ci: int, e: int)
    requires
        0 <= ci < 256,
        0 <= e < 12,
    ensures
        bit(EDGE_TABLE[ci] as u64, e as u64) == edge_crossed(ci as u64, e as u64),
{
    lemma_tables_sound(ci);
    let mask = EDGE_TABLE[ci] as u64;
    assert(mask_agrees(ci as u64, mask, e as u64));
}

/// A triangle of `TRI_TABLE` is whole, and each of its corners sits on an
/// edge that `EDGE_TABLE` marks.
pub proof fn lemma_tri_table_names_marked_edges(ci: int, n: int, i: int)
    requires
        0 <= ci < 256,
        0 <= n < 5,
        0 <= i < 3,
        nibble(TRI_TABLE[ci], (3 * n) as u64) != 15,
    ensures
        nibble(TRI_TABLE[ci], (3 * n + i) as u64) < 12,
        bit(EDGE_TABLE[ci] as u64, nibble(TRI_TABLE[ci], (3 * n + i) as u64)),
{
    lemma_tables_sound(ci);
    let row = TRI_TABLE[ci];
    assert(triangle_ok(ci as u64, row, (3 * n) as u64));
    assert(names_crossed_edge(ci as u64, row, (3 * n + i) as u64));
    lemma_edge_table_marks_crossed_edges(ci, nibble(row, (3 * n + i) as u64) as int);
}

/// `EDGE_CORNERS` lists the corners that `edge_from` and `edge_to` name.
pub proof fn lemma_edge_corners(e: int)
    requires
        0 <= e < 12,
    ensures
        EDGE_CORNERS[e][0] == edge_from(e as u64),
        EDGE_CORNERS[e][1] == edge_to(e as u64),
        EDGE_CORNERS[e][0] < 8,
        EDGE_CORNERS[e][1] < 8,
{
}

/// Every corner lies at most one lattice step from the cube's origin along
/// each axis.
pub proof fn lemma_corner_offsets(j: int)
    requires
        0 <= j < 8,
    ensures
        CORNER_OFFSETS[j][0] <= 1,
        CORNER_OFFSETS[j][1] <= 1,
        CORNER_OFFSETS[j][2] <= 1,
{
}

/// Entry `t` of a row as the table is read: an edge number, or `-1` where
/// the row has ended.
pub open spec fn entry(row: u64, t: u64) -> int {
    if nibble(row, t) == 15 {
        -1
    } else {
        nibble(row, t) as int
    }
}

/// The configuration number of a cube whose corner `j` lies below the
/// isovalue exactly when `b[j]` holds.
pub open spec fn config_of(b: Seq<bool>) -> int {
    flag(b[0]) + 2 * flag(b[1]) + 4 * flag(b[2]) + 8 * flag(b[3]) + 16 * flag(b[4]) + 32 * flag(
        b[5],
    ) + 64 * flag(b[6]) + 128 * flag(b[7])
}

/// One for true, zero for false.
pub open spec fn flag(b: bool) -> int {
    if b {
        1
    } else {
        0
    }
}

proof fn lemma_bits_of_sum(
    b0: u64,
    b1: u64,
    b2: u64,
    b3: u64,
    b4: u64,
    b5: u64,
    b6: u64,
    b7: u64,
    s: u64,
)
    by (bit_vector)
    requires
        b0 <= 1,
        b1 <= 1,
        b2 <= 1,
        b3 <= 1,
        b4 <= 1,
        b5 <= 1,
        b6 <= 1,
        b7 <= 1,
        s == b0 + 2 * b1 + 4 * b2 + 8 * b3 + 16 * b4 + 32 * b5 + 64 * b6 + 128 * b7,
    ensures
        bit(s, 0) == (b0 == 1),
        bit(s, 1) == (b1 == 1),
        bit(s, 2) == (b2 == 1),
        bit(s, 3) == (b3 == 1),
        bit(s, 4) == (b4 == 1),
        bit(s, 5) == (b5 == 1),
        bit(s, 6) == (b6 == 1),
        bit(s, 7) == (b7 == 1),
{
}

/// Bit `j` of a configuration number tells whether corner `j` lies below
/// the isovalue.
pub proof fn lemma_config_bits(b: Seq<bool>, j: int)
    requires
        b.len() == 8,
        0 <= j < 8,
    ensures
        0 <= config_of(b) < 256,
        bit(config_of(b) as u64, j as u64) == b[j],
{
    lemma_bits_of_sum(
        flag(b[0]) as u64,
        flag(b[1]) as u64,
        flag(b[2]) as u64,
        flag(b[3]) as u64,
        flag(b[4]) as u64,
        flag(b[5]) as u64,
        flag(b[6]) as u64,
        flag(b[7]) as u64,
        config_of(b) as u64,
    );
}

/// Whether `EDGE_TABLE` marks edge `e` in configuration `ci`.
pub fn edge_marked(ci: usize, e: usize) -> (r: bool)
    requires
        ci < 256,
        e < 12,
    ensures
        r == bit(EDGE_TABLE[ci as int] as u64, e as u64),
{
    let mask = EDGE_TABLE[ci] as u64;
    let shift = e as u64;
    (mask >> shift) & 1 == 1
}

/// Entry `t` of row `ci` of `TRI_TABLE`: an edge number, or `-1` where the
/// row has ended.
pub fn tri_entry(ci: usize, t: usize) -> (r: i8)
    requires
        ci < 256,
        t < 16,
    ensures
        r == entry(TRI_TABLE[ci as int], t as u64),
        -1 <= r < 15,
{
    let row = TRI_TABLE[ci];
    let pos = t as u64;
    assert((pos << 2) < 64) by (bit_vector)
        requires
            pos < 16,
    ;
    let n = (row >> (pos << 2)) & 0xf;
    assert(((row >> (pos << 2)) & 0xf) <= 15) by (bit_vector);
    if n == 15 {
        -1
    } else {
        n as i8
    }
}

} // verus!
