//! Voxel-grid downsampling: group point indices by voxel cell, let a
//! selection strategy pick one representative index per cell, then gather
//! every synchronised buffer at the selected indices in ascending order.
//!
//! A point's cell is `floor(coordinate / voxel_size)` per axis, computed by
//! the numeric backend (see [`crate::backend::cell_axis`]); everything from
//! there on — grouping, selection bookkeeping, ordering, gathering — is
//! verified. Groups are formed in first-encounter order and each group lists
//! its members in ascending index order; the representatives are sorted
//! before gathering, so the output preserves the input's point order.

use vstd::prelude::*;

use crate::backend::{
    cell_axis, floor_div_bits, int_sat_bits, mean_bits, sq_dist_bits, tensor_floor_div,
    tensor_mean_rows, tensor_saturating_ints, tensor_sq_dists, CELL_CLAMP_HI_BITS,
    CELL_CLAMP_LO_BITS,
};
use crate::bits::{le_zero_bits, lt_bits, spec_le_zero, spec_lt};
use crate::buffers::{
    copy_u32s, flatten_rows, le_bytes_to_u32s, lemma_concat_rows_index, lemma_le_to_u32s_roundtrip,
    spec_concat_rows, spec_le_to_u32s, spec_rows, u32s_to_le_bytes,
};
use crate::cloud::{CloudModel, HighPerformancePointCloud};
use crate::error::PointCloudError;
use vstd::multiset::Multiset;
use vstd::relations::{sorted_by, total_ordering};
use vstd::seq_lib::lemma_sorted_unique;

verus! {

/// The voxel cell of one coordinate row for one voxel size.
pub open spec fn spec_cell(p: Seq<u32>, v: u32) -> (i64, i64, i64) {
    (cell_axis(p[0], v), cell_axis(p[1], v), cell_axis(p[2], v))
}

/// The cell shared by every member of a group: the cell of its first member.
pub open spec fn spec_group_cell(coords: Seq<Seq<u32>>, v: u32, grp: Seq<usize>) -> (
    i64,
    i64,
    i64,
) {
    spec_cell(coords[grp[0] as int], v)
}

/// The groups formed from the first `i` points, in first-encounter order: a
/// point whose cell matches an existing group joins it, any other point
/// opens a new group.
pub open spec fn spec_groups_upto(coords: Seq<Seq<u32>>, v: u32, i: int) -> Seq<Seq<usize>>
    decreases i,
{
    if i <= 0 {
        Seq::empty()
    } else {
        let prev = spec_groups_upto(coords, v, i - 1);
        let c = spec_cell(coords[i - 1], v);
        if exists|g: int| 0 <= g < prev.len() && spec_group_cell(coords, v, #[trigger] prev[g])
            == c {
            let g = choose|g: int|
                0 <= g < prev.len() && spec_group_cell(coords, v, #[trigger] prev[g]) == c;
            prev.update(g, prev[g].push((i - 1) as usize))
        } else {
            prev.push(seq![(i - 1) as usize])
        }
    }
}

/// The groups of a whole coordinate buffer.
pub open spec fn spec_groups(coords: Seq<Seq<u32>>, v: u32) -> Seq<Seq<usize>> {
    spec_groups_upto(coords, v, coords.len() as int)
}

/// Point `p` appears in some group.
pub open spec fn spec_covered(groups: Seq<Seq<usize>>, p: int) -> bool {
    exists|g: int, t: int|
        0 <= g < groups.len() && 0 <= t < groups[g].len() && ((#[trigger] groups[g][t]) as int)
            == p
}

/// What makes a grouping of the first `i` points valid: groups are
/// non-empty, hold ascending indices below `i`, agree on their cell, carry
/// pairwise distinct cells, never share an index, and cover every point.
pub open spec fn spec_grouping_ok(
    coords: Seq<Seq<u32>>,
    v: u32,
    groups: Seq<Seq<usize>>,
    i: int,
) -> bool {
    &&& forall|g: int| 0 <= g < groups.len() ==> (#[trigger] groups[g]).len() > 0
    &&& forall|g: int, t: int|
        0 <= g < groups.len() && 0 <= t < groups[g].len() ==> ((#[trigger] groups[g][t]) as int)
            < i
    &&& forall|g: int, t1: int, t2: int|
        0 <= g < groups.len() && 0 <= t1 < t2 < groups[g].len() ==> (#[trigger] groups[g][t1])
            < (#[trigger] groups[g][t2])
    &&& forall|g: int, t: int|
        0 <= g < groups.len() && 0 <= t < groups[g].len() ==> spec_cell(
            coords[(#[trigger] groups[g][t]) as int],
            v,
        ) == spec_group_cell(coords, v, groups[g])
    &&& forall|g1: int, g2: int|
        0 <= g1 < g2 < groups.len() ==> spec_group_cell(coords, v, #[trigger] groups[g1])
            != spec_group_cell(coords, v, #[trigger] groups[g2])
    &&& forall|p: int| 0 <= p < i ==> #[trigger] spec_covered(groups, p)
}

/// The first-encounter grouping is valid at every prefix.
pub proof fn lemma_groups_ok(coords: Seq<Seq<u32>>, v: u32, i: int)
    requires
        0 <= i <= coords.len(),
        coords.len() <= usize::MAX,
    ensures
        spec_grouping_ok(coords, v, spec_groups_upto(coords, v, i), i),
    decreases i,
{
    if i > 0 {
        lemma_groups_ok(coords, v, i - 1);
        let prev = spec_groups_upto(coords, v, i - 1);
        let cur = spec_groups_upto(coords, v, i);
        let c = spec_cell(coords[i - 1], v);
        let p = (i - 1) as usize;
        assert(p as int == i - 1);
        if exists|g: int| 0 <= g < prev.len() && spec_group_cell(coords, v, #[trigger] prev[g])
            == c {
            let g = choose|g: int|
                0 <= g < prev.len() && spec_group_cell(coords, v, #[trigger] prev[g]) == c;
            assert(cur == prev.update(g, prev[g].push(p)));
            assert(cur[g] == prev[g].push(p));
            assert(cur[g].len() == prev[g].len() + 1);
            assert(forall|g2: int| 0 <= g2 < cur.len() && g2 != g ==> cur[g2] == prev[g2]);
            assert(cur[g][0] == prev[g][0]);
            assert forall|g2: int| 0 <= g2 < cur.len() implies spec_group_cell(
                coords,
                v,
                #[trigger] cur[g2],
            ) == spec_group_cell(coords, v, prev[g2]) by {
                assert(cur[g2][0] == prev[g2][0]);
            }
            assert forall|g2: int, t: int|
                0 <= g2 < cur.len() && 0 <= t < cur[g2].len() implies spec_cell(
                coords[(#[trigger] cur[g2][t]) as int],
                v,
            ) == spec_group_cell(coords, v, cur[g2]) by {
                if g2 == g {
                    if t == cur[g].len() - 1 {
                        assert(cur[g][t] == p);
                        assert(spec_group_cell(coords, v, prev[g]) == c);
                    } else {
                        assert(cur[g][t] == prev[g][t]);
                        assert(spec_cell(coords[(prev[g][t]) as int], v) == spec_group_cell(
                            coords,
                            v,
                            prev[g],
                        ));
                    }
                } else {
                    assert(cur[g2] == prev[g2]);
                    assert(spec_cell(coords[(prev[g2][t]) as int], v) == spec_group_cell(
                        coords,
                        v,
                        prev[g2],
                    ));
                }
            }
            assert forall|g2: int, t1: int, t2: int|
                0 <= g2 < cur.len() && 0 <= t1 < t2 < cur[g2].len() implies (
            #[trigger] cur[g2][t1]) < (#[trigger] cur[g2][t2]) by {
                if g2 == g && t2 == cur[g].len() - 1 {
                    assert(cur[g][t1] == prev[g][t1]);
                    assert(cur[g][t2] == p);
                    assert((prev[g][t1] as int) < i - 1);
                } else if g2 == g {
                    assert(cur[g][t1] == prev[g][t1]);
                    assert(cur[g][t2] == prev[g][t2]);
                } else {
                    assert(cur[g2] == prev[g2]);
                }
            }
            assert forall|q: int| 0 <= q < i implies #[trigger] spec_covered(cur, q) by {
                if q == i - 1 {
                    assert(cur[g][cur[g].len() - 1] == p);
                    assert(((cur[g][cur[g].len() - 1]) as int) == q);
                } else {
                    assert(spec_covered(prev, q));
                    let (g2, t): (int, int) = choose|g2: int, t: int|
                        0 <= g2 < prev.len() && 0 <= t < prev[g2].len()
                            && ((#[trigger] prev[g2][t]) as int) == q;
                    if g2 == g {
                        assert(cur[g][t] == prev[g][t]);
                        assert(((cur[g2][t]) as int) == q);
                    } else {
                        assert(((cur[g2][t]) as int) == q);
                    }
                }
            }
        } else {
            assert(cur == prev.push(seq![p]));
            assert(cur[cur.len() - 1] == seq![p]);
            assert(seq![p][0] == p);
            assert(seq![p].len() == 1);
            assert(spec_group_cell(coords, v, seq![p]) == c);
            assert(forall|g2: int| 0 <= g2 < prev.len() ==> cur[g2] == prev[g2]);
            assert forall|g1: int, g2: int| 0 <= g1 < g2 < cur.len() implies spec_group_cell(
                coords,
                v,
                #[trigger] cur[g1],
            ) != spec_group_cell(coords, v, #[trigger] cur[g2]) by {
                if g2 == cur.len() - 1 {
                    assert(cur[g1] == prev[g1]);
                    assert(spec_group_cell(coords, v, prev[g1]) != c);
                }
            }
            assert forall|g2: int, t: int|
                0 <= g2 < cur.len() && 0 <= t < cur[g2].len() implies spec_cell(
                coords[(#[trigger] cur[g2][t]) as int],
                v,
            ) == spec_group_cell(coords, v, cur[g2]) by {
                if g2 == cur.len() - 1 {
                    assert(cur[g2][t] == p);
                } else {
                    assert(cur[g2] == prev[g2]);
                    assert(spec_cell(coords[(prev[g2][t]) as int], v) == spec_group_cell(
                        coords,
                        v,
                        prev[g2],
                    ));
                }
            }
            assert forall|q: int| 0 <= q < i implies #[trigger] spec_covered(cur, q) by {
                if q == i - 1 {
                    assert(((cur[cur.len() - 1][0]) as int) == q);
                } else {
                    assert(spec_covered(prev, q));
                    let (g2, t): (int, int) = choose|g2: int, t: int|
                        0 <= g2 < prev.len() && 0 <= t < prev[g2].len()
                            && ((#[trigger] prev[g2][t]) as int) == q;
                    assert(((cur[g2][t]) as int) == q);
                }
            }
        }
    }
}

/// Computes every point's voxel cell through the numeric backend.
fn compute_cells(xyz: &Vec<Vec<u32>>, v: u32) -> (r: Vec<(i64, i64, i64)>)
    requires
        spec_rows(*xyz).len() >= 1,
        forall|i: int| 0 <= i < spec_rows(*xyz).len() ==> (#[trigger] spec_rows(*xyz)[i]).len()
            == 3,
    ensures
        r@.len() == spec_rows(*xyz).len(),
        forall|i: int|
            0 <= i < r@.len() ==> #[trigger] r@[i] == spec_cell(spec_rows(*xyz)[i], v),
{
    let n = xyz.len();
    let flat = flatten_rows(xyz, 3);
    proof {
        lemma_concat_rows_index(spec_rows(*xyz), 3);
    }
    let bytes = u32s_to_le_bytes(&flat);
    let mut vtriple: Vec<u32> = Vec::new();
    vtriple.push(v);
    vtriple.push(v);
    vtriple.push(v);
    let vbytes = u32s_to_le_bytes(&vtriple);
    let mut lot: Vec<u32> = Vec::new();
    lot.push(CELL_CLAMP_LO_BITS);
    lot.push(CELL_CLAMP_LO_BITS);
    lot.push(CELL_CLAMP_LO_BITS);
    let lob = u32s_to_le_bytes(&lot);
    let mut hit: Vec<u32> = Vec::new();
    hit.push(CELL_CLAMP_HI_BITS);
    hit.push(CELL_CLAMP_HI_BITS);
    hit.push(CELL_CLAMP_HI_BITS);
    let hib = u32s_to_le_bytes(&hit);
    proof {
        lemma_le_to_u32s_roundtrip(flat@);
        lemma_le_to_u32s_roundtrip(vtriple@);
        lemma_le_to_u32s_roundtrip(lot@);
        lemma_le_to_u32s_roundtrip(hit@);
        assert(spec_le_to_u32s(lob@) =~= seq![
            CELL_CLAMP_LO_BITS,
            CELL_CLAMP_LO_BITS,
            CELL_CLAMP_LO_BITS,
        ]);
        assert(spec_le_to_u32s(hib@) =~= seq![
            CELL_CLAMP_HI_BITS,
            CELL_CLAMP_HI_BITS,
            CELL_CLAMP_HI_BITS,
        ]);
    }
    let qb = tensor_floor_div(&bytes, n, &vbytes);
    let cells = tensor_saturating_ints(&qb, n, &lob, &hib);
    let cl = cells.len();
    proof {
        assert forall|j: int| 0 <= j < 3 * n implies #[trigger] cells@[j] == cell_axis(
            flat@[j],
            v,
        ) by {
            assert(spec_le_to_u32s(bytes@)[j] == flat@[j]);
            assert(spec_le_to_u32s(vbytes@)[j % 3] == vtriple@[j % 3]);
            assert(vtriple@[j % 3] == v);
            assert(spec_le_to_u32s(qb@)[j] == floor_div_bits(flat@[j], v));
            assert(cells@[j] == int_sat_bits(spec_le_to_u32s(qb@)[j]));
        }
    }
    let mut out: Vec<(i64, i64, i64)> = Vec::new();
    let mut i: usize = 0;
    while i < n
        invariant
            n == spec_rows(*xyz).len(),
            forall|t: int|
                0 <= t < spec_rows(*xyz).len() ==> (#[trigger] spec_rows(*xyz)[t]).len() == 3,
            flat@ == spec_concat_rows(spec_rows(*xyz)),
            flat@.len() == 3 * n,
            cl == cells@.len(),
            cells@.len() == 3 * n,
            forall|j: int| 0 <= j < 3 * n ==> #[trigger] cells@[j] == cell_axis(flat@[j], v),
            i <= n,
            out@.len() == i,
            forall|t: int|
                0 <= t < i ==> #[trigger] out@[t] == spec_cell(spec_rows(*xyz)[t], v),
        decreases n - i,
    {
        proof {
            assert(3 * (i as int) + 2 < cl as int);
        }
        let cell = (cells[3 * i], cells[3 * i + 1], cells[3 * i + 2]);
        proof {
            let ii = i as int;
            lemma_concat_rows_index(spec_rows(*xyz), 3);
            assert(spec_concat_rows(spec_rows(*xyz))[ii * 3 + 0] == spec_rows(*xyz)[ii][0]);
            assert(spec_concat_rows(spec_rows(*xyz))[ii * 3 + 1] == spec_rows(*xyz)[ii][1]);
            assert(spec_concat_rows(spec_rows(*xyz))[ii * 3 + 2] == spec_rows(*xyz)[ii][2]);
            assert(flat@[ii * 3 + 0] == spec_rows(*xyz)[ii][0]);
            assert(flat@[ii * 3 + 1] == spec_rows(*xyz)[ii][1]);
            assert(flat@[ii * 3 + 2] == spec_rows(*xyz)[ii][2]);
            assert(3 * ii + 0 == ii * 3 + 0);
            assert(cells@[3 * ii + 0] == cell_axis(flat@[3 * ii + 0], v));
            assert(cells@[3 * ii + 1] == cell_axis(flat@[3 * ii + 1], v));
            assert(cells@[3 * ii + 2] == cell_axis(flat@[3 * ii + 2], v));
            assert(cell == spec_cell(spec_rows(*xyz)[ii], v));
        }
        out.push(cell);
        i += 1;
    }
    out
}

/// The mathematical value of a group list.
pub open spec fn spec_index_groups(g: Vec<Vec<usize>>) -> Seq<Seq<usize>> {
    Seq::new(g@.len(), |i: int| g@[i]@)
}

/// Finds the group whose cell equals `c`, if any.
fn find_group(gcells: &Vec<(i64, i64, i64)>, c: (i64, i64, i64)) -> (r: Option<usize>)
    ensures
        r matches Some(g) ==> (g as int) < gcells@.len() && gcells@[g as int] == c,
        r is None ==> forall|t: int| 0 <= t < gcells@.len() ==> #[trigger] gcells@[t] != c,
{
    let mut g: usize = 0;
    while g < gcells.len()
        invariant
            g <= gcells@.len(),
            forall|t: int| 0 <= t < g ==> #[trigger] gcells@[t] != c,
        decreases gcells@.len() - g,
    {
        let gc = gcells[g];
        if gc.0 == c.0 && gc.1 == c.1 && gc.2 == c.2 {
            proof {
                assert(gcells@[g as int] == c);
            }
            return Some(g);
        }
        g += 1;
    }
    None
}

/// Groups every point index by its voxel cell, in first-encounter order,
/// each group listing its members in ascending index order.
///
/// An empty coordinate buffer fails with `ShapeError`, a voxel size that is
/// not strictly positive with `InvalidParameter`, a row that is not a triple
/// with `ShapeError`.
pub fn group_points_by_voxel(xyz: &Vec<Vec<u32>>, voxel_size: u32) -> (r: Result<
    Vec<Vec<usize>>,
    PointCloudError,
>)
    ensures
        r is Ok <==> spec_rows(*xyz).len() > 0 && !spec_le_zero(voxel_size) && (forall|i: int|
            0 <= i < spec_rows(*xyz).len() ==> (#[trigger] spec_rows(*xyz)[i]).len() == 3),
        spec_rows(*xyz).len() == 0 ==> r == Err::<Vec<Vec<usize>>, _>(PointCloudError::ShapeError),
        spec_rows(*xyz).len() > 0 && spec_le_zero(voxel_size) ==> r == Err::<Vec<Vec<usize>>, _>(
            PointCloudError::InvalidParameter,
        ),
        spec_rows(*xyz).len() > 0 && !spec_le_zero(voxel_size) && r is Err ==> r->Err_0
            == PointCloudError::ShapeError,
        r is Err ==> r->Err_0 == PointCloudError::ShapeError || r->Err_0
            == PointCloudError::InvalidParameter,
        r matches Ok(g) ==> spec_index_groups(g) == spec_groups(spec_rows(*xyz), voxel_size),
{
    let n = xyz.len();
    if n == 0 {
        return Err(PointCloudError::ShapeError);
    }
    if le_zero_bits(voxel_size) {
        return Err(PointCloudError::InvalidParameter);
    }
    let mut i: usize = 0;
    while i < n
        invariant
            n == spec_rows(*xyz).len(),
            n > 0,
            !spec_le_zero(voxel_size),
            i <= n,
            forall|t: int| 0 <= t < i ==> (#[trigger] spec_rows(*xyz)[t]).len() == 3,
        decreases n - i,
    {
        if xyz[i].len() != 3 {
            proof {
                assert(spec_rows(*xyz)[i as int].len() != 3);
            }
            return Err(PointCloudError::ShapeError);
        }
        proof {
            assert(spec_rows(*xyz)[i as int].len() == 3);
        }
        i += 1;
    }
    let ghost rows = spec_rows(*xyz);
    let v = voxel_size;
    let cells = compute_cells(xyz, v);
    let mut groups: Vec<Vec<usize>> = Vec::new();
    let mut gcells: Vec<(i64, i64, i64)> = Vec::new();
    let mut i: usize = 0;
    while i < n
        invariant
            n == rows.len(),
            n > 0,
            !spec_le_zero(voxel_size),
            v == voxel_size,
            forall|t: int| 0 <= t < n ==> (#[trigger] rows[t]).len() == 3,
            rows == spec_rows(*xyz),
            cells@.len() == n,
            forall|t: int| 0 <= t < n ==> #[trigger] cells@[t] == spec_cell(rows[t], v),
            i <= n,
            spec_index_groups(groups) == spec_groups_upto(rows, v, i as int),
            gcells@.len() == groups@.len(),
            forall|g: int|
                0 <= g < groups@.len() ==> #[trigger] gcells@[g] == spec_group_cell(
                    rows,
                    v,
                    spec_index_groups(groups)[g],
                ),
        decreases n - i,
    {
        proof {
            lemma_groups_ok(rows, v, i as int);
        }
        let c = cells[i];
        let ghost prev = spec_groups_upto(rows, v, i as int);
        let found = find_group(&gcells, c);
        proof {
            assert(c == spec_cell(rows[i as int], v));
        }
        match found {
            Some(g) => {
                proof {
                    assert(spec_group_cell(rows, v, prev[g as int]) == c);
                    assert(exists|g2: int|
                        0 <= g2 < prev.len() && spec_group_cell(rows, v, #[trigger] prev[g2])
                            == c);
                    let gg = choose|g2: int|
                        0 <= g2 < prev.len() && spec_group_cell(rows, v, #[trigger] prev[g2])
                            == c;
                    if gg < g as int {
                        assert(spec_group_cell(rows, v, prev[gg]) != spec_group_cell(
                            rows,
                            v,
                            prev[g as int],
                        ));
                    } else {
                        if (g as int) < gg {
                            assert(spec_group_cell(rows, v, prev[g as int]) != spec_group_cell(
                                rows,
                                v,
                                prev[gg],
                            ));
                        }
                    }
                    assert(gg == g as int);
                }
                let mut grp = groups.remove(g);
                grp.push(i);
                groups.insert(g, grp);
                proof {
                    assert(spec_index_groups(groups) =~= prev.update(
                        g as int,
                        prev[g as int].push(i),
                    ));
                    assert(spec_index_groups(groups) == spec_groups_upto(rows, v, i as int + 1));
                    assert forall|g2: int| 0 <= g2 < groups@.len() implies #[trigger] gcells@[g2]
                        == spec_group_cell(rows, v, spec_index_groups(groups)[g2]) by {
                        assert(spec_index_groups(groups)[g2][0] == prev[g2][0]);
                    }
                }
            },
            None => {
                proof {
                    assert forall|g2: int|
                        0 <= g2 < prev.len() implies spec_group_cell(
                        rows,
                        v,
                        #[trigger] prev[g2],
                    ) != c by {
                        assert(gcells@[g2] != c);
                    }
                }
                let mut ng: Vec<usize> = Vec::new();
                ng.push(i);
                groups.push(ng);
                gcells.push(c);
                proof {
                    assert(spec_index_groups(groups) =~= prev.push(seq![i as usize]));
                    assert(spec_index_groups(groups) == spec_groups_upto(rows, v, i as int + 1));
                    assert forall|g2: int| 0 <= g2 < groups@.len() implies #[trigger] gcells@[g2]
                        == spec_group_cell(rows, v, spec_index_groups(groups)[g2]) by {
                        if g2 < groups@.len() - 1 {
                            assert(spec_index_groups(groups)[g2][0] == prev[g2][0]);
                        } else {
                            assert(spec_index_groups(groups)[g2][0] == i as usize);
                        }
                    }
                }
            },
        }
        i += 1;
    }
    Ok(groups)
}

/// The ascending order on indices.
pub open spec fn spec_index_leq() -> spec_fn(usize, usize) -> bool {
    |a: usize, b: usize| a <= b
}

/// A sequence of indices in ascending order.
pub open spec fn spec_sorted_indices(s: Seq<usize>) -> bool {
    sorted_by(s, spec_index_leq())
}

/// Sorts indices ascending; the result holds the same indices.
fn sort_indices(v: Vec<usize>) -> (r: Vec<usize>)
    ensures
        spec_sorted_indices(r@),
        r@.to_multiset() == v@.to_multiset(),
        r@.len() == v@.len(),
{
    let ghost orig = v@;
    let mut src = v;
    let mut out: Vec<usize> = Vec::new();
    proof {
        broadcast use vstd::multiset::group_multiset_axioms;
        broadcast use vstd::seq_lib::group_to_multiset_ensures;

        assert forall|x: usize| out@.to_multiset().count(x) == 0 by {
            assert(!out@.contains(x));
        }
        assert(out@.to_multiset().add(src@.to_multiset()) =~= orig.to_multiset());
    }
    while src.len() > 0
        invariant
            out@.to_multiset().add(src@.to_multiset()) == orig.to_multiset(),
            spec_sorted_indices(out@),
            forall|a: int, b: int|
                0 <= a < out@.len() && 0 <= b < src@.len() ==> (#[trigger] out@[a])
                    <= (#[trigger] src@[b]),
            out@.len() + src@.len() == orig.len(),
        decreases src@.len(),
    {
        let mut m: usize = 0;
        let mut k: usize = 1;
        while k < src.len()
            invariant
                src@.len() > 0,
                (m as int) < src@.len(),
                k <= src@.len(),
                forall|t: int| 0 <= t < k ==> src@[m as int] <= (#[trigger] src@[t]),
            decreases src@.len() - k,
        {
            if src[k] < src[m] {
                m = k;
            }
            k += 1;
        }
        let ghost pre = src@;
        let ghost preout = out@;
        let x = src.remove(m);
        out.push(x);
        proof {
            broadcast use vstd::multiset::group_multiset_axioms;
            broadcast use vstd::seq_lib::group_to_multiset_ensures;

            assert(src@ == pre.remove(m as int));
            assert(out@ == preout.push(x));
            assert(pre.remove(m as int).to_multiset() =~= pre.to_multiset().remove(
                pre[m as int],
            ));
            assert(preout.push(x).to_multiset() =~= preout.to_multiset().insert(x));
            assert(pre.contains(x));
            assert(pre.to_multiset().count(x) > 0);
            assert(out@.to_multiset().add(src@.to_multiset()) =~= preout.to_multiset().add(
                pre.to_multiset(),
            ));
            assert(out@.to_multiset().add(src@.to_multiset()) =~= orig.to_multiset());
            assert forall|a: int, b: int|
                0 <= a < out@.len() && 0 <= b < src@.len() implies (#[trigger] out@[a]) <= (
            #[trigger] src@[b]) by {
                let b0 = if b < m as int {
                    b
                } else {
                    b + 1
                };
                assert(src@[b] == pre[b0]);
                if a < out@.len() - 1 {
                } else {
                    assert(out@[a] == x);
                    assert(pre[m as int] <= pre[b0]);
                }
            }
            assert forall|a: int, b: int| 0 <= a < b < out@.len() implies spec_index_leq()(
                out@[a],
                out@[b],
            ) by {
                if b == out@.len() - 1 {
                    assert(out@[a] <= x);
                }
            }
        }
    }
    proof {
        broadcast use vstd::multiset::group_multiset_axioms;
        broadcast use vstd::seq_lib::group_to_multiset_ensures;

        assert forall|x: usize| src@.to_multiset().count(x) == 0 by {
            assert(!src@.contains(x));
        }
        assert(out@.to_multiset() =~= orig.to_multiset());
    }
    out
}

/// Largest finite single-precision magnitude, as bits: the running minimum
/// a distance scan starts from.
pub const F32_MAX_BITS: u32 = 0x7f7f_ffff;

/// The squared distances of the points picked by `idxs` to the triple `c`.
pub open spec fn spec_dists(coords: Seq<Seq<u32>>, idxs: Seq<usize>, c: Seq<u32>) -> Seq<u32> {
    Seq::new(idxs.len(), |t: int| sq_dist_bits(coords[idxs[t] as int], c))
}

/// One pass of the closest-point scan: the running best index is replaced
/// exactly when a strictly smaller distance appears, so ties keep the
/// first-encountered candidate.
pub open spec fn spec_fold_closest(
    ds: Seq<u32>,
    idxs: Seq<usize>,
    i: int,
    best: usize,
    bestd: u32,
) -> usize
    decreases ds.len() - i,
    when 0 <= i <= ds.len() && idxs.len() == ds.len()
{
    if i >= ds.len() {
        best
    } else if spec_lt(ds[i], bestd) {
        spec_fold_closest(ds, idxs, i + 1, idxs[i], ds[i])
    } else {
        spec_fold_closest(ds, idxs, i + 1, best, bestd)
    }
}

/// The candidate index closest to `c`, ties broken by first encounter.
pub open spec fn spec_closest_to(coords: Seq<Seq<u32>>, idxs: Seq<usize>, c: Seq<u32>) -> usize {
    spec_fold_closest(spec_dists(coords, idxs, c), idxs, 0, idxs[0], F32_MAX_BITS)
}

/// The scan's result is always one of the candidates.
pub proof fn lemma_fold_closest_member(ds: Seq<u32>, idxs: Seq<usize>, i: int, best: usize, bestd: u32)
    requires
        0 <= i <= ds.len(),
        idxs.len() == ds.len(),
        idxs.contains(best),
    ensures
        idxs.contains(spec_fold_closest(ds, idxs, i, best, bestd)),
    decreases ds.len() - i,
{
    if i < ds.len() {
        if spec_lt(ds[i], bestd) {
            assert(idxs.contains(idxs[i]));
            lemma_fold_closest_member(ds, idxs, i + 1, idxs[i], ds[i]);
        } else {
            lemma_fold_closest_member(ds, idxs, i + 1, best, bestd);
        }
    }
}

/// Copies an index buffer.
fn copy_indices(src: &Vec<usize>) -> (r: Vec<usize>)
    ensures
        r@ == src@,
{
    let mut out: Vec<usize> = Vec::new();
    let mut i: usize = 0;
    while i < src.len()
        invariant
            i <= src@.len(),
            out@ == src@.take(i as int),
        decreases src@.len() - i,
    {
        out.push(src[i]);
        proof {
            assert(out@ =~= src@.take(i + 1));
        }
        i += 1;
    }
    proof {
        assert(src@.take(src@.len() as int) =~= src@);
    }
    out
}

/// Among the candidate indices, the point closest to the given triple, ties
/// broken by the first-encountered candidate. The distances come from the
/// numeric backend; the scan itself is verified exactly.
pub fn closest_index(indices: &Vec<usize>, xyz: &Vec<Vec<u32>>, centroid: &Vec<u32>) -> (r: usize)
    requires
        indices@.len() > 0,
        forall|t: int|
            0 <= t < indices@.len() ==> ((#[trigger] indices@[t]) as int) < spec_rows(*xyz).len(),
        forall|i: int| 0 <= i < spec_rows(*xyz).len() ==> (#[trigger] spec_rows(*xyz)[i]).len()
            == 3,
        centroid@.len() == 3,
    ensures
        indices@.contains(r),
        r == spec_closest_to(spec_rows(*xyz), indices@, centroid@),
{
    let ghost rows = spec_rows(*xyz);
    let k = indices.len();
    let mut pts: Vec<Vec<u32>> = Vec::new();
    let mut t: usize = 0;
    while t < k
        invariant
            k == indices@.len(),
            rows == spec_rows(*xyz),
            forall|u: int|
                0 <= u < indices@.len() ==> ((#[trigger] indices@[u]) as int) < rows.len(),
            forall|i: int| 0 <= i < rows.len() ==> (#[trigger] rows[i]).len() == 3,
            t <= k,
            pts@.len() == t,
            forall|u: int| 0 <= u < t ==> (#[trigger] pts@[u]@) == rows[indices@[u] as int],
        decreases k - t,
    {
        let row = copy_u32s(&xyz[indices[t]]);
        pts.push(row);
        t += 1;
    }
    proof {
        assert forall|u: int| 0 <= u < spec_rows(pts).len() implies (#[trigger] spec_rows(
            pts,
        )[u]).len() == 3 by {
            assert(spec_rows(pts)[u] == rows[indices@[u] as int]);
        }
    }
    let flat = flatten_rows(&pts, 3);
    let bytes = u32s_to_le_bytes(&flat);
    let cbytes = u32s_to_le_bytes(centroid);
    proof {
        lemma_le_to_u32s_roundtrip(flat@);
        lemma_le_to_u32s_roundtrip(centroid@);
    }
    let dsb = tensor_sq_dists(&bytes, k, &cbytes);
    let ds = le_bytes_to_u32s(&dsb);
    let ghost dists = spec_dists(rows, indices@, centroid@);
    proof {
        lemma_concat_rows_index(spec_rows(pts), 3);
        assert forall|u: int| 0 <= u < k implies ds@[u] == dists[u] by {
            assert(ds@[u] == spec_le_to_u32s(dsb@)[u]);
            assert(spec_le_to_u32s(dsb@)[u] == sq_dist_bits(
                spec_le_to_u32s(bytes@).subrange(3 * u, 3 * u + 3),
                spec_le_to_u32s(cbytes@),
            ));
            assert(spec_le_to_u32s(bytes@) == flat@);
            assert forall|w: int| 0 <= w < 3 implies flat@.subrange(3 * u, 3 * u + 3)[w]
                == rows[indices@[u] as int][w] by {
                assert(flat@[u * 3 + w] == spec_rows(pts)[u][w]);
                assert(3 * u + w == u * 3 + w);
                assert(spec_rows(pts)[u] == rows[indices@[u] as int]);
            }
            assert(flat@.subrange(3 * u, 3 * u + 3) =~= rows[indices@[u] as int]);
        }
        assert(ds@ =~= dists);
    }
    let mut best = indices[0];
    let mut bestd: u32 = F32_MAX_BITS;
    let mut i: usize = 0;
    while i < k
        invariant
            k == indices@.len(),
            k == ds@.len(),
            k > 0,
            ds@ == dists,
            i <= k,
            indices@.contains(best),
            spec_fold_closest(dists, indices@, 0, indices@[0], F32_MAX_BITS) == spec_fold_closest(
                dists,
                indices@,
                i as int,
                best,
                bestd,
            ),
        decreases k - i,
    {
        if lt_bits(ds[i], bestd) {
            best = indices[i];
            bestd = ds[i];
            proof {
                assert(indices@.contains(indices@[i as int]));
            }
        }
        i += 1;
    }
    best
}

/// The arithmetic mean coordinate of the points picked by `indices`.
///
/// An empty candidate list fails with `EmptyCellError`; a candidate index
/// beyond the coordinate buffer fails with `InvalidParameter`. The mean
/// itself comes from the numeric backend.
pub fn compute_voxel_centroid(indices: &Vec<usize>, xyz: &Vec<Vec<u32>>) -> (r: Result<
    Vec<u32>,
    PointCloudError,
>)
    requires
        forall|i: int| 0 <= i < spec_rows(*xyz).len() ==> (#[trigger] spec_rows(*xyz)[i]).len()
            == 3,
    ensures
        r is Ok <==> indices@.len() > 0 && (forall|t: int|
            0 <= t < indices@.len() ==> ((#[trigger] indices@[t]) as int) < spec_rows(
                *xyz,
            ).len()),
        indices@.len() == 0 ==> r == Err::<Vec<u32>, _>(PointCloudError::EmptyCellError),
        r is Err && indices@.len() > 0 ==> r == Err::<Vec<u32>, _>(
            PointCloudError::InvalidParameter,
        ),
        r matches Ok(c) ==> c@.len() == 3 && c@ == mean_bits(
            spec_gather_rows(spec_rows(*xyz), indices@),
        ),
{
    let ghost rows = spec_rows(*xyz);
    let k = indices.len();
    if k == 0 {
        return Err(PointCloudError::EmptyCellError);
    }
    let mut pts: Vec<Vec<u32>> = Vec::new();
    let mut t: usize = 0;
    while t < k
        invariant
            k == indices@.len(),
            rows == spec_rows(*xyz),
            forall|i: int| 0 <= i < rows.len() ==> (#[trigger] rows[i]).len() == 3,
            t <= k,
            pts@.len() == t,
            forall|u: int| 0 <= u < t ==> ((#[trigger] indices@[u]) as int) < rows.len(),
            forall|u: int| 0 <= u < t ==> (#[trigger] pts@[u]@) == rows[indices@[u] as int],
        decreases k - t,
    {
        if indices[t] >= xyz.len() {
            return Err(PointCloudError::InvalidParameter);
        }
        let row = copy_u32s(&xyz[indices[t]]);
        pts.push(row);
        t += 1;
    }
    proof {
        assert forall|u: int| 0 <= u < spec_rows(pts).len() implies (#[trigger] spec_rows(
            pts,
        )[u]).len() == 3 by {
            assert(spec_rows(pts)[u] == rows[indices@[u] as int]);
        }
    }
    let flat = flatten_rows(&pts, 3);
    let bytes = u32s_to_le_bytes(&flat);
    proof {
        lemma_le_to_u32s_roundtrip(flat@);
    }
    let mb = tensor_mean_rows(&bytes, k);
    let c = le_bytes_to_u32s(&mb);
    proof {
        lemma_concat_rows_index(spec_rows(pts), 3);
        assert forall|u: int| 0 <= u < k implies #[trigger] spec_le_to_u32s(bytes@).subrange(
            3 * u,
            3 * u + 3,
        ) == spec_gather_rows(rows, indices@)[u] by {
            assert forall|w: int| 0 <= w < 3 implies flat@.subrange(3 * u, 3 * u + 3)[w]
                == rows[indices@[u] as int][w] by {
                assert(flat@[u * 3 + w] == spec_rows(pts)[u][w]);
                assert(3 * u + w == u * 3 + w);
                assert(spec_rows(pts)[u] == rows[indices@[u] as int]);
            }
            assert(flat@.subrange(3 * u, 3 * u + 3) =~= rows[indices@[u] as int]);
        }
        assert(Seq::new(k as nat, |i: int| spec_le_to_u32s(bytes@).subrange(3 * i, 3 * i + 3))
            =~= spec_gather_rows(rows, indices@));
        assert(c@ == mean_bits(spec_gather_rows(rows, indices@)));
    }
    Ok(c)
}

/// Among the candidate indices, the point closest to their mean coordinate,
/// ties broken by the first-encountered candidate.
///
/// An empty candidate list fails with `EmptyCellError`; an index beyond the
/// coordinate buffer fails with `InvalidParameter`.
pub fn find_closest_to_centroid(indices: &Vec<usize>, xyz: &Vec<Vec<u32>>) -> (r: Result<
    usize,
    PointCloudError,
>)
    requires
        forall|i: int| 0 <= i < spec_rows(*xyz).len() ==> (#[trigger] spec_rows(*xyz)[i]).len()
            == 3,
    ensures
        r is Ok <==> indices@.len() > 0 && (forall|t: int|
            0 <= t < indices@.len() ==> ((#[trigger] indices@[t]) as int) < spec_rows(
                *xyz,
            ).len()),
        indices@.len() == 0 ==> r == Err::<usize, _>(PointCloudError::EmptyCellError),
        r is Err && indices@.len() > 0 ==> r == Err::<usize, _>(PointCloudError::InvalidParameter),
        r matches Ok(i) ==> indices@.contains(i) && i == spec_closest_to(
            spec_rows(*xyz),
            indices@,
            mean_bits(spec_gather_rows(spec_rows(*xyz), indices@)),
        ),
{
    if indices.len() == 0 {
        return Err(PointCloudError::EmptyCellError);
    }
    match compute_voxel_centroid(indices, xyz) {
        Err(e) => Err(e),
        Ok(c) => {
            proof {
                lemma_fold_closest_member(
                    spec_dists(spec_rows(*xyz), indices@, c@),
                    indices@,
                    0,
                    indices@[0],
                    F32_MAX_BITS,
                );
                assert(indices@.contains(indices@[0]));
            }
            Ok(closest_index(indices, xyz, &c))
        },
    }
}

/// How a voxel representative is picked: one required capability, choosing
/// one index out of a cell's candidate list given the whole coordinate
/// buffer. Every implementation returns one of the candidates, and refuses
/// an empty list with `EmptyCellError`.
pub trait DownsampleStrategy {
    /// Picks the representative index for one cell.
    fn select_representative(&self, indices: Vec<usize>, xyz: &Vec<Vec<u32>>) -> (r: Result<
        usize,
        PointCloudError,
    >)
        requires
            forall|i: int|
                0 <= i < spec_rows(*xyz).len() ==> (#[trigger] spec_rows(*xyz)[i]).len() == 3,
        ensures
            r matches Ok(i) ==> indices@.contains(i),
            indices@.len() == 0 ==> r == Err::<usize, PointCloudError>(
                PointCloudError::EmptyCellError,
            ),
            indices@.len() > 0 && (forall|t: int|
                0 <= t < indices@.len() ==> ((#[trigger] indices@[t]) as int) < spec_rows(
                    *xyz,
                ).len()) ==> r is Ok,
    ;

    /// The strategy's name.
    fn name(&self) -> (r: &'static str);
}

/// The fast default: deterministically picks the middle element of the
/// cell's candidate list. Cheap, not geometrically meaningful.
pub struct RandomSampleStrategy;

impl DownsampleStrategy for RandomSampleStrategy {
    fn select_representative(&self, indices: Vec<usize>, xyz: &Vec<Vec<u32>>) -> (r: Result<
        usize,
        PointCloudError,
    >)
        ensures
            indices@.len() > 0 ==> r == Ok::<usize, PointCloudError>(
                indices@[indices@.len() as int / 2],
            ),
    {
        if indices.len() == 0 {
            return Err(PointCloudError::EmptyCellError);
        }
        let mid = indices.len() / 2;
        proof {
            assert(indices@.contains(indices@[mid as int]));
        }
        Ok(indices[mid])
    }

    fn name(&self) -> (r: &'static str) {
        "random"
    }
}

/// Picks the candidate closest to the cell's mean coordinate, ties broken by
/// the first-encountered candidate.
pub struct CentroidSampleStrategy;

impl DownsampleStrategy for CentroidSampleStrategy {
    fn select_representative(&self, indices: Vec<usize>, xyz: &Vec<Vec<u32>>) -> (r: Result<
        usize,
        PointCloudError,
    >)
        ensures
            r is Ok <==> indices@.len() > 0 && (forall|t: int|
                0 <= t < indices@.len() ==> ((#[trigger] indices@[t]) as int) < spec_rows(
                    *xyz,
                ).len()),
            r is Err && indices@.len() > 0 ==> r == Err::<usize, PointCloudError>(
                PointCloudError::InvalidParameter,
            ),
            r matches Ok(i) ==> i == spec_closest_to(
                spec_rows(*xyz),
                indices@,
                mean_bits(spec_gather_rows(spec_rows(*xyz), indices@)),
            ),
    {
        find_closest_to_centroid(&indices, xyz)
    }

    fn name(&self) -> (r: &'static str) {
        "centroid"
    }
}

/// The rows picked out of a row buffer by a selection, in selection order.
pub open spec fn spec_gather_rows(coords: Seq<Seq<u32>>, sel: Seq<usize>) -> Seq<Seq<u32>> {
    Seq::new(sel.len(), |t: int| coords[sel[t] as int])
}

/// The samples picked out of a flat buffer by a selection.
pub open spec fn spec_gather_u32(buf: Seq<u32>, sel: Seq<usize>) -> Seq<u32> {
    Seq::new(sel.len(), |t: int| buf[sel[t] as int])
}

/// The bytes picked out of a channel by a selection.
pub open spec fn spec_gather_u8(buf: Seq<u8>, sel: Seq<usize>) -> Seq<u8> {
    Seq::new(sel.len(), |t: int| buf[sel[t] as int])
}

/// Gathers coordinate rows at the selected indices.
fn gather_rows(src: &Vec<Vec<u32>>, sel: &Vec<usize>) -> (r: Vec<Vec<u32>>)
    requires
        forall|t: int|
            0 <= t < sel@.len() ==> ((#[trigger] sel@[t]) as int) < spec_rows(*src).len(),
    ensures
        spec_rows(r) == spec_gather_rows(spec_rows(*src), sel@),
{
    let mut out: Vec<Vec<u32>> = Vec::new();
    let mut t: usize = 0;
    while t < sel.len()
        invariant
            forall|u: int|
                0 <= u < sel@.len() ==> ((#[trigger] sel@[u]) as int) < spec_rows(*src).len(),
            t <= sel@.len(),
            out@.len() == t,
            forall|u: int|
                0 <= u < t ==> (#[trigger] out@[u]@) == spec_rows(*src)[sel@[u] as int],
        decreases sel@.len() - t,
    {
        let row = copy_u32s(&src[sel[t]]);
        out.push(row);
        t += 1;
    }
    proof {
        assert(spec_rows(out) =~= spec_gather_rows(spec_rows(*src), sel@));
    }
    out
}

/// Gathers flat samples at the selected indices.
fn gather_u32(src: &Vec<u32>, sel: &Vec<usize>) -> (r: Vec<u32>)
    requires
        forall|t: int| 0 <= t < sel@.len() ==> ((#[trigger] sel@[t]) as int) < src@.len(),
    ensures
        r@ == spec_gather_u32(src@, sel@),
{
    let mut out: Vec<u32> = Vec::new();
    let mut t: usize = 0;
    while t < sel.len()
        invariant
            forall|u: int| 0 <= u < sel@.len() ==> ((#[trigger] sel@[u]) as int) < src@.len(),
            t <= sel@.len(),
            out@.len() == t,
            forall|u: int| 0 <= u < t ==> (#[trigger] out@[u]) == src@[sel@[u] as int],
        decreases sel@.len() - t,
    {
        out.push(src[sel[t]]);
        t += 1;
    }
    proof {
        assert(out@ =~= spec_gather_u32(src@, sel@));
    }
    out
}

/// Gathers channel bytes at the selected indices.
fn gather_u8(src: &Vec<u8>, sel: &Vec<usize>) -> (r: Vec<u8>)
    requires
        forall|t: int| 0 <= t < sel@.len() ==> ((#[trigger] sel@[t]) as int) < src@.len(),
    ensures
        r@ == spec_gather_u8(src@, sel@),
{
    let mut out: Vec<u8> = Vec::new();
    let mut t: usize = 0;
    while t < sel.len()
        invariant
            forall|u: int| 0 <= u < sel@.len() ==> ((#[trigger] sel@[u]) as int) < src@.len(),
            t <= sel@.len(),
            out@.len() == t,
            forall|u: int| 0 <= u < t ==> (#[trigger] out@[u]) == src@[sel@[u] as int],
        decreases sel@.len() - t,
    {
        out.push(src[sel[t]]);
        t += 1;
    }
    proof {
        assert(out@ =~= spec_gather_u8(src@, sel@));
    }
    out
}

/// A valid selection: one representative out of each first-encounter group.
pub open spec fn spec_selection_ok(coords: Seq<Seq<u32>>, v: u32, sel: Seq<usize>) -> bool {
    &&& sel.len() == spec_groups(coords, v).len()
    &&& forall|g: int|
        0 <= g < sel.len() ==> (#[trigger] spec_groups(coords, v)[g]).contains(sel[g])
}

/// How a downsampled cloud relates to its source: some valid selection
/// `sel`, re-ordered ascending as `ssel`, gathers every synchronised buffer.
pub open spec fn spec_downsampled(
    m: CloudModel,
    v: u32,
    out: CloudModel,
    sel: Seq<usize>,
    ssel: Seq<usize>,
) -> bool {
    &&& spec_selection_ok(m.coords, v, sel)
    &&& ssel.to_multiset() == sel.to_multiset()
    &&& spec_sorted_indices(ssel)
    &&& out.coords == spec_gather_rows(m.coords, ssel)
    &&& (out.intensity is Some) == (m.intensity is Some)
    &&& (m.intensity matches Some(s) ==> out.intensity == Some(spec_gather_u32(s, ssel)))
    &&& (out.rgb is Some) == (m.rgb is Some)
    &&& (m.rgb matches Some(c) ==> out.rgb == Some(
        (spec_gather_u8(c.0, ssel), spec_gather_u8(c.1, ssel), spec_gather_u8(c.2, ssel)),
    ))
    &&& out.attrs.len() == m.attrs.len()
    &&& forall|a: int|
        0 <= a < m.attrs.len() ==> (#[trigger] out.attrs[a]).0 == m.attrs[a].0 && out.attrs[a].1
            == spec_gather_u32(m.attrs[a].1, ssel)
}

/// A cloud is a downsampling of another when some valid selection, sorted
/// ascending, gathers every one of its buffers.
pub open spec fn spec_downsample_rel(m: CloudModel, v: u32, out: CloudModel) -> bool {
    exists|sel: Seq<usize>, ssel: Seq<usize>| #[trigger] spec_downsampled(m, v, out, sel, ssel)
}

impl HighPerformancePointCloud {
    /// Downsamples the cloud on a voxel grid of edge `voxel_size`.
    ///
    /// A voxel size that does not compare strictly greater than zero fails
    /// with `InvalidParameter` whatever the cloud holds. An empty cloud
    /// comes back as an equivalent empty clone. Otherwise the points are
    /// grouped by cell, the strategy picks one representative per cell, and
    /// a brand-new cloud gathers every buffer at the chosen indices in
    /// ascending order; the source is never touched.
    pub fn voxel_downsample<S: DownsampleStrategy>(&self, voxel_size: u32, strategy: S) -> (r:
        Result<Self, PointCloudError>)
        requires
            self.wf(),
        ensures
            spec_le_zero(voxel_size) ==> r == Err::<Self, _>(PointCloudError::InvalidParameter),
            !spec_le_zero(voxel_size) && self@.point_count() == 0 ==> (r matches Ok(c) ==> c@
                == self@) && r is Ok,
            r matches Ok(c) ==> c.wf(),
            self@.point_count() > 0 ==> (r matches Ok(c) ==> spec_downsample_rel(
                self@,
                voxel_size,
                c@,
            )),
            !spec_le_zero(voxel_size) ==> r is Ok,
    {
        if le_zero_bits(voxel_size) {
            return Err(PointCloudError::InvalidParameter);
        }
        let xyz = self.get_xyz();
        let n = xyz.len();
        if n == 0 {
            return Ok(self.duplicate());
        }
        let ghost m = self@;
        let ghost rows = spec_rows(xyz);
        let v = voxel_size;
        let groups = match group_points_by_voxel(&xyz, v) {
            Ok(g) => g,
            Err(e) => {
                proof {
                    assert(false);
                }
                return Err(e);
            },
        };
        let ghost gview = spec_index_groups(groups);
        proof {
            assert(gview == spec_groups(rows, v));
            lemma_groups_ok(rows, v, rows.len() as int);
        }
        let mut selected: Vec<usize> = Vec::new();
        let mut g: usize = 0;
        while g < groups.len()
            invariant
                m == self@,
                self.wf(),
                !spec_le_zero(voxel_size),
                rows == m.coords,
                n == rows.len(),
                n > 0,
                forall|i: int| 0 <= i < rows.len() ==> (#[trigger] rows[i]).len() == 3,
                rows == spec_rows(xyz),
                gview == spec_index_groups(groups),
                gview == spec_groups(rows, v),
                spec_grouping_ok(rows, v, gview, n as int),
                g <= gview.len(),
                selected@.len() == g,
                forall|t: int|
                    0 <= t < g ==> (#[trigger] gview[t]).contains(selected@[t as int]),
            decreases gview.len() - g,
        {
            let idxs = copy_indices(&groups[g]);
            proof {
                assert(gview[g as int].len() > 0);
                assert(idxs@ == gview[g as int]);
                assert forall|t: int| 0 <= t < idxs@.len() implies ((#[trigger] idxs@[t]) as int)
                    < spec_rows(xyz).len() by {
                    assert(((gview[g as int][t]) as int) < n as int);
                }
            }
            match strategy.select_representative(idxs, &xyz) {
                Err(e) => {
                    proof {
                        assert(false);
                    }
                    return Err(e);
                },
                Ok(sidx) => {
                    selected.push(sidx);
                },
            }
            g += 1;
        }
        let ghost sel = selected@;
        let ssel = sort_indices(selected);
        proof {
            broadcast use vstd::seq_lib::group_to_multiset_ensures;

            assert(spec_covered(gview, 0));
            assert(gview.len() > 0);
            assert forall|j: int| 0 <= j < ssel@.len() implies ((#[trigger] ssel@[j]) as int)
                < n by {
                assert(ssel@.contains(ssel@[j]));
                assert(ssel@.to_multiset().count(ssel@[j]) > 0);
                assert(sel.to_multiset().count(ssel@[j]) > 0);
                assert(sel.contains(ssel@[j]));
                let t = choose|t: int| 0 <= t < sel.len() && sel[t] == ssel@[j];
                assert(gview[t].contains(sel[t]));
                let u = choose|u: int| 0 <= u < gview[t].len() && gview[t][u] == sel[t];
                assert((gview[t][u] as int) < n);
            }
        }
        let new_xyz = gather_rows(&xyz, &ssel);
        proof {
            assert(spec_rows(new_xyz).len() == ssel@.len());
            assert(ssel@.len() == gview.len());
            assert forall|i: int| 0 <= i < spec_rows(new_xyz).len() implies (
            #[trigger] spec_rows(new_xyz)[i]).len() == 3 by {
                assert(spec_rows(new_xyz)[i] == rows[ssel@[i] as int]);
            }
            assert(crate::shape::spec_xyz_ok(spec_rows(new_xyz)));
        }
        let mut result = match HighPerformancePointCloud::from_xyz(new_xyz) {
            Ok(c) => c,
            Err(e) => {
                proof {
                    assert(false);
                }
                return Err(e);
            },
        };
        proof {
            assert(result@.point_count() == ssel@.len());
        }
        match self.get_intensity() {
            Some(intens) => {
                let gi = gather_u32(&intens, &ssel);
                match result.set_intensity(gi) {
                    Ok(()) => (),
                    Err(e) => {
                        proof {
                            assert(false);
                        }
                        return Err(e);
                    },
                }
            },
            None => (),
        }
        match self.get_rgb() {
            Some(ch) => {
                let gr = gather_u8(&ch.0, &ssel);
                let gg = gather_u8(&ch.1, &ssel);
                let gb = gather_u8(&ch.2, &ssel);
                match result.set_rgb(gr, gg, gb) {
                    Ok(()) => (),
                    Err(e) => {
                        proof {
                            assert(false);
                        }
                        return Err(e);
                    },
                }
            },
            None => (),
        }
        let names = self.attribute_names();
        let mut a: usize = 0;
        while a < names.len()
            invariant
                rows == m.coords,
                n == rows.len(),
                self.wf(),
                m == self@,
                names@.len() == m.attrs.len(),
                forall|t: int| 0 <= t < names@.len() ==> (#[trigger] names@[t])@ == m.attrs[t].0,
                forall|j: int| 0 <= j < ssel@.len() ==> ((#[trigger] ssel@[j]) as int) < n,
                a <= names@.len(),
                result.wf(),
                result@.point_count() == ssel@.len(),
                result@.coords == spec_gather_rows(m.coords, ssel@),
                (result@.intensity is Some) == (m.intensity is Some),
                (m.intensity matches Some(s) ==> result@.intensity == Some(
                    spec_gather_u32(s, ssel@),
                )),
                (result@.rgb is Some) == (m.rgb is Some),
                (m.rgb matches Some(c) ==> result@.rgb == Some(
                    (
                        spec_gather_u8(c.0, ssel@),
                        spec_gather_u8(c.1, ssel@),
                        spec_gather_u8(c.2, ssel@),
                    ),
                )),
                result@.attrs.len() == a,
                forall|t: int|
                    0 <= t < a ==> (#[trigger] result@.attrs[t]).0 == m.attrs[t].0
                        && result@.attrs[t].1 == spec_gather_u32(m.attrs[t].1, ssel@),
            decreases names@.len() - a,
        {
            let name = names[a].clone();
            let data = match self.get_attribute(&name) {
                Some(d) => d,
                None => {
                    proof {
                        crate::cloud::lemma_attr_index(m, name@, a as int);
                        assert(false);
                    }
                    return Err(PointCloudError::NotFound);
                },
            };
            proof {
                crate::cloud::lemma_attr_index(m, name@, a as int);
                assert(data@ == m.attrs[a as int].1);
                assert(data@.len() == n);
            }
            let gd = gather_u32(&data, &ssel);
            let ghost prer = result@;
            match result.set_attribute(name, gd) {
                Ok(()) => (),
                Err(e) => {
                    proof {
                        assert(false);
                    }
                    return Err(e);
                },
            }
            proof {
                assert forall|t: int| 0 <= t < prer.attrs.len() implies !(prer.attrs[t].0
                    == m.attrs[a as int].0) by {
                    assert(prer.attrs[t].0 == m.attrs[t].0);
                    assert(m.attrs[t].0 != m.attrs[a as int].0);
                }
                assert(!prer.has_attr(m.attrs[a as int].0));
                assert(result@.attrs == prer.attrs.push(
                    (m.attrs[a as int].0, spec_gather_u32(m.attrs[a as int].1, ssel@)),
                ));
            }
            a += 1;
        }
        proof {
            assert(spec_selection_ok(m.coords, v, sel));
            assert(spec_downsampled(m, v, result@, sel, ssel@));
            assert(spec_downsampled(self@, voxel_size, result@, sel, ssel@));
            assert(spec_downsample_rel(self@, voxel_size, result@));
        }
        Ok(result)
    }
}

/// Of two distinct points whose per-axis voxel cells coincide, at most one
/// survives a downsampling: the gathered representative list never holds
/// both indices.
pub proof fn lemma_same_cell_at_most_one(
    m: CloudModel,
    v: u32,
    out: CloudModel,
    sel: Seq<usize>,
    ssel: Seq<usize>,
    i: usize,
    j: usize,
)
    requires
        crate::cloud::model_wf(m),
        m.coords.len() <= usize::MAX,
        spec_downsampled(m, v, out, sel, ssel),
        (i as int) < m.coords.len(),
        (j as int) < m.coords.len(),
        i != j,
        spec_cell(m.coords[i as int], v) == spec_cell(m.coords[j as int], v),
    ensures
        !(ssel.contains(i) && ssel.contains(j)),
{
    broadcast use vstd::seq_lib::group_to_multiset_ensures;

    let groups = spec_groups(m.coords, v);
    lemma_groups_ok(m.coords, v, m.coords.len() as int);
    if ssel.contains(i) && ssel.contains(j) {
        assert(ssel.to_multiset().count(i) > 0);
        assert(sel.to_multiset().count(i) > 0);
        assert(sel.contains(i));
        assert(ssel.to_multiset().count(j) > 0);
        assert(sel.to_multiset().count(j) > 0);
        assert(sel.contains(j));
        let gi = choose|g: int| 0 <= g < sel.len() && sel[g] == i;
        let gj = choose|g: int| 0 <= g < sel.len() && sel[g] == j;
        assert(groups[gi].contains(sel[gi]));
        assert(groups[gj].contains(sel[gj]));
        let ti = choose|t: int| 0 <= t < groups[gi].len() && groups[gi][t] == i;
        let tj = choose|t: int| 0 <= t < groups[gj].len() && groups[gj][t] == j;
        assert(spec_cell(m.coords[(groups[gi][ti]) as int], v) == spec_group_cell(
            m.coords,
            v,
            groups[gi],
        ));
        assert(spec_cell(m.coords[(groups[gj][tj]) as int], v) == spec_group_cell(
            m.coords,
            v,
            groups[gj],
        ));
        if gi < gj {
            assert(spec_group_cell(m.coords, v, groups[gi]) != spec_group_cell(
                m.coords,
                v,
                groups[gj],
            ));
        } else {
            if gj < gi {
                assert(spec_group_cell(m.coords, v, groups[gj]) != spec_group_cell(
                    m.coords,
                    v,
                    groups[gi],
                ));
            }
        }
        assert(gi == gj);
        assert(i == j);
    }
}

/// When every point sits in its own cell, the first-encounter grouping is
/// one singleton group per point, in point order.
pub proof fn lemma_groups_singleton(coords: Seq<Seq<u32>>, v: u32, i: int)
    requires
        0 <= i <= coords.len(),
        coords.len() <= usize::MAX,
        forall|a: int, b: int|
            0 <= a < b < coords.len() ==> spec_cell(#[trigger] coords[a], v) != spec_cell(
                #[trigger] coords[b],
                v,
            ),
    ensures
        spec_groups_upto(coords, v, i) == Seq::new(i as nat, |g: int| seq![g as usize]),
    decreases i,
{
    if i <= 0 {
        assert(spec_groups_upto(coords, v, i) =~= Seq::new(i as nat, |g: int| seq![g as usize]));
    } else {
        lemma_groups_singleton(coords, v, i - 1);
        let prev = spec_groups_upto(coords, v, i - 1);
        let c = spec_cell(coords[i - 1], v);
        assert forall|g: int| 0 <= g < prev.len() implies spec_group_cell(
            coords,
            v,
            #[trigger] prev[g],
        ) != c by {
            assert(prev[g] == seq![g as usize]);
            assert(prev[g][0] == g as usize);
            assert((g as usize) as int == g);
            assert(spec_group_cell(coords, v, prev[g]) == spec_cell(coords[g], v));
            assert(spec_cell(coords[g], v) != spec_cell(coords[i - 1], v));
        }
        assert(spec_groups_upto(coords, v, i) == prev.push(seq![(i - 1) as usize]));
        assert(spec_groups_upto(coords, v, i) =~= Seq::new(i as nat, |g: int| seq![g as usize]));
    }
}

/// When every point sits in its own cell, downsampling is a no-op: the
/// sorted representative list is the identity and every buffer of the
/// output equals the source's.
pub proof fn lemma_distinct_cells_identity(
    m: CloudModel,
    v: u32,
    out: CloudModel,
    sel: Seq<usize>,
    ssel: Seq<usize>,
)
    requires
        crate::cloud::model_wf(m),
        m.coords.len() <= usize::MAX,
        spec_downsampled(m, v, out, sel, ssel),
        forall|a: int, b: int|
            0 <= a < b < m.coords.len() ==> spec_cell(#[trigger] m.coords[a], v) != spec_cell(
                #[trigger] m.coords[b],
                v,
            ),
    ensures
        ssel == Seq::new(m.coords.len(), |t: int| t as usize),
        out.coords == m.coords,
        out.intensity == m.intensity,
        out.rgb == m.rgb,
        out.attrs == m.attrs,
{
    let n = m.coords.len() as int;
    lemma_groups_singleton(m.coords, v, n);
    let groups = spec_groups(m.coords, v);
    let idseq = Seq::new(m.coords.len(), |t: int| t as usize);
    assert(groups == Seq::new(n as nat, |g: int| seq![g as usize]));
    assert(sel.len() == n);
    assert forall|g: int| 0 <= g < n implies sel[g] == (g as usize) by {
        assert(groups[g].contains(sel[g]));
        let t = choose|t: int| 0 <= t < groups[g].len() && groups[g][t] == sel[g];
        assert(groups[g] == seq![g as usize]);
        assert(t == 0);
        assert(groups[g][0] == g as usize);
    }
    assert(sel =~= idseq);
    assert(total_ordering(spec_index_leq())) by {
        let leq = spec_index_leq();
        assert forall|x: usize| #[trigger] leq(x, x) by {}
        assert forall|x: usize, y: usize| #[trigger] leq(x, y) && #[trigger] leq(y, x) implies x
            == y by {}
        assert forall|x: usize, y: usize, z: usize| #[trigger] leq(x, y) && #[trigger] leq(
            y,
            z,
        ) implies leq(x, z) by {}
        assert forall|x: usize, y: usize| #[trigger] leq(x, y) || #[trigger] leq(y, x) by {}
    }
    assert(sorted_by(sel, spec_index_leq())) by {
        assert forall|a: int, b: int| 0 <= a < b < sel.len() implies spec_index_leq()(
            sel[a],
            sel[b],
        ) by {
            assert(sel[a] == a as usize);
            assert(sel[b] == b as usize);
        }
    }
    lemma_sorted_unique(ssel, sel, spec_index_leq());
    assert(ssel == sel);
    assert(out.coords =~= m.coords) by {
        assert forall|t: int| 0 <= t < n implies out.coords[t] == m.coords[t] by {
            assert(out.coords[t] == m.coords[ssel[t] as int]);
            assert(ssel[t] == t as usize);
        }
    }
    assert(out.intensity == m.intensity) by {
        match m.intensity {
            Some(s) => {
                assert(out.intensity == Some(spec_gather_u32(s, ssel)));
                assert(spec_gather_u32(s, ssel) =~= s);
            },
            None => {},
        }
    }
    assert(out.rgb == m.rgb) by {
        match m.rgb {
            Some(ch) => {
                assert(out.rgb == Some(
                    (
                        spec_gather_u8(ch.0, ssel),
                        spec_gather_u8(ch.1, ssel),
                        spec_gather_u8(ch.2, ssel),
                    ),
                ));
                assert(spec_gather_u8(ch.0, ssel) =~= ch.0);
                assert(spec_gather_u8(ch.1, ssel) =~= ch.1);
                assert(spec_gather_u8(ch.2, ssel) =~= ch.2);
            },
            None => {},
        }
    }
    assert(out.attrs =~= m.attrs) by {
        assert forall|a: int| 0 <= a < m.attrs.len() implies out.attrs[a] == m.attrs[a] by {
            assert(out.attrs[a].1 == spec_gather_u32(m.attrs[a].1, ssel));
            assert(spec_gather_u32(m.attrs[a].1, ssel) =~= m.attrs[a].1);
            assert(out.attrs[a].0 == m.attrs[a].0);
        }
    }
}

} // verus!
