//! The numeric backend boundary: every floating-point kernel of the crate
//! runs here, on the CPU tensor backend, behind trusted wrappers.
//!
//! Buffers cross this boundary as little-endian bytes (see [`crate::buffers`])
//! so that nothing on the verified side ever holds a floating-point value.
//! The backend reads and writes buffers in the platform's native byte order;
//! this crate targets the little-endian platforms the backend supports, where
//! the two orders coincide.
//! Results that are a pure function of the arguments — an elementwise
//! division, a squared distance, a voxel cell index — are given names
//! ([`div_bits`], [`sq_dist_bits`], [`cell_axis`]) that the callers' own
//! contracts are proved against. Results whose rounding depends on the
//! backend's accumulation order — a matrix product, a mean — are promised by
//! shape only.

use vstd::prelude::*;

use burn_ndarray::{NdArray, NdArrayDevice};
use burn_tensor::{DType, Tensor, TensorData};

verus! {

/// The single-precision quotient of two samples, given and returned as bit
/// patterns. Division is exactly rounded, so the result is a function of the
/// two operands alone. On operands whose quotient is NaN the exact payload
/// bits are the platform's; only the value class is pinned by the standard.
pub uninterp spec fn div_bits(a: u32, b: u32) -> u32;

/// The single-precision squared Euclidean distance between a point and a
/// reference triple, both given as bit-pattern triples: the three
/// differences are squared and summed in axis order. On inputs whose result
/// is NaN the exact payload bits are the platform's.
pub uninterp spec fn sq_dist_bits(p: Seq<u32>, c: Seq<u32>) -> u32;

/// The single-precision quotient of two samples, rounded down, as a bit
/// pattern. Division and floor are exactly rounded, so the result is a
/// function of the two operands alone; on operands whose quotient is NaN
/// the exact payload bits are the platform's.
pub uninterp spec fn floor_div_bits(x: u32, v: u32) -> u32;

/// The integer a single-precision bit pattern lands on: a NaN is sent to
/// zero, the value is clamped into the range the backend's integer cast
/// accepts, then truncated toward zero.
pub uninterp spec fn int_sat_bits(b: u32) -> i64;

/// The voxel cell index of one coordinate for one voxel size, both given as
/// bit patterns: the single-precision quotient, rounded down, then taken to
/// an integer, with a NaN quotient sent to cell zero and the value clamped
/// to the integer-representable range, so every pair of bit patterns has a
/// cell.
pub open spec fn cell_axis(x: u32, v: u32) -> i64 {
    int_sat_bits(floor_div_bits(x, v))
}

/// Bit pattern of the lowest single-precision value the backend's integer
/// cast accepts.
pub const CELL_CLAMP_LO_BITS: u32 = 0xdf00_0000;

/// Bit pattern of the highest single-precision value the backend's integer
/// cast accepts.
pub const CELL_CLAMP_HI_BITS: u32 = 0x5eff_ffff;

/// The arithmetic mean of a block of coordinate rows, as one bit-pattern
/// triple. The backend accumulates each column sequentially in row order,
/// so the mean is a function of the rows alone.
pub uninterp spec fn mean_bits(rows: Seq<Seq<u32>>) -> Seq<u32>;

/// Relies on burn's `Tensor::matmul` and `Tensor::transpose` on the CPU
/// backend: multiplies an `n` by 3 coordinate block by the transpose of a 3
/// by 3 matrix, handing back one block of the same shape. The products'
/// rounding is the backend's, so only the shape is promised.
#[verifier::external_body]
pub(crate) fn tensor_linear_map(xyz: &Vec<u8>, n: usize, mat: &Vec<u8>) -> (r: Vec<u8>)
    requires
        n >= 1,
        xyz@.len() == 12 * n,
        mat@.len() == 36,
    ensures
        r@.len() == 12 * n,
{
    let dev = NdArrayDevice::Cpu;
    let p = Tensor::<NdArray, 2>::from_data(
        TensorData::from_bytes_vec(xyz.clone(), [n, 3], DType::F32),
        &dev,
    );
    let m = Tensor::<NdArray, 2>::from_data(
        TensorData::from_bytes_vec(mat.clone(), [3, 3], DType::F32),
        &dev,
    );
    p.matmul(m.transpose()).into_data().as_bytes().to_vec()
}

/// Relies on burn's `Tensor::matmul` and `Tensor::transpose` on the CPU
/// backend: multiplies an `n` by 4 homogeneous block by the transpose of a 4
/// by 4 matrix, handing back one block of the same shape. Only the shape is
/// promised.
#[verifier::external_body]
pub(crate) fn tensor_homogeneous_map(h: &Vec<u8>, n: usize, mat: &Vec<u8>) -> (r: Vec<u8>)
    requires
        n >= 1,
        h@.len() == 16 * n,
        mat@.len() == 64,
    ensures
        r@.len() == 16 * n,
{
    let dev = NdArrayDevice::Cpu;
    let p = Tensor::<NdArray, 2>::from_data(
        TensorData::from_bytes_vec(h.clone(), [n, 4], DType::F32),
        &dev,
    );
    let m = Tensor::<NdArray, 2>::from_data(
        TensorData::from_bytes_vec(mat.clone(), [4, 4], DType::F32),
        &dev,
    );
    p.matmul(m.transpose()).into_data().as_bytes().to_vec()
}

/// Relies on burn's `Tensor::add` and `Tensor::expand` on the CPU backend:
/// adds one translation triple to every row of an `n` by 3 coordinate
/// block. Addition is exactly rounded, but the block usually arrives from a
/// matrix product whose values are already unpinned, so only the shape is
/// promised.
#[verifier::external_body]
pub(crate) fn tensor_add_rows(xyz: &Vec<u8>, n: usize, t: &Vec<u8>) -> (r: Vec<u8>)
    requires
        n >= 1,
        xyz@.len() == 12 * n,
        t@.len() == 12,
    ensures
        r@.len() == 12 * n,
{
    let dev = NdArrayDevice::Cpu;
    let p = Tensor::<NdArray, 2>::from_data(
        TensorData::from_bytes_vec(xyz.clone(), [n, 3], DType::F32),
        &dev,
    );
    let tr = Tensor::<NdArray, 2>::from_data(
        TensorData::from_bytes_vec(t.clone(), [1, 3], DType::F32),
        &dev,
    );
    p.add(tr.expand([n, 3])).into_data().as_bytes().to_vec()
}

/// Relies on burn's `Tensor::div` on the CPU backend: divides two equally
/// long flat sample buffers elementwise. Division is exactly rounded, so
/// each result sample is [`div_bits`] of the matching operands.
#[verifier::external_body]
pub(crate) fn tensor_div(a: &Vec<u8>, b: &Vec<u8>) -> (r: Vec<u8>)
    requires
        a@.len() == b@.len(),
        a@.len() % 4 == 0,
        a@.len() >= 4,
    ensures
        r@.len() == a@.len(),
        forall|j: int|
            0 <= j < a@.len() / 4 ==> #[trigger] crate::buffers::spec_le_to_u32s(r@)[j]
                == div_bits(
                crate::buffers::spec_le_to_u32s(a@)[j],
                crate::buffers::spec_le_to_u32s(b@)[j],
            ),
{
    let dev = NdArrayDevice::Cpu;
    let k = a.len() / 4;
    let x = Tensor::<NdArray, 1>::from_data(
        TensorData::from_bytes_vec(a.clone(), [k], DType::F32),
        &dev,
    );
    let y = Tensor::<NdArray, 1>::from_data(
        TensorData::from_bytes_vec(b.clone(), [k], DType::F32),
        &dev,
    );
    x.div(y).into_data().as_bytes().to_vec()
}

/// Relies on burn's `Tensor::mean_dim` on the CPU backend: the arithmetic
/// mean of `k` coordinate rows, one triple back. The backend computes each
/// column's sum by a sequential scan in row order, so the result is
/// [`mean_bits`] of the rows.
#[verifier::external_body]
pub(crate) fn tensor_mean_rows(pts: &Vec<u8>, k: usize) -> (r: Vec<u8>)
    requires
        k >= 1,
        pts@.len() == 12 * k,
    ensures
        r@.len() == 12,
        crate::buffers::spec_le_to_u32s(r@) == mean_bits(
            Seq::new(
                k as nat,
                |i: int| crate::buffers::spec_le_to_u32s(pts@).subrange(3 * i, 3 * i + 3),
            ),
        ),
{
    let dev = NdArrayDevice::Cpu;
    let p = Tensor::<NdArray, 2>::from_data(
        TensorData::from_bytes_vec(pts.clone(), [k, 3], DType::F32),
        &dev,
    );
    p.mean_dim(0).into_data().as_bytes().to_vec()
}

/// Relies on burn's `Tensor::sub`, `Tensor::mul`, `Tensor::sum_dim` and
/// `Tensor::expand` on the CPU backend: for each of `k` coordinate rows, the
/// squared Euclidean distance to one reference triple, differences squared
/// and summed in axis order. Each row's result is a function of that row and
/// the reference alone: sample `i` is [`sq_dist_bits`] of row `i` and the
/// reference.
#[verifier::external_body]
pub(crate) fn tensor_sq_dists(pts: &Vec<u8>, k: usize, c: &Vec<u8>) -> (r: Vec<u8>)
    requires
        k >= 1,
        pts@.len() == 12 * k,
        c@.len() == 12,
    ensures
        r@.len() == 4 * k,
        forall|i: int|
            0 <= i < k ==> #[trigger] crate::buffers::spec_le_to_u32s(r@)[i] == sq_dist_bits(
                crate::buffers::spec_le_to_u32s(pts@).subrange(3 * i, 3 * i + 3),
                crate::buffers::spec_le_to_u32s(c@),
            ),
{
    let dev = NdArrayDevice::Cpu;
    let p = Tensor::<NdArray, 2>::from_data(
        TensorData::from_bytes_vec(pts.clone(), [k, 3], DType::F32),
        &dev,
    );
    let cr = Tensor::<NdArray, 2>::from_data(
        TensorData::from_bytes_vec(c.clone(), [1, 3], DType::F32),
        &dev,
    );
    let d = p.sub(cr.expand([k, 3]));
    d.clone().mul(d).sum_dim(1).into_data().as_bytes().to_vec()
}

/// Relies on burn's `Tensor::div`, `Tensor::floor` and `Tensor::expand` on
/// the CPU backend: every coordinate divided by the voxel size of its axis
/// and rounded down. Both operations are exactly rounded, so entry
/// `3 * i + k` is [`floor_div_bits`] of coordinate `k` of row `i` and axis
/// `k`'s voxel size.
#[verifier::external_body]
pub(crate) fn tensor_floor_div(xyz: &Vec<u8>, n: usize, v: &Vec<u8>) -> (r: Vec<u8>)
    requires
        n >= 1,
        xyz@.len() == 12 * n,
        v@.len() == 12,
    ensures
        r@.len() == 12 * n,
        forall|j: int|
            0 <= j < 3 * n ==> #[trigger] crate::buffers::spec_le_to_u32s(r@)[j]
                == floor_div_bits(
                crate::buffers::spec_le_to_u32s(xyz@)[j],
                crate::buffers::spec_le_to_u32s(v@)[j % 3],
            ),
{
    let dev = NdArrayDevice::Cpu;
    let p = Tensor::<NdArray, 2>::from_data(
        TensorData::from_bytes_vec(xyz.clone(), [n, 3], DType::F32), &dev);
    let vs = Tensor::<NdArray, 2>::from_data(
        TensorData::from_bytes_vec(v.clone(), [1, 3], DType::F32), &dev);
    p.div(vs.expand([n, 3])).floor().into_data().as_bytes().to_vec()
}

/// Relies on burn's `Tensor::mask_where`, `Tensor::max_pair`,
/// `Tensor::min_pair`, `Tensor::int` and `Tensor::expand` on the CPU
/// backend: each sample has a NaN replaced by zero and is clamped between
/// the given bounds, then the block is cast to integers. The backend's
/// float-to-integer cast refuses NaN and out-of-range values, which the mask
/// and clamp rule out, so every sample lands on [`int_sat_bits`] of its bits.
#[verifier::external_body]
pub(crate) fn tensor_saturating_ints(q: &Vec<u8>, n: usize, lo: &Vec<u8>, hi: &Vec<u8>) -> (r:
    Vec<i64>)
    requires
        n >= 1,
        q@.len() == 12 * n,
        crate::buffers::spec_le_to_u32s(lo@) == seq![
            CELL_CLAMP_LO_BITS,
            CELL_CLAMP_LO_BITS,
            CELL_CLAMP_LO_BITS,
        ],
        lo@.len() == 12,
        crate::buffers::spec_le_to_u32s(hi@) == seq![
            CELL_CLAMP_HI_BITS,
            CELL_CLAMP_HI_BITS,
            CELL_CLAMP_HI_BITS,
        ],
        hi@.len() == 12,
    ensures
        r@.len() == 3 * n,
        forall|j: int|
            0 <= j < 3 * n ==> #[trigger] r@[j] == int_sat_bits(
                crate::buffers::spec_le_to_u32s(q@)[j],
            ),
{
    let dev = NdArrayDevice::Cpu;
    let t = Tensor::<NdArray, 2>::from_data(
        TensorData::from_bytes_vec(q.clone(), [n, 3], DType::F32), &dev);
    let l = Tensor::<NdArray, 2>::from_data(
        TensorData::from_bytes_vec(lo.clone(), [1, 3], DType::F32), &dev);
    let h = Tensor::<NdArray, 2>::from_data(
        TensorData::from_bytes_vec(hi.clone(), [1, 3], DType::F32), &dev);
    let t = t.clone().mask_where(t.clone().is_nan(), t.zeros_like());
    let t = t.max_pair(l.expand([n, 3])).min_pair(h.expand([n, 3]));
    t.int().into_data().to_vec().unwrap()
}

} // verus!
