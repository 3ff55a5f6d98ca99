//! Little-endian byte packing for the flat buffers handed to the numeric
//! backend.
//!
//! The backend consumes and produces contiguous byte buffers; each 32-bit
//! sample occupies four bytes, least significant first. Packing and unpacking
//! are verified exactly, so the only trust left at the boundary is in what
//! the backend computes, never in how buffers are laid out.

use vstd::prelude::*;

verus! {

/// The four little-endian bytes of one 32-bit sample.
pub open spec fn spec_le4(x: u32) -> Seq<u8> {
    seq![
        (x & 0xff) as u8,
        ((x >> 8) & 0xff) as u8,
        ((x >> 16) & 0xff) as u8,
        ((x >> 24) & 0xff) as u8,
    ]
}

/// The 32-bit sample encoded by four little-endian bytes.
pub open spec fn spec_from_le4(b0: u8, b1: u8, b2: u8, b3: u8) -> u32 {
    (b0 as u32) | ((b1 as u32) << 8) | ((b2 as u32) << 16) | ((b3 as u32) << 24)
}

/// All samples of a sequence, packed back to back.
pub open spec fn spec_u32s_to_le(vals: Seq<u32>) -> Seq<u8>
    decreases vals.len(),
{
    if vals.len() == 0 {
        Seq::empty()
    } else {
        spec_u32s_to_le(vals.drop_last()) + spec_le4(vals.last())
    }
}

/// All samples encoded in a packed byte sequence.
pub open spec fn spec_le_to_u32s(b: Seq<u8>) -> Seq<u32> {
    Seq::new(b.len() / 4, |j: int| spec_from_le4(b[4 * j], b[4 * j + 1], b[4 * j + 2], b[4 * j + 3]))
}

/// Decoding the four bytes of a sample gives the sample back.
pub proof fn lemma_from_le4_le4(x: u32)
    ensures
        spec_from_le4(
            (x & 0xff) as u8,
            ((x >> 8) & 0xff) as u8,
            ((x >> 16) & 0xff) as u8,
            ((x >> 24) & 0xff) as u8,
        ) == x,
{
    assert(((x & 0xff) as u8 as u32) | (((x >> 8) & 0xff) as u8 as u32) << 8 | (((x >> 16)
        & 0xff) as u8 as u32) << 16 | (((x >> 24) & 0xff) as u8 as u32) << 24 == x) by (bit_vector);
}

/// Packed samples occupy four bytes each, in order.
pub proof fn lemma_u32s_to_le_index(vals: Seq<u32>)
    ensures
        spec_u32s_to_le(vals).len() == 4 * vals.len(),
        forall|j: int, k: int|
            0 <= j < vals.len() && 0 <= k < 4 ==> #[trigger] spec_u32s_to_le(vals)[4 * j + k]
                == spec_le4(vals[j])[k],
    decreases vals.len(),
{
    if vals.len() > 0 {
        lemma_u32s_to_le_index(vals.drop_last());
        assert forall|j: int, k: int| 0 <= j < vals.len() && 0 <= k < 4 implies
            #[trigger] spec_u32s_to_le(vals)[4 * j + k] == spec_le4(vals[j])[k] by {
            if j < vals.len() - 1 {
                assert(vals.drop_last()[j] == vals[j]);
                assert(spec_u32s_to_le(vals)[4 * j + k] == spec_u32s_to_le(vals.drop_last())[4 * j
                    + k]);
            } else {
                assert(vals[j] == vals.last());
            }
        }
    }
}

/// Unpacking a packed sequence gives the original samples back.
pub proof fn lemma_le_to_u32s_roundtrip(vals: Seq<u32>)
    ensures
        spec_le_to_u32s(spec_u32s_to_le(vals)) == vals,
{
    lemma_u32s_to_le_index(vals);
    let b = spec_u32s_to_le(vals);
    assert forall|j: int| 0 <= j < vals.len() implies spec_le_to_u32s(b)[j] == vals[j] by {
        assert(b[4 * j + 0] == spec_le4(vals[j])[0]);
        assert(b[4 * j + 1] == spec_le4(vals[j])[1]);
        assert(b[4 * j + 2] == spec_le4(vals[j])[2]);
        assert(b[4 * j + 3] == spec_le4(vals[j])[3]);
        lemma_from_le4_le4(vals[j]);
    }
    assert(spec_le_to_u32s(spec_u32s_to_le(vals)) =~= vals);
}

/// Appends the four little-endian bytes of one sample.
pub fn push_le4(out: &mut Vec<u8>, x: u32)
    ensures
        final(out)@ == old(out)@ + spec_le4(x),
{
    out.push((x & 0xff) as u8);
    out.push(((x >> 8) & 0xff) as u8);
    out.push(((x >> 16) & 0xff) as u8);
    out.push(((x >> 24) & 0xff) as u8);
    proof {
        assert(final(out)@ =~= old(out)@ + spec_le4(x));
    }
}

/// Packs a sample buffer into backend bytes.
pub fn u32s_to_le_bytes(vals: &Vec<u32>) -> (r: Vec<u8>)
    ensures
        r@ == spec_u32s_to_le(vals@),
        r@.len() == 4 * vals@.len(),
{
    let mut out: Vec<u8> = Vec::new();
    let mut i: usize = 0;
    while i < vals.len()
        invariant
            i <= vals@.len(),
            out@ == spec_u32s_to_le(vals@.take(i as int)),
        decreases vals@.len() - i,
    {
        proof {
            assert(vals@.take(i + 1).drop_last() =~= vals@.take(i as int));
            assert(vals@.take(i + 1).last() == vals@[i as int]);
        }
        push_le4(&mut out, vals[i]);
        i += 1;
    }
    proof {
        assert(vals@.take(vals@.len() as int) =~= vals@);
        lemma_u32s_to_le_index(vals@);
    }
    out
}

/// Unpacks backend bytes into a sample buffer.
pub fn le_bytes_to_u32s(b: &Vec<u8>) -> (r: Vec<u32>)
    requires
        b@.len() % 4 == 0,
    ensures
        r@ == spec_le_to_u32s(b@),
        r@.len() * 4 == b@.len(),
{
    let total = b.len() / 4;
    proof {
        vstd::arithmetic::div_mod::lemma_fundamental_div_mod(b@.len() as int, 4);
    }
    let mut out: Vec<u32> = Vec::new();
    let mut j: usize = 0;
    while j < total
        invariant
            total == b@.len() / 4,
            4 * total as int == b@.len(),
            b@.len() <= usize::MAX,
            j <= total,
            out@.len() == j,
            forall|t: int| 0 <= t < j ==> out@[t] == spec_le_to_u32s(b@)[t],
        decreases total - j,
    {
        proof {
            assert(4 * j as int + 3 < b@.len());
        }
        let b0 = b[4 * j];
        let b1 = b[4 * j + 1];
        let b2 = b[4 * j + 2];
        let b3 = b[4 * j + 3];
        let v = (b0 as u32) | ((b1 as u32) << 8) | ((b2 as u32) << 16) | ((b3 as u32) << 24);
        out.push(v);
        j += 1;
    }
    proof {
        assert(out@ =~= spec_le_to_u32s(b@));
    }
    out
}

/// Copies a sample buffer.
pub fn copy_u32s(src: &Vec<u32>) -> (r: Vec<u32>)
    ensures
        r@ == src@,
{
    let mut out: Vec<u32> = Vec::new();
    let mut i: usize = 0;
    while i < src.len()
        invariant
            i <= src@.len(),
            out@ == src@.take(i as int),
        decreases src@.len() - i,
    {
        out.push(src[i]);
        proof {
            assert(out@ =~= src@.take(i + 1));
        }
        i += 1;
    }
    proof {
        assert(src@.take(src@.len() as int) =~= src@);
    }
    out
}

/// Copies a byte buffer.
pub fn copy_u8s(src: &Vec<u8>) -> (r: Vec<u8>)
    ensures
        r@ == src@,
{
    let mut out: Vec<u8> = Vec::new();
    let mut i: usize = 0;
    while i < src.len()
        invariant
            i <= src@.len(),
            out@ == src@.take(i as int),
        decreases src@.len() - i,
    {
        out.push(src[i]);
        proof {
            assert(out@ =~= src@.take(i + 1));
        }
        i += 1;
    }
    proof {
        assert(src@.take(src@.len() as int) =~= src@);
    }
    out
}

/// The mathematical value of a row-major buffer: one sequence per row.
pub open spec fn spec_rows(v: Vec<Vec<u32>>) -> Seq<Seq<u32>> {
    Seq::new(v@.len(), |i: int| v@[i]@)
}

/// Copies a row-major buffer.
pub fn copy_rows(src: &Vec<Vec<u32>>) -> (r: Vec<Vec<u32>>)
    ensures
        spec_rows(r) == spec_rows(*src),
{
    let mut out: Vec<Vec<u32>> = Vec::new();
    let mut i: usize = 0;
    while i < src.len()
        invariant
            i <= src@.len(),
            out@.len() == i,
            forall|t: int| 0 <= t < i ==> (#[trigger] out@[t]@) == src@[t]@,
        decreases src@.len() - i,
    {
        let row = copy_u32s(&src[i]);
        out.push(row);
        i += 1;
    }
    proof {
        assert(spec_rows(out) =~= spec_rows(*src));
    }
    out
}

/// All rows of a row-major buffer, laid end to end.
pub open spec fn spec_concat_rows(rows: Seq<Seq<u32>>) -> Seq<u32>
    decreases rows.len(),
{
    if rows.len() == 0 {
        Seq::empty()
    } else {
        spec_concat_rows(rows.drop_last()) + rows.last()
    }
}

/// With fixed-width rows, concatenation is row-major indexing.
pub proof fn lemma_concat_rows_index(rows: Seq<Seq<u32>>, w: int)
    requires
        forall|i: int| 0 <= i < rows.len() ==> (#[trigger] rows[i]).len() == w,
    ensures
        spec_concat_rows(rows).len() == rows.len() * w,
        forall|i: int, k: int|
            0 <= i < rows.len() && 0 <= k < w ==> #[trigger] spec_concat_rows(rows)[i * w + k]
                == rows[i][k],
    decreases rows.len(),
{
    let n = rows.len() as int;
    if n > 0 {
        let rl = rows.drop_last();
        assert forall|i: int| 0 <= i < rl.len() implies (#[trigger] rl[i]).len() == w by {
            assert(rl[i] == rows[i]);
        }
        lemma_concat_rows_index(rl, w);
        assert(rows.last() == rows[n - 1]);
        assert(spec_concat_rows(rows).len() == (n - 1) * w + w);
        assert((n - 1) * w + w == n * w) by (nonlinear_arith);
        assert forall|i: int, k: int| 0 <= i < n && 0 <= k < w implies
            #[trigger] spec_concat_rows(rows)[i * w + k] == rows[i][k] by {
            if i < n - 1 {
                assert(i * w + k < (n - 1) * w) by (nonlinear_arith)
                    requires 0 <= k < w, i + 1 <= n - 1;
                assert(spec_concat_rows(rows)[i * w + k] == spec_concat_rows(rl)[i * w + k]);
                assert(spec_concat_rows(rl)[i * w + k] == rl[i][k]);
                assert(rl[i] == rows[i]);
            } else {
                assert(i == n - 1);
                assert(i * w == (n - 1) * w);
                assert(spec_concat_rows(rows)[i * w + k] == rows.last()[i * w + k - (n - 1) * w]);
            }
        }
    }
}

/// Flattens a row-major buffer of fixed-width rows.
pub fn flatten_rows(rows: &Vec<Vec<u32>>, w: usize) -> (r: Vec<u32>)
    requires
        forall|i: int| 0 <= i < spec_rows(*rows).len() ==> (#[trigger] spec_rows(*rows)[i]).len()
            == w,
    ensures
        r@ == spec_concat_rows(spec_rows(*rows)),
        r@.len() == spec_rows(*rows).len() * w,
{
    let mut out: Vec<u32> = Vec::new();
    let mut i: usize = 0;
    while i < rows.len()
        invariant
            i <= rows@.len(),
            forall|t: int|
                0 <= t < spec_rows(*rows).len() ==> (#[trigger] spec_rows(*rows)[t]).len() == w,
            out@ == spec_concat_rows(spec_rows(*rows).take(i as int)),
        decreases rows@.len() - i,
    {
        let row = &rows[i];
        let mut k: usize = 0;
        while k < row.len()
            invariant
                k <= row@.len(),
                row@ == rows@[i as int]@,
                i < rows@.len(),
                out@ == spec_concat_rows(spec_rows(*rows).take(i as int)) + row@.take(k as int),
            decreases row@.len() - k,
        {
            out.push(row[k]);
            proof {
                assert(row@.take(k + 1) =~= row@.take(k as int).push(row@[k as int]));
                assert(out@ =~= spec_concat_rows(spec_rows(*rows).take(i as int)) + row@.take(
                    k + 1,
                ));
            }
            k += 1;
        }
        proof {
            assert(row@.take(row@.len() as int) =~= row@);
            assert(spec_rows(*rows).take(i + 1).drop_last() =~= spec_rows(*rows).take(i as int));
            assert(spec_rows(*rows).take(i + 1).last() == spec_rows(*rows)[i as int]);
            assert(spec_rows(*rows)[i as int] == row@);
            assert(out@ =~= spec_concat_rows(spec_rows(*rows).take(i + 1)));
        }
        i += 1;
    }
    proof {
        assert(spec_rows(*rows).take(spec_rows(*rows).len() as int) =~= spec_rows(*rows));
        lemma_concat_rows_index(spec_rows(*rows), w as int);
    }
    out
}

/// Splits a flat sample buffer into rows of width `w`.
pub fn chunk_rows(vals: &Vec<u32>, w: usize) -> (r: Vec<Vec<u32>>)
    requires
        w > 0,
        vals@.len() as int % w as int == 0,
    ensures
        spec_rows(r).len() * w == vals@.len(),
        forall|i: int|
            0 <= i < spec_rows(r).len() ==> (#[trigger] spec_rows(r)[i]) == vals@.subrange(
                i * w,
                i * w + w,
            ),
{
    let n = vals.len() / w;
    proof {
        let l = vals@.len() as int;
        let wi = w as int;
        vstd::arithmetic::div_mod::lemma_fundamental_div_mod(l, wi);
        assert(l == wi * (l / wi));
        assert(n as int == l / wi);
        assert((l / wi) * wi == wi * (l / wi)) by (nonlinear_arith);
        assert(n as int * wi == l);
    }
    let mut out: Vec<Vec<u32>> = Vec::new();
    let mut i: usize = 0;
    while i < n
        invariant
            w > 0,
            n as int * w == vals@.len(),
            vals@.len() <= usize::MAX,
            i <= n,
            out@.len() == i,
            forall|t: int|
                0 <= t < i ==> (#[trigger] out@[t]@) == vals@.subrange(t * w, t * w + w),
        decreases n - i,
    {
        proof {
            assert((i + 1) as int * w <= n as int * w) by (nonlinear_arith)
                requires i as int + 1 <= n as int, 0 <= w;
            assert(i as int * w + w == (i + 1) as int * w) by (nonlinear_arith);
        }
        let mut row: Vec<u32> = Vec::new();
        let mut k: usize = 0;
        while k < w
            invariant
                i as int * w + w <= vals@.len(),
                vals@.len() <= usize::MAX,
                k <= w,
                row@ =~= vals@.subrange(i as int * w, i as int * w + k),
            decreases w - k,
        {
            proof {
                assert(i as int * w + k < vals@.len());
            }
            row.push(vals[i * w + k]);
            proof {
                assert(row@ =~= vals@.subrange(i as int * w, i as int * w + k + 1));
            }
            k += 1;
        }
        out.push(row);
        i += 1;
    }
    proof {
        assert forall|i2: int| 0 <= i2 < spec_rows(out).len() implies (#[trigger] spec_rows(
            out,
        )[i2]) == vals@.subrange(i2 * w, i2 * w + w) by {
            assert((i2 + 1) * w as int <= out@.len() * w as int) by (nonlinear_arith)
                requires i2 + 1 <= out@.len(), 0 <= w as int;
            assert(out@[i2]@ == vals@.subrange(i2 * w, i2 * w + w));
        }
    }
    out
}

} // verus!
