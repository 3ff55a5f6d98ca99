//! Coordinate transforms: a 3 by 3 linear map, a 4 by 4 homogeneous map
//! with perspective divide, and a rotation-plus-translation pair.
//!
//! The matrix products run on the numeric backend; shape validation, the
//! homogeneous lift, the zero-`w` guard and the perspective divide's
//! bookkeeping are verified. Every transform builds a brand-new cloud whose
//! intensity, colour and attributes equal the source's by value; only the
//! coordinates change.

use vstd::prelude::*;

use crate::backend::{div_bits, tensor_add_rows, tensor_homogeneous_map, tensor_linear_map};
use crate::bits::{is_zero_bits, spec_is_zero};
use crate::buffers::{
    chunk_rows, flatten_rows, le_bytes_to_u32s, lemma_le_to_u32s_roundtrip, spec_le_to_u32s,
    spec_rows, u32s_to_le_bytes,
};
use crate::cloud::HighPerformancePointCloud;
use crate::error::PointCloudError;
use crate::shape::{spec_matrix_ok, validate_matrix_shape};

verus! {

/// The bit pattern of the single-precision value one, the homogeneous
/// coordinate appended to every point before a 4 by 4 map.
pub const F32_ONE_BITS: u32 = 0x3f80_0000;

/// Recovers Euclidean triples from homogeneous rows: each row is divided by
/// its fourth component. A row whose `w` component is zero fails with
/// `MatrixError` — no infinities are ever produced.
pub fn homogeneous_to_cartesian(h: &Vec<Vec<u32>>) -> (r: Result<Vec<Vec<u32>>, PointCloudError>)
    requires
        forall|i: int| 0 <= i < spec_rows(*h).len() ==> (#[trigger] spec_rows(*h)[i]).len() == 4,
    ensures
        r is Ok <==> (forall|i: int|
            0 <= i < spec_rows(*h).len() ==> !spec_is_zero(#[trigger] spec_rows(*h)[i][3])),
        r is Err ==> r->Err_0 == PointCloudError::MatrixError,
        r matches Ok(c) ==> spec_rows(c).len() == spec_rows(*h).len() && (forall|i: int|
            0 <= i < spec_rows(c).len() ==> (#[trigger] spec_rows(c)[i]).len() == 3) && (forall|
            i: int,
            k: int,
        |
            0 <= i < spec_rows(c).len() && 0 <= k < 3 ==> #[trigger] spec_rows(c)[i][k]
                == div_bits(spec_rows(*h)[i][k], spec_rows(*h)[i][3])),
{
    let n = h.len();
    let mut i: usize = 0;
    while i < n
        invariant
            n == spec_rows(*h).len(),
            forall|t: int| 0 <= t < n ==> (#[trigger] spec_rows(*h)[t]).len() == 4,
            i <= n,
            forall|t: int| 0 <= t < i ==> !spec_is_zero(#[trigger] spec_rows(*h)[t][3]),
        decreases n - i,
    {
        proof {
            assert(spec_rows(*h)[i as int] == h@[i as int]@);
        }
        if is_zero_bits(h[i][3]) {
            proof {
                assert(spec_is_zero(spec_rows(*h)[i as int][3]));
            }
            return Err(PointCloudError::MatrixError);
        }
        proof {
            assert(!spec_is_zero(spec_rows(*h)[i as int][3]));
        }
        i += 1;
    }
    if n == 0 {
        let empty: Vec<Vec<u32>> = Vec::new();
        return Ok(empty);
    }
    let mut num: Vec<u32> = Vec::new();
    let mut den: Vec<u32> = Vec::new();
    let mut i: usize = 0;
    while i < n
        invariant
            n == spec_rows(*h).len(),
            forall|t: int| 0 <= t < n ==> (#[trigger] spec_rows(*h)[t]).len() == 4,
            i <= n,
            num@.len() == 3 * i,
            den@.len() == 3 * i,
            forall|t: int, k: int|
                0 <= t < i && 0 <= k < 3 ==> #[trigger] num@[3 * t + k] == spec_rows(*h)[t][k],
            forall|t: int, k: int|
                0 <= t < i && 0 <= k < 3 ==> #[trigger] den@[3 * t + k] == spec_rows(*h)[t][3],
        decreases n - i,
    {
        proof {
            assert(spec_rows(*h)[i as int] == h@[i as int]@);
        }
        let row = &h[i];
        num.push(row[0]);
        num.push(row[1]);
        num.push(row[2]);
        let w = row[3];
        den.push(w);
        den.push(w);
        den.push(w);
        proof {
            let ii = i as int;
            assert(row@ == spec_rows(*h)[ii]);
            assert forall|t: int, k: int| 0 <= t < i + 1 && 0 <= k < 3 implies #[trigger] num@[3
                * t + k] == spec_rows(*h)[t][k] by {}
            assert forall|t: int, k: int| 0 <= t < i + 1 && 0 <= k < 3 implies #[trigger] den@[3
                * t + k] == spec_rows(*h)[t][3] by {}
        }
        i += 1;
    }
    let nb = u32s_to_le_bytes(&num);
    let db = u32s_to_le_bytes(&den);
    proof {
        lemma_le_to_u32s_roundtrip(num@);
        lemma_le_to_u32s_roundtrip(den@);
    }
    let qb = crate::backend::tensor_div(&nb, &db);
    let q = le_bytes_to_u32s(&qb);
    proof {
        assert forall|j: int| 0 <= j < 3 * n implies #[trigger] q@[j] == div_bits(
            num@[j],
            den@[j],
        ) by {
            assert(spec_le_to_u32s(qb@)[j] == div_bits(
                spec_le_to_u32s(nb@)[j],
                spec_le_to_u32s(db@)[j],
            ));
        }
        assert(q@.len() as int % 3 == 0);
    }
    let out = chunk_rows(&q, 3);
    proof {
        assert(spec_rows(out).len() == n);
        assert forall|t: int, k: int| 0 <= t < n && 0 <= k < 3 implies #[trigger] spec_rows(
            out,
        )[t][k] == div_bits(spec_rows(*h)[t][k], spec_rows(*h)[t][3]) by {
            assert(spec_rows(out)[t] == q@.subrange(t * 3, t * 3 + 3));
            assert(q@.subrange(t * 3, t * 3 + 3)[k] == q@[t * 3 + k]);
            assert(3 * t + k == t * 3 + k);
            assert(q@[3 * t + k] == div_bits(num@[3 * t + k], den@[3 * t + k]));
        }
        assert forall|t: int| 0 <= t < n implies (#[trigger] spec_rows(out)[t]).len() == 3 by {
            assert(spec_rows(out)[t] == q@.subrange(t * 3, t * 3 + 3));
        }
    }
    Ok(out)
}

impl HighPerformancePointCloud {
    /// Copies this cloud's intensity, colour and attributes onto a freshly
    /// built cloud of the same point count.
    fn copy_side_buffers(&self, result: &mut Self)
        requires
            self.wf(),
            old(result).wf(),
            old(result)@.point_count() == self@.point_count(),
            old(result)@.intensity is None,
            old(result)@.rgb is None,
            old(result)@.attrs.len() == 0,
        ensures
            final(result).wf(),
            final(result)@.coords == old(result)@.coords,
            final(result)@.intensity == self@.intensity,
            final(result)@.rgb == self@.rgb,
            final(result)@.attrs == self@.attrs,
    {
        let ghost m = self@;
        match self.get_intensity() {
            Some(v) => {
                match result.set_intensity(v) {
                    Ok(()) => (),
                    Err(e) => {
                        proof {
                            assert(false);
                        }
                    },
                }
            },
            None => (),
        }
        match self.get_rgb() {
            Some(ch) => {
                match result.set_rgb(ch.0, ch.1, ch.2) {
                    Ok(()) => (),
                    Err(e) => {
                        proof {
                            assert(false);
                        }
                    },
                }
            },
            None => (),
        }
        let names = self.attribute_names();
        let mut a: usize = 0;
        while a < names.len()
            invariant
                m == self@,
                self.wf(),
                names@.len() == m.attrs.len(),
                forall|t: int| 0 <= t < names@.len() ==> (#[trigger] names@[t])@ == m.attrs[t].0,
                a <= names@.len(),
                result.wf(),
                result@.point_count() == m.coords.len(),
                result@.coords == old(result)@.coords,
                result@.intensity == m.intensity,
                result@.rgb == m.rgb,
                result@.attrs.len() == a,
                forall|t: int|
                    0 <= t < a ==> (#[trigger] result@.attrs[t]).0 == m.attrs[t].0
                        && result@.attrs[t].1 == m.attrs[t].1,
            decreases names@.len() - a,
        {
            let name = names[a].clone();
            let data = match self.get_attribute(&name) {
                Some(d) => d,
                None => {
                    proof {
                        crate::cloud::lemma_attr_index(m, name@, a as int);
                        assert(false);
                    }
                    return ;
                },
            };
            proof {
                crate::cloud::lemma_attr_index(m, name@, a as int);
                assert(data@ == m.attrs[a as int].1);
                assert(data@.len() == m.coords.len());
            }
            let ghost prer = result@;
            match result.set_attribute(name, data) {
                Ok(()) => (),
                Err(e) => {
                    proof {
                        assert(false);
                    }
                },
            }
            proof {
                assert forall|t: int| 0 <= t < prer.attrs.len() implies !(prer.attrs[t].0
                    == m.attrs[a as int].0) by {
                    assert(prer.attrs[t].0 == m.attrs[t].0);
                    assert(m.attrs[t].0 != m.attrs[a as int].0);
                }
                assert(!prer.has_attr(m.attrs[a as int].0));
            }
            a += 1;
        }
        proof {
            assert(result@.attrs =~= m.attrs);
        }
    }

    /// Transforms the coordinates by a square matrix: a 3 by 3 matrix acts
    /// as a linear map, a 4 by 4 matrix as a homogeneous map followed by a
    /// perspective divide whose zero-`w` rows are refused. Any other shape,
    /// or a ragged matrix, fails with `MatrixError`. The result is a new
    /// cloud; intensity, colour and attributes carry over by value.
    pub fn transform(&self, matrix: Vec<Vec<u32>>) -> (r: Result<Self, PointCloudError>)
        requires
            self.wf(),
        ensures
            !spec_matrix_ok(spec_rows(matrix)) ==> r == Err::<Self, _>(
                PointCloudError::MatrixError,
            ),
            spec_matrix_ok(spec_rows(matrix)) && spec_rows(matrix).len() == 3 ==> r is Ok,
            spec_matrix_ok(spec_rows(matrix)) && self@.point_count() == 0 ==> r is Ok,
            r is Err ==> r->Err_0 == PointCloudError::MatrixError,
            r matches Ok(c) ==> c.wf() && c@.point_count() == self@.point_count() && c@.intensity
                == self@.intensity && c@.rgb == self@.rgb && c@.attrs == self@.attrs,
    {
        let (mrows, mcols) = match validate_matrix_shape(&matrix) {
            Ok(d) => d,
            Err(e) => {
                return Err(e);
            },
        };
        let xyz = self.get_xyz();
        let n = xyz.len();
        if n == 0 {
            let mut result = HighPerformancePointCloud::new();
            self.copy_side_buffers(&mut result);
            return Ok(result);
        }
        let mflat = flatten_rows(&matrix, mcols);
        let mbytes = u32s_to_le_bytes(&mflat);
        if mrows == 3 {
            let flat = flatten_rows(&xyz, 3);
            let bytes = u32s_to_le_bytes(&flat);
            let ob = tensor_linear_map(&bytes, n, &mbytes);
            let ou = le_bytes_to_u32s(&ob);
            proof {
                assert(ou@.len() as int % 3 == 0);
            }
            let new_xyz = chunk_rows(&ou, 3);
            proof {
                assert forall|t: int| 0 <= t < spec_rows(new_xyz).len() implies (
                #[trigger] spec_rows(new_xyz)[t]).len() == 3 by {
                    assert(spec_rows(new_xyz)[t] == ou@.subrange(t * 3, t * 3 + 3));
                }
                assert(crate::shape::spec_xyz_ok(spec_rows(new_xyz)));
            }
            let mut result = match HighPerformancePointCloud::from_xyz(new_xyz) {
                Ok(c) => c,
                Err(e) => {
                    proof {
                        assert(false);
                    }
                    return Err(e);
                },
            };
            self.copy_side_buffers(&mut result);
            Ok(result)
        } else {
            let mut homo: Vec<Vec<u32>> = Vec::new();
            let mut i: usize = 0;
            while i < n
                invariant
                    n == spec_rows(xyz).len(),
                    forall|t: int|
                        0 <= t < n ==> (#[trigger] spec_rows(xyz)[t]).len() == 3,
                    i <= n,
                    homo@.len() == i,
                    forall|t: int|
                        0 <= t < i ==> (#[trigger] homo@[t]@) == spec_rows(xyz)[t].push(
                            F32_ONE_BITS,
                        ),
                decreases n - i,
            {
                proof {
                    assert(spec_rows(xyz)[i as int] == xyz@[i as int]@);
                }
                let row = &xyz[i];
                let mut hrow: Vec<u32> = Vec::new();
                hrow.push(row[0]);
                hrow.push(row[1]);
                hrow.push(row[2]);
                hrow.push(F32_ONE_BITS);
                proof {
                    assert(hrow@ =~= spec_rows(xyz)[i as int].push(F32_ONE_BITS));
                }
                homo.push(hrow);
                i += 1;
            }
            proof {
                assert(spec_rows(homo) =~= Seq::new(
                    n as nat,
                    |t: int| spec_rows(xyz)[t].push(F32_ONE_BITS),
                ));
                assert forall|t: int| 0 <= t < spec_rows(homo).len() implies (
                #[trigger] spec_rows(homo)[t]).len() == 4 by {
                    assert(spec_rows(homo)[t] == spec_rows(xyz)[t].push(F32_ONE_BITS));
                }
            }
            let hflat = flatten_rows(&homo, 4);
            let hbytes = u32s_to_le_bytes(&hflat);
            let hb = tensor_homogeneous_map(&hbytes, n, &mbytes);
            let hu = le_bytes_to_u32s(&hb);
            proof {
                assert(hu@.len() as int % 4 == 0);
            }
            let hrows = chunk_rows(&hu, 4);
            proof {
                assert forall|t: int| 0 <= t < spec_rows(hrows).len() implies (
                #[trigger] spec_rows(hrows)[t]).len() == 4 by {
                    assert(spec_rows(hrows)[t] == hu@.subrange(t * 4, t * 4 + 4));
                }
            }
            let new_xyz = match homogeneous_to_cartesian(&hrows) {
                Ok(c) => c,
                Err(e) => {
                    return Err(e);
                },
            };
            proof {
                assert(crate::shape::spec_xyz_ok(spec_rows(new_xyz)));
            }
            let mut result = match HighPerformancePointCloud::from_xyz(new_xyz) {
                Ok(c) => c,
                Err(e) => {
                    proof {
                        assert(false);
                    }
                    return Err(e);
                },
            };
            self.copy_side_buffers(&mut result);
            Ok(result)
        }
    }

    /// Applies a rotation and a translation: every point becomes
    /// `rotation * point + translation`. The rotation must be exactly 3 by
    /// 3 and the translation exactly length 3, else `MatrixError`; the
    /// rotation is not required to be orthonormal. The result is a new
    /// cloud; intensity, colour and attributes carry over by value.
    pub fn rigid_transform(&self, rotation: Vec<Vec<u32>>, translation: Vec<u32>) -> (r: Result<
        Self,
        PointCloudError,
    >)
        requires
            self.wf(),
        ensures
            r is Ok <==> translation@.len() == 3 && spec_matrix_ok(spec_rows(rotation))
                && spec_rows(rotation).len() == 3,
            r is Err ==> r->Err_0 == PointCloudError::MatrixError,
            r matches Ok(c) ==> c.wf() && c@.point_count() == self@.point_count() && c@.intensity
                == self@.intensity && c@.rgb == self@.rgb && c@.attrs == self@.attrs,
    {
        if translation.len() != 3 {
            return Err(PointCloudError::MatrixError);
        }
        let (mrows, mcols) = match validate_matrix_shape(&rotation) {
            Ok(d) => d,
            Err(e) => {
                return Err(e);
            },
        };
        if mrows != 3 || mcols != 3 {
            return Err(PointCloudError::MatrixError);
        }
        let xyz = self.get_xyz();
        let n = xyz.len();
        if n == 0 {
            let mut result = HighPerformancePointCloud::new();
            self.copy_side_buffers(&mut result);
            return Ok(result);
        }
        let mflat = flatten_rows(&rotation, 3);
        let mbytes = u32s_to_le_bytes(&mflat);
        let flat = flatten_rows(&xyz, 3);
        let bytes = u32s_to_le_bytes(&flat);
        let rb = tensor_linear_map(&bytes, n, &mbytes);
        let tbytes = u32s_to_le_bytes(&translation);
        let sb = tensor_add_rows(&rb, n, &tbytes);
        let su = le_bytes_to_u32s(&sb);
        proof {
            assert(su@.len() as int % 3 == 0);
        }
        let new_xyz = chunk_rows(&su, 3);
        proof {
            assert forall|t: int| 0 <= t < spec_rows(new_xyz).len() implies (
            #[trigger] spec_rows(new_xyz)[t]).len() == 3 by {
                assert(spec_rows(new_xyz)[t] == su@.subrange(t * 3, t * 3 + 3));
            }
            assert(crate::shape::spec_xyz_ok(spec_rows(new_xyz)));
        }
        let mut result = match HighPerformancePointCloud::from_xyz(new_xyz) {
            Ok(c) => c,
            Err(e) => {
                proof {
                    assert(false);
                }
                return Err(e);
            },
        };
        self.copy_side_buffers(&mut result);
        Ok(result)
    }
}

} // verus!
