//! The point-cloud entity: one mandatory coordinate buffer plus optional,
//! length-synchronised intensity, colour and named attribute buffers.
//!
//! Every sample is stored as its 32-bit IEEE-754 bit pattern. The entity's
//! invariant — every attached buffer has exactly one sample per point, the
//! three colour channels are attached or absent together, attribute names
//! are unique — is established by every constructor and preserved by every
//! setter; a setter that rejects its input leaves the cloud unchanged.

use vstd::prelude::*;

use crate::buffers::{copy_rows, copy_u32s, copy_u8s, spec_rows};
use crate::error::PointCloudError;
use vstd::pervasive::VecAdditionalExecFns;
use crate::shape::{
    spec_xyz_ok, validate_attribute_shape, validate_intensity_shape, validate_rgb_channel_shape,
    validate_xyz_shape,
};

verus! {

/// The mathematical value of a cloud: what every contract speaks about.
#[verifier::ext_equal]
pub struct CloudModel {
    /// One length-3 row of coordinate bit patterns per point.
    pub coords: Seq<Seq<u32>>,
    /// Optional intensity samples, one per point.
    pub intensity: Option<Seq<u32>>,
    /// Optional colour: red, green and blue channels, one byte per point
    /// each, present or absent together.
    pub rgb: Option<(Seq<u8>, Seq<u8>, Seq<u8>)>,
    /// Named attribute buffers in attachment order; names are unique.
    pub attrs: Seq<(Seq<char>, Seq<u32>)>,
}

/// The mathematical value of an attribute list.
pub open spec fn spec_entries(v: Vec<(String, Vec<u32>)>) -> Seq<(Seq<char>, Seq<u32>)> {
    Seq::new(v@.len(), |i: int| (v@[i].0@, v@[i].1@))
}

impl CloudModel {
    /// Number of points.
    pub open spec fn point_count(self) -> nat {
        self.coords.len()
    }

    /// Whether an attribute with this name is attached.
    pub open spec fn has_attr(self, name: Seq<char>) -> bool {
        exists|i: int| 0 <= i < self.attrs.len() && (#[trigger] self.attrs[i]).0 == name
    }

    /// The position of the attribute with this name.
    pub open spec fn attr_index(self, name: Seq<char>) -> int {
        choose|i: int| 0 <= i < self.attrs.len() && (#[trigger] self.attrs[i]).0 == name
    }

    /// The buffer of the attribute with this name.
    pub open spec fn attr_value(self, name: Seq<char>) -> Seq<u32> {
        self.attrs[self.attr_index(name)].1
    }
}

/// The entity invariant: every attached buffer is length-synchronised with
/// the coordinate buffer, coordinate rows are triples, and attribute names
/// are unique.
pub open spec fn model_wf(m: CloudModel) -> bool {
    &&& forall|i: int| 0 <= i < m.coords.len() ==> (#[trigger] m.coords[i]).len() == 3
    &&& m.intensity matches Some(s) ==> s.len() == m.coords.len()
    &&& m.rgb matches Some(c) ==> c.0.len() == m.coords.len() && c.1.len() == m.coords.len()
        && c.2.len() == m.coords.len()
    &&& forall|i: int| 0 <= i < m.attrs.len() ==> (#[trigger] m.attrs[i]).1.len() == m.coords.len()
    &&& forall|i: int, j: int|
        0 <= i < j < m.attrs.len() ==> (#[trigger] m.attrs[i]).0 != (#[trigger] m.attrs[j]).0
}

/// In a well-formed cloud an attribute position determines the name's index.
pub proof fn lemma_attr_index(m: CloudModel, name: Seq<char>, i: int)
    requires
        model_wf(m),
        0 <= i < m.attrs.len(),
        m.attrs[i].0 == name,
    ensures
        m.has_attr(name),
        m.attr_index(name) == i,
{
    assert(m.has_attr(name));
    let j = m.attr_index(name);
    if i < j {
        assert(m.attrs[i].0 != m.attrs[j].0);
    } else if j < i {
        assert(m.attrs[j].0 != m.attrs[i].0);
    }
}

/// A value capped at the largest machine size: byte totals saturate rather
/// than wrap.
pub open spec fn spec_capped(v: int) -> int {
    if v <= usize::MAX as int {
        v
    } else {
        usize::MAX as int
    }
}

/// Bytes held by the attribute buffers: four per sample.
pub open spec fn spec_attrs_bytes(attrs: Seq<(Seq<char>, Seq<u32>)>) -> int
    decreases attrs.len(),
{
    if attrs.len() == 0 {
        0
    } else {
        spec_attrs_bytes(attrs.drop_last()) + attrs.last().1.len() * 4
    }
}

/// Bytes held by every live buffer of a cloud. Each coordinate, intensity
/// and attribute sample is four bytes; colour channels are counted at the
/// width the numeric backend stores them, which is also four bytes per
/// sample, not one.
pub open spec fn spec_memory_usage(m: CloudModel) -> int {
    m.coords.len() * 12 + (match m.intensity {
        Some(s) => s.len() * 4,
        None => 0,
    }) + (match m.rgb {
        Some(c) => c.0.len() * 4 + c.1.len() * 4 + c.2.len() * 4,
        None => 0,
    }) + spec_attrs_bytes(m.attrs)
}

/// Saturating addition of byte counts.
fn sat_add(a: usize, b: usize) -> (r: usize)
    ensures
        r as int == spec_capped(a as int + b as int),
{
    if a <= usize::MAX - b {
        a + b
    } else {
        usize::MAX
    }
}

/// Saturating multiplication of byte counts.
fn sat_mul(a: usize, b: usize) -> (r: usize)
    ensures
        r as int == spec_capped(a as int * b as int),
{
    if b == 0 {
        proof {
            assert(a as int * 0 == 0) by (nonlinear_arith);
        }
        0
    } else if a <= usize::MAX / b {
        proof {
            let ai = a as int;
            let bi = b as int;
            let mx = usize::MAX as int;
            vstd::arithmetic::div_mod::lemma_fundamental_div_mod(mx, bi);
            assert(ai * bi <= (mx / bi) * bi) by (nonlinear_arith)
                requires 0 <= ai <= mx / bi, 0 < bi;
            assert((mx / bi) * bi == bi * (mx / bi)) by (nonlinear_arith);
        }
        a * b
    } else {
        proof {
            let ai = a as int;
            let bi = b as int;
            let mx = usize::MAX as int;
            vstd::arithmetic::div_mod::lemma_fundamental_div_mod(mx, bi);
            let q = mx / bi;
            assert((q + 1) * bi == q * bi + bi) by (nonlinear_arith);
            assert(q * bi == bi * q) by (nonlinear_arith);
            assert(mx < (q + 1) * bi);
            assert((q + 1) * bi <= ai * bi) by (nonlinear_arith)
                requires q + 1 <= ai, 0 < bi;
        }
        usize::MAX
    }
}

/// One scan step of a batch attribute replacement: the first entry whose
/// buffer length disagrees with the point count, or whose name repeats an
/// earlier one, determines the error.
pub open spec fn spec_batch_scan(
    s: Seq<(Seq<char>, Seq<u32>)>,
    n: nat,
    i: int,
) -> Option<PointCloudError>
    decreases s.len() - i,
    when 0 <= i <= s.len()
{
    if i >= s.len() {
        None
    } else if s[i].1.len() != n {
        Some(
            PointCloudError::DimensionMismatch {
                expected: n as usize,
                actual: s[i].1.len() as usize,
            },
        )
    } else if exists|j: int| 0 <= j < i && (#[trigger] s[j]).0 == s[i].0 {
        Some(PointCloudError::DuplicateName)
    } else {
        spec_batch_scan(s, n, i + 1)
    }
}

/// A clean scan means every buffer length matches and every name is new.
pub proof fn lemma_batch_scan_clean(s: Seq<(Seq<char>, Seq<u32>)>, n: nat, i: int)
    requires
        0 <= i <= s.len(),
        spec_batch_scan(s, n, i) is None,
    ensures
        forall|b: int| i <= b < s.len() ==> (#[trigger] s[b]).1.len() == n,
        forall|a: int, b: int|
            0 <= a < b < s.len() && i <= b ==> (#[trigger] s[a]).0 != (#[trigger] s[b]).0,
    decreases s.len() - i,
{
    if i < s.len() {
        lemma_batch_scan_clean(s, n, i + 1);
    }
}

/// A point cloud held in memory: coordinates plus optional intensity,
/// colour and named attributes, all length-synchronised.
#[derive(Clone)]
pub struct HighPerformancePointCloud {
    xyz: Vec<Vec<u32>>,
    intensity: Option<Vec<u32>>,
    rgb: Option<(Vec<u8>, Vec<u8>, Vec<u8>)>,
    attributes: Vec<(String, Vec<u32>)>,
}

impl View for HighPerformancePointCloud {
    type V = CloudModel;

    closed spec fn view(&self) -> CloudModel {
        CloudModel {
            coords: spec_rows(self.xyz),
            intensity: match self.intensity {
                Some(v) => Some(v@),
                None => None,
            },
            rgb: match self.rgb {
                Some(c) => Some((c.0@, c.1@, c.2@)),
                None => None,
            },
            attrs: spec_entries(self.attributes),
        }
    }
}

impl HighPerformancePointCloud {
    /// The entity invariant, stated of this cloud's value.
    pub open spec fn wf(&self) -> bool {
        model_wf(self@)
    }

    /// Creates an empty cloud: zero points, no optional data.
    pub fn new() -> (r: Self)
        ensures
            r.wf(),
            r@.coords.len() == 0,
            r@.intensity is None,
            r@.rgb is None,
            r@.attrs.len() == 0,
    {
        HighPerformancePointCloud {
            xyz: Vec::new(),
            intensity: None,
            rgb: None,
            attributes: Vec::new(),
        }
    }

    /// Builds a cloud from a coordinate buffer alone.
    ///
    /// Fails with `ShapeError` when the buffer is empty or a row is not an
    /// (x, y, z) triple.
    pub fn from_xyz(xyz: Vec<Vec<u32>>) -> (r: Result<Self, PointCloudError>)
        ensures
            r is Ok <==> spec_xyz_ok(spec_rows(xyz)),
            r matches Ok(c) ==> c.wf() && c@.coords == spec_rows(xyz) && c@.intensity is None
                && c@.rgb is None && c@.attrs.len() == 0,
            r is Err ==> r->Err_0 == PointCloudError::ShapeError,
    {
        match validate_xyz_shape(&xyz) {
            Err(e) => Err(e),
            Ok(()) => {
                let c = HighPerformancePointCloud {
                    xyz,
                    intensity: None,
                    rgb: None,
                    attributes: Vec::new(),
                };
                Ok(c)
            },
        }
    }

    /// Builds a cloud from coordinates and an intensity buffer.
    ///
    /// The coordinate shape is checked first (`ShapeError`), then the
    /// intensity length against the point count (`DimensionMismatch`).
    pub fn from_xyz_intensity(xyz: Vec<Vec<u32>>, intensity: Vec<u32>) -> (r: Result<
        Self,
        PointCloudError,
    >)
        ensures
            r is Ok <==> spec_xyz_ok(spec_rows(xyz)) && intensity@.len() == spec_rows(xyz).len(),
            r matches Ok(c) ==> c.wf() && c@.coords == spec_rows(xyz) && c@.intensity == Some(
                intensity@,
            ) && c@.rgb is None && c@.attrs.len() == 0,
            !spec_xyz_ok(spec_rows(xyz)) ==> r == Err::<Self, _>(PointCloudError::ShapeError),
            spec_xyz_ok(spec_rows(xyz)) && intensity@.len() != spec_rows(xyz).len() ==> r == Err::<
                Self,
                _,
            >(
                PointCloudError::DimensionMismatch {
                    expected: spec_rows(xyz).len() as usize,
                    actual: intensity@.len() as usize,
                },
            ),
    {
        match validate_xyz_shape(&xyz) {
            Err(e) => Err(e),
            Ok(()) => {
                let point_count = xyz.len();
                match validate_intensity_shape(&intensity, point_count) {
                    Err(e) => Err(e),
                    Ok(()) => {
                        let c = HighPerformancePointCloud {
                            xyz,
                            intensity: Some(intensity),
                            rgb: None,
                            attributes: Vec::new(),
                        };
                        Ok(c)
                    },
                }
            },
        }
    }

    /// Builds a cloud from coordinates and three colour channels.
    ///
    /// The coordinate shape is checked first, then the channels in red,
    /// green, blue order; the first channel of the wrong length is reported.
    pub fn from_xyz_rgb(xyz: Vec<Vec<u32>>, r: Vec<u8>, g: Vec<u8>, b: Vec<u8>) -> (res: Result<
        Self,
        PointCloudError,
    >)
        ensures
            res is Ok <==> spec_xyz_ok(spec_rows(xyz)) && r@.len() == spec_rows(xyz).len()
                && g@.len() == spec_rows(xyz).len() && b@.len() == spec_rows(xyz).len(),
            res matches Ok(c) ==> c.wf() && c@.coords == spec_rows(xyz) && c@.intensity is None
                && c@.rgb == Some((r@, g@, b@)) && c@.attrs.len() == 0,
            !spec_xyz_ok(spec_rows(xyz)) ==> res == Err::<Self, _>(PointCloudError::ShapeError),
            res is Err && spec_xyz_ok(spec_rows(xyz)) ==> (res->Err_0 matches
                PointCloudError::DimensionMismatch { expected, actual } && expected == spec_rows(
                xyz,
            ).len()),
    {
        match validate_xyz_shape(&xyz) {
            Err(e) => Err(e),
            Ok(()) => {
                let point_count = xyz.len();
                match validate_rgb_channel_shape(&r, point_count) {
                    Err(e) => Err(e),
                    Ok(()) => match validate_rgb_channel_shape(&g, point_count) {
                        Err(e) => Err(e),
                        Ok(()) => match validate_rgb_channel_shape(&b, point_count) {
                            Err(e) => Err(e),
                            Ok(()) => {
                                let c = HighPerformancePointCloud {
                                    xyz,
                                    intensity: None,
                                    rgb: Some((r, g, b)),
                                    attributes: Vec::new(),
                                };
                                Ok(c)
                            },
                        },
                    },
                }
            },
        }
    }

    /// Builds a cloud from coordinates, intensity and three colour channels.
    ///
    /// Checks run in the order: coordinate shape, intensity length, then the
    /// three channels.
    pub fn from_xyz_intensity_rgb(
        xyz: Vec<Vec<u32>>,
        intensity: Vec<u32>,
        r: Vec<u8>,
        g: Vec<u8>,
        b: Vec<u8>,
    ) -> (res: Result<Self, PointCloudError>)
        ensures
            res is Ok <==> spec_xyz_ok(spec_rows(xyz)) && intensity@.len() == spec_rows(xyz).len()
                && r@.len() == spec_rows(xyz).len() && g@.len() == spec_rows(xyz).len() && b@.len()
                == spec_rows(xyz).len(),
            res matches Ok(c) ==> c.wf() && c@.coords == spec_rows(xyz) && c@.intensity == Some(
                intensity@,
            ) && c@.rgb == Some((r@, g@, b@)) && c@.attrs.len() == 0,
            !spec_xyz_ok(spec_rows(xyz)) ==> res == Err::<Self, _>(PointCloudError::ShapeError),
            res is Err && spec_xyz_ok(spec_rows(xyz)) ==> (res->Err_0 matches
                PointCloudError::DimensionMismatch { expected, actual } && expected == spec_rows(
                xyz,
            ).len()),
    {
        match validate_xyz_shape(&xyz) {
            Err(e) => Err(e),
            Ok(()) => {
                let point_count = xyz.len();
                match validate_intensity_shape(&intensity, point_count) {
                    Err(e) => Err(e),
                    Ok(()) => match validate_rgb_channel_shape(&r, point_count) {
                        Err(e) => Err(e),
                        Ok(()) => match validate_rgb_channel_shape(&g, point_count) {
                            Err(e) => Err(e),
                            Ok(()) => match validate_rgb_channel_shape(&b, point_count) {
                                Err(e) => Err(e),
                                Ok(()) => {
                                    let c = HighPerformancePointCloud {
                                        xyz,
                                        intensity: Some(intensity),
                                        rgb: Some((r, g, b)),
                                        attributes: Vec::new(),
                                    };
                                    Ok(c)
                                },
                            },
                        },
                    },
                }
            },
        }
    }

    /// Number of points in the cloud.
    pub fn point_count(&self) -> (r: usize)
        ensures
            r == self@.point_count(),
    {
        self.xyz.len()
    }

    /// Whether an intensity buffer is attached.
    pub fn has_intensity(&self) -> (r: bool)
        ensures
            r == (self@.intensity is Some),
    {
        self.intensity.is_some()
    }

    /// Whether colour is attached (always all three channels together).
    pub fn has_rgb(&self) -> (r: bool)
        ensures
            r == (self@.rgb is Some),
    {
        self.rgb.is_some()
    }

    /// Finds the position of an attribute by name.
    fn find_attribute(&self, name: &String) -> (r: Option<usize>)
        ensures
            r matches Some(i) ==> i < self@.attrs.len() && self@.attrs[i as int].0 == name@,
            r is None ==> !self@.has_attr(name@),
    {
        let mut i: usize = 0;
        while i < self.attributes.len()
            invariant
                i <= self@.attrs.len(),
                self@.attrs.len() == self.attributes@.len(),
                forall|j: int| 0 <= j < i ==> (#[trigger] self@.attrs[j]).0 != name@,
            decreases self.attributes@.len() - i,
        {
            if self.attributes[i].0 == *name {
                proof {
                    assert(self@.attrs[i as int].0 == name@);
                }
                return Some(i);
            }
            proof {
                assert(self@.attrs[i as int].0 == self.attributes@[i as int].0@);
            }
            i += 1;
        }
        None
    }

    /// Copies the coordinate buffer out.
    pub fn get_xyz(&self) -> (r: Vec<Vec<u32>>)
        ensures
            spec_rows(r) == self@.coords,
    {
        copy_rows(&self.xyz)
    }

    /// Copies the intensity buffer out, when one is attached.
    pub fn get_intensity(&self) -> (r: Option<Vec<u32>>)
        ensures
            r is Some <==> self@.intensity is Some,
            r matches Some(v) ==> v@ == self@.intensity->0,
    {
        match &self.intensity {
            Some(v) => Some(copy_u32s(v)),
            None => None,
        }
    }

    /// Copies the intensity buffer out, when one is attached.
    pub fn get_intensity_vec(&self) -> (r: Option<Vec<u32>>)
        ensures
            r is Some <==> self@.intensity is Some,
            r matches Some(v) ==> v@ == self@.intensity->0,
    {
        self.get_intensity()
    }

    /// Copies the three colour channels out, when colour is attached.
    pub fn get_rgb(&self) -> (r: Option<(Vec<u8>, Vec<u8>, Vec<u8>)>)
        ensures
            r is Some <==> self@.rgb is Some,
            r matches Some(c) ==> c.0@ == (self@.rgb->0).0 && c.1@ == (self@.rgb->0).1 && c.2@
                == (self@.rgb->0).2,
    {
        match &self.rgb {
            Some(c) => Some((copy_u8s(&c.0), copy_u8s(&c.1), copy_u8s(&c.2))),
            None => None,
        }
    }

    /// Copies the colour channels out as a red, green, blue list.
    pub fn get_rgb_vec(&self) -> (r: Option<Vec<Vec<u8>>>)
        ensures
            r is Some <==> self@.rgb is Some,
            r matches Some(v) ==> v@.len() == 3 && v@[0]@ == (self@.rgb->0).0 && v@[1]@
                == (self@.rgb->0).1 && v@[2]@ == (self@.rgb->0).2,
    {
        match &self.rgb {
            Some(c) => {
                let mut v: Vec<Vec<u8>> = Vec::new();
                v.push(copy_u8s(&c.0));
                v.push(copy_u8s(&c.1));
                v.push(copy_u8s(&c.2));
                Some(v)
            },
            None => None,
        }
    }

    /// Lists the attached attribute names, in attachment order.
    pub fn attribute_names(&self) -> (r: Vec<String>)
        ensures
            r@.len() == self@.attrs.len(),
            forall|i: int| 0 <= i < r@.len() ==> (#[trigger] r@[i])@ == self@.attrs[i].0,
    {
        let mut names: Vec<String> = Vec::new();
        let mut i: usize = 0;
        while i < self.attributes.len()
            invariant
                i <= self.attributes@.len(),
                self@.attrs.len() == self.attributes@.len(),
                names@.len() == i,
                forall|j: int| 0 <= j < i ==> (#[trigger] names@[j])@ == self@.attrs[j].0,
            decreases self.attributes@.len() - i,
        {
            names.push(self.attributes[i].0.clone());
            i += 1;
        }
        names
    }

    /// Copies an attribute buffer out by name.
    pub fn get_attribute(&self, name: &String) -> (r: Option<Vec<u32>>)
        requires
            self.wf(),
        ensures
            r is Some <==> self@.has_attr(name@),
            r matches Some(v) ==> v@ == self@.attr_value(name@),
    {
        match self.find_attribute(name) {
            Some(i) => {
                proof {
                    lemma_attr_index(self@, name@, i as int);
                }
                Some(copy_u32s(&self.attributes[i].1))
            },
            None => None,
        }
    }

    /// Whether every one of the given names is attached.
    pub fn has_attributes(&self, names: &Vec<String>) -> (r: bool)
        ensures
            r == (forall|i: int|
                0 <= i < names@.len() ==> self@.has_attr(#[trigger] names@[i]@)),
    {
        let mut i: usize = 0;
        while i < names.len()
            invariant
                i <= names@.len(),
                forall|j: int| 0 <= j < i ==> self@.has_attr(#[trigger] names@[j]@),
            decreases names@.len() - i,
        {
            match self.find_attribute(&names[i]) {
                Some(k) => {
                    proof {
                        assert(self@.attrs[k as int].0 == names@[i as int]@);
                        assert(self@.has_attr(names@[i as int]@));
                    }
                },
                None => {
                    return false;
                },
            }
            i += 1;
        }
        true
    }

    /// Lists every attribute's name and buffer length.
    pub fn attribute_info(&self) -> (r: Vec<(String, usize)>)
        ensures
            r@.len() == self@.attrs.len(),
            forall|i: int|
                0 <= i < r@.len() ==> (#[trigger] r@[i]).0@ == self@.attrs[i].0 && r@[i].1
                    == self@.attrs[i].1.len(),
    {
        let mut info: Vec<(String, usize)> = Vec::new();
        let mut i: usize = 0;
        while i < self.attributes.len()
            invariant
                i <= self.attributes@.len(),
                self@.attrs.len() == self.attributes@.len(),
                info@.len() == i,
                forall|j: int|
                    0 <= j < i ==> (#[trigger] info@[j]).0@ == self@.attrs[j].0 && info@[j].1
                        == self@.attrs[j].1.len(),
            decreases self.attributes@.len() - i,
        {
            let entry = (self.attributes[i].0.clone(), self.attributes[i].1.len());
            info.push(entry);
            i += 1;
        }
        info
    }

    /// Estimated bytes held by every live buffer, saturating at the largest
    /// machine size.
    pub fn memory_usage(&self) -> (r: usize)
        ensures
            r as int == spec_capped(spec_memory_usage(self@)),
    {
        let mut total = sat_mul(self.xyz.len(), 12);
        if let Some(v) = &self.intensity {
            total = sat_add(total, sat_mul(v.len(), 4));
        }
        if let Some(c) = &self.rgb {
            total = sat_add(total, sat_mul(c.0.len(), 4));
            total = sat_add(total, sat_mul(c.1.len(), 4));
            total = sat_add(total, sat_mul(c.2.len(), 4));
        }
        let ghost base: int = spec_memory_usage(self@) - spec_attrs_bytes(self@.attrs);
        proof {
            assert(total as int == spec_capped(base));
        }
        let mut i: usize = 0;
        while i < self.attributes.len()
            invariant
                i <= self.attributes@.len(),
                self@.attrs.len() == self.attributes@.len(),
                base == spec_memory_usage(self@) - spec_attrs_bytes(self@.attrs),
                base >= 0,
                total as int == spec_capped(base + spec_attrs_bytes(self@.attrs.take(i as int))),
                spec_attrs_bytes(self@.attrs.take(i as int)) >= 0,
            decreases self.attributes@.len() - i,
        {
            proof {
                assert(self@.attrs.take(i + 1).drop_last() =~= self@.attrs.take(i as int));
                assert(self@.attrs.take(i + 1).last() == self@.attrs[i as int]);
                assert(self@.attrs[i as int].1.len() == self.attributes@[i as int].1@.len());
            }
            total = sat_add(total, sat_mul(self.attributes[i].1.len(), 4));
            i += 1;
        }
        proof {
            assert(self@.attrs.take(self@.attrs.len() as int) =~= self@.attrs);
        }
        total
    }

    /// Copies the whole cloud: same coordinates, optional buffers and
    /// attributes by value.
    pub fn duplicate(&self) -> (r: Self)
        ensures
            r@ == self@,
    {
        let xyz = copy_rows(&self.xyz);
        let intensity = match &self.intensity {
            Some(v) => Some(copy_u32s(v)),
            None => None,
        };
        let rgb = match &self.rgb {
            Some(c) => Some((copy_u8s(&c.0), copy_u8s(&c.1), copy_u8s(&c.2))),
            None => None,
        };
        let mut attributes: Vec<(String, Vec<u32>)> = Vec::new();
        let mut i: usize = 0;
        while i < self.attributes.len()
            invariant
                i <= self.attributes@.len(),
                attributes@.len() == i,
                forall|j: int|
                    0 <= j < i ==> (#[trigger] attributes@[j]).0@ == self.attributes@[j].0@
                        && attributes@[j].1@ == self.attributes@[j].1@,
            decreases self.attributes@.len() - i,
        {
            let entry = (self.attributes[i].0.clone(), copy_u32s(&self.attributes[i].1));
            attributes.push(entry);
            i += 1;
        }
        let r = HighPerformancePointCloud { xyz, intensity, rgb, attributes };
        proof {
            assert(spec_entries(r.attributes) =~= spec_entries(self.attributes));
            assert(r@ =~= self@);
        }
        r
    }

    /// Attaches or replaces the intensity buffer.
    ///
    /// Fails with `DimensionMismatch`, leaving the cloud unchanged, when the
    /// buffer's length is not the point count.
    pub fn set_intensity(&mut self, intensity: Vec<u32>) -> (r: Result<(), PointCloudError>)
        requires
            old(self).wf(),
        ensures
            final(self).wf(),
            r is Ok <==> intensity@.len() == old(self)@.point_count(),
            r is Ok ==> final(self)@ == (CloudModel {
                intensity: Some(intensity@),
                ..old(self)@
            }),
            r is Err ==> final(self)@ == old(self)@ && r->Err_0 == (
            PointCloudError::DimensionMismatch {
                expected: old(self)@.point_count() as usize,
                actual: intensity@.len() as usize,
            }),
    {
        match validate_intensity_shape(&intensity, self.xyz.len()) {
            Err(e) => Err(e),
            Ok(()) => {
                self.intensity = Some(intensity);
                Ok(())
            },
        }
    }

    /// Attaches or replaces the three colour channels atomically.
    ///
    /// The channels are validated in red, green, blue order against the
    /// point count; the first one of the wrong length is reported and the
    /// cloud is left unchanged.
    pub fn set_rgb(&mut self, r: Vec<u8>, g: Vec<u8>, b: Vec<u8>) -> (res: Result<
        (),
        PointCloudError,
    >)
        requires
            old(self).wf(),
        ensures
            final(self).wf(),
            res is Ok <==> r@.len() == old(self)@.point_count() && g@.len() == old(
                self,
            )@.point_count() && b@.len() == old(self)@.point_count(),
            res is Ok ==> final(self)@ == (CloudModel { rgb: Some((r@, g@, b@)), ..old(self)@ }),
            res is Err ==> final(self)@ == old(self)@ && (res->Err_0 matches
                PointCloudError::DimensionMismatch {
                    expected,
                    actual,
                } && expected == old(self)@.point_count()),
    {
        let point_count = self.xyz.len();
        match validate_rgb_channel_shape(&r, point_count) {
            Err(e) => Err(e),
            Ok(()) => match validate_rgb_channel_shape(&g, point_count) {
                Err(e) => Err(e),
                Ok(()) => match validate_rgb_channel_shape(&b, point_count) {
                    Err(e) => Err(e),
                    Ok(()) => {
                        self.rgb = Some((r, g, b));
                        Ok(())
                    },
                },
            },
        }
    }

    /// Detaches the intensity buffer; does nothing when none is attached.
    pub fn remove_intensity(&mut self)
        requires
            old(self).wf(),
        ensures
            final(self).wf(),
            final(self)@ == (CloudModel { intensity: None, ..old(self)@ }),
    {
        self.intensity = None;
    }

    /// Detaches all three colour channels; does nothing when none are
    /// attached.
    pub fn remove_rgb(&mut self)
        requires
            old(self).wf(),
        ensures
            final(self).wf(),
            final(self)@ == (CloudModel { rgb: None, ..old(self)@ }),
    {
        self.rgb = None;
    }

    /// Attaches a new attribute buffer under a name not yet in use.
    ///
    /// An existing name fails with `DuplicateName`; a buffer length other
    /// than the point count fails with `DimensionMismatch`; either failure
    /// leaves the cloud unchanged.
    pub fn add_attribute(&mut self, name: String, data: Vec<u32>) -> (r: Result<
        (),
        PointCloudError,
    >)
        requires
            old(self).wf(),
        ensures
            final(self).wf(),
            r is Ok <==> !old(self)@.has_attr(name@) && data@.len() == old(self)@.point_count(),
            old(self)@.has_attr(name@) ==> r == Err::<(), _>(PointCloudError::DuplicateName)
                && final(self)@ == old(self)@,
            !old(self)@.has_attr(name@) && data@.len() != old(self)@.point_count() ==> r == Err::<
                (),
                _,
            >(
                PointCloudError::DimensionMismatch {
                    expected: old(self)@.point_count() as usize,
                    actual: data@.len() as usize,
                },
            ) && final(self)@ == old(self)@,
            r is Ok ==> final(self)@ == (CloudModel {
                attrs: old(self)@.attrs.push((name@, data@)),
                ..old(self)@
            }),
    {
        match self.find_attribute(&name) {
            Some(i) => {
                proof {
                    assert(self@.has_attr(name@));
                }
                Err(PointCloudError::DuplicateName)
            },
            None => match validate_attribute_shape(&data, self.xyz.len()) {
                Err(e) => Err(e),
                Ok(()) => {
                    let ghost pre = self@;
                    let entry = (name, data);
                    self.attributes.push(entry);
                    proof {
                        assert(spec_entries(self.attributes) =~= pre.attrs.push(
                            (entry.0@, entry.1@),
                        ));
                        assert(self@ =~= (CloudModel {
                            attrs: pre.attrs.push((entry.0@, entry.1@)),
                            ..pre
                        }));
                    }
                    Ok(())
                },
            },
        }
    }

    /// Attaches or replaces an attribute buffer under a name: an upsert.
    ///
    /// Only the buffer length is validated; a wrong length fails with
    /// `DimensionMismatch` and leaves the cloud unchanged.
    pub fn set_attribute(&mut self, name: String, data: Vec<u32>) -> (r: Result<
        (),
        PointCloudError,
    >)
        requires
            old(self).wf(),
        ensures
            final(self).wf(),
            r is Ok <==> data@.len() == old(self)@.point_count(),
            r is Err ==> final(self)@ == old(self)@ && r->Err_0 == (
            PointCloudError::DimensionMismatch {
                expected: old(self)@.point_count() as usize,
                actual: data@.len() as usize,
            }),
            r is Ok && old(self)@.has_attr(name@) ==> final(self)@ == (CloudModel {
                attrs: old(self)@.attrs.update(
                    old(self)@.attr_index(name@),
                    (name@, data@),
                ),
                ..old(self)@
            }),
            r is Ok && !old(self)@.has_attr(name@) ==> final(self)@ == (CloudModel {
                attrs: old(self)@.attrs.push((name@, data@)),
                ..old(self)@
            }),
    {
        match validate_attribute_shape(&data, self.xyz.len()) {
            Err(e) => Err(e),
            Ok(()) => {
                let ghost pre = self@;
                match self.find_attribute(&name) {
                    Some(i) => {
                        proof {
                            lemma_attr_index(pre, name@, i as int);
                        }
                        let entry = (name, data);
                        self.attributes.set(i, entry);
                        proof {
                            assert(spec_entries(self.attributes) =~= pre.attrs.update(
                                i as int,
                                (entry.0@, entry.1@),
                            ));
                            assert(self@ =~= (CloudModel {
                                attrs: pre.attrs.update(i as int, (entry.0@, entry.1@)),
                                ..pre
                            }));
                            assert forall|a: int, b: int|
                                0 <= a < b < self@.attrs.len() implies (
                            #[trigger] self@.attrs[a]).0 != (#[trigger] self@.attrs[b]).0 by {
                                assert(pre.attrs[a].0 != pre.attrs[b].0);
                            }
                        }
                        Ok(())
                    },
                    None => {
                        let entry = (name, data);
                        self.attributes.push(entry);
                        proof {
                            assert(spec_entries(self.attributes) =~= pre.attrs.push(
                                (entry.0@, entry.1@),
                            ));
                            assert(self@ =~= (CloudModel {
                                attrs: pre.attrs.push((entry.0@, entry.1@)),
                                ..pre
                            }));
                        }
                        Ok(())
                    },
                }
            },
        }
    }

    /// Detaches the attribute with the given name.
    ///
    /// Fails with `NotFound`, leaving the cloud unchanged, when no attribute
    /// has that name.
    pub fn remove_attribute(&mut self, name: &String) -> (r: Result<(), PointCloudError>)
        requires
            old(self).wf(),
        ensures
            final(self).wf(),
            r is Ok <==> old(self)@.has_attr(name@),
            r is Err ==> r->Err_0 == PointCloudError::NotFound && final(self)@ == old(self)@,
            r is Ok ==> final(self)@ == (CloudModel {
                attrs: old(self)@.attrs.remove(old(self)@.attr_index(name@)),
                ..old(self)@
            }),
    {
        match self.find_attribute(name) {
            None => Err(PointCloudError::NotFound),
            Some(i) => {
                proof {
                    lemma_attr_index(self@, name@, i as int);
                }
                let ghost pre = self@;
                self.attributes.remove(i);
                proof {
                    assert(spec_entries(self.attributes) =~= pre.attrs.remove(i as int));
                    assert(self@ =~= (CloudModel {
                        attrs: pre.attrs.remove(i as int),
                        ..pre
                    }));
                    assert forall|a: int, b: int| 0 <= a < b < self@.attrs.len() implies (
                    #[trigger] self@.attrs[a]).0 != (#[trigger] self@.attrs[b]).0 by {
                        let a0 = if a < i as int { a } else { a + 1 };
                        let b0 = if b < i as int { b } else { b + 1 };
                        assert(self@.attrs[a] == pre.attrs[a0]);
                        assert(self@.attrs[b] == pre.attrs[b0]);
                        assert(pre.attrs[a0].0 != pre.attrs[b0].0);
                    }
                }
                Ok(())
            },
        }
    }

    /// Detaches every custom attribute.
    pub fn clear_attributes(&mut self)
        requires
            old(self).wf(),
        ensures
            final(self).wf(),
            final(self)@ == (CloudModel {
                attrs: Seq::<(Seq<char>, Seq<u32>)>::empty(),
                ..old(self)@
            }),
    {
        self.attributes.clear();
        proof {
            assert(spec_entries(self.attributes) =~= Seq::<(Seq<char>, Seq<u32>)>::empty());
            assert(self@ =~= (CloudModel {
                attrs: Seq::<(Seq<char>, Seq<u32>)>::empty(),
                ..old(self)@
            }));
        }
    }

    /// Replaces every custom attribute at once.
    ///
    /// Entries are scanned in order: a buffer length other than the point
    /// count fails with `DimensionMismatch`, a name repeating an earlier
    /// entry fails with `DuplicateName`; any failure leaves the cloud
    /// unchanged.
    pub fn set_all_attributes(&mut self, attributes: Vec<(String, Vec<u32>)>) -> (r: Result<
        (),
        PointCloudError,
    >)
        requires
            old(self).wf(),
        ensures
            final(self).wf(),
            r is Ok <==> spec_batch_scan(
                spec_entries(attributes),
                old(self)@.point_count(),
                0,
            ) is None,
            r is Err ==> final(self)@ == old(self)@ && Some(r->Err_0) == spec_batch_scan(
                spec_entries(attributes),
                old(self)@.point_count(),
                0,
            ),
            r is Ok ==> final(self)@ == (CloudModel {
                attrs: spec_entries(attributes),
                ..old(self)@
            }),
    {
        let ghost s = spec_entries(attributes);
        let ghost n = self@.point_count();
        let point_count = self.xyz.len();
        let mut i: usize = 0;
        while i < attributes.len()
            invariant
                *self == *old(self),
                old(self).wf(),
                i <= attributes@.len(),
                s == spec_entries(attributes),
                n == self@.point_count(),
                point_count == n,
                spec_batch_scan(s, n, 0) == spec_batch_scan(s, n, i as int),
            decreases attributes@.len() - i,
        {
            if attributes[i].1.len() != point_count {
                proof {
                    assert(s[i as int].1.len() != n);
                    assert(spec_batch_scan(s, n, i as int) == Some(
                        PointCloudError::DimensionMismatch {
                            expected: n as usize,
                            actual: s[i as int].1.len() as usize,
                        },
                    ));
                }
                return Err(
                    PointCloudError::DimensionMismatch {
                        expected: point_count,
                        actual: attributes[i].1.len(),
                    },
                );
            }
            let mut j: usize = 0;
            while j < i
                invariant
                    *self == *old(self),
                    old(self).wf(),
                    j <= i < attributes@.len(),
                    s == spec_entries(attributes),
                    n == self@.point_count(),
                    point_count == n,
                    s[i as int].1.len() == n,
                    spec_batch_scan(s, n, 0) == spec_batch_scan(s, n, i as int),
                    forall|t: int| 0 <= t < j ==> (#[trigger] s[t]).0 != s[i as int].0,
                decreases i - j,
            {
                if attributes[j].0 == attributes[i].0 {
                    proof {
                        assert(s[j as int].0 == s[i as int].0);
                    }
                    return Err(PointCloudError::DuplicateName);
                }
                proof {
                    assert(s[j as int].0 == attributes@[j as int].0@);
                }
                j += 1;
            }
            proof {
                assert(s[i as int].1.len() == n);
                assert(!(exists|t: int| 0 <= t < i as int && (#[trigger] s[t]).0 == s[i as int].0));
                assert(spec_batch_scan(s, n, i as int) == spec_batch_scan(s, n, i as int + 1));
            }
            i += 1;
        }
        proof {
            assert(spec_batch_scan(s, n, attributes@.len() as int) is None);
            lemma_batch_scan_clean(s, n, 0);
        }
        let ghost pre = self@;
        self.attributes = attributes;
        proof {
            assert(self@ =~= (CloudModel { attrs: s, ..pre }));
        }
        Ok(())
    }
}

/// The empty cloud is the default value.
impl Default for HighPerformancePointCloud {
    fn default() -> (r: Self)
        ensures
            r.wf(),
            r@.coords.len() == 0,
            r@.intensity is None,
            r@.rgb is None,
            r@.attrs.len() == 0,
    {
        HighPerformancePointCloud::new()
    }
}

} // verus!
