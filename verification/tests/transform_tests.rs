//! Coordinate transform tests: linear maps, homogeneous maps, rigid moves.

use pcl_rustic::cloud::HighPerformancePointCloud;
use pcl_rustic::error::PointCloudError;
use pcl_rustic::transform::homogeneous_to_cartesian;

fn bits_row(xs: &[f32]) -> Vec<u32> {
    xs.iter().map(|x| x.to_bits()).collect()
}

fn bits_rows(rows: &[&[f32]]) -> Vec<Vec<u32>> {
    rows.iter().map(|r| bits_row(r)).collect()
}

fn floats_of(row: &[u32]) -> Vec<f32> {
    row.iter().map(|b| f32::from_bits(*b)).collect()
}

#[test]
fn test_3x3_transform() {
    let xyz = bits_rows(&[&[1.0, 0.0, 0.0], &[0.0, 1.0, 0.0]]);
    let pc = HighPerformancePointCloud::from_xyz(xyz).unwrap();

    let matrix = bits_rows(&[&[2.0, 0.0, 0.0], &[0.0, 2.0, 0.0], &[0.0, 0.0, 2.0]]);

    let result = pc.transform(matrix).unwrap();
    let xyz_result = result.get_xyz();

    assert!(
        (floats_of(&xyz_result[0])[0] - 2.0).abs() < 1e-5,
        "X坐标变换失败"
    );
}

#[test]
fn test_rigid_transform() {
    let xyz = bits_rows(&[&[1.0, 0.0, 0.0]]);
    let pc = HighPerformancePointCloud::from_xyz(xyz).unwrap();

    let rotation = bits_rows(&[&[1.0, 0.0, 0.0], &[0.0, 1.0, 0.0], &[0.0, 0.0, 1.0]]);

    let translation = bits_row(&[1.0, 2.0, 3.0]);

    let result = pc.rigid_transform(rotation, translation).unwrap();
    let xyz_result = result.get_xyz();

    assert!((floats_of(&xyz_result[0])[0] - 2.0).abs() < 1e-5);
    assert!((floats_of(&xyz_result[0])[1] - 2.0).abs() < 1e-5);
    assert!((floats_of(&xyz_result[0])[2] - 3.0).abs() < 1e-5);
}

#[test]
fn p5_identity_4x4_roundtrip() {
    let xyz = bits_rows(&[&[1.5, -2.25, 3.75], &[0.0, 4.5, -8.125]]);
    let pc = HighPerformancePointCloud::from_xyz(xyz.clone()).unwrap();
    let identity = bits_rows(&[
        &[1.0, 0.0, 0.0, 0.0],
        &[0.0, 1.0, 0.0, 0.0],
        &[0.0, 0.0, 1.0, 0.0],
        &[0.0, 0.0, 0.0, 1.0],
    ]);
    let out = pc.transform(identity).unwrap();
    let got = out.get_xyz();
    for (orig, new) in xyz.iter().zip(got.iter()) {
        let of = floats_of(orig);
        let nf = floats_of(new);
        for k in 0..3 {
            assert!((of[k] - nf[k]).abs() < 1e-5);
        }
    }
}

#[test]
fn p5_scale_3x3_multiplies_components() {
    let k = 2.5f32;
    let xyz = bits_rows(&[&[1.0, -2.0, 4.0], &[0.5, 3.0, -1.5]]);
    let pc = HighPerformancePointCloud::from_xyz(xyz.clone()).unwrap();
    let scale = bits_rows(&[&[k, 0.0, 0.0], &[0.0, k, 0.0], &[0.0, 0.0, k]]);
    let out = pc.transform(scale).unwrap();
    let got = out.get_xyz();
    for (orig, new) in xyz.iter().zip(got.iter()) {
        let of = floats_of(orig);
        let nf = floats_of(new);
        for c in 0..3 {
            assert!((nf[c] - k * of[c]).abs() < 1e-5);
        }
    }
}

#[test]
fn p6_identity_rotation_shifts_by_translation() {
    let xyz = bits_rows(&[&[1.0, 2.0, 3.0], &[-4.0, 0.5, 6.0]]);
    let pc = HighPerformancePointCloud::from_xyz(xyz.clone()).unwrap();
    let rotation = bits_rows(&[&[1.0, 0.0, 0.0], &[0.0, 1.0, 0.0], &[0.0, 0.0, 1.0]]);
    let (tx, ty, tz) = (10.0f32, -20.0f32, 0.5f32);
    let out = pc
        .rigid_transform(rotation, bits_row(&[tx, ty, tz]))
        .unwrap();
    let got = out.get_xyz();
    for (orig, new) in xyz.iter().zip(got.iter()) {
        let of = floats_of(orig);
        let nf = floats_of(new);
        assert_eq!(nf[0], of[0] + tx);
        assert_eq!(nf[1], of[1] + ty);
        assert_eq!(nf[2], of[2] + tz);
    }
}

#[test]
fn p12_zero_w_fails_instead_of_infinity() {
    let xyz = bits_rows(&[&[1.0, 2.0, 3.0]]);
    let pc = HighPerformancePointCloud::from_xyz(xyz).unwrap();
    // The last row maps every point's homogeneous component to zero.
    let matrix = bits_rows(&[
        &[1.0, 0.0, 0.0, 0.0],
        &[0.0, 1.0, 0.0, 0.0],
        &[0.0, 0.0, 1.0, 0.0],
        &[0.0, 0.0, 0.0, 0.0],
    ]);
    let e = pc.transform(matrix).err().unwrap();
    assert_eq!(e, PointCloudError::MatrixError);
}

#[test]
fn wrong_matrix_shapes_rejected() {
    let pc = HighPerformancePointCloud::from_xyz(bits_rows(&[&[1.0, 2.0, 3.0]])).unwrap();
    let e = pc
        .transform(bits_rows(&[&[1.0, 0.0], &[0.0, 1.0]]))
        .err()
        .unwrap();
    assert_eq!(e, PointCloudError::MatrixError);
    let e = pc
        .transform(bits_rows(&[&[1.0, 0.0, 0.0], &[0.0, 1.0], &[0.0, 0.0, 1.0]]))
        .err()
        .unwrap();
    assert_eq!(e, PointCloudError::MatrixError);
    let e = pc.transform(Vec::new()).err().unwrap();
    assert_eq!(e, PointCloudError::MatrixError);

    let identity3 = bits_rows(&[&[1.0, 0.0, 0.0], &[0.0, 1.0, 0.0], &[0.0, 0.0, 1.0]]);
    let e = pc
        .rigid_transform(identity3.clone(), bits_row(&[1.0, 2.0]))
        .err()
        .unwrap();
    assert_eq!(e, PointCloudError::MatrixError);
    let id4 = bits_rows(&[
        &[1.0, 0.0, 0.0, 0.0],
        &[0.0, 1.0, 0.0, 0.0],
        &[0.0, 0.0, 1.0, 0.0],
        &[0.0, 0.0, 0.0, 1.0],
    ]);
    let e = pc
        .rigid_transform(id4, bits_row(&[1.0, 2.0, 3.0]))
        .err()
        .unwrap();
    assert_eq!(e, PointCloudError::MatrixError);
}

#[test]
fn transforms_preserve_side_buffers() {
    let mut pc = HighPerformancePointCloud::from_xyz(bits_rows(&[
        &[1.0, 2.0, 3.0],
        &[4.0, 5.0, 6.0],
    ]))
    .unwrap();
    pc.set_intensity(bits_row(&[0.25, 0.75])).unwrap();
    pc.set_rgb(vec![1, 2], vec![3, 4], vec![5, 6]).unwrap();
    pc.add_attribute("w".to_string(), bits_row(&[7.0, 8.0])).unwrap();
    let identity3 = bits_rows(&[&[1.0, 0.0, 0.0], &[0.0, 1.0, 0.0], &[0.0, 0.0, 1.0]]);
    let out = pc.transform(identity3.clone()).unwrap();
    assert_eq!(out.get_intensity(), pc.get_intensity());
    assert_eq!(out.get_rgb(), pc.get_rgb());
    assert_eq!(
        out.get_attribute(&"w".to_string()),
        pc.get_attribute(&"w".to_string())
    );
    let out = pc
        .rigid_transform(identity3, bits_row(&[1.0, 1.0, 1.0]))
        .unwrap();
    assert_eq!(out.get_intensity(), pc.get_intensity());
    assert_eq!(out.get_rgb(), pc.get_rgb());
}

#[test]
fn perspective_divide_is_a_real_division() {
    let h = bits_rows(&[&[6.0, 8.0, 2.0, 2.0], &[1.0, 1.0, 1.0, 4.0]]);
    let c = homogeneous_to_cartesian(&h).unwrap();
    assert_eq!(floats_of(&c[0]), vec![3.0, 4.0, 1.0]);
    assert_eq!(floats_of(&c[1]), vec![0.25, 0.25, 0.25]);

    let h = bits_rows(&[&[6.0, 8.0, 2.0, 0.0]]);
    assert_eq!(
        homogeneous_to_cartesian(&h).err().unwrap(),
        PointCloudError::MatrixError
    );
    let h = bits_rows(&[&[6.0, 8.0, 2.0, -0.0]]);
    assert_eq!(
        homogeneous_to_cartesian(&h).err().unwrap(),
        PointCloudError::MatrixError
    );
}

#[test]
fn transform_of_empty_cloud_keeps_it_empty() {
    let pc = HighPerformancePointCloud::new();
    let identity3 = bits_rows(&[&[1.0, 0.0, 0.0], &[0.0, 1.0, 0.0], &[0.0, 0.0, 1.0]]);
    let out = pc.transform(identity3.clone()).unwrap();
    assert_eq!(out.point_count(), 0);
    let out = pc
        .rigid_transform(identity3, bits_row(&[1.0, 2.0, 3.0]))
        .unwrap();
    assert_eq!(out.point_count(), 0);
}
