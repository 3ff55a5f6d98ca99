//! Entity tests: construction, validation, attribute management, accessors.

use pcl_rustic::cloud::HighPerformancePointCloud;
use pcl_rustic::error::PointCloudError;
use pcl_rustic::shape::{
    validate_attribute_shape, validate_intensity_shape, validate_matrix_shape,
    validate_rgb_channel_shape, validate_xyz_shape,
};
use pcl_rustic::table::TableColumnNames;

fn bits_row(xs: &[f32]) -> Vec<u32> {
    xs.iter().map(|x| x.to_bits()).collect()
}

fn bits_rows(rows: &[&[f32]]) -> Vec<Vec<u32>> {
    rows.iter().map(|r| bits_row(r)).collect()
}

fn floats_of(row: &[u32]) -> Vec<f32> {
    row.iter().map(|b| f32::from_bits(*b)).collect()
}

#[test]
fn p1_point_count_tracks_coordinates() {
    let pc = HighPerformancePointCloud::from_xyz(bits_rows(&[
        &[0.0, 0.0, 0.0],
        &[1.0, 2.0, 3.0],
        &[4.0, 5.0, 6.0],
    ]))
    .unwrap();
    assert_eq!(pc.point_count(), 3);
    assert_eq!(pc.get_xyz().len(), 3);

    let mut pc = pc;
    pc.set_intensity(bits_row(&[0.1, 0.2, 0.3])).unwrap();
    assert_eq!(pc.point_count(), 3);
    pc.set_rgb(vec![1, 2, 3], vec![4, 5, 6], vec![7, 8, 9]).unwrap();
    assert_eq!(pc.point_count(), 3);
    pc.add_attribute("height".to_string(), bits_row(&[9.0, 8.0, 7.0]))
        .unwrap();
    assert_eq!(pc.point_count(), 3);
    assert_eq!(pc.get_xyz().len(), pc.point_count());
}

#[test]
fn p2_empty_coordinates_rejected() {
    let r = HighPerformancePointCloud::from_xyz(Vec::new());
    assert_eq!(r.err().unwrap(), PointCloudError::ShapeError);
}

#[test]
fn p2_non_triple_row_rejected() {
    let r = HighPerformancePointCloud::from_xyz(vec![bits_row(&[1.0, 2.0])]);
    assert_eq!(r.err().unwrap(), PointCloudError::ShapeError);
    let r = HighPerformancePointCloud::from_xyz(vec![
        bits_row(&[1.0, 2.0, 3.0]),
        bits_row(&[1.0, 2.0, 3.0, 4.0]),
    ]);
    assert_eq!(r.err().unwrap(), PointCloudError::ShapeError);
}

#[test]
fn p3_mismatched_lengths_leave_cloud_unchanged() {
    let mut pc = HighPerformancePointCloud::from_xyz(bits_rows(&[
        &[0.0, 0.0, 0.0],
        &[1.0, 1.0, 1.0],
    ]))
    .unwrap();
    pc.set_intensity(bits_row(&[0.5, 0.6])).unwrap();
    pc.add_attribute("a".to_string(), bits_row(&[1.0, 2.0])).unwrap();
    let xyz_before = pc.get_xyz();
    let int_before = pc.get_intensity().unwrap();
    let attr_before = pc.get_attribute(&"a".to_string()).unwrap();

    let e = pc.set_intensity(bits_row(&[0.5])).err().unwrap();
    assert_eq!(e, PointCloudError::DimensionMismatch { expected: 2, actual: 1 });
    let e = pc
        .set_rgb(vec![1], vec![2, 3], vec![4, 5])
        .err()
        .unwrap();
    assert_eq!(e, PointCloudError::DimensionMismatch { expected: 2, actual: 1 });
    let e = pc
        .add_attribute("b".to_string(), bits_row(&[1.0, 2.0, 3.0]))
        .err()
        .unwrap();
    assert_eq!(e, PointCloudError::DimensionMismatch { expected: 2, actual: 3 });
    let e = pc
        .set_attribute("a".to_string(), bits_row(&[1.0]))
        .err()
        .unwrap();
    assert_eq!(e, PointCloudError::DimensionMismatch { expected: 2, actual: 1 });

    assert_eq!(pc.get_xyz(), xyz_before);
    assert_eq!(pc.get_intensity().unwrap(), int_before);
    assert_eq!(pc.get_attribute(&"a".to_string()).unwrap(), attr_before);
    assert!(!pc.has_rgb());
    assert_eq!(pc.attribute_names().len(), 1);
}

#[test]
fn p4_duplicate_add_fails_set_overwrites() {
    let mut pc =
        HighPerformancePointCloud::from_xyz(bits_rows(&[&[0.0, 0.0, 0.0]])).unwrap();
    pc.add_attribute("temp".to_string(), bits_row(&[20.0])).unwrap();
    let e = pc
        .add_attribute("temp".to_string(), bits_row(&[30.0]))
        .err()
        .unwrap();
    assert_eq!(e, PointCloudError::DuplicateName);
    assert_eq!(
        floats_of(&pc.get_attribute(&"temp".to_string()).unwrap()),
        vec![20.0]
    );
    pc.set_attribute("temp".to_string(), bits_row(&[30.0])).unwrap();
    assert_eq!(
        floats_of(&pc.get_attribute(&"temp".to_string()).unwrap()),
        vec![30.0]
    );
    assert_eq!(pc.attribute_names().len(), 1);
}

#[test]
fn attribute_removal_and_lookup() {
    let mut pc =
        HighPerformancePointCloud::from_xyz(bits_rows(&[&[0.0, 0.0, 0.0]])).unwrap();
    assert!(pc.get_attribute(&"nope".to_string()).is_none());
    let e = pc.remove_attribute(&"nope".to_string()).err().unwrap();
    assert_eq!(e, PointCloudError::NotFound);
    pc.add_attribute("a".to_string(), bits_row(&[1.0])).unwrap();
    pc.add_attribute("b".to_string(), bits_row(&[2.0])).unwrap();
    assert!(pc.has_attributes(&vec!["a".to_string(), "b".to_string()]));
    assert!(!pc.has_attributes(&vec!["a".to_string(), "c".to_string()]));
    let info = pc.attribute_info();
    assert_eq!(info.len(), 2);
    assert_eq!(info[0].0, "a");
    assert_eq!(info[0].1, 1);
    pc.remove_attribute(&"a".to_string()).unwrap();
    assert!(pc.get_attribute(&"a".to_string()).is_none());
    assert_eq!(pc.attribute_names(), vec!["b".to_string()]);
    pc.clear_attributes();
    assert!(pc.attribute_names().is_empty());
}

#[test]
fn set_all_attributes_replaces_and_validates() {
    let mut pc = HighPerformancePointCloud::from_xyz(bits_rows(&[
        &[0.0, 0.0, 0.0],
        &[1.0, 1.0, 1.0],
    ]))
    .unwrap();
    pc.add_attribute("old".to_string(), bits_row(&[1.0, 2.0])).unwrap();
    pc.set_all_attributes(vec![
        ("p".to_string(), bits_row(&[1.0, 2.0])),
        ("q".to_string(), bits_row(&[3.0, 4.0])),
    ])
    .unwrap();
    assert_eq!(pc.attribute_names(), vec!["p".to_string(), "q".to_string()]);

    let e = pc
        .set_all_attributes(vec![("r".to_string(), bits_row(&[1.0]))])
        .err()
        .unwrap();
    assert_eq!(e, PointCloudError::DimensionMismatch { expected: 2, actual: 1 });
    assert_eq!(pc.attribute_names(), vec!["p".to_string(), "q".to_string()]);

    let e = pc
        .set_all_attributes(vec![
            ("s".to_string(), bits_row(&[1.0, 2.0])),
            ("s".to_string(), bits_row(&[3.0, 4.0])),
        ])
        .err()
        .unwrap();
    assert_eq!(e, PointCloudError::DuplicateName);
    assert_eq!(pc.attribute_names(), vec!["p".to_string(), "q".to_string()]);
}

#[test]
fn constructors_with_intensity_and_rgb() {
    let xyz = bits_rows(&[&[0.0, 0.0, 0.0], &[1.0, 1.0, 1.0]]);
    let pc = HighPerformancePointCloud::from_xyz_intensity(xyz.clone(), bits_row(&[0.1, 0.9]))
        .unwrap();
    assert!(pc.has_intensity());
    assert!(!pc.has_rgb());

    let e = HighPerformancePointCloud::from_xyz_intensity(xyz.clone(), bits_row(&[0.1]))
        .err()
        .unwrap();
    assert_eq!(e, PointCloudError::DimensionMismatch { expected: 2, actual: 1 });

    let pc = HighPerformancePointCloud::from_xyz_rgb(
        xyz.clone(),
        vec![10, 20],
        vec![30, 40],
        vec![50, 60],
    )
    .unwrap();
    let (r, g, b) = pc.get_rgb().unwrap();
    assert_eq!(r, vec![10, 20]);
    assert_eq!(g, vec![30, 40]);
    assert_eq!(b, vec![50, 60]);
    let rgbv = pc.get_rgb_vec().unwrap();
    assert_eq!(rgbv, vec![vec![10, 20], vec![30, 40], vec![50, 60]]);

    let e = HighPerformancePointCloud::from_xyz_rgb(xyz.clone(), vec![1], vec![2, 3], vec![4, 5])
        .err()
        .unwrap();
    assert_eq!(e, PointCloudError::DimensionMismatch { expected: 2, actual: 1 });

    let pc = HighPerformancePointCloud::from_xyz_intensity_rgb(
        xyz.clone(),
        bits_row(&[0.1, 0.2]),
        vec![1, 2],
        vec![3, 4],
        vec![5, 6],
    )
    .unwrap();
    assert!(pc.has_intensity() && pc.has_rgb());

    let e = HighPerformancePointCloud::from_xyz_intensity_rgb(
        Vec::new(),
        Vec::new(),
        Vec::new(),
        Vec::new(),
        Vec::new(),
    )
    .err()
    .unwrap();
    assert_eq!(e, PointCloudError::ShapeError);
}

#[test]
fn removals_are_idempotent() {
    let mut pc =
        HighPerformancePointCloud::from_xyz(bits_rows(&[&[0.0, 0.0, 0.0]])).unwrap();
    pc.set_intensity(bits_row(&[0.5])).unwrap();
    pc.set_rgb(vec![1], vec![2], vec![3]).unwrap();
    pc.remove_intensity();
    pc.remove_intensity();
    assert!(!pc.has_intensity());
    assert!(pc.get_intensity().is_none());
    assert!(pc.get_intensity_vec().is_none());
    pc.remove_rgb();
    pc.remove_rgb();
    assert!(!pc.has_rgb());
    assert!(pc.get_rgb().is_none());
}

#[test]
fn memory_usage_counts_live_buffers() {
    let mut pc = HighPerformancePointCloud::from_xyz(bits_rows(&[
        &[0.0, 0.0, 0.0],
        &[1.0, 1.0, 1.0],
    ]))
    .unwrap();
    assert_eq!(pc.memory_usage(), 2 * 3 * 4);
    pc.set_intensity(bits_row(&[0.1, 0.2])).unwrap();
    assert_eq!(pc.memory_usage(), 24 + 8);
    pc.set_rgb(vec![1, 2], vec![3, 4], vec![5, 6]).unwrap();
    assert_eq!(pc.memory_usage(), 24 + 8 + 3 * 2 * 4);
    pc.add_attribute("a".to_string(), bits_row(&[1.0, 2.0])).unwrap();
    assert_eq!(pc.memory_usage(), 24 + 8 + 24 + 8);
}

#[test]
fn new_and_default_are_empty() {
    let pc = HighPerformancePointCloud::new();
    assert_eq!(pc.point_count(), 0);
    assert!(!pc.has_intensity());
    assert!(!pc.has_rgb());
    assert!(pc.attribute_names().is_empty());
    let pc: HighPerformancePointCloud = Default::default();
    assert_eq!(pc.point_count(), 0);
    assert_eq!(pc.memory_usage(), 0);
}

#[test]
fn duplicate_copies_everything() {
    let mut pc = HighPerformancePointCloud::from_xyz(bits_rows(&[&[1.0, 2.0, 3.0]])).unwrap();
    pc.set_intensity(bits_row(&[0.7])).unwrap();
    pc.add_attribute("k".to_string(), bits_row(&[5.0])).unwrap();
    let copy = pc.duplicate();
    assert_eq!(copy.get_xyz(), pc.get_xyz());
    assert_eq!(copy.get_intensity(), pc.get_intensity());
    assert_eq!(
        copy.get_attribute(&"k".to_string()),
        pc.get_attribute(&"k".to_string())
    );
}

#[test]
fn shape_validators() {
    assert!(validate_xyz_shape(&bits_rows(&[&[1.0, 2.0, 3.0]])).is_ok());
    assert_eq!(
        validate_xyz_shape(&Vec::new()).err().unwrap(),
        PointCloudError::ShapeError
    );
    assert!(validate_rgb_channel_shape(&vec![1, 2], 2).is_ok());
    assert_eq!(
        validate_rgb_channel_shape(&vec![1], 2).err().unwrap(),
        PointCloudError::DimensionMismatch { expected: 2, actual: 1 }
    );
    assert!(validate_intensity_shape(&bits_row(&[0.1]), 1).is_ok());
    assert!(validate_attribute_shape(&bits_row(&[0.1, 0.2]), 2).is_ok());
    assert_eq!(
        validate_matrix_shape(&bits_rows(&[&[1.0, 0.0, 0.0], &[0.0, 1.0, 0.0], &[0.0, 0.0, 1.0]]))
            .unwrap(),
        (3, 3)
    );
    assert_eq!(
        validate_matrix_shape(&bits_rows(&[&[1.0, 0.0], &[0.0, 1.0]]))
            .err()
            .unwrap(),
        PointCloudError::MatrixError
    );
    assert_eq!(
        validate_matrix_shape(&bits_rows(&[&[1.0, 0.0, 0.0], &[0.0, 1.0], &[0.0, 0.0, 1.0]]))
            .err()
            .unwrap(),
        PointCloudError::MatrixError
    );
}

#[test]
fn table_column_names_resolve() {
    let d = TableColumnNames::default();
    assert_eq!(d.x, "x");
    assert_eq!(d.intensity.as_deref(), Some("intensity"));
    let c = TableColumnNames::resolve(
        Some("east".to_string()),
        None,
        None,
        Some("amp".to_string()),
        None,
        None,
        Some("blue".to_string()),
    );
    assert_eq!(c.x, "east");
    assert_eq!(c.y, "y");
    assert_eq!(c.z, "z");
    assert_eq!(c.intensity.as_deref(), Some("amp"));
    assert_eq!(c.rgb_r.as_deref(), Some("r"));
    assert_eq!(c.rgb_b.as_deref(), Some("blue"));
}
