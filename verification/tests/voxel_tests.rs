//! Voxel downsampling tests: grouping, strategies, ordering and edge cases.

use pcl_rustic::bits::{le_zero_bits, lt_bits};
use pcl_rustic::cloud::HighPerformancePointCloud;
use pcl_rustic::error::PointCloudError;
use pcl_rustic::voxel::{
    compute_voxel_centroid, find_closest_to_centroid, group_points_by_voxel,
    CentroidSampleStrategy, DownsampleStrategy, RandomSampleStrategy,
};

fn bits_row(xs: &[f32]) -> Vec<u32> {
    xs.iter().map(|x| x.to_bits()).collect()
}

fn bits_rows(rows: &[&[f32]]) -> Vec<Vec<u32>> {
    rows.iter().map(|r| bits_row(r)).collect()
}

fn floats_of(row: &[u32]) -> Vec<f32> {
    row.iter().map(|b| f32::from_bits(*b)).collect()
}

fn four_points() -> Vec<Vec<u32>> {
    bits_rows(&[
        &[0.1, 0.1, 0.1],
        &[0.2, 0.2, 0.2],
        &[1.1, 1.1, 1.1],
        &[1.2, 1.2, 1.2],
    ])
}

#[test]
fn test_voxel_downsample() {
    let xyz = four_points();

    let pc = HighPerformancePointCloud::from_xyz(xyz).unwrap();
    let strategy = CentroidSampleStrategy;
    let downsampled = pc.voxel_downsample(1.0f32.to_bits(), strategy).unwrap();

    assert!(downsampled.point_count() <= pc.point_count());
}

#[test]
fn p8_two_voxels_two_representatives() {
    let pc = HighPerformancePointCloud::from_xyz(four_points()).unwrap();
    let out = pc
        .voxel_downsample(1.0f32.to_bits(), RandomSampleStrategy)
        .unwrap();
    assert_eq!(out.point_count(), 2);
    let rows: Vec<Vec<f32>> = out.get_xyz().iter().map(|r| floats_of(r)).collect();
    assert!(rows[0] == vec![0.1, 0.1, 0.1] || rows[0] == vec![0.2, 0.2, 0.2]);
    assert!(rows[1] == vec![1.1, 1.1, 1.1] || rows[1] == vec![1.2, 1.2, 1.2]);

    let pc = HighPerformancePointCloud::from_xyz(four_points()).unwrap();
    let out = pc
        .voxel_downsample(1.0f32.to_bits(), CentroidSampleStrategy)
        .unwrap();
    assert_eq!(out.point_count(), 2);
}

#[test]
fn p9_centroid_tie_breaks_to_first() {
    let xyz = bits_rows(&[&[0.0, 0.0, 0.0], &[2.0, 0.0, 0.0]]);
    let c = compute_voxel_centroid(&vec![0, 1], &xyz).unwrap();
    assert_eq!(floats_of(&c), vec![1.0, 0.0, 0.0]);
    let picked = find_closest_to_centroid(&vec![0, 1], &xyz).unwrap();
    assert_eq!(picked, 0);
}

#[test]
fn p10_empty_cloud_downsamples_to_empty() {
    let pc = HighPerformancePointCloud::new();
    let out = pc
        .voxel_downsample(0.5f32.to_bits(), RandomSampleStrategy)
        .unwrap();
    assert_eq!(out.point_count(), 0);
}

#[test]
fn p11_nonpositive_voxel_size_rejected() {
    let pc = HighPerformancePointCloud::from_xyz(four_points()).unwrap();
    let e = pc
        .voxel_downsample(0.0f32.to_bits(), RandomSampleStrategy)
        .err()
        .unwrap();
    assert_eq!(e, PointCloudError::InvalidParameter);
    let e = pc
        .voxel_downsample((-1.0f32).to_bits(), CentroidSampleStrategy)
        .err()
        .unwrap();
    assert_eq!(e, PointCloudError::InvalidParameter);
    let empty = HighPerformancePointCloud::new();
    let e = empty
        .voxel_downsample((-0.5f32).to_bits(), RandomSampleStrategy)
        .err()
        .unwrap();
    assert_eq!(e, PointCloudError::InvalidParameter);
}

#[test]
fn p7_distinct_cells_is_identity() {
    let xyz = bits_rows(&[
        &[0.5, 0.5, 0.5],
        &[5.5, 0.5, 0.5],
        &[0.5, 5.5, 0.5],
        &[0.5, 0.5, 5.5],
    ]);
    let pc = HighPerformancePointCloud::from_xyz(xyz.clone()).unwrap();
    let out = pc
        .voxel_downsample(1.0f32.to_bits(), RandomSampleStrategy)
        .unwrap();
    assert_eq!(out.point_count(), 4);
    assert_eq!(out.get_xyz(), xyz);
}

#[test]
fn p7_same_cell_keeps_at_most_one() {
    let xyz = bits_rows(&[&[0.1, 0.1, 0.1], &[0.9, 0.9, 0.9], &[0.2, 0.3, 0.4]]);
    let pc = HighPerformancePointCloud::from_xyz(xyz).unwrap();
    let out = pc
        .voxel_downsample(1.0f32.to_bits(), CentroidSampleStrategy)
        .unwrap();
    assert_eq!(out.point_count(), 1);
}

#[test]
fn grouping_by_cell() {
    let groups = group_points_by_voxel(&four_points(), 1.0f32.to_bits()).unwrap();
    assert_eq!(groups, vec![vec![0, 1], vec![2, 3]]);

    let e = group_points_by_voxel(&Vec::new(), 1.0f32.to_bits())
        .err()
        .unwrap();
    assert_eq!(e, PointCloudError::ShapeError);
    let e = group_points_by_voxel(&four_points(), 0.0f32.to_bits())
        .err()
        .unwrap();
    assert_eq!(e, PointCloudError::InvalidParameter);
    let e = group_points_by_voxel(&vec![bits_row(&[1.0, 2.0])], 1.0f32.to_bits())
        .err()
        .unwrap();
    assert_eq!(e, PointCloudError::ShapeError);
}

#[test]
fn strategies_refuse_empty_cells() {
    let xyz = four_points();
    let e = RandomSampleStrategy
        .select_representative(Vec::new(), &xyz)
        .err()
        .unwrap();
    assert_eq!(e, PointCloudError::EmptyCellError);
    let e = CentroidSampleStrategy
        .select_representative(Vec::new(), &xyz)
        .err()
        .unwrap();
    assert_eq!(e, PointCloudError::EmptyCellError);
    assert_eq!(
        compute_voxel_centroid(&Vec::new(), &xyz).err().unwrap(),
        PointCloudError::EmptyCellError
    );
    assert_eq!(
        find_closest_to_centroid(&vec![0, 99], &xyz).err().unwrap(),
        PointCloudError::InvalidParameter
    );
}

#[test]
fn random_strategy_picks_middle() {
    let xyz = four_points();
    let picked = RandomSampleStrategy
        .select_representative(vec![3, 0, 2], &xyz)
        .unwrap();
    assert_eq!(picked, 0);
    let picked = RandomSampleStrategy
        .select_representative(vec![1, 3], &xyz)
        .unwrap();
    assert_eq!(picked, 3);
    assert_eq!(RandomSampleStrategy.name(), "random");
    assert_eq!(CentroidSampleStrategy.name(), "centroid");
}

#[test]
fn centroid_strategy_picks_nearest() {
    // Candidates 0, 2 and 3: their mean is (1, 0, 0), which is exactly
    // candidate 2, so that index must be picked.
    let xyz = bits_rows(&[
        &[0.0, 0.0, 0.0],
        &[9.5, 9.5, 9.5],
        &[1.0, 0.0, 0.0],
        &[2.0, 0.0, 0.0],
    ]);
    let picked = CentroidSampleStrategy
        .select_representative(vec![0, 2, 3], &xyz)
        .unwrap();
    assert_eq!(picked, 2);
}

#[test]
fn downsample_gathers_synchronised_buffers() {
    let mut pc = HighPerformancePointCloud::from_xyz(four_points()).unwrap();
    pc.set_intensity(bits_row(&[0.1, 0.2, 0.3, 0.4])).unwrap();
    pc.set_rgb(
        vec![10, 20, 30, 40],
        vec![11, 21, 31, 41],
        vec![12, 22, 32, 42],
    )
    .unwrap();
    pc.add_attribute("cls".to_string(), bits_row(&[1.0, 2.0, 3.0, 4.0]))
        .unwrap();
    let out = pc
        .voxel_downsample(1.0f32.to_bits(), RandomSampleStrategy)
        .unwrap();
    assert_eq!(out.point_count(), 2);
    assert!(out.has_intensity());
    assert!(out.has_rgb());
    let (r, _, _) = out.get_rgb().unwrap();
    assert_eq!(r.len(), 2);
    assert!(r[0] == 10 || r[0] == 20);
    assert!(r[1] == 30 || r[1] == 40);
    let a = out.get_attribute(&"cls".to_string()).unwrap();
    assert_eq!(a.len(), 2);
    let af = floats_of(&a);
    assert!(af[0] == 1.0 || af[0] == 2.0);
    assert!(af[1] == 3.0 || af[1] == 4.0);
    // The source is untouched.
    assert_eq!(pc.point_count(), 4);
}

#[test]
fn downsample_handles_non_finite_and_extreme_coordinates() {
    // NaN coordinates group into one cell (their quotient is sent to cell
    // zero per axis), and huge coordinates saturate instead of failing.
    let xyz = bits_rows(&[
        &[f32::NAN, f32::NAN, f32::NAN],
        &[f32::NAN, 0.25, f32::NAN],
        &[1.0e20, -1.0e20, f32::INFINITY],
        &[0.5, 0.5, 0.5],
    ]);
    let pc = HighPerformancePointCloud::from_xyz(xyz).unwrap();
    let out = pc
        .voxel_downsample(1.0f32.to_bits(), RandomSampleStrategy)
        .unwrap();
    assert!(out.point_count() >= 1 && out.point_count() <= 4);

    let pc2 = HighPerformancePointCloud::from_xyz(bits_rows(&[&[1.0, 2.0, 3.0]])).unwrap();
    let out = pc2
        .voxel_downsample((1.0e-30f32).to_bits(), CentroidSampleStrategy)
        .unwrap();
    assert_eq!(out.point_count(), 1);

    // A NaN voxel size is not "less than or equal to zero", so the grid
    // degenerates to one cell instead of failing: one representative.
    let out = pc
        .voxel_downsample(f32::NAN.to_bits(), RandomSampleStrategy)
        .unwrap();
    assert_eq!(out.point_count(), 1);
}

#[test]
fn bit_level_comparisons_match_floats() {
    assert!(le_zero_bits(0.0f32.to_bits()));
    assert!(le_zero_bits((-0.0f32).to_bits()));
    assert!(le_zero_bits((-3.5f32).to_bits()));
    assert!(le_zero_bits(f32::NEG_INFINITY.to_bits()));
    assert!(!le_zero_bits(1.0e-30f32.to_bits()));
    assert!(!le_zero_bits(f32::NAN.to_bits()));

    let samples: [f32; 8] = [-5.5, -0.0, 0.0, 0.25, 1.0, 7.5, f32::INFINITY, f32::NEG_INFINITY];
    for a in samples.iter() {
        for b in samples.iter() {
            assert_eq!(lt_bits(a.to_bits(), b.to_bits()), a < b);
        }
    }
    assert!(!lt_bits(f32::NAN.to_bits(), 1.0f32.to_bits()));
    assert!(!lt_bits(1.0f32.to_bits(), f32::NAN.to_bits()));
}
