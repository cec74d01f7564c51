use vivrt::bsdf_grid::{luminance_grid, spectra_grid, spectra_sample, LuminanceGrid, LuminanceShape};

#[test]
fn luminance_shapes() {
    assert_eq!(luminance_grid(&vec![1, 2, 3]), LuminanceShape::Rejected);
    assert_eq!(luminance_grid(&vec![0, 2, 3, 4]), LuminanceShape::Rejected);
    assert_eq!(luminance_grid(&vec![1, 2, 0, 4]), LuminanceShape::Rejected);
    assert_eq!(
        luminance_grid(&vec![1, 3, 5, 4]),
        LuminanceShape::Grid(LuminanceGrid { n_theta: 3, n_u: 5, n_v: 4, normal_index: 10, grazing_index: 50 })
    );
    assert_eq!(
        luminance_grid(&vec![1, 1, 1, 1]),
        LuminanceShape::Grid(LuminanceGrid { n_theta: 1, n_u: 1, n_v: 1, normal_index: 0, grazing_index: 0 })
    );
    assert_eq!(luminance_grid(&vec![1, u64::MAX, 4, 4]), LuminanceShape::Overflow);
}

#[test]
fn spectra_window_and_indices() {
    assert_eq!(spectra_grid(&vec![1, 1, 3, 4], 3), None);
    assert_eq!(spectra_grid(&vec![1, 1, 3, 4, 4], 2), None);
    let g = spectra_grid(&vec![2, 3, 4, 32, 16], 4).unwrap();
    assert_eq!((g.uv_center, g.uv_range), (16, 4));
    // u = 16 - 2 + 1 = 15, v = min(16 - 2 + 3, 15) = 15
    assert_eq!(spectra_sample(&g, 1, 2, 3, 1, 3), Some((((1 * 3 + 2) * 4 + 3) * 32 * 16) + 15 * 16 + 15));
    let small = spectra_grid(&vec![1, 1, 1, 5, 2], 1).unwrap();
    assert_eq!((small.uv_center, small.uv_range), (2, 1));
    assert_eq!(spectra_sample(&small, 0, 0, 0, 0, 0), Some(2 * 2 + 1));
    let empty_u = spectra_grid(&vec![1, 1, 1, 0, 2], 1).unwrap();
    assert_eq!(spectra_sample(&empty_u, 0, 0, 0, 0, 0), None);
    let empty_v = spectra_grid(&vec![1, 1, 1, 4, 0], 1).unwrap();
    assert_eq!(spectra_sample(&empty_v, 0, 0, 0, 0, 0), None);
    let huge = spectra_grid(&vec![1, u64::MAX, 1, 4, 4], 1).unwrap();
    assert_eq!(spectra_sample(&huge, 2, 0, 0, 0, 0), None);
}
