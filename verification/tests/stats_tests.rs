use plate_prep::stats::{PixelStats, StatsError};

#[test]
fn moments_are_exact() {
    let stats = PixelStats::compute(&[1, 2, 3, 4]).unwrap();
    assert_eq!(stats.count(), 4);
    assert_eq!(stats.sum(), 10);
    assert_eq!(stats.sum_sq(), 30);
}

#[test]
fn extreme_intensities_do_not_overflow() {
    let values = vec![255u8; 100_000];
    let mut values = values;
    values[0] = 0;
    let stats = PixelStats::compute(&values).unwrap();
    assert_eq!(stats.count(), 100_000);
    assert_eq!(stats.sum(), 255 * 99_999);
    assert_eq!(stats.sum_sq(), 65_025 * 99_999);
}

#[test]
fn identical_pixels_are_degenerate() {
    assert_eq!(PixelStats::compute(&[7, 7, 7, 7]), Err(StatsError::Degenerate));
    assert_eq!(PixelStats::compute(&[0; 48]), Err(StatsError::Degenerate));
    assert_eq!(PixelStats::compute(&[255]), Err(StatsError::Degenerate));
}

#[test]
fn one_differing_pixel_is_enough() {
    assert!(PixelStats::compute(&[7, 7, 8, 7]).is_ok());
    assert!(PixelStats::compute(&[7, 7, 7, 6]).is_ok());
}

#[test]
fn no_pixels_are_reported_as_such() {
    assert_eq!(PixelStats::compute(&[]), Err(StatsError::Empty));
}

#[test]
fn centered_values_have_mean_zero_and_unit_variance() {
    let values: [u8; 6] = [3, 250, 17, 17, 96, 0];
    let stats = PixelStats::compute(&values).unwrap();
    let n = stats.count() as i128;
    let spread = n * stats.sum_sq() as i128 - (stats.sum() as i128) * (stats.sum() as i128);
    assert!(spread > 0);
    let centered: Vec<i128> = values.iter().map(|v| stats.center(*v)).collect();
    assert_eq!(centered.iter().sum::<i128>(), 0);
    assert_eq!(centered.iter().map(|c| c * c).sum::<i128>(), n * spread);

    let root = (spread as f64).sqrt();
    let normalized: Vec<f64> = centered.iter().map(|c| *c as f64 / root).collect();
    let mean = normalized.iter().sum::<f64>() / n as f64;
    let variance = normalized.iter().map(|z| (z - mean) * (z - mean)).sum::<f64>() / n as f64;
    assert!(mean.abs() < 1e-12);
    assert!((variance.sqrt() - 1.0).abs() < 1e-12);
}

#[test]
fn centering_is_exact() {
    let stats = PixelStats::compute(&[10, 20, 60]).unwrap();
    assert_eq!(stats.center(10), 3 * 10 - 90);
    assert_eq!(stats.center(20), -30);
    assert_eq!(stats.center(60), 90);
    assert_eq!(stats.center(0), -90);
    assert_eq!(stats.center(255), 3 * 255 - 90);
}

#[test]
fn the_same_statistics_shift_every_array_alike() {
    let stats = PixelStats::compute(&[10, 20, 60, 30]).unwrap();
    let n = stats.count() as i128;
    let sum = stats.sum() as i128;
    for array in [[0u8, 1, 2], [255, 128, 7]] {
        for value in array {
            let centered = stats.center(value);
            assert_eq!((centered + sum) % n, 0);
            assert_eq!((centered + sum) / n, value as i128);
        }
    }
}

#[test]
fn centered_values_agree_with_floating_point_normalization() {
    let values: [u8; 5] = [12, 200, 45, 45, 99];
    let stats = PixelStats::compute(&values).unwrap();
    let n = stats.count() as f64;
    let scaled: Vec<f64> = values.iter().map(|v| *v as f64 / 255.0).collect();
    let mean = scaled.iter().sum::<f64>() / n;
    let sd = (scaled.iter().map(|x| (x - mean) * (x - mean)).sum::<f64>() / n).sqrt();
    let spread = n * stats.sum_sq() as f64 - (stats.sum() as f64) * (stats.sum() as f64);
    for (value, x) in values.iter().zip(&scaled) {
        let exact = stats.center(*value) as f64 / spread.sqrt();
        assert!((exact - (x - mean) / sd).abs() < 1e-9);
    }
}

#[test]
fn whole_arrays_are_centered_with_the_training_statistics() {
    let train: [u8; 4] = [10, 20, 60, 30];
    let test: [u8; 3] = [0, 255, 30];
    let stats = PixelStats::compute(&train).unwrap();
    assert_eq!(stats.center_all(&train), vec![-80, -40, 120, 0]);
    assert_eq!(stats.center_all(&test), vec![-120, 900, 0]);
    assert_eq!(stats.center_all(&[]), Vec::<i128>::new());
    assert_eq!(stats.center_all(&train).iter().sum::<i128>(), 0);
    assert_ne!(stats.center_all(&test).iter().sum::<i128>(), 0);
}
