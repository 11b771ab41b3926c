use spectrogram::sample::{i16_from_le_bytes, i16_to_le_bytes};
use spectrogram::window::{fit_rows, max_value, partition, BuildError};

#[test]
fn partition_splits_contiguously() {
    let samples: Vec<i16> = vec![1, 2, 3, 4];
    let windows = partition(&samples, 2, 1).unwrap();
    assert_eq!(windows, vec![vec![1, 2], vec![3, 4]]);
}

#[test]
fn partition_exact_fit() {
    let samples: Vec<i16> = vec![5, 6, 7, 8, 9, 10];
    let windows = partition(&samples, 3, 1).unwrap();
    assert_eq!(windows, vec![vec![5, 6], vec![7, 8], vec![9, 10]]);
}

#[test]
fn partition_two_rows() {
    let samples: Vec<i16> = vec![1, 2, 3, 4, 5, 6, 7, 8];
    let windows = partition(&samples, 2, 2).unwrap();
    assert_eq!(windows, vec![vec![1, 2, 3, 4], vec![5, 6, 7, 8]]);
}

#[test]
fn partition_short_sequence_is_an_error() {
    // Three windows of two samples need six samples; four are not silently
    // truncated into fewer windows.
    let samples: Vec<i16> = vec![1, 2, 3, 4];
    assert_eq!(partition(&samples, 3, 1), Err(BuildError::TooFewSamples));
}

#[test]
fn partition_zero_resolution_is_an_error() {
    let samples: Vec<i16> = vec![1, 2, 3, 4];
    assert_eq!(partition(&samples, 0, 1), Err(BuildError::ZeroResolution));
    assert_eq!(partition(&samples, 2, 0), Err(BuildError::ZeroResolution));
}

#[test]
fn partition_empty_samples() {
    let samples: Vec<i16> = vec![];
    assert_eq!(partition(&samples, 1, 1), Err(BuildError::TooFewSamples));
}

#[test]
fn fit_rows_halves_the_samples_per_column() {
    assert_eq!(fit_rows(4, 2), 1);
    assert_eq!(fit_rows(100, 10), 5);
    assert_eq!(fit_rows(7, 2), 1);
    assert_eq!(fit_rows(1, 1), 0);
}

#[test]
fn fit_rows_always_fits() {
    let samples: Vec<i16> = vec![0; 103];
    let columns = 10;
    let rows = fit_rows(samples.len(), columns);
    assert_eq!(rows, 5);
    assert!(partition(&samples, columns, rows).is_ok());
}

#[test]
fn max_value_picks_the_peak() {
    assert_eq!(max_value(&vec![3, 9, 4]), 9);
    assert_eq!(max_value(&vec![7]), 7);
    assert_eq!(max_value(&vec![5, 5]), 5);
    assert_eq!(max_value(&vec![0, 0, 0]), 0);
}

#[test]
fn sample_codec_round_trip() {
    let encoded = i16_to_le_bytes(-2);
    assert_eq!(encoded, vec![0xFE, 0xFF]);
    assert_eq!(i16_from_le_bytes(&encoded), -2);
    let encoded = i16_to_le_bytes(0x0102);
    assert_eq!(encoded, vec![0x02, 0x01]);
    assert_eq!(i16_from_le_bytes(&encoded), 0x0102);
}
