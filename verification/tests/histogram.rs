use rhythm_engine::histogram::{error_bin, error_histogram, highest_bin};

#[test]
fn early_and_late_errors_fall_into_opposite_outer_bins() {
    assert_eq!(error_bin(-100, 150, 3), 2);
    assert_eq!(error_bin(0, 150, 3), 1);
    assert_eq!(error_bin(100, 150, 3), 0);
    assert_eq!(error_histogram(&vec![-100, 0, 100], 150, 3), vec![1, 1, 1]);
}

#[test]
fn bins_have_equal_width() {
    assert_eq!(error_bin(150, 150, 3), 0);
    assert_eq!(error_bin(51, 150, 3), 0);
    assert_eq!(error_bin(50, 150, 3), 1);
    assert_eq!(error_bin(-49, 150, 3), 1);
    assert_eq!(error_bin(-50, 150, 3), 2);
    assert_eq!(error_bin(-149, 150, 3), 2);
    assert_eq!(error_bin(0, 250, 41), 20);
    assert_eq!(error_bin(250, 250, 41), 0);
    assert_eq!(error_bin(-249, 250, 41), 40);
}

#[test]
fn the_late_end_of_the_window_belongs_to_the_last_bin() {
    assert_eq!(error_bin(-150, 150, 3), 2);
    assert_eq!(error_bin(-9000, 150, 3), 2);
    assert_eq!(error_bin(9000, 150, 3), 0);
    assert_eq!(error_bin(i64::MIN, u32::MAX, usize::MAX), usize::MAX - 1);
    assert_eq!(error_bin(i64::MAX, u32::MAX, usize::MAX), 0);
    assert_eq!(error_bin(7, 0, 5), 2);
}

#[test]
fn histogram_counts_every_error_once() {
    let errors = vec![-100, -100, 0, 100, 149, -150, 3, -3, 60];
    let counts = error_histogram(&errors, 150, 3);
    assert_eq!(counts, vec![3, 3, 3]);
    assert_eq!(highest_bin(&counts), 3);
    let counts = error_histogram(&errors, 150, 5);
    assert_eq!(counts, vec![2, 1, 3, 0, 3]);
    assert_eq!(highest_bin(&counts), 3);
    assert_eq!(error_histogram(&Vec::new(), 150, 3), vec![0, 0, 0]);
    assert_eq!(error_histogram(&errors, 150, 0), Vec::<usize>::new());
    assert_eq!(highest_bin(&Vec::new()), 0);
    assert_eq!(highest_bin(&vec![0, 7, 2]), 7);
}
