use ses::error::SesError;
use ses::pipeline::{atom_count, bounds_of, first_step, step_after_sas, Step};
use ses::rank::{positive_finite, RANK_INFINITY};

#[test]
fn lengths_that_fit_give_the_atom_count() {
    assert_eq!(atom_count(0, 0), Ok(0));
    assert_eq!(atom_count(3, 1), Ok(1));
    assert_eq!(atom_count(6, 2), Ok(2));
    assert_eq!(atom_count(300, 100), Ok(100));
}

#[test]
fn centers_must_come_in_triples() {
    assert_eq!(atom_count(1, 0), Err(SesError::InvalidCenterLength));
    assert_eq!(atom_count(4, 1), Err(SesError::InvalidCenterLength));
    assert_eq!(atom_count(5, 5), Err(SesError::InvalidCenterLength));
}

#[test]
fn radii_must_match_centers() {
    assert_eq!(atom_count(3, 2), Err(SesError::RadiiMismatch));
    assert_eq!(atom_count(3, 0), Err(SesError::RadiiMismatch));
    assert_eq!(atom_count(0, 1), Err(SesError::RadiiMismatch));
}

#[test]
fn first_step_of_the_pipeline() {
    assert_eq!(first_step(0, 0), Ok(Step::ReturnEmpty));
    assert_eq!(first_step(3, 1), Ok(Step::ExtractSas));
    assert_eq!(first_step(2, 1), Err(SesError::InvalidCenterLength));
    assert_eq!(first_step(3, 2), Err(SesError::RadiiMismatch));
}

#[test]
fn step_after_the_accessible_surface() {
    assert_eq!(step_after_sas(10, true), Step::ReturnSas);
    assert_eq!(step_after_sas(0, true), Step::ReturnSas);
    assert_eq!(step_after_sas(0, false), Step::ReturnSas);
    assert_eq!(step_after_sas(10, false), Step::ExtractSes);
}

#[test]
fn bounds_are_the_extremes_of_the_centers() {
    let centers = vec![5, -2, 7, -3, 4, 7, 0, 9, -8];
    let radii = vec![3, 12, 6];
    let b = bounds_of(&centers, &radii);
    assert_eq!(b.min, (-3, -2, -8));
    assert_eq!(b.max, (5, 9, 7));
    assert_eq!(b.max_radius, 12);
}

#[test]
fn bounds_of_nothing_are_inside_out() {
    let b = bounds_of(&Vec::new(), &Vec::new());
    assert_eq!(RANK_INFINITY, 0x7f80_0000);
    assert_eq!(b.min, (RANK_INFINITY, RANK_INFINITY, RANK_INFINITY));
    assert_eq!(b.max, (-RANK_INFINITY, -RANK_INFINITY, -RANK_INFINITY));
    assert_eq!(b.max_radius, 0);
}

#[test]
fn the_largest_radius_is_never_negative() {
    let b = bounds_of(&vec![1, 2, 3], &vec![-4]);
    assert_eq!(b.max_radius, 0);
    assert_eq!(b.min, (1, 2, 3));
    assert_eq!(b.max, (1, 2, 3));
}

#[test]
fn positive_finite_ranks() {
    assert!(positive_finite(1));
    assert!(positive_finite(0x3fb3_3333));
    assert!(positive_finite(RANK_INFINITY - 1));
    assert!(!positive_finite(0));
    assert!(!positive_finite(-1));
    assert!(!positive_finite(RANK_INFINITY));
    assert!(!positive_finite(i32::MAX));
    assert!(!positive_finite(i32::MIN));
}
