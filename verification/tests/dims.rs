use vecfit::dims::{
    auto_pole_schedule, check_initial_poles, check_least_squares, check_model, check_parsed,
    check_pole_count, check_problem, check_sample_matrix, check_shape_channels, check_state_space,
    check_weights_len, ModelSizes,
};
use vecfit::fit::weight_source;
use vecfit::{Shape, VecfitError, WeightSource, WeightStrategy};

fn dimension(r: Result<(), VecfitError>) -> String {
    match r {
        Err(VecfitError::Dimension(m)) => m,
        other => panic!("expected a dimension error, got {other:?}"),
    }
}

fn invalid(r: Result<(), VecfitError>) -> String {
    match r {
        Err(VecfitError::InvalidInput(m)) => m,
        other => panic!("expected an invalid-input error, got {other:?}"),
    }
}

#[test]
fn invalid_model_parts_are_rejected() {
    let shape = Shape::vector(2).expect("vector shape should be valid");
    let sizes = ModelSizes { channels: 2, poles: 1, residues: 2, constant_terms: 1, proportional_terms: 2 };
    let err = dimension(check_model(&sizes, &shape));
    assert!(err.contains("constant term count"));
    assert_eq!(err, "constant term count 1 does not match channel count 2");
}

#[test]
fn model_size_checks() {
    let shape = Shape::vector(2).unwrap();
    let ok = ModelSizes { channels: 2, poles: 3, residues: 6, constant_terms: 2, proportional_terms: 2 };
    assert!(check_model(&ok, &shape).is_ok());
    let none = ModelSizes { channels: 0, ..ok };
    assert_eq!(dimension(check_model(&none, &shape)), "model must have at least one channel");
    let wrong_shape = ModelSizes { channels: 3, residues: 9, constant_terms: 3, proportional_terms: 3, ..ok };
    assert_eq!(
        dimension(check_model(&wrong_shape, &shape)),
        "model shape [2] expects 2 channels but model declares 3"
    );
    let residues = ModelSizes { residues: 5, ..ok };
    assert_eq!(
        dimension(check_model(&residues, &shape)),
        "model residue count 5 does not match 3 poles x 2 channels"
    );
    let prop = ModelSizes { proportional_terms: 1, ..ok };
    assert_eq!(
        dimension(check_model(&prop, &shape)),
        "proportional term count 1 does not match channel count 2"
    );
    let huge = ModelSizes { channels: 1, poles: usize::MAX, residues: 0, constant_terms: 1, proportional_terms: 1 };
    assert!(check_model(&huge, &Shape::scalar()).is_ok() == false);
    let big = ModelSizes { channels: 2, poles: usize::MAX, residues: 0, constant_terms: 2, proportional_terms: 2 };
    assert_eq!(invalid(check_model(&big, &shape)), "model residue matrix is too large");
}

#[test]
fn invalid_state_space_returns_error_instead_of_panicking() {
    let err = dimension(check_state_space(1, 2, 2, 2));
    assert_eq!(err, "state-space A length 1 does not match 2x2");
    assert!(check_state_space(4, 2, 2, 2).is_ok());
    assert_eq!(dimension(check_state_space(4, 1, 2, 2)), "state-space B length 1 does not match n_states 2");
    assert_eq!(dimension(check_state_space(4, 2, 3, 2)), "state-space C length 3 does not match n_states 2");
    assert_eq!(invalid(check_state_space(0, 0, 0, usize::MAX)), "state-space matrix is too large");
}

#[test]
fn underdetermined_fit_returns_error_instead_of_panicking() {
    let err = invalid(check_least_squares(3, 4));
    assert_eq!(
        err,
        "least-squares system is underdetermined (3 rows for 4 unknowns); provide more samples or reduce the number of fitted terms"
    );
    assert!(check_least_squares(4, 4).is_ok());
}

#[test]
fn fit_rejects_zero_poles() {
    assert_eq!(invalid(check_pole_count(0)), "poles must be at least 1");
    assert!(check_pole_count(1).is_ok());
    assert_eq!(invalid(check_initial_poles(2, 3)), "initial pole count 2 does not match poles 3");
    assert!(check_initial_poles(3, 3).is_ok());
}

#[test]
fn fit_rejects_invalid_option_weights() {
    assert_eq!(dimension(check_weights_len(10, 20)), "weights length 10 does not match sample length 20");
    assert!(check_weights_len(20, 20).is_ok());
}

#[test]
fn sample_and_problem_checks() {
    assert_eq!(dimension(check_sample_matrix(0, 0, 1)), "sample matrix must have at least one row");
    assert_eq!(dimension(check_sample_matrix(0, 1, 0)), "sample matrix must have at least one channel");
    assert_eq!(dimension(check_sample_matrix(5, 2, 3)), "sample matrix length 5 does not match 2x3");
    assert!(check_sample_matrix(6, 2, 3).is_ok());

    let shape = Shape::matrix(2, 2).unwrap();
    assert_eq!(invalid(check_problem(0, 0, 4, &shape)), "sample axis cannot be empty");
    assert!(check_problem(3, 3, 4, &shape).is_ok());
    assert_eq!(dimension(check_problem(3, 2, 4, &shape)), "response rows 2 do not match sample length 3");
    assert!(check_problem(3, 3, 3, &shape).is_err());

    assert_eq!(dimension(check_parsed(2, 3, 3)), "frequency_hz length 2 does not match axis length 3");
    assert_eq!(dimension(check_parsed(3, 3, 1)), "sample matrix rows 1 do not match axis length 3");
    assert!(check_parsed(3, 3, 3).is_ok());

    assert_eq!(
        dimension(check_shape_channels(&shape, 3)),
        "shape [2, 2] expects 4 channels but data has 3"
    );
    assert!(check_shape_channels(&shape, 4).is_ok());
}

#[test]
fn auto_pole_schedules() {
    assert_eq!(auto_pole_schedule(2, 30, false), (2..=30).step_by(2).collect::<Vec<_>>());
    assert_eq!(auto_pole_schedule(0, 3, true), vec![1, 2, 3]);
    assert_eq!(auto_pole_schedule(5, 1, false), vec![5]);
    assert_eq!(auto_pole_schedule(3, 8, false), vec![3, 5, 7]);
}

#[test]
fn weight_sources() {
    assert_eq!(weight_source(true, true, WeightStrategy::InverseMagnitude), WeightSource::Problem);
    assert_eq!(weight_source(false, true, WeightStrategy::Uniform), WeightSource::Options);
    assert_eq!(weight_source(false, false, WeightStrategy::InverseMagnitude), WeightSource::InverseMagnitude);
    assert_eq!(weight_source(false, false, WeightStrategy::Uniform), WeightSource::Unweighted);
}
