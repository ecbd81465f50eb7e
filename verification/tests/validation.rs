//! Tests of trial validation, program assembly and solution decoding,
//! exercising the library on plain fixed-point values.

use rate_law::decode::decode_solution;
use rate_law::decode::FitResult;
use rate_law::decode::SolverOutcome;
use rate_law::milp::build_program;
use rate_law::milp::LogTrial;
use rate_law::trials::validate_trials;
use rate_law::trials::FitError;
use rate_law::trials::Trial;
use rate_law::trials::SCALE;

fn trial(rate: i64, cons: &[i64]) -> Trial {
    Trial { rate, cons: cons.to_vec() }
}

fn log_trial(ln_rate: i64, ln_cons: &[i64]) -> LogTrial {
    LogTrial { ln_rate, ln_cons: ln_cons.to_vec() }
}

#[test]
fn validate_accepts_consistent_positive_trials() {
    let ts = vec![trial(136, &[420, 122]), trial(34, &[210, 122])];
    assert_eq!(validate_trials(&ts), Ok(2));
}

#[test]
fn validate_rejects_empty_trial_list() {
    let ts: Vec<Trial> = Vec::new();
    assert_eq!(validate_trials(&ts), Err(FitError::InvalidInput));
}

#[test]
fn validate_rejects_zero_species() {
    let ts = vec![trial(136, &[])];
    assert_eq!(validate_trials(&ts), Err(FitError::InvalidInput));
}

#[test]
fn validate_rejects_mismatched_lengths() {
    let ts = vec![trial(136, &[420, 122]), trial(34, &[210])];
    assert_eq!(validate_trials(&ts), Err(FitError::InvalidInput));
}

#[test]
fn validate_rejects_zero_concentration() {
    let ts = vec![trial(136, &[420, 0])];
    assert_eq!(validate_trials(&ts), Err(FitError::InvalidInput));
}

#[test]
fn validate_rejects_negative_concentration() {
    let ts = vec![trial(136, &[-420, 122])];
    assert_eq!(validate_trials(&ts), Err(FitError::InvalidInput));
}

#[test]
fn validate_rejects_nonpositive_rate() {
    let ts = vec![trial(0, &[420, 122])];
    assert_eq!(validate_trials(&ts), Err(FitError::InvalidInput));
}

#[test]
fn build_lays_out_the_expected_program() {
    // Two trials over two species: variables are errorPlus[0..2],
    // errorMinus[2..4], order[4..6], logK[6].
    let ts = vec![log_trial(-100, &[11, 22]), log_trial(-200, &[33, 44])];
    let p = build_program(&ts, 0, 5).unwrap();
    assert_eq!(p.num_trials, 2);
    assert_eq!(p.num_species, 2);
    assert_eq!(p.objective, vec![SCALE, SCALE, SCALE, SCALE, 0, 0, 0]);
    assert_eq!(
        p.lower_bounds,
        vec![Some(0), Some(0), Some(0), Some(0), Some(-5 * SCALE), Some(-5 * SCALE), Some(0)]
    );
    assert_eq!(
        p.upper_bounds,
        vec![None, None, None, None, Some(5 * SCALE), Some(5 * SCALE), None]
    );
    assert_eq!(
        p.integer,
        vec![false, false, false, false, true, true, false]
    );
    assert_eq!(p.constraints.len(), 2);
    assert_eq!(p.constraints[0].coeffs, vec![SCALE, 0, -SCALE, 0, 11, 22, SCALE]);
    assert_eq!(p.constraints[0].rhs, -100);
    assert_eq!(p.constraints[1].coeffs, vec![0, SCALE, 0, -SCALE, 33, 44, SCALE]);
    assert_eq!(p.constraints[1].rhs, -200);
}

#[test]
fn build_honours_the_log_k_floor() {
    let ts = vec![log_trial(-100, &[11])];
    let p = build_program(&ts, -5 * SCALE, 10).unwrap();
    assert_eq!(p.lower_bounds, vec![Some(0), Some(0), Some(-10 * SCALE), Some(-5 * SCALE)]);
}

#[test]
fn build_rejects_empty_and_mismatched_trials() {
    let none: Vec<LogTrial> = Vec::new();
    assert!(matches!(build_program(&none, 0, 1000), Err(FitError::InvalidInput)));
    let no_species = vec![log_trial(-100, &[])];
    assert!(matches!(build_program(&no_species, 0, 1000), Err(FitError::InvalidInput)));
    let mismatched = vec![log_trial(-100, &[11, 22]), log_trial(-200, &[33])];
    assert!(matches!(build_program(&mismatched, 0, 1000), Err(FitError::InvalidInput)));
}

#[test]
fn decode_reads_orders_and_log_k() {
    // One trial, two species: values for errorPlus, errorMinus, the two
    // orders (2 and -1 units, slightly off), and logK.
    let vals = vec![0, 0, 2 * SCALE + 7, -SCALE - 3, 987_654_321];
    let r: FitResult = decode_solution(1, 2, &SolverOutcome::Solved(vals)).unwrap();
    assert_eq!(r.orders, vec![2, -1]);
    assert_eq!(r.log_k, 987_654_321);
}

#[test]
fn decode_rounds_within_tolerance_only() {
    // 1.0009 units decodes to 1; 1.002 units is out of tolerance.
    let near = vec![0, 0, SCALE + 900_000, 0];
    let r = decode_solution(1, 1, &SolverOutcome::Solved(near)).unwrap();
    assert_eq!(r.orders, vec![1]);
    let far = vec![0, 0, SCALE + 2_000_000, 0];
    assert_eq!(
        decode_solution(1, 1, &SolverOutcome::Solved(far)),
        Err(FitError::SolverFailure)
    );
}

#[test]
fn decode_rejects_wrong_value_count() {
    let vals = vec![0, 0, SCALE];
    assert_eq!(
        decode_solution(1, 1, &SolverOutcome::Solved(vals)),
        Err(FitError::SolverFailure)
    );
}

#[test]
fn decode_maps_each_failure_outcome() {
    assert_eq!(decode_solution(1, 1, &SolverOutcome::Infeasible), Err(FitError::Infeasible));
    assert_eq!(decode_solution(1, 1, &SolverOutcome::Unbounded), Err(FitError::SolverFailure));
    assert_eq!(decode_solution(1, 1, &SolverOutcome::Failed), Err(FitError::SolverFailure));
    assert_eq!(decode_solution(1, 1, &SolverOutcome::TimedOut), Err(FitError::Timeout));
}
