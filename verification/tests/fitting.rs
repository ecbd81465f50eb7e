//! End-to-end fits: the library assembles the program, the microlp solver
//! of good_lp solves it, and the library decodes the answer.

use good_lp::variable;
use good_lp::Expression;
use good_lp::ProblemVariables;
use good_lp::ResolutionError;
use good_lp::Solution;
use good_lp::SolverModel;

use rate_law::decode::decode_solution;
use rate_law::decode::SolverOutcome;
use rate_law::milp::build_program;
use rate_law::milp::LogTrial;
use rate_law::trials::validate_trials;
use rate_law::trials::FitError;
use rate_law::trials::Trial;
use rate_law::trials::MAX_SPECIES;
use rate_law::trials::MAX_TRIALS;

const UNIT: f64 = 1e9;

fn to_fixed(x: f64) -> i64 {
    (x * UNIT).round() as i64
}

/// Runs the whole pipeline on floating-point observations and returns the
/// fitted rate constant, the integer orders, and the achieved objective
/// (total slack, in log units).
fn fit(data: &[(f64, Vec<f64>)]) -> Result<(f64, Vec<i64>, f64), FitError> {
    let trials: Vec<Trial> = data
        .iter()
        .map(|(r, cs)| Trial { rate: to_fixed(*r), cons: cs.iter().map(|c| to_fixed(*c)).collect() })
        .collect();
    let species = validate_trials(&trials)?;
    let log_trials: Vec<LogTrial> = data
        .iter()
        .map(|(r, cs)| LogTrial {
            ln_rate: to_fixed(r.ln()),
            ln_cons: cs.iter().map(|c| to_fixed(c.ln())).collect(),
        })
        .collect();
    assert!(log_trials.len() <= MAX_TRIALS && species <= MAX_SPECIES);
    let p = build_program(&log_trials, 0, 1000)?;

    let mut vars = ProblemVariables::new();
    let mut vlist = Vec::new();
    for j in 0..p.objective.len() {
        let mut def = variable();
        if p.integer[j] {
            def = def.integer();
        }
        if let Some(b) = p.lower_bounds[j] {
            def = def.min(b as f64 / UNIT);
        }
        if let Some(b) = p.upper_bounds[j] {
            def = def.max(b as f64 / UNIT);
        }
        vlist.push(vars.add(def));
    }
    let mut objective = Expression::from(0.0);
    for j in 0..vlist.len() {
        objective += Expression::from(vlist[j]) * (p.objective[j] as f64 / UNIT);
    }
    let mut model = vars.minimise(objective).using(good_lp::microlp);
    for c in &p.constraints {
        let mut e = Expression::from(0.0);
        for j in 0..vlist.len() {
            e += Expression::from(vlist[j]) * (c.coeffs[j] as f64 / UNIT);
        }
        model = model.with(e.eq(c.rhs as f64 / UNIT));
    }
    let outcome = match model.solve() {
        Ok(sol) => SolverOutcome::Solved(vlist.iter().map(|v| to_fixed(sol.value(*v))).collect()),
        Err(ResolutionError::Infeasible) => SolverOutcome::Infeasible,
        Err(ResolutionError::Unbounded) => SolverOutcome::Unbounded,
        Err(_) => SolverOutcome::Failed,
    };
    let res = decode_solution(trials.len(), species, &outcome)?;
    let slack_total = match &outcome {
        SolverOutcome::Solved(vals) => {
            vals[..2 * trials.len()].iter().map(|v| *v as f64 / UNIT).sum()
        }
        _ => 0.0,
    };
    Ok(((res.log_k as f64 / UNIT).exp(), res.orders, slack_total))
}

fn sample_trials() -> Vec<(f64, Vec<f64>)> {
    vec![
        (0.136, vec![0.420, 0.122]),
        (0.0339, vec![0.210, 0.122]),
        (0.0678, vec![0.21, 0.244]),
        (0.0339, vec![0.105, 0.488]),
    ]
}

#[test]
fn round_trip_recovers_orders_and_rate_constant() {
    // Noise-free synthetic data for k0 = 1.5, orders (2, 1), with more
    // trials than species: the fit must recover both exactly.
    let k0 = 1.5;
    let cons = [(0.5, 0.25), (1.0, 0.5), (2.0, 0.8), (0.7, 1.3)];
    let data: Vec<(f64, Vec<f64>)> = cons
        .iter()
        .map(|&(c1, c2)| (k0 * c1 * c1 * c2, vec![c1, c2]))
        .collect();
    let (k, orders, slack) = fit(&data).unwrap();
    assert_eq!(orders, vec![2, 1]);
    assert!((k - k0).abs() < 1e-6, "k = {k}");
    assert!(slack.abs() < 1e-6, "slack = {slack}");
}

#[test]
fn objective_is_nonnegative() {
    let (_, _, slack) = fit(&sample_trials()).unwrap();
    assert!(slack >= 0.0);
    let noisy = vec![
        (0.2, vec![0.5, 0.25]),
        (1.0, vec![1.0, 0.5]),
        (3.3, vec![2.0, 0.8]),
        (0.9, vec![0.7, 1.3]),
    ];
    let (_, _, slack2) = fit(&noisy).unwrap();
    assert!(slack2 >= 0.0);
}

#[test]
fn fit_is_invariant_to_trial_order() {
    let data = sample_trials();
    let (k1, o1, _) = fit(&data).unwrap();
    let mut reversed = data.clone();
    reversed.reverse();
    let (k2, o2, _) = fit(&reversed).unwrap();
    assert_eq!(o1, o2);
    assert!((k1 - k2).abs() < 1e-6);
    let mut rotated = data.clone();
    rotated.rotate_left(2);
    let (k3, o3, _) = fit(&rotated).unwrap();
    assert_eq!(o1, o3);
    assert!((k1 - k3).abs() < 1e-6);
}

#[test]
fn fit_rejects_malformed_input() {
    let mismatched = vec![(0.136, vec![0.420, 0.122]), (0.0339, vec![0.210])];
    assert_eq!(fit(&mismatched), Err(FitError::InvalidInput));
    let nonpositive = vec![(0.136, vec![0.420, 0.0]), (0.0339, vec![0.210, 0.122])];
    assert_eq!(fit(&nonpositive), Err(FitError::InvalidInput));
}

#[test]
fn sample_scenario_solves_to_second_and_first_order() {
    // Three of the four sample trials agree on k = rate / (c1^2 * c2)
    // exactly; the first deviates a little, so the total slack is small
    // but not zero.
    let (k, orders, slack) = fit(&sample_trials()).unwrap();
    assert_eq!(orders, vec![2, 1]);
    let expected_k = 0.0339 / (0.21 * 0.21 * 0.122);
    assert!((k - expected_k).abs() < 1e-3, "k = {k}");
    assert!(slack >= 0.0 && slack < 0.01, "slack = {slack}");
}

#[test]
fn single_species_degenerate_case() {
    let k0 = 2.0;
    let data: Vec<(f64, Vec<f64>)> = [0.5, 1.0, 1.5, 2.0]
        .iter()
        .map(|&c| (k0 * c * c * c, vec![c]))
        .collect();
    let (k, orders, slack) = fit(&data).unwrap();
    assert_eq!(orders, vec![3]);
    assert!((k - k0).abs() < 1e-6, "k = {k}");
    assert!(slack.abs() < 1e-6, "slack = {slack}");
}
