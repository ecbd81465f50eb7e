//! Decoding of a solver's answer into domain terms.
//!
//! A solver hands back one fixed-point value per decision variable, in the
//! layout of [`crate::milp`]. Each solved `order` variable must sit within
//! a small tolerance of a whole number of units — it was declared integer,
//! so a larger deviation marks a solver fault, not data to truncate — and
//! `logK` is passed through for the caller to exponentiate.

use vstd::prelude::*;

use crate::milp::num_vars_spec;
use crate::trials::FitError;
use crate::trials::MAX_SPECIES;
use crate::trials::MAX_TRIALS;
use crate::trials::SCALE;

verus! {

/// How far, in billionths, a solved `order` value may sit from a whole
/// number of units and still decode (one thousandth of a unit).
pub const ORDER_TOL: i64 = 1_000_000;

/// What the solver reported for the assembled program.
#[derive(Debug, Clone)]
pub enum SolverOutcome {
    /// A feasible optimum: the value of every decision variable, in layout
    /// order, in billionths of a unit.
    Solved(Vec<i64>),
    /// The constraints admit no assignment.
    Infeasible,
    /// The objective can be driven down without bound.
    Unbounded,
    /// The solver failed for an internal reason.
    Failed,
    /// The solver hit the caller's deadline.
    TimedOut,
}

/// The fitted rate law.
#[derive(Debug, Clone, PartialEq, Eq)]
pub struct FitResult {
    /// `ln` of the fitted rate constant, in billionths; the rate constant
    /// itself is its exponential.
    pub log_k: i64,
    /// Fitted integer reaction order of each species, aligned with the
    /// concentration ordering of the input trials.
    pub orders: Vec<i64>,
}

/// The fixed-point value `v` sits within [`ORDER_TOL`] of the whole number
/// of units `n`.
pub open spec fn within_tol(v: int, n: int) -> bool {
    n * (SCALE as int) - (ORDER_TOL as int) <= v <= n * (SCALE as int) + (ORDER_TOL as int)
}

/// Entry `slot` of a solved value vector is within tolerance of some whole
/// number of units.
pub open spec fn order_slot_ok(vals: Seq<i64>, slot: int) -> bool {
    exists|n: int| #[trigger] within_tol(vals[slot] as int, n)
}

/// A solved value vector decodes: it has one entry per variable, and every
/// `order` entry is within tolerance of some whole number of units.
pub open spec fn solution_decodable(vals: Seq<i64>, tn: int, sn: int) -> bool {
    &&& vals.len() == num_vars_spec(tn, sn)
    &&& forall|j: int| 2 * tn <= j < 2 * tn + sn ==> #[trigger] order_slot_ok(vals, j)
}

/// `res` is the reading of the solved values `vals`: each order is the
/// whole number of units its variable sits at, and `log_k` is the solved
/// `logK` value unchanged.
pub open spec fn decodes_to(vals: Seq<i64>, tn: int, sn: int, res: FitResult) -> bool {
    &&& res.orders@.len() == sn
    &&& forall|s: int|
        0 <= s < sn ==> within_tol(vals[2 * tn + s] as int, #[trigger] res.orders@[s] as int)
    &&& res.log_k == vals[2 * tn + sn]
}

/// At most one whole number of units sits within tolerance of a value, so
/// a decoded order is uniquely determined.
pub proof fn lemma_within_tol_unique(v: int, n1: int, n2: int)
    requires
        within_tol(v, n1),
        within_tol(v, n2),
    ensures
        n1 == n2,
{
    assert(n1 == n2) by (nonlinear_arith)
        requires
            n1 * (SCALE as int) - (ORDER_TOL as int) <= v <= n1 * (SCALE as int) + (
            ORDER_TOL as int),
            n2 * (SCALE as int) - (ORDER_TOL as int) <= v <= n2 * (SCALE as int) + (
            ORDER_TOL as int),
    ;
}

/// Reads one solved `order` value: the whole number of units it sits at,
/// or `None` when no whole number is within tolerance.
fn decode_order(v: i64) -> (r: Option<i64>)
    ensures
        r matches Some(n) ==> within_tol(v as int, n as int),
        r is None ==> forall|n: int| !within_tol(v as int, n),
{
    if v >= 0 {
        let vu: u64 = v as u64;
        let q: u64 = vu / (SCALE as u64);
        let rem: u64 = vu % (SCALE as u64);
        proof {
            vstd::arithmetic::div_mod::lemma_fundamental_div_mod(vu as int, SCALE as int);
        }
        if rem <= ORDER_TOL as u64 {
            Some(q as i64)
        } else if rem >= (SCALE - ORDER_TOL) as u64 {
            Some((q + 1) as i64)
        } else {
            proof {
                assert forall|n: int| !within_tol(v as int, n) by {
                    lemma_no_near_unit(v as int, q as int, rem as int, n);
                }
            }
            None
        }
    } else {
        let m: u64 = (-(v as i128)) as u64;
        let q: u64 = m / (SCALE as u64);
        let rem: u64 = m % (SCALE as u64);
        proof {
            vstd::arithmetic::div_mod::lemma_fundamental_div_mod(m as int, SCALE as int);
        }
        if rem <= ORDER_TOL as u64 {
            Some(-(q as i64))
        } else if rem >= (SCALE - ORDER_TOL) as u64 {
            Some(-((q + 1) as i64))
        } else {
            proof {
                assert forall|n: int| !within_tol(v as int, n) by {
                    lemma_no_near_unit(v as int, -(q as int) - 1, (SCALE as int) - rem, n);
                }
            }
            None
        }
    }
}

/// If `v == q * SCALE + rem` with the remainder strictly between the
/// tolerance bands, no whole number of units is within tolerance of `v`.
proof fn lemma_no_near_unit(v: int, q: int, rem: int, n: int)
    requires
        v == q * (SCALE as int) + rem,
        (ORDER_TOL as int) < rem < (SCALE as int) - (ORDER_TOL as int),
    ensures
        !within_tol(v, n),
{
    if within_tol(v, n) {
        assert(false) by (nonlinear_arith)
            requires
                v == q * (SCALE as int) + rem,
                (ORDER_TOL as int) < rem < (SCALE as int) - (ORDER_TOL as int),
                n * (SCALE as int) - (ORDER_TOL as int) <= v <= n * (SCALE as int) + (
                ORDER_TOL as int),
        ;
    }
}

/// Maps the solver's outcome for a program over `num_trials` trials and
/// `num_species` species to the fitted rate law, or to the error naming
/// what went wrong: `Infeasible` for contradictory constraints, `Timeout`
/// for a missed deadline, and `SolverFailure` both for an internal solver
/// error and for solved values that do not decode.
#[verifier::loop_isolation(false)]
pub fn decode_solution(num_trials: usize, num_species: usize, outcome: &SolverOutcome) -> (r:
    Result<FitResult, FitError>)
    requires
        0 < num_trials <= MAX_TRIALS,
        0 < num_species <= MAX_SPECIES,
    ensures
        outcome matches SolverOutcome::Solved(vals) ==> {
            &&& r is Ok <==> solution_decodable(vals@, num_trials as int, num_species as int)
            &&& r matches Ok(res) ==> decodes_to(vals@, num_trials as int, num_species as int, res)
            &&& r matches Err(e) ==> e == FitError::SolverFailure
        },
        outcome is Infeasible ==> r == Result::<FitResult, FitError>::Err(FitError::Infeasible),
        outcome is Unbounded ==> r == Result::<FitResult, FitError>::Err(FitError::SolverFailure),
        outcome is Failed ==> r == Result::<FitResult, FitError>::Err(FitError::SolverFailure),
        outcome is TimedOut ==> r == Result::<FitResult, FitError>::Err(FitError::Timeout),
{
    match outcome {
        SolverOutcome::Infeasible => Err(FitError::Infeasible),
        SolverOutcome::Unbounded => Err(FitError::SolverFailure),
        SolverOutcome::Failed => Err(FitError::SolverFailure),
        SolverOutcome::TimedOut => Err(FitError::Timeout),
        SolverOutcome::Solved(vals) => {
            let nv = 2 * num_trials + num_species + 1;
            if vals.len() != nv {
                return Err(FitError::SolverFailure);
            }
            let mut orders: Vec<i64> = Vec::new();
            let mut s: usize = 0;
            while s < num_species
                invariant
                    s <= num_species,
                    orders@.len() == s,
                    forall|k: int|
                        0 <= k < s ==> within_tol(
                            vals@[2 * num_trials + k] as int,
                            #[trigger] orders@[k] as int,
                        ),
                decreases num_species - s,
            {
                match decode_order(vals[2 * num_trials + s]) {
                    Some(n) => orders.push(n),
                    None => {
                        proof {
                            assert(!order_slot_ok(vals@, 2 * (num_trials as int) + s));
                        }
                        return Err(FitError::SolverFailure);
                    },
                }
                s += 1;
            }
            proof {
                assert forall|j: int|
                    2 * (num_trials as int) <= j < 2 * (num_trials as int)
                        + num_species implies #[trigger] order_slot_ok(vals@, j) by {
                    assert(within_tol(
                        vals@[j] as int,
                        orders@[j - 2 * (num_trials as int)] as int,
                    ));
                };
            }
            Ok(FitResult { log_k: vals[2 * num_trials + num_species], orders })
        },
    }
}

} // verus!
