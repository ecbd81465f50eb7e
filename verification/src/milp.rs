//! Log-linearization of the rate law and assembly of the mixed-integer
//! linear program.
//!
//! Taking logarithms of `rate = k * prod(con_i ^ order_i)` gives
//! `ln rate = ln k + sum_i order_i * ln con_i`; per-trial slack absorbs the
//! residual, so each trial `t` contributes the equality
//! `errorPlus_t - errorMinus_t + logK + sum_i order_i * lnCon_{t,i} = lnRate_t`
//! and the objective minimises `sum_t (errorPlus_t + errorMinus_t)`.
//!
//! The variables of a program over `T` trials and `S` species are laid out
//! as one vector: `errorPlus` at `0..T`, `errorMinus` at `T..2T`, the
//! integer `order` variables at `2T..2T+S`, and `logK` at `2T+S`. Every
//! coefficient, bound and right-hand side is a fixed-point integer in
//! billionths, so a coefficient of one is written `SCALE`.

use vstd::prelude::*;

use crate::trials::FitError;
use crate::trials::MAX_SPECIES;
use crate::trials::MAX_TRIALS;
use crate::trials::SCALE;

verus! {

/// A trial carried into the logarithmic domain: `ln` of its rate and of
/// each of its concentrations, in billionths of a unit.
#[derive(Debug, Clone)]
pub struct LogTrial {
    /// `ln` of the observed rate, in billionths.
    pub ln_rate: i64,
    /// `ln` of each species' concentration, in billionths.
    pub ln_cons: Vec<i64>,
}

/// One equality constraint: `sum_j coeffs[j] * x[j] == rhs`, coefficients
/// and right-hand side in billionths.
#[derive(Debug, Clone)]
pub struct LinConstraint {
    /// One coefficient per decision variable, in layout order.
    pub coeffs: Vec<i64>,
    /// Right-hand side of the equality.
    pub rhs: i64,
}

/// The assembled mixed-integer linear program, to be minimised.
#[derive(Debug, Clone)]
pub struct LinearProgram {
    /// Number of trials the program was built from.
    pub num_trials: usize,
    /// Number of tracked species.
    pub num_species: usize,
    /// Objective coefficient of each variable, in billionths.
    pub objective: Vec<i64>,
    /// Lower bound of each variable in billionths, `None` if unbounded.
    pub lower_bounds: Vec<Option<i64>>,
    /// Upper bound of each variable in billionths, `None` if unbounded.
    pub upper_bounds: Vec<Option<i64>>,
    /// Whether each variable is restricted to integer values.
    pub integer: Vec<bool>,
    /// One equality constraint per trial, in input order.
    pub constraints: Vec<LinConstraint>,
}

/// Number of decision variables over `tn` trials and `sn` species.
pub open spec fn num_vars_spec(tn: int, sn: int) -> int {
    2 * tn + sn + 1
}

/// A log-domain trial set a program can be built from: non-empty, with at
/// least one species, and every trial reporting the same species count.
pub open spec fn valid_log_trials(ts: Seq<LogTrial>) -> bool {
    &&& ts.len() > 0
    &&& ts[0].ln_cons@.len() > 0
    &&& forall|t: int|
        0 <= t < ts.len() ==> #[trigger] ts[t].ln_cons@.len() == ts[0].ln_cons@.len()
}

/// Objective coefficient of variable `j`: one (`SCALE`) for each slack
/// variable, zero for the orders and for `logK`.
pub open spec fn objective_coeff_spec(tn: int, j: int) -> int {
    if j < 2 * tn {
        SCALE as int
    } else {
        0
    }
}

/// Lower bound of variable `j`: the slacks are non-negative, each integer
/// order is bounded below by `-order_bound` units, and `logK` is floored
/// at `log_k_floor`.
pub open spec fn lower_bound_spec(
    tn: int,
    sn: int,
    log_k_floor: int,
    order_bound: int,
    j: int,
) -> Option<i64> {
    if j < 2 * tn {
        Some(0i64)
    } else if j < 2 * tn + sn {
        Some((-order_bound * (SCALE as int)) as i64)
    } else {
        Some(log_k_floor as i64)
    }
}

/// Upper bound of variable `j`: only the integer orders carry one, at
/// `order_bound` units.
pub open spec fn upper_bound_spec(tn: int, sn: int, order_bound: int, j: int) -> Option<i64> {
    if 2 * tn <= j < 2 * tn + sn {
        Some((order_bound * (SCALE as int)) as i64)
    } else {
        None
    }
}

/// Whether variable `j` is an integer `order` variable.
pub open spec fn is_order_var(tn: int, sn: int, j: int) -> bool {
    2 * tn <= j < 2 * tn + sn
}

/// Coefficient of variable `j` in the constraint of trial `t`:
/// `+1` on `errorPlus_t`, `-1` on `errorMinus_t`, `ln con_{t,i}` on
/// `order_i`, `+1` on `logK`, zero elsewhere.
pub open spec fn coeff_spec(ts: Seq<LogTrial>, t: int, j: int) -> int {
    let tn = ts.len() as int;
    let sn = ts[0].ln_cons@.len() as int;
    if j < tn {
        if j == t {
            SCALE as int
        } else {
            0
        }
    } else if j < 2 * tn {
        if j == tn + t {
            -(SCALE as int)
        } else {
            0
        }
    } else if j < 2 * tn + sn {
        ts[t].ln_cons@[j - 2 * tn] as int
    } else {
        SCALE as int
    }
}

/// The program `p` is exactly the encoding of the log-domain trial set
/// `ts` with the given floor on `logK` and the given bound on the orders.
pub open spec fn program_matches(
    p: LinearProgram,
    ts: Seq<LogTrial>,
    log_k_floor: int,
    order_bound: int,
) -> bool {
    let tn = ts.len() as int;
    let sn = ts[0].ln_cons@.len() as int;
    let nv = num_vars_spec(tn, sn);
    &&& p.num_trials == tn
    &&& p.num_species == sn
    &&& p.objective@.len() == nv
    &&& forall|j: int| 0 <= j < nv ==> #[trigger] p.objective@[j] == objective_coeff_spec(tn, j)
    &&& p.lower_bounds@.len() == nv
    &&& forall|j: int|
        0 <= j < nv ==> #[trigger] p.lower_bounds@[j] == lower_bound_spec(
            tn,
            sn,
            log_k_floor,
            order_bound,
            j,
        )
    &&& p.upper_bounds@.len() == nv
    &&& forall|j: int|
        0 <= j < nv ==> #[trigger] p.upper_bounds@[j] == upper_bound_spec(tn, sn, order_bound, j)
    &&& p.integer@.len() == nv
    &&& forall|j: int| 0 <= j < nv ==> #[trigger] p.integer@[j] == is_order_var(tn, sn, j)
    &&& p.constraints@.len() == tn
    &&& forall|t: int| 0 <= t < tn ==> (#[trigger] p.constraints@[t]).coeffs@.len() == nv
    &&& forall|t: int| 0 <= t < tn ==> (#[trigger] p.constraints@[t]).rhs == ts[t].ln_rate
    &&& forall|t: int, j: int|
        0 <= t < tn && 0 <= j < nv ==> (#[trigger] p.constraints@[t].coeffs@[j]) as int
            == coeff_spec(ts, t, j)
}

/// Largest admissible bound, in units, on the magnitude of a fitted order.
pub const MAX_ORDER_BOUND: i64 = 1_000_000_000;

/// Builds the program encoding the given log-domain trials.
///
/// `log_k_floor`, in billionths, is the lower bound placed on `logK`:
/// zero restricts the fitted rate constant to at least one; callers who
/// do not want that restriction pass the most negative floor they
/// accept. `order_bound`, in units, bounds the
/// magnitude of every fitted order; solvers need a finite range for their
/// integer variables, so the range is explicit rather than an implicit
/// solver default. Returns `InvalidInput` exactly when the trial set is
/// empty, tracks no species, or disagrees on species count.
#[verifier::loop_isolation(false)]
pub fn build_program(trials: &Vec<LogTrial>, log_k_floor: i64, order_bound: i64) -> (r: Result<
    LinearProgram,
    FitError,
>)
    requires
        trials@.len() <= MAX_TRIALS,
        trials@.len() > 0 ==> trials@[0].ln_cons@.len() <= MAX_SPECIES,
        0 < order_bound <= MAX_ORDER_BOUND,
    ensures
        r is Ok <==> valid_log_trials(trials@),
        r matches Err(e) ==> e == FitError::InvalidInput,
        r matches Ok(p) ==> program_matches(p, trials@, log_k_floor as int, order_bound as int),
{
    let tn = trials.len();
    if tn == 0 {
        return Err(FitError::InvalidInput);
    }
    let sn = trials[0].ln_cons.len();
    if sn == 0 {
        return Err(FitError::InvalidInput);
    }
    let mut t: usize = 0;
    while t < tn
        invariant
            t <= tn,
            forall|j: int| 0 <= j < t ==> #[trigger] trials@[j].ln_cons@.len() == sn,
        decreases tn - t,
    {
        if trials[t].ln_cons.len() != sn {
            return Err(FitError::InvalidInput);
        }
        t += 1;
    }
    let nv = 2 * tn + sn + 1;

    let order_cap: i64 = order_bound * SCALE;
    let mut objective: Vec<i64> = Vec::new();
    let mut lower_bounds: Vec<Option<i64>> = Vec::new();
    let mut upper_bounds: Vec<Option<i64>> = Vec::new();
    let mut integer: Vec<bool> = Vec::new();
    let mut j: usize = 0;
    while j < nv
        invariant
            j <= nv,
            objective@.len() == j,
            lower_bounds@.len() == j,
            upper_bounds@.len() == j,
            integer@.len() == j,
            forall|i: int|
                0 <= i < j ==> #[trigger] objective@[i] == objective_coeff_spec(tn as int, i),
            forall|i: int|
                0 <= i < j ==> #[trigger] lower_bounds@[i] == lower_bound_spec(
                    tn as int,
                    sn as int,
                    log_k_floor as int,
                    order_bound as int,
                    i,
                ),
            forall|i: int|
                0 <= i < j ==> #[trigger] upper_bounds@[i] == upper_bound_spec(
                    tn as int,
                    sn as int,
                    order_bound as int,
                    i,
                ),
            forall|i: int|
                0 <= i < j ==> #[trigger] integer@[i] == is_order_var(tn as int, sn as int, i),
        decreases nv - j,
    {
        if j < 2 * tn {
            objective.push(SCALE);
            lower_bounds.push(Some(0i64));
            upper_bounds.push(None);
            integer.push(false);
        } else if j < 2 * tn + sn {
            objective.push(0i64);
            lower_bounds.push(Some(-order_cap));
            upper_bounds.push(Some(order_cap));
            integer.push(true);
        } else {
            objective.push(0i64);
            lower_bounds.push(Some(log_k_floor));
            upper_bounds.push(None);
            integer.push(false);
        }
        j += 1;
    }

    let mut constraints: Vec<LinConstraint> = Vec::new();
    let mut t: usize = 0;
    while t < tn
        invariant
            t <= tn,
            constraints@.len() == t,
            forall|i: int| 0 <= i < t ==> (#[trigger] constraints@[i]).coeffs@.len() == nv,
            forall|i: int|
                0 <= i < t ==> (#[trigger] constraints@[i]).rhs == trials@[i].ln_rate,
            forall|i: int, j2: int|
                0 <= i < t && 0 <= j2 < nv ==> (#[trigger] constraints@[i].coeffs@[j2]) as int
                    == coeff_spec(trials@, i, j2),
        decreases tn - t,
    {
        let mut coeffs: Vec<i64> = Vec::new();
        let mut j: usize = 0;
        while j < nv
            invariant
                j <= nv,
                t < tn,
                coeffs@.len() == j,
                forall|j2: int|
                    0 <= j2 < j ==> (#[trigger] coeffs@[j2]) as int == coeff_spec(
                        trials@,
                        t as int,
                        j2,
                    ),
            decreases nv - j,
        {
            let c: i64 = if j < tn {
                if j == t {
                    SCALE
                } else {
                    0i64
                }
            } else if j < 2 * tn {
                if j == tn + t {
                    -SCALE
                } else {
                    0i64
                }
            } else if j < 2 * tn + sn {
                trials[t].ln_cons[j - 2 * tn]
            } else {
                SCALE
            };
            coeffs.push(c);
            j += 1;
        }
        constraints.push(LinConstraint { coeffs, rhs: trials[t].ln_rate });
        t += 1;
    }

    Ok(
        LinearProgram {
            num_trials: tn,
            num_species: sn,
            objective,
            lower_bounds,
            upper_bounds,
            integer,
            constraints,
        },
    )
}

} // verus!
