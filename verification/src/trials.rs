//! Experimental observations and their validation.

use vstd::prelude::*;

verus! {

/// Fixed-point scale: one unit is `SCALE` billionths.
pub const SCALE: i64 = 1_000_000_000;

/// Largest number of trials a fit may be asked to handle.
pub const MAX_TRIALS: usize = 1_000_000;

/// Largest number of tracked species a fit may be asked to handle.
pub const MAX_SPECIES: usize = 1_000_000;

/// One experimental observation: a measured reaction rate and the
/// concentration of each tracked species, both in billionths of a unit.
/// The species ordering must be the same across all trials of a fit.
#[derive(Debug, Clone)]
pub struct Trial {
    /// Observed reaction rate, in billionths; must be positive.
    pub rate: i64,
    /// Concentration of each species, in billionths; each must be positive.
    pub cons: Vec<i64>,
}

/// Why a fit could not be carried out.
#[derive(Debug, Clone, Copy, PartialEq, Eq, Structural)]
pub enum FitError {
    /// The trial set is empty, tracks no species, disagrees on the number of
    /// species, or holds a non-positive rate or concentration.
    InvalidInput,
    /// The solver found the assembled constraints contradictory.
    Infeasible,
    /// The solver failed, or returned values that do not decode.
    SolverFailure,
    /// The solver did not finish within the caller's deadline.
    Timeout,
}

/// A single trial is well-formed: its rate and all its concentrations are
/// positive, so their logarithms are defined.
pub open spec fn trial_wf(t: Trial) -> bool {
    &&& t.rate > 0
    &&& forall|i: int| 0 <= i < t.cons@.len() ==> t.cons@[i] > 0
}

/// All trials report a concentration for the same species list.
pub open spec fn trials_consistent(ts: Seq<Trial>) -> bool {
    forall|t: int| 0 <= t < ts.len() ==> #[trigger] ts[t].cons@.len() == ts[0].cons@.len()
}

/// A trial set that a fit can be built from: non-empty, tracking at least
/// one species, consistent across trials, and with every value positive.
pub open spec fn valid_trials(ts: Seq<Trial>) -> bool {
    &&& ts.len() > 0
    &&& ts[0].cons@.len() > 0
    &&& trials_consistent(ts)
    &&& forall|t: int| 0 <= t < ts.len() ==> #[trigger] trial_wf(ts[t])
}

/// Checks a trial set against [`valid_trials`] and returns the species
/// count, or `InvalidInput` for exactly the sets the fit must reject.
#[verifier::loop_isolation(false)]
pub fn validate_trials(trials: &Vec<Trial>) -> (r: Result<usize, FitError>)
    ensures
        r is Ok <==> valid_trials(trials@),
        r matches Ok(s) ==> s == trials@[0].cons@.len(),
        r matches Err(e) ==> e == FitError::InvalidInput,
{
    if trials.len() == 0 {
        return Err(FitError::InvalidInput);
    }
    let species = trials[0].cons.len();
    if species == 0 {
        return Err(FitError::InvalidInput);
    }
    let mut t: usize = 0;
    while t < trials.len()
        invariant
            t <= trials@.len(),
            trials@.len() > 0,
            species == trials@[0].cons@.len(),
            forall|j: int| 0 <= j < t ==> trials@[j].cons@.len() == species && trial_wf(
                trials@[j],
            ),
        decreases trials@.len() - t,
    {
        let tr = &trials[t];
        if tr.cons.len() != species {
            return Err(FitError::InvalidInput);
        }
        if tr.rate <= 0 {
            proof {
                if valid_trials(trials@) {
                    assert(trial_wf(trials@[t as int]));
                }
            }
            return Err(FitError::InvalidInput);
        }
        let mut i: usize = 0;
        while i < tr.cons.len()
            invariant
                i <= tr.cons@.len(),
                forall|j: int| 0 <= j < i ==> tr.cons@[j] > 0,
            decreases tr.cons@.len() - i,
        {
            if tr.cons[i] <= 0 {
                proof {
                    if valid_trials(trials@) {
                        assert(trial_wf(trials@[t as int]));
                    }
                }
                return Err(FitError::InvalidInput);
            }
            i += 1;
        }
        t += 1;
    }
    Ok(species)
}

} // verus!
