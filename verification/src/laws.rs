//! Laws of the assembled program.
//!
//! An assignment to the decision variables is modelled as a sequence of
//! mathematical integers, one fixed-point value (in billionths) per
//! variable in the layout of [`crate::milp`]. Over that model the module
//! proves what the fit promises of every solver: the objective of any
//! assignment within bounds is non-negative, it is zero exactly for
//! assignments that fit the rate law without residual, and the set of
//! trial lists accepted by validation is closed under permutation.

use vstd::prelude::*;

use crate::milp::LinearProgram;
use crate::milp::LogTrial;
use crate::milp::coeff_spec;
use crate::milp::is_order_var;
use crate::milp::lower_bound_spec;
use crate::milp::num_vars_spec;
use crate::milp::objective_coeff_spec;
use crate::milp::program_matches;
use crate::milp::upper_bound_spec;
use crate::milp::MAX_ORDER_BOUND;
use crate::milp::valid_log_trials;
use crate::trials::SCALE;
use crate::trials::Trial;
use crate::trials::trial_wf;
use crate::trials::valid_trials;

verus! {

/// Fixed-point inner product of the first `n` coefficients with the first
/// `n` assignment entries.
pub open spec fn dot_prefix(c: Seq<i64>, a: Seq<int>, n: int) -> int
    decreases n,
{
    if n <= 0 {
        0
    } else {
        dot_prefix(c, a, n - 1) + (c[n - 1] as int) * a[n - 1]
    }
}

/// Fixed-point inner product of a coefficient vector with an assignment.
pub open spec fn dot(c: Seq<i64>, a: Seq<int>) -> int {
    dot_prefix(c, a, c.len() as int)
}

/// Objective value of an assignment: the total slack, scaled by `SCALE`
/// once for the fixed-point coefficients and once for the fixed-point
/// assignment entries.
pub open spec fn objective_value(p: LinearProgram, a: Seq<int>) -> int {
    dot(p.objective@, a)
}

/// Every variable with a declared lower bound sits at or above it.
pub open spec fn respects_bounds(p: LinearProgram, a: Seq<int>) -> bool {
    forall|j: int|
        0 <= j < p.lower_bounds@.len() ==> ((#[trigger] p.lower_bounds@[j]) matches Some(b) ==> a[j]
            >= b)
}

/// Every variable with a declared upper bound sits at or below it.
pub open spec fn respects_upper_bounds(p: LinearProgram, a: Seq<int>) -> bool {
    forall|j: int|
        0 <= j < p.upper_bounds@.len() ==> ((#[trigger] p.upper_bounds@[j]) matches Some(b) ==> a[j]
            <= b)
}

/// Every integer-declared variable holds a whole number of units.
pub open spec fn integral_vars(p: LinearProgram, a: Seq<int>) -> bool {
    forall|j: int|
        0 <= j < p.integer@.len() && (#[trigger] p.integer@[j]) ==> a[j] % (SCALE as int) == 0
}

/// Every equality constraint holds; the right-hand side is multiplied by
/// `SCALE` because both factors of the inner product carry fixed point.
pub open spec fn satisfies_constraints(p: LinearProgram, a: Seq<int>) -> bool {
    forall|t: int|
        0 <= t < p.constraints@.len() ==> dot((#[trigger] p.constraints@[t]).coeffs@, a)
            == (p.constraints@[t].rhs as int) * (SCALE as int)
}

/// A feasible assignment: right length, within bounds, integral where
/// declared so, and satisfying every constraint.
pub open spec fn feasible_for(p: LinearProgram, a: Seq<int>) -> bool {
    &&& a.len() == p.objective@.len()
    &&& respects_bounds(p, a)
    &&& respects_upper_bounds(p, a)
    &&& integral_vars(p, a)
    &&& satisfies_constraints(p, a)
}

/// `sum_{i < n} orders[i] * ln_cons[i]` of one log-domain trial.
pub open spec fn law_sum_prefix(t: LogTrial, orders: Seq<int>, n: int) -> int
    decreases n,
{
    if n <= 0 {
        0
    } else {
        law_sum_prefix(t, orders, n - 1) + orders[n - 1] * (t.ln_cons@[n - 1] as int)
    }
}

/// The log-domain prediction `sum_i orders[i] * ln_cons[i]` of one trial.
pub open spec fn law_sum(t: LogTrial, orders: Seq<int>) -> int {
    law_sum_prefix(t, orders, orders.len() as int)
}

/// The trial set fits the rate law with these integer orders and this
/// `ln k` exactly, without residual.
pub open spec fn exact_fit(ts: Seq<LogTrial>, orders: Seq<int>, log_k: int) -> bool {
    forall|t: int|
        0 <= t < ts.len() ==> (#[trigger] ts[t]).ln_rate as int == log_k + law_sum(ts[t], orders)
}

/// The assignment with zero slack everywhere, each `order` variable at its
/// chosen whole number of units, and `logK` at `log_k`.
pub open spec fn exact_fit_assignment(tn: int, orders: Seq<int>, log_k: int) -> Seq<int> {
    Seq::new(
        (2 * tn + orders.len() + 1) as nat,
        |j: int|
            if j < 2 * tn {
                0
            } else if j < 2 * tn + orders.len() {
                orders[j - 2 * tn] * (SCALE as int)
            } else {
                log_k
            },
    )
}

/// The whole numbers of units the `order` variables of an assignment sit at.
pub open spec fn orders_of(a: Seq<int>, tn: int, sn: int) -> Seq<int> {
    Seq::new(sn as nat, |s: int| a[2 * tn + s] / (SCALE as int))
}

/// One objective term is non-negative: slack variables carry coefficient
/// `SCALE` but are bounded below by zero, and every other variable carries
/// coefficient zero.
proof fn lemma_obj_term_nonneg(
    p: LinearProgram,
    ts: Seq<LogTrial>,
    floor: int,
    obound: int,
    a: Seq<int>,
    j: int,
)
    requires
        valid_log_trials(ts),
        program_matches(p, ts, floor, obound),
        a.len() == p.objective@.len(),
        respects_bounds(p, a),
        0 <= j < a.len(),
    ensures
        (p.objective@[j] as int) * a[j] >= 0,
{
    let tn = ts.len() as int;
    let sn = ts[0].ln_cons@.len() as int;
    assert(p.objective@[j] == objective_coeff_spec(tn, j));
    if j < 2 * tn {
        assert(p.lower_bounds@[j] == lower_bound_spec(tn, sn, floor, obound, j));
        assert(a[j] >= 0);
        assert((SCALE as int) * a[j] >= 0) by (nonlinear_arith)
            requires
                a[j] >= 0,
        ;
    }
}

/// Prefixes of the objective sum are non-negative.
proof fn lemma_obj_prefix_nonneg(
    p: LinearProgram,
    ts: Seq<LogTrial>,
    floor: int,
    obound: int,
    a: Seq<int>,
    n: int,
)
    requires
        valid_log_trials(ts),
        program_matches(p, ts, floor, obound),
        a.len() == p.objective@.len(),
        respects_bounds(p, a),
        0 <= n <= a.len(),
    ensures
        dot_prefix(p.objective@, a, n) >= 0,
    decreases n,
{
    if n > 0 {
        lemma_obj_prefix_nonneg(p, ts, floor, obound, a, n - 1);
        lemma_obj_term_nonneg(p, ts, floor, obound, a, n - 1);
    }
}

/// The objective of any assignment within bounds of an assembled program
/// is non-negative: the total slack can never be negative.
pub proof fn lemma_objective_nonneg(
    p: LinearProgram,
    ts: Seq<LogTrial>,
    floor: int,
    obound: int,
    a: Seq<int>,
)
    requires
        valid_log_trials(ts),
        program_matches(p, ts, floor, obound),
        a.len() == p.objective@.len(),
        respects_bounds(p, a),
    ensures
        objective_value(p, a) >= 0,
{
    lemma_obj_prefix_nonneg(p, ts, floor, obound, a, a.len() as int);
}

/// The objective sum dominates each single slack term.
proof fn lemma_obj_prefix_lower(
    p: LinearProgram,
    ts: Seq<LogTrial>,
    floor: int,
    obound: int,
    a: Seq<int>,
    j: int,
    n: int,
)
    requires
        valid_log_trials(ts),
        program_matches(p, ts, floor, obound),
        a.len() == p.objective@.len(),
        respects_bounds(p, a),
        0 <= j < n <= a.len(),
        j < 2 * ts.len(),
    ensures
        dot_prefix(p.objective@, a, n) >= (SCALE as int) * a[j],
    decreases n,
{
    let tn = ts.len() as int;
    if n - 1 == j {
        lemma_obj_prefix_nonneg(p, ts, floor, obound, a, n - 1);
        assert(p.objective@[j] == objective_coeff_spec(tn, j));
    } else {
        lemma_obj_prefix_lower(p, ts, floor, obound, a, j, n - 1);
        lemma_obj_term_nonneg(p, ts, floor, obound, a, n - 1);
    }
}

/// Inner product of one constraint row with the exact-fit assignment, by
/// prefix: zero through the slack region, then `SCALE` times the partial
/// law sum, then `SCALE` times the full prediction including `ln k`.
proof fn lemma_constraint_dot_prefix(
    p: LinearProgram,
    ts: Seq<LogTrial>,
    floor: int,
    obound: int,
    a: Seq<int>,
    orders: Seq<int>,
    log_k: int,
    t: int,
    n: int,
)
    requires
        valid_log_trials(ts),
        program_matches(p, ts, floor, obound),
        orders.len() == ts[0].ln_cons@.len(),
        0 <= t < ts.len(),
        a == exact_fit_assignment(ts.len() as int, orders, log_k),
        0 <= n <= num_vars_spec(ts.len() as int, ts[0].ln_cons@.len() as int),
    ensures
        dot_prefix(p.constraints@[t].coeffs@, a, n) == (if n <= 2 * ts.len() {
            0
        } else if n <= 2 * ts.len() + orders.len() {
            (SCALE as int) * law_sum_prefix(ts[t], orders, n - 2 * ts.len())
        } else {
            (SCALE as int) * (law_sum(ts[t], orders) + log_k)
        }),
    decreases n,
{
    let tn = ts.len() as int;
    let sn = ts[0].ln_cons@.len() as int;
    assert(SCALE as int == 1000000000);
    if n > 0 {
        lemma_constraint_dot_prefix(p, ts, floor, obound, a, orders, log_k, t, n - 1);
        let c = p.constraints@[t].coeffs@;
        assert(c.len() == num_vars_spec(tn, sn));
        assert(a.len() == 2 * tn + orders.len() + 1);
        assert(c[n - 1] as int == coeff_spec(ts, t, n - 1));
        assert(ts[t].ln_cons@.len() == sn);
        assert(dot_prefix(c, a, n) == dot_prefix(c, a, n - 1) + (c[n - 1] as int) * a[n - 1]);
        if n - 1 < 2 * tn {
            assert(a[n - 1] == 0);
            assert(dot_prefix(c, a, n) == dot_prefix(c, a, n - 1));
        } else if n - 1 < 2 * tn + sn {
            let s = n - 1 - 2 * tn;
            assert(law_sum_prefix(ts[t], orders, 0) == 0);
            assert(c[n - 1] as int == ts[t].ln_cons@[s] as int);
            assert(a[n - 1] == orders[s] * (SCALE as int));
            assert((ts[t].ln_cons@[s] as int) * (orders[s] * (SCALE as int)) == (SCALE as int) * (
            orders[s] * (ts[t].ln_cons@[s] as int))) by (nonlinear_arith);
            assert(law_sum_prefix(ts[t], orders, s + 1) == law_sum_prefix(ts[t], orders, s)
                + orders[s] * (ts[t].ln_cons@[s] as int));
            assert(dot_prefix(c, a, n) == (SCALE as int) * law_sum_prefix(ts[t], orders, s + 1));
        } else {
            assert(n - 1 == 2 * tn + sn);
            assert(c[n - 1] as int == SCALE as int);
            assert(a[n - 1] == log_k);
            assert(law_sum_prefix(ts[t], orders, sn) == law_sum(ts[t], orders));
            assert((SCALE as int) * law_sum(ts[t], orders) + (SCALE as int) * log_k == (
            SCALE as int) * (law_sum(ts[t], orders) + log_k)) by (nonlinear_arith);
            assert(dot_prefix(c, a, n) == (SCALE as int) * (law_sum(ts[t], orders) + log_k));
        }
    }
}

/// If the log-domain trials fit the law exactly with integer orders and a
/// `ln k` at or above the floor, the zero-slack assignment is feasible for
/// the assembled program and its objective is zero: a noise-free data set
/// admits a perfect fit with no residual.
pub proof fn lemma_exact_fit_feasible(
    p: LinearProgram,
    ts: Seq<LogTrial>,
    floor: int,
    obound: int,
    orders: Seq<int>,
    log_k: int,
)
    requires
        valid_log_trials(ts),
        program_matches(p, ts, floor, obound),
        orders.len() == ts[0].ln_cons@.len(),
        i64::MIN as int <= floor <= i64::MAX as int,
        0 < obound <= MAX_ORDER_BOUND as int,
        forall|s: int| 0 <= s < orders.len() ==> -obound <= #[trigger] orders[s] <= obound,
        log_k >= floor,
        exact_fit(ts, orders, log_k),
    ensures
        feasible_for(p, exact_fit_assignment(ts.len() as int, orders, log_k)),
        objective_value(p, exact_fit_assignment(ts.len() as int, orders, log_k)) == 0,
{
    let tn = ts.len() as int;
    let sn = ts[0].ln_cons@.len() as int;
    let nv = num_vars_spec(tn, sn);
    let a = exact_fit_assignment(tn, orders, log_k);
    assert(a.len() == nv);

    assert(SCALE as int == 1000000000);
    assert forall|j: int| 0 <= j < p.lower_bounds@.len() implies ((
    #[trigger] p.lower_bounds@[j]) matches Some(b) ==> a[j] >= b) by {
        assert(p.lower_bounds@[j] == lower_bound_spec(tn, sn, floor, obound, j));
        if 2 * tn <= j < 2 * tn + sn {
            let s = j - 2 * tn;
            assert(i64::MIN as int <= -obound * (SCALE as int) <= i64::MAX as int)
                by (nonlinear_arith)
                requires
                    0 < obound <= 1000000000,
                    SCALE as int == 1000000000,
            ;
            assert(a[j] == orders[s] * (SCALE as int));
            assert(orders[s] * (SCALE as int) >= -obound * (SCALE as int)) by (nonlinear_arith)
                requires
                    orders[s] >= -obound,
            ;
        }
    };

    assert forall|j: int| 0 <= j < p.upper_bounds@.len() implies ((
    #[trigger] p.upper_bounds@[j]) matches Some(b) ==> a[j] <= b) by {
        assert(p.upper_bounds@[j] == upper_bound_spec(tn, sn, obound, j));
        if 2 * tn <= j < 2 * tn + sn {
            let s = j - 2 * tn;
            assert(i64::MIN as int <= obound * (SCALE as int) <= i64::MAX as int)
                by (nonlinear_arith)
                requires
                    0 < obound <= 1000000000,
                    SCALE as int == 1000000000,
            ;
            assert(a[j] == orders[s] * (SCALE as int));
            assert(orders[s] * (SCALE as int) <= obound * (SCALE as int)) by (nonlinear_arith)
                requires
                    orders[s] <= obound,
            ;
        }
    };

    assert forall|j: int| 0 <= j < p.integer@.len() && (#[trigger] p.integer@[j]) implies a[j] % (
    SCALE as int) == 0 by {
        assert(p.integer@[j] == is_order_var(tn, sn, j));
        vstd::arithmetic::div_mod::lemma_mod_multiples_basic(orders[j - 2 * tn], SCALE as int);
    };

    assert forall|t: int| 0 <= t < p.constraints@.len() implies dot(
        (#[trigger] p.constraints@[t]).coeffs@,
        a,
    ) == (p.constraints@[t].rhs as int) * (SCALE as int) by {
        lemma_constraint_dot_prefix(p, ts, floor, obound, a, orders, log_k, t, nv);
        assert(p.constraints@[t].coeffs@.len() == nv);
        assert(ts[t].ln_rate as int == log_k + law_sum(ts[t], orders));
        assert(p.constraints@[t].rhs == ts[t].ln_rate);
    };

    lemma_obj_prefix_zero(p, ts, floor, obound, a, nv);
}

/// Prefixes of the objective sum vanish when every slack entry is zero.
proof fn lemma_obj_prefix_zero(
    p: LinearProgram,
    ts: Seq<LogTrial>,
    floor: int,
    obound: int,
    a: Seq<int>,
    n: int,
)
    requires
        valid_log_trials(ts),
        program_matches(p, ts, floor, obound),
        a.len() == p.objective@.len(),
        forall|j: int| 0 <= j < 2 * ts.len() ==> #[trigger] a[j] == 0,
        0 <= n <= a.len(),
    ensures
        dot_prefix(p.objective@, a, n) == 0,
    decreases n,
{
    let tn = ts.len() as int;
    if n > 0 {
        lemma_obj_prefix_zero(p, ts, floor, obound, a, n - 1);
        assert(p.objective@[n - 1] == objective_coeff_spec(tn, n - 1));
    }
}

/// Conversely, a feasible assignment with objective zero carries no slack
/// at all, so its integer orders and its `logK` value fit every trial of
/// the log-domain data exactly: the total slack is zero only for a
/// noise-free fit.
pub proof fn lemma_zero_objective_exact(
    p: LinearProgram,
    ts: Seq<LogTrial>,
    floor: int,
    obound: int,
    a: Seq<int>,
)
    requires
        valid_log_trials(ts),
        program_matches(p, ts, floor, obound),
        feasible_for(p, a),
        objective_value(p, a) == 0,
    ensures
        exact_fit(
            ts,
            orders_of(a, ts.len() as int, ts[0].ln_cons@.len() as int),
            a[2 * (ts.len() as int) + ts[0].ln_cons@.len() as int],
        ),
{
    let tn = ts.len() as int;
    let sn = ts[0].ln_cons@.len() as int;
    let nv = num_vars_spec(tn, sn);
    let sc = SCALE as int;
    let ords = orders_of(a, tn, sn);
    let log_k = a[2 * tn + sn];

    assert forall|j: int| 0 <= j < 2 * tn implies #[trigger] a[j] == 0 by {
        lemma_obj_prefix_lower(p, ts, floor, obound, a, j, a.len() as int);
        assert(p.lower_bounds@[j] == lower_bound_spec(tn, sn, floor, obound, j));
        assert(a[j] >= 0);
        assert(a[j] == 0) by (nonlinear_arith)
            requires
                (SCALE as int) * a[j] <= 0,
                a[j] >= 0,
        ;
    };

    assert forall|s: int| 0 <= s < sn implies a[2 * tn + s] == ords[s] * sc by {
        assert(p.integer@[2 * tn + s] == is_order_var(tn, sn, 2 * tn + s));
        assert(a[2 * tn + s] % sc == 0);
        vstd::arithmetic::div_mod::lemma_fundamental_div_mod(a[2 * tn + s], sc);
    };

    let ea = exact_fit_assignment(tn, ords, log_k);
    assert(a =~= ea);

    assert forall|t: int| 0 <= t < ts.len() implies (#[trigger] ts[t]).ln_rate as int == log_k
        + law_sum(ts[t], ords) by {
        lemma_constraint_dot_prefix(p, ts, floor, obound, a, ords, log_k, t, nv);
        assert(p.constraints@[t].coeffs@.len() == nv);
        assert(dot(p.constraints@[t].coeffs@, a) == (p.constraints@[t].rhs as int) * sc);
        assert(p.constraints@[t].rhs == ts[t].ln_rate);
    };
}

/// Sum of the first `m` assignment entries.
pub open spec fn slack_sum(a: Seq<int>, m: int) -> int
    decreases m,
{
    if m <= 0 {
        0
    } else {
        slack_sum(a, m - 1) + a[m - 1]
    }
}

/// Sum of `a` over the first `m` indices listed in `p`.
pub open spec fn gather_sum(a: Seq<int>, p: Seq<int>, m: int) -> int
    decreases m,
{
    if m <= 0 {
        0
    } else {
        gather_sum(a, p, m - 1) + a[p[m - 1]]
    }
}

/// The last `tn` entries of `a` before index `2 * tn`, re-based at zero.
pub open spec fn upper_slacks(a: Seq<int>, tn: int) -> Seq<int> {
    Seq::new(tn as nat, |i: int| a[tn + i])
}

/// The objective sums the slack entries: its prefixes are `SCALE` times
/// the running slack sum, frozen once the slack region ends.
proof fn lemma_obj_prefix_slack_sum(
    p: LinearProgram,
    ts: Seq<LogTrial>,
    floor: int,
    obound: int,
    a: Seq<int>,
    n: int,
)
    requires
        valid_log_trials(ts),
        program_matches(p, ts, floor, obound),
        a.len() == p.objective@.len(),
        0 <= n <= a.len(),
    ensures
        dot_prefix(p.objective@, a, n) == (SCALE as int) * (if n <= 2 * ts.len() {
            slack_sum(a, n)
        } else {
            slack_sum(a, 2 * (ts.len() as int))
        }),
    decreases n,
{
    let tn = ts.len() as int;
    assert(SCALE as int == 1000000000);
    if n > 0 {
        lemma_obj_prefix_slack_sum(p, ts, floor, obound, a, n - 1);
        assert(p.objective@[n - 1] == objective_coeff_spec(tn, n - 1));
    }
}

/// Sums of equal prefixes agree.
proof fn lemma_gather_congruent(a: Seq<int>, p1: Seq<int>, p2: Seq<int>, m: int)
    requires
        forall|i: int| 0 <= i < m ==> #[trigger] p1[i] == p2[i],
    ensures
        gather_sum(a, p1, m) == gather_sum(a, p2, m),
    decreases m,
{
    if m > 0 {
        lemma_gather_congruent(a, p1, p2, m - 1);
    }
}

/// Removing one listed index removes exactly its contribution.
proof fn lemma_gather_remove(a: Seq<int>, p: Seq<int>, i0: int, m: int)
    requires
        0 <= i0 < m <= p.len(),
    ensures
        gather_sum(a, p, m) == gather_sum(a, p.remove(i0), m - 1) + a[p[i0]],
    decreases m,
{
    p.remove_ensures(i0);
    if i0 == m - 1 {
        lemma_gather_congruent(a, p.remove(i0), p, m - 1);
    } else {
        lemma_gather_remove(a, p, i0, m - 1);
        assert(p.remove(i0)[m - 2] == p[m - 1]);
    }
}

/// `inv` is the two-sided inverse of `perm` on `[0, n)`.
pub open spec fn is_permutation_pair(perm: Seq<int>, inv: Seq<int>, n: int) -> bool {
    &&& perm.len() == n
    &&& inv.len() == n
    &&& forall|i: int| 0 <= i < n ==> 0 <= #[trigger] perm[i] < n
    &&& forall|i: int| 0 <= i < n ==> 0 <= #[trigger] inv[i] < n
    &&& forall|i: int| 0 <= i < n ==> #[trigger] inv[perm[i]] == i
    &&& forall|i: int| 0 <= i < n ==> #[trigger] perm[inv[i]] == i
}

/// Summing a sequence along a permutation of `[0, n)` gives the plain sum.
proof fn lemma_gather_permutation(a: Seq<int>, perm: Seq<int>, inv: Seq<int>, n: int)
    requires
        is_permutation_pair(perm, inv, n),
    ensures
        gather_sum(a, perm, n) == slack_sum(a, n),
    decreases n,
{
    if n > 0 {
        let i0 = inv[n - 1];
        assert(perm[i0] == n - 1);
        let perm2 = perm.remove(i0);
        let inv2 = Seq::new(
            (n - 1) as nat,
            |k: int|
                if inv[k] < i0 {
                    inv[k]
                } else {
                    inv[k] - 1
                },
        );
        perm.remove_ensures(i0);
        assert forall|i: int| 0 <= i < n - 1 implies 0 <= #[trigger] perm2[i] < n - 1 by {
            let j: int = if i < i0 {
                i
            } else {
                i + 1
            };
            assert(perm2[i] == perm[j]);
            assert(inv[perm[j]] == j);
        };
        assert forall|k: int| 0 <= k < n - 1 implies 0 <= #[trigger] inv2[k] < n - 1 by {
            assert(perm[inv[k]] == k);
        };
        assert forall|i: int| 0 <= i < n - 1 implies #[trigger] inv2[perm2[i]] == i by {
            let j: int = if i < i0 {
                i
            } else {
                i + 1
            };
            assert(perm2[i] == perm[j]);
            assert(inv[perm[j]] == j);
        };
        assert forall|k: int| 0 <= k < n - 1 implies #[trigger] perm2[inv2[k]] == k by {
            assert(perm[inv[k]] == k);
            if inv[k] < i0 {
                assert(perm2[inv2[k]] == perm[inv[k]]);
            } else {
                assert(inv[k] != i0);
                assert(perm2[inv2[k]] == perm[inv[k]]);
            }
        };
        lemma_gather_remove(a, perm, i0, n);
        lemma_gather_permutation(a, perm2, inv2, n - 1);
    }
}

/// The assignment with the slack values relocated along the permutation:
/// slot `i` of `errorPlus` takes the value of slot `perm[i]`, likewise
/// `errorMinus`; the orders and `logK` stay in place.
pub open spec fn permuted_assignment(a: Seq<int>, perm: Seq<int>, tn: int) -> Seq<int> {
    Seq::new(
        a.len(),
        |j: int|
            if j < tn {
                a[perm[j]]
            } else if j < 2 * tn {
                a[tn + perm[j - tn]]
            } else {
                a[j]
            },
    )
}

/// Prefixes of one constraint row's inner product, by region: the single
/// `errorPlus` and `errorMinus` terms, the order part, and `logK`.
proof fn lemma_row_dot_prefix(
    p: LinearProgram,
    ts: Seq<LogTrial>,
    floor: int,
    obound: int,
    a: Seq<int>,
    t: int,
    n: int,
)
    requires
        valid_log_trials(ts),
        program_matches(p, ts, floor, obound),
        0 <= t < ts.len(),
        a.len() == num_vars_spec(ts.len() as int, ts[0].ln_cons@.len() as int),
        0 <= n <= num_vars_spec(ts.len() as int, ts[0].ln_cons@.len() as int),
    ensures
        dot_prefix(p.constraints@[t].coeffs@, a, n) == (if t < n {
            (SCALE as int) * a[t]
        } else {
            0
        }) + (if ts.len() + t < n {
            -(SCALE as int) * a[ts.len() + t]
        } else {
            0
        }) + (if n <= 2 * ts.len() {
            0
        } else if n <= 2 * ts.len() + ts[0].ln_cons@.len() {
            order_dot_prefix(ts[t], a, ts.len() as int, n - 2 * ts.len())
        } else {
            order_dot_prefix(ts[t], a, ts.len() as int, ts[0].ln_cons@.len() as int)
        }) + (if 2 * ts.len() + ts[0].ln_cons@.len() < n {
            (SCALE as int) * a[2 * ts.len() + ts[0].ln_cons@.len() as int]
        } else {
            0
        }),
    decreases n,
{
    let tn = ts.len() as int;
    let sn = ts[0].ln_cons@.len() as int;
    assert(SCALE as int == 1000000000);
    if n > 0 {
        lemma_row_dot_prefix(p, ts, floor, obound, a, t, n - 1);
        let c = p.constraints@[t].coeffs@;
        assert(c.len() == num_vars_spec(tn, sn));
        assert(c[n - 1] as int == coeff_spec(ts, t, n - 1));
        assert(ts[t].ln_cons@.len() == sn);
        if 2 * tn <= n - 1 < 2 * tn + sn {
            assert(order_dot_prefix(ts[t], a, tn, 0) == 0);
            assert(order_dot_prefix(ts[t], a, tn, n - 2 * tn) == order_dot_prefix(
                ts[t],
                a,
                tn,
                n - 1 - 2 * tn,
            ) + (ts[t].ln_cons@[n - 1 - 2 * tn] as int) * a[n - 1]);
        }
    }
}

/// `sum_{s < m} ln_cons[s] * a[2 * tn + s]`: the order part of one row's
/// inner product.
pub open spec fn order_dot_prefix(t: LogTrial, a: Seq<int>, tn: int, m: int) -> int
    decreases m,
{
    if m <= 0 {
        0
    } else {
        order_dot_prefix(t, a, tn, m - 1) + (t.ln_cons@[m - 1] as int) * a[2 * tn + m - 1]
    }
}

/// The order part only reads the order slots, so assignments that agree
/// there give the same value.
proof fn lemma_order_dot_congruent(t: LogTrial, a: Seq<int>, b: Seq<int>, tn: int, m: int)
    requires
        forall|j: int| 2 * tn <= j < 2 * tn + m ==> #[trigger] a[j] == b[j],
    ensures
        order_dot_prefix(t, a, tn, m) == order_dot_prefix(t, b, tn, m),
    decreases m,
{
    if m > 0 {
        lemma_order_dot_congruent(t, a, b, tn, m - 1);
        assert(a[2 * tn + m - 1] == b[2 * tn + m - 1]);
    }
}

/// The low slack block of the permuted assignment sums to the gathered sum.
proof fn lemma_permuted_low_block(a: Seq<int>, perm: Seq<int>, tn: int, m: int)
    requires
        0 <= m <= tn,
        2 * tn <= a.len(),
        perm.len() == tn,
    ensures
        slack_sum(permuted_assignment(a, perm, tn), m) == gather_sum(a, perm, m),
    decreases m,
{
    if m > 0 {
        lemma_permuted_low_block(a, perm, tn, m - 1);
    }
}

/// The high slack block of the permuted assignment sums to the gathered
/// sum of the re-based upper slacks.
proof fn lemma_permuted_high_block(a: Seq<int>, perm: Seq<int>, tn: int, m: int)
    requires
        0 <= m <= tn,
        2 * tn <= a.len(),
        perm.len() == tn,
        forall|i: int| 0 <= i < tn ==> 0 <= #[trigger] perm[i] < tn,
    ensures
        slack_sum(permuted_assignment(a, perm, tn), tn + m) == slack_sum(
            permuted_assignment(a, perm, tn),
            tn,
        ) + gather_sum(upper_slacks(a, tn), perm, m),
    decreases m,
{
    if m > 0 {
        lemma_permuted_high_block(a, perm, tn, m - 1);
        assert(permuted_assignment(a, perm, tn)[tn + m - 1] == a[tn + perm[m - 1]]);
        assert(upper_slacks(a, tn)[perm[m - 1]] == a[tn + perm[m - 1]]);
    }
}

/// A slack sum over both blocks splits at the block boundary.
proof fn lemma_slack_sum_split(a: Seq<int>, tn: int, m: int)
    requires
        0 <= m <= tn,
        2 * tn <= a.len(),
    ensures
        slack_sum(a, tn + m) == slack_sum(a, tn) + slack_sum(upper_slacks(a, tn), m),
    decreases m,
{
    if m > 0 {
        lemma_slack_sum_split(a, tn, m - 1);
        assert(upper_slacks(a, tn)[m - 1] == a[tn + m - 1]);
    }
}

/// The fit model is invariant to the order of the trials. For programs
/// built from a trial list and from a permutation of it, relocating the
/// slack values along the permutation carries any feasible assignment of
/// the one into a feasible assignment of the other with the same
/// objective and with the orders and `logK` untouched: reordering the
/// input changes neither the attainable total slack nor which rate laws
/// attain it.
pub proof fn lemma_fit_invariant_under_permutation(
    p1: LinearProgram,
    ts: Seq<LogTrial>,
    p2: LinearProgram,
    ts2: Seq<LogTrial>,
    perm: Seq<int>,
    inv: Seq<int>,
    floor: int,
    obound: int,
    a: Seq<int>,
)
    requires
        valid_log_trials(ts),
        valid_log_trials(ts2),
        program_matches(p1, ts, floor, obound),
        program_matches(p2, ts2, floor, obound),
        is_permutation_pair(perm, inv, ts.len() as int),
        ts2.len() == ts.len(),
        forall|i: int| 0 <= i < ts2.len() ==> #[trigger] ts2[i] == ts[perm[i]],
        feasible_for(p1, a),
    ensures
        feasible_for(p2, permuted_assignment(a, perm, ts.len() as int)),
        objective_value(p2, permuted_assignment(a, perm, ts.len() as int)) == objective_value(
            p1,
            a,
        ),
        forall|j: int|
            2 * ts.len() <= j < a.len() ==> #[trigger] permuted_assignment(
                a,
                perm,
                ts.len() as int,
            )[j] == a[j],
{
    let tn = ts.len() as int;
    let sn = ts[0].ln_cons@.len() as int;
    let nv = num_vars_spec(tn, sn);
    let b = permuted_assignment(a, perm, tn);
    assert(ts2[0] == ts[perm[0]]);
    assert(ts[perm[0]].ln_cons@.len() == sn);
    assert(a.len() == nv);
    assert(b.len() == nv);

    assert forall|j: int| 0 <= j < p2.lower_bounds@.len() implies ((
    #[trigger] p2.lower_bounds@[j]) matches Some(lo) ==> b[j] >= lo) by {
        assert(p2.lower_bounds@[j] == lower_bound_spec(tn, sn, floor, obound, j));
        if j < tn {
            assert(p1.lower_bounds@[perm[j]] == lower_bound_spec(tn, sn, floor, obound, perm[j]));
            assert(b[j] == a[perm[j]]);
        } else if j < 2 * tn {
            assert(p1.lower_bounds@[tn + perm[j - tn]] == lower_bound_spec(
                tn,
                sn,
                floor,
                obound,
                tn + perm[j - tn],
            ));
            assert(b[j] == a[tn + perm[j - tn]]);
        } else {
            assert(p1.lower_bounds@[j] == lower_bound_spec(tn, sn, floor, obound, j));
            assert(b[j] == a[j]);
        }
    };

    assert forall|j: int| 0 <= j < p2.upper_bounds@.len() implies ((
    #[trigger] p2.upper_bounds@[j]) matches Some(hi) ==> b[j] <= hi) by {
        assert(p2.upper_bounds@[j] == upper_bound_spec(tn, sn, obound, j));
        if 2 * tn <= j < 2 * tn + sn {
            assert(p1.upper_bounds@[j] == upper_bound_spec(tn, sn, obound, j));
            assert(b[j] == a[j]);
        }
    };

    assert forall|j: int| 0 <= j < p2.integer@.len() && (#[trigger] p2.integer@[j]) implies b[j] % (
    SCALE as int) == 0 by {
        assert(p2.integer@[j] == is_order_var(tn, sn, j));
        assert(p1.integer@[j] == is_order_var(tn, sn, j));
        assert(b[j] == a[j]);
    };

    assert forall|t2: int| 0 <= t2 < p2.constraints@.len() implies dot(
        (#[trigger] p2.constraints@[t2]).coeffs@,
        b,
    ) == (p2.constraints@[t2].rhs as int) * (SCALE as int) by {
        let pt = perm[t2];
        assert(ts2[t2] == ts[pt]);
        assert(ts[pt].ln_cons@.len() == sn);
        lemma_row_dot_prefix(p2, ts2, floor, obound, b, t2, nv);
        lemma_row_dot_prefix(p1, ts, floor, obound, a, pt, nv);
        assert(p2.constraints@[t2].coeffs@.len() == nv);
        assert(p1.constraints@[pt].coeffs@.len() == nv);
        assert(b[t2] == a[pt]);
        assert(b[tn + t2] == a[tn + pt]);
        assert(b[2 * tn + sn] == a[2 * tn + sn]);
        assert forall|j: int| 2 * tn <= j < 2 * tn + sn implies #[trigger] b[j] == a[j] by {};
        lemma_order_dot_congruent(ts[pt], b, a, tn, sn);
        assert(dot(p1.constraints@[pt].coeffs@, a) == (p1.constraints@[pt].rhs as int) * (
        SCALE as int));
        assert(p2.constraints@[t2].rhs == ts2[t2].ln_rate);
        assert(p1.constraints@[pt].rhs == ts[pt].ln_rate);
    };

    lemma_obj_prefix_slack_sum(p1, ts, floor, obound, a, nv);
    lemma_obj_prefix_slack_sum(p2, ts2, floor, obound, b, nv);
    lemma_permuted_low_block(a, perm, tn, tn);
    lemma_permuted_high_block(a, perm, tn, tn);
    lemma_gather_permutation(a, perm, inv, tn);
    lemma_gather_permutation(upper_slacks(a, tn), perm, inv, tn);
    lemma_slack_sum_split(a, tn, tn);
    assert(slack_sum(b, 2 * tn) == slack_sum(a, 2 * tn));
}

/// A bijection of `[0, n)` onto itself, given as the sequence of images.
pub open spec fn is_permutation(perm: Seq<int>, n: int) -> bool {
    &&& perm.len() == n
    &&& forall|i: int| 0 <= i < n ==> 0 <= #[trigger] perm[i] < n
    &&& forall|i: int, j: int|
        0 <= i < n && 0 <= j < n && i != j ==> #[trigger] perm[i] != #[trigger] perm[j]
}

/// Validation is invariant under reordering of the trial list: a
/// permutation of a valid trial set is itself valid, so reordering the
/// input never changes whether a fit is attempted.
pub proof fn lemma_valid_trials_permutation(ts: Seq<Trial>, ts2: Seq<Trial>, perm: Seq<int>)
    requires
        is_permutation(perm, ts.len() as int),
        ts2.len() == ts.len(),
        forall|i: int| 0 <= i < ts2.len() ==> #[trigger] ts2[i] == ts[perm[i]],
        valid_trials(ts),
    ensures
        valid_trials(ts2),
{
    assert(ts2[0] == ts[perm[0]]);
    assert(ts2[0].cons@.len() == ts[0].cons@.len());
    assert forall|t: int| 0 <= t < ts2.len() implies #[trigger] ts2[t].cons@.len()
        == ts2[0].cons@.len() by {
        assert(ts2[t] == ts[perm[t]]);
        assert(ts[perm[t]].cons@.len() == ts[0].cons@.len());
    };
    assert forall|t: int| 0 <= t < ts2.len() implies #[trigger] trial_wf(ts2[t]) by {
        assert(ts2[t] == ts[perm[t]]);
        assert(trial_wf(ts[perm[t]]));
    };
}

} // verus!
