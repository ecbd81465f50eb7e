//! Inference of empirical rate laws from experimental trials.
//!
//! Given a set of trials, each pairing an observed reaction rate with the
//! concentrations of the tracked species, the library sets up the fit of
//! `rate = k * prod(concentration_i ^ order_i)` with integer reaction orders
//! as a mixed-integer linear program: taking logarithms turns the power law
//! into a linear equality per trial, and the absolute log-domain residual of
//! each trial is split into two non-negative slack variables whose sum is
//! minimised.
//!
//! All quantities are carried as fixed-point integers in billionths of a
//! unit, so that every stage of the pipeline is plain integer data: the
//! caller supplies measured values and their logarithms in that form, hands
//! the assembled program to any MILP solver, and passes the solver's answer
//! back for decoding into integer orders and the logarithm of the rate
//! constant.

pub mod decode;
pub mod laws;
pub mod milp;
pub mod trials;
