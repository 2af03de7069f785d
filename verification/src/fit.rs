//! Solver and weighting settings of a fit, and how they are resolved.

use vstd::prelude::*;

verus! {

/// Least-squares backend preference used during fitting.
#[derive(Debug, Clone, Copy, PartialEq, Eq, Structural)]
pub enum SolverPolicy {
    Auto,
    ColPivQr,
    SvdOnly,
}

impl Default for SolverPolicy {
    fn default() -> (p: SolverPolicy)
        ensures
            p == SolverPolicy::Auto,
    {
        SolverPolicy::Auto
    }
}

/// Least-squares backend that actually produced the final solution.
#[derive(Debug, Clone, Copy, PartialEq, Eq, Structural)]
pub enum SolverUsed {
    ColPivQr,
    Svd,
}

/// Automatic per-sample weighting strategy for the fitting objective.
#[derive(Debug, Clone, Copy, PartialEq, Eq, Structural)]
pub enum WeightStrategy {
    /// No automatic weighting (default). Minimizes absolute error.
    Uniform,
    /// Weight each sample by `1 / max_channel(|f(s_k)|)`, floored to avoid
    /// division by zero. Minimizes relative error uniformly across frequencies.
    InverseMagnitude,
}

impl Default for WeightStrategy {
    fn default() -> (w: WeightStrategy)
        ensures
            w == WeightStrategy::Uniform,
    {
        WeightStrategy::Uniform
    }
}

/// Where the per-sample weights of a fit come from.
#[derive(Debug, Clone, Copy, PartialEq, Eq, Structural)]
pub enum WeightSource {
    /// The weights given with the problem.
    Problem,
    /// The weights given in the options.
    Options,
    /// Weights derived from the response magnitudes.
    InverseMagnitude,
    /// No weighting.
    Unweighted,
}

/// Explicit weights win (those of the problem before those of the options); without
/// them the weighting strategy decides.
pub open spec fn weight_source_of(problem: bool, options: bool, strategy: WeightStrategy) -> WeightSource {
    if problem {
        WeightSource::Problem
    } else if options {
        WeightSource::Options
    } else {
        match strategy {
            WeightStrategy::InverseMagnitude => WeightSource::InverseMagnitude,
            WeightStrategy::Uniform => WeightSource::Unweighted,
        }
    }
}

/// Which weights a fit uses.
pub fn weight_source(problem_has_weights: bool, options_have_weights: bool, strategy: WeightStrategy) -> (w:
    WeightSource)
    ensures
        w == weight_source_of(problem_has_weights, options_have_weights, strategy),
{
    if problem_has_weights {
        WeightSource::Problem
    } else if options_have_weights {
        WeightSource::Options
    } else {
        match strategy {
            WeightStrategy::InverseMagnitude => WeightSource::InverseMagnitude,
            WeightStrategy::Uniform => WeightSource::Unweighted,
        }
    }
}

} // verus!
