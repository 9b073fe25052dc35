//! The analysis, hypothesis and evaluation engines of the improvement loop.

use vstd::prelude::*;

verus! {

/// Analyses code.
#[derive(Debug, Clone, Copy, PartialEq, Eq, Structural)]
pub struct CodeAnalysis {}

/// Proposes hypotheses about improvements.
#[derive(Debug, Clone, Copy, PartialEq, Eq, Structural)]
pub struct Hypothesis {}

/// Judges whether a change improved the metrics.
#[derive(Debug, Clone, Copy, PartialEq, Eq, Structural)]
pub struct Evaluation {}

impl CodeAnalysis {
    pub fn new() -> (a: Self)
        ensures
            a == (CodeAnalysis {}),
    {
        CodeAnalysis {}
    }
}

/// The hypothesis the engine proposes.
pub open spec fn standard_hypothesis() -> Seq<char> {
    "If I refactor this function to use a more efficient algorithm, then the performance will improve."@
}

impl Hypothesis {
    pub fn new() -> (h: Self)
        ensures
            h == (Hypothesis {}),
    {
        Hypothesis {}
    }

    /// A hypothesis about how to improve the analysed code.
    pub fn generate(&self) -> (h: String)
        ensures
            h@ == standard_hypothesis(),
    {
        "If I refactor this function to use a more efficient algorithm, then the performance will improve.".to_owned()
    }
}

impl Evaluation {
    pub fn new() -> (e: Self)
        ensures
            e == (Evaluation {}),
    {
        Evaluation {}
    }
}

} // verus!
