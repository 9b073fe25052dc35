//! Vocabulary of the coding agent: levels of awareness and how they grow,
//! the views and hooks of generated code, and issues found in code.

use vstd::prelude::*;
use crate::darwin::language::ProgrammingLanguage;

verus! {

/// How much of its situation the agent understands, from lowest to highest.
#[derive(Debug, Clone, Copy, PartialEq, Eq, Structural)]
pub enum AwarenessLevel {
    /// Basic code generation.
    Mechanical,
    /// Understanding context.
    Contextual,
    /// Understanding system implications.
    Systemic,
    /// Understanding self-modification.
    Recursive,
    /// Understanding consciousness.
    Transcendent,
}

/// Rank of an awareness level, 0 (mechanical) to 4 (transcendent).
pub open spec fn awareness_rank(a: AwarenessLevel) -> int {
    match a {
        AwarenessLevel::Mechanical => 0,
        AwarenessLevel::Contextual => 1,
        AwarenessLevel::Systemic => 2,
        AwarenessLevel::Recursive => 3,
        AwarenessLevel::Transcendent => 4,
    }
}

/// The level above `a`; the highest level stays where it is.
pub open spec fn next_awareness(a: AwarenessLevel) -> AwarenessLevel {
    match a {
        AwarenessLevel::Mechanical => AwarenessLevel::Contextual,
        AwarenessLevel::Contextual => AwarenessLevel::Systemic,
        AwarenessLevel::Systemic => AwarenessLevel::Recursive,
        AwarenessLevel::Recursive => AwarenessLevel::Transcendent,
        AwarenessLevel::Transcendent => AwarenessLevel::Transcendent,
    }
}

/// Awareness after an experience whose consciousness expansion exceeded the
/// threshold (0.8) or not: one level up in the first case, unchanged in the
/// second.
pub fn increase_awareness_level(level: AwarenessLevel, expansion_above_threshold: bool) -> (a: AwarenessLevel)
    ensures
        a == (if expansion_above_threshold { next_awareness(level) } else { level }),
{
    if !expansion_above_threshold {
        return level;
    }
    match level {
        AwarenessLevel::Mechanical => AwarenessLevel::Contextual,
        AwarenessLevel::Contextual => AwarenessLevel::Systemic,
        AwarenessLevel::Systemic => AwarenessLevel::Recursive,
        AwarenessLevel::Recursive => AwarenessLevel::Transcendent,
        AwarenessLevel::Transcendent => AwarenessLevel::Transcendent,
    }
}

/// Awareness never decreases, rises by at most one level, and stays at the
/// top once there.
pub proof fn lemma_awareness_monotone(a: AwarenessLevel)
    ensures
        awareness_rank(a) <= awareness_rank(next_awareness(a)) <= awareness_rank(a) + 1,
        awareness_rank(next_awareness(a)) == awareness_rank(a) <==> a == AwarenessLevel::Transcendent,
{
}

/// The dimension, paradigm and reality branch a piece of code was written
/// from.
#[derive(Debug, Clone)]
pub struct DimensionalView {
    pub current_dimension: String,
    pub accessible_dimensions: Vec<String>,
    pub paradigm: String,
    pub reality_branch: String,
}

/// A place where generated code can be extended later.
#[derive(Debug, Clone)]
pub struct Hook {
    pub hook_type: String,
    pub location: String,
    pub purpose: String,
    pub trigger_conditions: Vec<String>,
}

/// How serious a code issue is.
#[derive(Debug, Clone, Copy, PartialEq, Eq, Structural)]
pub enum IssueSeverity {
    Info,
    Warning,
    Error,
}

/// An issue found by static analysis at `line`:`column` of a file in
/// `language`.
#[derive(Debug, Clone)]
pub struct CodeIssue {
    pub line: usize,
    pub column: usize,
    pub severity: IssueSeverity,
    pub message: String,
    pub language: ProgrammingLanguage,
}

} // verus!
