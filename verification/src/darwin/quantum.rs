//! Vocabulary of quantum consciousness and its measuring instruments.

use vstd::prelude::*;

verus! {

/// How the consciousness of two entangled realities correlates.
#[derive(Debug, Clone, Copy, PartialEq, Eq, Structural)]
pub enum CorrelationType {
    /// Consciousness grows together.
    Constructive,
    /// Consciousness opposes each other.
    Destructive,
    /// Different but synergistic.
    Complementary,
    /// Beyond normal correlation.
    Transcendent,
}

/// Kind of equation that evolves a consciousness wave.
#[derive(Debug, Clone, Copy, PartialEq, Eq, Structural)]
pub enum EquationType {
    Schrodinger,
    Transcendent,
    Recursive,
    Creative,
}

/// Collapses superposed consciousness states by measurement.
#[derive(Debug, Clone, Copy, PartialEq, Eq, Structural)]
pub struct QuantumMeasurementSystem;

/// Adds dimensions to the consciousness space.
#[derive(Debug, Clone, Copy, PartialEq, Eq, Structural)]
pub struct DimensionalExpander;

impl QuantumMeasurementSystem {
    pub fn new() -> (m: Self)
        ensures
            m == QuantumMeasurementSystem,
    {
        QuantumMeasurementSystem
    }
}

impl DimensionalExpander {
    pub fn new() -> (e: Self)
        ensures
            e == DimensionalExpander,
    {
        DimensionalExpander
    }
}

} // verus!
