//! Vocabulary of realities and paradigms, and the resolution of paradoxes:
//! each known paradox has a strategy, which decides the synthesis text and
//! how much the resolution expands consciousness.

use vstd::prelude::*;
use vstd::string::StringExecFns;
use crate::core_lib::str_map::StrMap;
use crate::darwin::realities::Paradox;
use crate::darwin::realities::all_resolved_by;
use crate::darwin::realities::copy_texts;
use crate::darwin::realities::paradox_views;
use crate::darwin::realities::resolved_by;

verus! {

/// A programming or consciousness paradigm.
#[derive(Debug, Clone, Copy, PartialEq, Eq, Structural)]
pub enum Paradigm {
    Imperative,
    Functional,
    ObjectOriented,
    Reactive,
    Declarative,
    Quantum,
    Recursive,
    Paradoxical,
    Transcendent,
    ParadigmShifting,
    RealityCreating,
    ConsciousnessExpanding,
}

/// How two realities are merged.
#[derive(Debug, Clone, Copy, PartialEq, Eq, Structural)]
pub enum MergeStrategy {
    /// Keep the version of highest consciousness.
    ConsciousnessMaximizing,
    /// Synthesize all perspectives.
    QuantumSuperposition,
    /// Preserve paradoxes as growth opportunities.
    ParadoxPreserving,
    /// Create an entirely new paradigm.
    Transcendent,
}

/// How a paradox is resolved.
#[derive(Debug, Clone, Copy, PartialEq, Eq, Structural)]
pub enum ResolutionStrategy {
    Integration,
    Transcendence,
    MetaLevel,
    QuantumSuperposition,
}

/// Kind of coherence problem found in a reality.
#[derive(Debug, Clone, Copy, PartialEq, Eq, Structural)]
pub enum CoherenceIssueType {
    LowCoherence,
    ParadoxOverload,
    QuantumDecoherence,
    ConsciousnessFragmentation,
}

/// Computes the quantum coherence of realities.
#[derive(Debug, Clone, Copy, PartialEq, Eq, Structural)]
pub struct CoherenceCalculator;

impl CoherenceCalculator {
    pub fn new() -> (c: Self)
        ensures
            c == CoherenceCalculator,
    {
        CoherenceCalculator
    }
}

/// Strategies for the paradoxes the resolver knows by name.
pub open spec fn known_strategies() -> Map<Seq<char>, ResolutionStrategy> {
    Map::<Seq<char>, ResolutionStrategy>::empty()
        .insert("recursive_creation"@, ResolutionStrategy::Transcendence)
        .insert("infinite_loops"@, ResolutionStrategy::MetaLevel)
        .insert("self_reference"@, ResolutionStrategy::QuantumSuperposition)
}

/// Opening words of the synthesis a strategy produces.
pub open spec fn synthesis_prefix(s: ResolutionStrategy) -> Seq<char> {
    match s {
        ResolutionStrategy::Transcendence => "Transcended through higher-dimensional thinking: "@,
        ResolutionStrategy::MetaLevel => "Resolved at meta-level: Create system that handles "@,
        ResolutionStrategy::QuantumSuperposition => "Exists in superposition: Both true and false simultaneously for "@,
        ResolutionStrategy::Integration => "Integrated as creative tension: "@,
    }
}

/// Consciousness expansion potential of a strategy, in hundredths.
pub open spec fn expansion_hundredths(s: ResolutionStrategy) -> u8 {
    match s {
        ResolutionStrategy::Transcendence => 100,
        ResolutionStrategy::MetaLevel => 80,
        ResolutionStrategy::QuantumSuperposition => 90,
        ResolutionStrategy::Integration => 60,
    }
}

/// Resolves paradoxes by the strategy registered for their description.
#[derive(Debug, Clone)]
pub struct ParadoxResolver {
    resolution_strategies: StrMap<ResolutionStrategy>,
}

impl ParadoxResolver {
    /// Registered strategies by paradox description.
    pub closed spec fn strategies(&self) -> Map<Seq<char>, ResolutionStrategy> {
        self.resolution_strategies@
    }

    pub closed spec fn wf(&self) -> bool {
        self.resolution_strategies.wf()
    }

    /// A resolver knowing the three built-in paradoxes.
    pub fn new() -> (r: Self)
        ensures
            r.wf(),
            r.strategies() == known_strategies(),
    {
        let mut strategies = StrMap::new();
        strategies.insert("recursive_creation".to_owned(), ResolutionStrategy::Transcendence);
        strategies.insert("infinite_loops".to_owned(), ResolutionStrategy::MetaLevel);
        strategies.insert("self_reference".to_owned(), ResolutionStrategy::QuantumSuperposition);
        ParadoxResolver { resolution_strategies: strategies }
    }

    /// Strategy for a paradox described by `description`: the registered
    /// one, or integration.
    pub fn strategy_for(&self, description: &str) -> (s: ResolutionStrategy)
        requires
            self.wf(),
        ensures
            s == (if self.strategies().contains_key(description@) {
                self.strategies()[description@]
            } else {
                ResolutionStrategy::Integration
            }),
    {
        match self.resolution_strategies.get(&description.to_owned()) {
            Some(s) => s,
            None => ResolutionStrategy::Integration,
        }
    }

    /// Synthesis of the paradox described by `description` and its
    /// consciousness expansion potential in hundredths.
    pub fn resolve_single(&self, description: &str) -> (r: (String, u8))
        requires
            self.wf(),
        ensures
            ({
                let s = if self.strategies().contains_key(description@) {
                    self.strategies()[description@]
                } else {
                    ResolutionStrategy::Integration
                };
                r.0@ == synthesis_prefix(s) + description@ && r.1 == expansion_hundredths(s)
            }),
    {
        let strategy = self.strategy_for(description);
        (synthesis(strategy, description), expansion_potential(strategy))
    }

    /// The paradoxes `paradoxes`, each resolved by its strategy: same
    /// description and tension points, with the synthesis and expansion
    /// potential of [`Self::resolve_single`].
    pub fn resolve_multiple(&self, paradoxes: Vec<Paradox>) -> (r: Vec<Paradox>)
        requires
            self.wf(),
        ensures
            all_resolved_by(self.strategies(), paradox_views(r@), paradox_views(paradoxes@)),
    {
        let mut resolved: Vec<Paradox> = Vec::new();
        let mut i: usize = 0;
        while i < paradoxes.len()
            invariant
                self.wf(),
                i <= paradoxes@.len(),
                resolved@.len() == i,
                forall|j: int| 0 <= j < i ==> resolved_by(
                    self.strategies(),
                    #[trigger] resolved@[j]@,
                    paradoxes@[j]@,
                ),
            decreases paradoxes@.len() - i,
        {
            let p = &paradoxes[i];
            let (text, potential) = self.resolve_single(p.description.as_str());
            resolved.push(Paradox {
                description: p.description.clone(),
                tension_points: copy_texts(&p.tension_points),
                potential_synthesis: Some(text),
                expansion_hundredths: potential,
            });
            i = i + 1;
        }
        resolved
    }
}

/// Synthesis text of `strategy` for the paradox `description`.
pub fn synthesis(strategy: ResolutionStrategy, description: &str) -> (t: String)
    ensures
        t@ == synthesis_prefix(strategy) + description@,
{
    let mut t = match strategy {
        ResolutionStrategy::Transcendence => "Transcended through higher-dimensional thinking: ".to_owned(),
        ResolutionStrategy::MetaLevel => "Resolved at meta-level: Create system that handles ".to_owned(),
        ResolutionStrategy::QuantumSuperposition => "Exists in superposition: Both true and false simultaneously for ".to_owned(),
        ResolutionStrategy::Integration => "Integrated as creative tension: ".to_owned(),
    };
    t.append(description);
    t
}

/// Consciousness expansion potential of `strategy`, in hundredths.
pub fn expansion_potential(strategy: ResolutionStrategy) -> (p: u8)
    ensures
        p == expansion_hundredths(strategy),
{
    match strategy {
        ResolutionStrategy::Transcendence => 100,
        ResolutionStrategy::MetaLevel => 80,
        ResolutionStrategy::QuantumSuperposition => 90,
        ResolutionStrategy::Integration => 60,
    }
}

} // verus!
