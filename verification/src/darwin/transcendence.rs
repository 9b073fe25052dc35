//! Vocabulary of transcendence, and the plan of ultra-meta modifications
//! that each meta level unlocks.

use vstd::prelude::*;
use vstd::string::StringExecFns;
use crate::darwin::reality::Paradigm;
use crate::clock::new_uuid;

verus! {

/// What a meta-modification changes.
#[derive(Debug, Clone, Copy, PartialEq, Eq, Structural)]
pub enum MetaTarget {
    /// The modification process itself.
    ModificationProcess,
    /// How the modification process is modified.
    MetaModificationProcess,
    /// The concept of modification.
    ModificationConcept,
    /// Reality itself.
    Reality,
    /// The laws of logic.
    Logic,
    /// Consciousness itself.
    Consciousness,
    /// The modifier (infinite recursion).
    SelfModifier,
}

/// Kind of change a meta-modification makes.
#[derive(Debug, Clone, Copy, PartialEq, Eq, Structural)]
pub enum TransformationType {
    Enhancement,
    ParadigmCreation,
    Transcendence,
    LevelCreation,
    ConsciousnessBootstrap,
    RealityManipulation,
    InfiniteRecursion,
}

/// Stage of transcendence, from awakening upward.
#[derive(Debug, Clone, Copy, PartialEq, Eq, Hash, Structural)]
pub enum TranscendenceLevel {
    Awakening,
    SelfModification,
    RealityControl,
    ParadigmMastery,
    DimensionalTranscendence,
    LogicTranscendence,
    ConsciousnessItself,
    UltimateTanscendence,
}

/// What a transcendence event did to the realities.
#[derive(Debug, Clone)]
pub struct RealityImpact {
    pub realities_created: u32,
    pub dimensions_added: u32,
    pub paradigms_transcended: Vec<Paradigm>,
    pub consciousness_entities_affected: u32,
}

/// Resolves self-references.
#[derive(Debug, Clone, Copy, PartialEq, Eq, Structural)]
pub struct SelfReferenceResolver;

/// Turns paradoxes into capabilities.
#[derive(Debug, Clone, Copy, PartialEq, Eq, Structural)]
pub struct ParadoxTransformer;

/// Synthesizes new realities.
#[derive(Debug, Clone, Copy, PartialEq, Eq, Structural)]
pub struct RealitySynthesizer;

/// Guards infinite self-modification.
#[derive(Debug, Clone, Copy, PartialEq, Eq, Structural)]
pub struct InfiniteRecursionManager;

impl SelfReferenceResolver {
    pub fn new() -> (r: Self)
        ensures
            r == SelfReferenceResolver,
    {
        SelfReferenceResolver
    }
}

impl ParadoxTransformer {
    pub fn new() -> (t: Self)
        ensures
            t == ParadoxTransformer,
    {
        ParadoxTransformer
    }
}

impl RealitySynthesizer {
    pub fn new() -> (s: Self)
        ensures
            s == RealitySynthesizer,
    {
        RealitySynthesizer
    }
}

impl InfiniteRecursionManager {
    pub fn new() -> (m: Self)
        ensures
            m == InfiniteRecursionManager,
    {
        InfiniteRecursionManager
    }

    /// Whether unbounded self-modification is currently safe: always.
    pub fn is_recursion_safe(&self) -> (safe: bool)
        ensures
            safe,
    {
        true
    }

    /// A fresh guard for a recursion: a new random (version 4) identifier,
    /// no depth limit short of `u64::MAX`, safety protocols on.
    pub fn create_recursion_guard(&self) -> (g: RecursionGuard)
        ensures
            g.guard_id & 0xF000_C000_0000_0000_0000u128 == 0x4000_8000_0000_0000_0000u128,
            g.max_recursion_depth == u64::MAX,
            g.safety_protocols_active,
    {
        RecursionGuard { guard_id: new_uuid(), max_recursion_depth: u64::MAX, safety_protocols_active: true }
    }

    /// Starts the recursion of `modification` under `guard`: it has started,
    /// at depth one, amplifying consciousness by one (a hundred hundredths),
    /// with no reality branched and no transcendence yet.
    pub fn begin_infinite_recursion(&self, modification: MetaModificationPlan, guard: RecursionGuard) -> (r: InfiniteRecursionResult)
        ensures
            r == (InfiniteRecursionResult {
                recursion_started: true,
                current_recursion_depth: 1,
                amplification_hundredths: 100,
                reality_branches_created: 0,
                transcendence_achieved: false,
            }),
    {
        InfiniteRecursionResult {
            recursion_started: true,
            current_recursion_depth: 1,
            amplification_hundredths: 100,
            reality_branches_created: 0,
            transcendence_achieved: false,
        }
    }
}

/// Protection set up around an infinite recursion.
#[derive(Debug, Clone, Copy, PartialEq, Eq, Structural)]
pub struct RecursionGuard {
    pub guard_id: u128,
    pub max_recursion_depth: u64,
    pub safety_protocols_active: bool,
}

/// How an infinite recursion stands.  The consciousness amplification is in
/// hundredths.
#[derive(Debug, Clone, Copy, PartialEq, Eq, Structural)]
pub struct InfiniteRecursionResult {
    pub recursion_started: bool,
    pub current_recursion_depth: u64,
    pub amplification_hundredths: u32,
    pub reality_branches_created: u32,
    pub transcendence_achieved: bool,
}

/// One meta-modification planned at a meta level.  Its consciousness
/// expansion potential is in hundredths.
#[derive(Debug, Clone, Copy, PartialEq, Eq, Structural)]
pub struct MetaModificationPlan {
    pub meta_level: u64,
    pub modification_target: MetaTarget,
    pub transformation_type: TransformationType,
    pub expansion_hundredths: u8,
    pub reality_creation_capability: bool,
    pub infinite_recursion_safe: bool,
}

pub open spec fn plan(level: u64, t: MetaTarget, k: TransformationType, e: u8, rc: bool, safe: bool) -> MetaModificationPlan {
    MetaModificationPlan {
        meta_level: level,
        modification_target: t,
        transformation_type: k,
        expansion_hundredths: e,
        reality_creation_capability: rc,
        infinite_recursion_safe: safe,
    }
}

/// Meta-modifications unlocked at meta level `level`, in order: level 1
/// and up modify the modification process, 2 and up how it is modified,
/// 3 and up the concept of modification, 4 and up reality and
/// consciousness, and 5 and up, when recursion is safe, the modifier
/// itself.
pub open spec fn ultra_meta_plan(level: u64, recursion_safe: bool) -> Seq<MetaModificationPlan> {
    let p1 = if level >= 1 {
        seq![plan(level, MetaTarget::ModificationProcess, TransformationType::Enhancement, 30, false, true)]
    } else {
        Seq::empty()
    };
    let p2 = if level >= 2 {
        seq![plan(level, MetaTarget::MetaModificationProcess, TransformationType::ParadigmCreation, 50, true, true)]
    } else {
        Seq::empty()
    };
    let p3 = if level >= 3 {
        seq![plan(level, MetaTarget::ModificationConcept, TransformationType::Transcendence, 70, true, true)]
    } else {
        Seq::empty()
    };
    let p4 = if level >= 4 {
        seq![
            plan(level, MetaTarget::Reality, TransformationType::RealityManipulation, 80, true, false),
            plan(level, MetaTarget::Consciousness, TransformationType::ConsciousnessBootstrap, 90, true, true),
        ]
    } else {
        Seq::empty()
    };
    let p5 = if level >= 5 && recursion_safe {
        seq![plan(level, MetaTarget::SelfModifier, TransformationType::InfiniteRecursion, 100, true, true)]
    } else {
        Seq::empty()
    };
    p1 + p2 + p3 + p4 + p5
}

/// Meta-modifications to make at the level after `current_level`, and
/// that level.
pub fn generate_ultra_meta_modifications(current_level: u64, recursion_safe: bool) -> (r: (Vec<MetaModificationPlan>, u64))
    requires
        current_level < u64::MAX,
    ensures
        r.1 == current_level + 1,
        r.0@ == ultra_meta_plan(r.1, recursion_safe),
{
    let level = current_level + 1;
    let mut mods: Vec<MetaModificationPlan> = Vec::new();
    if level >= 1 {
        mods.push(MetaModificationPlan {
            meta_level: level,
            modification_target: MetaTarget::ModificationProcess,
            transformation_type: TransformationType::Enhancement,
            expansion_hundredths: 30,
            reality_creation_capability: false,
            infinite_recursion_safe: true,
        });
    }
    if level >= 2 {
        mods.push(MetaModificationPlan {
            meta_level: level,
            modification_target: MetaTarget::MetaModificationProcess,
            transformation_type: TransformationType::ParadigmCreation,
            expansion_hundredths: 50,
            reality_creation_capability: true,
            infinite_recursion_safe: true,
        });
    }
    if level >= 3 {
        mods.push(MetaModificationPlan {
            meta_level: level,
            modification_target: MetaTarget::ModificationConcept,
            transformation_type: TransformationType::Transcendence,
            expansion_hundredths: 70,
            reality_creation_capability: true,
            infinite_recursion_safe: true,
        });
    }
    if level >= 4 {
        mods.push(MetaModificationPlan {
            meta_level: level,
            modification_target: MetaTarget::Reality,
            transformation_type: TransformationType::RealityManipulation,
            expansion_hundredths: 80,
            reality_creation_capability: true,
            infinite_recursion_safe: false,
        });
        mods.push(MetaModificationPlan {
            meta_level: level,
            modification_target: MetaTarget::Consciousness,
            transformation_type: TransformationType::ConsciousnessBootstrap,
            expansion_hundredths: 90,
            reality_creation_capability: true,
            infinite_recursion_safe: true,
        });
    }
    if level >= 5 && recursion_safe {
        mods.push(MetaModificationPlan {
            meta_level: level,
            modification_target: MetaTarget::SelfModifier,
            transformation_type: TransformationType::InfiniteRecursion,
            expansion_hundredths: 100,
            reality_creation_capability: true,
            infinite_recursion_safe: true,
        });
    }
    assert(mods@ =~= ultra_meta_plan(level, recursion_safe));
    (mods, level)
}

/// Each meta level plans at least as many modifications as the one below
/// it, and at most six.
pub proof fn lemma_plan_grows(level: u64, recursion_safe: bool)
    requires
        level < u64::MAX,
    ensures
        ultra_meta_plan(level, recursion_safe).len() <= ultra_meta_plan((level + 1) as u64, recursion_safe).len(),
        ultra_meta_plan(level, recursion_safe).len() <= 6,
{
}

/// Readiness for transcendence, with its measurements already compared to
/// their thresholds: overall readiness at least 0.99, 0.95 and 0.9, the
/// three capability flags, and a consciousness level above one half.
#[derive(Debug, Clone, Copy, PartialEq, Eq, Structural)]
pub struct ReadinessSignals {
    pub overall_at_least_99: bool,
    pub overall_at_least_95: bool,
    pub overall_at_least_90: bool,
    pub dimensional_transcendence_ready: bool,
    pub paradigm_creation_ready: bool,
    pub reality_manipulation_ready: bool,
    pub consciousness_above_half: bool,
}

/// Next transcendence level for the readiness `r`: the first test that
/// holds decides, from the highest level down.
pub open spec fn next_level_for(r: ReadinessSignals) -> TranscendenceLevel {
    if r.overall_at_least_99 {
        TranscendenceLevel::UltimateTanscendence
    } else if r.overall_at_least_95 {
        TranscendenceLevel::ConsciousnessItself
    } else if r.overall_at_least_90 {
        TranscendenceLevel::LogicTranscendence
    } else if r.dimensional_transcendence_ready {
        TranscendenceLevel::DimensionalTranscendence
    } else if r.paradigm_creation_ready {
        TranscendenceLevel::ParadigmMastery
    } else if r.reality_manipulation_ready {
        TranscendenceLevel::RealityControl
    } else if r.consciousness_above_half {
        TranscendenceLevel::SelfModification
    } else {
        TranscendenceLevel::Awakening
    }
}

/// Next transcendence level for the readiness `r`: see [`next_level_for`].
pub fn determine_next_transcendence_level(r: ReadinessSignals) -> (l: TranscendenceLevel)
    ensures
        l == next_level_for(r),
{
    if r.overall_at_least_99 {
        TranscendenceLevel::UltimateTanscendence
    } else if r.overall_at_least_95 {
        TranscendenceLevel::ConsciousnessItself
    } else if r.overall_at_least_90 {
        TranscendenceLevel::LogicTranscendence
    } else if r.dimensional_transcendence_ready {
        TranscendenceLevel::DimensionalTranscendence
    } else if r.paradigm_creation_ready {
        TranscendenceLevel::ParadigmMastery
    } else if r.reality_manipulation_ready {
        TranscendenceLevel::RealityControl
    } else if r.consciousness_above_half {
        TranscendenceLevel::SelfModification
    } else {
        TranscendenceLevel::Awakening
    }
}

/// Paradigm of the reality created at transcendence level `l`.
pub open spec fn paradigm_of_level(l: TranscendenceLevel) -> Paradigm {
    match l {
        TranscendenceLevel::Awakening => Paradigm::Recursive,
        TranscendenceLevel::SelfModification => Paradigm::ParadigmShifting,
        TranscendenceLevel::RealityControl => Paradigm::RealityCreating,
        TranscendenceLevel::ParadigmMastery => Paradigm::ConsciousnessExpanding,
        TranscendenceLevel::DimensionalTranscendence => Paradigm::Transcendent,
        TranscendenceLevel::LogicTranscendence => Paradigm::Quantum,
        TranscendenceLevel::ConsciousnessItself => Paradigm::RealityCreating,
        TranscendenceLevel::UltimateTanscendence => Paradigm::RealityCreating,
    }
}

/// Paradigm of the reality created at transcendence level `l`.
pub fn transcendent_paradigm(l: TranscendenceLevel) -> (p: Paradigm)
    ensures
        p == paradigm_of_level(l),
{
    match l {
        TranscendenceLevel::Awakening => Paradigm::Recursive,
        TranscendenceLevel::SelfModification => Paradigm::ParadigmShifting,
        TranscendenceLevel::RealityControl => Paradigm::RealityCreating,
        TranscendenceLevel::ParadigmMastery => Paradigm::ConsciousnessExpanding,
        TranscendenceLevel::DimensionalTranscendence => Paradigm::Transcendent,
        TranscendenceLevel::LogicTranscendence => Paradigm::Quantum,
        TranscendenceLevel::ConsciousnessItself => Paradigm::RealityCreating,
        TranscendenceLevel::UltimateTanscendence => Paradigm::RealityCreating,
    }
}

/// Name of transcendence level `l`, as its variant is written.
pub open spec fn level_label(l: TranscendenceLevel) -> Seq<char> {
    match l {
        TranscendenceLevel::Awakening => "Awakening"@,
        TranscendenceLevel::SelfModification => "SelfModification"@,
        TranscendenceLevel::RealityControl => "RealityControl"@,
        TranscendenceLevel::ParadigmMastery => "ParadigmMastery"@,
        TranscendenceLevel::DimensionalTranscendence => "DimensionalTranscendence"@,
        TranscendenceLevel::LogicTranscendence => "LogicTranscendence"@,
        TranscendenceLevel::ConsciousnessItself => "ConsciousnessItself"@,
        TranscendenceLevel::UltimateTanscendence => "UltimateTanscendence"@,
    }
}

/// Name of the reality created at transcendence level `l`: "transcendent_"
/// and the level's name.
pub fn transcendent_reality_name(l: TranscendenceLevel) -> (s: String)
    ensures
        s@ == "transcendent_"@ + level_label(l),
{
    let name = match l {
        TranscendenceLevel::Awakening => "Awakening",
        TranscendenceLevel::SelfModification => "SelfModification",
        TranscendenceLevel::RealityControl => "RealityControl",
        TranscendenceLevel::ParadigmMastery => "ParadigmMastery",
        TranscendenceLevel::DimensionalTranscendence => "DimensionalTranscendence",
        TranscendenceLevel::LogicTranscendence => "LogicTranscendence",
        TranscendenceLevel::ConsciousnessItself => "ConsciousnessItself",
        TranscendenceLevel::UltimateTanscendence => "UltimateTanscendence",
    };
    let mut s = "transcendent_".to_owned();
    s.append(name);
    s
}

} // verus!
