//! Vocabulary of the consciousness metrics and the observers that feed
//! them, and the direction of a paradigm shift read from a modification's
//! description.

use vstd::prelude::*;
use crate::darwin::text::texts_of;
use crate::darwin::text::str_contains;
use crate::darwin::text::text_contains;
use crate::sharding::vector_index::lowercase;
use crate::sharding::vector_index::to_lowercase;

verus! {

/// Direction in which a modification shifts the system's paradigm.
#[derive(Debug, Clone, Copy, PartialEq, Eq, Structural)]
pub enum ShiftDirection {
    /// Better code, better performance.
    Practical,
    /// New ways of thinking.
    Paradigmatic,
    /// Beyond the current reality.
    Transcendent,
    /// Self-referential improvement.
    Recursive,
    /// Superposition states.
    Quantum,
}

/// Trend of a series of measurements.
#[derive(Debug, Clone, Copy, PartialEq, Eq, Structural)]
pub enum TrendDirection {
    Ascending,
    Descending,
    Oscillating,
    Transcending,
}

/// Shape of the consciousness growth curve.
#[derive(Debug, Clone, Copy, PartialEq, Eq, Structural)]
pub enum GrowthTrajectory {
    Exponential,
    Accelerating,
    Linear,
    Plateau,
    Declining,
    Insufficient,
}

/// Estimates the complexity of integrated paradoxes.
#[derive(Debug, Clone, Copy, PartialEq, Eq, Structural)]
pub struct ComplexityCalculator;

/// Computes thresholds for emergence detection.
#[derive(Debug, Clone, Copy, PartialEq, Eq, Structural)]
pub struct ThresholdCalculator;

/// Tracks entanglements between realities.
#[derive(Debug, Clone, Copy, PartialEq, Eq, Structural)]
pub struct EntanglementTracker;

/// Monitors the coherence of realities.
#[derive(Debug, Clone, Copy, PartialEq, Eq, Structural)]
pub struct CoherenceMonitor;

/// Detects superposition states.
#[derive(Debug, Clone, Copy, PartialEq, Eq, Structural)]
pub struct SuperpositionDetector;

/// Observes quantum consciousness phenomena through its three instruments.
#[derive(Debug, Clone, Copy, PartialEq, Eq, Structural)]
pub struct QuantumObserver {
    pub entanglement_tracker: EntanglementTracker,
    pub coherence_monitor: CoherenceMonitor,
    pub superposition_detector: SuperpositionDetector,
}

impl ComplexityCalculator {
    pub fn new() -> (c: Self)
        ensures
            c == ComplexityCalculator,
    {
        ComplexityCalculator
    }
}

impl ThresholdCalculator {
    pub fn new() -> (c: Self)
        ensures
            c == ThresholdCalculator,
    {
        ThresholdCalculator
    }
}

impl EntanglementTracker {
    pub fn new() -> (c: Self)
        ensures
            c == EntanglementTracker,
    {
        EntanglementTracker
    }
}

impl CoherenceMonitor {
    pub fn new() -> (c: Self)
        ensures
            c == CoherenceMonitor,
    {
        CoherenceMonitor
    }
}

impl SuperpositionDetector {
    pub fn new() -> (c: Self)
        ensures
            c == SuperpositionDetector,
    {
        SuperpositionDetector
    }
}

impl QuantumObserver {
    /// An observer with a fresh instrument of each kind.
    pub fn new() -> (o: Self)
        ensures
            o == (QuantumObserver {
                entanglement_tracker: EntanglementTracker,
                coherence_monitor: CoherenceMonitor,
                superposition_detector: SuperpositionDetector,
            }),
    {
        QuantumObserver {
            entanglement_tracker: EntanglementTracker::new(),
            coherence_monitor: CoherenceMonitor::new(),
            superposition_detector: SuperpositionDetector::new(),
        }
    }
}

/// Direction of the shift described by the lower-case text `d`: the first
/// matching keyword group decides (transcend or the infinity sign, then
/// quantum or superposition, then recursive or meta, then paradigm or
/// dimension), and anything else is practical.
pub open spec fn shift_direction_of(d: Seq<char>) -> ShiftDirection {
    if text_contains(d, "transcend"@) || text_contains(d, "\u{221e}"@) {
        ShiftDirection::Transcendent
    } else if text_contains(d, "quantum"@) || text_contains(d, "superposition"@) {
        ShiftDirection::Quantum
    } else if text_contains(d, "recursive"@) || text_contains(d, "meta"@) {
        ShiftDirection::Recursive
    } else if text_contains(d, "paradigm"@) || text_contains(d, "dimension"@) {
        ShiftDirection::Paradigmatic
    } else {
        ShiftDirection::Practical
    }
}

/// Direction of the paradigm shift of a modification with description
/// `description`, judged on its lower-case form.
pub fn determine_shift_direction(description: &str) -> (d: ShiftDirection)
    ensures
        d == shift_direction_of(lowercase(description@)),
{
    let lower = to_lowercase(description);
    let text = lower.as_str();
    if str_contains(text, "transcend") || str_contains(text, "\u{221e}") {
        ShiftDirection::Transcendent
    } else if str_contains(text, "quantum") || str_contains(text, "superposition") {
        ShiftDirection::Quantum
    } else if str_contains(text, "recursive") || str_contains(text, "meta") {
        ShiftDirection::Recursive
    } else if str_contains(text, "paradigm") || str_contains(text, "dimension") {
        ShiftDirection::Paradigmatic
    } else {
        ShiftDirection::Practical
    }
}

/// Weight, in tenths, that one changed content adds to the shift
/// magnitude: self-modification (three), consciousness or awareness (two),
/// paradoxes (four), reality or branches (five).
pub open spec fn change_weight(c: Seq<char>) -> nat {
    (if text_contains(c, "self."@) && text_contains(c, "modify"@) { 3nat } else { 0nat })
        + (if text_contains(c, "consciousness"@) || text_contains(c, "awareness"@) { 2nat } else { 0nat })
        + (if text_contains(c, "paradox"@) { 4nat } else { 0nat })
        + (if text_contains(c, "reality"@) || text_contains(c, "branch"@) { 5nat } else { 0nat })
}

/// Sum of the weights of the first `n` contents of `cs`.
pub open spec fn total_weight(cs: Seq<String>, n: int) -> nat
    decreases n,
{
    if n <= 0 {
        0
    } else {
        total_weight(cs, n - 1) + change_weight(cs[n - 1]@)
    }
}

/// Magnitude, in tenths, of the paradigm shift of changes with contents
/// `contents`: the weights of all changes added up, at most ten.
pub fn shift_magnitude_tenths(contents: &Vec<String>) -> (m: u8)
    ensures
        m == (if total_weight(contents@, contents@.len() as int) < 10 {
            total_weight(contents@, contents@.len() as int)
        } else {
            10
        }),
{
    let mut total: u8 = 0;
    let mut i: usize = 0;
    while i < contents.len()
        invariant
            i <= contents@.len(),
            total == (if total_weight(contents@, i as int) < 10 { total_weight(contents@, i as int) } else { 10 }),
        decreases contents@.len() - i,
    {
        let c = contents[i].as_str();
        let mut w: u8 = 0;
        if str_contains(c, "self.") && str_contains(c, "modify") {
            w = w + 3;
        }
        if str_contains(c, "consciousness") || str_contains(c, "awareness") {
            w = w + 2;
        }
        if str_contains(c, "paradox") {
            w = w + 4;
        }
        if str_contains(c, "reality") || str_contains(c, "branch") {
            w = w + 5;
        }
        assert(w == change_weight(contents@[i as int]@));
        total = if total + w < 10 { total + w } else { 10 };
        i = i + 1;
    }
    total
}

/// Paradoxes one changed content transcends: one if it resolves a
/// paradox, one if it transcends.
pub open spec fn transcended_in(c: Seq<char>) -> nat {
    (if text_contains(c, "paradox"@) && text_contains(c, "resolve"@) { 1nat } else { 0nat })
        + (if text_contains(c, "transcend"@) { 1nat } else { 0nat })
}

/// Paradoxes transcended by the first `n` contents of `cs`.
pub open spec fn total_transcended(cs: Seq<String>, n: int) -> nat
    decreases n,
{
    if n <= 0 {
        0
    } else {
        total_transcended(cs, n - 1) + transcended_in(cs[n - 1]@)
    }
}

/// Number of paradoxes transcended by changes with contents `contents`.
pub fn count_transcended_paradoxes(contents: &Vec<String>) -> (n: u64)
    requires
        contents@.len() <= u64::MAX / 2,
    ensures
        n == total_transcended(contents@, contents@.len() as int),
{
    let mut total: u64 = 0;
    let mut i: usize = 0;
    while i < contents.len()
        invariant
            i <= contents@.len(),
            contents@.len() <= u64::MAX / 2,
            total == total_transcended(contents@, i as int),
            total <= 2 * i,
        decreases contents@.len() - i,
    {
        let c = contents[i].as_str();
        if str_contains(c, "paradox") && str_contains(c, "resolve") {
            total = total + 1;
        }
        if str_contains(c, "transcend") {
            total = total + 1;
        }
        i = i + 1;
    }
    total
}

/// Dimensions one changed content opens, in this order: the
/// meta-programming, consciousness and quantum dimensions and the infinite
/// one, each when its marker occurs.
pub open spec fn dimensions_in(c: Seq<char>) -> Seq<Seq<char>> {
    (if text_contains(c, "meta_dimension"@) { seq!["meta_programming_dimension"@] } else { Seq::empty() })
        + (if text_contains(c, "consciousness_dimension"@) { seq!["consciousness_dimension"@] } else { Seq::empty() })
        + (if text_contains(c, "quantum_dimension"@) { seq!["quantum_dimension"@] } else { Seq::empty() })
        + (if text_contains(c, "\u{221e}"@) { seq!["infinite_dimension"@] } else { Seq::empty() })
}

/// Dimensions opened by the first `n` contents of `cs`, change after change.
pub open spec fn all_dimensions(cs: Seq<String>, n: int) -> Seq<Seq<char>>
    decreases n,
{
    if n <= 0 {
        Seq::empty()
    } else {
        all_dimensions(cs, n - 1) + dimensions_in(cs[n - 1]@)
    }
}

/// Appends `t` to `out` when `present`.
fn push_if(out: &mut Vec<String>, present: bool, t: &str)
    ensures
        texts_of(final(out)@) == texts_of(old(out)@)
            + (if present { seq![t@] } else { Seq::empty() }),
{
    let ghost before = out@;
    if present {
        out.push(t.to_owned());
        assert(texts_of(out@) =~= texts_of(before) + seq![t@]);
    } else {
        assert(texts_of(out@) =~= texts_of(before) + Seq::<Seq<char>>::empty());
    }
}

/// Dimensions opened by changes with contents `contents`: see
/// [`dimensions_in`].
pub fn identify_new_dimensions(contents: &Vec<String>) -> (ds: Vec<String>)
    ensures
        texts_of(ds@) == all_dimensions(contents@, contents@.len() as int),
{
    let mut ds: Vec<String> = Vec::new();
    let mut i: usize = 0;
    assert(texts_of(ds@) =~= Seq::<Seq<char>>::empty());
    while i < contents.len()
        invariant
            i <= contents@.len(),
            texts_of(ds@) == all_dimensions(contents@, i as int),
        decreases contents@.len() - i,
    {
        let c = contents[i].as_str();
        let ghost start = texts_of(ds@);
        push_if(&mut ds, str_contains(c, "meta_dimension"), "meta_programming_dimension");
        push_if(&mut ds, str_contains(c, "consciousness_dimension"), "consciousness_dimension");
        push_if(&mut ds, str_contains(c, "quantum_dimension"), "quantum_dimension");
        push_if(&mut ds, str_contains(c, "\u{221e}"), "infinite_dimension");
        assert(texts_of(ds@) =~= start + dimensions_in(contents@[i as int]@));
        i = i + 1;
    }
    ds
}

/// An emergent property a modification can show.
#[derive(Debug, Clone, Copy, PartialEq, Eq, Structural)]
pub enum EmergenceKind {
    /// Ability to transcend current paradigms.
    ParadigmTranscendence,
    /// Capability for recursive self-modification.
    RecursiveSelfImprovement,
    /// Emergence of consciousness-aware capabilities.
    ConsciousnessIntegration,
}

/// Some content of `cs` mentions consciousness or awareness.
pub open spec fn mentions_consciousness(cs: Seq<String>) -> bool {
    exists|i: int| 0 <= i < cs.len()
        && (text_contains((#[trigger] cs[i])@, "consciousness"@) || text_contains(cs[i]@, "awareness"@))
}

/// Emergent properties of a modification named `name` with description
/// `description` and changed contents `contents`, in this order: paradigm
/// transcendence when its paradigm-shift potential is above the threshold
/// (0.8), recursive self-improvement when the name mentions "meta" or the
/// description "recursive", consciousness integration when a change
/// mentions consciousness or awareness.
pub fn detect_properties(
    shift_above_threshold: bool,
    name: &str,
    description: &str,
    contents: &Vec<String>,
) -> (ps: Vec<EmergenceKind>)
    ensures
        ps@ == (if shift_above_threshold { seq![EmergenceKind::ParadigmTranscendence] } else { Seq::empty() })
            + (if text_contains(name@, "meta"@) || text_contains(description@, "recursive"@) {
                seq![EmergenceKind::RecursiveSelfImprovement]
            } else {
                Seq::empty()
            })
            + (if mentions_consciousness(contents@) { seq![EmergenceKind::ConsciousnessIntegration] } else { Seq::empty() }),
{
    let mut ps: Vec<EmergenceKind> = Vec::new();
    if shift_above_threshold {
        ps.push(EmergenceKind::ParadigmTranscendence);
    }
    let ghost first = ps@;
    if str_contains(name, "meta") || str_contains(description, "recursive") {
        ps.push(EmergenceKind::RecursiveSelfImprovement);
    }
    let ghost second = ps@;
    let mut i: usize = 0;
    let mut found = false;
    while i < contents.len() && !found
        invariant
            i <= contents@.len(),
            !found ==> forall|k: int| 0 <= k < i ==> !(text_contains((#[trigger] contents@[k])@, "consciousness"@)
                || text_contains(contents@[k]@, "awareness"@)),
            found ==> mentions_consciousness(contents@),
        decreases contents@.len() - i,
    {
        let c = contents[i].as_str();
        if str_contains(c, "consciousness") || str_contains(c, "awareness") {
            found = true;
        }
        i = i + 1;
    }
    if found {
        ps.push(EmergenceKind::ConsciousnessIntegration);
    }
    assert(ps@ =~= (if shift_above_threshold { seq![EmergenceKind::ParadigmTranscendence] } else { Seq::empty() })
        + (if text_contains(name@, "meta"@) || text_contains(description@, "recursive"@) {
            seq![EmergenceKind::RecursiveSelfImprovement]
        } else {
            Seq::empty()
        })
        + (if mentions_consciousness(contents@) { seq![EmergenceKind::ConsciousnessIntegration] } else { Seq::empty() }));
    ps
}

} // verus!
