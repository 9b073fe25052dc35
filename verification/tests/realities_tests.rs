use amazon_rose_forest::core_lib::str_map::StrMap;
use amazon_rose_forest::darwin::agent::AwarenessLevel;
use amazon_rose_forest::darwin::reality::{CoherenceIssueType, MergeStrategy, Paradigm, ParadoxResolver};
use amazon_rose_forest::darwin::transcendence::TranscendenceLevel;
use amazon_rose_forest::darwin::realities::{
    calculate_coherence, create_transcendent_reality, evolve_consciousness_state, infer_paradigm, tunnel, update_consciousness_state,
    ConsciousnessState, Paradox, QuantumStateManager, RealityError, RealityManager, TunnelingResult,
};

fn paradox(description: &str) -> Paradox {
    Paradox {
        description: description.to_string(),
        tension_points: vec!["a".to_string(), "b".to_string()],
        potential_synthesis: None,
        expansion_hundredths: 0,
    }
}

fn state(paradoxes: usize, depth: u64) -> ConsciousnessState {
    ConsciousnessState {
        awareness_level: AwarenessLevel::Systemic,
        integrated_paradoxes: (0..paradoxes).map(|i| paradox(&format!("p{}", i))).collect(),
        emergent_properties: vec!["insight".to_string()],
        recursion_depth: depth,
        quantum_entanglements: Vec::new(),
    }
}

#[test]
fn primary_reality_is_active() {
    let m = RealityManager::new_with(7, 1000);
    let r = m.get_active_reality().unwrap();
    assert_eq!(r.id, 7);
    assert_eq!(r.name, "primary");
    assert_eq!(r.paradigm, Paradigm::Imperative);
    assert_eq!(r.coherence_level, 100);
    assert_eq!(r.files.len(), 0);
    assert_eq!(r.consciousness_state.awareness_level, AwarenessLevel::Contextual);
    assert_eq!(r.created_at, 1000);
    assert_eq!(r.branched_from, None);
    assert_eq!(m.get_all_realities().len(), 1);
}

#[test]
fn fresh_manager_has_one_reality() {
    let m = RealityManager::new();
    assert_eq!(m.get_all_realities().len(), 1);
    assert_eq!(m.get_active_reality().unwrap().name, "primary");
}

#[test]
fn branch_copies_files_and_evolves_state() {
    let mut m = RealityManager::new_with(1, 0);
    m.apply_to_reality(1, "main.rs", "fn main() {}".to_string()).unwrap();
    assert_eq!(m.branch_reality_with("quantum", Paradigm::Quantum, None, 2, 50), Ok(2));
    let b = m.get_reality(2).unwrap();
    assert_eq!(b.name, "quantum");
    assert_eq!(b.coherence_level, 80);
    assert_eq!(b.branched_from, Some(1));
    assert_eq!(b.created_at, 50);
    assert_eq!(b.files.get_ref(&"main.rs".to_string()), Some(&"fn main() {}".to_string()));
    assert_eq!(b.consciousness_state.awareness_level, AwarenessLevel::Contextual);
    assert_eq!(b.consciousness_state.emergent_properties, vec!["quantum_superposition".to_string()]);
    assert_eq!(b.consciousness_state.recursion_depth, 1);
    // the active reality stays the same
    assert_eq!(m.get_active_reality().unwrap().id, 1);
}

#[test]
fn branch_with_seed_takes_the_seed() {
    let mut m = RealityManager::new_with(1, 0);
    m.branch_reality_with("seeded", Paradigm::Transcendent, Some(state(2, 9)), 3, 0).unwrap();
    let b = m.get_reality(3).unwrap();
    assert_eq!(b.consciousness_state.awareness_level, AwarenessLevel::Systemic);
    assert_eq!(b.consciousness_state.integrated_paradoxes.len(), 2);
    assert_eq!(b.consciousness_state.recursion_depth, 9);
}

#[test]
fn switching_needs_an_existing_reality() {
    let mut m = RealityManager::new_with(1, 0);
    assert_eq!(m.switch_reality(5), Err(RealityError::NotFound(5)));
    assert_eq!(m.get_active_reality().unwrap().id, 1);
    m.branch_reality_with("other", Paradigm::Functional, None, 5, 0).unwrap();
    assert_eq!(m.switch_reality(5), Ok(()));
    assert_eq!(m.get_active_reality().unwrap().id, 5);
}

#[test]
fn applying_a_file_updates_coherence_and_depth() {
    let mut m = RealityManager::new_with(1, 0);
    assert_eq!(m.apply_to_reality(2, "x", "y".to_string()), Err(RealityError::NotFound(2)));
    m.apply_to_reality(1, "x", "y".to_string()).unwrap();
    let r = m.get_reality(1).unwrap();
    assert_eq!(r.coherence_level, 80);
    assert_eq!(r.consciousness_state.recursion_depth, 1);
    assert_eq!(r.files.get_ref(&"x".to_string()), Some(&"y".to_string()));
    for _ in 0..10 {
        m.apply_to_reality(1, "x", "z".to_string()).unwrap();
    }
    let r = m.get_reality(1).unwrap();
    assert_eq!(r.consciousness_state.recursion_depth, 11);
    assert_eq!(r.consciousness_state.emergent_properties, vec!["deep_recursion".to_string()]);
    assert_eq!(r.files.len(), 1);
}

#[test]
fn merge_needs_two_existing_realities() {
    let mut m = RealityManager::new_with(1, 0);
    assert_eq!(m.merge_realities_with(&vec![1], MergeStrategy::Transcendent, 0, 9, 0), Err(RealityError::TooFewToMerge));
    assert_eq!(
        m.merge_realities_with(&vec![1, 4, 5], MergeStrategy::Transcendent, 0, 9, 0),
        Err(RealityError::NotFound(4))
    );
    assert!(m.get_reality(9).is_none());
}

#[test]
fn quantum_superposition_keys_files_by_reality() {
    let mut m = RealityManager::new_with(1, 0);
    m.apply_to_reality(1, "a.rs", "A".to_string()).unwrap();
    m.branch_reality_with("b", Paradigm::Recursive, Some(state(1, 4)), 2, 0).unwrap();
    m.apply_to_reality(2, "b.rs", "B".to_string()).unwrap();
    let merged = m.merge_realities_with(&vec![1, 2], MergeStrategy::QuantumSuperposition, 0, 3, 77).unwrap();
    assert_eq!(merged, 3);
    let r = m.get_reality(3).unwrap();
    assert_eq!(r.name, "quantum_superposition");
    assert_eq!(r.paradigm, Paradigm::Quantum);
    assert_eq!(r.coherence_level, 95);
    assert_eq!(r.created_at, 77);
    assert_eq!(r.files.len(), 3);
    let one = "00000000-0000-0000-0000-000000000001::a.rs".to_string();
    let two = "00000000-0000-0000-0000-000000000002::b.rs".to_string();
    let two_a = "00000000-0000-0000-0000-000000000002::a.rs".to_string();
    assert_eq!(r.files.get_ref(&one), Some(&"A".to_string()));
    assert_eq!(r.files.get_ref(&two), Some(&"B".to_string()));
    assert_eq!(r.files.get_ref(&two_a), Some(&"A".to_string()));
    assert_eq!(r.consciousness_state.awareness_level, AwarenessLevel::Transcendent);
    assert_eq!(r.consciousness_state.integrated_paradoxes.len(), 1);
    assert_eq!(r.consciousness_state.recursion_depth, 1 + 5);
    assert_eq!(r.consciousness_state.quantum_entanglements, vec![1, 2]);
    assert_eq!(r.consciousness_state.emergent_properties, vec!["insight".to_string()]);
}

#[test]
fn paradox_preservation_resolves_every_paradox() {
    let mut m = RealityManager::new_with(1, 0);
    let mut seed = state(0, 3);
    seed.integrated_paradoxes.push(paradox("self_reference"));
    seed.integrated_paradoxes.push(paradox("unknown"));
    m.branch_reality_with("p", Paradigm::Paradoxical, Some(seed), 2, 0).unwrap();
    m.merge_realities_with(&vec![1, 2], MergeStrategy::ParadoxPreserving, 0, 3, 0).unwrap();
    let r = m.get_reality(3).unwrap();
    assert_eq!(r.name, "paradox_integrated");
    assert_eq!(r.coherence_level, 90);
    assert_eq!(r.consciousness_state.recursion_depth, 3);
    let ps = &r.consciousness_state.integrated_paradoxes;
    assert_eq!(ps.len(), 2);
    assert_eq!(
        ps[0].potential_synthesis,
        Some("Exists in superposition: Both true and false simultaneously for self_reference".to_string())
    );
    assert_eq!(ps[0].expansion_hundredths, 90);
    assert_eq!(ps[1].potential_synthesis, Some("Integrated as creative tension: unknown".to_string()));
    assert_eq!(ps[1].expansion_hundredths, 60);
    assert_eq!(ps[1].tension_points, vec!["a".to_string(), "b".to_string()]);
    assert_eq!(r.consciousness_state.emergent_properties, vec!["paradox_transcendence".to_string()]);
}

#[test]
fn transcendence_reaches_the_deepest_recursion() {
    let mut m = RealityManager::new_with(1, 0);
    m.branch_reality_with("t", Paradigm::Transcendent, None, 2, 0).unwrap();
    m.merge_realities_with(&vec![2, 1], MergeStrategy::Transcendent, 0, 3, 0).unwrap();
    let r = m.get_reality(3).unwrap();
    assert_eq!(r.name, "transcendent");
    assert_eq!(r.paradigm, Paradigm::RealityCreating);
    assert_eq!(r.coherence_level, 100);
    assert_eq!(r.consciousness_state.recursion_depth, u64::MAX);
    assert_eq!(r.consciousness_state.emergent_properties.len(), 3);
    assert_eq!(m.get_all_realities().len(), 3);
}

#[test]
fn consciousness_maximizing_copies_the_best() {
    let mut m = RealityManager::new_with(1, 0);
    m.branch_reality_with("best", Paradigm::Declarative, Some(state(3, 2)), 2, 0).unwrap();
    m.merge_realities_with(&vec![1, 2], MergeStrategy::ConsciousnessMaximizing, 1, 3, 12).unwrap();
    let r = m.get_reality(3).unwrap();
    assert_eq!(r.name, "consciousness_maximized");
    assert_eq!(r.paradigm, Paradigm::Declarative);
    assert_eq!(r.coherence_level, 80);
    assert_eq!(r.consciousness_state.integrated_paradoxes.len(), 3);
    assert_eq!(r.branched_from, None);
    assert_eq!(r.created_at, 12);
}

#[test]
fn paradox_overload_is_reported() {
    let mut m = RealityManager::new_with(1, 0);
    assert!(m.detect_coherence_issues().is_empty());
    m.branch_reality_with("busy", Paradigm::Functional, Some(state(11, 0)), 2, 0).unwrap();
    let issues = m.detect_coherence_issues();
    assert_eq!(issues.len(), 1);
    assert_eq!(issues[0].reality_id, 2);
    assert_eq!(issues[0].issue_type, CoherenceIssueType::ParadoxOverload);
    assert_eq!(issues[0].severity, 110);
    assert_eq!(issues[0].description, "Reality 'busy' has 11 unresolved paradoxes");
}

#[test]
fn coherence_falls_with_paradoxes() {
    assert_eq!(calculate_coherence(Paradigm::Transcendent, 0), 95);
    assert_eq!(calculate_coherence(Paradigm::Quantum, 1), 85);
    assert_eq!(calculate_coherence(Paradigm::Recursive, 2), 75);
    assert_eq!(calculate_coherence(Paradigm::Imperative, 20), 50);
}

#[test]
fn evolving_into_paradoxical_adds_integration() {
    let base = state(1, 2);
    let e = evolve_consciousness_state(&base, Paradigm::Paradoxical);
    assert_eq!(e.awareness_level, AwarenessLevel::Systemic);
    assert_eq!(e.emergent_properties, vec!["insight".to_string(), "paradox_integration".to_string()]);
    let e = evolve_consciousness_state(&base, Paradigm::Recursive);
    assert_eq!(e.awareness_level, AwarenessLevel::Recursive);
    assert_eq!(e.emergent_properties, vec!["insight".to_string()]);
}

#[test]
fn deep_recursion_is_added_once() {
    let mut s = state(0, 10);
    update_consciousness_state(&mut s);
    assert_eq!(s.recursion_depth, 11);
    assert_eq!(s.emergent_properties, vec!["insight".to_string(), "deep_recursion".to_string()]);
    update_consciousness_state(&mut s);
    assert_eq!(s.emergent_properties.len(), 2);
}

#[test]
fn entanglement_goes_both_ways() {
    let mut q = QuantumStateManager::new();
    q.entangle_realities(1, 2);
    q.entangle_realities(1, 2);
    q.entangle_realities(3, 1);
    let mut one = q.entangled_with(1);
    one.sort();
    assert_eq!(one, vec![2, 3]);
    assert_eq!(q.entangled_with(2), vec![1]);
    assert_eq!(q.entangled_with(3), vec![1]);
    assert!(q.entangled_with(4).is_empty());
}

#[test]
fn resolver_keeps_descriptions() {
    let r = ParadoxResolver::new();
    let out = r.resolve_multiple(vec![paradox("recursive_creation"), paradox("infinite_loops")]);
    assert_eq!(out.len(), 2);
    assert_eq!(out[0].description, "recursive_creation");
    assert_eq!(out[0].expansion_hundredths, 100);
    assert_eq!(out[1].expansion_hundredths, 80);
    assert_eq!(
        out[1].potential_synthesis,
        Some("Resolved at meta-level: Create system that handles infinite_loops".to_string())
    );
}

#[test]
fn a_paradox_copy_is_equal() {
    let p = paradox("x");
    let c = p.duplicate();
    assert_eq!(c.description, p.description);
    assert_eq!(c.tension_points, p.tension_points);
    let mut files: StrMap<String> = StrMap::new();
    files.insert("k".to_string(), "v".to_string());
    assert_eq!(files.get_ref(&"k".to_string()), Some(&"v".to_string()));
}

#[test]
fn paradigm_follows_properties_then_depth() {
    let mut s = state(0, 5);
    assert_eq!(infer_paradigm(&s), Paradigm::Transcendent);
    s.recursion_depth = 101;
    assert_eq!(infer_paradigm(&s), Paradigm::Recursive);
    s.emergent_properties.push("consciousness_expansion".to_string());
    assert_eq!(infer_paradigm(&s), Paradigm::ConsciousnessExpanding);
    s.emergent_properties.push("reality_creation".to_string());
    assert_eq!(infer_paradigm(&s), Paradigm::RealityCreating);
}

#[test]
fn tunneling_crosses_or_reflects() {
    match tunnel(state(0, 4), true) {
        TunnelingResult::Success(s) => {
            assert_eq!(s.recursion_depth, 5);
            assert_eq!(s.emergent_properties, vec!["insight".to_string(), "quantum_tunneling".to_string()]);
        }
        TunnelingResult::Reflected(_) => panic!("expected to cross"),
    }
    match tunnel(state(0, 4), false) {
        TunnelingResult::Reflected(s) => {
            assert_eq!(s.recursion_depth, 4);
            assert_eq!(s.emergent_properties, vec!["insight".to_string(), "tunneling_resilience".to_string()]);
            match tunnel(s, false) {
                TunnelingResult::Reflected(again) => assert_eq!(again.emergent_properties.len(), 2),
                TunnelingResult::Success(_) => panic!("expected a reflection"),
            }
        }
        TunnelingResult::Success(_) => panic!("expected a reflection"),
    }
}

#[test]
fn transcendent_reality_is_named_after_its_level() {
    let mut m = RealityManager::new_with(1, 0);
    let id = create_transcendent_reality(&mut m, TranscendenceLevel::LogicTranscendence, state(1, 2)).unwrap();
    let r = m.get_reality(id).unwrap();
    assert_eq!(r.name, "transcendent_LogicTranscendence");
    assert_eq!(r.paradigm, Paradigm::Quantum);
    assert_eq!(r.branched_from, Some(1));
    assert_eq!(r.consciousness_state.recursion_depth, 2);
    assert_eq!(m.get_all_realities().len(), 2);
}
