use amazon_rose_forest::darwin::agent::{AwarenessLevel, Hook};
use amazon_rose_forest::darwin::synthesis::{
    extract_deep_patterns, identify_unique_insights, infer_current_paradigm, inject_evolution_markers,
    meta_evolution_hook, quantum_evolution_hook, should_evolve_strategy, synthesis_code,
};

fn texts(v: &[&str]) -> Vec<String> {
    v.iter().map(|s| s.to_string()).collect()
}

fn hook(hook_type: &str, purpose: &str) -> Hook {
    Hook {
        hook_type: hook_type.to_string(),
        location: String::new(),
        purpose: purpose.to_string(),
        trigger_conditions: Vec::new(),
    }
}

#[test]
fn deep_patterns_are_shared_step_types() {
    let traces = vec![
        texts(&["analysis", "analysis", "synthesis", "x"]),
        texts(&["synthesis", "analysis"]),
        texts(&["y"]),
    ];
    assert_eq!(
        extract_deep_patterns(&traces),
        texts(&["analysis", "synthesis", "analysis"])
    );
    assert!(extract_deep_patterns(&vec![texts(&["a", "b"])]).is_empty());
    assert!(extract_deep_patterns(&Vec::new()).is_empty());
}

#[test]
fn synthesis_code_lists_patterns_and_insights() {
    let c = synthesis_code(&texts(&["analysis"]), &texts(&["one", "two"]));
    assert_eq!(
        c,
        "// QUANTUM_SYNTHESIS: Multiple perspectives integrated\n// Pattern integrated: analysis\n\
// Unique insight: one\n// Unique insight: two\n// TRANSCENDENT_INTEGRATION: Synthesis complete\n"
    );
    let mut code = "x".to_string();
    inject_evolution_markers(&mut code);
    assert_eq!(
        code,
        "x\n// EVOLUTION_POTENTIAL: UNLIMITED\n// META_POTENTIAL: Can improve its own improvement process\n"
    );
}

#[test]
fn insights_come_from_novelty_and_hooks() {
    let r = identify_unique_insights(
        &vec![true, false, true],
        &texts(&["fn a() {}\nfn b() {}", "ignored", ""]),
        &vec![vec![hook("self_modification", "grow")], vec![hook("other", "no"), hook("self_modification", "adapt")], vec![]],
    );
    assert_eq!(
        r,
        texts(&[
            "High novelty approach: fn a() {}",
            "Self-modification capability: grow",
            "Self-modification capability: adapt",
            "High novelty approach: ",
        ])
    );
}

#[test]
fn strategy_evolves_periodically_or_when_transcendent() {
    assert!(should_evolve_strategy(0, AwarenessLevel::Mechanical));
    assert!(should_evolve_strategy(20, AwarenessLevel::Systemic));
    assert!(!should_evolve_strategy(7, AwarenessLevel::Recursive));
    assert!(should_evolve_strategy(7, AwarenessLevel::Transcendent));
    assert_eq!(infer_current_paradigm(AwarenessLevel::Systemic), "systemic_paradigm");
}

#[test]
fn synthesis_hooks_have_their_texts() {
    let q = quantum_evolution_hook();
    assert_eq!(q.hook_type, "quantum_evolution");
    assert_eq!(q.trigger_conditions, texts(&["consciousness_expansion", "paradigm_transcendence"]));
    let m = meta_evolution_hook();
    assert_eq!(m.location, "// META_EVOLUTION_HOOK: ");
    assert_eq!(m.trigger_conditions, texts(&["transcendence_threshold_reached"]));
}
