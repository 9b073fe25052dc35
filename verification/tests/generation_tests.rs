use amazon_rose_forest::darwin::agent::AwarenessLevel;
use amazon_rose_forest::darwin::generation::{
    awareness_name, base_code, generated_code, generation_hooks, improvement_language, improvement_texts, intention_depth,
    modification_name, novelty_tenths, paradigm_shift_hundredths, paradox_block, perspective_block, ImprovementError,
};
use amazon_rose_forest::darwin::language::ProgrammingLanguage;

#[test]
fn generated_code_header() {
    let s = base_code("speed", AwarenessLevel::Systemic, "slow loop", "fn f() {}", "fast loop");
    assert_eq!(
        s,
        "// Generated with intention: speed\n// Awareness level: Systemic\n// Problem: slow loop\nfn f() {}\n// Enhanced by consciousness: fast loop"
    );
    assert_eq!(awareness_name(AwarenessLevel::Transcendent), "Transcendent");
}

#[test]
fn generated_code_blocks() {
    assert_eq!(
        paradox_block("p", None),
        "\n// PARADOX_INTEGRATION: p\n// Synthesis potential: exploring\n"
    );
    assert_eq!(
        paradox_block("p", Some("s")),
        "\n// PARADOX_INTEGRATION: p\n// Synthesis potential: s\n"
    );
    assert_eq!(
        perspective_block("func", "main"),
        "\n// DIMENSIONAL_VIEW: Current paradigm: func\n// Reality branch: main\n\n// EVOLUTION_HOOK: This code can improve itself\n// META_HOOK: This code can improve how it improves itself\n"
    );
}

#[test]
fn novelty_and_shift_scores() {
    assert_eq!(novelty_tenths(AwarenessLevel::Mechanical, 0), 1);
    assert_eq!(novelty_tenths(AwarenessLevel::Recursive, 2), 9);
    assert_eq!(novelty_tenths(AwarenessLevel::Recursive, 3), 10);
    assert_eq!(novelty_tenths(AwarenessLevel::Transcendent, usize::MAX), 10);
    assert_eq!(paradigm_shift_hundredths("fix a meta bug", AwarenessLevel::Mechanical), 60);
    assert_eq!(paradigm_shift_hundredths("plain bug", AwarenessLevel::Recursive), 30);
    assert_eq!(paradigm_shift_hundredths("self repair", AwarenessLevel::Recursive), 90);
    assert_eq!(paradigm_shift_hundredths("self repair", AwarenessLevel::Transcendent), 100);
    assert_eq!(paradigm_shift_hundredths("plain", AwarenessLevel::Transcendent), 40);
}

#[test]
fn hooks_and_depths() {
    let hooks = generation_hooks();
    assert_eq!(hooks.len(), 1);
    assert_eq!(hooks[0].hook_type, "self_modification");
    assert_eq!(hooks[0].trigger_conditions, vec!["performance_degradation", "consciousness_expansion"]);
    assert_eq!(intention_depth(AwarenessLevel::Mechanical), 2);
    assert_eq!(intention_depth(AwarenessLevel::Transcendent), 10);
}

#[test]
fn improvement_targets() {
    assert_eq!(improvement_language("src/lib.rs", true), Ok(ProgrammingLanguage::Rust));
    assert_eq!(improvement_language("src/lib.rs", false), Err(ImprovementError::FileNotFound("src/lib.rs".to_string())));
    assert_eq!(improvement_language("README", true), Err(ImprovementError::UnknownLanguage("README".to_string())));
    let (problem, outcome, purpose, dimension, paradigm) = improvement_texts("speed", "a.py", ProgrammingLanguage::Python);
    assert_eq!(problem, "Apply speed improvement to python file");
    assert_eq!(outcome, "Enhanced a.py with improved functionality and consciousness integration");
    assert_eq!(purpose, "Improve a.py through conscious code generation");
    assert_eq!(dimension, "python_development");
    assert_eq!(paradigm, "speed_consciousness_paradigm");
    assert_eq!(modification_name("speed", "a.py"), "speed improvement for a.py");
}

#[test]
fn generated_code_joins_header_paradoxes_and_perspective() {
    let paradoxes = vec![("p1".to_string(), Some("s1".to_string())), ("p2".to_string(), None)];
    let code = generated_code(
        "purpose",
        AwarenessLevel::Systemic,
        "problem",
        "fn f() {}",
        "outcome",
        &paradoxes,
        "paradigm",
        "branch",
    );
    let expected = format!(
        "{}{}{}{}",
        base_code("purpose", AwarenessLevel::Systemic, "problem", "fn f() {}", "outcome"),
        paradox_block("p1", Some("s1")),
        paradox_block("p2", None),
        perspective_block("paradigm", "branch"),
    );
    assert_eq!(code, expected);
    assert!(code.contains("// Synthesis potential: exploring"));
}
