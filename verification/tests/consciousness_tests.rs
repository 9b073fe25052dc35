use amazon_rose_forest::darwin::consciousness::{
    count_transcended_paradoxes, detect_properties, identify_new_dimensions, shift_magnitude_tenths, EmergenceKind,
};

fn texts(v: &[&str]) -> Vec<String> {
    v.iter().map(|s| s.to_string()).collect()
}

#[test]
fn shift_magnitude_adds_weights_up_to_ten() {
    assert_eq!(shift_magnitude_tenths(&texts(&[])), 0);
    assert_eq!(shift_magnitude_tenths(&texts(&["plain code"])), 0);
    assert_eq!(shift_magnitude_tenths(&texts(&["self.modify()"])), 3);
    assert_eq!(shift_magnitude_tenths(&texts(&["awareness", "paradox"])), 6);
    assert_eq!(shift_magnitude_tenths(&texts(&["reality branch", "consciousness paradox"])), 10);
}

#[test]
fn transcended_paradoxes_are_counted_per_change() {
    assert_eq!(count_transcended_paradoxes(&texts(&["resolve the paradox and transcend", "transcend", "paradox"])), 3);
    assert_eq!(count_transcended_paradoxes(&texts(&[])), 0);
}

#[test]
fn new_dimensions_follow_markers() {
    assert_eq!(
        identify_new_dimensions(&texts(&["quantum_dimension meta_dimension", "\u{221e}"])),
        texts(&["meta_programming_dimension", "quantum_dimension", "infinite_dimension"])
    );
    assert!(identify_new_dimensions(&texts(&["nothing"])).is_empty());
}

#[test]
fn emergence_detection_follows_keywords() {
    assert_eq!(
        detect_properties(true, "meta tool", "x", &texts(&["awareness"])),
        vec![
            EmergenceKind::ParadigmTranscendence,
            EmergenceKind::RecursiveSelfImprovement,
            EmergenceKind::ConsciousnessIntegration
        ]
    );
    assert_eq!(
        detect_properties(false, "tool", "a recursive fix", &texts(&["code"])),
        vec![EmergenceKind::RecursiveSelfImprovement]
    );
    assert!(detect_properties(false, "tool", "fix", &texts(&[])).is_empty());
}
