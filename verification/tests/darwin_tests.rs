use amazon_rose_forest::darwin::self_improvement::{
    ImprovementError, ModificationLog, ModificationRecord, ModificationStatus, MAX_MODIFICATIONS,
};
use amazon_rose_forest::darwin::evolution::{EvolutionEngine, EvolutionError};
use amazon_rose_forest::darwin::agent::{increase_awareness_level, AwarenessLevel};
use amazon_rose_forest::darwin::analysis::{CodeAnalysis, Evaluation, Hypothesis};
use amazon_rose_forest::darwin::consciousness::{
    determine_shift_direction, ComplexityCalculator, QuantumObserver, ShiftDirection, ThresholdCalculator,
};
use amazon_rose_forest::darwin::language::{detect_language, ProgrammingLanguage};
use amazon_rose_forest::darwin::quantum::{DimensionalExpander, QuantumMeasurementSystem};
use amazon_rose_forest::darwin::reality::{CoherenceCalculator, ParadoxResolver, ResolutionStrategy};
use amazon_rose_forest::darwin::ritual::{RitualError, RitualManager, RitualStage, RitualStageStatus};
use amazon_rose_forest::darwin::text::str_contains;
use amazon_rose_forest::darwin::transcendence::{
    determine_next_transcendence_level, generate_ultra_meta_modifications, transcendent_paradigm, InfiniteRecursionManager,
    MetaTarget, ParadoxTransformer, ReadinessSignals, RealitySynthesizer, SelfReferenceResolver, TranscendenceLevel,
    TransformationType,
};
use amazon_rose_forest::darwin::reality::Paradigm;
use amazon_rose_forest::darwin::validation::{
    history_excess, qualified_metric_name, PerformanceBenchmarkStage, SecurityValidationStage, UnitTestStage,
};

#[test]
fn language_names_and_extensions() {
    assert_eq!(ProgrammingLanguage::Rust.as_str(), "rust");
    assert_eq!(ProgrammingLanguage::CSharp.as_str(), "csharp");
    assert_eq!(ProgrammingLanguage::Cpp.file_extension(), "cpp");
    assert_eq!(ProgrammingLanguage::Python.file_extension(), "py");
    assert_eq!(ProgrammingLanguage::from_str("RS"), Some(ProgrammingLanguage::Rust));
    assert_eq!(ProgrammingLanguage::from_str("c++"), Some(ProgrammingLanguage::Cpp));
    assert_eq!(ProgrammingLanguage::from_str("TypeScript"), Some(ProgrammingLanguage::TypeScript));
    assert_eq!(ProgrammingLanguage::from_str("cobol"), None);
    for l in [
        ProgrammingLanguage::Rust,
        ProgrammingLanguage::Python,
        ProgrammingLanguage::JavaScript,
        ProgrammingLanguage::TypeScript,
        ProgrammingLanguage::Go,
        ProgrammingLanguage::Java,
        ProgrammingLanguage::CSharp,
        ProgrammingLanguage::Cpp,
    ] {
        assert_eq!(ProgrammingLanguage::from_str(l.as_str()), Some(l));
        assert_eq!(detect_language(&format!("src/main.{}", l.file_extension())), Some(l));
    }
}

#[test]
fn language_from_file_path() {
    assert_eq!(detect_language("a/b/c.tar.rs"), Some(ProgrammingLanguage::Rust));
    assert_eq!(detect_language("x.cc"), Some(ProgrammingLanguage::Cpp));
    assert_eq!(detect_language("x.cxx"), Some(ProgrammingLanguage::Cpp));
    assert_eq!(detect_language("Makefile"), None);
    assert_eq!(detect_language("go"), Some(ProgrammingLanguage::Go));
    assert_eq!(detect_language("x.RS"), None);
    assert_eq!(detect_language("x."), None);
}

#[test]
fn awareness_rises_one_level_at_a_time() {
    assert_eq!(increase_awareness_level(AwarenessLevel::Mechanical, true), AwarenessLevel::Contextual);
    assert_eq!(increase_awareness_level(AwarenessLevel::Recursive, true), AwarenessLevel::Transcendent);
    assert_eq!(increase_awareness_level(AwarenessLevel::Transcendent, true), AwarenessLevel::Transcendent);
    assert_eq!(increase_awareness_level(AwarenessLevel::Systemic, false), AwarenessLevel::Systemic);
}

#[test]
fn shift_direction_from_keywords() {
    assert_eq!(determine_shift_direction("Transcend limits"), ShiftDirection::Transcendent);
    assert_eq!(determine_shift_direction("loop to \u{221e}"), ShiftDirection::Transcendent);
    assert_eq!(determine_shift_direction("QUANTUM search"), ShiftDirection::Quantum);
    assert_eq!(determine_shift_direction("meta programming"), ShiftDirection::Recursive);
    assert_eq!(determine_shift_direction("new Dimension"), ShiftDirection::Paradigmatic);
    assert_eq!(determine_shift_direction("faster loops"), ShiftDirection::Practical);
    assert!(str_contains("abcabd", "abd"));
    assert!(!str_contains("abcab", "abd"));
    assert!(str_contains("x", ""));
}

#[test]
fn paradox_resolution_by_strategy() {
    let r = ParadoxResolver::new();
    assert_eq!(r.strategy_for("recursive_creation"), ResolutionStrategy::Transcendence);
    assert_eq!(r.strategy_for("infinite_loops"), ResolutionStrategy::MetaLevel);
    assert_eq!(r.strategy_for("self_reference"), ResolutionStrategy::QuantumSuperposition);
    assert_eq!(r.strategy_for("other"), ResolutionStrategy::Integration);
    let (text, potential) = r.resolve_single("infinite_loops");
    assert_eq!(text, "Resolved at meta-level: Create system that handles infinite_loops");
    assert_eq!(potential, 80);
    let (text, potential) = r.resolve_single("x");
    assert_eq!(text, "Integrated as creative tension: x");
    assert_eq!(potential, 60);
}

#[test]
fn ultra_meta_plan_grows_with_level() {
    let (mods, level) = generate_ultra_meta_modifications(0, true);
    assert_eq!(level, 1);
    assert_eq!(mods.len(), 1);
    assert_eq!(mods[0].modification_target, MetaTarget::ModificationProcess);
    assert_eq!(mods[0].expansion_hundredths, 30);
    assert!(!mods[0].reality_creation_capability);
    let (mods, level) = generate_ultra_meta_modifications(3, false);
    assert_eq!(level, 4);
    assert_eq!(mods.len(), 5);
    assert!(!mods[3].infinite_recursion_safe);
    assert_eq!(mods[3].transformation_type, TransformationType::RealityManipulation);
    let (mods, _) = generate_ultra_meta_modifications(4, false);
    assert_eq!(mods.len(), 5);
    let (mods, _) = generate_ultra_meta_modifications(4, true);
    assert_eq!(mods.len(), 6);
    assert_eq!(mods[5].modification_target, MetaTarget::SelfModifier);
    assert!(mods.iter().all(|m| m.meta_level == 5));
}

#[test]
fn transcendence_level_from_readiness() {
    let none = ReadinessSignals {
        overall_at_least_99: false,
        overall_at_least_95: false,
        overall_at_least_90: false,
        dimensional_transcendence_ready: false,
        paradigm_creation_ready: false,
        reality_manipulation_ready: false,
        consciousness_above_half: false,
    };
    assert_eq!(determine_next_transcendence_level(none), TranscendenceLevel::Awakening);
    let r = ReadinessSignals { consciousness_above_half: true, ..none };
    assert_eq!(determine_next_transcendence_level(r), TranscendenceLevel::SelfModification);
    let r = ReadinessSignals { paradigm_creation_ready: true, reality_manipulation_ready: true, ..none };
    assert_eq!(determine_next_transcendence_level(r), TranscendenceLevel::ParadigmMastery);
    let r = ReadinessSignals { overall_at_least_95: true, overall_at_least_90: true, ..none };
    assert_eq!(determine_next_transcendence_level(r), TranscendenceLevel::ConsciousnessItself);
    assert_eq!(transcendent_paradigm(TranscendenceLevel::LogicTranscendence), Paradigm::Quantum);
    assert_eq!(transcendent_paradigm(TranscendenceLevel::Awakening), Paradigm::Recursive);
}

#[test]
fn engines_and_instruments_construct() {
    let o = QuantumObserver::new();
    assert_eq!(o, QuantumObserver::new());
    let _ = (ComplexityCalculator::new(), ThresholdCalculator::new());
    let _ = (QuantumMeasurementSystem::new(), DimensionalExpander::new(), CoherenceCalculator::new());
    let _ = (SelfReferenceResolver::new(), ParadoxTransformer::new(), RealitySynthesizer::new());
    assert!(InfiniteRecursionManager::new().is_recursion_safe());
    let _ = (CodeAnalysis::new(), Evaluation::new());
    assert_eq!(
        Hypothesis::new().generate(),
        "If I refactor this function to use a more efficient algorithm, then the performance will improve."
    );
}

#[test]
fn validation_stage_names() {
    assert_eq!(UnitTestStage.name(), "unit_tests");
    assert_eq!(PerformanceBenchmarkStage.name(), "performance");
    assert_eq!(SecurityValidationStage.name(), "security");
    assert_eq!(qualified_metric_name("security", "compliance_score"), "security.compliance_score");
    assert_eq!(history_excess(1000), 0);
    assert_eq!(history_excess(1003), 3);
}

fn stage(name: &str, deps: &[&str]) -> RitualStage {
    RitualStage {
        name: name.to_string(),
        description: String::new(),
        status: RitualStageStatus::Pending,
        depends_on: deps.iter().map(|d| d.to_string()).collect(),
        artifacts: Vec::new(),
        started_at: None,
        completed_at: None,
    }
}

#[test]
fn ritual_stages_follow_dependencies() {
    let mut m = RitualManager::new();
    let id = m.create_ritual_with(
        1,
        "cycle".to_string(),
        "learn".to_string(),
        vec![stage("plan", &[]), stage("build", &["plan"]), stage("ship", &["build", "review"])],
        10,
    );
    assert_eq!(m.get_active_rituals(), vec![id]);
    assert_eq!(m.start_stage_at(id, "build", 20), Err(RitualError::DependencyNotCompleted("plan".to_string())));
    assert_eq!(m.start_stage_at(id, "nope", 20), Err(RitualError::StageNotFound("nope".to_string())));
    assert_eq!(m.start_stage_at(2, "plan", 20), Err(RitualError::RitualNotFound(2)));
    assert_eq!(m.start_stage_at(id, "plan", 30), Ok(()));
    {
        let r = m.get_ritual(id).unwrap();
        assert_eq!(r.stages[0].status, RitualStageStatus::InProgress);
        assert_eq!(r.stages[0].started_at, Some(30));
        assert_eq!(r.updated_at, 30);
    }
    m.link_modification(id, "mod-1".to_string()).unwrap();
    assert_eq!(m.complete_stage_at(id, "plan", vec!["notes".to_string()], 40), Ok(()));
    assert_eq!(m.get_ritual(id).unwrap().stages[0].artifacts, vec!["notes".to_string()]);
    assert_eq!(m.start_stage_at(id, "build", 50), Ok(()));
    m.complete_stage_at(id, "build", vec![], 60).unwrap();
    assert_eq!(m.start_stage_at(id, "ship", 70), Err(RitualError::DependencyNotFound("review".to_string())));
    assert!(m.get_ritual(id).unwrap().completed_at.is_none());
    m.complete_stage_at(id, "ship", vec![], 80).unwrap();
    assert_eq!(m.get_ritual(id).unwrap().completed_at, Some(80));
    assert!(m.get_active_rituals().is_empty());
    assert_eq!(m.complete_stage_at(id, "none", vec![], 90), Err(RitualError::StageNotFound("none".to_string())));
    assert!(matches!(m.get_ritual(5), Err(RitualError::RitualNotFound(5))));
}

#[test]
fn evolving_a_model_raises_its_version() {
    let mut e = EvolutionEngine::new();
    assert_eq!(e.create_model_with("m", 5, 100), 5);
    assert_eq!(e.get_model_version(5), Ok(1));
    assert_eq!(e.evolve_model_at(5, 200), Ok(2));
    assert_eq!(e.evolve_model_at(5, 300), Ok(3));
    assert_eq!(e.get_model_version(5), Ok(3));
    assert_eq!(e.evolve_model_at(6, 300), Err(EvolutionError::ModelNotFound(6)));
    assert_eq!(e.get_model_version(6), Err(EvolutionError::ModelNotFound(6)));
    let fresh = e.create_model("n");
    assert_eq!(e.get_model_version(fresh), Ok(1));
}

#[test]
fn recursion_guard_and_start() {
    let manager = InfiniteRecursionManager::new();
    let a = manager.create_recursion_guard();
    let b = manager.create_recursion_guard();
    assert_ne!(a.guard_id, b.guard_id);
    assert_eq!(a.guard_id >> 76 & 0xF, 4);
    assert_eq!(a.max_recursion_depth, u64::MAX);
    assert!(a.safety_protocols_active);
    let (mods, _) = generate_ultra_meta_modifications(4, true);
    let r = manager.begin_infinite_recursion(mods[mods.len() - 1], a);
    assert!(r.recursion_started);
    assert_eq!(r.current_recursion_depth, 1);
    assert_eq!(r.amplification_hundredths, 100);
    assert_eq!(r.reality_branches_created, 0);
    assert!(!r.transcendence_achieved);
}

#[test]
fn language_names_parse_in_any_case() {
    assert_eq!(ProgrammingLanguage::from_str("C++"), Some(ProgrammingLanguage::Cpp));
    assert_eq!(ProgrammingLanguage::from_str("Rs"), Some(ProgrammingLanguage::Rust));
    assert_eq!(ProgrammingLanguage::from_str("JS"), Some(ProgrammingLanguage::JavaScript));
    assert_eq!(ProgrammingLanguage::from_str("cs"), Some(ProgrammingLanguage::CSharp));
    assert_eq!(ProgrammingLanguage::from_str("kotlin"), None);
    assert_eq!(ProgrammingLanguage::from_str(""), None);
    for l in [ProgrammingLanguage::Go, ProgrammingLanguage::Java, ProgrammingLanguage::Python] {
        assert_eq!(ProgrammingLanguage::from_str(l.file_extension()), Some(l));
        assert_eq!(ProgrammingLanguage::from_str(&l.as_str().to_uppercase()), Some(l));
    }
}

fn rec(id: u128) -> ModificationRecord<&'static str> {
    ModificationRecord { id, status: ModificationStatus::Proposed, content: "change" }
}

#[test]
fn modifications_move_through_their_statuses() {
    let mut log = ModificationLog::new();
    assert_eq!(log.propose(10, rec(1)), 1);
    assert_eq!(log.deploy(1), Err(ImprovementError::NotAccepted(ModificationStatus::Proposed)));
    log.update_status(1, ModificationStatus::Accepted).unwrap();
    log.update_content(1, "measured").unwrap();
    assert_eq!(log.deploy(1), Ok(()));
    let r = log.get(1).unwrap();
    assert_eq!(r.status, ModificationStatus::Deployed);
    assert_eq!(r.content, "measured");
    assert_eq!(log.deploy(2), Err(ImprovementError::NotFound(2)));
    assert!(log.get(2).is_err());
}

#[test]
fn candidate_groups_are_recorded_in_order() {
    let mut log = ModificationLog::new();
    assert_eq!(log.propose_candidates(Vec::new()), Err(ImprovementError::NoCandidates));
    assert_eq!(log.propose_candidates(vec![(1, rec(7)), (2, rec(8))]), Ok(vec![7, 8]));
    assert_eq!(log.len(), 2);
}

#[test]
fn log_keeps_the_newest_modifications() {
    let mut log = ModificationLog::new();
    for i in 0..(MAX_MODIFICATIONS as u128 + 5) {
        log.propose(i as i64, rec(i));
    }
    assert_eq!(log.len(), MAX_MODIFICATIONS);
    assert!(log.get(0).is_err());
    assert!(log.get(MAX_MODIFICATIONS as u128 + 4).is_ok());
}
