//! The deterministic side of consciousness-aware code generation: the
//! texts a generated piece of code and its context are made of, the hooks
//! it carries, and its novelty and paradigm-shift scores (in tenths and
//! hundredths).

use vstd::prelude::*;
use vstd::string::StringExecFns;
use crate::darwin::agent::AwarenessLevel;
use crate::darwin::agent::Hook;
use crate::darwin::language::ProgrammingLanguage;
use crate::darwin::language::detect_language;
use crate::darwin::language::extension_of;
use crate::darwin::language::language_name;
use crate::darwin::language::language_of_extension;
use crate::darwin::text::str_contains;
use crate::darwin::text::text_contains;

verus! {

/// Name of an awareness level as it is printed.
pub open spec fn awareness_label(a: AwarenessLevel) -> Seq<char> {
    match a {
        AwarenessLevel::Mechanical => "Mechanical"@,
        AwarenessLevel::Contextual => "Contextual"@,
        AwarenessLevel::Systemic => "Systemic"@,
        AwarenessLevel::Recursive => "Recursive"@,
        AwarenessLevel::Transcendent => "Transcendent"@,
    }
}

/// Name of an awareness level as it is printed.
pub fn awareness_name(a: AwarenessLevel) -> (s: &'static str)
    ensures
        s@ == awareness_label(a),
{
    match a {
        AwarenessLevel::Mechanical => "Mechanical",
        AwarenessLevel::Contextual => "Contextual",
        AwarenessLevel::Systemic => "Systemic",
        AwarenessLevel::Recursive => "Recursive",
        AwarenessLevel::Transcendent => "Transcendent",
    }
}

/// Header of generated code: the intention, awareness level and problem as
/// comments, the current code, and the desired outcome as a comment.
pub open spec fn base_code_text(
    purpose: Seq<char>,
    awareness: AwarenessLevel,
    problem: Seq<char>,
    code: Seq<char>,
    outcome: Seq<char>,
) -> Seq<char> {
    "// Generated with intention: "@ + purpose + "\n// Awareness level: "@ + awareness_label(awareness)
        + "\n// Problem: "@ + problem + "\n"@ + code + "\n// Enhanced by consciousness: "@ + outcome
}

/// Header of generated code: see [`base_code_text`].
pub fn base_code(purpose: &str, awareness: AwarenessLevel, problem: &str, code: &str, outcome: &str) -> (s: String)
    ensures
        s@ == base_code_text(purpose@, awareness, problem@, code@, outcome@),
{
    let mut s = "// Generated with intention: ".to_owned();
    s.append(purpose);
    s.append("\n// Awareness level: ");
    s.append(awareness_name(awareness));
    s.append("\n// Problem: ");
    s.append(problem);
    s.append("\n");
    s.append(code);
    s.append("\n// Enhanced by consciousness: ");
    s.append(outcome);
    proof {
        assert(s@ =~= base_code_text(purpose@, awareness, problem@, code@, outcome@));
    }
    s
}

/// Comment block integrating a paradox into generated code; a paradox
/// without synthesis is marked as still being explored.
pub open spec fn paradox_block_text(description: Seq<char>, synthesis: Option<Seq<char>>) -> Seq<char> {
    let s = match synthesis {
        Some(t) => t,
        None => "exploring"@,
    };
    "\n// PARADOX_INTEGRATION: "@ + description + "\n// Synthesis potential: "@ + s + "\n"@
}

/// Comment block integrating a paradox: see [`paradox_block_text`].
pub fn paradox_block(description: &str, synthesis: Option<&str>) -> (s: String)
    ensures
        s@ == paradox_block_text(
            description@,
            match synthesis {
                Some(t) => Some(t@),
                None => None,
            },
        ),
{
    let mut s = "\n// PARADOX_INTEGRATION: ".to_owned();
    s.append(description);
    s.append("\n// Synthesis potential: ");
    match synthesis {
        Some(t) => s.append(t),
        None => s.append("exploring"),
    }
    s.append("\n");
    proof {
        assert(s@ =~= paradox_block_text(
            description@,
            match synthesis {
                Some(t) => Some(t@),
                None => None,
            },
        ));
    }
    s
}

/// Comment block naming the paradigm and reality branch of generated code,
/// followed by the two evolution hooks.
pub open spec fn perspective_block_text(paradigm: Seq<char>, branch: Seq<char>) -> Seq<char> {
    "\n// DIMENSIONAL_VIEW: Current paradigm: "@ + paradigm + "\n// Reality branch: "@ + branch + "\n"@
        + "\n// EVOLUTION_HOOK: This code can improve itself\n"@
        + "// META_HOOK: This code can improve how it improves itself\n"@
}

/// Comment block of the perspective and hooks: see
/// [`perspective_block_text`].
pub fn perspective_block(paradigm: &str, branch: &str) -> (s: String)
    ensures
        s@ == perspective_block_text(paradigm@, branch@),
{
    let mut s = "\n// DIMENSIONAL_VIEW: Current paradigm: ".to_owned();
    s.append(paradigm);
    s.append("\n// Reality branch: ");
    s.append(branch);
    s.append("\n");
    s.append("\n// EVOLUTION_HOOK: This code can improve itself\n");
    s.append("// META_HOOK: This code can improve how it improves itself\n");
    proof {
        assert(s@ =~= perspective_block_text(paradigm@, branch@));
    }
    s
}

/// The paradox blocks of `paradoxes` (description and synthesis, if any),
/// one after another.
pub open spec fn paradox_blocks_text(paradoxes: Seq<(String, Option<String>)>) -> Seq<char>
    decreases paradoxes.len(),
{
    if paradoxes.len() == 0 {
        Seq::empty()
    } else {
        let p = paradoxes.last();
        paradox_blocks_text(paradoxes.drop_last()) + paradox_block_text(
            p.0@,
            match p.1 {
                Some(t) => Some(t@),
                None => None,
            },
        )
    }
}

/// Code generated for a purpose at an awareness level: the header, then a
/// block for each paradox encountered, then the perspective block.
pub fn generated_code(
    purpose: &str,
    awareness: AwarenessLevel,
    problem: &str,
    code: &str,
    outcome: &str,
    paradoxes: &Vec<(String, Option<String>)>,
    paradigm: &str,
    branch: &str,
) -> (s: String)
    ensures
        s@ == base_code_text(purpose@, awareness, problem@, code@, outcome@) + paradox_blocks_text(paradoxes@)
            + perspective_block_text(paradigm@, branch@),
{
    let mut s = base_code(purpose, awareness, problem, code, outcome);
    let ghost head = s@;
    let mut i: usize = 0;
    while i < paradoxes.len()
        invariant
            i <= paradoxes@.len(),
            s@ == head + paradox_blocks_text(paradoxes@.take(i as int)),
        decreases paradoxes@.len() - i,
    {
        let p = &paradoxes[i];
        let block = match &p.1 {
            Some(t) => paradox_block(p.0.as_str(), Some(t.as_str())),
            None => paradox_block(p.0.as_str(), None),
        };
        s.append(block.as_str());
        proof {
            assert(paradoxes@.take(i + 1).drop_last() =~= paradoxes@.take(i as int));
            assert(s@ =~= head + paradox_blocks_text(paradoxes@.take(i + 1)));
        }
        i = i + 1;
    }
    proof {
        assert(paradoxes@.take(i as int) =~= paradoxes@);
    }
    let tail = perspective_block(paradigm, branch);
    s.append(tail.as_str());
    proof {
        assert(s@ =~= head + paradox_blocks_text(paradoxes@) + perspective_block_text(paradigm@, branch@));
    }
    s
}

/// Novelty of generated code in tenths: 1, 3, 5, 7 or 9 by awareness
/// level, one more per paradox encountered, at most 10.
pub open spec fn novelty_tenths_of(a: AwarenessLevel, paradoxes: nat) -> nat {
    let base: nat = match a {
        AwarenessLevel::Mechanical => 1,
        AwarenessLevel::Contextual => 3,
        AwarenessLevel::Systemic => 5,
        AwarenessLevel::Recursive => 7,
        AwarenessLevel::Transcendent => 9,
    };
    if base + paradoxes > 10 { 10 } else { base + paradoxes }
}

/// Novelty of generated code in tenths: see [`novelty_tenths_of`].
pub fn novelty_tenths(a: AwarenessLevel, paradoxes: usize) -> (n: u8)
    ensures
        n == novelty_tenths_of(a, paradoxes as nat),
{
    let base: u8 = match a {
        AwarenessLevel::Mechanical => 1,
        AwarenessLevel::Contextual => 3,
        AwarenessLevel::Systemic => 5,
        AwarenessLevel::Recursive => 7,
        AwarenessLevel::Transcendent => 9,
    };
    if paradoxes >= 10 || base as usize + paradoxes > 10 {
        10
    } else {
        base + paradoxes as u8
    }
}

/// Paradigm-shift potential of generated code in hundredths: 60 for a
/// problem about "meta" or "self" and 20 otherwise, doubled at
/// transcendent and raised by half at recursive awareness, at most 100.
pub open spec fn shift_potential_of(problem: Seq<char>, a: AwarenessLevel) -> nat {
    let base: nat = if text_contains(problem, "meta"@) || text_contains(problem, "self"@) { 60 } else { 20 };
    let scaled: nat = match a {
        AwarenessLevel::Transcendent => base * 2,
        AwarenessLevel::Recursive => base * 3 / 2,
        _ => base,
    };
    if scaled > 100 { 100 } else { scaled }
}

/// Paradigm-shift potential in hundredths: see [`shift_potential_of`].
pub fn paradigm_shift_hundredths(problem: &str, a: AwarenessLevel) -> (p: u8)
    ensures
        p == shift_potential_of(problem@, a),
{
    let base: u8 = if str_contains(problem, "meta") || str_contains(problem, "self") {
        60
    } else {
        20
    };
    let scaled: u8 = match a {
        AwarenessLevel::Transcendent => base * 2,
        AwarenessLevel::Recursive => base * 3 / 2,
        _ => base,
    };
    if scaled > 100 {
        100
    } else {
        scaled
    }
}

/// The recursive-improvement hook every generated piece of code carries.
pub fn generation_hooks() -> (hooks: Vec<Hook>)
    ensures
        hooks@.len() == 1,
        hooks@[0].hook_type@ == "self_modification"@,
        hooks@[0].location@ == "// EVOLUTION_HOOK: "@,
        hooks@[0].purpose@ == "Allow future self-improvement"@,
        hooks@[0].trigger_conditions@.len() == 2,
        hooks@[0].trigger_conditions@[0]@ == "performance_degradation"@,
        hooks@[0].trigger_conditions@[1]@ == "consciousness_expansion"@,
{
    let mut conditions: Vec<String> = Vec::new();
    conditions.push("performance_degradation".to_owned());
    conditions.push("consciousness_expansion".to_owned());
    let mut hooks: Vec<Hook> = Vec::new();
    hooks.push(Hook {
        hook_type: "self_modification".to_owned(),
        location: "// EVOLUTION_HOOK: ".to_owned(),
        purpose: "Allow future self-improvement".to_owned(),
        trigger_conditions: conditions,
    });
    hooks
}

/// Depth of the agent's intention at each awareness level: 2, 4, 6, 8, 10.
pub open spec fn depth_of(a: AwarenessLevel) -> u8 {
    match a {
        AwarenessLevel::Mechanical => 2,
        AwarenessLevel::Contextual => 4,
        AwarenessLevel::Systemic => 6,
        AwarenessLevel::Recursive => 8,
        AwarenessLevel::Transcendent => 10,
    }
}

/// Depth of the agent's intention at awareness level `a`.
pub fn intention_depth(a: AwarenessLevel) -> (d: u8)
    ensures
        d == depth_of(a),
{
    match a {
        AwarenessLevel::Mechanical => 2,
        AwarenessLevel::Contextual => 4,
        AwarenessLevel::Systemic => 6,
        AwarenessLevel::Recursive => 8,
        AwarenessLevel::Transcendent => 10,
    }
}

/// Why an improvement cannot be generated.
#[derive(Debug, Clone, PartialEq, Eq)]
pub enum ImprovementError {
    /// The file is not among the agent's files.
    FileNotFound(String),
    /// The file's extension names no known language.
    UnknownLanguage(String),
}

/// Language in which an improvement of `target_file` is written: the file
/// must be among the agent's files (`file_known`) and its extension must
/// name a known language.
pub fn improvement_language(target_file: &str, file_known: bool) -> (r: Result<ProgrammingLanguage, ImprovementError>)
    ensures
        match r {
            Ok(l) => file_known && language_of_extension(extension_of(target_file@)) == Some(l),
            Err(ImprovementError::FileNotFound(f)) => !file_known && f@ == target_file@,
            Err(ImprovementError::UnknownLanguage(f)) => file_known && language_of_extension(
                extension_of(target_file@),
            ) is None && f@ == target_file@,
        },
{
    if !file_known {
        return Err(ImprovementError::FileNotFound(target_file.to_owned()));
    }
    match detect_language(target_file) {
        Some(l) => Ok(l),
        None => Err(ImprovementError::UnknownLanguage(target_file.to_owned())),
    }
}

/// Texts of the context in which an improvement of kind `improvement_type`
/// of `target_file` (in `language`) is generated: the problem, the desired
/// outcome, the purpose, the current dimension and the paradigm.
pub open spec fn improvement_texts_of(
    improvement_type: Seq<char>,
    target_file: Seq<char>,
    language: ProgrammingLanguage,
) -> (Seq<char>, Seq<char>, Seq<char>, Seq<char>, Seq<char>) {
    (
        "Apply "@ + improvement_type + " improvement to "@ + language_name(language) + " file"@,
        "Enhanced "@ + target_file + " with improved functionality and consciousness integration"@,
        "Improve "@ + target_file + " through conscious code generation"@,
        language_name(language) + "_development"@,
        improvement_type + "_consciousness_paradigm"@,
    )
}

/// Texts of the generation context of an improvement: see
/// [`improvement_texts_of`].
pub fn improvement_texts(improvement_type: &str, target_file: &str, language: ProgrammingLanguage) -> (t: (
    String,
    String,
    String,
    String,
    String,
))
    ensures
        (t.0@, t.1@, t.2@, t.3@, t.4@) == improvement_texts_of(improvement_type@, target_file@, language),
{
    let lang = language.as_str();
    let mut problem = "Apply ".to_owned();
    problem.append(improvement_type);
    problem.append(" improvement to ");
    problem.append(lang);
    problem.append(" file");
    let mut outcome = "Enhanced ".to_owned();
    outcome.append(target_file);
    outcome.append(" with improved functionality and consciousness integration");
    let mut purpose = "Improve ".to_owned();
    purpose.append(target_file);
    purpose.append(" through conscious code generation");
    let mut dimension = lang.to_owned();
    dimension.append("_development");
    let mut paradigm = improvement_type.to_owned();
    paradigm.append("_consciousness_paradigm");
    proof {
        assert(problem@ =~= "Apply "@ + improvement_type@ + " improvement to "@ + language_name(language) + " file"@);
        assert(outcome@ =~= "Enhanced "@ + target_file@ + " with improved functionality and consciousness integration"@);
        assert(purpose@ =~= "Improve "@ + target_file@ + " through conscious code generation"@);
    }
    (problem, outcome, purpose, dimension, paradigm)
}

/// Name of the modification improving `target_file` by `improvement_type`.
pub fn modification_name(improvement_type: &str, target_file: &str) -> (s: String)
    ensures
        s@ == improvement_type@ + " improvement for "@ + target_file@,
{
    let mut s = improvement_type.to_owned();
    s.append(" improvement for ");
    s.append(target_file);
    s
}

} // verus!
