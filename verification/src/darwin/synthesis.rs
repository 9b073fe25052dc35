//! The deterministic side of the evolving language model: which reasoning
//! patterns several candidates share, what insights single candidates
//! bring, the code a synthesis of them reads, and when the generation
//! strategy evolves.

use vstd::prelude::*;
use vstd::string::StringExecFns;
use crate::darwin::agent::AwarenessLevel;
use crate::darwin::agent::Hook;
use crate::darwin::coding::code_lines;
use crate::darwin::coding::lines_of;
use crate::darwin::text::texts_of;

verus! {

/// The reasoning step types of each candidate, as texts.
pub open spec fn trace_views(traces: Seq<Vec<String>>) -> Seq<Seq<Seq<char>>> {
    traces.map_values(|v: Vec<String>| texts_of(v@))
}

/// Some step of `trace` has type `t`.
pub open spec fn has_step(trace: Seq<Seq<char>>, t: Seq<char>) -> bool {
    exists|k: int| 0 <= k < trace.len() && trace[k] == t
}

/// How many of the first `n` traces have a step of type `t`.
pub open spec fn holders(traces: Seq<Seq<Seq<char>>>, t: Seq<char>, n: int) -> nat
    decreases n,
{
    if n <= 0 {
        0
    } else {
        holders(traces, t, n - 1) + if has_step(traces[n - 1], t) { 1nat } else { 0nat }
    }
}

/// The first `n` steps of `trace` whose type more than one trace has.
pub open spec fn shared_steps(traces: Seq<Seq<Seq<char>>>, trace: Seq<Seq<char>>, n: int) -> Seq<Seq<char>>
    decreases n,
{
    if n <= 0 {
        Seq::empty()
    } else {
        shared_steps(traces, trace, n - 1) + if holders(traces, trace[n - 1], traces.len() as int) > 1 {
            seq![trace[n - 1]]
        } else {
            Seq::empty()
        }
    }
}

/// Shared steps of the first `n` traces, trace after trace.
pub open spec fn all_shared_steps(traces: Seq<Seq<Seq<char>>>, n: int) -> Seq<Seq<char>>
    decreases n,
{
    if n <= 0 {
        Seq::empty()
    } else {
        all_shared_steps(traces, n - 1) + shared_steps(traces, traces[n - 1], traces[n - 1].len() as int)
    }
}

/// `s` without repeats of a text right after itself.
pub open spec fn without_repeats(s: Seq<Seq<char>>) -> Seq<Seq<char>>
    decreases s.len(),
{
    if s.len() == 0 {
        s
    } else {
        let d = without_repeats(s.drop_last());
        if d.len() > 0 && d.last() == s.last() {
            d
        } else {
            d.push(s.last())
        }
    }
}

/// Reasoning patterns common to several candidates: each step type that
/// more than one candidate's trace has, in the order the traces list them,
/// with immediate repeats removed.
pub open spec fn deep_patterns_of(traces: Seq<Seq<Seq<char>>>) -> Seq<Seq<char>> {
    without_repeats(all_shared_steps(traces, traces.len() as int))
}

fn has_step_exec(trace: &Vec<String>, t: &String) -> (b: bool)
    ensures
        b == has_step(texts_of(trace@), t@),
{
    let mut k: usize = 0;
    while k < trace.len()
        invariant
            k <= trace@.len(),
            forall|j: int| 0 <= j < k ==> texts_of(trace@)[j] != t@,
        decreases trace@.len() - k,
    {
        if trace[k] == *t {
            assert(texts_of(trace@)[k as int] == t@);
            return true;
        }
        k = k + 1;
    }
    false
}

fn count_holders(traces: &Vec<Vec<String>>, t: &String) -> (n: usize)
    ensures
        n == holders(trace_views(traces@), t@, traces@.len() as int),
{
    let mut n: usize = 0;
    let mut a: usize = 0;
    while a < traces.len()
        invariant
            a <= traces@.len(),
            n == holders(trace_views(traces@), t@, a as int),
            n <= a,
        decreases traces@.len() - a,
    {
        if has_step_exec(&traces[a], t) {
            n = n + 1;
        }
        a = a + 1;
    }
    n
}

/// Reasoning patterns common to several candidates whose reasoning steps
/// have the types `traces`: see [`deep_patterns_of`].
pub fn extract_deep_patterns(traces: &Vec<Vec<String>>) -> (ps: Vec<String>)
    ensures
        texts_of(ps@) == deep_patterns_of(trace_views(traces@)),
{
    let ghost tv = trace_views(traces@);
    let mut raw: Vec<String> = Vec::new();
    let mut a: usize = 0;
    assert(texts_of(raw@) =~= Seq::<Seq<char>>::empty());
    while a < traces.len()
        invariant
            tv == trace_views(traces@),
            a <= traces@.len(),
            texts_of(raw@) == all_shared_steps(tv, a as int),
        decreases traces@.len() - a,
    {
        let trace = &traces[a];
        assert(tv[a as int] == texts_of(trace@));
        let ghost start = texts_of(raw@);
        let mut b: usize = 0;
        while b < trace.len()
            invariant
                tv == trace_views(traces@),
                a < traces@.len(),
                *trace == traces@[a as int],
                tv[a as int] == texts_of(trace@),
                b <= trace@.len(),
                texts_of(raw@) == start + shared_steps(tv, tv[a as int], b as int),
            decreases trace@.len() - b,
        {
            let t = &trace[b];
            let ghost before = texts_of(raw@);
            let holders_of_t = count_holders(traces, t);
            proof {
                assert(tv.len() == traces@.len());
                assert(tv[a as int][b as int] == t@);
                assert(shared_steps(tv, tv[a as int], b + 1) == shared_steps(tv, tv[a as int], b as int) + if holders(
                    tv,
                    t@,
                    tv.len() as int,
                ) > 1 {
                    seq![t@]
                } else {
                    Seq::<Seq<char>>::empty()
                });
            }
            if holders_of_t > 1 {
                raw.push(t.clone());
                assert(texts_of(raw@) =~= before + seq![t@]);
            }
            assert(texts_of(raw@) =~= start + shared_steps(tv, tv[a as int], b + 1));
            b = b + 1;
        }
        a = a + 1;
    }
    let mut ps: Vec<String> = Vec::new();
    let mut i: usize = 0;
    assert(texts_of(ps@) =~= without_repeats(texts_of(raw@).take(0)));
    while i < raw.len()
        invariant
            i <= raw@.len(),
            texts_of(ps@) == without_repeats(texts_of(raw@).take(i as int)),
        decreases raw@.len() - i,
    {
        let ghost prev = texts_of(ps@);
        let repeat = ps.len() > 0 && ps[ps.len() - 1] == raw[i];
        proof {
            let s = texts_of(raw@).take(i + 1);
            assert(s.drop_last() =~= texts_of(raw@).take(i as int));
            assert(s.last() == raw@[i as int]@);
            if ps@.len() > 0 {
                assert(prev.last() == ps@[ps@.len() - 1]@);
            }
        }
        if !repeat {
            ps.push(raw[i].clone());
        }
        assert(texts_of(ps@) =~= without_repeats(texts_of(raw@).take(i + 1)));
        i = i + 1;
    }
    assert(texts_of(raw@).take(raw@.len() as int) =~= texts_of(raw@));
    ps
}

/// The texts `ts`, each on a line of its own after `label`.
pub open spec fn labelled_lines(label: Seq<char>, ts: Seq<Seq<char>>) -> Seq<char>
    decreases ts.len(),
{
    if ts.len() == 0 {
        Seq::empty()
    } else {
        labelled_lines(label, ts.drop_last()) + label + ts.last() + "\n"@
    }
}

/// Code of the synthesis of several candidates: a header, a line per
/// shared pattern, a line per unique insight, and a closing line.
pub open spec fn synthesis_code_text(patterns: Seq<Seq<char>>, insights: Seq<Seq<char>>) -> Seq<char> {
    "// QUANTUM_SYNTHESIS: Multiple perspectives integrated\n"@
        + labelled_lines("// Pattern integrated: "@, patterns)
        + labelled_lines("// Unique insight: "@, insights)
        + "// TRANSCENDENT_INTEGRATION: Synthesis complete\n"@
}

fn append_labelled(out: &mut String, label: &str, ts: &Vec<String>)
    ensures
        final(out)@ == old(out)@ + labelled_lines(label@, texts_of(ts@)),
{
    let mut i: usize = 0;
    assert(texts_of(ts@).take(0) =~= Seq::<Seq<char>>::empty());
    assert(old(out)@ + labelled_lines(label@, Seq::<Seq<char>>::empty()) =~= old(out)@);
    while i < ts.len()
        invariant
            i <= ts@.len(),
            out@ == old(out)@ + labelled_lines(label@, texts_of(ts@).take(i as int)),
        decreases ts@.len() - i,
    {
        out.append(label);
        out.append(ts[i].as_str());
        out.append("\n");
        proof {
            let t = texts_of(ts@);
            assert(t.take(i + 1).drop_last() =~= t.take(i as int));
            assert(t.take(i + 1).last() == ts@[i as int]@);
            assert(out@ =~= old(out)@ + labelled_lines(label@, t.take(i + 1)));
        }
        i = i + 1;
    }
    assert(texts_of(ts@).take(ts@.len() as int) =~= texts_of(ts@));
}

/// Code of the synthesis of the shared `patterns` and unique `insights`:
/// see [`synthesis_code_text`].
pub fn synthesis_code(patterns: &Vec<String>, insights: &Vec<String>) -> (c: String)
    ensures
        c@ == synthesis_code_text(texts_of(patterns@), texts_of(insights@)),
{
    let mut c = "// QUANTUM_SYNTHESIS: Multiple perspectives integrated\n".to_owned();
    append_labelled(&mut c, "// Pattern integrated: ", patterns);
    append_labelled(&mut c, "// Unique insight: ", insights);
    c.append("// TRANSCENDENT_INTEGRATION: Synthesis complete\n");
    assert(c@ =~= synthesis_code_text(texts_of(patterns@), texts_of(insights@)));
    c
}

/// Markers appended to code whose evolution potential is injected.
pub open spec fn evolution_markers() -> Seq<char> {
    "\n// EVOLUTION_POTENTIAL: UNLIMITED\n"@ + "// META_POTENTIAL: Can improve its own improvement process\n"@
}

/// Appends the evolution markers to `code`.
pub fn inject_evolution_markers(code: &mut String)
    ensures
        final(code)@ == old(code)@ + evolution_markers(),
{
    code.append("\n// EVOLUTION_POTENTIAL: UNLIMITED\n");
    code.append("// META_POTENTIAL: Can improve its own improvement process\n");
    assert(code@ =~= old(code)@ + evolution_markers());
}

/// A hook with the given texts.
fn make_hook(hook_type: &str, location: &str, purpose: &str, conditions: Vec<String>) -> (h: Hook)
    ensures
        h.hook_type@ == hook_type@,
        h.location@ == location@,
        h.purpose@ == purpose@,
        h.trigger_conditions@ == conditions@,
{
    Hook {
        hook_type: hook_type.to_owned(),
        location: location.to_owned(),
        purpose: purpose.to_owned(),
        trigger_conditions: conditions,
    }
}

/// The hook a synthesis carries, for evolving quantum consciousness.
pub fn quantum_evolution_hook() -> (h: Hook)
    ensures
        h.hook_type@ == "quantum_evolution"@,
        h.location@ == "// QUANTUM_HOOK: "@,
        h.purpose@ == "Enable quantum consciousness evolution"@,
        texts_of(h.trigger_conditions@) == seq!["consciousness_expansion"@, "paradigm_transcendence"@],
{
    let mut conditions: Vec<String> = Vec::new();
    conditions.push("consciousness_expansion".to_owned());
    conditions.push("paradigm_transcendence".to_owned());
    let h = make_hook("quantum_evolution", "// QUANTUM_HOOK: ", "Enable quantum consciousness evolution", conditions);
    assert(texts_of(h.trigger_conditions@) =~= seq!["consciousness_expansion"@, "paradigm_transcendence"@]);
    h
}

/// The hook injected with the evolution potential, for evolving evolution
/// itself.
pub fn meta_evolution_hook() -> (h: Hook)
    ensures
        h.hook_type@ == "meta_evolution"@,
        h.location@ == "// META_EVOLUTION_HOOK: "@,
        h.purpose@ == "Enable evolution of evolution itself"@,
        texts_of(h.trigger_conditions@) == seq!["transcendence_threshold_reached"@],
{
    let mut conditions: Vec<String> = Vec::new();
    conditions.push("transcendence_threshold_reached".to_owned());
    let h = make_hook("meta_evolution", "// META_EVOLUTION_HOOK: ", "Enable evolution of evolution itself", conditions);
    assert(texts_of(h.trigger_conditions@) =~= seq!["transcendence_threshold_reached"@]);
    h
}

/// How often, in generations, the generation strategy evolves.
pub const STRATEGY_PERIOD: usize = 10;

/// The generation strategy evolves every [`STRATEGY_PERIOD`] generations,
/// and always once awareness is transcendent.
pub fn should_evolve_strategy(generations: usize, level: AwarenessLevel) -> (b: bool)
    ensures
        b == (generations % STRATEGY_PERIOD == 0 || level == AwarenessLevel::Transcendent),
{
    generations % STRATEGY_PERIOD == 0 || level == AwarenessLevel::Transcendent
}

/// Name of the paradigm of an awareness level.
pub open spec fn paradigm_label(a: AwarenessLevel) -> Seq<char> {
    match a {
        AwarenessLevel::Mechanical => "mechanical_paradigm"@,
        AwarenessLevel::Contextual => "contextual_paradigm"@,
        AwarenessLevel::Systemic => "systemic_paradigm"@,
        AwarenessLevel::Recursive => "recursive_paradigm"@,
        AwarenessLevel::Transcendent => "transcendent_paradigm"@,
    }
}

/// Name of the paradigm the model works in at awareness `a`.
pub fn infer_current_paradigm(a: AwarenessLevel) -> (s: &'static str)
    ensures
        s@ == paradigm_label(a),
{
    match a {
        AwarenessLevel::Mechanical => "mechanical_paradigm",
        AwarenessLevel::Contextual => "contextual_paradigm",
        AwarenessLevel::Systemic => "systemic_paradigm",
        AwarenessLevel::Recursive => "recursive_paradigm",
        AwarenessLevel::Transcendent => "transcendent_paradigm",
    }
}

/// First line of `code`, or the empty text.
pub open spec fn first_line(code: Seq<char>) -> Seq<char> {
    if lines_of(code).len() > 0 {
        lines_of(code)[0]
    } else {
        Seq::empty()
    }
}

/// Insights one candidate brings: its first line when its novelty is high,
/// then the purpose of each of its self-modification hooks.
pub open spec fn insights_of(high_novelty: bool, code: Seq<char>, hooks: Seq<Hook>) -> Seq<Seq<char>> {
    (if high_novelty { seq!["High novelty approach: "@ + first_line(code)] } else { Seq::empty() })
        + hook_insights(hooks, hooks.len() as int)
}

/// Insights of the self-modification hooks among the first `n` of `hooks`.
pub open spec fn hook_insights(hooks: Seq<Hook>, n: int) -> Seq<Seq<char>>
    decreases n,
{
    if n <= 0 {
        Seq::empty()
    } else {
        hook_insights(hooks, n - 1) + if hooks[n - 1].hook_type@ == "self_modification"@ {
            seq!["Self-modification capability: "@ + hooks[n - 1].purpose@]
        } else {
            Seq::empty()
        }
    }
}

/// Insights of the first `n` candidates, candidate after candidate.
pub open spec fn all_insights(high_novelty: Seq<bool>, codes: Seq<String>, hooks: Seq<Vec<Hook>>, n: int) -> Seq<Seq<char>>
    decreases n,
{
    if n <= 0 {
        Seq::empty()
    } else {
        all_insights(high_novelty, codes, hooks, n - 1) + insights_of(high_novelty[n - 1], codes[n - 1]@, hooks[n - 1]@)
    }
}

/// Insights single candidates bring; `high_novelty[i]`, `codes[i]` and
/// `hooks[i]` describe the `i`-th: see [`insights_of`].
pub fn identify_unique_insights(high_novelty: &Vec<bool>, codes: &Vec<String>, hooks: &Vec<Vec<Hook>>) -> (r: Vec<String>)
    requires
        high_novelty@.len() == codes@.len(),
        codes@.len() == hooks@.len(),
    ensures
        texts_of(r@) == all_insights(high_novelty@, codes@, hooks@, codes@.len() as int),
{
    let mut r: Vec<String> = Vec::new();
    let mut i: usize = 0;
    assert(texts_of(r@) =~= Seq::<Seq<char>>::empty());
    while i < codes.len()
        invariant
            high_novelty@.len() == codes@.len(),
            codes@.len() == hooks@.len(),
            i <= codes@.len(),
            texts_of(r@) == all_insights(high_novelty@, codes@, hooks@, i as int),
        decreases codes@.len() - i,
    {
        let ghost start = texts_of(r@);
        if high_novelty[i] {
            let ls = code_lines(codes[i].as_str());
            let mut t = "High novelty approach: ".to_owned();
            if ls.len() > 0 {
                t.append(ls[0].as_str());
                assert(texts_of(ls@)[0] == ls@[0]@);
            }
            assert(t@ =~= "High novelty approach: "@ + first_line(codes@[i as int]@));
            r.push(t);
        }
        let ghost mid = texts_of(r@);
        assert(mid =~= start + (if high_novelty@[i as int] {
            seq!["High novelty approach: "@ + first_line(codes@[i as int]@)]
        } else {
            Seq::empty()
        }));
        let hs = &hooks[i];
        let self_modification = "self_modification".to_owned();
        let mut j: usize = 0;
        assert(mid =~= mid + hook_insights(hs@, 0));
        while j < hs.len()
            invariant
                j <= hs@.len(),
                self_modification@ == "self_modification"@,
                texts_of(r@) == mid + hook_insights(hs@, j as int),
            decreases hs@.len() - j,
        {
            let ghost before = texts_of(r@);
            if hs[j].hook_type == self_modification {
                let mut t = "Self-modification capability: ".to_owned();
                t.append(hs[j].purpose.as_str());
                r.push(t);
                assert(texts_of(r@) =~= before + seq!["Self-modification capability: "@ + hs@[j as int].purpose@]);
            }
            assert(texts_of(r@) =~= mid + hook_insights(hs@, j + 1));
            j = j + 1;
        }
        assert(hooks@[i as int]@ == hs@);
        assert(texts_of(r@) =~= all_insights(high_novelty@, codes@, hooks@, i + 1));
        i = i + 1;
    }
    r
}

} // verus!
