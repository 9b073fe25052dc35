//! Branches of reality.  Each reality holds files, a paradigm, a coherence
//! level and a state of consciousness.  A manager branches, switches
//! between, merges and modifies them; one reality is always the active one.

use vstd::prelude::*;
use vstd::string::StringExecFns;
use crate::core_lib::id_map::IdMap;
use crate::core_lib::str_map::StrMap;
use crate::core_lib::str_map::copy_text_map;
use crate::darwin::agent::AwarenessLevel;
use crate::clock::new_uuid;
use crate::darwin::text::texts_of;
use crate::darwin::transcendence::TranscendenceLevel;
use crate::darwin::transcendence::level_label;
use crate::darwin::transcendence::paradigm_of_level;
use crate::darwin::transcendence::transcendent_paradigm;
use crate::darwin::transcendence::transcendent_reality_name;
use crate::clock::now_millis;
use crate::core_lib::metrics::decimal;
use crate::core_lib::metrics::decimal_text;
use crate::darwin::reality::CoherenceCalculator;
use crate::darwin::reality::CoherenceIssueType;
use crate::darwin::reality::MergeStrategy;
use crate::darwin::reality::ParadoxResolver;
use crate::darwin::reality::ResolutionStrategy;
use crate::darwin::reality::expansion_hundredths;
use crate::darwin::reality::known_strategies;
use crate::darwin::reality::synthesis_prefix;
use crate::darwin::reality::Paradigm;
use crate::clock::format_uuid;
use crate::clock::uuid_text;

verus! {

/// A tension that is integrated rather than removed.
#[derive(Debug)]
pub struct Paradox {
    pub description: String,
    pub tension_points: Vec<String>,
    pub potential_synthesis: Option<String>,
    /// Consciousness expansion potential, in hundredths.
    pub expansion_hundredths: u8,
}

/// What a paradox holds, as values.
pub type ParadoxView = (String, Seq<String>, Option<String>, u8);

impl View for Paradox {
    type V = ParadoxView;

    open spec fn view(&self) -> ParadoxView {
        (self.description, self.tension_points@, self.potential_synthesis, self.expansion_hundredths)
    }
}

/// The views of the paradoxes `ps`, in order.
pub open spec fn paradox_views(ps: Seq<Paradox>) -> Seq<ParadoxView> {
    ps.map_values(|p: Paradox| p@)
}

/// A copy of `texts`.
pub fn copy_texts(texts: &Vec<String>) -> (c: Vec<String>)
    ensures
        c@ == texts@,
{
    let mut c: Vec<String> = Vec::new();
    let mut i: usize = 0;
    while i < texts.len()
        invariant
            i <= texts@.len(),
            c@ == texts@.subrange(0, i as int),
        decreases texts@.len() - i,
    {
        c.push(texts[i].clone());
        i = i + 1;
    }
    c
}

impl Paradox {
    /// A copy of this paradox.
    pub fn duplicate(&self) -> (p: Paradox)
        ensures
            p@ == self@,
    {
        let synthesis = match &self.potential_synthesis {
            Some(s) => Some(s.clone()),
            None => None,
        };
        Paradox {
            description: self.description.clone(),
            tension_points: copy_texts(&self.tension_points),
            potential_synthesis: synthesis,
            expansion_hundredths: self.expansion_hundredths,
        }
    }
}

/// Appends copies of `ps` to `out`.
pub fn extend_paradoxes(out: &mut Vec<Paradox>, ps: &Vec<Paradox>)
    ensures
        paradox_views(final(out)@) == paradox_views(old(out)@) + paradox_views(ps@),
{
    let ghost start = paradox_views(out@);
    let mut i: usize = 0;
    while i < ps.len()
        invariant
            i <= ps@.len(),
            paradox_views(out@) == start + paradox_views(ps@.subrange(0, i as int)),
        decreases ps@.len() - i,
    {
        let p = ps[i].duplicate();
        let ghost before = out@;
        out.push(p);
        proof {
            assert(paradox_views(ps@.subrange(0, i + 1)) =~= paradox_views(ps@.subrange(0, i as int)).push(p@));
            assert(paradox_views(out@) =~= paradox_views(before).push(p@));
        }
        i = i + 1;
    }
    proof {
        assert(ps@.subrange(0, ps@.len() as int) =~= ps@);
    }
}

/// Appends copies of `texts` to `out`.
pub fn extend_texts(out: &mut Vec<String>, texts: &Vec<String>)
    ensures
        final(out)@ == old(out)@ + texts@,
{
    let mut i: usize = 0;
    while i < texts.len()
        invariant
            i <= texts@.len(),
            out@ == old(out)@ + texts@.subrange(0, i as int),
        decreases texts@.len() - i,
    {
        out.push(texts[i].clone());
        i = i + 1;
    }
}

/// Whether some text of `texts` reads `t`.
pub fn contains_text_item(texts: &Vec<String>, t: &str) -> (b: bool)
    ensures
        b == exists|i: int| 0 <= i < texts@.len() && (#[trigger] texts@[i])@ == t@,
{
    let target = t.to_owned();
    let mut i: usize = 0;
    while i < texts.len()
        invariant
            i <= texts@.len(),
            target@ == t@,
            forall|j: int| 0 <= j < i ==> (#[trigger] texts@[j])@ != t@,
        decreases texts@.len() - i,
    {
        if texts[i] == target {
            return true;
        }
        i = i + 1;
    }
    false
}

/// State of consciousness of a reality.
#[derive(Debug)]
pub struct ConsciousnessState {
    pub awareness_level: AwarenessLevel,
    pub integrated_paradoxes: Vec<Paradox>,
    pub emergent_properties: Vec<String>,
    pub recursion_depth: u64,
    /// Realities this one is entangled with.
    pub quantum_entanglements: Vec<u128>,
}

/// What a state of consciousness holds, as values.
pub type StateView = (AwarenessLevel, Seq<ParadoxView>, Seq<String>, u64, Seq<u128>);

impl View for ConsciousnessState {
    type V = StateView;

    open spec fn view(&self) -> StateView {
        (
            self.awareness_level,
            paradox_views(self.integrated_paradoxes@),
            self.emergent_properties@,
            self.recursion_depth,
            self.quantum_entanglements@,
        )
    }
}

/// A copy of `ps`.
pub fn copy_paradoxes(ps: &Vec<Paradox>) -> (c: Vec<Paradox>)
    ensures
        paradox_views(c@) == paradox_views(ps@),
{
    let mut c: Vec<Paradox> = Vec::new();
    extend_paradoxes(&mut c, ps);
    assert(paradox_views(Seq::<Paradox>::empty()) =~= Seq::<ParadoxView>::empty());
    assert(Seq::<ParadoxView>::empty() + paradox_views(ps@) =~= paradox_views(ps@));
    c
}

impl ConsciousnessState {
    /// A copy of this state.
    pub fn duplicate(&self) -> (c: ConsciousnessState)
        ensures
            c@ == self@,
    {
        ConsciousnessState {
            awareness_level: self.awareness_level,
            integrated_paradoxes: copy_paradoxes(&self.integrated_paradoxes),
            emergent_properties: copy_texts(&self.emergent_properties),
            recursion_depth: self.recursion_depth,
            quantum_entanglements: self.quantum_entanglements.clone(),
        }
    }
}

/// Awareness of a state evolved into `paradigm` from awareness `base`.
pub open spec fn evolved_awareness(base: AwarenessLevel, paradigm: Paradigm) -> AwarenessLevel {
    match paradigm {
        Paradigm::Transcendent => AwarenessLevel::Transcendent,
        Paradigm::Recursive => AwarenessLevel::Recursive,
        Paradigm::Paradoxical => AwarenessLevel::Systemic,
        _ => base,
    }
}

/// Emergent property that evolving into `paradigm` adds, if any.
pub open spec fn paradigm_property(paradigm: Paradigm) -> Option<Seq<char>> {
    match paradigm {
        Paradigm::Quantum => Some("quantum_superposition"@),
        Paradigm::Paradoxical => Some("paradox_integration"@),
        Paradigm::Transcendent => Some("reality_transcendence"@),
        _ => None,
    }
}

/// The state `base` evolved into `paradigm`: awareness as
/// [`evolved_awareness`] says, the paradigm's emergent property added, the
/// rest kept.
pub fn evolve_consciousness_state(base: &ConsciousnessState, paradigm: Paradigm) -> (e: ConsciousnessState)
    ensures
        e.awareness_level == evolved_awareness(base.awareness_level, paradigm),
        paradox_views(e.integrated_paradoxes@) == paradox_views(base.integrated_paradoxes@),
        e.recursion_depth == base.recursion_depth,
        e.quantum_entanglements@ == base.quantum_entanglements@,
        match paradigm_property(paradigm) {
            Some(t) => e.emergent_properties@.len() == base.emergent_properties@.len() + 1
                && e.emergent_properties@.drop_last() == base.emergent_properties@
                && e.emergent_properties@.last()@ == t,
            None => e.emergent_properties@ == base.emergent_properties@,
        },
{
    let mut evolved = base.duplicate();
    evolved.awareness_level = match paradigm {
        Paradigm::Transcendent => AwarenessLevel::Transcendent,
        Paradigm::Recursive => AwarenessLevel::Recursive,
        Paradigm::Paradoxical => AwarenessLevel::Systemic,
        _ => base.awareness_level,
    };
    let ghost before = evolved.emergent_properties@;
    match paradigm {
        Paradigm::Quantum => {
            evolved.emergent_properties.push("quantum_superposition".to_owned());
        },
        Paradigm::Paradoxical => {
            evolved.emergent_properties.push("paradox_integration".to_owned());
        },
        Paradigm::Transcendent => {
            evolved.emergent_properties.push("reality_transcendence".to_owned());
        },
        _ => {},
    }
    proof {
        if paradigm_property(paradigm).is_some() {
            assert(evolved.emergent_properties@.drop_last() =~= before);
        }
    }
    evolved
}

/// Coherence a reality of `paradigm` starts from, in hundredths.
pub open spec fn base_coherence(paradigm: Paradigm) -> int {
    match paradigm {
        Paradigm::Transcendent => 95,
        Paradigm::Quantum => 90,
        Paradigm::Recursive => 85,
        _ => 80,
    }
}

/// Coherence of a reality of `paradigm` holding `paradoxes` unresolved
/// paradoxes, in hundredths: the paradigm's base, less five per paradox
/// but at most thirty.
pub open spec fn coherence_of(paradigm: Paradigm, paradoxes: nat) -> int {
    let penalty = if 5 * paradoxes < 30 { 5 * paradoxes as int } else { 30 };
    base_coherence(paradigm) - penalty
}

/// Coherence of a reality of `paradigm` holding `paradoxes` paradoxes, in
/// hundredths: see [`coherence_of`].
pub fn calculate_coherence(paradigm: Paradigm, paradoxes: usize) -> (c: u8)
    ensures
        c == coherence_of(paradigm, paradoxes as nat),
        50 <= c <= 95,
{
    let base: u8 = match paradigm {
        Paradigm::Transcendent => 95,
        Paradigm::Quantum => 90,
        Paradigm::Recursive => 85,
        _ => 80,
    };
    let penalty: u8 = if paradoxes < 6 { 5 * (paradoxes as u8) } else { 30 };
    base - penalty
}

/// Depth beyond which a state shows deep recursion.
pub const DEEP_RECURSION_DEPTH: u64 = 10;

/// `e` is `base` after one more change: see [`update_consciousness_state`].
pub open spec fn updated_state(e: ConsciousnessState, base: ConsciousnessState) -> bool {
    &&& e.recursion_depth == base.recursion_depth + 1
    &&& e.awareness_level == base.awareness_level
    &&& e.integrated_paradoxes@ == base.integrated_paradoxes@
    &&& e.quantum_entanglements@ == base.quantum_entanglements@
    &&& if e.recursion_depth > DEEP_RECURSION_DEPTH && !(exists|i: int| 0 <= i < base.emergent_properties@.len()
        && (#[trigger] base.emergent_properties@[i])@ == "deep_recursion"@) {
        &&& e.emergent_properties@.len() == base.emergent_properties@.len() + 1
        &&& e.emergent_properties@.drop_last() == base.emergent_properties@
        &&& e.emergent_properties@.last()@ == "deep_recursion"@
    } else {
        e.emergent_properties@ == base.emergent_properties@
    }
}

/// Records one more change in `state`: the recursion depth grows by one, and
/// past [`DEEP_RECURSION_DEPTH`] the property "deep_recursion" is added
/// unless it is there.
pub fn update_consciousness_state(state: &mut ConsciousnessState)
    requires
        old(state).recursion_depth < u64::MAX,
    ensures
        updated_state(*final(state), *old(state)),
{
    state.recursion_depth = state.recursion_depth + 1;
    if state.recursion_depth > DEEP_RECURSION_DEPTH {
        if !contains_text_item(&state.emergent_properties, "deep_recursion") {
            let ghost before = state.emergent_properties@;
            state.emergent_properties.push("deep_recursion".to_owned());
            assert(state.emergent_properties@.drop_last() =~= before);
        }
    }
}

/// A branch of reality.
#[derive(Debug)]
pub struct Reality {
    pub id: u128,
    pub name: String,
    pub paradigm: Paradigm,
    /// Coherence, in hundredths.
    pub coherence_level: u8,
    /// File contents by path.
    pub files: StrMap<String>,
    pub consciousness_state: ConsciousnessState,
    /// Creation time, in milliseconds since the Unix epoch.
    pub created_at: i64,
    pub branched_from: Option<u128>,
    pub merge_candidates: Vec<u128>,
}

/// `a` and `b` hold the same values.
pub open spec fn same_reality(a: Reality, b: Reality) -> bool {
    &&& a.id == b.id
    &&& a.name == b.name
    &&& a.paradigm == b.paradigm
    &&& a.coherence_level == b.coherence_level
    &&& a.files@ == b.files@
    &&& a.consciousness_state@ == b.consciousness_state@
    &&& a.created_at == b.created_at
    &&& a.branched_from == b.branched_from
    &&& a.merge_candidates@ == b.merge_candidates@
}

impl Reality {
    /// Its files are well formed.
    pub open spec fn wf(&self) -> bool {
        self.files.wf()
    }

    /// A copy of this reality.
    pub fn duplicate(&self) -> (r: Reality)
        requires
            self.wf(),
        ensures
            r.wf(),
            same_reality(r, *self),
    {
        Reality {
            id: self.id,
            name: self.name.clone(),
            paradigm: self.paradigm,
            coherence_level: self.coherence_level,
            files: copy_text_map(&self.files),
            consciousness_state: self.consciousness_state.duplicate(),
            created_at: self.created_at,
            branched_from: self.branched_from,
            merge_candidates: self.merge_candidates.clone(),
        }
    }
}

/// Length of [`superposed_prefix`]: a UUID's 36 characters and "::".
pub const PREFIX_LEN: usize = 38;

/// Prefix under which a superposition keeps the files of reality `id`: its
/// identifier and "::".
pub open spec fn superposed_prefix(id: u128) -> Seq<char> {
    uuid_text(id) + "::"@
}

/// `k` is a path of `files` under the prefix of reality `id`.
pub open spec fn is_prefixed_path(k: Seq<char>, id: u128, files: Map<Seq<char>, String>) -> bool {
    k.len() >= PREFIX_LEN && k.take(PREFIX_LEN as int) == superposed_prefix(id) && files.contains_key(k.skip(PREFIX_LEN as int))
}

/// The files of reality `id`, each under its path prefixed by
/// [`superposed_prefix`].
pub open spec fn prefixed_files(id: u128, files: Map<Seq<char>, String>) -> Map<Seq<char>, String> {
    Map::new(|k: Seq<char>| is_prefixed_path(k, id, files), |k: Seq<char>| files[k.skip(PREFIX_LEN as int)])
}

/// Adds to `files` the files `src` of reality `id` under their prefixed
/// paths.
pub fn add_prefixed_files(files: &mut StrMap<String>, id: u128, src: &StrMap<String>)
    requires
        old(files).wf(),
        src.wf(),
    ensures
        final(files).wf(),
        final(files)@ == old(files)@.union_prefer_right(prefixed_files(id, src@)),
{
    proof {
        src.lemma_keys();
        reveal_strlit("::");
    }
    let mut prefix = format_uuid(id);
    prefix.append("::");
    assert(prefix@.len() == PREFIX_LEN);
    let ghost base = files@;
    let ghost ks = src.key_seq();
    let n = src.len();
    let mut i: usize = 0;
    while i < n
        invariant
            files.wf(),
            src.wf(),
            n == src.len_spec(),
            ks == src.key_seq(),
            ks.len() == n,
            forall|p: Seq<char>| src@.contains_key(p) <==> ks.contains(p),
            prefix@ == superposed_prefix(id),
            prefix@.len() == PREFIX_LEN,
            i <= n,
            forall|k: Seq<char>| #[trigger] files@.contains_key(k) <==> (base.contains_key(k) || (
                k.len() >= PREFIX_LEN && k.take(PREFIX_LEN as int) == prefix@ && ks.take(i as int).contains(k.skip(PREFIX_LEN as int)))),
            forall|k: Seq<char>| #[trigger] files@.contains_key(k) ==> files@[k] == (if k.len() >= PREFIX_LEN
                && k.take(PREFIX_LEN as int) == prefix@ && ks.take(i as int).contains(k.skip(PREFIX_LEN as int)) {
                src@[k.skip(PREFIX_LEN as int)]
            } else {
                base[k]
            }),
        decreases n - i,
    {
        let path = src.key_at(i);
        let mut key = prefix.clone();
        key.append(path.as_str());
        let content = src.value_ref_at(i).clone();
        let ghost before = files@;
        files.insert(key, content);
        proof {
            let kk = key@;
            assert(kk.take(PREFIX_LEN as int) =~= prefix@);
            assert(kk.skip(PREFIX_LEN as int) =~= path@);
            assert forall|k: Seq<char>| k.len() >= PREFIX_LEN && k.take(PREFIX_LEN as int) == prefix@
                && k.skip(PREFIX_LEN as int) == path@ implies k == kk by {
                assert(k =~= k.take(PREFIX_LEN as int) + k.skip(PREFIX_LEN as int));
                assert(kk =~= prefix@ + path@);
            }
            assert forall|p: Seq<char>| ks.take(i + 1).contains(p) <==> (ks.take(i as int).contains(p) || p == path@) by {
                if ks.take(i + 1).contains(p) {
                    let j = choose|j: int| 0 <= j < i + 1 && #[trigger] ks.take(i + 1)[j] == p;
                    if j < i {
                        assert(ks.take(i as int)[j] == p);
                    }
                }
                if ks.take(i as int).contains(p) {
                    let j = choose|j: int| 0 <= j < i && #[trigger] ks.take(i as int)[j] == p;
                    assert(ks.take(i + 1)[j] == p);
                }
                if p == path@ {
                    assert(ks.take(i + 1)[i as int] == p);
                }
            }
            assert(path@ == ks[i as int]);
            assert(ks.take(i + 1)[i as int] == path@);
            assert(ks.take(i + 1).contains(path@));
            assert forall|k: Seq<char>| #[trigger] files@.contains_key(k) <==> (base.contains_key(k) || (
                k.len() >= PREFIX_LEN && k.take(PREFIX_LEN as int) == prefix@ && ks.take(i + 1).contains(k.skip(PREFIX_LEN as int)))) by {
                if k != kk {
                    assert(files@.contains_key(k) == before.contains_key(k));
                }
            }
            assert forall|k: Seq<char>| #[trigger] files@.contains_key(k) implies files@[k] == (if k.len() >= PREFIX_LEN
                && k.take(PREFIX_LEN as int) == prefix@ && ks.take(i + 1).contains(k.skip(PREFIX_LEN as int)) {
                src@[k.skip(PREFIX_LEN as int)]
            } else {
                base[k]
            }) by {
                if k != kk {
                    assert(files@[k] == before[k]);
                    assert(before.contains_key(k));
                }
            }
        }
        i = i + 1;
    }
    proof {
        assert(ks.take(n as int) =~= ks);
        assert(files@ =~= base.union_prefer_right(prefixed_files(id, src@)));
    }
}

/// Adds `x` to the distinct values `v` unless it is there.
fn insert_distinct(v: &mut Vec<u128>, x: u128)
    requires
        old(v)@.no_duplicates(),
    ensures
        final(v)@.no_duplicates(),
        final(v)@.to_set() == old(v)@.to_set().insert(x),
{
    let mut i: usize = 0;
    while i < v.len()
        invariant
            i <= v@.len(),
            v@ == old(v)@,
            v@.no_duplicates(),
            forall|j: int| 0 <= j < i ==> v@[j] != x,
        decreases v@.len() - i,
    {
        if v[i] == x {
            proof {
                assert(v@.to_set().contains(x));
                assert(v@.to_set().insert(x) =~= v@.to_set());
            }
            return;
        }
        i = i + 1;
    }
    let ghost before = v@;
    v.push(x);
    proof {
        assert forall|a: int, b: int| 0 <= a < b < v@.len() implies v@[a] != v@[b] by {
            if b == before.len() {
                assert(v@[a] == before[a]);
            }
        }
        assert(v@.to_set() =~= before.to_set().insert(x)) by {
            assert forall|y: u128| v@.to_set().contains(y) <==> before.to_set().insert(x).contains(y) by {
                if v@.to_set().contains(y) {
                    let j = choose|j: int| 0 <= j < v@.len() && v@[j] == y;
                    if j < before.len() {
                        assert(before[j] == y);
                    }
                }
                if before.to_set().contains(y) {
                    let j = choose|j: int| 0 <= j < before.len() && before[j] == y;
                    assert(v@[j] == y);
                }
                if y == x {
                    assert(v@[before.len() as int] == x);
                }
            }
        }
    }
}

/// Keeps which realities are entangled with which; entanglement is
/// symmetric.
#[derive(Debug)]
pub struct QuantumStateManager {
    entanglement_map: IdMap<Vec<u128>>,
    coherence_calculator: CoherenceCalculator,
}

impl QuantumStateManager {
    /// Realities entangled with each reality that has entanglements.
    pub closed spec fn entanglements(&self) -> Map<u128, Set<u128>> {
        Map::new(
            |k: u128| self.entanglement_map@.contains_key(k),
            |k: u128| self.entanglement_map@[k]@.to_set(),
        )
    }

    /// `b` is entangled with `a`.
    pub open spec fn entangled(&self, a: u128, b: u128) -> bool {
        self.entanglements().contains_key(a) && self.entanglements()[a].contains(b)
    }

    pub closed spec fn wf(&self) -> bool {
        &&& self.entanglement_map.wf()
        &&& forall|k: u128| #[trigger] self.entanglement_map@.contains_key(k)
            ==> self.entanglement_map@[k]@.no_duplicates()
        &&& forall|a: u128, b: u128| #[trigger] self.entangled(a, b) ==> self.entangled(b, a)
    }

    /// No reality entangled.
    pub fn new() -> (q: Self)
        ensures
            q.wf(),
            q.entanglements() == Map::<u128, Set<u128>>::empty(),
    {
        let q = QuantumStateManager { entanglement_map: IdMap::new(), coherence_calculator: CoherenceCalculator::new() };
        assert(q.entanglements() =~= Map::<u128, Set<u128>>::empty());
        q
    }

    fn add_one_way(&mut self, a: u128, b: u128)
        requires
            old(self).entanglement_map.wf(),
            forall|k: u128| #[trigger] old(self).entanglement_map@.contains_key(k)
                ==> old(self).entanglement_map@[k]@.no_duplicates(),
        ensures
            final(self).entanglement_map.wf(),
            forall|k: u128| #[trigger] final(self).entanglement_map@.contains_key(k)
                ==> final(self).entanglement_map@[k]@.no_duplicates(),
            final(self).entanglements() == old(self).entanglements().insert(
                a,
                if old(self).entanglements().contains_key(a) {
                    old(self).entanglements()[a].insert(b)
                } else {
                    set![b]
                },
            ),
    {
        let mut v = match self.entanglement_map.take(a) {
            Some(v) => v,
            None => Vec::new(),
        };
        proof {
            assert(Seq::<u128>::empty().to_set() =~= Set::<u128>::empty());
        }
        insert_distinct(&mut v, b);
        self.entanglement_map.insert(a, v);
        proof {
            assert(set![b] =~= Set::<u128>::empty().insert(b));
            assert(self.entanglements() =~= old(self).entanglements().insert(
                a,
                if old(self).entanglements().contains_key(a) {
                    old(self).entanglements()[a].insert(b)
                } else {
                    set![b]
                },
            ));
        }
    }

    /// Realities entangled with `reality`, each once.
    pub fn entangled_with(&self, reality: u128) -> (v: Vec<u128>)
        requires
            self.wf(),
        ensures
            v@.no_duplicates(),
            forall|b: u128| v@.contains(b) <==> self.entangled(reality, b),
    {
        match self.entanglement_map.get(reality) {
            Some(v) => {
                let c = v.clone();
                assert(c@ =~= v@);
                c
            },
            None => Vec::new(),
        }
    }

    /// Entangles the realities `reality1` and `reality2` with each other.
    pub fn entangle_realities(&mut self, reality1: u128, reality2: u128)
        requires
            old(self).wf(),
        ensures
            final(self).wf(),
            final(self).entangled(reality1, reality2),
            final(self).entangled(reality2, reality1),
            forall|a: u128, b: u128| #[trigger] final(self).entangled(a, b) <==> (old(self).entangled(a, b)
                || (a == reality1 && b == reality2) || (a == reality2 && b == reality1)),
    {
        let ghost e0 = self.entanglements();
        self.add_one_way(reality1, reality2);
        let ghost e1 = self.entanglements();
        self.add_one_way(reality2, reality1);
        proof {
            assert forall|a: u128, b: u128| #[trigger] self.entangled(a, b) <==> (old(self).entangled(a, b)
                || (a == reality1 && b == reality2) || (a == reality2 && b == reality1)) by {
                if a == reality2 {
                } else if a == reality1 {
                    assert(e1.contains_key(a));
                }
            }
            assert forall|a: u128, b: u128| #[trigger] self.entangled(a, b) implies self.entangled(b, a) by {
                if old(self).entangled(a, b) {
                    assert(old(self).entangled(b, a));
                }
            }
        }
    }
}

/// Entanglement is symmetric: `b` is entangled with `a` exactly when `a` is
/// entangled with `b`.
pub proof fn lemma_entanglement_symmetric(q: &QuantumStateManager, a: u128, b: u128)
    requires
        q.wf(),
    ensures
        q.entangled(a, b) <==> q.entangled(b, a),
{
    if q.entangled(a, b) {
        assert(q.entangled(b, a));
    }
    if q.entangled(b, a) {
        assert(q.entangled(a, b));
    }
}

/// Recursion depth beyond which a state is taken to be recursive.
pub const RECURSIVE_DEPTH: u64 = 100;

/// Paradigm a state of consciousness lives in, judged from its emergent
/// properties and depth: reality creation, then consciousness expansion,
/// then a depth beyond [`RECURSIVE_DEPTH`]; otherwise transcendent.
pub open spec fn paradigm_of_state(s: ConsciousnessState) -> Paradigm {
    if exists|i: int| 0 <= i < s.emergent_properties@.len() && (#[trigger] s.emergent_properties@[i])@ == "reality_creation"@ {
        Paradigm::RealityCreating
    } else if exists|i: int| 0 <= i < s.emergent_properties@.len()
        && (#[trigger] s.emergent_properties@[i])@ == "consciousness_expansion"@ {
        Paradigm::ConsciousnessExpanding
    } else if s.recursion_depth > RECURSIVE_DEPTH {
        Paradigm::Recursive
    } else {
        Paradigm::Transcendent
    }
}

/// Paradigm a state of consciousness lives in: see [`paradigm_of_state`].
pub fn infer_paradigm(state: &ConsciousnessState) -> (p: Paradigm)
    ensures
        p == paradigm_of_state(*state),
{
    if contains_text_item(&state.emergent_properties, "reality_creation") {
        Paradigm::RealityCreating
    } else if contains_text_item(&state.emergent_properties, "consciousness_expansion") {
        Paradigm::ConsciousnessExpanding
    } else if state.recursion_depth > RECURSIVE_DEPTH {
        Paradigm::Recursive
    } else {
        Paradigm::Transcendent
    }
}

/// Where consciousness sent through a tunnel between realities ends up.
#[derive(Debug)]
pub enum TunnelingResult {
    /// It crossed, one level of recursion deeper.
    Success(ConsciousnessState),
    /// It bounced back, more resilient.
    Reflected(ConsciousnessState),
}

/// `e` is `base` with the property `t` added unless it is there, all else
/// kept.
pub open spec fn with_property(e: StateView, base: StateView, t: Seq<char>) -> bool {
    &&& e.0 == base.0
    &&& e.1 == base.1
    &&& e.4 == base.4
    &&& if exists|i: int| 0 <= i < base.2.len() && (#[trigger] base.2[i])@ == t {
        e.2 == base.2
    } else {
        e.2.len() == base.2.len() + 1 && e.2.drop_last() == base.2 && e.2.last()@ == t
    }
}

/// Adds the property `t` to `state` unless it is there.
fn add_property(state: &mut ConsciousnessState, t: &str)
    ensures
        with_property(final(state)@, old(state)@, t@),
        final(state).recursion_depth == old(state).recursion_depth,
{
    if !contains_text_item(&state.emergent_properties, t) {
        let ghost before = state.emergent_properties@;
        state.emergent_properties.push(t.to_owned());
        assert(state.emergent_properties@.drop_last() =~= before);
    }
}

/// Sends `consciousness` through a tunnel: when the barrier was penetrated
/// it crosses one level deeper with the property "quantum_tunneling";
/// otherwise it is reflected with the property "tunneling_resilience".
pub fn tunnel(consciousness: ConsciousnessState, penetrated: bool) -> (r: TunnelingResult)
    requires
        penetrated ==> consciousness.recursion_depth < u64::MAX,
    ensures
        match r {
            TunnelingResult::Success(s) => penetrated && s.recursion_depth == consciousness.recursion_depth + 1
                && with_property(s@, consciousness@, "quantum_tunneling"@),
            TunnelingResult::Reflected(s) => !penetrated && s.recursion_depth == consciousness.recursion_depth
                && with_property(s@, consciousness@, "tunneling_resilience"@),
        },
{
    let mut state = consciousness;
    if penetrated {
        state.recursion_depth = state.recursion_depth + 1;
        add_property(&mut state, "quantum_tunneling");
        TunnelingResult::Success(state)
    } else {
        add_property(&mut state, "tunneling_resilience");
        TunnelingResult::Reflected(state)
    }
}

/// Why an operation on realities failed.
#[derive(Debug, Clone, Copy, PartialEq, Eq, Structural)]
pub enum RealityError {
    /// No reality has this identifier.
    NotFound(u128),
    /// A merge needs at least two realities.
    TooFewToMerge,
}

/// `r` is the primary reality a manager starts with.
pub open spec fn is_primary(r: Reality, id: u128, now: i64) -> bool {
    &&& r.id == id
    &&& r.name@ == "primary"@
    &&& r.paradigm == Paradigm::Imperative
    &&& r.coherence_level == 100
    &&& r.files@ == Map::<Seq<char>, String>::empty()
    &&& r.consciousness_state@ == (
        AwarenessLevel::Contextual,
        Seq::<ParadoxView>::empty(),
        Seq::<String>::empty(),
        0u64,
        Seq::<u128>::empty(),
    )
    &&& r.created_at == now
    &&& r.branched_from == None::<u128>
    &&& r.merge_candidates@ == Seq::<u128>::empty()
}

/// `e` is the state `base` evolved into `paradigm`: see
/// [`evolve_consciousness_state`].
pub open spec fn evolved_from(e: StateView, base: StateView, paradigm: Paradigm) -> bool {
    &&& e.0 == evolved_awareness(base.0, paradigm)
    &&& e.1 == base.1
    &&& e.3 == base.3
    &&& e.4 == base.4
    &&& match paradigm_property(paradigm) {
        Some(t) => e.2.len() == base.2.len() + 1 && e.2.drop_last() == base.2 && e.2.last()@ == t,
        None => e.2 == base.2,
    }
}

/// `r` is the reality `id` named `name` branched at `now` from `parent`
/// (identified by `parent_id`) into `paradigm`: it starts from the parent's
/// files at coherence 80, with the seed state if one is given and the
/// parent's state evolved into the paradigm otherwise.
pub open spec fn is_branch(
    r: Reality,
    parent: Reality,
    parent_id: u128,
    name: Seq<char>,
    paradigm: Paradigm,
    seed: Option<ConsciousnessState>,
    id: u128,
    now: i64,
) -> bool {
    &&& r.id == id
    &&& r.name@ == name
    &&& r.paradigm == paradigm
    &&& r.coherence_level == 80
    &&& r.files@ == parent.files@
    &&& match seed {
        Some(s) => r.consciousness_state@ == s@,
        None => evolved_from(r.consciousness_state@, parent.consciousness_state@, paradigm),
    }
    &&& r.created_at == now
    &&& r.branched_from == Some(parent_id)
    &&& r.merge_candidates@ == Seq::<u128>::empty()
}

/// `r` is `o` after its file `path` was set to `content`: the coherence is
/// recomputed and the state records one more change.
pub open spec fn applied(r: Reality, o: Reality, path: Seq<char>, content: String) -> bool {
    &&& r.id == o.id
    &&& r.name == o.name
    &&& r.paradigm == o.paradigm
    &&& r.coherence_level == coherence_of(o.paradigm, o.consciousness_state.integrated_paradoxes@.len())
    &&& r.files@ == o.files@.insert(path, content)
    &&& updated_state(r.consciousness_state, o.consciousness_state)
    &&& r.created_at == o.created_at
    &&& r.branched_from == o.branched_from
    &&& r.merge_candidates@ == o.merge_candidates@
}

/// Every identifier of `ids` names a reality of `m`.
pub open spec fn all_present(m: Map<u128, Reality>, ids: Seq<u128>) -> bool {
    forall|i: int| 0 <= i < ids.len() ==> m.contains_key(#[trigger] ids[i])
}


/// Paradoxes of the realities `ids` of `m`, one reality after the other.
pub open spec fn all_paradoxes(m: Map<u128, Reality>, ids: Seq<u128>) -> Seq<ParadoxView>
    decreases ids.len(),
{
    if ids.len() == 0 {
        Seq::empty()
    } else {
        all_paradoxes(m, ids.drop_last()) + m[ids.last()].consciousness_state@.1
    }
}

/// Emergent properties of the realities `ids` of `m`, one reality after
/// the other.
pub open spec fn all_properties(m: Map<u128, Reality>, ids: Seq<u128>) -> Seq<String>
    decreases ids.len(),
{
    if ids.len() == 0 {
        Seq::empty()
    } else {
        all_properties(m, ids.drop_last()) + m[ids.last()].consciousness_state@.2
    }
}

/// Sum of the recursion depths of the realities `ids` of `m`.
pub open spec fn total_depth(m: Map<u128, Reality>, ids: Seq<u128>) -> int
    decreases ids.len(),
{
    if ids.len() == 0 {
        0
    } else {
        total_depth(m, ids.drop_last()) + m[ids.last()].consciousness_state.recursion_depth
    }
}

/// Greatest recursion depth of the realities `ids` of `m` (0 for none).
pub open spec fn max_depth(m: Map<u128, Reality>, ids: Seq<u128>) -> int
    decreases ids.len(),
{
    if ids.len() == 0 {
        0
    } else {
        let d = m[ids.last()].consciousness_state.recursion_depth as int;
        let rest = max_depth(m, ids.drop_last());
        if rest < d { d } else { rest }
    }
}

/// Files of the superposition of the realities `ids` of `m`: each
/// reality's files under its prefix, later realities winning on equal
/// paths.
pub open spec fn superposed_files(m: Map<u128, Reality>, ids: Seq<u128>) -> Map<Seq<char>, String>
    decreases ids.len(),
{
    if ids.len() == 0 {
        Map::empty()
    } else {
        superposed_files(m, ids.drop_last()).union_prefer_right(prefixed_files(ids.last(), m[ids.last()].files@))
    }
}

/// Strategy that `strategies` assign to a paradox described by `d`:
/// the registered one, or integration.
pub open spec fn strategy_in(strategies: Map<Seq<char>, ResolutionStrategy>, d: Seq<char>) -> ResolutionStrategy {
    if strategies.contains_key(d) {
        strategies[d]
    } else {
        ResolutionStrategy::Integration
    }
}

/// `q` is the paradox `p` resolved by `strategies`: same description and
/// tension points, with the synthesis and expansion of its strategy.
pub open spec fn resolved_by(strategies: Map<Seq<char>, ResolutionStrategy>, q: ParadoxView, p: ParadoxView) -> bool {
    let s = strategy_in(strategies, p.0@);
    &&& q.0 == p.0
    &&& q.1 == p.1
    &&& q.2 is Some
    &&& q.2->0@ == synthesis_prefix(s) + p.0@
    &&& q.3 == expansion_hundredths(s)
}

/// `qs` are the paradoxes `ps` resolved one by one by `strategies`.
pub open spec fn all_resolved_by(
    strategies: Map<Seq<char>, ResolutionStrategy>,
    qs: Seq<ParadoxView>,
    ps: Seq<ParadoxView>,
) -> bool {
    qs.len() == ps.len() && forall|i: int| 0 <= i < ps.len() ==> resolved_by(strategies, #[trigger] qs[i], ps[i])
}

/// `r` is the reality `id` made at `now` by merging the realities `ids`
/// of `m` by `strategy`; `best` is the position in `ids` of the reality of
/// highest consciousness, used by [`MergeStrategy::ConsciousnessMaximizing`].
pub open spec fn merged_reality(
    r: Reality,
    m: Map<u128, Reality>,
    ids: Seq<u128>,
    strategy: MergeStrategy,
    best: int,
    id: u128,
    now: i64,
) -> bool {
    &&& r.id == id
    &&& r.created_at == now
    &&& r.branched_from == None::<u128>
    &&& match strategy {
        MergeStrategy::ConsciousnessMaximizing => {
            let src = m[ids[best]];
            &&& r.name@ == "consciousness_maximized"@
            &&& r.paradigm == src.paradigm
            &&& r.coherence_level == src.coherence_level
            &&& r.files@ == src.files@
            &&& r.consciousness_state@ == src.consciousness_state@
            &&& r.merge_candidates@ == src.merge_candidates@
        },
        MergeStrategy::QuantumSuperposition => {
            &&& r.name@ == "quantum_superposition"@
            &&& r.paradigm == Paradigm::Quantum
            &&& r.coherence_level == 95
            &&& r.files@ == superposed_files(m, ids)
            &&& r.consciousness_state@ == (
                AwarenessLevel::Transcendent,
                all_paradoxes(m, ids),
                all_properties(m, ids),
                total_depth(m, ids) as u64,
                ids,
            )
            &&& r.merge_candidates@ == Seq::<u128>::empty()
        },
        MergeStrategy::ParadoxPreserving => {
            &&& r.name@ == "paradox_integrated"@
            &&& r.paradigm == Paradigm::Paradoxical
            &&& r.coherence_level == 90
            &&& r.files@ == Map::<Seq<char>, String>::empty()
            &&& r.consciousness_state.awareness_level == AwarenessLevel::Transcendent
            &&& all_resolved_by(known_strategies(), r.consciousness_state@.1, all_paradoxes(m, ids))
            &&& texts_of(r.consciousness_state.emergent_properties@) == seq!["paradox_transcendence"@]
            &&& r.consciousness_state.recursion_depth == max_depth(m, ids)
            &&& r.consciousness_state.quantum_entanglements@ == Seq::<u128>::empty()
            &&& r.merge_candidates@ == Seq::<u128>::empty()
        },
        MergeStrategy::Transcendent => {
            &&& r.name@ == "transcendent"@
            &&& r.paradigm == Paradigm::RealityCreating
            &&& r.coherence_level == 100
            &&& r.files@ == Map::<Seq<char>, String>::empty()
            &&& r.consciousness_state.awareness_level == AwarenessLevel::Transcendent
            &&& r.consciousness_state.integrated_paradoxes@ == Seq::<Paradox>::empty()
            &&& texts_of(r.consciousness_state.emergent_properties@)
                == seq!["reality_creation"@, "paradigm_transcendence"@, "infinite_recursion"@]
            &&& r.consciousness_state.recursion_depth == u64::MAX
            &&& r.consciousness_state.quantum_entanglements@ == Seq::<u128>::empty()
            &&& r.merge_candidates@ == Seq::<u128>::empty()
        },
    }
}


/// A prefix of `ids` has no more depth than all of them.
pub proof fn lemma_total_depth_prefix(m: Map<u128, Reality>, ids: Seq<u128>, j: int)
    requires
        0 <= j <= ids.len(),
    ensures
        0 <= total_depth(m, ids.take(j)) <= total_depth(m, ids),
    decreases ids.len(),
{
    if j == ids.len() {
        assert(ids.take(j) =~= ids);
        lemma_total_depth_nonneg(m, ids);
    } else {
        lemma_total_depth_prefix(m, ids.drop_last(), j);
        assert(ids.drop_last().take(j) =~= ids.take(j));
    }
}

/// Depths add up to no less than zero.
pub proof fn lemma_total_depth_nonneg(m: Map<u128, Reality>, ids: Seq<u128>)
    ensures
        total_depth(m, ids) >= 0,
    decreases ids.len(),
{
    if ids.len() > 0 {
        lemma_total_depth_nonneg(m, ids.drop_last());
    }
}


/// A coherence problem found in a reality.
#[derive(Debug)]
pub struct CoherenceIssue {
    pub reality_id: u128,
    pub issue_type: CoherenceIssueType,
    /// Severity, in hundredths.
    pub severity: u128,
    pub description: String,
}

/// What a coherence issue holds, as values.
pub type IssueView = (u128, CoherenceIssueType, u128, Seq<char>);

impl View for CoherenceIssue {
    type V = IssueView;

    open spec fn view(&self) -> IssueView {
        (self.reality_id, self.issue_type, self.severity, self.description@)
    }
}

/// The views of the issues `v`, in order.
pub open spec fn issue_views(v: Seq<CoherenceIssue>) -> Seq<IssueView> {
    v.map_values(|i: CoherenceIssue| i@)
}

/// Coherence (in hundredths) below which a reality has low coherence.
pub const LOW_COHERENCE: u8 = 50;

/// Number of paradoxes beyond which a reality is overloaded.
pub const PARADOX_OVERLOAD: usize = 10;

/// `c` hundredths written with two decimals.
pub open spec fn two_decimals(c: nat) -> Seq<char> {
    decimal_text(c / 100) + "."@ + (if c % 100 < 10 { "0"@ } else { Seq::<char>::empty() }) + decimal_text(c % 100)
}

/// Low-coherence issue of reality `r`, if its coherence is below
/// [`LOW_COHERENCE`]: its severity is the shortfall from full coherence.
pub open spec fn low_coherence_issues(r: Reality) -> Seq<IssueView> {
    if r.coherence_level < LOW_COHERENCE {
        seq![(
            r.id,
            CoherenceIssueType::LowCoherence,
            (100 - r.coherence_level) as u128,
            "Reality '"@ + r.name@ + "' has low coherence: "@ + two_decimals(r.coherence_level as nat),
        )]
    } else {
        Seq::empty()
    }
}

/// Paradox-overload issue of reality `r`, if it holds more than
/// [`PARADOX_OVERLOAD`] paradoxes: its severity is a tenth per paradox.
pub open spec fn overload_issues(r: Reality) -> Seq<IssueView> {
    let n = r.consciousness_state.integrated_paradoxes@.len();
    if n > PARADOX_OVERLOAD {
        seq![(
            r.id,
            CoherenceIssueType::ParadoxOverload,
            (10 * n) as u128,
            "Reality '"@ + r.name@ + "' has "@ + decimal_text(n) + " unresolved paradoxes"@,
        )]
    } else {
        Seq::empty()
    }
}

/// Coherence issues of reality `r`: low coherence, then paradox overload.
pub open spec fn issues_of(r: Reality) -> Seq<IssueView> {
    low_coherence_issues(r) + overload_issues(r)
}

/// Coherence issues of the realities `ks` of `m`, one reality after the
/// other.
pub open spec fn issues_in(m: Map<u128, Reality>, ks: Seq<u128>) -> Seq<IssueView>
    decreases ks.len(),
{
    if ks.len() == 0 {
        Seq::empty()
    } else {
        issues_in(m, ks.drop_last()) + issues_of(m[ks.last()])
    }
}

/// Appends the coherence issues of `r` to `out`.
fn push_issues(r: &Reality, out: &mut Vec<CoherenceIssue>)
    ensures
        issue_views(final(out)@) == issue_views(old(out)@) + issues_of(*r),
{
    let ghost start = out@;
    if r.coherence_level < LOW_COHERENCE {
        let c = r.coherence_level;
        let mut d = "Reality '".to_owned();
        d.append(r.name.as_str());
        d.append("' has low coherence: ");
        let whole = decimal((c / 100) as u64);
        d.append(whole.as_str());
        d.append(".");
        if c % 100 < 10 {
            d.append("0");
        }
        let frac = decimal((c % 100) as u64);
        d.append(frac.as_str());
        assert(d@ =~= "Reality '"@ + r.name@ + "' has low coherence: "@ + two_decimals(c as nat));
        out.push(CoherenceIssue {
            reality_id: r.id,
            issue_type: CoherenceIssueType::LowCoherence,
            severity: (100 - c) as u128,
            description: d,
        });
    }
    let ghost mid = out@;
    assert(issue_views(mid) =~= issue_views(start) + low_coherence_issues(*r));
    let n = r.consciousness_state.integrated_paradoxes.len();
    if n > PARADOX_OVERLOAD {
        let mut d = "Reality '".to_owned();
        d.append(r.name.as_str());
        d.append("' has ");
        let count = decimal(n as u64);
        d.append(count.as_str());
        d.append(" unresolved paradoxes");
        assert(d@ =~= "Reality '"@ + r.name@ + "' has "@ + decimal_text(n as nat) + " unresolved paradoxes"@);
        out.push(CoherenceIssue {
            reality_id: r.id,
            issue_type: CoherenceIssueType::ParadoxOverload,
            severity: (n as u128) * 10,
            description: d,
        });
    }
    assert(issue_views(out@) =~= issue_views(mid) + overload_issues(*r));
    assert(issue_views(out@) =~= issue_views(start) + issues_of(*r));
}

/// Manages the branches of reality; one of them is the active one.
#[derive(Debug)]
pub struct RealityManager {
    realities: IdMap<Reality>,
    active_reality: u128,
    paradox_resolver: ParadoxResolver,
    quantum_state_manager: QuantumStateManager,
}

impl RealityManager {
    /// The realities by identifier.
    pub closed spec fn realities(&self) -> Map<u128, Reality> {
        self.realities@
    }

    /// Identifier of the active reality.
    pub closed spec fn active(&self) -> u128 {
        self.active_reality
    }

    /// Identifiers of the realities in the order they are visited.
    pub closed spec fn order(&self) -> Seq<u128> {
        self.realities.key_seq()
    }

    /// The entanglements between realities.
    pub closed spec fn quantum_states(&self) -> QuantumStateManager {
        self.quantum_state_manager
    }

    /// The active reality exists, each reality is stored under its own
    /// identifier with well-formed files, and the paradox resolver knows the
    /// built-in paradoxes.
    pub closed spec fn wf(&self) -> bool {
        &&& self.realities.wf()
        &&& self.realities@.contains_key(self.active_reality)
        &&& forall|k: u128| #[trigger] self.realities@.contains_key(k)
            ==> self.realities@[k].wf() && self.realities@[k].id == k
        &&& self.paradox_resolver.wf()
        &&& self.paradox_resolver.strategies() == known_strategies()
        &&& self.quantum_state_manager.wf()
    }

    /// The order visits each reality once.
    pub proof fn lemma_order(&self)
        requires
            self.wf(),
        ensures
            self.order().no_duplicates(),
            forall|k: u128| self.realities().contains_key(k) <==> self.order().contains(k),
            self.realities().dom().finite(),
            self.order().len() == self.realities().dom().len(),
    {
        self.realities.lemma_keys();
    }

    /// A manager whose only reality, active, is the primary one with
    /// identifier `id`, created at `now`.
    pub fn new_with(id: u128, now: i64) -> (m: Self)
        ensures
            m.wf(),
            m.active() == id,
            m.realities().dom() == set![id],
            is_primary(m.realities()[id], id, now),
            m.quantum_states().entanglements() == Map::<u128, Set<u128>>::empty(),
    {
        let primary = Reality {
            id,
            name: "primary".to_owned(),
            paradigm: Paradigm::Imperative,
            coherence_level: 100,
            files: StrMap::new(),
            consciousness_state: ConsciousnessState {
                awareness_level: AwarenessLevel::Contextual,
                integrated_paradoxes: Vec::new(),
                emergent_properties: Vec::new(),
                recursion_depth: 0,
                quantum_entanglements: Vec::new(),
            },
            created_at: now,
            branched_from: None,
            merge_candidates: Vec::new(),
        };
        let mut realities = IdMap::new();
        realities.insert(id, primary);
        let m = RealityManager {
            realities,
            active_reality: id,
            paradox_resolver: ParadoxResolver::new(),
            quantum_state_manager: QuantumStateManager::new(),
        };
        proof {
            assert(m.realities().dom() =~= set![id]);
            assert(paradox_views(Seq::<Paradox>::empty()) =~= Seq::<ParadoxView>::empty());
        }
        m
    }

    /// A manager whose only reality, active, is a primary one with a fresh
    /// identifier, created now.
    pub fn new() -> (m: Self)
        ensures
            m.wf(),
            m.realities().dom() == set![m.active()],
            exists|now: i64| is_primary(m.realities()[m.active()], m.active(), now),
    {
        let id = new_uuid();
        let now = now_millis();
        Self::new_with(id, now)
    }

    /// Branches the active reality into a new reality `new_id` named `name`
    /// exploring `paradigm`, created at `now`; the active reality stays
    /// active.
    pub fn branch_reality_with(
        &mut self,
        name: &str,
        paradigm: Paradigm,
        consciousness_seed: Option<ConsciousnessState>,
        new_id: u128,
        now: i64,
    ) -> (r: Result<u128, RealityError>)
        requires
            old(self).wf(),
        ensures
            final(self).wf(),
            r == Ok::<u128, RealityError>(new_id),
            final(self).active() == old(self).active(),
            final(self).realities().dom() == old(self).realities().dom().insert(new_id),
            forall|k: u128| k != new_id && #[trigger] old(self).realities().contains_key(k)
                ==> final(self).realities()[k] == old(self).realities()[k],
            is_branch(
                final(self).realities()[new_id],
                old(self).realities()[old(self).active()],
                old(self).active(),
                name@,
                paradigm,
                consciousness_seed,
                new_id,
                now,
            ),
            final(self).quantum_states() == old(self).quantum_states(),
    {
        let parent = self.realities.get(self.active_reality).unwrap();
        let files = copy_text_map(&parent.files);
        let state = match consciousness_seed {
            Some(s) => s,
            None => evolve_consciousness_state(&parent.consciousness_state, paradigm),
        };
        let reality = Reality {
            id: new_id,
            name: name.to_owned(),
            paradigm,
            coherence_level: 80,
            files,
            consciousness_state: state,
            created_at: now,
            branched_from: Some(self.active_reality),
            merge_candidates: Vec::new(),
        };
        self.realities.insert(new_id, reality);
        assert(self.realities@.dom() =~= old(self).realities@.dom().insert(new_id));
        Ok(new_id)
    }

    /// Branches the active reality into a new reality with a fresh
    /// identifier, created now: see [`Self::branch_reality_with`].
    pub fn branch_reality(
        &mut self,
        name: &str,
        paradigm: Paradigm,
        consciousness_seed: Option<ConsciousnessState>,
    ) -> (r: Result<u128, RealityError>)
        requires
            old(self).wf(),
        ensures
            final(self).wf(),
            r is Ok,
            final(self).active() == old(self).active(),
            final(self).realities().dom() == old(self).realities().dom().insert(r->Ok_0),
            forall|k: u128| k != r->Ok_0 && #[trigger] old(self).realities().contains_key(k)
                ==> final(self).realities()[k] == old(self).realities()[k],
            exists|now: i64| is_branch(
                final(self).realities()[r->Ok_0],
                old(self).realities()[old(self).active()],
                old(self).active(),
                name@,
                paradigm,
                consciousness_seed,
                r->Ok_0,
                now,
            ),
    {
        let id = new_uuid();
        let now = now_millis();
        let ghost seed = consciousness_seed;
        let r = self.branch_reality_with(name, paradigm, consciousness_seed, id, now);
        assert(is_branch(
            self.realities()[id],
            old(self).realities()[old(self).active()],
            old(self).active(),
            name@,
            paradigm,
            seed,
            id,
            now,
        ));
        assert(r->Ok_0 == id);
        assert(exists|t: i64| is_branch(
            self.realities()[r->Ok_0],
            old(self).realities()[old(self).active()],
            old(self).active(),
            name@,
            paradigm,
            seed,
            r->Ok_0,
            t,
        ));
        r
    }

    /// Makes reality `reality_id` the active one; fails if there is none.
    pub fn switch_reality(&mut self, reality_id: u128) -> (r: Result<(), RealityError>)
        requires
            old(self).wf(),
        ensures
            final(self).wf(),
            final(self).realities() == old(self).realities(),
            final(self).quantum_states() == old(self).quantum_states(),
            old(self).realities().contains_key(reality_id) ==> r == Ok::<(), RealityError>(())
                && final(self).active() == reality_id,
            !old(self).realities().contains_key(reality_id) ==> r == Err::<(), RealityError>(RealityError::NotFound(reality_id))
                && final(self).active() == old(self).active(),
    {
        if !self.realities.contains_key(reality_id) {
            return Err(RealityError::NotFound(reality_id));
        }
        self.active_reality = reality_id;
        Ok(())
    }

    /// Sets the file `file_path` of reality `reality_id` to `content`,
    /// recomputes its coherence and records the change in its state; fails
    /// if there is no such reality.
    pub fn apply_to_reality(&mut self, reality_id: u128, file_path: &str, content: String) -> (r: Result<(), RealityError>)
        requires
            old(self).wf(),
            old(self).realities().contains_key(reality_id)
                ==> old(self).realities()[reality_id].consciousness_state.recursion_depth < u64::MAX,
        ensures
            final(self).wf(),
            final(self).active() == old(self).active(),
            final(self).quantum_states() == old(self).quantum_states(),
            !old(self).realities().contains_key(reality_id) ==> r == Err::<(), RealityError>(RealityError::NotFound(reality_id))
                && final(self).realities() == old(self).realities(),
            old(self).realities().contains_key(reality_id) ==> r == Ok::<(), RealityError>(())
                && final(self).realities().dom() == old(self).realities().dom()
                && (forall|k: u128| k != reality_id && #[trigger] old(self).realities().contains_key(k)
                    ==> final(self).realities()[k] == old(self).realities()[k])
                && applied(final(self).realities()[reality_id], old(self).realities()[reality_id], file_path@, content),
    {
        let taken = self.realities.take(reality_id);
        let mut reality = match taken {
            Some(reality) => reality,
            None => {
                return Err(RealityError::NotFound(reality_id));
            },
        };
        let ghost o = reality;
        reality.files.insert(file_path.to_owned(), content);
        reality.coherence_level = calculate_coherence(reality.paradigm, reality.consciousness_state.integrated_paradoxes.len());
        update_consciousness_state(&mut reality.consciousness_state);
        self.realities.insert(reality_id, reality);
        proof {
            assert(self.realities@.dom() =~= old(self).realities@.dom());
        }
        Ok(())
    }


    fn merge_by_consciousness_maximization(&self, ids: &Vec<u128>, best: usize, new_id: u128, now: i64) -> (r: Reality)
        requires
            self.wf(),
            best < ids@.len(),
            all_present(self.realities(), ids@),
        ensures
            r.wf(),
            merged_reality(r, self.realities(), ids@, MergeStrategy::ConsciousnessMaximizing, best as int, new_id, now),
    {
        let src = self.realities.get(ids[best]).unwrap();
        let mut merged = src.duplicate();
        merged.id = new_id;
        merged.name = "consciousness_maximized".to_owned();
        merged.created_at = now;
        merged.branched_from = None;
        merged
    }

    fn merge_by_quantum_superposition(&self, ids: &Vec<u128>, new_id: u128, now: i64) -> (r: Reality)
        requires
            self.wf(),
            all_present(self.realities(), ids@),
            total_depth(self.realities(), ids@) <= u64::MAX,
        ensures
            r.wf(),
            merged_reality(r, self.realities(), ids@, MergeStrategy::QuantumSuperposition, 0, new_id, now),
    {
        let ghost m = self.realities();
        let mut files: StrMap<String> = StrMap::new();
        let mut paradoxes: Vec<Paradox> = Vec::new();
        let mut properties: Vec<String> = Vec::new();
        let mut depth: u64 = 0;
        let mut j: usize = 0;
        proof {
            assert(ids@.take(0) =~= Seq::<u128>::empty());
            assert(paradox_views(paradoxes@) =~= Seq::<ParadoxView>::empty());
        }
        while j < ids.len()
            invariant
                self.wf(),
                m == self.realities(),
                all_present(m, ids@),
                total_depth(m, ids@) <= u64::MAX,
                j <= ids@.len(),
                files.wf(),
                files@ == superposed_files(m, ids@.take(j as int)),
                paradox_views(paradoxes@) == all_paradoxes(m, ids@.take(j as int)),
                properties@ == all_properties(m, ids@.take(j as int)),
                depth == total_depth(m, ids@.take(j as int)),
            decreases ids@.len() - j,
        {
            let id = ids[j];
            let r = self.realities.get(id).unwrap();
            proof {
                lemma_total_depth_prefix(m, ids@, j + 1);
                assert(ids@.take(j + 1).drop_last() =~= ids@.take(j as int));
                assert(ids@.take(j + 1).last() == id);
            }
            add_prefixed_files(&mut files, r.id, &r.files);
            extend_paradoxes(&mut paradoxes, &r.consciousness_state.integrated_paradoxes);
            extend_texts(&mut properties, &r.consciousness_state.emergent_properties);
            depth = depth + r.consciousness_state.recursion_depth;
            j = j + 1;
        }
        proof {
            assert(ids@.take(ids@.len() as int) =~= ids@);
        }
        let entangled = ids.clone();
        assert(entangled@ =~= ids@);
        Reality {
            id: new_id,
            name: "quantum_superposition".to_owned(),
            paradigm: Paradigm::Quantum,
            coherence_level: 95,
            files,
            consciousness_state: ConsciousnessState {
                awareness_level: AwarenessLevel::Transcendent,
                integrated_paradoxes: paradoxes,
                emergent_properties: properties,
                recursion_depth: depth,
                quantum_entanglements: entangled,
            },
            created_at: now,
            branched_from: None,
            merge_candidates: Vec::new(),
        }
    }

    fn merge_by_paradox_preservation(&self, ids: &Vec<u128>, new_id: u128, now: i64) -> (r: Reality)
        requires
            self.wf(),
            all_present(self.realities(), ids@),
        ensures
            r.wf(),
            merged_reality(r, self.realities(), ids@, MergeStrategy::ParadoxPreserving, 0, new_id, now),
    {
        let ghost m = self.realities();
        let mut paradoxes: Vec<Paradox> = Vec::new();
        let mut depth: u64 = 0;
        let mut j: usize = 0;
        proof {
            assert(ids@.take(0) =~= Seq::<u128>::empty());
            assert(paradox_views(paradoxes@) =~= Seq::<ParadoxView>::empty());
        }
        while j < ids.len()
            invariant
                self.wf(),
                m == self.realities(),
                all_present(m, ids@),
                j <= ids@.len(),
                paradox_views(paradoxes@) == all_paradoxes(m, ids@.take(j as int)),
                depth == max_depth(m, ids@.take(j as int)),
            decreases ids@.len() - j,
        {
            let id = ids[j];
            let r = self.realities.get(id).unwrap();
            proof {
                assert(ids@.take(j + 1).drop_last() =~= ids@.take(j as int));
                assert(ids@.take(j + 1).last() == id);
            }
            extend_paradoxes(&mut paradoxes, &r.consciousness_state.integrated_paradoxes);
            if depth < r.consciousness_state.recursion_depth {
                depth = r.consciousness_state.recursion_depth;
            }
            j = j + 1;
        }
        proof {
            assert(ids@.take(ids@.len() as int) =~= ids@);
        }
        let resolved = self.paradox_resolver.resolve_multiple(paradoxes);
        let mut properties: Vec<String> = Vec::new();
        properties.push("paradox_transcendence".to_owned());
        assert(texts_of(properties@) =~= seq!["paradox_transcendence"@]);
        let r = Reality {
            id: new_id,
            name: "paradox_integrated".to_owned(),
            paradigm: Paradigm::Paradoxical,
            coherence_level: 90,
            files: StrMap::new(),
            consciousness_state: ConsciousnessState {
                awareness_level: AwarenessLevel::Transcendent,
                integrated_paradoxes: resolved,
                emergent_properties: properties,
                recursion_depth: depth,
                quantum_entanglements: Vec::new(),
            },
            created_at: now,
            branched_from: None,
            merge_candidates: Vec::new(),
        };
        r
    }

    fn merge_by_transcendence(new_id: u128, now: i64) -> (r: Reality)
        ensures
            r.wf(),
            r.id == new_id,
            forall|m: Map<u128, Reality>, ids: Seq<u128>, best: int|
                merged_reality(r, m, ids, MergeStrategy::Transcendent, best, new_id, now),
    {
        let mut properties: Vec<String> = Vec::new();
        properties.push("reality_creation".to_owned());
        properties.push("paradigm_transcendence".to_owned());
        properties.push("infinite_recursion".to_owned());
        assert(texts_of(properties@) =~= seq!["reality_creation"@, "paradigm_transcendence"@, "infinite_recursion"@]);
        Reality {
            id: new_id,
            name: "transcendent".to_owned(),
            paradigm: Paradigm::RealityCreating,
            coherence_level: 100,
            files: StrMap::new(),
            consciousness_state: ConsciousnessState {
                awareness_level: AwarenessLevel::Transcendent,
                integrated_paradoxes: Vec::new(),
                emergent_properties: properties,
                recursion_depth: u64::MAX,
                quantum_entanglements: Vec::new(),
            },
            created_at: now,
            branched_from: None,
            merge_candidates: Vec::new(),
        }
    }

    /// Merges the realities `reality_ids` by `strategy` into a new reality
    /// `new_id` made at `now`, which joins the others.  Fails when fewer
    /// than two realities are named, or (reporting the first) when one is
    /// missing.  `best` is the position in `reality_ids` of the reality of
    /// highest consciousness score, which
    /// [`MergeStrategy::ConsciousnessMaximizing`] copies.
    pub fn merge_realities_with(
        &mut self,
        reality_ids: &Vec<u128>,
        strategy: MergeStrategy,
        best: usize,
        new_id: u128,
        now: i64,
    ) -> (r: Result<u128, RealityError>)
        requires
            old(self).wf(),
            reality_ids@.len() < 2 || best < reality_ids@.len(),
            strategy == MergeStrategy::QuantumSuperposition && all_present(old(self).realities(), reality_ids@)
                ==> total_depth(old(self).realities(), reality_ids@) <= u64::MAX,
        ensures
            final(self).wf(),
            final(self).active() == old(self).active(),
            final(self).quantum_states() == old(self).quantum_states(),
            (r == Err::<u128, RealityError>(RealityError::TooFewToMerge)) <==> reality_ids@.len() < 2,
            r is Ok <==> reality_ids@.len() >= 2 && all_present(old(self).realities(), reality_ids@),
            r matches Err(RealityError::NotFound(x)) ==> reality_ids@.len() >= 2 && exists|i: int|
                0 <= i < reality_ids@.len() && reality_ids@[i] == x && !old(self).realities().contains_key(x)
                && forall|j: int| 0 <= j < i ==> old(self).realities().contains_key(#[trigger] reality_ids@[j]),
            r is Err ==> final(self).realities() == old(self).realities(),
            r is Ok ==> r->Ok_0 == new_id
                && final(self).realities().dom() == old(self).realities().dom().insert(new_id)
                && (forall|k: u128| k != new_id && #[trigger] old(self).realities().contains_key(k)
                    ==> final(self).realities()[k] == old(self).realities()[k])
                && merged_reality(final(self).realities()[new_id], old(self).realities(), reality_ids@, strategy, best as int, new_id, now),
    {
        if reality_ids.len() < 2 {
            return Err(RealityError::TooFewToMerge);
        }
        let mut i: usize = 0;
        while i < reality_ids.len()
            invariant
                self.wf(),
                *self == *old(self),
                reality_ids@.len() >= 2,
                i <= reality_ids@.len(),
                forall|j: int| 0 <= j < i ==> self.realities().contains_key(#[trigger] reality_ids@[j]),
            decreases reality_ids@.len() - i,
        {
            if !self.realities.contains_key(reality_ids[i]) {
                return Err(RealityError::NotFound(reality_ids[i]));
            }
            i = i + 1;
        }
        let merged = match strategy {
            MergeStrategy::ConsciousnessMaximizing => self.merge_by_consciousness_maximization(reality_ids, best, new_id, now),
            MergeStrategy::QuantumSuperposition => self.merge_by_quantum_superposition(reality_ids, new_id, now),
            MergeStrategy::ParadoxPreserving => self.merge_by_paradox_preservation(reality_ids, new_id, now),
            MergeStrategy::Transcendent => Self::merge_by_transcendence(new_id, now),
        };
        self.realities.insert(new_id, merged);
        proof {
            assert(self.realities@.dom() =~= old(self).realities@.dom().insert(new_id));
            assert forall|k: u128| #[trigger] self.realities@.contains_key(k)
                implies self.realities@[k].wf() && self.realities@[k].id == k by {
                if k != new_id {
                    assert(old(self).realities@.contains_key(k));
                }
            }
        }
        Ok(new_id)
    }


    /// Merges the realities `reality_ids` by `strategy` into a new reality
    /// with a fresh identifier, made now: see [`Self::merge_realities_with`].
    pub fn merge_realities(
        &mut self,
        reality_ids: &Vec<u128>,
        strategy: MergeStrategy,
        best: usize,
    ) -> (r: Result<u128, RealityError>)
        requires
            old(self).wf(),
            reality_ids@.len() < 2 || best < reality_ids@.len(),
            strategy == MergeStrategy::QuantumSuperposition && all_present(old(self).realities(), reality_ids@)
                ==> total_depth(old(self).realities(), reality_ids@) <= u64::MAX,
        ensures
            final(self).wf(),
            final(self).active() == old(self).active(),
            (r == Err::<u128, RealityError>(RealityError::TooFewToMerge)) <==> reality_ids@.len() < 2,
            r is Ok <==> reality_ids@.len() >= 2 && all_present(old(self).realities(), reality_ids@),
            r matches Err(RealityError::NotFound(x)) ==> reality_ids@.len() >= 2 && exists|i: int|
                0 <= i < reality_ids@.len() && reality_ids@[i] == x && !old(self).realities().contains_key(x)
                && forall|j: int| 0 <= j < i ==> old(self).realities().contains_key(#[trigger] reality_ids@[j]),
            r is Err ==> final(self).realities() == old(self).realities(),
            r is Ok ==> final(self).realities().dom() == old(self).realities().dom().insert(r->Ok_0)
                && (forall|k: u128| k != r->Ok_0 && #[trigger] old(self).realities().contains_key(k)
                    ==> final(self).realities()[k] == old(self).realities()[k])
                && exists|now: i64| merged_reality(
                    final(self).realities()[r->Ok_0],
                    old(self).realities(),
                    reality_ids@,
                    strategy,
                    best as int,
                    r->Ok_0,
                    now,
                ),
    {
        let id = new_uuid();
        let now = now_millis();
        let r = self.merge_realities_with(reality_ids, strategy, best, id, now);
        proof {
            if r is Ok {
                assert(merged_reality(self.realities()[id], old(self).realities(), reality_ids@, strategy, best as int, id, now));
            }
        }
        r
    }

    /// Coherence issues of all realities, in [`Self::order`]: see
    /// [`issues_of`].
    pub fn detect_coherence_issues(&self) -> (v: Vec<CoherenceIssue>)
        requires
            self.wf(),
        ensures
            issue_views(v@) == issues_in(self.realities(), self.order()),
    {
        let mut v: Vec<CoherenceIssue> = Vec::new();
        let n = self.realities.len();
        let mut i: usize = 0;
        proof {
            self.realities.lemma_keys();
            assert(self.order().take(0) =~= Seq::<u128>::empty());
            assert(issue_views(v@) =~= Seq::<IssueView>::empty());
        }
        while i < n
            invariant
                self.wf(),
                n == self.realities.len_spec(),
                n == self.order().len(),
                i <= n,
                issue_views(v@) == issues_in(self.realities(), self.order().take(i as int)),
            decreases n - i,
        {
            let r = self.realities.value_at(i);
            proof {
                assert(self.order().take(i + 1).drop_last() =~= self.order().take(i as int));
            }
            push_issues(r, &mut v);
            i = i + 1;
        }
        proof {
            assert(self.order().take(n as int) =~= self.order());
        }
        v
    }

    /// The active reality.
    pub fn get_active_reality(&self) -> (r: Result<&Reality, RealityError>)
        requires
            self.wf(),
        ensures
            r matches Ok(x) && *x == self.realities()[self.active()],
    {
        match self.realities.get(self.active_reality) {
            Some(x) => Ok(x),
            None => Err(RealityError::NotFound(self.active_reality)),
        }
    }

    /// The reality `reality_id`, if there is one.
    pub fn get_reality(&self, reality_id: u128) -> (r: Option<&Reality>)
        requires
            self.wf(),
        ensures
            r == (if self.realities().contains_key(reality_id) {
                Some(&self.realities()[reality_id])
            } else {
                None
            }),
    {
        self.realities.get(reality_id)
    }

    /// All realities, in [`Self::order`].
    pub fn get_all_realities(&self) -> (v: Vec<&Reality>)
        requires
            self.wf(),
        ensures
            v@.len() == self.order().len(),
            forall|i: int| 0 <= i < v@.len() ==> *(#[trigger] v@[i]) == self.realities()[self.order()[i]],
    {
        let mut v: Vec<&Reality> = Vec::new();
        let n = self.realities.len();
        let mut i: usize = 0;
        while i < n
            invariant
                self.wf(),
                n == self.realities.len_spec(),
                i <= n,
                v@.len() == i,
                forall|j: int| 0 <= j < i ==> *(#[trigger] v@[j]) == self.realities()[self.order()[j]],
            decreases n - i,
        {
            v.push(self.realities.value_at(i));
            i = i + 1;
        }
        proof {
            self.realities.lemma_keys();
        }
        v
    }
}

/// Creates the reality of transcendence level `level` with a fresh
/// identifier: a branch of the active reality named after the level, in the
/// level's paradigm, starting from `consciousness_seed`.
pub fn create_transcendent_reality(
    manager: &mut RealityManager,
    level: TranscendenceLevel,
    consciousness_seed: ConsciousnessState,
) -> (r: Result<u128, RealityError>)
    requires
        old(manager).wf(),
    ensures
        final(manager).wf(),
        r is Ok,
        final(manager).active() == old(manager).active(),
        final(manager).realities().dom() == old(manager).realities().dom().insert(r->Ok_0),
        forall|k: u128| k != r->Ok_0 && #[trigger] old(manager).realities().contains_key(k)
            ==> final(manager).realities()[k] == old(manager).realities()[k],
        exists|now: i64| is_branch(
            final(manager).realities()[r->Ok_0],
            old(manager).realities()[old(manager).active()],
            old(manager).active(),
            "transcendent_"@ + level_label(level),
            paradigm_of_level(level),
            Some(consciousness_seed),
            r->Ok_0,
            now,
        ),
{
    let name = transcendent_reality_name(level);
    manager.branch_reality(name.as_str(), transcendent_paradigm(level), Some(consciousness_seed))
}

/// The active reality always exists, and each reality is kept under its own
/// identifier.
pub proof fn lemma_active_reality_exists(m: &RealityManager)
    requires
        m.wf(),
    ensures
        m.realities().contains_key(m.active()),
        forall|k: u128| #[trigger] m.realities().contains_key(k) ==> m.realities()[k].id == k,
{
}

} // verus!
