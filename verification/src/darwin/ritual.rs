//! Ritual-based learning cycles: a ritual is a sequence of named stages, a
//! stage may start only once every stage it depends on has completed, and a
//! ritual is complete, and no longer active, once all its stages are.
//! Times are wall-clock milliseconds.

use vstd::prelude::*;
use crate::clock::now_millis;
use crate::clock::new_uuid;
use crate::core_lib::id_map::IdMap;

verus! {

/// Progress of one stage.
#[derive(Debug, Clone, Copy, PartialEq, Eq, Structural)]
pub enum RitualStageStatus {
    Pending,
    InProgress,
    Completed,
    Failed,
}

/// A stage of a ritual.
#[derive(Debug)]
pub struct RitualStage {
    pub name: String,
    pub description: String,
    pub status: RitualStageStatus,
    /// Names of the stages that must complete first.
    pub depends_on: Vec<String>,
    pub artifacts: Vec<String>,
    pub started_at: Option<i64>,
    pub completed_at: Option<i64>,
}

/// A learning cycle made of stages.
#[derive(Debug)]
pub struct Ritual {
    pub id: u128,
    pub name: String,
    pub description: String,
    pub stages: Vec<RitualStage>,
    pub created_at: i64,
    pub updated_at: i64,
    pub completed_at: Option<i64>,
}

/// Why a ritual request failed.
#[derive(Debug, Clone, PartialEq, Eq)]
pub enum RitualError {
    /// No ritual has this identifier.
    RitualNotFound(u128),
    /// The ritual has no stage of this name.
    StageNotFound(String),
    /// A dependency names no stage of the ritual.
    DependencyNotFound(String),
    /// A dependency has not completed.
    DependencyNotCompleted(String),
}

/// Position of the first stage of `stages` named `name`, or -1.
pub open spec fn first_stage(stages: Seq<RitualStage>, name: Seq<char>) -> int
    decreases stages.len(),
{
    if stages.len() == 0 {
        -1
    } else {
        let k = first_stage(stages.drop_last(), name);
        if k >= 0 {
            k
        } else if stages.last().name@ == name {
            stages.len() - 1
        } else {
            -1
        }
    }
}

/// Dependency `d` is satisfied in `stages`: it names a stage and the first
/// stage of that name has completed.
pub open spec fn dep_satisfied(stages: Seq<RitualStage>, d: Seq<char>) -> bool {
    first_stage(stages, d) >= 0 && stages[first_stage(stages, d)].status == RitualStageStatus::Completed
}

/// Position of the first unsatisfied dependency of `deps`, or -1.
pub open spec fn first_unsatisfied(stages: Seq<RitualStage>, deps: Seq<String>) -> int
    decreases deps.len(),
{
    if deps.len() == 0 {
        -1
    } else {
        let k = first_unsatisfied(stages, deps.drop_last());
        if k >= 0 {
            k
        } else if !dep_satisfied(stages, deps.last()@) {
            deps.len() - 1
        } else {
            -1
        }
    }
}

/// Position of the first stage of `stages` in progress, or -1.
pub open spec fn first_in_progress(stages: Seq<RitualStage>) -> int
    decreases stages.len(),
{
    if stages.len() == 0 {
        -1
    } else {
        let k = first_in_progress(stages.drop_last());
        if k >= 0 {
            k
        } else if stages.last().status == RitualStageStatus::InProgress {
            stages.len() - 1
        } else {
            -1
        }
    }
}

proof fn lemma_first_in_progress(stages: Seq<RitualStage>)
    ensures
        -1 <= first_in_progress(stages) < stages.len(),
        first_in_progress(stages) >= 0 ==> stages[first_in_progress(stages)].status == RitualStageStatus::InProgress,
        first_in_progress(stages) >= 0 ==> forall|j: int| 0 <= j < first_in_progress(stages) ==> (#[trigger] stages[j]).status != RitualStageStatus::InProgress,
        first_in_progress(stages) < 0 ==> forall|j: int| 0 <= j < stages.len() ==> (#[trigger] stages[j]).status != RitualStageStatus::InProgress,
    decreases stages.len(),
{
    if stages.len() > 0 {
        lemma_first_in_progress(stages.drop_last());
        assert forall|j: int| 0 <= j < stages.len() - 1 implies stages.drop_last()[j] == stages[j] by {}
    }
}

/// Every stage of `stages` has completed.
pub open spec fn all_completed(stages: Seq<RitualStage>) -> bool {
    forall|i: int| 0 <= i < stages.len() ==> (#[trigger] stages[i]).status == RitualStageStatus::Completed
}

proof fn lemma_first_stage(stages: Seq<RitualStage>, name: Seq<char>)
    ensures
        -1 <= first_stage(stages, name) < stages.len(),
        first_stage(stages, name) >= 0 ==> stages[first_stage(stages, name)].name@ == name,
        first_stage(stages, name) >= 0 ==> forall|j: int| 0 <= j < first_stage(stages, name) ==> (#[trigger] stages[j]).name@ != name,
        first_stage(stages, name) < 0 ==> forall|j: int| 0 <= j < stages.len() ==> (#[trigger] stages[j]).name@ != name,
    decreases stages.len(),
{
    if stages.len() > 0 {
        lemma_first_stage(stages.drop_last(), name);
        assert forall|j: int| 0 <= j < stages.len() - 1 implies stages.drop_last()[j] == stages[j] by {}
    }
}

proof fn lemma_first_unsatisfied(stages: Seq<RitualStage>, deps: Seq<String>)
    ensures
        -1 <= first_unsatisfied(stages, deps) < deps.len(),
        first_unsatisfied(stages, deps) >= 0 ==> !dep_satisfied(stages, deps[first_unsatisfied(stages, deps)]@),
        first_unsatisfied(stages, deps) >= 0 ==> forall|j: int| 0 <= j < first_unsatisfied(stages, deps) ==> dep_satisfied(stages, (#[trigger] deps[j])@),
        first_unsatisfied(stages, deps) < 0 ==> forall|j: int| 0 <= j < deps.len() ==> dep_satisfied(stages, (#[trigger] deps[j])@),
    decreases deps.len(),
{
    if deps.len() > 0 {
        lemma_first_unsatisfied(stages, deps.drop_last());
        assert forall|j: int| 0 <= j < deps.len() - 1 implies deps.drop_last()[j] == deps[j] by {}
    }
}

/// Position of the first stage named `name`, if any.
fn find_stage(stages: &Vec<RitualStage>, name: &String) -> (r: Option<usize>)
    ensures
        match r {
            Some(k) => k < stages@.len() && k as int == first_stage(stages@, name@),
            None => first_stage(stages@, name@) == -1,
        },
{
    proof {
        lemma_first_stage(stages@, name@);
    }
    let mut i: usize = 0;
    while i < stages.len()
        invariant
            i <= stages@.len(),
            forall|j: int| 0 <= j < i ==> (#[trigger] stages@[j]).name@ != name@,
            -1 <= first_stage(stages@, name@) < stages@.len(),
            first_stage(stages@, name@) >= 0 ==> stages@[first_stage(stages@, name@)].name@ == name@,
            first_stage(stages@, name@) >= 0 ==> forall|j: int| 0 <= j < first_stage(stages@, name@) ==> (#[trigger] stages@[j]).name@ != name@,
            first_stage(stages@, name@) < 0 ==> forall|j: int| 0 <= j < stages@.len() ==> (#[trigger] stages@[j]).name@ != name@,
        decreases stages@.len() - i,
    {
        if stages[i].name == *name {
            return Some(i);
        }
        i = i + 1;
    }
    None
}

/// Position of the first unsatisfied dependency among `deps`, if any.
fn find_unsatisfied(stages: &Vec<RitualStage>, deps: &Vec<String>) -> (r: Option<usize>)
    ensures
        match r {
            Some(k) => k < deps@.len() && k as int == first_unsatisfied(stages@, deps@),
            None => first_unsatisfied(stages@, deps@) == -1,
        },
{
    proof {
        lemma_first_unsatisfied(stages@, deps@);
    }
    let mut i: usize = 0;
    while i < deps.len()
        invariant
            i <= deps@.len(),
            forall|j: int| 0 <= j < i ==> dep_satisfied(stages@, (#[trigger] deps@[j])@),
            -1 <= first_unsatisfied(stages@, deps@) < deps@.len(),
            first_unsatisfied(stages@, deps@) >= 0 ==> !dep_satisfied(stages@, deps@[first_unsatisfied(stages@, deps@)]@),
            first_unsatisfied(stages@, deps@) >= 0 ==> forall|j: int| 0 <= j < first_unsatisfied(stages@, deps@) ==> dep_satisfied(stages@, (#[trigger] deps@[j])@),
            first_unsatisfied(stages@, deps@) < 0 ==> forall|j: int| 0 <= j < deps@.len() ==> dep_satisfied(stages@, (#[trigger] deps@[j])@),
        decreases deps@.len() - i,
    {
        let ok = match find_stage(stages, &deps[i]) {
            Some(k) => stages[k].status == RitualStageStatus::Completed,
            None => false,
        };
        if !ok {
            return Some(i);
        }
        i = i + 1;
    }
    None
}

/// Whether every stage has completed.
fn every_stage_completed(stages: &Vec<RitualStage>) -> (b: bool)
    ensures
        b == all_completed(stages@),
{
    let mut i: usize = 0;
    while i < stages.len()
        invariant
            i <= stages@.len(),
            forall|j: int| 0 <= j < i ==> (#[trigger] stages@[j]).status == RitualStageStatus::Completed,
        decreases stages@.len() - i,
    {
        if stages[i].status != RitualStageStatus::Completed {
            return false;
        }
        i = i + 1;
    }
    true
}

/// Outcome of starting stage `name` of ritual `ritual_id` at `now`, from
/// rituals `o` to rituals `f` with result `r`: only that ritual may
/// change; the first stage of that name starts once every stage it
/// depends on has completed, and otherwise the first missing or
/// unfinished dependency is reported and nothing changes.
pub open spec fn start_outcome(
    o: Map<u128, Ritual>,
    f: Map<u128, Ritual>,
    ritual_id: u128,
    name: Seq<char>,
    now: i64,
    r: Result<(), RitualError>,
) -> bool {
    &&& f.dom() == o.dom()
    &&& forall|k: u128| #[trigger] o.contains_key(k) && k != ritual_id ==> f[k] == o[k]
    &&& !o.contains_key(ritual_id) ==> r == Err::<(), RitualError>(RitualError::RitualNotFound(ritual_id))
    &&& o.contains_key(ritual_id) ==> ({
        let old_r = o[ritual_id];
        let new_r = f[ritual_id];
        let k = first_stage(old_r.stages@, name);
        if k < 0 {
            &&& r matches Err(RitualError::StageNotFound(s)) && s@ == name
            &&& new_r == old_r
        } else {
            let deps = old_r.stages@[k].depends_on@;
            let j = first_unsatisfied(old_r.stages@, deps);
            if j >= 0 {
                &&& new_r == old_r
                &&& if first_stage(old_r.stages@, deps[j]@) < 0 {
                    r matches Err(RitualError::DependencyNotFound(s)) && s@ == deps[j]@
                } else {
                    r matches Err(RitualError::DependencyNotCompleted(s)) && s@ == deps[j]@
                }
            } else {
                &&& r is Ok
                &&& new_r.stages@.len() == old_r.stages@.len()
                &&& forall|i: int| 0 <= i < old_r.stages@.len() && i != k ==> new_r.stages@[i] == old_r.stages@[i]
                &&& new_r.stages@[k].status == RitualStageStatus::InProgress
                &&& new_r.stages@[k].started_at == Some(now)
                &&& new_r.stages@[k].name == old_r.stages@[k].name
                &&& new_r.stages@[k].description == old_r.stages@[k].description
                &&& new_r.stages@[k].depends_on == old_r.stages@[k].depends_on
                &&& new_r.stages@[k].artifacts == old_r.stages@[k].artifacts
                &&& new_r.stages@[k].completed_at == old_r.stages@[k].completed_at
                &&& new_r.updated_at == now
                &&& new_r.id == old_r.id
                &&& new_r.name == old_r.name
                &&& new_r.description == old_r.description
                &&& new_r.created_at == old_r.created_at
                &&& new_r.completed_at == old_r.completed_at
            }
        }
    })
}

/// Outcome of completing stage `name` of ritual `ritual_id` with
/// `artifacts` at `now`, from rituals `o` and active rituals `oa` to `f`
/// and `fa`, with result `r`: only that ritual may change; its first stage
/// of that name completes, and once every stage has completed the ritual
/// is complete and no longer active.
pub open spec fn complete_outcome(
    o: Map<u128, Ritual>,
    f: Map<u128, Ritual>,
    oa: Set<u128>,
    fa: Set<u128>,
    ritual_id: u128,
    name: Seq<char>,
    artifacts: Seq<String>,
    now: i64,
    r: Result<(), RitualError>,
) -> bool {
    &&& f.dom() == o.dom()
    &&& forall|k: u128| #[trigger] o.contains_key(k) && k != ritual_id ==> f[k] == o[k]
    &&& !o.contains_key(ritual_id) ==> r == Err::<(), RitualError>(RitualError::RitualNotFound(ritual_id)) && fa == oa
    &&& o.contains_key(ritual_id) ==> ({
        let old_r = o[ritual_id];
        let new_r = f[ritual_id];
        let k = first_stage(old_r.stages@, name);
        if k < 0 {
            &&& r matches Err(RitualError::StageNotFound(s)) && s@ == name
            &&& new_r == old_r
            &&& fa == oa
        } else {
            &&& r is Ok
            &&& new_r.stages@.len() == old_r.stages@.len()
            &&& forall|i: int| 0 <= i < old_r.stages@.len() && i != k ==> new_r.stages@[i] == old_r.stages@[i]
            &&& new_r.stages@[k].status == RitualStageStatus::Completed
            &&& new_r.stages@[k].completed_at == Some(now)
            &&& new_r.stages@[k].artifacts@ == artifacts
            &&& new_r.stages@[k].name == old_r.stages@[k].name
            &&& new_r.stages@[k].description == old_r.stages@[k].description
            &&& new_r.stages@[k].depends_on == old_r.stages@[k].depends_on
            &&& new_r.stages@[k].started_at == old_r.stages@[k].started_at
            &&& new_r.updated_at == now
            &&& new_r.id == old_r.id
            &&& new_r.name == old_r.name
            &&& new_r.description == old_r.description
            &&& new_r.created_at == old_r.created_at
            &&& if all_completed(new_r.stages@) {
                &&& new_r.completed_at == Some(now)
                &&& fa == oa.remove(ritual_id)
            } else {
                &&& new_r.completed_at == old_r.completed_at
                &&& fa == oa
            }
        }
    })
}

/// Keeps the rituals of one agent and which of them are still running.
#[derive(Debug)]
pub struct RitualManager {
    rituals: IdMap<Ritual>,
    active_rituals: IdMap<()>,
}

impl RitualManager {
    /// Rituals by identifier.
    pub closed spec fn ritual_map(&self) -> Map<u128, Ritual> {
        self.rituals@
    }

    /// Identifiers of the rituals not yet complete.
    pub closed spec fn active_ids(&self) -> Set<u128> {
        self.active_rituals@.dom()
    }

    pub closed spec fn wf(&self) -> bool {
        &&& self.rituals.wf()
        &&& self.active_rituals.wf()
    }

    /// A manager with no rituals.
    pub fn new() -> (m: Self)
        ensures
            m.wf(),
            m.ritual_map() == Map::<u128, Ritual>::empty(),
            m.active_ids() == Set::<u128>::empty(),
    {
        let m = RitualManager { rituals: IdMap::new(), active_rituals: IdMap::new() };
        assert(m.active_rituals@.dom() =~= Set::<u128>::empty());
        m
    }

    /// Records the active ritual `id` named `name` with `stages`, made at
    /// `now`, and returns its identifier.
    pub fn create_ritual_with(
        &mut self,
        id: u128,
        name: String,
        description: String,
        stages: Vec<RitualStage>,
        now: i64,
    ) -> (r: u128)
        requires
            old(self).wf(),
        ensures
            final(self).wf(),
            r == id,
            final(self).ritual_map().dom() == old(self).ritual_map().dom().insert(id),
            forall|k: u128| #[trigger] old(self).ritual_map().contains_key(k) && k != id
                ==> final(self).ritual_map()[k] == old(self).ritual_map()[k],
            final(self).ritual_map()[id].id == id,
            final(self).ritual_map()[id].name == name,
            final(self).ritual_map()[id].description == description,
            final(self).ritual_map()[id].stages@ == stages@,
            final(self).ritual_map()[id].created_at == now,
            final(self).ritual_map()[id].updated_at == now,
            final(self).ritual_map()[id].completed_at is None,
            final(self).active_ids() == old(self).active_ids().insert(id),
    {
        let ritual = Ritual { id, name, description, stages, created_at: now, updated_at: now, completed_at: None };
        self.rituals.insert(id, ritual);
        self.active_rituals.insert(id, ());
        assert(self.rituals@.dom() =~= old(self).rituals@.dom().insert(id));
        assert(self.active_rituals@.dom() =~= old(self).active_rituals@.dom().insert(id));
        id
    }

    /// Records a new active ritual under a fresh identifier at the current
    /// time.
    pub fn create_ritual(&mut self, name: String, description: String, stages: Vec<RitualStage>) -> (r: u128)
        requires
            old(self).wf(),
        ensures
            final(self).wf(),
            final(self).ritual_map().dom() == old(self).ritual_map().dom().insert(r),
            forall|k: u128| #[trigger] old(self).ritual_map().contains_key(k) && k != r
                ==> final(self).ritual_map()[k] == old(self).ritual_map()[k],
            final(self).ritual_map()[r].id == r,
            final(self).ritual_map()[r].name == name,
            final(self).ritual_map()[r].description == description,
            final(self).ritual_map()[r].stages@ == stages@,
            final(self).ritual_map()[r].created_at == final(self).ritual_map()[r].updated_at,
            final(self).ritual_map()[r].completed_at is None,
            final(self).active_ids() == old(self).active_ids().insert(r),
    {
        let id = new_uuid();
        let now = now_millis();
        self.create_ritual_with(id, name, description, stages, now)
    }

    /// The ritual `id`.
    pub fn get_ritual(&self, id: u128) -> (r: Result<&Ritual, RitualError>)
        requires
            self.wf(),
        ensures
            match r {
                Ok(rit) => self.ritual_map().contains_key(id) && *rit == self.ritual_map()[id],
                Err(e) => !self.ritual_map().contains_key(id) && e == RitualError::RitualNotFound(id),
            },
    {
        match self.rituals.get(id) {
            Some(r) => Ok(r),
            None => Err(RitualError::RitualNotFound(id)),
        }
    }

    /// Starts stage `stage_name` of ritual `ritual_id` at `now`.  The first
    /// stage of that name is started, once every stage it depends on has
    /// completed; otherwise the first missing or unfinished dependency is
    /// reported and nothing changes.
    pub fn start_stage_at(&mut self, ritual_id: u128, stage_name: &str, now: i64) -> (r: Result<(), RitualError>)
        requires
            old(self).wf(),
        ensures
            final(self).wf(),
            final(self).active_ids() == old(self).active_ids(),
            start_outcome(old(self).ritual_map(), final(self).ritual_map(), ritual_id, stage_name@, now, r),
    {
        let mut ritual = match self.rituals.take(ritual_id) {
            Some(r) => r,
            None => {
                proof {
                    assert(self.rituals@ =~= old(self).rituals@);
                }
                return Err(RitualError::RitualNotFound(ritual_id));
            },
        };
        let ghost old_r = ritual;
        let name = stage_name.to_owned();
        let k = match find_stage(&ritual.stages, &name) {
            Some(k) => k,
            None => {
                self.rituals.insert(ritual_id, ritual);
                proof {
                    assert(self.rituals@ =~= old(self).rituals@);
                }
                return Err(RitualError::StageNotFound(name));
            },
        };
        proof {
            lemma_first_stage(old_r.stages@, stage_name@);
        }
        match find_unsatisfied(&ritual.stages, &ritual.stages[k].depends_on) {
            Some(j) => {
                let dep = ritual.stages[k].depends_on[j].clone();
                let missing = find_stage(&ritual.stages, &dep).is_none();
                self.rituals.insert(ritual_id, ritual);
                proof {
                    assert(self.rituals@ =~= old(self).rituals@);
                }
                if missing {
                    return Err(RitualError::DependencyNotFound(dep));
                } else {
                    return Err(RitualError::DependencyNotCompleted(dep));
                }
            },
            None => {},
        }
        let mut stage = ritual.stages.remove(k);
        stage.status = RitualStageStatus::InProgress;
        stage.started_at = Some(now);
        ritual.stages.insert(k, stage);
        ritual.updated_at = now;
        proof {
            assert forall|i: int| 0 <= i < old_r.stages@.len() && i != k implies ritual.stages@[i] == old_r.stages@[i] by {
                if i < k {
                } else {
                }
            }
        }
        self.rituals.insert(ritual_id, ritual);
        proof {
            assert(self.rituals@.dom() =~= old(self).rituals@.dom());
        }
        Ok(())
    }

    /// Starts stage `stage_name` of ritual `ritual_id` now: see
    /// [`start_outcome`].
    pub fn start_stage(&mut self, ritual_id: u128, stage_name: &str) -> (r: Result<(), RitualError>)
        requires
            old(self).wf(),
        ensures
            final(self).wf(),
            final(self).active_ids() == old(self).active_ids(),
            exists|now: i64| start_outcome(old(self).ritual_map(), final(self).ritual_map(), ritual_id, stage_name@, now, r),
    {
        let now = now_millis();
        self.start_stage_at(ritual_id, stage_name, now)
    }

    /// Completes stage `stage_name` of ritual `ritual_id` at `now`, storing
    /// its artifacts.  When every stage has then completed, the ritual is
    /// complete and no longer active.
    pub fn complete_stage_at(&mut self, ritual_id: u128, stage_name: &str, artifacts: Vec<String>, now: i64) -> (r: Result<(), RitualError>)
        requires
            old(self).wf(),
        ensures
            final(self).wf(),
            complete_outcome(
                old(self).ritual_map(),
                final(self).ritual_map(),
                old(self).active_ids(),
                final(self).active_ids(),
                ritual_id,
                stage_name@,
                artifacts@,
                now,
                r,
            ),
    {
        let mut ritual = match self.rituals.take(ritual_id) {
            Some(r) => r,
            None => {
                proof {
                    assert(self.rituals@ =~= old(self).rituals@);
                }
                return Err(RitualError::RitualNotFound(ritual_id));
            },
        };
        let ghost old_r = ritual;
        let name = stage_name.to_owned();
        let k = match find_stage(&ritual.stages, &name) {
            Some(k) => k,
            None => {
                self.rituals.insert(ritual_id, ritual);
                proof {
                    assert(self.rituals@ =~= old(self).rituals@);
                }
                return Err(RitualError::StageNotFound(name));
            },
        };
        let mut stage = ritual.stages.remove(k);
        stage.status = RitualStageStatus::Completed;
        stage.completed_at = Some(now);
        stage.artifacts = artifacts;
        ritual.stages.insert(k, stage);
        ritual.updated_at = now;
        proof {
            assert forall|i: int| 0 <= i < old_r.stages@.len() && i != k implies ritual.stages@[i] == old_r.stages@[i] by {
                if i < k {
                } else {
                }
            }
        }
        if every_stage_completed(&ritual.stages) {
            ritual.completed_at = Some(now);
            self.active_rituals.remove(ritual_id);
            assert(self.active_rituals@.dom() =~= old(self).active_rituals@.dom().remove(ritual_id));
        }
        self.rituals.insert(ritual_id, ritual);
        proof {
            assert(self.rituals@.dom() =~= old(self).rituals@.dom());
        }
        Ok(())
    }

    /// Completes stage `stage_name` of ritual `ritual_id` now: see
    /// [`complete_outcome`].
    pub fn complete_stage(&mut self, ritual_id: u128, stage_name: &str, artifacts: Vec<String>) -> (r: Result<(), RitualError>)
        requires
            old(self).wf(),
        ensures
            final(self).wf(),
            exists|now: i64| complete_outcome(
                old(self).ritual_map(),
                final(self).ritual_map(),
                old(self).active_ids(),
                final(self).active_ids(),
                ritual_id,
                stage_name@,
                artifacts@,
                now,
                r,
            ),
    {
        let now = now_millis();
        self.complete_stage_at(ritual_id, stage_name, artifacts, now)
    }

    /// Adds `artifact` (a modification's identifier in text form) to the
    /// artifacts of the first stage of ritual `ritual_id` that is in
    /// progress, if there is one.
    pub fn link_modification(&mut self, ritual_id: u128, artifact: String) -> (r: Result<(), RitualError>)
        requires
            old(self).wf(),
        ensures
            final(self).wf(),
            final(self).active_ids() == old(self).active_ids(),
            final(self).ritual_map().dom() == old(self).ritual_map().dom(),
            forall|k: u128| #[trigger] old(self).ritual_map().contains_key(k) && k != ritual_id
                ==> final(self).ritual_map()[k] == old(self).ritual_map()[k],
            !old(self).ritual_map().contains_key(ritual_id) ==> r == Err::<(), RitualError>(RitualError::RitualNotFound(ritual_id)),
            old(self).ritual_map().contains_key(ritual_id) ==> r is Ok && ({
                let old_r = old(self).ritual_map()[ritual_id];
                let new_r = final(self).ritual_map()[ritual_id];
                let k = first_in_progress(old_r.stages@);
                if k < 0 {
                    new_r == old_r
                } else {
                    &&& new_r.stages@.len() == old_r.stages@.len()
                    &&& forall|i: int| 0 <= i < old_r.stages@.len() && i != k ==> new_r.stages@[i] == old_r.stages@[i]
                    &&& new_r.stages@[k].artifacts@ == old_r.stages@[k].artifacts@.push(artifact)
                    &&& new_r.stages@[k].name == old_r.stages@[k].name
                    &&& new_r.stages@[k].description == old_r.stages@[k].description
                    &&& new_r.stages@[k].status == old_r.stages@[k].status
                    &&& new_r.stages@[k].depends_on == old_r.stages@[k].depends_on
                    &&& new_r.stages@[k].started_at == old_r.stages@[k].started_at
                    &&& new_r.stages@[k].completed_at == old_r.stages@[k].completed_at
                    &&& new_r.id == old_r.id
                    &&& new_r.name == old_r.name
                    &&& new_r.description == old_r.description
                    &&& new_r.created_at == old_r.created_at
                    &&& new_r.updated_at == old_r.updated_at
                    &&& new_r.completed_at == old_r.completed_at
                }
            }),
    {
        let mut ritual = match self.rituals.take(ritual_id) {
            Some(r) => r,
            None => {
                proof {
                    assert(self.rituals@ =~= old(self).rituals@);
                }
                return Err(RitualError::RitualNotFound(ritual_id));
            },
        };
        let ghost old_r = ritual;
        proof {
            lemma_first_in_progress(old_r.stages@);
        }
        let mut i: usize = 0;
        while i < ritual.stages.len()
            invariant
                ritual == old_r,
                i <= ritual.stages@.len(),
                forall|j: int| 0 <= j < i ==> (#[trigger] ritual.stages@[j]).status != RitualStageStatus::InProgress,
            ensures
                ritual == old_r,
                i <= ritual.stages@.len(),
                forall|j: int| 0 <= j < i ==> (#[trigger] ritual.stages@[j]).status != RitualStageStatus::InProgress,
                i < ritual.stages@.len() ==> ritual.stages@[i as int].status == RitualStageStatus::InProgress,
            decreases ritual.stages@.len() - i,
        {
            if ritual.stages[i].status == RitualStageStatus::InProgress {
                break;
            }
            i = i + 1;
        }
        if i < ritual.stages.len() {
            proof {
                assert(first_in_progress(old_r.stages@) == i as int);
            }
            let mut stage = ritual.stages.remove(i);
            stage.artifacts.push(artifact);
            ritual.stages.insert(i, stage);
            proof {
                assert forall|j: int| 0 <= j < old_r.stages@.len() && j != i implies ritual.stages@[j] == old_r.stages@[j] by {
                    if j < i {
                    } else {
                    }
                }
            }
        } else {
            proof {
                assert(first_in_progress(old_r.stages@) < 0);
            }
        }
        self.rituals.insert(ritual_id, ritual);
        proof {
            assert(self.rituals@.dom() =~= old(self).rituals@.dom());
        }
        Ok(())
    }

    /// Identifiers of the rituals still running, in storage order.
    pub fn get_active_rituals(&self) -> (ids: Vec<u128>)
        requires
            self.wf(),
        ensures
            ids@.no_duplicates(),
            ids@.to_set() == self.active_ids(),
    {
        proof {
            self.active_rituals.lemma_keys();
        }
        let mut ids: Vec<u128> = Vec::new();
        let n = self.active_rituals.len();
        let mut i: usize = 0;
        while i < n
            invariant
                self.wf(),
                n == self.active_rituals.len_spec(),
                self.active_rituals.key_seq().len() == n,
                self.active_rituals.key_seq().no_duplicates(),
                i <= n,
                ids@ == self.active_rituals.key_seq().subrange(0, i as int),
            decreases n - i,
        {
            ids.push(self.active_rituals.key_at(i));
            proof {
                assert(ids@ =~= self.active_rituals.key_seq().subrange(0, i + 1));
            }
            i = i + 1;
        }
        proof {
            assert(ids@ =~= self.active_rituals.key_seq());
            assert(ids@.to_set() =~= self.active_rituals@.dom());
        }
        ids
    }
}

} // verus!
