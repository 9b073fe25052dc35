//! The registry of evolving models: each has a name and a version that
//! every evolution step raises.

use vstd::prelude::*;
use crate::clock::new_uuid;
use crate::clock::now_millis;
use crate::core_lib::id_map::IdMap;

verus! {

/// A model: its name, version, and when it was created and last evolved
/// (milliseconds since the Unix epoch).
#[derive(Debug)]
pub struct Model {
    pub id: u128,
    pub name: String,
    pub version: u64,
    pub created_at: i64,
    pub updated_at: i64,
}

/// Why an operation on a model failed.
#[derive(Debug, Clone, Copy, PartialEq, Eq, Structural)]
pub enum EvolutionError {
    /// No model has this identifier.
    ModelNotFound(u128),
}

/// The models being evolved.
#[derive(Debug)]
pub struct EvolutionEngine {
    models: IdMap<Model>,
}

impl EvolutionEngine {
    /// The models by identifier.
    pub closed spec fn models(&self) -> Map<u128, Model> {
        self.models@
    }

    pub closed spec fn wf(&self) -> bool {
        self.models.wf()
    }

    /// No models.
    pub fn new() -> (e: Self)
        ensures
            e.wf(),
            e.models() == Map::<u128, Model>::empty(),
    {
        EvolutionEngine { models: IdMap::new() }
    }

    /// Adds a model `id` named `name` at version 1, created at `now`.
    pub fn create_model_with(&mut self, name: &str, id: u128, now: i64) -> (r: u128)
        requires
            old(self).wf(),
        ensures
            final(self).wf(),
            r == id,
            final(self).models().dom() == old(self).models().dom().insert(id),
            forall|k: u128| k != id && #[trigger] old(self).models().contains_key(k)
                ==> final(self).models()[k] == old(self).models()[k],
            final(self).models()[id].id == id,
            final(self).models()[id].name@ == name@,
            final(self).models()[id].version == 1,
            final(self).models()[id].created_at == now,
            final(self).models()[id].updated_at == now,
    {
        self.models.insert(id, Model { id, name: name.to_owned(), version: 1, created_at: now, updated_at: now });
        assert(self.models@.dom() =~= old(self).models@.dom().insert(id));
        id
    }

    /// Adds a model named `name` at version 1 with a fresh identifier,
    /// created now.
    pub fn create_model(&mut self, name: &str) -> (r: u128)
        requires
            old(self).wf(),
        ensures
            final(self).wf(),
            final(self).models().dom() == old(self).models().dom().insert(r),
            forall|k: u128| k != r && #[trigger] old(self).models().contains_key(k)
                ==> final(self).models()[k] == old(self).models()[k],
            final(self).models()[r].id == r,
            final(self).models()[r].name@ == name@,
            final(self).models()[r].version == 1,
            final(self).models()[r].created_at == final(self).models()[r].updated_at,
    {
        let id = new_uuid();
        let now = now_millis();
        self.create_model_with(name, id, now)
    }

    /// Records one evolution step of model `model_id` at `now`: its version
    /// rises by one.  Fails if there is no such model.
    pub fn evolve_model_at(&mut self, model_id: u128, now: i64) -> (r: Result<u64, EvolutionError>)
        requires
            old(self).wf(),
            old(self).models().contains_key(model_id) ==> old(self).models()[model_id].version < u64::MAX,
        ensures
            final(self).wf(),
            !old(self).models().contains_key(model_id) ==> r == Err::<u64, EvolutionError>(EvolutionError::ModelNotFound(model_id))
                && final(self).models() == old(self).models(),
            old(self).models().contains_key(model_id) ==> {
                let o = old(self).models()[model_id];
                let m = final(self).models()[model_id];
                &&& r == Ok::<u64, EvolutionError>((o.version + 1) as u64)
                &&& final(self).models().dom() == old(self).models().dom()
                &&& forall|k: u128| k != model_id && #[trigger] old(self).models().contains_key(k)
                    ==> final(self).models()[k] == old(self).models()[k]
                &&& m.id == o.id && m.name == o.name && m.created_at == o.created_at
                &&& m.version == o.version + 1
                &&& m.updated_at == now
            },
    {
        match self.models.take(model_id) {
            None => Err(EvolutionError::ModelNotFound(model_id)),
            Some(mut model) => {
                model.version = model.version + 1;
                model.updated_at = now;
                let v = model.version;
                self.models.insert(model_id, model);
                assert(self.models@.dom() =~= old(self).models@.dom());
                Ok(v)
            },
        }
    }

    /// Version of model `model_id`; fails if there is no such model.
    pub fn get_model_version(&self, model_id: u128) -> (r: Result<u64, EvolutionError>)
        requires
            self.wf(),
        ensures
            r == (if self.models().contains_key(model_id) {
                Ok::<u64, EvolutionError>(self.models()[model_id].version)
            } else {
                Err::<u64, EvolutionError>(EvolutionError::ModelNotFound(model_id))
            }),
    {
        match self.models.get(model_id) {
            Some(m) => Ok(m.version),
            None => Err(EvolutionError::ModelNotFound(model_id)),
        }
    }
}

} // verus!
