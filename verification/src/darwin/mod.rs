pub mod language;
pub mod text;
pub mod consciousness;
pub mod quantum;
pub mod reality;
pub mod transcendence;
pub mod agent;
pub mod validation;
pub mod analysis;
pub mod ritual;
pub mod generation;
pub mod realities;
pub mod coding;
pub mod evolution;
pub mod synthesis;
pub mod self_improvement;
