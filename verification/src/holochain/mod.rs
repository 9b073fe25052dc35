pub mod semantic_crdt;
pub mod arbitration;
pub mod hash;
pub mod ontology;
pub mod graph;
pub mod transparency;
