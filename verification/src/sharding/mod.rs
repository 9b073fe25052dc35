pub mod digits;
pub mod hilbert;
pub mod vector_index;
pub mod migration;
pub mod manager;
