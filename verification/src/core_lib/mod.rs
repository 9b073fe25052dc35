pub mod str_map;
pub mod id_map;
pub mod centroid;
pub mod centroid_crdt;
pub mod metrics;
pub mod time_order;
