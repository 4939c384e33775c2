//! Greedy scheduling of cleaning crews over hotel rooms, with lateness
//! detection and on-demand hiring.

pub mod args;
pub mod cleaning_crew;
pub mod crew_pool;
pub mod description;
pub mod laws;
pub mod loader;
pub mod outside;
pub mod queue_order;
pub mod room_data;
pub mod schedule;
pub mod scheduler;
pub mod selector;
pub mod soundness;
pub mod triage;
