//! Register allocation: liveness, interference, colouring and the
//! assignment of homes.

pub mod assign_homes;
pub mod color;
pub mod compute_interference;
pub mod equations;
pub mod fixpoint;
pub mod graph;
pub mod include_liveness;
pub mod live_set;
pub mod liveness;
pub mod work_queue;
