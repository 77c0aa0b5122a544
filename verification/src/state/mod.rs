// Host state: what the planner compares a configuration against, run records and history.

pub mod db;
pub mod store;
