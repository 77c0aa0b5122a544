// Planning: the actions a configuration asks for, and the reports about them.

pub mod action;
pub mod report;
