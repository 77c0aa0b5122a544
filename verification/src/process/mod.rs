// What running an external command gave.

pub mod command;
