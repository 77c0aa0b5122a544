//! Declarative host configuration: typed config model, validation, planning and reports.

pub mod apply;
pub mod backends;
pub mod cli;
pub mod config;
pub mod paths;
pub mod planning;
pub mod process;
pub mod recovery;
pub mod state;
pub mod strmap;
pub mod system;
pub mod text;
pub mod workspace_manifest;
pub mod workspaces;
