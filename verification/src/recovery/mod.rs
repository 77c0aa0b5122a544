// Backups taken before a change, and their restoration.

pub mod restore;
