// Package backends: pacman, AUR and Nix.

pub mod aur;
pub mod nix;
pub mod pacman;
