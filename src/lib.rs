//! A key transformation engine for keyboard remapping: remaps, macros,
//! tap-dance keys, chord combos and modal layers, driven by a stream of
//! timestamped key transitions.

pub mod adapter;
pub mod buffer;
pub mod cli;
pub mod combo;
pub mod config;
pub mod event;
pub mod input;
pub mod keycode;
pub mod keyname;
pub mod layer;
pub mod lists;
pub mod mapping;
pub mod proxy;
pub mod service;
pub mod tap_dance;
