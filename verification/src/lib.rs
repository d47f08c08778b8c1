//! Window-manager, screen-locker and colour-temperature logic of the DEMIURGE desktop.
pub mod abraxas;
pub mod action;
pub mod appearance;
pub mod bar;
pub mod bpf;
pub mod cli;
pub mod config;
pub mod dsr;
pub mod event;
pub mod gordian_knot;
pub mod history;
pub mod keys;
pub mod landlock;
pub mod layout;
pub mod monitor;
pub mod mouse;
pub mod mru;
pub mod screen;
pub mod spawn;
pub mod syscalls;
pub mod text;
pub mod torrentius;
pub mod wm;
