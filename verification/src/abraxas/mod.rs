//! The colour-temperature daemon.
pub mod cli;
pub mod config;
pub mod daemon;
pub mod gamma;
pub mod json;
pub mod landlock;
pub mod seccomp;
pub mod sigmoid;
pub mod solar;
pub mod uring;
pub mod weather;
pub mod zipdb;
