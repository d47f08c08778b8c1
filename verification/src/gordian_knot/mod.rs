//! The screen locker.
pub mod inhibit;
pub mod landlock;
pub mod privsep;
pub mod seccomp;
pub mod sysinfo;
pub mod vt;
pub mod x11_lock;
