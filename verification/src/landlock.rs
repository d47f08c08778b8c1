//! The kernel's file-system sandbox: kinds of access, and rules that grant them.
use vstd::prelude::*;

use crate::text;

verus! {

/// Numbers of the sandbox's system calls.
pub const NR_LANDLOCK_CREATE_RULESET: i64 = 444;

pub const NR_LANDLOCK_ADD_RULE: i64 = 445;

pub const NR_LANDLOCK_RESTRICT_SELF: i64 = 446;

pub const LANDLOCK_CREATE_RULESET_VERSION: u32 = 1;

pub const LANDLOCK_RULE_PATH_BENEATH: u32 = 1;

/// Kinds of access.
pub const ACCESS_FS_EXECUTE: u64 = 1;

pub const ACCESS_FS_WRITE_FILE: u64 = 2;

pub const ACCESS_FS_READ_FILE: u64 = 4;

pub const ACCESS_FS_READ_DIR: u64 = 8;

pub const ACCESS_FS_REMOVE_DIR: u64 = 16;

pub const ACCESS_FS_REMOVE_FILE: u64 = 32;

pub const ACCESS_FS_MAKE_CHAR: u64 = 64;

pub const ACCESS_FS_MAKE_DIR: u64 = 128;

pub const ACCESS_FS_MAKE_REG: u64 = 256;

pub const ACCESS_FS_MAKE_SOCK: u64 = 512;

pub const ACCESS_FS_MAKE_FIFO: u64 = 1024;

pub const ACCESS_FS_MAKE_BLOCK: u64 = 2048;

pub const ACCESS_FS_MAKE_SYM: u64 = 4096;

/// Known to the kernel from version `TRUNCATE_ABI` of the sandbox on.
pub const ACCESS_FS_TRUNCATE: u64 = 16384;

pub const TRUNCATE_ABI: i32 = 3;

/// What may be done below a directory.
#[derive(Debug)]
pub struct Rule {
    pub path: String,
    pub access: u64,
}

pub open spec fn rule_views(v: Seq<Rule>) -> Seq<(Seq<char>, u64)> {
    v.map_values(|r: Rule| (r.path@, r.access))
}

/// `path` is the directory `dir` or lies below it.
pub open spec fn beneath(path: Seq<char>, dir: Seq<char>) -> bool {
    path == dir || text::starts_with(path, dir.push('/'))
}

/// Whether a sandbox leaves an access of kind `kind` to `path` open: it does not rule that kind, or
/// a rule of a directory above grants it.
pub open spec fn permits(
    handled: u64,
    rules: Seq<(Seq<char>, u64)>,
    path: Seq<char>,
    kind: u64,
) -> bool {
    handled & kind == 0 || exists|i: int|
        0 <= i < rules.len() && beneath(path, (#[trigger] rules[i]).0) && rules[i].1 & kind != 0
}

} // verus!
