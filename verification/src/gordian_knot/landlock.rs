//! The files that the locker may read.
use vstd::prelude::*;

use crate::landlock;
use crate::landlock::Rule;
use crate::text;

verus! {

pub const READ_ONLY: u64 = landlock::ACCESS_FS_READ_FILE | landlock::ACCESS_FS_READ_DIR;

pub const READ_EXECUTE: u64 = READ_ONLY | landlock::ACCESS_FS_EXECUTE;

/// Writing, making and removing, of every kind that each version of the sandbox knows.
pub const WRITES: u64 = landlock::ACCESS_FS_WRITE_FILE | landlock::ACCESS_FS_REMOVE_DIR
    | landlock::ACCESS_FS_REMOVE_FILE | landlock::ACCESS_FS_MAKE_CHAR
    | landlock::ACCESS_FS_MAKE_DIR | landlock::ACCESS_FS_MAKE_REG | landlock::ACCESS_FS_MAKE_SOCK
    | landlock::ACCESS_FS_MAKE_FIFO | landlock::ACCESS_FS_MAKE_BLOCK
    | landlock::ACCESS_FS_MAKE_SYM;

/// The kinds of access that the sandbox rules on every kernel that has it.
pub const HANDLED: u64 = READ_EXECUTE | WRITES;

pub open spec fn handled_by(abi: int) -> u64 {
    if abi >= landlock::TRUNCATE_ABI {
        HANDLED | landlock::ACCESS_FS_TRUNCATE
    } else {
        HANDLED
    }
}

/// The kinds of access that the sandbox rules, where the kernel's sandbox has version `abi`.
pub fn handled(abi: i32) -> (r: u64)
    ensures
        r == handled_by(abi as int),
{
    if abi >= landlock::TRUNCATE_ABI {
        HANDLED | landlock::ACCESS_FS_TRUNCATE
    } else {
        HANDLED
    }
}

/// What may be done below which directory. Home directories are not among them.
pub open spec fn rules_view() -> Seq<(Seq<char>, u64)> {
    seq![
        ("/etc"@, READ_ONLY),
        ("/usr"@, READ_EXECUTE),
        ("/lib"@, READ_EXECUTE),
        ("/lib64"@, READ_EXECUTE),
        ("/proc"@, READ_ONLY),
        ("/sys"@, READ_ONLY),
        ("/dev"@, READ_ONLY),
        ("/run"@, READ_ONLY),
        ("/tmp"@, READ_ONLY),
    ]
}

/// The rules of the sandbox, in the order in which they are added.
pub fn sandbox_rules() -> (r: Vec<Rule>)
    ensures
        landlock::rule_views(r@) == rules_view(),
{
    let mut r: Vec<Rule> = Vec::new();
    r.push(Rule { path: "/etc".to_string(), access: READ_ONLY });
    r.push(Rule { path: "/usr".to_string(), access: READ_EXECUTE });
    r.push(Rule { path: "/lib".to_string(), access: READ_EXECUTE });
    r.push(Rule { path: "/lib64".to_string(), access: READ_EXECUTE });
    r.push(Rule { path: "/proc".to_string(), access: READ_ONLY });
    r.push(Rule { path: "/sys".to_string(), access: READ_ONLY });
    r.push(Rule { path: "/dev".to_string(), access: READ_ONLY });
    r.push(Rule { path: "/run".to_string(), access: READ_ONLY });
    r.push(Rule { path: "/tmp".to_string(), access: READ_ONLY });
    assert(landlock::rule_views(r@) =~= rules_view());
    r
}

/// No rule reaches a home directory or `/var`: none is of `/`, and none is of `/home`, `/root` or
/// `/var` or of anything below them.
pub proof fn law_homes_are_locked_out(i: int)
    requires
        0 <= i < rules_view().len(),
    ensures
        rules_view()[i].0 != "/"@,
        !text::starts_with(rules_view()[i].0, "/home"@),
        !text::starts_with(rules_view()[i].0, "/root"@),
        !text::starts_with(rules_view()[i].0, "/var"@),
{
    reveal_strlit("/");
    reveal_strlit("/home");
    reveal_strlit("/root");
    reveal_strlit("/var");
    reveal_strlit("/etc");
    reveal_strlit("/usr");
    reveal_strlit("/lib");
    reveal_strlit("/lib64");
    reveal_strlit("/proc");
    reveal_strlit("/sys");
    reveal_strlit("/dev");
    reveal_strlit("/run");
    reveal_strlit("/tmp");
    let p = rules_view()[i].0;
    assert("/"@.len() == 1);
    assert(p.len() > 1);
    if text::starts_with(p, "/home"@) {
        assert(p.take(5)[1] == 'h');
        assert(p[1] == 'h');
    }
    if text::starts_with(p, "/root"@) {
        assert(p.take(5)[2] == 'o');
        assert(p[2] == 'o');
    }
    if text::starts_with(p, "/var"@) {
        assert(p.take(4)[1] == 'v');
        assert(p[1] == 'v');
    }
}

/// The kinds of access that change a file or a directory.
pub open spec fn writing_kinds() -> Seq<u64> {
    seq![
        landlock::ACCESS_FS_WRITE_FILE,
        landlock::ACCESS_FS_REMOVE_DIR,
        landlock::ACCESS_FS_REMOVE_FILE,
        landlock::ACCESS_FS_MAKE_CHAR,
        landlock::ACCESS_FS_MAKE_DIR,
        landlock::ACCESS_FS_MAKE_REG,
        landlock::ACCESS_FS_MAKE_SOCK,
        landlock::ACCESS_FS_MAKE_FIFO,
        landlock::ACCESS_FS_MAKE_BLOCK,
        landlock::ACCESS_FS_MAKE_SYM,
    ]
}

proof fn lemma_writes(kind: u64)
    requires
        kind & WRITES == kind,
    ensures
        HANDLED & kind == kind,
        (HANDLED | landlock::ACCESS_FS_TRUNCATE) & kind == kind,
        READ_ONLY & kind == 0,
        READ_EXECUTE & kind == 0,
{
    assert(HANDLED & kind == kind && (HANDLED | landlock::ACCESS_FS_TRUNCATE) & kind == kind
        && READ_ONLY & kind == 0 && READ_EXECUTE & kind == 0) by (bit_vector)
        requires
            kind & WRITES == kind,
    ;
}

/// Each kind of writing is ruled by the sandbox and granted by no rule.
pub proof fn law_rules_are_read_only(abi: int, i: int, k: int)
    requires
        0 <= i < rules_view().len(),
        0 <= k < writing_kinds().len(),
    ensures
        writing_kinds()[k] != 0,
        handled_by(abi) & writing_kinds()[k] == writing_kinds()[k],
        rules_view()[i].1 & writing_kinds()[k] == 0,
        rules_view()[i].1 & landlock::ACCESS_FS_TRUNCATE == 0,
        rules_view()[i].1 & !handled_by(abi) == 0,
{
    let kind = writing_kinds()[k];
    assert(landlock::ACCESS_FS_WRITE_FILE & WRITES == landlock::ACCESS_FS_WRITE_FILE
        && landlock::ACCESS_FS_REMOVE_DIR & WRITES == landlock::ACCESS_FS_REMOVE_DIR
        && landlock::ACCESS_FS_REMOVE_FILE & WRITES == landlock::ACCESS_FS_REMOVE_FILE
        && landlock::ACCESS_FS_MAKE_CHAR & WRITES == landlock::ACCESS_FS_MAKE_CHAR
        && landlock::ACCESS_FS_MAKE_DIR & WRITES == landlock::ACCESS_FS_MAKE_DIR
        && landlock::ACCESS_FS_MAKE_REG & WRITES == landlock::ACCESS_FS_MAKE_REG
        && landlock::ACCESS_FS_MAKE_SOCK & WRITES == landlock::ACCESS_FS_MAKE_SOCK
        && landlock::ACCESS_FS_MAKE_FIFO & WRITES == landlock::ACCESS_FS_MAKE_FIFO
        && landlock::ACCESS_FS_MAKE_BLOCK & WRITES == landlock::ACCESS_FS_MAKE_BLOCK
        && landlock::ACCESS_FS_MAKE_SYM & WRITES == landlock::ACCESS_FS_MAKE_SYM) by (bit_vector);
    lemma_writes(kind);
    assert(READ_ONLY & landlock::ACCESS_FS_TRUNCATE == 0 && READ_EXECUTE
        & landlock::ACCESS_FS_TRUNCATE == 0 && READ_ONLY & !HANDLED == 0 && READ_EXECUTE & !HANDLED
        == 0 && READ_ONLY & !(HANDLED | landlock::ACCESS_FS_TRUNCATE) == 0 && READ_EXECUTE & !(
    HANDLED | landlock::ACCESS_FS_TRUNCATE) == 0) by (bit_vector);
    assert(rules_view()[i].1 == READ_ONLY || rules_view()[i].1 == READ_EXECUTE);
}

/// In the sandbox nothing can be written, made or removed anywhere, nor cut short where the kernel
/// knows that kind.
pub proof fn law_nothing_is_written(abi: int, path: Seq<char>, k: int)
    requires
        0 <= k < writing_kinds().len(),
    ensures
        !landlock::permits(handled_by(abi), rules_view(), path, writing_kinds()[k]),
        abi >= landlock::TRUNCATE_ABI ==> !landlock::permits(
            handled_by(abi),
            rules_view(),
            path,
            landlock::ACCESS_FS_TRUNCATE,
        ),
{
    law_rules_are_read_only(abi, 0, k);
    assert((HANDLED | landlock::ACCESS_FS_TRUNCATE) & landlock::ACCESS_FS_TRUNCATE != 0)
        by (bit_vector);
    assert forall|i: int| 0 <= i < rules_view().len() implies (#[trigger] rules_view()[i]).1
        & writing_kinds()[k] == 0 && rules_view()[i].1 & landlock::ACCESS_FS_TRUNCATE == 0 by {
        law_rules_are_read_only(abi, i, k);
    }
}

/// In the sandbox files and directories can be read below the listed directories alone, and run
/// below `/usr`, `/lib` and `/lib64` alone.
pub proof fn law_reading_and_running_are_confined(abi: int, path: Seq<char>)
    ensures
        landlock::permits(handled_by(abi), rules_view(), path, landlock::ACCESS_FS_READ_FILE)
            == exists|i: int|
            0 <= i < rules_view().len() && landlock::beneath(path, (#[trigger] rules_view()[i]).0),
        landlock::permits(handled_by(abi), rules_view(), path, landlock::ACCESS_FS_READ_DIR)
            == exists|i: int|
            0 <= i < rules_view().len() && landlock::beneath(path, (#[trigger] rules_view()[i]).0),
        landlock::permits(handled_by(abi), rules_view(), path, landlock::ACCESS_FS_EXECUTE) == (
        landlock::beneath(path, "/usr"@) || landlock::beneath(path, "/lib"@) || landlock::beneath(
            path,
            "/lib64"@,
        )),
{
    let rules = rules_view();
    assert(HANDLED & landlock::ACCESS_FS_READ_FILE != 0 && HANDLED & landlock::ACCESS_FS_READ_DIR
        != 0 && HANDLED & landlock::ACCESS_FS_EXECUTE != 0) by (bit_vector);
    assert((HANDLED | landlock::ACCESS_FS_TRUNCATE) & landlock::ACCESS_FS_READ_FILE != 0 && (HANDLED
        | landlock::ACCESS_FS_TRUNCATE) & landlock::ACCESS_FS_READ_DIR != 0 && (HANDLED
        | landlock::ACCESS_FS_TRUNCATE) & landlock::ACCESS_FS_EXECUTE != 0) by (bit_vector);
    assert(READ_ONLY & landlock::ACCESS_FS_READ_FILE != 0 && READ_ONLY
        & landlock::ACCESS_FS_READ_DIR != 0 && READ_ONLY & landlock::ACCESS_FS_EXECUTE == 0)
        by (bit_vector);
    assert(READ_EXECUTE & landlock::ACCESS_FS_READ_FILE != 0 && READ_EXECUTE
        & landlock::ACCESS_FS_READ_DIR != 0 && READ_EXECUTE & landlock::ACCESS_FS_EXECUTE != 0)
        by (bit_vector);
    assert forall|i: int| 0 <= i < rules.len() implies (#[trigger] rules[i]).1 == READ_ONLY
        || rules[i].1 == READ_EXECUTE by {}
    assert(rules[1].0 == "/usr"@ && rules[2].0 == "/lib"@ && rules[3].0 == "/lib64"@);
}

/// In the sandbox the system's own directories can be read, and those of devices, processes and
/// temporary files, and nothing else.
pub proof fn law_these_directories_can_be_read(abi: int, path: Seq<char>)
    ensures
        landlock::permits(handled_by(abi), rules_view(), path, landlock::ACCESS_FS_READ_FILE) == ({
            ||| landlock::beneath(path, "/etc"@)
            ||| landlock::beneath(path, "/usr"@)
            ||| landlock::beneath(path, "/lib"@)
            ||| landlock::beneath(path, "/lib64"@)
            ||| landlock::beneath(path, "/proc"@)
            ||| landlock::beneath(path, "/sys"@)
            ||| landlock::beneath(path, "/dev"@)
            ||| landlock::beneath(path, "/run"@)
            ||| landlock::beneath(path, "/tmp"@)
        }),
{
    law_reading_and_running_are_confined(abi, path);
    let rules = rules_view();
    assert(rules.len() == 9);
    assert(rules[0].0 == "/etc"@ && rules[1].0 == "/usr"@ && rules[2].0 == "/lib"@);
    assert(rules[3].0 == "/lib64"@ && rules[4].0 == "/proc"@ && rules[5].0 == "/sys"@);
    assert(rules[6].0 == "/dev"@ && rules[7].0 == "/run"@ && rules[8].0 == "/tmp"@);
}

} // verus!
