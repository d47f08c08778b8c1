//! The files that the daemon may use.
use vstd::prelude::*;

use crate::landlock;
use crate::landlock::Rule;

verus! {

/// The kinds of access that the sandbox rules.
pub const HANDLED: u64 = landlock::ACCESS_FS_READ_FILE | landlock::ACCESS_FS_READ_DIR
    | landlock::ACCESS_FS_WRITE_FILE | landlock::ACCESS_FS_REMOVE_FILE
    | landlock::ACCESS_FS_MAKE_REG | landlock::ACCESS_FS_MAKE_DIR | landlock::ACCESS_FS_EXECUTE;

pub const READ_ONLY: u64 = landlock::ACCESS_FS_READ_FILE | landlock::ACCESS_FS_READ_DIR;

pub const READ_EXECUTE: u64 = READ_ONLY | landlock::ACCESS_FS_EXECUTE;

/// All but running programs.
pub const CONFIG_ACCESS: u64 = landlock::ACCESS_FS_READ_FILE | landlock::ACCESS_FS_READ_DIR
    | landlock::ACCESS_FS_WRITE_FILE | landlock::ACCESS_FS_REMOVE_FILE
    | landlock::ACCESS_FS_MAKE_REG | landlock::ACCESS_FS_MAKE_DIR;

pub const TEMP_ACCESS: u64 = landlock::ACCESS_FS_READ_FILE | landlock::ACCESS_FS_WRITE_FILE
    | landlock::ACCESS_FS_MAKE_REG;

/// What may be done below which directory.
pub open spec fn rules_view(config_dir: Seq<char>) -> Seq<(Seq<char>, u64)> {
    seq![
        (config_dir, CONFIG_ACCESS),
        ("/dev"@, READ_ONLY),
        ("/proc"@, READ_ONLY),
        ("/usr"@, READ_EXECUTE),
        ("/etc"@, READ_ONLY),
        ("/lib"@, READ_ONLY),
        ("/lib64"@, READ_ONLY),
        ("/tmp"@, TEMP_ACCESS),
    ]
}

/// The rules of the sandbox, in the order in which they are added.
pub fn sandbox_rules(config_dir: &str) -> (r: Vec<Rule>)
    ensures
        landlock::rule_views(r@) == rules_view(config_dir@),
{
    let mut r: Vec<Rule> = Vec::new();
    r.push(Rule { path: config_dir.to_string(), access: CONFIG_ACCESS });
    r.push(Rule { path: "/dev".to_string(), access: READ_ONLY });
    r.push(Rule { path: "/proc".to_string(), access: READ_ONLY });
    r.push(Rule { path: "/usr".to_string(), access: READ_EXECUTE });
    r.push(Rule { path: "/etc".to_string(), access: READ_ONLY });
    r.push(Rule { path: "/lib".to_string(), access: READ_ONLY });
    r.push(Rule { path: "/lib64".to_string(), access: READ_ONLY });
    r.push(Rule { path: "/tmp".to_string(), access: TEMP_ACCESS });
    assert(landlock::rule_views(r@) =~= rules_view(config_dir@));
    r
}

/// No rule grants more than the sandbox rules. Files can be written and made below the
/// configuration directory and `/tmp` alone, and files removed and directories made below the
/// configuration directory alone.
pub proof fn law_writes_are_confined(config_dir: Seq<char>, path: Seq<char>)
    ensures
        forall|i: int|
            0 <= i < rules_view(config_dir).len() ==> (#[trigger] rules_view(config_dir)[i]).1
                & !HANDLED == 0,
        landlock::permits(HANDLED, rules_view(config_dir), path, landlock::ACCESS_FS_WRITE_FILE)
            == (landlock::beneath(path, config_dir) || landlock::beneath(path, "/tmp"@)),
        landlock::permits(HANDLED, rules_view(config_dir), path, landlock::ACCESS_FS_MAKE_REG) == (
        landlock::beneath(path, config_dir) || landlock::beneath(path, "/tmp"@)),
        landlock::permits(HANDLED, rules_view(config_dir), path, landlock::ACCESS_FS_REMOVE_FILE)
            == landlock::beneath(path, config_dir),
        landlock::permits(HANDLED, rules_view(config_dir), path, landlock::ACCESS_FS_MAKE_DIR)
            == landlock::beneath(path, config_dir),
{
    let rules = rules_view(config_dir);
    assert(READ_ONLY & !HANDLED == 0 && READ_EXECUTE & !HANDLED == 0 && CONFIG_ACCESS & !HANDLED
        == 0 && TEMP_ACCESS & !HANDLED == 0) by (bit_vector);
    assert(HANDLED & landlock::ACCESS_FS_WRITE_FILE != 0 && HANDLED & landlock::ACCESS_FS_MAKE_REG
        != 0 && HANDLED & landlock::ACCESS_FS_REMOVE_FILE != 0 && HANDLED
        & landlock::ACCESS_FS_MAKE_DIR != 0) by (bit_vector);
    assert(READ_ONLY & landlock::ACCESS_FS_WRITE_FILE == 0 && READ_ONLY
        & landlock::ACCESS_FS_MAKE_REG == 0 && READ_ONLY & landlock::ACCESS_FS_REMOVE_FILE == 0
        && READ_ONLY & landlock::ACCESS_FS_MAKE_DIR == 0) by (bit_vector);
    assert(READ_EXECUTE & landlock::ACCESS_FS_WRITE_FILE == 0 && READ_EXECUTE
        & landlock::ACCESS_FS_MAKE_REG == 0 && READ_EXECUTE & landlock::ACCESS_FS_REMOVE_FILE == 0
        && READ_EXECUTE & landlock::ACCESS_FS_MAKE_DIR == 0) by (bit_vector);
    assert(CONFIG_ACCESS & landlock::ACCESS_FS_WRITE_FILE != 0 && CONFIG_ACCESS
        & landlock::ACCESS_FS_MAKE_REG != 0 && CONFIG_ACCESS & landlock::ACCESS_FS_REMOVE_FILE != 0
        && CONFIG_ACCESS & landlock::ACCESS_FS_MAKE_DIR != 0) by (bit_vector);
    assert(TEMP_ACCESS & landlock::ACCESS_FS_WRITE_FILE != 0 && TEMP_ACCESS
        & landlock::ACCESS_FS_MAKE_REG != 0 && TEMP_ACCESS & landlock::ACCESS_FS_REMOVE_FILE == 0
        && TEMP_ACCESS & landlock::ACCESS_FS_MAKE_DIR == 0) by (bit_vector);
    assert(rules[0].0 == config_dir && rules[7].0 == "/tmp"@);
    assert forall|i: int| 0 < i < 7 implies (#[trigger] rules[i]).1 == READ_ONLY || rules[i].1
        == READ_EXECUTE by {}
}

/// Files can be read below the configuration directory and the listed directories alone, programs run
/// below `/usr` alone, and directories listed where files can be read, save in `/tmp`.
pub proof fn law_reading_and_running_are_confined(config_dir: Seq<char>, path: Seq<char>)
    ensures
        landlock::permits(HANDLED, rules_view(config_dir), path, landlock::ACCESS_FS_READ_FILE) == ({
            ||| landlock::beneath(path, config_dir)
            ||| landlock::beneath(path, "/dev"@)
            ||| landlock::beneath(path, "/proc"@)
            ||| landlock::beneath(path, "/usr"@)
            ||| landlock::beneath(path, "/etc"@)
            ||| landlock::beneath(path, "/lib"@)
            ||| landlock::beneath(path, "/lib64"@)
            ||| landlock::beneath(path, "/tmp"@)
        }),
        landlock::permits(HANDLED, rules_view(config_dir), path, landlock::ACCESS_FS_READ_DIR) == ({
            ||| landlock::beneath(path, config_dir)
            ||| landlock::beneath(path, "/dev"@)
            ||| landlock::beneath(path, "/proc"@)
            ||| landlock::beneath(path, "/usr"@)
            ||| landlock::beneath(path, "/etc"@)
            ||| landlock::beneath(path, "/lib"@)
            ||| landlock::beneath(path, "/lib64"@)
        }),
        landlock::permits(HANDLED, rules_view(config_dir), path, landlock::ACCESS_FS_EXECUTE)
            == landlock::beneath(path, "/usr"@),
{
    let rules = rules_view(config_dir);
    assert(HANDLED & landlock::ACCESS_FS_READ_FILE != 0 && HANDLED & landlock::ACCESS_FS_READ_DIR
        != 0 && HANDLED & landlock::ACCESS_FS_EXECUTE != 0 && READ_ONLY
        & landlock::ACCESS_FS_READ_FILE != 0 && READ_ONLY & landlock::ACCESS_FS_READ_DIR != 0
        && READ_ONLY & landlock::ACCESS_FS_EXECUTE == 0) by (bit_vector);
    assert(READ_EXECUTE & landlock::ACCESS_FS_READ_FILE != 0 && READ_EXECUTE
        & landlock::ACCESS_FS_READ_DIR != 0 && READ_EXECUTE & landlock::ACCESS_FS_EXECUTE != 0
        && CONFIG_ACCESS & landlock::ACCESS_FS_READ_FILE != 0 && CONFIG_ACCESS
        & landlock::ACCESS_FS_READ_DIR != 0 && CONFIG_ACCESS & landlock::ACCESS_FS_EXECUTE == 0)
        by (bit_vector);
    assert(TEMP_ACCESS & landlock::ACCESS_FS_READ_FILE != 0 && TEMP_ACCESS
        & landlock::ACCESS_FS_READ_DIR == 0 && TEMP_ACCESS & landlock::ACCESS_FS_EXECUTE == 0)
        by (bit_vector);
    assert(rules.len() == 8);
    assert(rules[0] == (config_dir, CONFIG_ACCESS) && rules[1] == ("/dev"@, READ_ONLY));
    assert(rules[2] == ("/proc"@, READ_ONLY) && rules[3] == ("/usr"@, READ_EXECUTE));
    assert(rules[4] == ("/etc"@, READ_ONLY) && rules[5] == ("/lib"@, READ_ONLY));
    assert(rules[6] == ("/lib64"@, READ_ONLY) && rules[7] == ("/tmp"@, TEMP_ACCESS));
}

} // verus!
