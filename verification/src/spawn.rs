//! Starting commands, and the children that were started.
use std::collections::HashSet;

use vstd::prelude::*;
use vstd::std_specs::iter::IteratorSpec;

use crate::text;

verus! {

/// How a command is started.
#[derive(Debug)]
pub enum SpawnPlan {
    /// By the shell, as one line.
    Shell(String),
    /// Directly: the words of the command, the program first.
    Direct(Vec<Vec<char>>),
    /// Not at all.
    Nothing,
}

/// A character that means something to the shell. Spaces do not count.
pub open spec fn is_meta(c: char) -> bool {
    c == '$' || c == '`' || c == '"' || c == '\'' || c == '\\' || c == '~' || c == '*' || c == '?'
        || c == '[' || c == ']' || c == '{' || c == '}' || c == '(' || c == ')' || c == '|' || c
        == '&' || c == ';' || c == '<' || c == '>' || c == '!' || c == '#'
}

fn char_is_meta(c: char) -> (r: bool)
    ensures
        r == is_meta(c),
{
    c == '$' || c == '`' || c == '"' || c == '\'' || c == '\\' || c == '~' || c == '*' || c == '?'
        || c == '[' || c == ']' || c == '{' || c == '}' || c == '(' || c == ')' || c == '|' || c
        == '&' || c == ';' || c == '<' || c == '>' || c == '!' || c == '#'
}

/// Whether a command has to be read by the shell.
pub open spec fn shell_needed(cmd: Seq<char>) -> bool {
    exists|i: int| 0 <= i < cmd.len() && is_meta(#[trigger] cmd[i])
}

pub fn needs_shell(cmd: &str) -> (r: bool)
    ensures
        r == shell_needed(cmd@),
{
    let chars = text::chars_of(cmd);
    let mut i: usize = 0;
    while i < chars.len()
        invariant
            chars@ == cmd@,
            i <= chars.len(),
            forall|j: int| 0 <= j < i ==> !is_meta(#[trigger] cmd@[j]),
        decreases chars.len() - i,
    {
        if char_is_meta(chars[i]) {
            assert(is_meta(cmd@[i as int]));
            return true;
        }
        i += 1;
    }
    false
}

/// A text that can be handed to another program: without a zero character.
pub open spec fn passable(s: Seq<char>) -> bool {
    !s.contains('\0')
}

fn is_passable(s: &[char]) -> (r: bool)
    ensures
        r == passable(s@),
{
    let mut i: usize = 0;
    while i < s.len()
        invariant
            i <= s.len(),
            forall|j: int| 0 <= j < i ==> s@[j] != '\0',
        decreases s.len() - i,
    {
        if s[i] == '\0' {
            assert(s@[i as int] == '\0');
            return false;
        }
        i += 1;
    }
    true
}

/// The words among the first `n` that can be handed on.
pub open spec fn passable_upto(words: Seq<Seq<char>>, n: int) -> Seq<Seq<char>>
    decreases n,
{
    if n <= 0 {
        Seq::empty()
    } else if passable(words[n - 1]) {
        passable_upto(words, n - 1).push(words[n - 1])
    } else {
        passable_upto(words, n - 1)
    }
}

/// The words of a command that is started directly; none where there is no program to start.
pub open spec fn direct_words(cmd: Seq<char>) -> Seq<Seq<char>> {
    let w = text::words(cmd);
    if w.len() == 0 || !passable(w[0]) {
        Seq::empty()
    } else {
        passable_upto(w, w.len() as int)
    }
}

fn words_to_start(cmd: &[char]) -> (r: Vec<Vec<char>>)
    ensures
        text::views(r@) == direct_words(cmd@),
{
    let words = text::words_of(cmd);
    let ghost all = text::words(cmd@);
    let mut out: Vec<Vec<char>> = Vec::new();
    assert(text::views(out@) =~= Seq::empty());
    if words.len() == 0 {
        return out;
    }
    assert(text::views(words@)[0] == words@[0]@);
    if !is_passable(words[0].as_slice()) {
        return out;
    }
    let mut i: usize = 0;
    while i < words.len()
        invariant
            text::views(words@) == all,
            i <= words.len(),
            text::views(out@) == passable_upto(all, i as int),
        decreases words.len() - i,
    {
        assert(all[i as int] == words@[i as int]@);
        let ghost so_far = out@;
        if is_passable(words[i].as_slice()) {
            out.push(text::copy_chars(words[i].as_slice()));
            assert(text::views(out@) =~= text::views(so_far).push(words@[i as int]@));
        }
        i += 1;
    }
    out
}

/// How to start a command: by the shell where it needs one, else directly. A command that cannot
/// be handed on, or that has no program, is not started.
pub fn spawn(cmd: &str) -> (r: SpawnPlan)
    ensures
        match r {
            SpawnPlan::Shell(line) => shell_needed(cmd@) && passable(cmd@) && line@ == cmd@,
            SpawnPlan::Direct(words) => !shell_needed(cmd@) && text::views(words@) == direct_words(
                cmd@,
            ) && direct_words(cmd@).len() > 0,
            SpawnPlan::Nothing => if shell_needed(cmd@) {
                !passable(cmd@)
            } else {
                direct_words(cmd@).len() == 0
            },
        },
{
    let chars = text::chars_of(cmd);
    if needs_shell(cmd) {
        if is_passable(chars.as_slice()) {
            SpawnPlan::Shell(cmd.to_string())
        } else {
            SpawnPlan::Nothing
        }
    } else {
        let words = words_to_start(chars.as_slice());
        assert(text::views(words@).len() == words@.len());
        if words.len() == 0 {
            SpawnPlan::Nothing
        } else {
            SpawnPlan::Direct(words)
        }
    }
}

// --- children ---

/// The children that were started and have not ended.
#[derive(Debug)]
pub struct Children {
    pids: HashSet<i32>,
}

impl View for Children {
    type V = Set<i32>;

    closed spec fn view(&self) -> Set<i32> {
        self.pids@
    }
}

impl Children {
    pub fn new() -> (r: Self)
        ensures
            r@ == Set::<i32>::empty(),
    {
        Children { pids: HashSet::new() }
    }

    /// Notes a child that was started. A number that is no process is not noted.
    pub fn track(&mut self, pid: i32)
        ensures
            final(self)@ == if pid > 0 {
                old(self)@.insert(pid)
            } else {
                old(self)@
            },
            final(self)@ == tracked_with(old(self)@, pid),
    {
        broadcast use vstd::std_specs::hash::group_hash_axioms;

        if pid > 0 {
            self.pids.insert(pid);
        }
    }

    /// Forgets a child that ended.
    pub fn forget(&mut self, pid: i32)
        ensures
            final(self)@ == old(self)@.remove(pid),
    {
        broadcast use vstd::std_specs::hash::group_hash_axioms;

        self.pids.remove(&pid);
    }

    /// The children to end when the session ends: each that was started and has not ended, once.
    pub fn quit_children(&self) -> (r: Vec<i32>)
        ensures
            r@.no_duplicates(),
            r@.to_set() == self@,
    {
        broadcast use vstd::std_specs::hash::group_hash_axioms;

        let ghost listed = self.pids.iter().remaining().unref();
        let mut r: Vec<i32> = Vec::new();
        for pid in it: self.pids.iter()
            invariant
                it.seq().unref() == listed,
                r@ == listed.take(it.index()),
        {
            r.push(*pid);
            assert(r@ =~= listed.take(it.index() + 1));
        }
        assert(r@ =~= listed);
        r
    }
}

/// A child that was started and then ended is not signalled, and one that was not ended is.
pub proof fn law_only_live_children_are_tracked(s: Set<i32>, pid: i32, other: i32)
    requires
        other != pid,
        !s.contains(pid),
    ensures
        s.insert(pid).remove(pid) == s,
        s.insert(other).remove(pid).contains(other),
{
    assert(s.insert(pid).remove(pid) =~= s);
}

/// The characters that only a shell understands are these, and no other.
pub proof fn law_shell_characters(c: char)
    ensures
        is_meta(c) == "$`\"'\\~*?[]{}()|&;<>!#"@.contains(c),
{
    reveal_strlit("$`\"'\\~*?[]{}()|&;<>!#");
    let all = "$`\"'\\~*?[]{}()|&;<>!#"@;
    if is_meta(c) {
        assert(all[0] == '$' && all[1] == '`' && all[2] == '"' && all[3] == '\'' && all[4] == '\\'
            && all[5] == '~' && all[6] == '*' && all[7] == '?' && all[8] == '[' && all[9] == ']'
            && all[10] == '{' && all[11] == '}' && all[12] == '(' && all[13] == ')' && all[14]
            == '|' && all[15] == '&' && all[16] == ';' && all[17] == '<' && all[18] == '>'
            && all[19] == '!' && all[20] == '#');
    }
}

/// A command needs a shell where some part of it does.
pub proof fn law_shell_is_needed_by_some_part(a: Seq<char>, b: Seq<char>)
    ensures
        shell_needed(a + b) == (shell_needed(a) || shell_needed(b)),
        !shell_needed(Seq::empty()),
{
    let s = a + b;
    if shell_needed(a) {
        let i = choose|i: int| 0 <= i < a.len() && is_meta(#[trigger] a[i]);
        assert(s[i] == a[i]);
    }
    if shell_needed(b) {
        let i = choose|i: int| 0 <= i < b.len() && is_meta(#[trigger] b[i]);
        assert(s[a.len() + i] == b[i]);
    }
    if shell_needed(s) {
        let i = choose|i: int| 0 <= i < s.len() && is_meta(#[trigger] s[i]);
        if i < a.len() {
            assert(a[i] == s[i]);
        } else {
            assert(b[i - a.len()] == s[i]);
        }
    }
}

proof fn lemma_all_passable(words: Seq<Seq<char>>, n: int)
    requires
        0 <= n <= words.len(),
        forall|i: int| 0 <= i < n ==> !(#[trigger] words[i]).contains('\0'),
    ensures
        passable_upto(words, n) == words.take(n),
    decreases n,
{
    if n > 0 {
        lemma_all_passable(words, n - 1);
        assert(passable(words[n - 1]));
        assert(words.take(n) =~= words.take(n - 1).push(words[n - 1]));
    } else {
        assert(words.take(0) =~= Seq::empty());
    }
}

/// A command without zeros runs as its words: the first is the program, the others are its
/// arguments, in their order.
pub proof fn law_command_runs_as_its_words(cmd: Seq<char>)
    requires
        forall|i: int| 0 <= i < text::words(cmd).len() ==> !(#[trigger] text::words(cmd)[i]).contains(
            '\0',
        ),
    ensures
        direct_words(cmd) == text::words(cmd),
{
    let w = text::words(cmd);
    lemma_all_passable(w, w.len() as int);
    assert(w.take(w.len() as int) =~= w);
    if w.len() == 0 {
        assert(w =~= Seq::empty());
    }
}

/// What cannot be handed to a program is not: no word that runs holds a zero, each is a word of the
/// command, and where the program's own name holds one nothing runs.
pub proof fn law_words_that_run_hold_no_zero(cmd: Seq<char>, i: int)
    requires
        0 <= i < direct_words(cmd).len(),
    ensures
        !direct_words(cmd)[i].contains('\0'),
        text::words(cmd).contains(direct_words(cmd)[i]),
        direct_words(cmd)[0] == text::words(cmd)[0],
{
    let w = text::words(cmd);
    lemma_passable(w, w.len() as int, i);
    lemma_passable_first(w, w.len() as int);
}

proof fn lemma_passable(words: Seq<Seq<char>>, n: int, i: int)
    requires
        0 <= n <= words.len(),
        0 <= i < passable_upto(words, n).len(),
    ensures
        !passable_upto(words, n)[i].contains('\0'),
        words.contains(passable_upto(words, n)[i]),
    decreases n,
{
    if n > 0 {
        let before = passable_upto(words, n - 1);
        let all = passable_upto(words, n);
        if i < before.len() {
            lemma_passable(words, n - 1, i);
            assert(all[i] == before[i]);
        } else {
            assert(all[i] == words[n - 1]);
        }
    }
}

proof fn lemma_passable_first(words: Seq<Seq<char>>, n: int)
    requires
        1 <= n <= words.len(),
        passable(words[0]),
    ensures
        passable_upto(words, n).len() > 0,
        passable_upto(words, n)[0] == words[0],
    decreases n,
{
    if n > 1 {
        lemma_passable_first(words, n - 1);
    } else {
        reveal_with_fuel(passable_upto, 2);
    }
}

/// The children once one more was started.
pub open spec fn tracked_with(s: Set<i32>, pid: i32) -> Set<i32> {
    if pid > 0 {
        s.insert(pid)
    } else {
        s
    }
}

/// A child is tracked from its start to its end: it is among them once it started, alone with those
/// that were, and no longer once it ended; a number that is no process changes nothing.
pub proof fn law_child_is_tracked_until_it_ends(s: Set<i32>, pid: i32, other: i32)
    ensures
        pid > 0 ==> tracked_with(s, pid).contains(pid),
        other != pid ==> tracked_with(s, pid).contains(other) == s.contains(other),
        pid <= 0 ==> tracked_with(s, pid) == s,
        !tracked_with(s, pid).remove(pid).contains(pid),
        tracked_with(tracked_with(s, pid), pid) == tracked_with(s, pid),
{
    assert(s.insert(pid).insert(pid) =~= s.insert(pid));
}

} // verus!
