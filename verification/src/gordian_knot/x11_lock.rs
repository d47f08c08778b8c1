//! Locking inside the graphical session: the password that is typed, and what it leads to.
use vstd::prelude::*;

use crate::gordian_knot::sysinfo::SystemInfo;
use crate::text;
use crate::torrentius;
use crate::torrentius::PanelRow;

verus! {

/// How often the keyboard and the pointer are tried for, and the wait between two tries.
pub const GRAB_ATTEMPTS: u32 = 50;

pub const GRAB_RETRY_MS: u64 = 100;

/// Keys of the lock screen, as keysyms.
pub const KEY_RETURN: u32 = 0xff0d;

pub const KEY_KP_ENTER: u32 = 0xff8d;

pub const KEY_BACKSPACE: u32 = 0xff08;

pub const KEY_ESCAPE: u32 = 0xff1b;

pub const KEY_CLEAR_LINE: u32 = 0x15;

#[derive(Debug)]
pub enum LockError {
    Connect(String),
    GrabFailed,
    Runtime(String),
}

impl LockError {
    pub fn message(&self) -> (r: String)
        ensures
            r@ == match *self {
                LockError::Connect(s) => "X11 connect: "@ + s@,
                LockError::GrabFailed => "keyboard/pointer grab failed"@,
                LockError::Runtime(s) => "x11 runtime: "@ + s@,
            },
    {
        let mut out = String::new();
        match self {
            LockError::Connect(s) => {
                out.append("X11 connect: ");
                out.append(s.as_str());
                assert(out@ =~= "X11 connect: "@ + s@);
            },
            LockError::GrabFailed => {
                out.append("keyboard/pointer grab failed");
                assert(out@ =~= "keyboard/pointer grab failed"@);
            },
            LockError::Runtime(s) => {
                out.append("x11 runtime: ");
                out.append(s.as_str());
                assert(out@ =~= "x11 runtime: "@ + s@);
            },
        }
        out
    }
}

/// What follows a try for the keyboard and the pointer.
#[derive(Debug, Clone, Copy, PartialEq, Eq, Structural)]
pub enum GrabStep {
    Granted,
    /// Try again after this many milliseconds.
    RetryAfter(u64),
    GiveUp,
}

/// Goes on after try `attempt`, counted from 0. Both grabs are needed.
pub fn grab_input(attempt: u32, keyboard: bool, pointer: bool) -> (r: GrabStep)
    ensures
        r == if keyboard && pointer {
            GrabStep::Granted
        } else if attempt + 1 < GRAB_ATTEMPTS {
            GrabStep::RetryAfter(GRAB_RETRY_MS)
        } else {
            GrabStep::GiveUp
        },
        r == grab_after(attempt as int, keyboard, pointer),
{
    if keyboard && pointer {
        GrabStep::Granted
    } else if attempt < GRAB_ATTEMPTS - 1 {
        GrabStep::RetryAfter(GRAB_RETRY_MS)
    } else {
        GrabStep::GiveUp
    }
}

/// What is typed and what is said.
#[derive(Debug)]
pub struct UiState {
    pub password: Vec<char>,
    pub message: String,
    /// When the screen was last drawn for the clock, in milliseconds.
    pub last_tick: u64,
}

/// What a key leads to.
#[derive(Debug, Clone, Copy, PartialEq, Eq, Structural)]
pub enum KeyOutcome {
    /// Try the password.
    Submit,
    Redraw,
    Nothing,
}

/// What follows an event.
#[derive(Debug, Clone, Copy, PartialEq, Eq, Structural)]
pub enum LoopOutcome {
    Authenticated,
    Redraw,
}

/// What the system says to a password.
#[derive(Debug)]
pub enum AuthResult {
    Accepted,
    WrongCredentials,
    Failed(String),
}

pub open spec fn is_submit(keysym: u32) -> bool {
    keysym == KEY_RETURN || keysym == KEY_KP_ENTER
}

pub open spec fn is_printable(keysym: u32) -> bool {
    0x20 <= keysym <= 0x7e
}

/// The password after a key.
pub open spec fn password_after(password: Seq<char>, keysym: u32) -> Seq<char> {
    if keysym == KEY_BACKSPACE {
        if password.len() > 0 {
            password.drop_last()
        } else {
            password
        }
    } else if keysym == KEY_ESCAPE || keysym == KEY_CLEAR_LINE {
        Seq::empty()
    } else if is_printable(keysym) {
        password.push(keysym as char)
    } else {
        password
    }
}

/// The message after a key: trying the password and clearing it wipe it.
pub open spec fn message_after(message: Seq<char>, keysym: u32) -> Seq<char> {
    if is_submit(keysym) || keysym == KEY_ESCAPE {
        Seq::empty()
    } else {
        message
    }
}

pub open spec fn key_outcome(keysym: u32) -> KeyOutcome {
    if is_submit(keysym) {
        KeyOutcome::Submit
    } else if keysym == KEY_BACKSPACE || keysym == KEY_ESCAPE || keysym == KEY_CLEAR_LINE
        || is_printable(keysym) {
        KeyOutcome::Redraw
    } else {
        KeyOutcome::Nothing
    }
}

/// Takes a key. No key leaves the lock; only a password that is accepted does.
pub fn on_key_press(state: &mut UiState, keysym: u32) -> (r: KeyOutcome)
    ensures
        final(state).password@ == password_after(old(state).password@, keysym),
        final(state).message@ == message_after(old(state).message@, keysym),
        final(state).last_tick == old(state).last_tick,
        r == key_outcome(keysym),
{
    if keysym == KEY_RETURN || keysym == KEY_KP_ENTER {
        state.message = String::new();
        return KeyOutcome::Submit;
    }
    if keysym == KEY_BACKSPACE {
        state.password.pop();
        return KeyOutcome::Redraw;
    }
    if keysym == KEY_ESCAPE {
        state.password.clear();
        state.message = String::new();
        return KeyOutcome::Redraw;
    }
    if keysym == KEY_CLEAR_LINE {
        state.password.clear();
        return KeyOutcome::Redraw;
    }
    if 0x20 <= keysym && keysym <= 0x7e {
        state.password.push(keysym as u8 as char);
        return KeyOutcome::Redraw;
    }
    KeyOutcome::Nothing
}

/// Goes on after the password was tried. One that was not accepted is forgotten, and the screen
/// says why.
pub fn on_auth_result(state: &mut UiState, result: AuthResult) -> (r: LoopOutcome)
    ensures
        final(state).last_tick == old(state).last_tick,
        match result {
            AuthResult::Accepted => r == LoopOutcome::Authenticated && *final(state) == *old(state),
            AuthResult::WrongCredentials => r == LoopOutcome::Redraw && final(state).password@.len()
                == 0 && final(state).message@ == "Authentication failed"@,
            AuthResult::Failed(why) => r == LoopOutcome::Redraw && final(state).password@.len()
                == 0 && final(state).message@ == why@,
        },
        r == outcome_after(result),
        final(state).password@ == password_tried(old(state).password@, result),
        final(state).message@ == message_tried(old(state).message@, result),
{
    match result {
        AuthResult::Accepted => LoopOutcome::Authenticated,
        AuthResult::WrongCredentials => {
            state.message = "Authentication failed".to_string();
            state.password.clear();
            LoopOutcome::Redraw
        },
        AuthResult::Failed(why) => {
            state.message = why;
            state.password.clear();
            LoopOutcome::Redraw
        },
    }
}

/// The screen is drawn anew for the clock once a second.
pub fn tick(state: &mut UiState, now: u64) -> (r: bool)
    requires
        now >= old(state).last_tick,
    ensures
        r == (now - old(state).last_tick >= 1000),
        r == is_due(old(state).last_tick as int, now as int),
        *final(state) == if r {
            UiState { last_tick: now, ..*old(state) }
        } else {
            *old(state)
        },
{
    if now - state.last_tick >= 1000 {
        state.last_tick = now;
        return true;
    }
    false
}

/// One dot for each character of the password.
pub open spec fn dots(n: nat) -> Seq<char> {
    Seq::new(n, |i: int| '\u{25cf}')
}

pub fn password_dots(state: &UiState) -> (r: String)
    ensures
        r@ == dots(state.password@.len()),
{
    let mut out = String::new();
    let mut i: usize = 0;
    while i < state.password.len()
        invariant
            i <= state.password.len(),
            out@ == dots(i as nat),
        decreases state.password.len() - i,
    {
        out.push('\u{25cf}');
        i += 1;
        assert(out@ =~= dots(i as nat));
    }
    out
}

/// The screen shows how long a password is and nothing else of it.
pub proof fn law_dots_hide_password(a: Seq<char>, b: Seq<char>)
    requires
        a.len() == b.len(),
    ensures
        dots(a.len()) == dots(b.len()),
        forall|i: int| 0 <= i < dots(a.len()).len() ==> dots(a.len())[i] == '\u{25cf}',
{
}

/// Whatever is typed, no key but the return keys tries the password.
pub proof fn law_only_return_submits(keysym: u32)
    requires
        key_outcome(keysym) == KeyOutcome::Submit,
    ensures
        keysym == KEY_RETURN || keysym == KEY_KP_ENTER,
        forall|p: Seq<char>| #[trigger] password_after(p, keysym) == p,
{
}

/// Whether the message is to be drawn.
pub fn has_message(state: &UiState) -> (r: bool)
    ensures
        r == (state.message@.len() > 0),
{
    text::chars_of(state.message.as_str()).len() > 0
}

/// The rows of the system panel.
pub fn system_rows<'a>(info: &'a SystemInfo) -> (r: Vec<PanelRow<'a>>)
    ensures
        torrentius::rows_view(r@) == seq![
            ("HOSTNAME"@, info.hostname@),
            ("KERNEL"@, info.kernel@),
            ("DATE"@, info.date@),
            ("TIME"@, info.time@),
            ("UPTIME"@, info.uptime@),
        ],
{
    let mut r: Vec<PanelRow<'a>> = Vec::new();
    r.push(PanelRow { label: "HOSTNAME", value: info.hostname.as_str() });
    r.push(PanelRow { label: "KERNEL", value: info.kernel.as_str() });
    r.push(PanelRow { label: "DATE", value: info.date.as_str() });
    r.push(PanelRow { label: "TIME", value: info.time.as_str() });
    r.push(PanelRow { label: "UPTIME", value: info.uptime.as_str() });
    assert(torrentius::rows_view(r@) =~= seq![
        ("HOSTNAME"@, info.hostname@),
        ("KERNEL"@, info.kernel@),
        ("DATE"@, info.date@),
        ("TIME"@, info.time@),
        ("UPTIME"@, info.uptime@),
    ]);
    r
}

/// The rows of the user panel: the user, and the password's dots behind the prompt.
pub fn user_rows<'a>(user: &'a str, prompt: &'a str, dots: &'a str) -> (r: Vec<PanelRow<'a>>)
    ensures
        torrentius::rows_view(r@) == seq![("USER"@, user@), (prompt@, dots@)],
{
    let mut r: Vec<PanelRow<'a>> = Vec::new();
    r.push(PanelRow { label: "USER", value: user });
    r.push(PanelRow { label: prompt, value: dots });
    assert(torrentius::rows_view(r@) =~= seq![("USER"@, user@), (prompt@, dots@)]);
    r
}

/// The password holds what was typed: a printable key adds its character, backspace takes the last
/// one back, escape and the line killer take all of it, and no other key changes it.
pub proof fn law_password_holds_what_was_typed(p: Seq<char>, keysym: u32)
    ensures
        0x20 <= keysym <= 0x7e ==> password_after(p, keysym) == p.push(keysym as char),
        0x20 <= keysym <= 0x7e ==> password_after(password_after(p, keysym), KEY_BACKSPACE) == p,
        password_after(p, KEY_ESCAPE).len() == 0,
        password_after(p, KEY_CLEAR_LINE).len() == 0,
        password_after(Seq::empty(), KEY_BACKSPACE).len() == 0,
        !(0x20 <= keysym <= 0x7e) && keysym != KEY_BACKSPACE && keysym != KEY_ESCAPE && keysym
            != KEY_CLEAR_LINE ==> password_after(p, keysym) == p,
{
    if 0x20 <= keysym <= 0x7e {
        assert(p.push(keysym as char).drop_last() =~= p);
    }
}

/// The screen is drawn anew where a key can have changed what it shows, and a key that leads to
/// nothing changed nothing. What was said of the last attempt goes with the next one, and with
/// escape.
pub proof fn law_keys_are_shown(p: Seq<char>, message: Seq<char>, keysym: u32)
    ensures
        key_outcome(keysym) == KeyOutcome::Nothing ==> password_after(p, keysym) == p
            && message_after(message, keysym) == message,
        password_after(p, keysym) != p ==> key_outcome(keysym) == KeyOutcome::Redraw,
        key_outcome(keysym) == KeyOutcome::Submit <==> keysym == 0xff0d || keysym == 0xff8d,
        key_outcome(keysym) == KeyOutcome::Submit || keysym == 0xff1b ==> message_after(
            message,
            keysym,
        ).len() == 0,
        key_outcome(keysym) != KeyOutcome::Submit && keysym != 0xff1b ==> message_after(
            message,
            keysym,
        ) == message,
{
}

/// As many dots are shown as there are characters in the password.
pub proof fn law_a_dot_for_each_character(p: Seq<char>, keysym: u32)
    ensures
        dots(p.len()).len() == p.len(),
        0x20 <= keysym <= 0x7e ==> dots(password_after(p, keysym).len()) == dots(p.len()).push(
            '\u{25cf}',
        ),
{
    if 0x20 <= keysym <= 0x7e {
        assert(dots(password_after(p, keysym).len()) =~= dots(p.len()).push('\u{25cf}'));
    }
}

/// What an attempt leads to.
pub open spec fn outcome_after(result: AuthResult) -> LoopOutcome {
    match result {
        AuthResult::Accepted => LoopOutcome::Authenticated,
        AuthResult::WrongCredentials | AuthResult::Failed(_) => LoopOutcome::Redraw,
    }
}

/// The password after it was tried.
pub open spec fn password_tried(password: Seq<char>, result: AuthResult) -> Seq<char> {
    match result {
        AuthResult::Accepted => password,
        AuthResult::WrongCredentials | AuthResult::Failed(_) => Seq::empty(),
    }
}

/// What the screen says then.
pub open spec fn message_tried(message: Seq<char>, result: AuthResult) -> Seq<char> {
    match result {
        AuthResult::Accepted => message,
        AuthResult::WrongCredentials => "Authentication failed"@,
        AuthResult::Failed(why) => why@,
    }
}

/// Only an accepted password unlocks. Any other is forgotten, so that the next attempt begins with
/// what is typed next, and the screen says what was wrong until then.
pub proof fn law_only_an_accepted_password_unlocks(
    password: Seq<char>,
    message: Seq<char>,
    result: AuthResult,
    keysym: u32,
)
    ensures
        outcome_after(result) == LoopOutcome::Authenticated <==> result == AuthResult::Accepted,
        result != AuthResult::Accepted ==> password_tried(password, result).len() == 0,
        result != AuthResult::Accepted && 0x20 <= keysym <= 0x7e ==> password_after(
            password_tried(password, result),
            keysym,
        ) == seq![keysym as char],
        result == AuthResult::WrongCredentials ==> message_tried(message, result).len() > 0,
        result matches AuthResult::Failed(why) ==> message_tried(message, result) == why@,
        result != AuthResult::Accepted && 0x20 <= keysym <= 0x7e ==> message_after(
            message_tried(message, result),
            keysym,
        ) == message_tried(message, result),
{
    reveal_strlit("Authentication failed");
    if 0x20 <= keysym <= 0x7e {
        assert(Seq::<char>::empty().push(keysym as char) =~= seq![keysym as char]);
    }
}

/// What a try of the grabs leads to.
pub open spec fn grab_after(attempt: int, keyboard: bool, pointer: bool) -> GrabStep {
    if keyboard && pointer {
        GrabStep::Granted
    } else if attempt + 1 < GRAB_ATTEMPTS {
        GrabStep::RetryAfter(GRAB_RETRY_MS)
    } else {
        GrabStep::GiveUp
    }
}

/// The screen is locked only with both grabs, the keyboard's and the pointer's: with one of them, or
/// none, it is tried again, fifty times in all, and then given up.
pub proof fn law_lock_needs_both_grabs(attempt: int, keyboard: bool, pointer: bool)
    requires
        0 <= attempt < 50,
    ensures
        grab_after(attempt, keyboard, pointer) == GrabStep::Granted <==> keyboard && pointer,
        !(keyboard && pointer) && attempt < 49 ==> grab_after(attempt, keyboard, pointer)
            == GrabStep::RetryAfter(100),
        !(keyboard && pointer) && attempt == 49 ==> grab_after(attempt, keyboard, pointer)
            == GrabStep::GiveUp,
{
}

/// The clock on the screen is due to be drawn again.
pub open spec fn is_due(last: int, now: int) -> bool {
    now - last >= 1000
}

/// The clock is drawn once a second: not again before a second has passed since it was, and from then
/// on.
pub proof fn law_clock_is_drawn_every_second(last: int, now: int, later: int)
    requires
        now <= later,
    ensures
        !is_due(last, last),
        is_due(last, last + 1000) && !is_due(last, last + 999),
        is_due(last, now) ==> is_due(last, later),
{
}

} // verus!
