//! Locking on a console of its own: taking and giving back the console, and the password line.
use vstd::prelude::*;

use crate::gordian_knot::sysinfo::SystemInfo;
use crate::text;

verus! {

/// Console calls of the kernel.
pub const VT_OPENQRY: u64 = 0x5600;

pub const VT_GETSTATE: u64 = 0x5603;

pub const VT_ACTIVATE: u64 = 0x5606;

pub const VT_WAITACTIVE: u64 = 0x5607;

pub const VT_DISALLOCATE: u64 = 0x5608;

pub const VT_LOCKSWITCH: u64 = 0x560b;

pub const VT_UNLOCKSWITCH: u64 = 0x560c;

/// A console that is held. What is not held is -1.
#[derive(Debug, Clone, Copy, PartialEq, Eq, Structural)]
pub struct VtSession {
    pub console_fd: i32,
    pub tty_fd: i32,
    pub tty_num: i32,
    /// The console that was shown before.
    pub prev_vt: i32,
    pub switch_locked: bool,
    /// Whether the terminal's settings were saved.
    pub term_saved: bool,
}

// --- taking ---

/// The steps of taking a console, in order.
#[derive(Debug, Clone, Copy, PartialEq, Eq, Structural)]
pub enum AcquireStep {
    OpenConsole,
    GetState,
    OpenQuery,
    OpenTty,
    Activate,
    WaitActive,
    LockSwitch,
    SaveTerm,
    Done,
}

/// What failed, and the system's number for it. A terminal is named by its number.
#[derive(Debug, Clone, Copy, PartialEq, Eq, Structural)]
pub struct VtError {
    pub step: AcquireStep,
    pub tty_num: i32,
    pub errno: i32,
}

impl VtSession {
    pub fn new() -> (r: Self)
        ensures
            r == (VtSession {
                console_fd: -1i32,
                tty_fd: -1i32,
                tty_num: -1i32,
                prev_vt: -1i32,
                switch_locked: false,
                term_saved: false,
            }),
    {
        VtSession {
            console_fd: -1,
            tty_fd: -1,
            tty_num: -1,
            prev_vt: -1,
            switch_locked: false,
            term_saved: false,
        }
    }
}

/// The session after a step that gave `value`: a descriptor, a console's number, or, of a plain
/// call, anything that is not negative.
pub open spec fn after_step(s: VtSession, step: AcquireStep, value: i32) -> VtSession {
    match step {
        AcquireStep::OpenConsole => VtSession { console_fd: value, ..s },
        AcquireStep::GetState => VtSession { prev_vt: value, ..s },
        AcquireStep::OpenQuery => VtSession { tty_num: value, ..s },
        AcquireStep::OpenTty => VtSession { tty_fd: value, ..s },
        AcquireStep::LockSwitch => VtSession { switch_locked: true, ..s },
        AcquireStep::SaveTerm => VtSession { term_saved: true, ..s },
        AcquireStep::Activate | AcquireStep::WaitActive | AcquireStep::Done => s,
    }
}

pub open spec fn next_step(step: AcquireStep) -> AcquireStep {
    match step {
        AcquireStep::OpenConsole => AcquireStep::GetState,
        AcquireStep::GetState => AcquireStep::OpenQuery,
        AcquireStep::OpenQuery => AcquireStep::OpenTty,
        AcquireStep::OpenTty => AcquireStep::Activate,
        AcquireStep::Activate => AcquireStep::WaitActive,
        AcquireStep::WaitActive => AcquireStep::LockSwitch,
        AcquireStep::LockSwitch => AcquireStep::SaveTerm,
        AcquireStep::SaveTerm => AcquireStep::Done,
        AcquireStep::Done => AcquireStep::Done,
    }
}

/// Goes on after a step gave `value`, which is negative where it failed, with `errno`. Terminal
/// settings that cannot be saved are no failure.
pub fn acquire(s: &mut VtSession, step: AcquireStep, value: i32, errno: i32) -> (r: Result<
    AcquireStep,
    VtError,
>)
    ensures
        if value < 0 && step != AcquireStep::SaveTerm {
            &&& r == Err::<AcquireStep, VtError>(VtError { step, tty_num: old(s).tty_num, errno })
            &&& *final(s) == *old(s)
        } else {
            &&& r == Ok::<AcquireStep, VtError>(next_step(step))
            &&& *final(s) == if value < 0 {
                *old(s)
            } else {
                after_step(*old(s), step, value)
            }
        },
{
    if value < 0 {
        if step == AcquireStep::SaveTerm {
            return Ok(AcquireStep::Done);
        }
        return Err(VtError { step, tty_num: s.tty_num, errno });
    }
    match step {
        AcquireStep::OpenConsole => {
            s.console_fd = value;
            Ok(AcquireStep::GetState)
        },
        AcquireStep::GetState => {
            s.prev_vt = value;
            Ok(AcquireStep::OpenQuery)
        },
        AcquireStep::OpenQuery => {
            s.tty_num = value;
            Ok(AcquireStep::OpenTty)
        },
        AcquireStep::OpenTty => {
            s.tty_fd = value;
            Ok(AcquireStep::Activate)
        },
        AcquireStep::Activate => Ok(AcquireStep::WaitActive),
        AcquireStep::WaitActive => Ok(AcquireStep::LockSwitch),
        AcquireStep::LockSwitch => {
            s.switch_locked = true;
            Ok(AcquireStep::SaveTerm)
        },
        AcquireStep::SaveTerm => {
            s.term_saved = true;
            Ok(AcquireStep::Done)
        },
        AcquireStep::Done => Ok(AcquireStep::Done),
    }
}

/// The text of a failed step.
pub open spec fn error_text(e: VtError) -> Seq<char> {
    let number = text::signed_decimal(e.errno as int);
    match e.step {
        AcquireStep::OpenConsole => "open /dev/console: errno "@ + number + " (run as root?)"@,
        AcquireStep::GetState => "VT_GETSTATE: errno "@ + number,
        AcquireStep::OpenQuery => "VT_OPENQRY: errno "@ + number,
        AcquireStep::OpenTty => "open /dev/tty"@ + text::signed_decimal(e.tty_num as int)
            + ": errno "@ + number,
        AcquireStep::Activate => "VT_ACTIVATE: errno "@ + number,
        AcquireStep::WaitActive => "VT_WAITACTIVE: errno "@ + number,
        AcquireStep::LockSwitch => "VT_LOCKSWITCH: errno "@ + number,
        AcquireStep::SaveTerm | AcquireStep::Done => "errno "@ + number,
    }
}

impl VtError {
    pub fn message(&self) -> (r: String)
        ensures
            r@ == error_text(*self),
    {
        let mut out = String::new();
        match self.step {
            AcquireStep::OpenConsole => {
                out.append("open /dev/console: errno ");
            },
            AcquireStep::GetState => {
                out.append("VT_GETSTATE: errno ");
            },
            AcquireStep::OpenQuery => {
                out.append("VT_OPENQRY: errno ");
            },
            AcquireStep::OpenTty => {
                out.append("open /dev/tty");
                text::push_signed(&mut out, self.tty_num as i64);
                out.append(": errno ");
            },
            AcquireStep::Activate => {
                out.append("VT_ACTIVATE: errno ");
            },
            AcquireStep::WaitActive => {
                out.append("VT_WAITACTIVE: errno ");
            },
            AcquireStep::LockSwitch => {
                out.append("VT_LOCKSWITCH: errno ");
            },
            AcquireStep::SaveTerm | AcquireStep::Done => {
                out.append("errno ");
            },
        }
        text::push_signed(&mut out, self.errno as i64);
        if self.step == AcquireStep::OpenConsole {
            out.append(" (run as root?)");
        }
        assert(out@ =~= error_text(*self));
        out
    }
}

// --- giving back ---

/// What giving a console back asks for.
#[derive(Debug, Clone, Copy, PartialEq, Eq, Structural)]
pub enum ReleaseAction {
    RestoreTerm { tty_fd: i32 },
    UnlockSwitch { console_fd: i32 },
    Activate { console_fd: i32, vt: i32 },
    WaitActive { console_fd: i32, vt: i32 },
    CloseTty { tty_fd: i32 },
    Disallocate { console_fd: i32, tty_num: i32 },
    CloseConsole { console_fd: i32 },
}

pub open spec fn action_if(wanted: bool, action: ReleaseAction) -> Seq<ReleaseAction> {
    if wanted {
        seq![action]
    } else {
        Seq::empty()
    }
}

/// Everything that the session holds is given back, the terminal's settings first and the console
/// last.
pub open spec fn release_actions(s: VtSession) -> Seq<ReleaseAction> {
    let c = s.console_fd;
    action_if(s.term_saved && s.tty_fd >= 0, ReleaseAction::RestoreTerm { tty_fd: s.tty_fd })
        + action_if(s.switch_locked && c >= 0, ReleaseAction::UnlockSwitch { console_fd: c })
        + action_if(
        s.prev_vt > 0 && c >= 0,
        ReleaseAction::Activate { console_fd: c, vt: s.prev_vt },
    ) + action_if(
        s.prev_vt > 0 && c >= 0,
        ReleaseAction::WaitActive { console_fd: c, vt: s.prev_vt },
    ) + action_if(s.tty_fd >= 0, ReleaseAction::CloseTty { tty_fd: s.tty_fd }) + action_if(
        s.tty_num > 0 && c >= 0,
        ReleaseAction::Disallocate { console_fd: c, tty_num: s.tty_num },
    ) + action_if(c >= 0, ReleaseAction::CloseConsole { console_fd: c })
}

pub open spec fn released(s: VtSession) -> VtSession {
    VtSession {
        switch_locked: s.switch_locked && s.console_fd < 0,
        tty_fd: if s.tty_fd >= 0 {
            -1i32
        } else {
            s.tty_fd
        },
        tty_num: if s.tty_num > 0 && s.console_fd >= 0 {
            -1i32
        } else {
            s.tty_num
        },
        console_fd: if s.console_fd >= 0 {
            -1i32
        } else {
            s.console_fd
        },
        ..s
    }
}

/// Gives the console back. What is not held needs nothing.
pub fn release(s: &mut VtSession) -> (r: Vec<ReleaseAction>)
    ensures
        r@ == release_actions(*old(s)),
        *final(s) == released(*old(s)),
{
    let c = s.console_fd;
    let mut out: Vec<ReleaseAction> = Vec::new();
    if s.term_saved && s.tty_fd >= 0 {
        out.push(ReleaseAction::RestoreTerm { tty_fd: s.tty_fd });
    }
    if s.switch_locked && c >= 0 {
        out.push(ReleaseAction::UnlockSwitch { console_fd: c });
        s.switch_locked = false;
    }
    if s.prev_vt > 0 && c >= 0 {
        out.push(ReleaseAction::Activate { console_fd: c, vt: s.prev_vt });
        out.push(ReleaseAction::WaitActive { console_fd: c, vt: s.prev_vt });
    }
    if s.tty_fd >= 0 {
        out.push(ReleaseAction::CloseTty { tty_fd: s.tty_fd });
        s.tty_fd = -1;
    }
    if s.tty_num > 0 && c >= 0 {
        out.push(ReleaseAction::Disallocate { console_fd: c, tty_num: s.tty_num });
        s.tty_num = -1;
    }
    if c >= 0 {
        out.push(ReleaseAction::CloseConsole { console_fd: c });
        s.console_fd = -1;
    }
    assert(out@ =~= release_actions(*old(s)));
    out
}

/// A console that was given back needs nothing more.
pub proof fn law_release_is_idempotent(s: VtSession)
    ensures
        release_actions(released(s)).len() == 0,
        released(released(s)) == released(s),
{
}

/// A console whose switching was locked is unlocked when it is given back, whatever else is held.
pub proof fn law_release_unlocks(s: VtSession)
    requires
        s.switch_locked,
        s.console_fd >= 0,
    ensures
        release_actions(s).contains(ReleaseAction::UnlockSwitch { console_fd: s.console_fd }),
        !released(s).switch_locked,
{
    let first = action_if(
        s.term_saved && s.tty_fd >= 0,
        ReleaseAction::RestoreTerm { tty_fd: s.tty_fd },
    );
    assert(release_actions(s)[first.len() as int] == ReleaseAction::UnlockSwitch {
        console_fd: s.console_fd,
    });
}

// --- the password line ---

/// What a byte from the terminal leads to.
#[derive(Debug, Clone, Copy, PartialEq, Eq, Structural)]
pub enum LineStep {
    /// The line goes on.
    More,
    /// The line is complete.
    Done,
}

pub open spec fn is_enter(ch: u8) -> bool {
    ch == 0x0d || ch == 0x0a
}

pub open spec fn is_erase(ch: u8) -> bool {
    ch == 0x7f || ch == 0x08
}

/// The line after a byte.
pub open spec fn line_after(line: Seq<char>, ch: u8) -> Seq<char> {
    if is_enter(ch) {
        line
    } else if is_erase(ch) {
        if line.len() > 0 {
            line.drop_last()
        } else {
            line
        }
    } else if ch == 0x15 {
        Seq::empty()
    } else if 0x20 <= ch < 0x7f {
        line.push(ch as char)
    } else {
        line
    }
}

/// The characters that take one back on the terminal, `n` times.
pub open spec fn erasures(n: nat) -> Seq<char>
    decreases n,
{
    if n == 0 {
        Seq::empty()
    } else {
        erasures((n - 1) as nat) + "\x08 \x08"@
    }
}

/// What the terminal shows of a byte: a dot for a character, whatever it is.
pub open spec fn echo_of(line: Seq<char>, ch: u8) -> Seq<char> {
    if is_enter(ch) {
        "\r\n"@
    } else if is_erase(ch) {
        if line.len() > 0 {
            "\x08 \x08"@
        } else {
            Seq::empty()
        }
    } else if ch == 0x15 {
        erasures(line.len())
    } else if 0x20 <= ch < 0x7f {
        "\u{25cf}"@
    } else {
        Seq::empty()
    }
}

/// Takes a byte from the terminal into the password line. The second result is what to show.
pub fn read_password_byte(line: &mut Vec<char>, ch: u8) -> (r: (LineStep, String))
    ensures
        final(line)@ == line_after(old(line)@, ch),
        r.0 == if is_enter(ch) {
            LineStep::Done
        } else {
            LineStep::More
        },
        r.1@ == echo_of(old(line)@, ch),
{
    let mut echo = String::new();
    if ch == 0x0d || ch == 0x0a {
        echo.append("\r\n");
        assert(echo@ =~= "\r\n"@);
        return (LineStep::Done, echo);
    }
    if ch == 0x7f || ch == 0x08 {
        if line.len() > 0 {
            line.pop();
            echo.append("\x08 \x08");
            assert(echo@ =~= "\x08 \x08"@);
        }
    } else if ch == 0x15 {
        let n = line.len();
        let mut i: usize = 0;
        while i < n
            invariant
                i <= n,
                echo@ == erasures(i as nat),
            decreases n - i,
        {
            echo.append("\x08 \x08");
            i += 1;
        }
        line.clear();
    } else if 0x20 <= ch && ch < 0x7f {
        line.push(ch as char);
        echo.append("\u{25cf}");
        assert(echo@ =~= "\u{25cf}"@);
    }
    (LineStep::More, echo)
}

/// What the terminal shows never depends on which characters were typed, only on how many there
/// are.
pub proof fn law_echo_hides_password(a: Seq<char>, b: Seq<char>, x: u8, y: u8)
    requires
        a.len() == b.len(),
        x == y || (0x20 <= x < 0x7f && 0x20 <= y < 0x7f),
    ensures
        echo_of(a, x) == echo_of(b, y),
        line_after(a, x).len() == line_after(b, y).len(),
{
}

/// Erasing takes back what was typed.
pub proof fn law_erase_undoes_typing(line: Seq<char>, ch: u8, erase: u8)
    requires
        0x20 <= ch < 0x7f,
        is_erase(erase),
    ensures
        line_after(line_after(line, ch), erase) == line,
{
    assert(line.push(ch as char).drop_last() =~= line);
}

/// What follows an attempt to authenticate on the console.
#[derive(Debug, Clone, Copy, PartialEq, Eq, Structural)]
pub enum PromptStep {
    /// Leave with this code.
    Exit(i32),
    /// Say what went wrong, wait a little, and ask again.
    Retry,
}

/// The console asks until the password is right; it gives up only where the terminal cannot be
/// read any more. `authenticated` is `None` there.
pub fn prompt_step(authenticated: Option<bool>) -> (r: PromptStep)
    ensures
        r == match authenticated {
            None => PromptStep::Exit(1),
            Some(true) => PromptStep::Exit(0),
            Some(false) => PromptStep::Retry,
        },
{
    match authenticated {
        None => PromptStep::Exit(1),
        Some(ok) => if ok {
            PromptStep::Exit(0)
        } else {
            PromptStep::Retry
        },
    }
}

/// A line of the text screen.
pub open spec fn row(label: Seq<char>, value: Seq<char>) -> Seq<char> {
    label + value + "\r\n"@
}

/// The text screen.
pub open spec fn screen_text(
    hostname: Seq<char>,
    kernel: Seq<char>,
    date: Seq<char>,
    time: Seq<char>,
    uptime: Seq<char>,
    user: Seq<char>,
    prompt: Seq<char>,
) -> Seq<char> {
    "\x1b[2J\x1b[H"@ + "\r\n"@ + "  SYSTEM\r\n"@ + row("    HOSTNAME  "@, hostname) + row(
        "    KERNEL    "@,
        kernel,
    ) + row("    DATE      "@, date) + row("    TIME      "@, time) + row(
        "    UPTIME    "@,
        uptime,
    ) + "\r\n"@ + "  USER\r\n"@ + row("    USER      "@, user) + "    "@ + prompt + "  "@
}

fn push_row(out: &mut String, label: &str, value: &str)
    ensures
        final(out)@ == old(out)@ + row(label@, value@),
{
    out.append(label);
    out.append(value);
    out.append("\r\n");
    assert(out@ =~= old(out)@ + row(label@, value@));
}

/// Draws the text screen: what the system says of itself, the user, and the prompt.
pub fn render_text_ui(info: &SystemInfo, user: &str, prompt: &str) -> (r: String)
    ensures
        r@ == screen_text(
            info.hostname@,
            info.kernel@,
            info.date@,
            info.time@,
            info.uptime@,
            user@,
            prompt@,
        ),
{
    let mut s = String::new();
    s.append("\x1b[2J\x1b[H");
    s.append("\r\n");
    s.append("  SYSTEM\r\n");
    push_row(&mut s, "    HOSTNAME  ", info.hostname.as_str());
    push_row(&mut s, "    KERNEL    ", info.kernel.as_str());
    push_row(&mut s, "    DATE      ", info.date.as_str());
    push_row(&mut s, "    TIME      ", info.time.as_str());
    push_row(&mut s, "    UPTIME    ", info.uptime.as_str());
    s.append("\r\n");
    s.append("  USER\r\n");
    push_row(&mut s, "    USER      ", user);
    s.append("    ");
    s.append(prompt);
    s.append("  ");
    assert(s@ =~= screen_text(
        info.hostname@,
        info.kernel@,
        info.date@,
        info.time@,
        info.uptime@,
        user@,
        prompt@,
    ));
    s
}

/// The session after the steps from the first on, each with its value, all of which succeeded.
pub open spec fn acquired(console: i32, prev: i32, number: i32, tty: i32) -> VtSession {
    let s0 = VtSession {
        console_fd: -1i32,
        tty_fd: -1i32,
        tty_num: -1i32,
        prev_vt: -1i32,
        switch_locked: false,
        term_saved: false,
    };
    let s1 = after_step(s0, AcquireStep::OpenConsole, console);
    let s2 = after_step(s1, next_step(AcquireStep::OpenConsole), prev);
    let s3 = after_step(s2, next_step(next_step(AcquireStep::OpenConsole)), number);
    let s4 = after_step(s3, AcquireStep::OpenTty, tty);
    let s5 = after_step(s4, AcquireStep::Activate, 0);
    let s6 = after_step(s5, AcquireStep::WaitActive, 0);
    let s7 = after_step(s6, AcquireStep::LockSwitch, 0);
    after_step(s7, AcquireStep::SaveTerm, 0)
}

/// The terminal is taken in eight steps, each of which follows the one before: the console is opened
/// before it is asked, the terminal is found before it is opened, and opened before it is switched
/// to, and switching is locked only once it is shown.
pub proof fn law_terminal_is_taken_step_by_step()
    ensures
        next_step(AcquireStep::OpenConsole) == AcquireStep::GetState,
        next_step(AcquireStep::GetState) == AcquireStep::OpenQuery,
        next_step(AcquireStep::OpenQuery) == AcquireStep::OpenTty,
        next_step(AcquireStep::OpenTty) == AcquireStep::Activate,
        next_step(AcquireStep::Activate) == AcquireStep::WaitActive,
        next_step(AcquireStep::WaitActive) == AcquireStep::LockSwitch,
        next_step(AcquireStep::LockSwitch) == AcquireStep::SaveTerm,
        next_step(AcquireStep::SaveTerm) == AcquireStep::Done,
        forall|s: AcquireStep| #[trigger] next_step(s) == s ==> s == AcquireStep::Done,
{
}

/// What was taken is given back, in order: the terminal's settings while it is open, the lock on
/// switching before the switch, the terminal that was shown before, then the terminal is closed and
/// freed, and the console is closed last.
pub proof fn law_release_gives_back_what_was_taken(console: i32, prev: i32, number: i32, tty: i32)
    requires
        console >= 0,
        prev > 0,
        number > 0,
        tty >= 0,
    ensures
        ({
            let s = acquired(console, prev, number, tty);
            let t = released(s);
            &&& s.console_fd == console && s.prev_vt == prev && s.tty_num == number && s.tty_fd == tty
            &&& s.switch_locked && s.term_saved
            &&& release_actions(s) == seq![
                ReleaseAction::RestoreTerm { tty_fd: tty },
                ReleaseAction::UnlockSwitch { console_fd: console },
                ReleaseAction::Activate { console_fd: console, vt: prev },
                ReleaseAction::WaitActive { console_fd: console, vt: prev },
                ReleaseAction::CloseTty { tty_fd: tty },
                ReleaseAction::Disallocate { console_fd: console, tty_num: number },
                ReleaseAction::CloseConsole { console_fd: console },
            ]
            &&& t.console_fd == -1 && t.tty_fd == -1 && t.tty_num == -1 && !t.switch_locked
        }),
{
    let s = acquired(console, prev, number, tty);
    assert(release_actions(s) =~= seq![
        ReleaseAction::RestoreTerm { tty_fd: tty },
        ReleaseAction::UnlockSwitch { console_fd: console },
        ReleaseAction::Activate { console_fd: console, vt: prev },
        ReleaseAction::WaitActive { console_fd: console, vt: prev },
        ReleaseAction::CloseTty { tty_fd: tty },
        ReleaseAction::Disallocate { console_fd: console, tty_num: number },
        ReleaseAction::CloseConsole { console_fd: console },
    ]);
}

/// Whatever was taken before a failure is given back too: every descriptor that is open is closed,
/// and nothing is done on one that is not.
pub proof fn law_release_closes_what_is_open(s: VtSession)
    ensures
        ({
            let a = release_actions(s);
            &&& a.contains(ReleaseAction::CloseTty { tty_fd: s.tty_fd }) <==> s.tty_fd >= 0
            &&& a.contains(ReleaseAction::CloseConsole { console_fd: s.console_fd }) <==> s.console_fd
                >= 0
            &&& a.contains(ReleaseAction::RestoreTerm { tty_fd: s.tty_fd }) <==> s.term_saved
                && s.tty_fd >= 0
            &&& a.contains(
                ReleaseAction::Activate { console_fd: s.console_fd, vt: s.prev_vt },
            ) <==> s.prev_vt > 0 && s.console_fd >= 0
            &&& a.contains(
                ReleaseAction::Disallocate { console_fd: s.console_fd, tty_num: s.tty_num },
            ) <==> s.tty_num > 0 && s.console_fd >= 0
            &&& released(s).tty_fd < 0 && released(s).console_fd < 0
            &&& released(s).tty_num == if s.tty_num > 0 && s.console_fd >= 0 {
                -1
            } else {
                s.tty_num as int
            }
            &&& released(s).switch_locked <==> s.switch_locked && s.console_fd < 0
            &&& released(s).prev_vt == s.prev_vt && released(s).term_saved == s.term_saved
            &&& s.tty_fd < 0 ==> released(s).tty_fd == s.tty_fd
            &&& s.console_fd < 0 ==> released(s).console_fd == s.console_fd
            &&& s.console_fd < 0 && s.tty_fd < 0 ==> a.len() == 0
        }),
{
    lemma_action_in(s, ReleaseAction::CloseTty { tty_fd: s.tty_fd });
    lemma_action_in(s, ReleaseAction::CloseConsole { console_fd: s.console_fd });
    lemma_action_in(s, ReleaseAction::RestoreTerm { tty_fd: s.tty_fd });
    lemma_action_in(s, ReleaseAction::Activate { console_fd: s.console_fd, vt: s.prev_vt });
    lemma_action_in(
        s,
        ReleaseAction::Disallocate { console_fd: s.console_fd, tty_num: s.tty_num },
    );
}

proof fn lemma_joined(a: Seq<ReleaseAction>, wanted: bool, x: ReleaseAction, y: ReleaseAction)
    ensures
        (a + action_if(wanted, x)).contains(y) == (a.contains(y) || (wanted && x == y)),
{
    let b = a + action_if(wanted, x);
    if a.contains(y) {
        assert(b[a.index_of(y)] == y);
    }
    if wanted && x == y {
        assert(b[a.len() as int] == y);
    }
    if b.contains(y) {
        let k = b.index_of(y);
        if k < a.len() {
            assert(a[k] == y);
        }
    }
}

proof fn lemma_action_in(s: VtSession, y: ReleaseAction)
    ensures
        release_actions(s).contains(y) == ({
            let c = s.console_fd;
            ||| s.term_saved && s.tty_fd >= 0 && y == (ReleaseAction::RestoreTerm {
                tty_fd: s.tty_fd,
            })
            ||| s.switch_locked && c >= 0 && y == (ReleaseAction::UnlockSwitch { console_fd: c })
            ||| s.prev_vt > 0 && c >= 0 && y == (ReleaseAction::Activate {
                console_fd: c,
                vt: s.prev_vt,
            })
            ||| s.prev_vt > 0 && c >= 0 && y == (ReleaseAction::WaitActive {
                console_fd: c,
                vt: s.prev_vt,
            })
            ||| s.tty_fd >= 0 && y == (ReleaseAction::CloseTty { tty_fd: s.tty_fd })
            ||| s.tty_num > 0 && c >= 0 && y == (ReleaseAction::Disallocate {
                console_fd: c,
                tty_num: s.tty_num,
            })
            ||| c >= 0 && y == (ReleaseAction::CloseConsole { console_fd: c })
        }),
{
    let c = s.console_fd;
    let w1 = s.term_saved && s.tty_fd >= 0;
    let x1 = ReleaseAction::RestoreTerm { tty_fd: s.tty_fd };
    let w2 = s.switch_locked && c >= 0;
    let x2 = ReleaseAction::UnlockSwitch { console_fd: c };
    let w3 = s.prev_vt > 0 && c >= 0;
    let x3 = ReleaseAction::Activate { console_fd: c, vt: s.prev_vt };
    let x4 = ReleaseAction::WaitActive { console_fd: c, vt: s.prev_vt };
    let w5 = s.tty_fd >= 0;
    let x5 = ReleaseAction::CloseTty { tty_fd: s.tty_fd };
    let w6 = s.tty_num > 0 && c >= 0;
    let x6 = ReleaseAction::Disallocate { console_fd: c, tty_num: s.tty_num };
    let x7 = ReleaseAction::CloseConsole { console_fd: c };
    let a1 = action_if(w1, x1);
    let a2 = a1 + action_if(w2, x2);
    let a3 = a2 + action_if(w3, x3);
    let a4 = a3 + action_if(w3, x4);
    let a5 = a4 + action_if(w5, x5);
    let a6 = a5 + action_if(w6, x6);
    assert(Seq::<ReleaseAction>::empty() + a1 =~= a1);
    lemma_joined(Seq::empty(), w1, x1, y);
    lemma_joined(a1, w2, x2, y);
    lemma_joined(a2, w3, x3, y);
    lemma_joined(a3, w3, x4, y);
    lemma_joined(a4, w5, x5, y);
    lemma_joined(a5, w6, x6, y);
    lemma_joined(a6, c >= 0, x7, y);
}

/// A password line grows by what can be printed and by nothing else: return leaves it, the two
/// erasing keys take the last character, the line killer takes all of it, and other bytes do nothing.
pub proof fn law_line_holds_what_was_typed(line: Seq<char>, ch: u8)
    ensures
        0x20 <= ch <= 0x7e ==> line_after(line, ch) == line.push(ch as char),
        ch == 0x7f || ch == 0x08 ==> line_after(line, ch) == if line.len() > 0 {
            line.drop_last()
        } else {
            line
        },
        ch == 0x15 ==> line_after(line, ch).len() == 0,
        ch == 0x0d || ch == 0x0a ==> line_after(line, ch) == line,
        ch < 0x20 && ch != 0x08 && ch != 0x15 || ch > 0x7f ==> line_after(line, ch) == line,
{
}

/// The screen shows one dot for each character of the line: a byte that adds one shows a dot, one
/// that takes some away rubs as many out, and one that changes nothing shows nothing, save that
/// return ends the line.
pub proof fn law_echo_keeps_step_with_the_line(line: Seq<char>, ch: u8)
    requires
        ch != 0x0d,
        ch != 0x0a,
    ensures
        ({
            let after = line_after(line, ch);
            let echo = echo_of(line, ch);
            &&& after.len() == line.len() + 1 ==> echo == seq!['\u{25cf}']
            &&& after.len() <= line.len() ==> echo == erasures((line.len() - after.len()) as nat)
            &&& erasures(1) == seq!['\x08', ' ', '\x08']
        }),
{
    reveal_strlit("\u{25cf}");
    reveal_strlit("\x08 \x08");
    assert("\u{25cf}"@ =~= seq!['\u{25cf}']);
    assert("\x08 \x08"@ =~= seq!['\x08', ' ', '\x08']);
    reveal_with_fuel(erasures, 2);
    assert(erasures(1) =~= "\x08 \x08"@);
}

/// Whatever step failed, its message gives the number of the error behind the word for it, at its
/// end; where the console could not be opened, a hint follows.
pub proof fn law_message_ends_with_the_error_number(e: VtError)
    ensures
        ({
            let said = error_text(e);
            let number = "errno "@ + text::signed_decimal(e.errno as int);
            if e.step == AcquireStep::OpenConsole {
                said.skip(19) == number + " (run as root?)"@
            } else {
                said.len() >= number.len() && said.skip(said.len() - number.len()) == number
            }
        }),
{
    reveal_strlit("errno ");
    reveal_strlit("open /dev/console: errno ");
    reveal_strlit("VT_GETSTATE: errno ");
    reveal_strlit("VT_OPENQRY: errno ");
    reveal_strlit(": errno ");
    reveal_strlit("VT_ACTIVATE: errno ");
    reveal_strlit("VT_WAITACTIVE: errno ");
    reveal_strlit("VT_LOCKSWITCH: errno ");
    let said = error_text(e);
    let digits = text::signed_decimal(e.errno as int);
    let number = "errno "@ + digits;
    if e.step == AcquireStep::OpenConsole {
        assert(said.skip(19) =~= number + " (run as root?)"@);
    } else {
        assert(said.skip(said.len() - number.len()) =~= number);
    }
}

} // verus!
