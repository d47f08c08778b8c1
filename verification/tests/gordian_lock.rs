use demiurge::config::Config;
use demiurge::gordian_knot::inhibit::Watcher;
use demiurge::gordian_knot::landlock;
use demiurge::gordian_knot::privsep;
use demiurge::gordian_knot::privsep::{DropError, DropStep, WaitStep};
use demiurge::gordian_knot::sysinfo::SystemInfo;
use demiurge::gordian_knot::vt;
use demiurge::gordian_knot::vt::{AcquireStep, LineStep, PromptStep, ReleaseAction, VtSession};
use demiurge::gordian_knot::x11_lock;
use demiurge::gordian_knot::x11_lock::{
    AuthResult, GrabStep, KeyOutcome, LockError, LoopOutcome, UiState,
};

#[test]
fn lock_defaults_are_those_of_the_readme() {
    let cfg = Config::default();
    assert_eq!(cfg.gordian_knot.bg, "#121212");
    assert_eq!(cfg.gordian_knot.fg, "#c8c8c8");
    assert_eq!(cfg.gordian_knot.accent, "#e5a93d");
    assert_eq!(cfg.gordian_knot.font, "monospace 12");
    assert_eq!(cfg.gordian_knot.idle_timeout_seconds, 600);
    assert_eq!(cfg.gordian_knot.prompt, "PASSWORD");
}

#[test]
fn idle_lock_comes_before_the_locker_default() {
    let mut cfg = Config::default();
    assert_eq!(cfg.lock_timeout(), 600);
    cfg.input.idle.lock_seconds = 42;
    assert_eq!(cfg.lock_timeout(), 42);
}

#[test]
fn exit_codes_of_children() {
    assert_eq!(privsep::exit_code(0), 0);
    assert_eq!(privsep::exit_code(3 << 8), 3);
    assert_eq!(privsep::exit_code(0xff00), 255);
    assert_eq!(privsep::exit_code(9), -1);
}

#[test]
fn waiting_goes_on_after_an_interruption() {
    assert_eq!(privsep::wait_child(-1, true, 0), WaitStep::Again);
    assert_eq!(privsep::wait_child(-1, false, 0), WaitStep::Ended(-1));
    assert_eq!(privsep::wait_child(77, false, 2 << 8), WaitStep::Ended(2));
    assert_eq!(privsep::wait_child(77, true, 15), WaitStep::Ended(-1));
}

#[test]
fn privileges_go_in_order() {
    let mut step = DropStep::SetGroup;
    for next in [DropStep::SetUser, DropStep::NoNewPrivs, DropStep::Done] {
        step = privsep::drop_to_real_user(step, true, 1000, 1000).unwrap();
        assert_eq!(step, next);
    }
}

#[test]
fn each_privilege_step_can_fail() {
    let fail = |s| privsep::drop_to_real_user(s, false, 1000, 1000).unwrap_err();
    assert_eq!(fail(DropStep::SetGroup), DropError::SetGroup);
    assert_eq!(fail(DropStep::SetUser), DropError::SetUser);
    assert_eq!(fail(DropStep::NoNewPrivs), DropError::NoNewPrivs);
    let still = privsep::drop_to_real_user(DropStep::SetUser, true, 1000, 0).unwrap_err();
    assert_eq!(still, DropError::StillRoot);
    assert!(privsep::drop_to_real_user(DropStep::SetUser, true, 0, 0).is_ok());
}

#[test]
fn privilege_messages() {
    assert_eq!(DropError::SetGroup.message("EPERM"), "setresgid: EPERM");
    assert_eq!(DropError::SetUser.message("EPERM"), "setresuid: EPERM");
    assert_eq!(
        DropError::StillRoot.message("x"),
        "setresuid did not take effect (still euid 0)"
    );
    assert_eq!(DropError::NoNewPrivs.message("EINVAL"), "PR_SET_NO_NEW_PRIVS: EINVAL");
}

#[test]
fn inhibitor_answer_is_kept_for_its_interval() {
    let mut w = Watcher::new();
    assert_eq!(w.is_idle_inhibited(0), None);
    let whats = Some(vec!["sleep".to_string(), "shutdown:idle".to_string()]);
    assert!(w.note(1000, &whats));
    assert_eq!(w.is_idle_inhibited(5999), Some(true));
    assert_eq!(w.is_idle_inhibited(6000), None);
    assert!(!w.note(6000, &None));
    assert_eq!(w.is_idle_inhibited(6001), Some(false));
    assert!(!w.note(12000, &Some(vec!["sleep".to_string()])));
}

#[test]
fn console_is_acquired_step_by_step() {
    let mut s = VtSession::new();
    let mut step = AcquireStep::OpenConsole;
    for value in [5, 2, 8, 6, 0, 0, 0, 0] {
        step = vt::acquire(&mut s, step, value, 0).unwrap();
    }
    assert_eq!(step, AcquireStep::Done);
    assert_eq!(s.console_fd, 5);
    assert_eq!(s.prev_vt, 2);
    assert_eq!(s.tty_num, 8);
    assert_eq!(s.tty_fd, 6);
    assert!(s.switch_locked && s.term_saved);
    assert_eq!(
        vt::release(&mut s),
        vec![
            ReleaseAction::RestoreTerm { tty_fd: 6 },
            ReleaseAction::UnlockSwitch { console_fd: 5 },
            ReleaseAction::Activate { console_fd: 5, vt: 2 },
            ReleaseAction::WaitActive { console_fd: 5, vt: 2 },
            ReleaseAction::CloseTty { tty_fd: 6 },
            ReleaseAction::Disallocate { console_fd: 5, tty_num: 8 },
            ReleaseAction::CloseConsole { console_fd: 5 },
        ]
    );
    assert_eq!(vt::release(&mut s), vec![]);
}

#[test]
fn console_errors_say_where() {
    let mut s = VtSession::new();
    let e = vt::acquire(&mut s, AcquireStep::OpenConsole, -1, 13).unwrap_err();
    assert_eq!(e.message(), "open /dev/console: errno 13 (run as root?)");
    s.tty_num = 7;
    let e = vt::acquire(&mut s, AcquireStep::OpenTty, -1, 5).unwrap_err();
    assert_eq!(e.message(), "open /dev/tty7: errno 5");
    let e = vt::acquire(&mut s, AcquireStep::LockSwitch, -1, 1).unwrap_err();
    assert_eq!(e.message(), "VT_LOCKSWITCH: errno 1");
    assert_eq!(vt::acquire(&mut s, AcquireStep::SaveTerm, -1, 1), Ok(AcquireStep::Done));
    assert!(!s.term_saved);
}

#[test]
fn password_line_echoes_dots() {
    let mut line: Vec<char> = Vec::new();
    assert_eq!(vt::read_password_byte(&mut line, b'a'), (LineStep::More, "\u{25cf}".to_string()));
    assert_eq!(vt::read_password_byte(&mut line, b'~'), (LineStep::More, "\u{25cf}".to_string()));
    assert_eq!(vt::read_password_byte(&mut line, 0x01), (LineStep::More, String::new()));
    assert_eq!(line, vec!['a', '~']);
    assert_eq!(vt::read_password_byte(&mut line, 0x7f), (LineStep::More, "\x08 \x08".to_string()));
    assert_eq!(line, vec!['a']);
    vt::read_password_byte(&mut line, b'b');
    assert_eq!(
        vt::read_password_byte(&mut line, 0x15),
        (LineStep::More, "\x08 \x08\x08 \x08".to_string())
    );
    assert!(line.is_empty());
    assert_eq!(vt::read_password_byte(&mut line, 0x08), (LineStep::More, String::new()));
    assert_eq!(vt::read_password_byte(&mut line, b'\r'), (LineStep::Done, "\r\n".to_string()));
}

#[test]
fn console_prompt_ends_with_the_right_password_alone() {
    assert_eq!(vt::prompt_step(Some(true)), PromptStep::Exit(0));
    assert_eq!(vt::prompt_step(Some(false)), PromptStep::Retry);
    assert_eq!(vt::prompt_step(None), PromptStep::Exit(1));
}

#[test]
fn console_text_names_host_and_user() {
    let info = SystemInfo {
        hostname: "box".to_string(),
        kernel: "6.1".to_string(),
        date: "Monday".to_string(),
        time: "12:00".to_string(),
        uptime: "0D 0H 0M 1S".to_string(),
    };
    let ui = vt::render_text_ui(&info, "ann", "PASSWORD");
    for part in ["box", "6.1", "Monday", "12:00", "0D 0H 0M 1S", "ann", "PASSWORD"] {
        assert!(ui.contains(part), "{} is missing in {:?}", part, ui);
    }
}

fn fresh_ui() -> UiState {
    UiState { password: Vec::new(), message: String::new(), last_tick: 0 }
}

#[test]
fn keys_edit_the_password() {
    let mut ui = fresh_ui();
    for c in "abc".chars() {
        assert_eq!(x11_lock::on_key_press(&mut ui, c as u32), KeyOutcome::Redraw);
    }
    assert_eq!(x11_lock::password_dots(&ui), "\u{25cf}\u{25cf}\u{25cf}");
    assert_eq!(x11_lock::on_key_press(&mut ui, 0xff08), KeyOutcome::Redraw);
    assert_eq!(ui.password, vec!['a', 'b']);
    assert_eq!(x11_lock::on_key_press(&mut ui, 0xffe1), KeyOutcome::Nothing);
    assert_eq!(x11_lock::on_key_press(&mut ui, 0xff0d), KeyOutcome::Submit);
    assert_eq!(x11_lock::on_key_press(&mut ui, 0xff8d), KeyOutcome::Submit);
    assert_eq!(ui.password, vec!['a', 'b']);
    assert_eq!(x11_lock::on_key_press(&mut ui, 0xff1b), KeyOutcome::Redraw);
    assert!(ui.password.is_empty());
}

#[test]
fn refused_password_is_forgotten() {
    let mut ui = fresh_ui();
    x11_lock::on_key_press(&mut ui, 'x' as u32);
    assert!(!x11_lock::has_message(&ui));
    assert_eq!(
        x11_lock::on_auth_result(&mut ui, AuthResult::WrongCredentials),
        LoopOutcome::Redraw
    );
    assert!(ui.password.is_empty());
    assert_eq!(ui.message, "Authentication failed");
    assert!(x11_lock::has_message(&ui));
    x11_lock::on_auth_result(&mut ui, AuthResult::Failed("no service".to_string()));
    assert_eq!(ui.message, "no service");
    assert_eq!(
        x11_lock::on_auth_result(&mut ui, AuthResult::Accepted),
        LoopOutcome::Authenticated
    );
}

#[test]
fn lock_clock_ticks_once_a_second() {
    let mut ui = fresh_ui();
    assert!(!x11_lock::tick(&mut ui, 999));
    assert!(x11_lock::tick(&mut ui, 1000));
    assert_eq!(ui.last_tick, 1000);
    assert!(!x11_lock::tick(&mut ui, 1999));
}

#[test]
fn grabs_are_tried_fifty_times() {
    assert_eq!(x11_lock::grab_input(0, true, true), GrabStep::Granted);
    assert_eq!(x11_lock::grab_input(0, true, false), GrabStep::RetryAfter(100));
    assert_eq!(x11_lock::grab_input(48, false, true), GrabStep::RetryAfter(100));
    assert_eq!(x11_lock::grab_input(49, false, true), GrabStep::GiveUp);
}

#[test]
fn lock_errors_say_what_failed() {
    assert_eq!(LockError::Connect("no display".to_string()).message(), "X11 connect: no display");
    assert_eq!(LockError::GrabFailed.message(), "keyboard/pointer grab failed");
    assert_eq!(LockError::Runtime("gone".to_string()).message(), "x11 runtime: gone");
}

#[test]
fn locker_may_write_nothing() {
    assert_eq!(landlock::HANDLED, 0x1fff);
    assert_eq!(landlock::handled(1), 0x1fff);
    assert_eq!(landlock::handled(3), 0x5fff);
    let rules = landlock::sandbox_rules();
    assert!(!rules.is_empty());
    for r in rules {
        assert_eq!(r.access & landlock::WRITES, 0);
        assert!(r.access == landlock::READ_ONLY || r.access == landlock::READ_EXECUTE, "{}", r.path);
        assert!(!r.path.starts_with("/home"));
    }
}

#[test]
fn rows_of_the_lock_panels() {
    let t = |s: &str| s.to_string();
    let info = SystemInfo {
        hostname: t("h"),
        kernel: t("k"),
        date: t("d"),
        time: t("t"),
        uptime: t("u"),
    };
    let rows = x11_lock::system_rows(&info);
    let shown: Vec<(&str, &str)> = rows.iter().map(|r| (r.label, r.value)).collect();
    assert_eq!(
        shown,
        vec![("HOSTNAME", "h"), ("KERNEL", "k"), ("DATE", "d"), ("TIME", "t"), ("UPTIME", "u")]
    );
    let rows = x11_lock::user_rows("me", "PASSWORD", "**");
    let shown: Vec<(&str, &str)> = rows.iter().map(|r| (r.label, r.value)).collect();
    assert_eq!(shown, vec![("USER", "me"), ("PASSWORD", "**")]);
}
