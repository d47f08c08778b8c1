use demiurge::spawn::{needs_shell, spawn, Children, SpawnPlan};

#[test]
fn simple_command_direct() {
    assert!(!needs_shell("kitty"));
    assert!(!needs_shell("physlock"));
}

#[test]
fn multi_arg_no_metachars_direct() {
    assert!(!needs_shell("brightnessctl set 5%+"));
    assert!(!needs_shell("brightnessctl set 5%-"));
    assert!(!needs_shell("wpctl set-volume @DEFAULT_AUDIO_SINK@ 5%+"));
    assert!(!needs_shell("wpctl set-mute @DEFAULT_AUDIO_SOURCE@ toggle"));
}

#[test]
fn dollar_var_needs_shell() {
    assert!(needs_shell("flameshot gui -p $HOME"));
    assert!(needs_shell("flameshot full -p $HOME"));
}

#[test]
fn pipe_needs_shell() {
    assert!(needs_shell("echo hello | grep o"));
}

#[test]
fn redirect_needs_shell() {
    assert!(needs_shell("echo hi > /tmp/out"));
}

#[test]
fn tilde_needs_shell() {
    assert!(needs_shell("kitty -d ~"));
}

#[test]
fn glob_needs_shell() {
    assert!(needs_shell("rm /tmp/foo*"));
}

#[test]
fn semicolon_needs_shell() {
    assert!(needs_shell("a ; b"));
}

fn words(plan: SpawnPlan) -> Vec<String> {
    match plan {
        SpawnPlan::Direct(ws) => ws.into_iter().map(|w| w.into_iter().collect()).collect(),
        other => panic!("not a direct plan: {:?}", other),
    }
}

#[test]
fn direct_plan_holds_the_words() {
    assert_eq!(words(spawn("brightnessctl  set 5%+")), vec!["brightnessctl", "set", "5%+"]);
}

#[test]
fn shell_plan_holds_the_line() {
    assert!(matches!(spawn("echo $HOME"), SpawnPlan::Shell(l) if l == "echo $HOME"));
}

#[test]
fn blank_command_is_not_run() {
    assert!(matches!(spawn("   "), SpawnPlan::Nothing));
    assert!(matches!(spawn(""), SpawnPlan::Nothing));
}

#[test]
fn line_with_a_zero_is_not_run() {
    assert!(matches!(spawn("echo $HOME\0"), SpawnPlan::Nothing));
}

#[test]
fn children_are_tracked_until_forgotten() {
    let mut c = Children::new();
    c.track(10);
    c.track(11);
    c.track(10);
    c.track(0);
    c.track(-1);
    let mut live = c.quit_children();
    live.sort();
    assert_eq!(live, vec![10, 11]);
    c.forget(10);
    c.forget(99);
    assert_eq!(c.quit_children(), vec![11]);
}
