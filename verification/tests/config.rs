use std::path::PathBuf;

use demiurge::action::{self, Action};
use demiurge::appearance;
use demiurge::cli::{self, Invocation, PollStep, SignalStep};
use demiurge::config::{self, Config, ConfigError, Keybind, TaggedSpawn};
use demiurge::dsr::Dsr;
use demiurge::keys::{self, KeyMap};
use demiurge::torrentius::{self, Rgb, ShortImage};

fn strings(v: &[&str]) -> Vec<String> {
    v.iter().map(|s| s.to_string()).collect()
}

fn args(v: &[&str]) -> Vec<String> {
    let mut all = vec!["demiurge".to_string()];
    all.extend(strings(v));
    all
}

fn bind(mods: &[&str], action: &str) -> Keybind {
    Keybind {
        mods: strings(mods),
        key: "x".to_string(),
        action: action.to_string(),
        args: None,
    }
}

fn fault(c: &Config) -> String {
    config::validate(c).unwrap_err().message("1.5")
}

#[test]
fn defaults_are_accepted() {
    let c = Config::default();
    assert!(config::validate(&c).is_ok());
    assert_eq!(c.general.tags, strings(&["X", "Y", "Z"]));
    assert_eq!(c.general.default_layout, "floating");
    assert_eq!(f64::from_bits(c.general.master_ratio), 0.5);
    assert_eq!(c.bar.height, 40);
    assert_eq!(c.bar.font, "Noto Sans 9");
    assert_eq!(c.bar.tag_focused_bg, "#4A4881");
}

#[test]
fn tags_must_not_be_empty() {
    let mut c = Config::default();
    c.general.tags = Vec::new();
    assert_eq!(fault(&c), "general.tags must not be empty");
}

#[test]
fn master_ratio_is_a_fraction() {
    let mut c = Config::default();
    for bad in [0.0f64, -0.0, 1.0, 1.5, -0.1, f64::NAN, f64::INFINITY] {
        c.general.master_ratio = bad.to_bits();
        assert!(matches!(config::validate(&c), Err(ConfigError::MasterRatio(_))), "{}", bad);
    }
    assert_eq!(fault(&c), "general.master_ratio must be between 0.0 and 1.0, got 1.5");
    for good in [f64::MIN_POSITIVE, 0.5, 0.999] {
        c.general.master_ratio = good.to_bits();
        assert!(config::validate(&c).is_ok(), "{}", good);
    }
}

#[test]
fn layout_must_be_known() {
    let mut c = Config::default();
    c.general.default_layout = "spiral".to_string();
    assert_eq!(fault(&c), "general.default_layout: unknown layout 'spiral'");
}

#[test]
fn startup_spawns_are_checked() {
    let mut c = Config::default();
    c.startup.spawn.push(TaggedSpawn {
        cmd: "montauk".to_string(),
        tag: "Q".to_string(),
        class: None,
    });
    assert_eq!(fault(&c), "startup.spawn[0]: tag 'Q' not in general.tags");
    c.startup.spawn[0].tag = "Z".to_string();
    c.startup.spawn[0].cmd = "  ".to_string();
    assert_eq!(fault(&c), "startup.spawn[0]: cmd must not be empty");
}

#[test]
fn keybinds_are_checked() {
    let mut c = Config::default();
    c.keybinds = vec![bind(&["Super"], "quit"), bind(&["hyper"], "quit")];
    assert_eq!(fault(&c), "keybind[1]: unknown modifier 'hyper'");
    c.keybinds = vec![bind(&["Super"], "dance")];
    assert_eq!(fault(&c), "keybind[0]: unknown action 'dance'");
    assert!(config::validate_action("dance", 0).is_err());
    assert!(config::validate_action("view_tag", 0).is_ok());
}

#[test]
fn class_of_a_spawn_is_its_first_word() {
    let mut s = TaggedSpawn {
        cmd: "kitty -e montauk".to_string(),
        tag: "X".to_string(),
        class: None,
    };
    assert_eq!(s.class_match(), "kitty");
    s.class = Some("montauk".to_string());
    assert_eq!(s.class_match(), "montauk");
}

#[test]
fn paths_keep_the_given_file() {
    let p = config::Paths::with_config(PathBuf::from("/tmp/c.toml"));
    assert_eq!(p.config_file, PathBuf::from("/tmp/c.toml"));
}

#[test]
fn actions_by_name() {
    assert!(matches!(action::named("mru_next_global"), Some(Action::MruNextGlobal)));
    assert!(action::named("view_tag").is_none());
    assert!(action::is_known("view_tag"));
    assert!(!action::is_known("View_Tag"));
}

#[test]
fn tags_count_from_one() {
    assert_eq!(action::tag_of("1"), Some(0));
    assert_eq!(action::tag_of("12"), Some(11));
    assert_eq!(action::tag_of("0"), None);
    assert_eq!(action::tag_of("x"), None);
}

#[test]
fn bindings_take_their_argument() {
    let two = Some("2".to_string());
    assert!(matches!(action::bound("view_tag", &two), Some(Action::ViewTag(1))));
    assert!(matches!(action::bound("move_to_tag", &two), Some(Action::MoveToTag(1))));
    assert!(matches!(action::bound("spawn", &two), Some(Action::Spawn(c)) if c == "2"));
    assert!(action::bound("view_tag", &None).is_none());
    assert!(matches!(action::bound("lock", &None), Some(Action::Lock)));
}

#[test]
fn command_line_of_the_window_manager() {
    let run = |v: &[&str]| match cli::parse_args(&args(v)) {
        Invocation::Run(a) => a,
        other => panic!("{:?}", other),
    };
    assert_eq!(run(&[]).config_path, None);
    let a = run(&["-c", "a.toml", "--setup", "--check-config", "--config", "b.toml"]);
    assert_eq!(a.config_path, Some("b.toml".to_string()));
    assert!(a.setup && a.check_config);
    assert!(matches!(cli::parse_args(&args(&["--config"])), Invocation::MissingPath));
    assert!(matches!(cli::parse_args(&args(&["-v"])), Invocation::Version));
    assert!(matches!(cli::parse_args(&args(&["--setup", "-h"])), Invocation::Help));
    assert!(matches!(cli::parse_args(&args(&["-x"])), Invocation::Unknown(a) if a == "-x"));
}

#[test]
fn waits_and_signals() {
    assert_eq!(cli::poll_step(false, false), PollStep::Handle);
    assert_eq!(cli::poll_step(true, true), PollStep::Again);
    assert_eq!(cli::poll_step(true, false), PollStep::Stop);
    assert_eq!(cli::signal_step(17), SignalStep::Reap);
    assert_eq!(cli::signal_step(2), SignalStep::Shutdown);
    assert_eq!(cli::signal_step(15), SignalStep::Shutdown);
    assert_eq!(cli::signal_step(1), SignalStep::Ignore);
}

#[test]
fn settings_files_of_the_toolkits() {
    let mut c = Config::default();
    c.font.default = "Sans 10".to_string();
    c.cursor.theme = "Adwaita".to_string();
    c.cursor.size = 24;
    assert_eq!(
        appearance::icons_default("Adwaita"),
        "[Icon Theme]\nName=Default\nComment=Default Cursor Theme\nInherits=Adwaita\n"
    );
    assert_eq!(
        appearance::gtk2_settings(&c),
        "gtk-font-name=\"Sans 10\"\ngtk-cursor-theme-name=\"Adwaita\"\ngtk-cursor-theme-size=24\n"
    );
    assert_eq!(appearance::cursor_size_text(&c), "24");
    let merged = appearance::merge_gtk_settings("", &appearance::gtk3_settings(&c));
    assert_eq!(
        merged,
        "[Settings]\ngtk-font-name=Sans 10\ngtk-cursor-theme-name=Adwaita\n\
         gtk-cursor-theme-size=24\n"
    );
    let again = appearance::merge_gtk_settings(&merged, &appearance::gtk3_settings(&c));
    assert_eq!(again, merged);
}

#[test]
fn merging_keeps_other_settings() {
    let existing = "[Settings]\n# note\ngtk-theme-name=Dark\n gtk-font-name = Old 9\n";
    let updates = vec![
        ("gtk-font-name".to_string(), "New 9".to_string()),
        ("gtk-cursor-theme-size".to_string(), "24".to_string()),
    ];
    assert_eq!(
        appearance::merge_gtk_settings(existing, &updates),
        "[Settings]\n# note\ngtk-theme-name=Dark\ngtk-font-name=New 9\ngtk-cursor-theme-size=24\n"
    );
}

#[test]
fn merging_adds_a_missing_header() {
    let updates = vec![("a".to_string(), "1".to_string())];
    assert_eq!(appearance::merge_gtk_settings("b=2", &updates), "[Settings]\nb=2\na=1\n");
}

#[test]
fn merging_drops_one_trailing_blank_line_each_time() {
    let updates = vec![("a".to_string(), "1".to_string())];
    let once = appearance::merge_gtk_settings("[Settings]\na=1\n\n\n", &updates);
    let twice = appearance::merge_gtk_settings(&once, &updates);
    assert_eq!(once, "[Settings]\na=1\n\n");
    assert_eq!(twice, "[Settings]\na=1\n");
}

#[test]
fn colours_in_hexadecimal() {
    assert_eq!(torrentius::parse_hex("#4A4881"), Rgb { r: 0x4a, g: 0x48, b: 0x81 });
    assert_eq!(torrentius::parse_hex("ffffff"), Rgb { r: 255, g: 255, b: 255 });
    assert_eq!(torrentius::parse_hex("#12345"), Rgb { r: 0, g: 0, b: 0 });
    let black = Rgb { r: 0, g: 0, b: 0 };
    for bad in ["#zz10zz", "#zz00ff", "#00zzff", "#ff00zz", "", "#", "é1é2é3", "a\u{20ac}bcd"] {
        assert_eq!(torrentius::parse_hex(bad), black, "{}", bad);
    }
    assert_eq!(torrentius::hex_to_pixel("#4A4881"), 0x4a4881);
    assert_eq!(torrentius::hex_to_pixel("#nope"), 0);
}

#[test]
fn pixel_has_the_channels_of_the_colour() {
    for text in ["#4A4881", "e5a93d", "#000000", "#ffffff", "#0102Fe"] {
        let p = torrentius::hex_to_pixel(text);
        let c = Rgb { r: (p >> 16) as u8, g: (p >> 8) as u8, b: p as u8 };
        assert_eq!(torrentius::parse_hex(text), c, "{}", text);
    }
}

#[test]
fn captured_rows_are_padded() {
    let src: Vec<u8> = (0..16).collect();
    let rows = torrentius::capture_rows(&src, 2, 2, 10).unwrap();
    assert_eq!(rows, vec![0, 1, 2, 3, 4, 5, 6, 7, 0, 0, 8, 9, 10, 11, 12, 13, 14, 15, 0, 0]);
    assert_eq!(
        torrentius::capture_rows(&src, 2, 3, 8),
        Err(ShortImage { got: 16, expected: 24 })
    );
}

#[test]
fn super_resolution_draws_larger_only() {
    assert!(!Dsr::new(1.0f64.to_bits()).active());
    assert!(!Dsr::new(0.5f64.to_bits()).active());
    assert!(!Dsr::new(f64::NAN.to_bits()).active());
    let mut d = Dsr::new(1.5f64.to_bits());
    assert!(d.active());
    assert_eq!(d.render_size(0, 300), (1, 300));
    assert!(d.needs_offscreen((100, 50)));
    d.allocated((100, 50));
    assert!(!d.needs_offscreen((100, 50)));
    assert!(d.needs_offscreen((100, 51)));
}

#[test]
fn keysyms_of_keys() {
    let m = KeyMap { min_keycode: 8, syms_per_code: 2, keysyms: vec![97, 65, 98, 66] };
    assert_eq!(keys::keycode_to_keysym(9, false, &m), 98);
    assert_eq!(keys::keycode_to_keysym(9, true, &m), 66);
    assert_eq!(keys::keycode_to_keysym(7, false, &m), 0);
    assert_eq!(keys::keycode_to_keysym(10, false, &m), 0);
}
