use demiurge::bar::{
    self, Bar, BarDirty, BarPanel, PromptState, Rect, TagStyle, TextPlace, KEY_BACKSPACE,
    KEY_ESCAPE, KEY_RETURN, KEY_TAB,
};
use demiurge::config::Config;
use demiurge::monitor::Monitor;
use demiurge::torrentius::Rgb;

fn names(v: &[&str]) -> Vec<String> {
    v.iter().map(|s| s.to_string()).collect()
}

fn screen(x: i32, width: u32) -> Monitor {
    Monitor { name: "A".to_string(), x, y: 0, width, height: 1080 }
}

fn a_bar() -> Bar {
    Bar::create(
        &Config::default(),
        &[screen(0, 1920), screen(1920, 1280)],
        &[100, 101],
        &names(&["X", "Y", "Z"]),
        140,
        names(&["firefox", "kitty", "kitten"]),
        "12:00".to_string(),
    )
}

fn typed(bar: &mut Bar, s: &str) {
    for c in s.chars() {
        assert_eq!(bar.handle_prompt_key(c as u32), None);
    }
}

fn input(bar: &Bar) -> String {
    bar.prompt.as_ref().unwrap().input.clone()
}

#[test]
fn regions_fill_the_panel() {
    let r = bar::region_rects(1920, 40, 140);
    assert_eq!(r.tags, Rect { x: 0, y: 0, w: 140, h: 40 });
    assert_eq!(r.prompt, Rect { x: 140, y: 0, w: 600, h: 40 });
    assert_eq!(r.title, Rect { x: 740, y: 0, w: 780, h: 40 });
    assert_eq!(r.clock, Rect { x: 1520, y: 0, w: 400, h: 40 });
}

#[test]
fn regions_of_a_narrow_panel_are_cut_short() {
    let r = bar::region_rects(800, 40, 100);
    assert_eq!(r.tags, Rect { x: 0, y: 0, w: 100, h: 40 });
    assert_eq!(r.prompt, Rect { x: 100, y: 0, w: 300, h: 40 });
    assert_eq!(r.title, Rect { x: 400, y: 0, w: 0, h: 40 });
    assert_eq!(r.clock, Rect { x: 400, y: 0, w: 400, h: 40 });
    let r = bar::region_rects(450, 40, 100);
    assert_eq!((r.tags.w, r.prompt.w, r.title.w, r.clock.x, r.clock.w), (50, 0, 0, 50, 400));
    let r = bar::region_rects(300, 40, i32::MAX);
    assert_eq!((r.tags.w, r.prompt.w, r.title.w, r.clock.x, r.clock.w), (0, 0, 0, 0, 300));
    assert_eq!(bar::region_rects(0, 0, 0), bar::region_rects(0, 0, 7));
    assert_eq!(bar::region_rects(0, 0, 0).title, Rect::default());
}

#[test]
fn prompt_is_settled_after_every_key() {
    let mut b = a_bar();
    b.start_prompt();
    let keys = [0x6b, 0x69, KEY_TAB, KEY_BACKSPACE, KEY_BACKSPACE, 0x78, 0xffe1, KEY_BACKSPACE];
    for k in keys {
        assert_eq!(b.handle_prompt_key(k), None);
        let p = b.prompt.as_ref().unwrap();
        assert_eq!(p.cursor, p.input.len());
        assert_eq!(p.completion, bar::find_completion(&b.path_executables, &p.input));
    }
    assert_eq!(input(&b), "kit");
    assert_eq!(b.handle_prompt_key(KEY_RETURN), Some("kit".to_string()));
}

#[test]
fn tag_strip_is_measured() {
    assert_eq!(bar::padded_tag("X"), "  X  ");
    assert_eq!(bar::tags_total_w(&Some(vec![10, 20, 30]), 3), 100);
    assert_eq!(bar::tags_total_w(&None, 3), 136);
}

#[test]
fn bar_has_a_panel_on_each_monitor() {
    let b = a_bar();
    assert_eq!(b.panels.len(), 2);
    assert_eq!(b.panels[1].window, 101);
    assert_eq!(b.panels[1].width, 1280);
    assert!(b.contains_window(100) && !b.contains_window(7));
    assert_eq!(b.height, 40);
    assert_eq!(b.colors.tag_focused_bg, Rgb { r: 0x4a, g: 0x48, b: 0x81 });
    assert!(b.dirty.all);
}

#[test]
fn strut_reserves_the_top_of_a_monitor() {
    assert_eq!(bar::strut(&screen(1920, 1280), 40), [0, 0, 40, 0, 0, 0, 0, 0, 1920, 3199, 0, 0]);
}

#[test]
fn clock_tick_sends_the_clock_alone() {
    let mut b = a_bar();
    assert_eq!(b.commit().map(|d| d.all), Some(true));
    assert_eq!(b.commit(), None);
    b.mark_clock_dirty("12:00".to_string());
    assert_eq!(b.commit(), None);
    b.mark_clock_dirty("12:01".to_string());
    let d = b.commit().unwrap();
    assert!(d.clock && !d.tags && !d.prompt && !d.title && !d.all);
    let rects = bar::rects_to_push(d, b.panels[0], 40);
    assert_eq!(rects, vec![b.panels[0].rects.clock]);
    assert_eq!(b.last_clock_text, "12:01");
}

#[test]
fn stale_panel_is_sent_whole() {
    let b = a_bar();
    let d = BarDirty { tags: true, prompt: false, title: false, clock: false, all: true };
    assert!(d.any());
    assert_eq!(
        bar::rects_to_push(d, b.panels[0], 40),
        vec![Rect { x: 0, y: 0, w: 1920, h: 40 }]
    );
}

#[test]
fn prompt_runs_what_was_typed() {
    let mut b = a_bar();
    b.start_prompt();
    typed(&mut b, "ls -l");
    assert_eq!(b.handle_prompt_key(KEY_RETURN), Some("ls -l".to_string()));
    assert!(b.prompt.is_none());
}

#[test]
fn prompt_can_be_left() {
    let mut b = a_bar();
    b.start_prompt();
    typed(&mut b, "x");
    assert_eq!(b.handle_prompt_key(KEY_ESCAPE), None);
    assert!(b.prompt.is_none());
    b.start_prompt();
    assert_eq!(b.handle_prompt_key(KEY_RETURN), None);
    assert!(b.prompt.is_none());
    assert_eq!(b.handle_prompt_key(KEY_RETURN), None);
}

#[test]
fn completion_is_accepted_with_tab() {
    let mut b = a_bar();
    b.start_prompt();
    typed(&mut b, "kit");
    assert_eq!(
        b.prompt.as_ref().unwrap().completion,
        Some("kitty".to_string())
    );
    assert_eq!(b.prompt.as_ref().unwrap().ghost_text(), Some("ty".to_string()));
    assert_eq!(b.handle_prompt_key(KEY_TAB), None);
    assert_eq!(input(&b), "kitty");
    assert_eq!(b.handle_prompt_key(KEY_RETURN), Some("kitty".to_string()));
}

#[test]
fn backspace_takes_a_character_back() {
    let mut b = a_bar();
    b.start_prompt();
    typed(&mut b, "ab");
    b.handle_prompt_key(KEY_BACKSPACE);
    assert_eq!(input(&b), "a");
    b.handle_prompt_key(KEY_BACKSPACE);
    b.handle_prompt_key(KEY_BACKSPACE);
    assert_eq!(input(&b), "");
}

#[test]
fn cursor_counts_bytes() {
    let mut b = a_bar();
    b.path_executables = names(&["caf\u{e9}"]);
    b.start_prompt();
    typed(&mut b, "ca");
    assert_eq!(b.handle_prompt_key(KEY_TAB), None);
    let p = b.prompt.as_ref().unwrap();
    assert_eq!((p.input.as_str(), p.cursor), ("caf\u{e9}", 5));
    assert_eq!(p.before_cursor(), "> caf\u{e9}");
    typed(&mut b, "x");
    let p = b.prompt.as_ref().unwrap();
    assert_eq!((p.input.as_str(), p.cursor), ("caf\u{e9}x", 6));
    b.handle_prompt_key(KEY_BACKSPACE);
    assert_eq!((input(&b).as_str(), b.prompt.as_ref().unwrap().cursor), ("caf\u{e9}", 5));
}

#[test]
fn cursor_inside_the_text() {
    let mut b = a_bar();
    let input_text = "\u{20ac}ab".to_string();
    b.prompt = Some(PromptState { input: input_text, cursor: 4, completion: None });
    assert_eq!(b.prompt.as_ref().unwrap().before_cursor(), "> \u{20ac}a");
    typed(&mut b, "z");
    assert_eq!(input(&b), "\u{20ac}azb");
    b.handle_prompt_key(KEY_BACKSPACE);
    b.handle_prompt_key(KEY_BACKSPACE);
    assert_eq!((input(&b).as_str(), b.prompt.as_ref().unwrap().cursor), ("\u{20ac}b", 3));
}

#[test]
fn prompt_parts() {
    let p = PromptState { input: "run".to_string(), cursor: 2, completion: None };
    assert_eq!(p.shown(), "> run");
    assert_eq!(p.before_cursor(), "> ru");
    assert_eq!(p.ghost_text(), None);
}

#[test]
fn completions_come_in_order() {
    let e = names(&["apt", "awk"]);
    assert_eq!(bar::find_completion(&e, "a"), Some("apt".to_string()));
    assert_eq!(bar::find_completion(&e, "aw"), Some("awk".to_string()));
    assert_eq!(bar::find_completion(&e, ""), None);
    assert_eq!(bar::find_completion(&e, "x"), None);
}

#[test]
fn executables_are_sorted_and_unique() {
    let found = names(&["zsh", "awk", "zsh", "cat", "awk"]);
    assert_eq!(bar::executable_names(found), names(&["awk", "cat", "zsh"]));
    assert!(bar::is_executable(true, 0o755));
    assert!(!bar::is_executable(true, 0o644));
    assert!(!bar::is_executable(false, 0o755));
    let dirs: Vec<String> =
        bar::path_dirs("/bin:/usr/bin").into_iter().map(|d| d.into_iter().collect()).collect();
    assert_eq!(dirs, names(&["/bin", "/usr/bin"]));
}

#[test]
fn tags_are_drawn_one_behind_the_other() {
    let mut b = a_bar();
    let sizes = vec![(30, 20), (32, 20), (34, 20)];
    let cells = b.render_tags(0, &sizes, 1, &vec![true, false, false]);
    let xs: Vec<i32> = cells.iter().map(|c| c.x).collect();
    assert_eq!(xs, vec![20, 50, 82]);
    assert_eq!(cells[0].y, 10);
    assert_eq!(cells[0].style, TagStyle::Occupied);
    assert_eq!(cells[1].style, TagStyle::Focused);
    assert_eq!(cells[2].style, TagStyle::Empty);
    assert_eq!(b.tag_extents, vec![(20, 50), (50, 82), (82, 116)]);
}

#[test]
fn title_is_centred_within_its_region() {
    let r = bar::region_rects(1920, 40, 140).title;
    assert_eq!(bar::title_width(0, r, "hello"), Some(740));
    assert_eq!(bar::title_width(1, r, "hello"), None);
    assert_eq!(bar::title_width(0, r, ""), None);
    assert_eq!(bar::title_place(1920, r, 200, 20), TextPlace { x: 860, y: 10 });
    assert_eq!(bar::title_place(1920, r, 740, 20), TextPlace { x: 760, y: 10 });
}

#[test]
fn clock_is_flush_right() {
    let r = bar::region_rects(1920, 40, 140).clock;
    assert_eq!(bar::clock_place(1920, r, 100, 20), TextPlace { x: 1810, y: 10 });
}

#[test]
fn markup_is_escaped() {
    assert_eq!(bar::escape_markup("a<b>&\"c'"), "a&lt;b&gt;&amp;&quot;c&apos;");
    let m = bar::clock_markup("1<2");
    assert!(m.contains("1&lt;2") && m.starts_with("<span"), "{}", m);
}

#[test]
fn region_bytes_are_cut_row_by_row() {
    let full: Vec<u8> = (0..48).collect();
    let r = Rect { x: 1, y: 1, w: 1, h: 2 };
    assert_eq!(bar::region_bytes(&full, r, 16), Some(vec![20, 21, 22, 23, 36, 37, 38, 39]));
    assert_eq!(bar::region_bytes(&full, Rect { w: 0, ..r }, 16), None);
}

#[test]
fn new_appearance_is_taken_up() {
    let mut b = a_bar();
    b.commit();
    let mut c = Config::default();
    c.bar.height = 30;
    c.bar.fg = "#010203".to_string();
    assert!(b.update_appearance(&c, 200));
    assert_eq!(b.height, 30);
    assert_eq!(b.colors.fg, Rgb { r: 1, g: 2, b: 3 });
    assert_eq!(b.panels[0].rects.tags, Rect { x: 0, y: 0, w: 200, h: 30 });
    assert!(b.dirty.all);
}

#[test]
fn panels_are_plain_data() {
    let rects = bar::region_rects(1920, 40, 140);
    let p = BarPanel { window: 1, width: 1920, rects };
    assert_eq!(p, BarPanel { window: 1, ..p });
}
