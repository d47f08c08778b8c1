use demiurge::config::TaggedSpawn;
use demiurge::event::{
    self, Ask, BarInfo, ButtonPress, ConfigureRequest, Event, MapRequest,
};
use demiurge::layout::Layout;
use demiurge::monitor::{self, CrtcArea, Monitor, Monitors, OutputReport};
use demiurge::mouse::{self, DragKind};
use demiurge::mru::{self, CycleScope, CycleState, CycleStep, MruRing};
use demiurge::wm::{self, Client, Geometry, Request, Wm};

fn screen(name: &str, x: i32, width: u32, height: u32) -> Monitor {
    Monitor { name: name.to_string(), x, y: 0, width, height }
}

fn two_screens() -> Monitors {
    Monitors::try_new(vec![screen("A", 0, 1000, 540), screen("B", 1000, 800, 640)]).unwrap()
}

fn one(lay: Layout) -> Wm {
    let ms = Monitors::single(screen("A", 0, 1000, 540));
    Wm::init(1, 3, lay, ms, vec![600], 40).unwrap()
}

fn two() -> Wm {
    Wm::init(1, 3, Layout::Floating, two_screens(), vec![500, 400], 40).unwrap()
}

fn client(window: u32, tag: usize) -> Client {
    Client {
        window,
        tag,
        x: 10,
        y: 60,
        w: 300,
        h: 200,
        fullscreen: false,
        floating: false,
        saved_floating: None,
        unmap_ignore: 0,
        title: format!("w{}", window),
    }
}

fn manage(wm: &mut Wm, window: u32) {
    let tag = wm.active_tags[wm.focused_monitor];
    wm.manage(client(window, tag), "term");
}

fn place(wm: &Wm, window: u32) -> (i32, i32, u32, u32) {
    let c = &wm.clients[wm.find_client(window)];
    (c.x, c.y, c.w, c.h)
}

fn no_bar() -> BarInfo {
    BarInfo { panels: Vec::new(), tag_extents: Vec::new(), prompt_open: false }
}

#[test]
fn fresh_monitors_show_tags_of_their_own() {
    let wm = two();
    assert_eq!(wm.active_tags, vec![0, 1]);
    assert_eq!(wm.focused_monitor, 0);
    assert!(wm.clients.is_empty());
    assert_eq!(wm.layouts, vec![Layout::Floating; 3]);
}

#[test]
fn monitors_without_room_are_refused() {
    let ms = Monitors::single(screen("A", 0, 1000, 30));
    assert!(Wm::init(1, 3, Layout::Tile, ms, vec![600], 40).is_none());
    let ms = Monitors::single(screen("A", 0, 1000, 540));
    assert!(Wm::init(1, 0, Layout::Tile, ms, vec![600], 40).is_none());
    let ms = Monitors::single(screen("A", 0, 1000, 540));
    assert!(Wm::init(1, 3, Layout::Tile, ms, vec![1001], 40).is_none());
    assert!(!wm::monitors_fit(&two_screens(), &vec![1], 40));
    assert!(wm::monitors_fit(&two_screens(), &vec![1, 800], 40));
}

#[test]
fn tiles_cover_the_work_area() {
    let mut wm = one(Layout::Tile);
    manage(&mut wm, 10);
    assert_eq!(place(&wm, 10), (0, 40, 1000, 500));
    manage(&mut wm, 11);
    manage(&mut wm, 12);
    manage(&mut wm, 13);
    assert_eq!(place(&wm, 10), (0, 40, 600, 500));
    assert_eq!(place(&wm, 11), (600, 40, 400, 166));
    assert_eq!(place(&wm, 12), (600, 206, 400, 166));
    assert_eq!(place(&wm, 13), (600, 372, 400, 168));
}

#[test]
fn floating_place_comes_back_after_a_cycle_of_layouts() {
    let mut wm = one(Layout::Floating);
    manage(&mut wm, 10);
    manage(&mut wm, 11);
    let before = place(&wm, 10);
    wm.toggle_layout();
    assert_eq!(wm.layouts[0], Layout::Tile);
    assert_ne!(place(&wm, 10), before);
    let requests = wm.toggle_layout();
    assert_eq!(wm.layouts[0], Layout::Monocle);
    assert_eq!(place(&wm, 10), (0, 40, 1000, 500));
    assert!(requests.contains(&Request::Raise(11)));
    wm.toggle_layout();
    assert_eq!(place(&wm, 10), before);
}

#[test]
fn floating_place_comes_back_after_many_tilings() {
    let mut wm = one(Layout::Floating);
    manage(&mut wm, 10);
    manage(&mut wm, 11);
    let before = (place(&wm, 10), place(&wm, 11));
    for lay in [Layout::Tile, Layout::Monocle, Layout::Tile, Layout::Tile] {
        wm.layouts[0] = lay;
        wm.arrange();
    }
    assert_ne!((place(&wm, 10), place(&wm, 11)), before);
    wm.layouts[0] = Layout::Floating;
    wm.arrange();
    assert_eq!((place(&wm, 10), place(&wm, 11)), before);
    assert!(wm.clients.iter().all(|c| c.saved_floating.is_none()));
}

#[test]
fn presses_go_round_the_ring() {
    for k in 1..8usize {
        let mut wm = one(Layout::Floating);
        for w in [10, 11, 12] {
            manage(&mut wm, w);
        }
        let m: Vec<u32> = wm.mru.as_slice().to_vec();
        for _ in 0..k {
            if let CycleStep::Grab(c) = mru::start_or_advance(&mut wm, true, CycleScope::All) {
                mru::begin_cycle(&mut wm, c, true);
            }
        }
        assert_eq!(wm.mru.as_slice(), m.as_slice());
        assert_eq!(mru::finish_cycle(&mut wm), vec![Request::UngrabKeyboard]);
        let mut expected = m.clone();
        let w = expected.remove(k % 3);
        expected.insert(0, w);
        assert_eq!(wm.mru.clone().as_slice(), expected.as_slice());
        assert!(wm.mru_cycle.is_none());
    }
}

#[test]
fn window_destroyed_during_a_cycle_stays_out_of_the_ring() {
    let mut wm = one(Layout::Floating);
    for w in [10, 11, 12] {
        manage(&mut wm, w);
    }
    if let CycleStep::Grab(c) = mru::start_or_advance(&mut wm, true, CycleScope::All) {
        mru::begin_cycle(&mut wm, c, true);
    }
    assert_eq!(wm.focus, Some(11));
    wm.unmanage(11);
    mru::finish_cycle(&mut wm);
    assert_eq!(wm.mru.as_slice(), &[12, 10]);
}

#[test]
fn move_that_an_application_asks_for() {
    let mut wm = one(Layout::Floating);
    manage(&mut wm, 10);
    assert!(mouse::start_csd_move(&mut wm, 10).is_some());
    mouse::begin_csd_move(&mut wm, 10, 5, 6);
    let d = wm.drag.unwrap();
    assert_eq!((d.kind, d.window, d.start_x, d.start_y), (DragKind::Move, 10, 5, 6));
    assert!(mouse::start_csd_move(&mut wm, 99).is_none());
}

#[test]
fn step_over_fewer_than_two_candidates_is_none() {
    let mut empty = CycleState::<u32> { candidates: Vec::new(), index: 5 };
    empty.advance(true);
    empty.advance(false);
    assert_eq!(empty.index, 5);
    let mut single = CycleState { candidates: vec![7u32], index: 3 };
    single.advance(true);
    assert_eq!((single.index, single.current()), (3, None));
}

#[test]
fn monitors_are_copied_whole() {
    let m = two_screens();
    assert!(m.clone() == m);
}

#[test]
fn viewing_a_shown_tag_swaps_the_monitors() {
    let mut wm = two();
    wm.view_tag(1);
    assert_eq!(wm.active_tags, vec![1, 0]);
    wm.view_tag(0);
    assert_eq!(wm.active_tags, vec![0, 1]);
    wm.view_tag(2);
    assert_eq!(wm.active_tags, vec![2, 1]);
}

#[test]
fn viewing_hides_what_is_no_longer_shown() {
    let mut wm = one(Layout::Floating);
    manage(&mut wm, 10);
    let requests = wm.view_tag(1);
    assert!(requests.contains(&Request::Hide(10)));
    assert_eq!(wm.clients[0].unmap_ignore, 1);
    assert_eq!(wm.focus, None);
    let requests = wm.view_tag(0);
    assert!(requests.contains(&Request::Show(10)));
    assert_eq!(wm.focus, Some(10));
}

#[test]
fn tags_step_round_the_end() {
    let mut wm = one(Layout::Floating);
    wm.view_step(false);
    assert_eq!(wm.active_tags, vec![2]);
    wm.view_step(true);
    assert_eq!(wm.active_tags, vec![0]);
}

#[test]
fn moving_to_a_hidden_tag_hides_the_window() {
    let mut wm = two();
    manage(&mut wm, 10);
    let requests = wm.move_to_tag(2);
    assert!(requests.contains(&Request::Hide(10)));
    assert_eq!(wm.clients[0].tag, 2);
    let mut wm = two();
    manage(&mut wm, 10);
    let requests = wm.move_to_tag(1);
    assert!(!requests.contains(&Request::Hide(10)));
    assert_eq!(wm.clients[0].tag, 1);
}

#[test]
fn plugging_keeps_what_is_shown() {
    let mut wm = one(Layout::Floating);
    wm.view_tag(1);
    wm.set_monitors(two_screens(), vec![500, 400]);
    assert_eq!(wm.active_tags, vec![1, 0]);
    wm.focused_monitor = 1;
    wm.set_monitors(Monitors::single(screen("A", 0, 1000, 540)), vec![500]);
    assert_eq!(wm.active_tags, vec![1]);
    assert_eq!(wm.focused_monitor, 0);
}

#[test]
fn startup_window_goes_to_its_tag() {
    let mut wm = one(Layout::Floating);
    let tags: Vec<String> = ["X", "Y", "Z"].iter().map(|s| s.to_string()).collect();
    let spawn = TaggedSpawn { cmd: "montauk".to_string(), tag: "Z".to_string(), class: None };
    assert!(wm.expect_spawn(&spawn, &tags));
    let lost = TaggedSpawn { cmd: "a".to_string(), tag: "Q".to_string(), class: None };
    assert!(!wm.expect_spawn(&lost, &tags));
    assert_eq!(wm.pending_spawns.len(), 1);
    wm.manage(client(10, 0), "montauk");
    assert_eq!(wm.clients[0].tag, 2);
    assert!(wm.pending_spawns.is_empty());
    wm.manage(client(11, 0), "montauk");
    assert_eq!(wm.clients[1].tag, 0);
}

#[test]
fn unmanaged_window_loses_the_focus() {
    let mut wm = one(Layout::Floating);
    manage(&mut wm, 10);
    manage(&mut wm, 11);
    assert_eq!(wm.focus, Some(11));
    wm.unmanage(11);
    assert_eq!(wm.focus, None);
    assert_eq!(wm.mru.as_slice(), &[10]);
    assert_eq!(wm.find_client(11), wm.clients.len());
    wm.unmanage(99);
    assert_eq!(wm.clients.len(), 1);
}

#[test]
fn ring_has_the_last_focused_first() {
    let mut ring: MruRing<u32> = MruRing::new();
    for w in [1, 2, 3, 2] {
        ring.on_focus(w);
    }
    assert_eq!(ring.as_slice(), &[2, 3, 1]);
    ring.on_focus(2);
    assert_eq!(ring.as_slice(), &[2, 3, 1]);
    ring.on_unmanage(3);
    assert_eq!(ring.as_slice(), &[2, 1]);
}

#[test]
fn cycling_ends_when_the_modifier_is_released() {
    let mut wm = one(Layout::Floating);
    for w in [10, 11, 12] {
        manage(&mut wm, w);
    }
    let candidates = match mru::start_or_advance(&mut wm, true, CycleScope::Tag) {
        CycleStep::Grab(c) => c,
        other => panic!("{:?}", other),
    };
    assert_eq!(candidates, vec![12, 11, 10]);
    mru::begin_cycle(&mut wm, candidates, true);
    assert_eq!(wm.focus, Some(11));
    assert_eq!(wm.mru.as_slice(), &[12, 11, 10]);
    assert!(matches!(
        mru::start_or_advance(&mut wm, true, CycleScope::Tag),
        CycleStep::Moved(_)
    ));
    assert_eq!(wm.focus, Some(10));
    assert!(mru::on_key_release(&mut wm, 30, &vec![64]).is_empty());
    assert!(mru::on_key_release(&mut wm, 64, &vec![64]).contains(&Request::UngrabKeyboard));
    assert_eq!(wm.mru.as_slice(), &[10, 12, 11]);
    assert!(wm.mru_cycle.is_none());
}

#[test]
fn cycle_of_one_window_is_none() {
    let mut wm = one(Layout::Floating);
    manage(&mut wm, 10);
    assert!(matches!(
        mru::start_or_advance(&mut wm, true, CycleScope::All),
        CycleStep::Nothing
    ));
}

#[test]
fn cycle_over_all_tags_shows_the_target() {
    let mut wm = one(Layout::Floating);
    manage(&mut wm, 10);
    wm.view_tag(1);
    manage(&mut wm, 11);
    assert!(matches!(
        mru::start_or_advance(&mut wm, true, CycleScope::Tag),
        CycleStep::Nothing
    ));
    let c = match mru::start_or_advance(&mut wm, true, CycleScope::All) {
        CycleStep::Grab(c) => c,
        other => panic!("{:?}", other),
    };
    mru::begin_cycle(&mut wm, c, true);
    assert_eq!(wm.active_tags, vec![0]);
    assert_eq!(wm.focus, Some(10));
}

#[test]
fn cycle_over_one_tag_stays_on_it() {
    let mut wm = two();
    manage(&mut wm, 10);
    manage(&mut wm, 11);
    let shown = wm.active_tags.clone();
    let tag = wm.active_tags[wm.focused_monitor];
    wm.view_tag(2);
    manage(&mut wm, 12);
    wm.view_tag(tag);
    assert_eq!(wm.active_tags, shown);
    let c = match mru::start_or_advance(&mut wm, true, CycleScope::Tag) {
        CycleStep::Grab(c) => c,
        other => panic!("{:?}", other),
    };
    assert_eq!(c, vec![11, 10]);
    mru::begin_cycle(&mut wm, c, true);
    assert_eq!(wm.focus, Some(10));
    assert_eq!(wm.active_tags, shown);
    mru::start_or_advance(&mut wm, true, CycleScope::Tag);
    assert_eq!(wm.focus, Some(11));
    assert_eq!(wm.active_tags, shown);
}

#[test]
fn dragging_moves_and_stops_at_the_bar() {
    let mut wm = one(Layout::Floating);
    manage(&mut wm, 10);
    assert!(mouse::start_drag(&mut wm, 10).is_some());
    mouse::begin_drag(&mut wm, DragKind::Move, 10, 100, 100);
    mouse::on_motion(&mut wm, 150, 120);
    assert_eq!(place(&wm, 10), (60, 80, 300, 200));
    let requests = mouse::on_motion(&mut wm, 100, 0);
    assert_eq!(place(&wm, 10), (10, 40, 300, 200));
    assert_eq!(requests, vec![Request::Move { window: 10, x: 10, y: 40 }]);
    mouse::on_motion(&mut wm, 100, 100);
    assert_eq!(place(&wm, 10), (10, 60, 300, 200));
    assert_eq!(mouse::end_drag(&mut wm), vec![Request::UngrabPointer]);
    assert!(wm.drag.is_none());
    assert!(mouse::on_motion(&mut wm, 0, 0).is_empty());
}

#[test]
fn resizing_keeps_a_least_size() {
    let mut wm = one(Layout::Floating);
    manage(&mut wm, 10);
    mouse::start_drag(&mut wm, 10);
    mouse::begin_drag(&mut wm, DragKind::Resize, 10, 500, 500);
    let requests = mouse::on_motion(&mut wm, 0, 510);
    assert_eq!(requests, vec![Request::Resize { window: 10, w: 50, h: 210 }]);
}

#[test]
fn dragging_takes_a_window_out_of_the_tiles() {
    let mut wm = one(Layout::Tile);
    manage(&mut wm, 10);
    manage(&mut wm, 11);
    mouse::start_drag(&mut wm, 10);
    assert!(wm.clients[wm.find_client(10)].floating);
    assert_eq!(place(&wm, 11), (0, 40, 1000, 500));
    let at = wm.find_client(11);
    wm.clients[at].fullscreen = true;
    assert!(mouse::start_csd_move(&mut wm, 11).is_none());
}

#[test]
fn drag_grabs_hold_under_each_lock_state() {
    assert_eq!(mouse::lock_masks(), [0, 2, 16, 18]);
    let grabs = mouse::drag_grabs();
    assert_eq!(grabs.len(), 8);
    assert!(grabs.contains(&(1, 64)) && grabs.contains(&(3, 82)));
}

#[test]
fn own_unmapping_keeps_the_client() {
    let mut wm = one(Layout::Floating);
    manage(&mut wm, 10);
    wm.view_tag(1);
    let keys: Vec<u8> = Vec::new();
    event::handle(&mut wm, &no_bar(), &keys, Event::UnmapNotify { event: 1, window: 10 });
    assert_eq!(wm.clients.len(), 1);
    event::handle(&mut wm, &no_bar(), &keys, Event::UnmapNotify { event: 9, window: 10 });
    assert_eq!(wm.clients.len(), 1);
    event::handle(&mut wm, &no_bar(), &keys, Event::UnmapNotify { event: 1, window: 10 });
    assert!(wm.clients.is_empty());
}

#[test]
fn new_window_is_shown_where_its_tag_is() {
    let mut wm = one(Layout::Floating);
    let map = |window, over| {
        Event::MapRequest(MapRequest {
            client: client(window, 0),
            class: "term".to_string(),
            override_redirect: over,
        })
    };
    let keys: Vec<u8> = Vec::new();
    let r = event::handle(&mut wm, &no_bar(), &keys, map(10, false));
    assert!(r.requests.contains(&Request::Show(10)));
    let r = event::handle(&mut wm, &no_bar(), &keys, map(11, true));
    assert!(r.requests.is_empty());
    assert_eq!(wm.clients.len(), 1);
}

#[test]
fn tiled_clients_do_not_configure_themselves() {
    let mut wm = one(Layout::Tile);
    manage(&mut wm, 10);
    let ask = ConfigureRequest {
        window: 10,
        x: Some(5),
        y: Some(5),
        width: None,
        height: None,
        border_width: None,
        sibling: None,
        stack_mode: None,
    };
    let keys: Vec<u8> = Vec::new();
    let r = event::handle(&mut wm, &no_bar(), &keys, Event::ConfigureRequest(ask));
    assert_eq!(
        r.ask,
        Ask::NotifyPlace { window: 10, x: 0, y: 40, width: 1000, height: 500 }
    );
    wm.clients[0].floating = true;
    let r = event::handle(&mut wm, &no_bar(), &keys, Event::ConfigureRequest(ask));
    assert_eq!(r.ask, Ask::Configure(ConfigureRequest { y: Some(40), ..ask }));
    wm.clients[0].fullscreen = true;
    let r = event::handle(&mut wm, &no_bar(), &keys, Event::ConfigureRequest(ask));
    assert_eq!(r.ask, Ask::Nothing);
    let stranger = ConfigureRequest { window: 77, ..ask };
    let r = event::handle(&mut wm, &no_bar(), &keys, Event::ConfigureRequest(stranger));
    assert_eq!(r.ask, Ask::Configure(stranger));
}

fn click(event: u32, child: u32, button: u8, modifiers: u16, event_x: i16) -> Event {
    Event::ButtonPress(ButtonPress {
        event,
        child,
        button,
        modifiers,
        event_x,
        root_x: 3,
        root_y: 4,
    })
}

#[test]
fn click_on_the_bar_views_the_tag_on_that_monitor() {
    let mut wm = two();
    let bar = BarInfo {
        panels: vec![100, 101],
        tag_extents: vec![(0, 30), (30, 60), (60, 90)],
        prompt_open: false,
    };
    event::handle(&mut wm, &bar, &Vec::new(), click(101, 0, 1, 0, 65));
    assert_eq!(wm.focused_monitor, 1);
    assert_eq!(wm.active_tags, vec![0, 2]);
}

#[test]
fn click_focuses_and_is_replayed() {
    let mut wm = one(Layout::Floating);
    manage(&mut wm, 10);
    manage(&mut wm, 11);
    let r = event::handle(&mut wm, &no_bar(), &Vec::new(), click(10, 0, 1, 0, 0));
    assert_eq!(wm.focus, Some(10));
    assert_eq!(r.requests.last(), Some(&Request::ReplayPointer));
    let r = event::handle(&mut wm, &no_bar(), &Vec::new(), click(1, 0, 1, 0, 0));
    assert_eq!(r.requests, vec![Request::ReplayPointer]);
}

#[test]
fn super_click_asks_for_the_pointer() {
    let mut wm = one(Layout::Floating);
    manage(&mut wm, 10);
    let r = event::handle(&mut wm, &no_bar(), &Vec::new(), click(1, 10, 3, 64, 0));
    assert_eq!(
        r.ask,
        Ask::GrabPointer { kind: DragKind::Resize, window: 10, x: 3, y: 4 }
    );
}

#[test]
fn keys_go_to_an_open_prompt() {
    let mut wm = one(Layout::Floating);
    let press = || Event::KeyPress { keycode: 40, modifiers: 1 };
    let r = event::handle(&mut wm, &no_bar(), &Vec::new(), press());
    assert_eq!(r.ask, Ask::Binding { keycode: 40, modifiers: 1 });
    let bar = BarInfo { prompt_open: true, ..no_bar() };
    let r = event::handle(&mut wm, &bar, &Vec::new(), press());
    assert_eq!(r.ask, Ask::PromptKey { keycode: 40, modifiers: 1 });
}

#[test]
fn titles_and_maps_are_kept_up_to_date() {
    let mut wm = one(Layout::Floating);
    manage(&mut wm, 10);
    manage(&mut wm, 11);
    let named = |window, is_name| Event::PropertyNotify {
        window,
        is_name,
        title: "new".to_string(),
    };
    let r = event::handle(&mut wm, &no_bar(), &Vec::new(), named(10, true));
    assert_eq!(wm.clients[wm.find_client(10)].title, "new");
    assert_eq!(r.ask, Ask::Nothing);
    let r = event::handle(&mut wm, &no_bar(), &Vec::new(), named(11, true));
    assert_eq!(r.ask, Ask::RedrawBar);
    let r = event::handle(
        &mut wm,
        &no_bar(),
        &Vec::new(),
        Event::MappingNotify { pointer: false },
    );
    assert_eq!(r.ask, Ask::RebuildKeymap);
    let r = event::handle(
        &mut wm,
        &no_bar(),
        &Vec::new(),
        Event::MappingNotify { pointer: true },
    );
    assert_eq!(r.ask, Ask::Nothing);
}

#[test]
fn exposed_panels_are_redrawn_once() {
    let mut wm = one(Layout::Floating);
    let bar = BarInfo { panels: vec![100], ..no_bar() };
    let expose = |window, count| Event::Expose { window, count };
    let r = event::handle(&mut wm, &bar, &Vec::new(), expose(100, 0));
    assert_eq!(r.ask, Ask::RedrawBar);
    let r = event::handle(&mut wm, &bar, &Vec::new(), expose(100, 1));
    assert_eq!(r.ask, Ask::Nothing);
    let r = event::handle(&mut wm, &bar, &Vec::new(), expose(99, 0));
    assert_eq!(r.ask, Ask::Nothing);
}

#[test]
fn queued_motions_are_compressed() {
    let queue = vec![
        Event::MotionNotify { root_x: 2, root_y: 2 },
        Event::ButtonRelease,
        Event::MotionNotify { root_x: 3, root_y: 4 },
    ];
    let (last, rest) = event::compress_motion((1, 1), queue);
    assert_eq!(last, (3, 4));
    assert_eq!(rest.len(), 1);
    assert!(matches!(rest[0], Event::ButtonRelease));
}

fn output(name: &str, crtc: u32, connected: bool, area: Option<CrtcArea>) -> Option<OutputReport> {
    Some(OutputReport { name: name.to_string(), crtc, connected, area })
}

#[test]
fn driven_outputs_are_the_monitors() {
    let area = CrtcArea { x: -5, y: 3, width: 1920, height: 1080 };
    let ms = monitor::query(
        Some(vec![
            output("DP-1", 7, true, Some(area)),
            output("DP-2", 0, true, Some(area)),
            output("DP-3", 7, false, Some(area)),
            output("DP-4", 7, true, None),
            None,
        ]),
        800,
        600,
    );
    assert_eq!(ms.as_slice().len(), 1);
    let m = ms.first();
    assert_eq!((m.name.as_str(), m.x, m.y, m.width, m.height), ("DP-1", -5, 3, 1920, 1080));
}

#[test]
fn whole_screen_stands_in_for_missing_outputs() {
    for outputs in [None, Some(Vec::new())] {
        let ms = monitor::query(outputs, 800, 600);
        let m = ms.first();
        assert_eq!((m.x, m.y, m.width, m.height), (0, 0, 800, 600));
    }
    assert!(Monitors::try_new(Vec::new()).is_none());
}

#[test]
fn geometry_is_plain_data() {
    let g = Geometry { x: 1, y: 2, w: 3, h: 4 };
    assert_eq!(g, Geometry { x: 1, ..g });
}
