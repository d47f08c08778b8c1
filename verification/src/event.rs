//! What each event of the display server does to the window manager.
//!
//! What only the server can tell of an event (a window's attributes, its title) is asked before
//! and comes with it; what is left to ask for afterwards is the reply's [`Ask`].
use vstd::prelude::*;

use crate::layout::Layout;
use crate::mouse;
use crate::mouse::DragKind;
use crate::mru;
use crate::wm;
use crate::wm::{Client, Request, Wm, WmState};

verus! {

/// A window that asks to be shown. The client's tag is settled when it is managed.
#[derive(Debug)]
pub struct MapRequest {
    pub client: Client,
    pub class: String,
    pub override_redirect: bool,
}

/// What a window asks for of its own place. What it does not ask for is `None`.
#[derive(Debug, Clone, Copy, PartialEq, Eq, Structural)]
pub struct ConfigureRequest {
    pub window: u32,
    pub x: Option<i32>,
    pub y: Option<i32>,
    pub width: Option<u32>,
    pub height: Option<u32>,
    pub border_width: Option<u32>,
    pub sibling: Option<u32>,
    pub stack_mode: Option<u32>,
}

/// A click.
#[derive(Debug, Clone, Copy, PartialEq, Eq, Structural)]
pub struct ButtonPress {
    /// The window that the event is reported on.
    pub event: u32,
    /// The window below it that holds the pointer, or 0.
    pub child: u32,
    pub button: u8,
    pub modifiers: u16,
    pub event_x: i16,
    pub root_x: i16,
    pub root_y: i16,
}

#[derive(Debug)]
pub enum Event {
    MapRequest(MapRequest),
    UnmapNotify { event: u32, window: u32 },
    DestroyNotify { window: u32 },
    ConfigureRequest(ConfigureRequest),
    KeyPress { keycode: u8, modifiers: u16 },
    KeyRelease { keycode: u8 },
    ButtonPress(ButtonPress),
    ButtonRelease,
    MotionNotify { root_x: i16, root_y: i16 },
    /// `pointer` says whether it is the pointer's buttons that were mapped anew.
    MappingNotify { pointer: bool },
    /// `is_name` says whether the property is a window's name; `title` is then the new one.
    PropertyNotify { window: u32, is_name: bool, title: String },
    Expose { window: u32, count: u16 },
    /// Anything that changes nothing here.
    Other,
}

/// What is left to do after an event, besides the requests.
#[derive(Debug, Clone, Copy, PartialEq, Eq, Structural)]
pub enum Ask {
    Nothing,
    RedrawBar,
    RebuildKeymap,
    /// Hand the key to the run prompt.
    PromptKey { keycode: u8, modifiers: u16 },
    /// Run the key's binding.
    Binding { keycode: u8, modifiers: u16 },
    /// Grab the pointer, and begin the drag where that works.
    GrabPointer { kind: DragKind, window: u32, x: i16, y: i16 },
    /// Let the window have what it asks for.
    Configure(ConfigureRequest),
    /// Tell the window the place that it has.
    NotifyPlace { window: u32, x: i16, y: i16, width: u16, height: u16 },
}

/// The answer to an event: requests to send, in order, and what to do then.
#[derive(Debug)]
pub struct Reply {
    pub requests: Vec<Request>,
    pub ask: Ask,
}

/// What events need to know of the bar: one panel on each monitor, where the tags lie on it, and
/// whether the prompt is open.
#[derive(Debug)]
pub struct BarInfo {
    pub panels: Vec<u32>,
    pub tag_extents: Vec<(i32, i32)>,
    pub prompt_open: bool,
}

/// The first panel from `i` on that is window `w`; their number where none is.
pub open spec fn panel_from(panels: Seq<u32>, w: u32, i: int) -> int
    decreases panels.len() - i,
{
    if i >= panels.len() {
        panels.len() as int
    } else if panels[i] == w {
        i
    } else {
        panel_from(panels, w, i + 1)
    }
}

/// The first tag from `i` on whose extent holds `x`; their number where none does.
pub open spec fn tag_at_from(extents: Seq<(i32, i32)>, x: int, i: int) -> int
    decreases extents.len() - i,
{
    if i >= extents.len() {
        extents.len() as int
    } else if extents[i].0 <= x < extents[i].1 {
        i
    } else {
        tag_at_from(extents, x, i + 1)
    }
}

pub proof fn lemma_panel(panels: Seq<u32>, w: u32, i: int)
    requires
        0 <= i <= panels.len(),
    ensures
        i <= panel_from(panels, w, i) <= panels.len(),
        panel_from(panels, w, i) < panels.len() ==> panels[panel_from(panels, w, i)] == w,
        forall|j: int| i <= j < panel_from(panels, w, i) ==> #[trigger] panels[j] != w,
    decreases panels.len() - i,
{
    if i < panels.len() && panels[i] != w {
        lemma_panel(panels, w, i + 1);
    }
}

pub proof fn lemma_tag_at(extents: Seq<(i32, i32)>, x: int, i: int)
    requires
        0 <= i <= extents.len(),
    ensures
        i <= tag_at_from(extents, x, i) <= extents.len(),
        tag_at_from(extents, x, i) < extents.len() ==> extents[tag_at_from(extents, x, i)].0 <= x
            < extents[tag_at_from(extents, x, i)].1,
        forall|j: int|
            i <= j < tag_at_from(extents, x, i) ==> !((#[trigger] extents[j]).0 <= x
                < extents[j].1),
    decreases extents.len() - i,
{
    if i < extents.len() && !(extents[i].0 <= x < extents[i].1) {
        lemma_tag_at(extents, x, i + 1);
    }
}

impl BarInfo {
    /// The extents are those of `tags` tags.
    pub open spec fn wf(&self, tags: int) -> bool {
        self.tag_extents@.len() <= tags
    }

    fn panel(&self, w: u32) -> (r: usize)
        ensures
            r == panel_from(self.panels@, w, 0),
            r <= self.panels@.len(),
    {
        let mut i: usize = 0;
        while i < self.panels.len() && self.panels[i] != w
            invariant
                i <= self.panels.len(),
                panel_from(self.panels@, w, 0) == panel_from(self.panels@, w, i as int),
            decreases self.panels.len() - i,
        {
            i += 1;
        }
        i
    }

    fn tag_at(&self, x: i32) -> (r: usize)
        ensures
            r == tag_at_from(self.tag_extents@, x as int, 0),
            r <= self.tag_extents@.len(),
    {
        let mut i: usize = 0;
        while i < self.tag_extents.len() && !(self.tag_extents[i].0 <= x && x
            < self.tag_extents[i].1)
            invariant
                i <= self.tag_extents.len(),
                tag_at_from(self.tag_extents@, x as int, 0) == tag_at_from(
                    self.tag_extents@,
                    x as int,
                    i as int,
                ),
            decreases self.tag_extents.len() - i,
        {
            i += 1;
        }
        i
    }
}

// --- windows come and go ---

pub open spec fn after_map(s: WmState, ev: MapRequest) -> WmState {
    if ev.override_redirect {
        s
    } else {
        wm::after_manage(s, ev.client, ev.class@)
    }
}

/// Takes a window in, unless it looks after itself, and maps it where its tag is shown.
fn on_map_request(wm: &mut Wm, ev: MapRequest) -> (r: Vec<Request>)
    requires
        old(wm).wf(),
    ensures
        final(wm).wf(),
        final(wm)@ == after_map(old(wm)@, ev),
        r@ == if ev.override_redirect {
            Seq::empty()
        } else {
            wm::manage_requests(old(wm)@, ev.client, ev.class@)
        },
{
    if ev.override_redirect {
        return Vec::new();
    }
    wm.manage(ev.client, ev.class.as_str())
}

/// A client that expects the notice of its unmapping.
pub open spec fn unmap_expected(s: WmState, w: u32) -> bool {
    wm::is_managed(s.clients, w) && s.clients[wm::find(s.clients, w)].unmap_ignore > 0
}

/// The notice of our own unmapping is counted off; any other takes the client away.
pub open spec fn after_unmap(s: WmState, event: u32, w: u32) -> WmState {
    let p = wm::find(s.clients, w);
    if event != s.root {
        s
    } else if unmap_expected(s, w) {
        WmState {
            clients: s.clients.update(
                p,
                Client { unmap_ignore: (s.clients[p].unmap_ignore - 1) as u32, ..s.clients[p] },
            ),
            ..s
        }
    } else {
        wm::after_unmanage(s, w)
    }
}

pub open spec fn unmap_requests(s: WmState, event: u32, w: u32) -> Seq<Request> {
    if event == s.root && !unmap_expected(s, w) {
        wm::unmanage_requests(s, w)
    } else {
        Seq::empty()
    }
}

proof fn lemma_update_wf(s: WmState, p: int, c: Client)
    requires
        s.wf(),
        0 <= p < s.clients.len(),
        c.window == s.clients[p].window,
        c.tag == s.clients[p].tag,
    ensures
        (WmState { clients: s.clients.update(p, c), ..s }).wf(),
{
    let t = WmState { clients: s.clients.update(p, c), ..s };
    assert forall|i: int| 0 <= i < s.clients.len() implies (#[trigger] s.clients[i]).window
        == t.clients[i].window by {
        assert(t.clients[i].window == s.clients[i].window);
    }
    wm::lemma_ring_same(s.clients, t.clients, s.mru);
    assert forall|i: int, j: int|
        0 <= i < t.clients.len() && 0 <= j < t.clients.len() && i
            != j implies #[trigger] t.clients[i].window != #[trigger] t.clients[j].window by {
        assert(t.clients[i].window == s.clients[i].window);
        assert(t.clients[j].window == s.clients[j].window);
    }
    assert forall|i: int| 0 <= i < t.clients.len() implies (#[trigger] t.clients[i]).tag
        < t.layouts.len() by {
        assert(t.clients[i].tag == s.clients[i].tag);
    }
}

fn on_unmap_notify(wm: &mut Wm, event: u32, window: u32) -> (r: Vec<Request>)
    requires
        old(wm).wf(),
    ensures
        final(wm).wf(),
        final(wm)@ == after_unmap(old(wm)@, event, window),
        r@ == unmap_requests(old(wm)@, event, window),
{
    if event != wm.root {
        return Vec::new();
    }
    let ghost s = wm@;
    let p = wm.find_client(window);
    if p < wm.clients.len() && wm.clients[p].unmap_ignore > 0 {
        wm.clients[p].unmap_ignore = wm.clients[p].unmap_ignore - 1;
        proof {
            lemma_update_wf(s, p as int, wm.clients@[p as int]);
            assert(wm.clients@ =~= after_unmap(s, event, window).clients);
        }
        return Vec::new();
    }
    wm.unmanage(window)
}

/// The place that a window gets when it asks for one: nothing for a fullscreen client, word of
/// the place that it has for one that its layout places, and else what it asks for, of a client
/// not above the bar.
pub open spec fn configure_answer(s: WmState, ev: ConfigureRequest) -> Ask {
    if wm::is_managed(s.clients, ev.window) {
        let c = s.clients[wm::find(s.clients, ev.window)];
        if c.fullscreen {
            Ask::Nothing
        } else if s.layouts[c.tag as int] != Layout::Floating && !c.floating {
            Ask::NotifyPlace {
                window: ev.window,
                x: c.x as i16,
                y: c.y as i16,
                width: c.w as u16,
                height: c.h as u16,
            }
        } else {
            Ask::Configure(
                ConfigureRequest {
                    y: match ev.y {
                        Some(y) => Some(mouse::at_least(y as int, s.bar_height as int) as i32),
                        None => None,
                    },
                    ..ev
                },
            )
        }
    } else {
        Ask::Configure(ev)
    }
}

fn on_configure_request(wm: &Wm, ev: ConfigureRequest) -> (r: Ask)
    requires
        wm.wf(),
    ensures
        r == configure_answer(wm@, ev),
{
    let p = wm.find_client(ev.window);
    if p >= wm.clients.len() {
        return Ask::Configure(ev);
    }
    let c = &wm.clients[p];
    if c.fullscreen {
        return Ask::Nothing;
    }
    if wm.layouts[c.tag] != Layout::Floating && !c.floating {
        return Ask::NotifyPlace {
            window: ev.window,
            x: c.x as i16,
            y: c.y as i16,
            width: c.w as u16,
            height: c.h as u16,
        };
    }
    let mut granted = ev;
    if let Some(y) = ev.y {
        if y < wm.bar_height as i32 {
            granted.y = Some(wm.bar_height as i32);
        }
    }
    Ask::Configure(granted)
}

/// The title of a client is kept, whether or not it has the focus.
pub open spec fn after_property(s: WmState, w: u32, is_name: bool, title: String) -> WmState {
    let p = wm::find(s.clients, w);
    if is_name && wm::is_managed(s.clients, w) {
        WmState { clients: s.clients.update(p, Client { title, ..s.clients[p] }), ..s }
    } else {
        s
    }
}

fn on_property_notify(wm: &mut Wm, window: u32, is_name: bool, title: String) -> (r: Ask)
    requires
        old(wm).wf(),
    ensures
        final(wm).wf(),
        final(wm)@ == after_property(old(wm)@, window, is_name, title),
        r == if is_name && old(wm)@.focus == Some(window) {
            Ask::RedrawBar
        } else {
            Ask::Nothing
        },
{
    if !is_name {
        return Ask::Nothing;
    }
    let ghost s = wm@;
    let ghost given = title;
    let p = wm.find_client(window);
    if p < wm.clients.len() {
        wm.clients[p].title = title;
        proof {
            lemma_update_wf(s, p as int, wm.clients@[p as int]);
            assert(wm.clients@ =~= after_property(s, window, is_name, given).clients);
        }
    }
    match wm.focus {
        Some(f) => if f == window {
            Ask::RedrawBar
        } else {
            Ask::Nothing
        },
        None => Ask::Nothing,
    }
}

// --- clicks ---

/// The tag that a click on the bar asks for, and the panel that was clicked.
pub open spec fn clicked_tag(bar: BarInfo, ev: ButtonPress) -> Option<(int, int)> {
    let panel = panel_from(bar.panels@, ev.event, 0);
    let tag = tag_at_from(bar.tag_extents@, ev.event_x as int, 0);
    if panel < bar.panels@.len() && ev.button == 1 && tag < bar.tag_extents@.len() {
        Some((panel, tag))
    } else {
        None
    }
}

/// The state with the monitor of the clicked panel as the focused one.
pub open spec fn on_panel(s: WmState, panel: int) -> WmState {
    if panel < s.monitors.len() {
        WmState { focused_monitor: panel, ..s }
    } else {
        s
    }
}

/// The window that a click is meant for: grabs on the root report the one below.
pub open spec fn click_target(s: WmState, ev: ButtonPress) -> u32 {
    if ev.event == s.root {
        ev.child
    } else {
        ev.event
    }
}

/// Whether the click begins a drag: Super and button 1 or 3.
pub open spec fn is_drag_click(ev: ButtonPress) -> bool {
    ev.modifiers & mouse::MOD_SUPER != 0 && (ev.button == 1 || ev.button == 3)
}

pub open spec fn drag_kind(ev: ButtonPress) -> DragKind {
    if ev.button == 1 {
        DragKind::Move
    } else {
        DragKind::Resize
    }
}

/// The state after a click: on the bar it views a tag, on a client it focuses or drags it.
pub open spec fn after_click(s: WmState, bar: BarInfo, ev: ButtonPress) -> WmState {
    match clicked_tag(bar, ev) {
        Some((panel, tag)) => {
            let t = wm::after_view(on_panel(s, panel), tag as usize);
            wm::after_focus(t, wm::top_of_tag(t, tag as usize, 0))
        },
        None => {
            let w = click_target(s, ev);
            if w == 0 || !wm::is_managed(s.clients, w) {
                s
            } else if is_drag_click(ev) {
                mouse::after_prepare(s, w)
            } else {
                wm::after_focus(s, Some(w))
            }
        },
    }
}

pub open spec fn click_requests(s: WmState, bar: BarInfo, ev: ButtonPress) -> Seq<Request> {
    match clicked_tag(bar, ev) {
        Some((panel, tag)) => {
            let from = on_panel(s, panel);
            let t = wm::after_view(from, tag as usize);
            wm::view_requests(from, tag as usize) + wm::focus_requests(
                t,
                wm::top_of_tag(t, tag as usize, 0),
            )
        },
        None => {
            let w = click_target(s, ev);
            if w == 0 || !wm::is_managed(s.clients, w) {
                seq![Request::ReplayPointer]
            } else if is_drag_click(ev) {
                if mouse::draggable(s, w) {
                    mouse::prepare_requests(s, w)
                } else {
                    Seq::empty()
                }
            } else {
                wm::focus_requests(s, Some(w)).push(Request::ReplayPointer)
            }
        },
    }
}

pub open spec fn click_ask(s: WmState, bar: BarInfo, ev: ButtonPress) -> Ask {
    let w = click_target(s, ev);
    if clicked_tag(bar, ev) is None && w != 0 && is_drag_click(ev) && mouse::draggable(s, w) {
        Ask::GrabPointer { kind: drag_kind(ev), window: w, x: ev.root_x, y: ev.root_y }
    } else {
        Ask::Nothing
    }
}

fn on_button_press(wm: &mut Wm, bar: &BarInfo, ev: ButtonPress) -> (r: Reply)
    requires
        old(wm).wf(),
        bar.wf(old(wm).layouts@.len() as int),
    ensures
        final(wm).wf(),
        final(wm)@ == after_click(old(wm)@, *bar, ev),
        r.requests@ == click_requests(old(wm)@, *bar, ev),
        r.ask == click_ask(old(wm)@, *bar, ev),
{
    let panel = bar.panel(ev.event);
    if panel < bar.panels.len() && ev.button == 1 {
        let tag = bar.tag_at(ev.event_x as i32);
        if tag < bar.tag_extents.len() {
            if panel < wm.monitors.as_slice().len() {
                wm.focused_monitor = panel;
            }
            let requests = wm.view_tag(tag);
            return Reply { requests, ask: Ask::Nothing };
        }
    }
    let window = if ev.event == wm.root {
        ev.child
    } else {
        ev.event
    };
    let mut requests: Vec<Request> = Vec::new();
    if window == 0 || wm.find_client(window) >= wm.clients.len() {
        requests.push(Request::ReplayPointer);
        return Reply { requests, ask: Ask::Nothing };
    }
    if ev.modifiers & mouse::MOD_SUPER != 0 && (ev.button == 1 || ev.button == 3) {
        let kind = if ev.button == 1 {
            DragKind::Move
        } else {
            DragKind::Resize
        };
        return match mouse::start_drag(wm, window) {
            Some(sent) => Reply {
                requests: sent,
                ask: Ask::GrabPointer { kind, window, x: ev.root_x, y: ev.root_y },
            },
            None => Reply { requests, ask: Ask::Nothing },
        };
    }
    let mut sent = wm.focus_window(Some(window));
    sent.push(Request::ReplayPointer);
    Reply { requests: sent, ask: Ask::Nothing }
}

// --- motion ---

/// The last of the motions among the first `n` queued events, or `first` where there is none.
pub open spec fn latest_motion(first: (i16, i16), queue: Seq<Event>, n: int) -> (i16, i16)
    decreases n,
{
    if n <= 0 {
        first
    } else {
        match queue[n - 1] {
            Event::MotionNotify { root_x, root_y } => (root_x, root_y),
            _ => latest_motion(first, queue, n - 1),
        }
    }
}

/// The other events among the first `n`, in their order.
pub open spec fn not_motions(queue: Seq<Event>, n: int) -> Seq<Event>
    decreases n,
{
    if n <= 0 {
        Seq::empty()
    } else if queue[n - 1] is MotionNotify {
        not_motions(queue, n - 1)
    } else {
        not_motions(queue, n - 1).push(queue[n - 1])
    }
}

/// Folds the motions that wait behind a motion into the last one. The other events keep their
/// order and are handled afterwards.
pub fn compress_motion(first: (i16, i16), queue: Vec<Event>) -> (r: ((i16, i16), Vec<Event>))
    ensures
        r.0 == latest_motion(first, queue@, queue@.len() as int),
        r.1@ == not_motions(queue@, queue@.len() as int),
{
    let ghost all = queue@;
    let mut queue = queue;
    let mut latest = first;
    let mut deferred: Vec<Event> = Vec::new();
    let ghost mut done: int = 0;
    while queue.len() > 0
        invariant
            0 <= done <= all.len(),
            queue@ == all.skip(done),
            latest == latest_motion(first, all, done),
            deferred@ == not_motions(all, done),
        decreases queue.len(),
    {
        let ev = queue.remove(0);
        proof {
            assert(ev == all[done]);
            assert(queue@ =~= all.skip(done + 1));
            done = done + 1;
        }
        match ev {
            Event::MotionNotify { root_x, root_y } => {
                latest = (root_x, root_y);
            },
            other => {
                deferred.push(other);
            },
        }
    }
    (latest, deferred)
}

// --- dispatch ---

/// The state after an event. `modifiers` are the keys whose release ends a cycle.
pub open spec fn after_event(
    s: WmState,
    bar: BarInfo,
    modifiers: Seq<u8>,
    event: Event,
) -> WmState {
    match event {
        Event::MapRequest(ev) => after_map(s, ev),
        Event::UnmapNotify { event, window } => after_unmap(s, event, window),
        Event::DestroyNotify { window } => wm::after_unmanage(s, window),
        Event::KeyRelease { keycode } => if s.cycle is Some && modifiers.contains(keycode) {
            mru::after_finish(s)
        } else {
            s
        },
        Event::ButtonPress(ev) => after_click(s, bar, ev),
        Event::ButtonRelease => WmState { drag: None, ..s },
        Event::MotionNotify { root_x, root_y } => mouse::after_motion(s, root_x, root_y),
        Event::PropertyNotify { window, is_name, title } => after_property(
            s,
            window,
            is_name,
            title,
        ),
        Event::ConfigureRequest(_) | Event::KeyPress { .. } | Event::MappingNotify { .. }
        | Event::Expose { .. } | Event::Other => s,
    }
}

/// The requests that answer an event.
pub open spec fn event_requests(
    s: WmState,
    bar: BarInfo,
    modifiers: Seq<u8>,
    event: Event,
) -> Seq<Request> {
    match event {
        Event::MapRequest(ev) => if ev.override_redirect {
            Seq::empty()
        } else {
            wm::manage_requests(s, ev.client, ev.class@)
        },
        Event::UnmapNotify { event, window } => unmap_requests(s, event, window),
        Event::DestroyNotify { window } => wm::unmanage_requests(s, window),
        Event::KeyRelease { keycode } => if s.cycle is Some && modifiers.contains(keycode) {
            seq![Request::UngrabKeyboard]
        } else {
            Seq::empty()
        },
        Event::ButtonPress(ev) => click_requests(s, bar, ev),
        Event::ButtonRelease => if s.drag is Some {
            seq![Request::UngrabPointer]
        } else {
            Seq::empty()
        },
        Event::MotionNotify { root_x, root_y } => mouse::motion_requests(s, root_x, root_y),
        _ => Seq::empty(),
    }
}

/// What is left to do then.
pub open spec fn event_ask(s: WmState, bar: BarInfo, event: Event) -> Ask {
    match event {
        Event::ConfigureRequest(ev) => configure_answer(s, ev),
        Event::KeyPress { keycode, modifiers } => if bar.prompt_open {
            Ask::PromptKey { keycode, modifiers }
        } else {
            Ask::Binding { keycode, modifiers }
        },
        Event::ButtonPress(ev) => click_ask(s, bar, ev),
        Event::MappingNotify { pointer } => if pointer {
            Ask::Nothing
        } else {
            Ask::RebuildKeymap
        },
        Event::PropertyNotify { window, is_name, .. } => if is_name && s.focus == Some(window) {
            Ask::RedrawBar
        } else {
            Ask::Nothing
        },
        Event::Expose { window, count } => if count == 0 && panel_from(bar.panels@, window, 0)
            < bar.panels@.len() {
            Ask::RedrawBar
        } else {
            Ask::Nothing
        },
        _ => Ask::Nothing,
    }
}

/// Handles an event.
pub fn handle(wm: &mut Wm, bar: &BarInfo, modifiers: &Vec<u8>, event: Event) -> (r: Reply)
    requires
        old(wm).wf(),
        bar.wf(old(wm).layouts@.len() as int),
    ensures
        final(wm).wf(),
        final(wm)@ == after_event(old(wm)@, *bar, modifiers@, event),
        r.requests@ == event_requests(old(wm)@, *bar, modifiers@, event),
        r.ask == event_ask(old(wm)@, *bar, event),
{
    let mut requests: Vec<Request> = Vec::new();
    let mut ask = Ask::Nothing;
    match event {
        Event::MapRequest(ev) => {
            requests = on_map_request(wm, ev);
        },
        Event::UnmapNotify { event, window } => {
            requests = on_unmap_notify(wm, event, window);
        },
        Event::DestroyNotify { window } => {
            requests = wm.unmanage(window);
        },
        Event::ConfigureRequest(ev) => {
            ask = on_configure_request(wm, ev);
        },
        Event::KeyPress { keycode, modifiers } => {
            ask = if bar.prompt_open {
                Ask::PromptKey { keycode, modifiers }
            } else {
                Ask::Binding { keycode, modifiers }
            };
        },
        Event::KeyRelease { keycode } => {
            requests = mru::on_key_release(wm, keycode, modifiers);
        },
        Event::ButtonPress(ev) => {
            return on_button_press(wm, bar, ev);
        },
        Event::ButtonRelease => {
            if wm.drag.is_some() {
                requests = mouse::end_drag(wm);
            }
        },
        Event::MotionNotify { root_x, root_y } => {
            requests = mouse::on_motion(wm, root_x, root_y);
        },
        Event::MappingNotify { pointer } => {
            if !pointer {
                ask = Ask::RebuildKeymap;
            }
        },
        Event::PropertyNotify { window, is_name, title } => {
            ask = on_property_notify(wm, window, is_name, title);
        },
        Event::Expose { window, count } => {
            if count == 0 && bar.panel(window) < bar.panels.len() {
                ask = Ask::RedrawBar;
            }
        },
        Event::Other => {},
    }
    Reply { requests, ask }
}

/// A client that a change of the shown tags hides stays managed when the server tells of its
/// unmapping: the notice is only counted off, as often as it was hidden.
pub proof fn law_own_unmapping_keeps_client(s: WmState, after: Seq<usize>, i: int)
    requires
        s.wf(),
        0 <= i < s.clients.len(),
        s.active_tags.contains(s.clients[i].tag),
        !after.contains(s.clients[i].tag),
    ensures
        ({
            let w = s.clients[i].window;
            let t = wm::showing(s, after);
            &&& unmap_expected(t, w)
            &&& s.clients[i].unmap_ignore < u32::MAX ==> after_unmap(t, s.root, w)
                == (WmState {
                clients: t.clients.update(i, s.clients[i]),
                ..t
            })
        }),
{
    let w = s.clients[i].window;
    let t = wm::showing(s, after);
    wm::lemma_find(t.clients, w, 0);
    let p = wm::find(t.clients, w);
    assert(t.clients[i].window == w);
    if p < t.clients.len() && p != i {
        assert(s.clients[p].window == t.clients[p].window);
    }
    assert(p == i);
}

/// A notice that was not expected takes the client away.
pub proof fn law_withdrawal_unmanages(s: WmState, i: int)
    requires
        s.wf(),
        0 <= i < s.clients.len(),
        s.clients[i].unmap_ignore == 0,
    ensures
        after_unmap(s, s.root, s.clients[i].window) == wm::after_unmanage(
            s,
            s.clients[i].window,
        ),
        !wm::is_managed(
            after_unmap(s, s.root, s.clients[i].window).clients,
            s.clients[i].window,
        ),
        !after_unmap(s, s.root, s.clients[i].window).mru.contains(s.clients[i].window),
{
    let w = s.clients[i].window;
    wm::lemma_find(s.clients, w, 0);
    let p = wm::find(s.clients, w);
    assert(p == i) by {
        if p < s.clients.len() && p != i {
            assert(s.clients[p].window == s.clients[i].window);
        }
    }
    let t = wm::without_client(s, w);
    let u = wm::after_arrange(t);
    wm::lemma_arranged_same(t, t.monitors.len() as int);
    wm::lemma_find(u.clients, w, 0);
    mru::lemma_without(s.mru, w);
    let q = wm::find(u.clients, w);
    if q < u.clients.len() {
        assert(u.clients[q].window == t.clients[q].window);
        let a = if q < p {
            q
        } else {
            q + 1
        };
        assert(t.clients[q] == s.clients[a]);
        assert(s.clients[a].window != s.clients[i].window);
    }
}

/// Motions are folded and nothing else is: the last motion counts, and every other event is kept,
/// in its order. A queue that grows by an event changes one of the two only.
pub proof fn law_motions_fold_into_the_last(
    first: (i16, i16),
    queue: Seq<Event>,
    ev: Event,
)
    ensures
        ({
            let n = queue.len() as int;
            let longer = queue.push(ev);
            let latest = latest_motion(first, longer, n + 1);
            let kept = not_motions(longer, n + 1);
            &&& ev matches Event::MotionNotify { root_x, root_y } ==> latest == (root_x, root_y)
                && kept == not_motions(queue, n)
            &&& !(ev is MotionNotify) ==> latest == latest_motion(first, queue, n) && kept
                == not_motions(queue, n).push(ev)
            &&& latest_motion(first, Seq::empty(), 0) == first
            &&& not_motions(Seq::empty(), 0).len() == 0
        }),
{
    lemma_queue_prefix(first, queue, queue.push(ev), queue.len() as int);
}

proof fn lemma_queue_prefix(first: (i16, i16), a: Seq<Event>, b: Seq<Event>, n: int)
    requires
        0 <= n <= a.len(),
        n <= b.len(),
        forall|i: int| 0 <= i < n ==> a[i] == b[i],
    ensures
        latest_motion(first, a, n) == latest_motion(first, b, n),
        not_motions(a, n) == not_motions(b, n),
    decreases n,
{
    if n > 0 {
        lemma_queue_prefix(first, a, b, n - 1);
    }
}

/// No motion is kept back, and no other event is lost.
pub proof fn law_only_motions_are_folded(queue: Seq<Event>, i: int)
    requires
        0 <= i < queue.len(),
    ensures
        queue[i] is MotionNotify || not_motions(queue, queue.len() as int).contains(queue[i]),
        forall|k: int|
            0 <= k < not_motions(queue, queue.len() as int).len() ==> !((#[trigger] not_motions(
                queue,
                queue.len() as int,
            )[k]) is MotionNotify),
{
    lemma_kept(queue, queue.len() as int, i);
}

proof fn lemma_kept(queue: Seq<Event>, n: int, i: int)
    requires
        0 <= i < queue.len(),
        0 <= n <= queue.len(),
    ensures
        i < n && !(queue[i] is MotionNotify) ==> not_motions(queue, n).contains(queue[i]),
        forall|k: int|
            0 <= k < not_motions(queue, n).len() ==> !((#[trigger] not_motions(queue, n)[k])
                is MotionNotify),
    decreases n,
{
    if n > 0 {
        lemma_kept(queue, n - 1, i);
        let before = not_motions(queue, n - 1);
        let all = not_motions(queue, n);
        if i < n && !(queue[i] is MotionNotify) {
            if i == n - 1 {
                assert(all[all.len() - 1] == queue[i]);
            } else {
                let k = before.index_of(queue[i]);
                assert(all[k] == queue[i]);
            }
        }
        assert forall|k: int| 0 <= k < all.len() implies !((#[trigger] all[k]) is MotionNotify) by {
            if k < before.len() {
                assert(all[k] == before[k]);
            }
        }
    }
}

/// A click on a tag of the bar shows that tag on the monitor whose bar was clicked, and the window
/// on it that was used last has the focus.
pub proof fn law_click_on_a_tag_shows_it(
    s: WmState,
    bar: BarInfo,
    ev: ButtonPress,
    panel: int,
    tag: int,
)
    requires
        s.wf(),
        s.layouts.len() <= usize::MAX,
        bar.wf(s.layouts.len() as int),
        0 <= panel < bar.panels@.len(),
        panel < s.monitors.len(),
        bar.panels@.no_duplicates(),
        bar.panels@[panel] == ev.event,
        ev.button == 1,
        0 <= tag < bar.tag_extents@.len(),
        bar.tag_extents@[tag].0 <= ev.event_x < bar.tag_extents@[tag].1,
        forall|j: int|
            0 <= j < tag ==> !((#[trigger] bar.tag_extents@[j]).0 <= ev.event_x
                < bar.tag_extents@[j].1),
    ensures
        ({
            let t = after_click(s, bar, ev);
            &&& t.active_tags[panel] == tag
            &&& click_ask(s, bar, ev) == Ask::Nothing
            &&& t.focus matches Some(w) ==> wm::on_tag(t, w, tag as usize)
        }),
{
    lemma_panel(bar.panels@, ev.event, 0);
    lemma_tag_at(bar.tag_extents@, ev.event_x as int, 0);
    let k = panel_from(bar.panels@, ev.event, 0);
    assert(k == panel) by {
        assert(bar.panels@[panel] == ev.event);
        if k < panel {
            assert(bar.panels@[k] == bar.panels@[panel]);
        }
    }
    assert(tag_at_from(bar.tag_extents@, ev.event_x as int, 0) == tag) by {
        let g = tag_at_from(bar.tag_extents@, ev.event_x as int, 0);
        if g > tag {
            assert(!(bar.tag_extents@[tag].0 <= ev.event_x < bar.tag_extents@[tag].1));
        }
        if g < tag {
            assert(!(bar.tag_extents@[g].0 <= ev.event_x < bar.tag_extents@[g].1));
        }
    }
    let from = on_panel(s, panel);
    let t = wm::after_view(from, tag as usize);
    wm::law_view_swaps(from.active_tags, panel, tag as usize);
    wm::law_tag_is_entered_with_its_last_window(t, tag as usize);
}

/// A click elsewhere acts on the window below it: with Super and the first or third button it is
/// dragged, moved with the one and resized with the other, and else it is focused and the click goes
/// through to it. A click on nothing that is managed changes nothing and goes through.
pub proof fn law_click_acts_on_its_window(s: WmState, bar: BarInfo, ev: ButtonPress, w: u32)
    requires
        s.wf(),
        clicked_tag(bar, ev) is None,
        ev.event == s.root ==> w == ev.child,
        ev.event != s.root ==> w == ev.event,
    ensures
        ({
            let t = after_click(s, bar, ev);
            let sent = click_requests(s, bar, ev);
            let ask = click_ask(s, bar, ev);
            let dragging = ev.modifiers & mouse::MOD_SUPER != 0 && (ev.button == 1 || ev.button
                == 3);
            let client = w != 0 && wm::is_managed(s.clients, w);
            &&& !client ==> t == s && sent == seq![Request::ReplayPointer] && ask == Ask::Nothing
            &&& client && !dragging ==> t.focus == Some(w) && t.clients == s.clients && ask
                == Ask::Nothing && sent.contains(Request::Focus(Some(w))) && sent.last()
                == Request::ReplayPointer
            &&& client && dragging && !s.clients[wm::find(s.clients, w)].fullscreen ==> t.focus
                == Some(w) && ask == (Ask::GrabPointer {
                kind: if ev.button == 1 {
                    DragKind::Move
                } else {
                    DragKind::Resize
                },
                window: w,
                x: ev.root_x,
                y: ev.root_y,
            })
            &&& client && dragging && s.clients[wm::find(s.clients, w)].fullscreen ==> t == s && ask
                == Ask::Nothing && sent.len() == 0
        }),
{
    if w != 0 && wm::is_managed(s.clients, w) {
        let sent = click_requests(s, bar, ev);
        if !is_drag_click(ev) {
            assert(sent[0] == Request::Focus(Some(w)));
        }
    }
}

/// A window that asks for a place gets it only where its layout leaves it one: a client of a tiled
/// layout is told the place that it has, a fullscreen one nothing, a floating one gets what it asks
/// for, though not above the bar, and a window that is not managed whatever it asks for.
pub proof fn law_place_is_granted_where_it_is_free(s: WmState, ev: ConfigureRequest, i: int)
    requires
        s.wf(),
        0 <= i < s.clients.len(),
        s.clients[i].window == ev.window,
    ensures
        ({
            let c = s.clients[i];
            let tiled = s.layouts[c.tag as int] != Layout::Floating && !c.floating;
            let a = configure_answer(s, ev);
            &&& a == Ask::Nothing <==> c.fullscreen
            &&& !c.fullscreen && tiled ==> (a matches Ask::NotifyPlace { window, x, y, width, height }
                && window == c.window && x == c.x as i16 && y == c.y as i16 && width == c.w as u16
                && height == c.h as u16)
            &&& !c.fullscreen && !tiled ==> (a matches Ask::Configure(g) && g.window == ev.window
                && g.x == ev.x && g.width == ev.width && g.height == ev.height && g.border_width
                == ev.border_width && g.sibling == ev.sibling && g.stack_mode == ev.stack_mode
                && match ev.y {
                None => g.y is None,
                Some(y) => if y >= s.bar_height {
                    g.y == Some(y)
                } else {
                    g.y == Some(s.bar_height as i32)
                },
            })
        }),
{
    wm::lemma_find(s.clients, ev.window, 0);
    wm::lemma_managed_at(s.clients, ev.window, i);
    let p = wm::find(s.clients, ev.window);
    if p != i {
        assert(s.clients[p].window == s.clients[i].window);
    }
}

/// A window that is not managed may have any place.
pub proof fn law_strangers_place_themselves(s: WmState, ev: ConfigureRequest)
    requires
        !wm::is_managed(s.clients, ev.window),
    ensures
        configure_answer(s, ev) == Ask::Configure(ev),
{
}

/// A new name is kept with its client, and the bar is drawn anew where that client has the focus.
pub proof fn law_name_is_kept_with_its_client(
    s: WmState,
    bar: BarInfo,
    modifiers: Seq<u8>,
    is_name: bool,
    title: String,
    i: int,
    j: int,
)
    requires
        s.wf(),
        0 <= i < s.clients.len(),
        0 <= j < s.clients.len(),
    ensures
        ({
            let w = s.clients[i].window;
            let ev = Event::PropertyNotify { window: w, is_name, title };
            let t = after_event(s, bar, modifiers, ev);
            &&& t.clients.len() == s.clients.len()
            &&& is_name ==> t.clients[i] == (Client { title, ..s.clients[i] })
            &&& j != i || !is_name ==> t.clients[j] == s.clients[j]
            &&& event_ask(s, bar, ev) == Ask::RedrawBar <==> is_name && s.focus == Some(w)
            &&& event_requests(s, bar, modifiers, ev).len() == 0
        }),
{
    let w = s.clients[i].window;
    wm::lemma_find(s.clients, w, 0);
    wm::lemma_managed_at(s.clients, w, i);
    let p = wm::find(s.clients, w);
    if p != i {
        assert(s.clients[p].window == s.clients[i].window);
    }
}

/// A window that is destroyed is managed no longer, and a window that looks after itself never is.
pub proof fn law_windows_come_and_go(
    s: WmState,
    bar: BarInfo,
    modifiers: Seq<u8>,
    m: MapRequest,
)
    requires
        s.wf(),
    ensures
        ({
            let w = m.client.window;
            let mapped = after_event(s, bar, modifiers, Event::MapRequest(m));
            let gone = after_event(s, bar, modifiers, Event::DestroyNotify { window: w });
            &&& m.override_redirect ==> mapped == s && event_requests(
                s,
                bar,
                modifiers,
                Event::MapRequest(m),
            ).len() == 0
            &&& !m.override_redirect ==> wm::is_managed(mapped.clients, w)
            &&& !wm::is_managed(gone.clients, w)
            &&& !gone.mru.contains(w)
        }),
{
    let w = m.client.window;
    wm::law_window_is_managed_once(s, m.client, m.class@);
    wm::lemma_find(s.clients, w, 0);
    if wm::is_managed(s.clients, w) {
        let p = wm::find(s.clients, w);
        if s.clients.len() > 1 {
            wm::law_unmanaged_client_leaves_no_trace(s, p, 0);
        } else {
            let gone = wm::without_client(s, w);
            wm::lemma_arranged_same(gone, gone.monitors.len() as int);
            mru::lemma_without(s.mru, w);
        }
    } else if s.mru.contains(w) {
        let k = s.mru.index_of(w);
        assert(wm::is_managed(s.clients, s.mru[k]));
    }
}

/// Keys go to the prompt while it is open, and to their bindings else; a new keyboard mapping is
/// read, a new mapping of the pointer's buttons is not; the bar is drawn anew when the last exposed
/// part of a panel is told. None of this changes the windows.
pub proof fn law_keys_and_exposures_leave_the_windows(
    s: WmState,
    bar: BarInfo,
    modifiers: Seq<u8>,
    keycode: u8,
    held: u16,
    window: u32,
    count: u16,
    pointer: bool,
)
    ensures
        ({
            let key = Event::KeyPress { keycode, modifiers: held };
            let map = Event::MappingNotify { pointer };
            let expose = Event::Expose { window, count };
            &&& after_event(s, bar, modifiers, key) == s
            &&& after_event(s, bar, modifiers, map) == s
            &&& after_event(s, bar, modifiers, expose) == s
            &&& bar.prompt_open ==> event_ask(s, bar, key) == (Ask::PromptKey {
                keycode,
                modifiers: held,
            })
            &&& !bar.prompt_open ==> event_ask(s, bar, key) == (Ask::Binding {
                keycode,
                modifiers: held,
            })
            &&& event_ask(s, bar, map) == Ask::RebuildKeymap <==> !pointer
            &&& event_ask(s, bar, expose) == Ask::RedrawBar <==> count == 0 && bar.panels@.contains(
                window,
            )
        }),
{
    lemma_panel(bar.panels@, window, 0);
    let k = panel_from(bar.panels@, window, 0);
    if k < bar.panels@.len() {
        assert(bar.panels@[k] == window);
    } else if bar.panels@.contains(window) {
        let j = bar.panels@.index_of(window);
        assert(bar.panels@[j] == window);
    }
}

/// The release of a button ends a drag, and the release of a modifier ends a cycle; other releases
/// change nothing.
pub proof fn law_releases_end_what_was_held(
    s: WmState,
    bar: BarInfo,
    modifiers: Seq<u8>,
    keycode: u8,
)
    ensures
        ({
            let button = after_event(s, bar, modifiers, Event::ButtonRelease);
            let key = after_event(s, bar, modifiers, Event::KeyRelease { keycode });
            &&& button.drag is None
            &&& button.clients == s.clients && button.focus == s.focus && button.cycle == s.cycle
            &&& event_requests(s, bar, modifiers, Event::ButtonRelease).contains(
                Request::UngrabPointer,
            ) <==> s.drag is Some
            &&& modifiers.contains(keycode) ==> key.cycle is None
            &&& !modifiers.contains(keycode) ==> key == s
            &&& s.cycle is None ==> key == s
            &&& key.clients == s.clients && key.focus == s.focus && key.drag == s.drag
            &&& event_requests(s, bar, modifiers, Event::KeyRelease { keycode }).contains(
                Request::UngrabKeyboard,
            ) <==> s.cycle is Some && modifiers.contains(keycode)
        }),
{
    let a = event_requests(s, bar, modifiers, Event::ButtonRelease);
    if s.drag is Some {
        assert(a[0] == Request::UngrabPointer);
    }
    let b = event_requests(s, bar, modifiers, Event::KeyRelease { keycode });
    if s.cycle is Some && modifiers.contains(keycode) {
        assert(b[0] == Request::UngrabKeyboard);
    }
}

} // verus!
