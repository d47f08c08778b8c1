//! Dragging windows with the mouse.
use vstd::prelude::*;

use crate::layout::Layout;
use crate::wm;
use crate::wm::{Client, Request, Wm, WmState};

verus! {

/// The smallest width and height that a window is dragged to.
pub const MIN_SIZE: u32 = 50;

/// Modifier bits of the display server's protocol.
pub const MOD_LOCK: u16 = 2;

pub const MOD_NUM: u16 = 16;

pub const MOD_SUPER: u16 = 64;

#[derive(Debug, Clone, Copy, PartialEq, Eq, Structural)]
pub enum DragKind {
    Move,
    Resize,
}

/// A running drag: where the pointer was, and the window, when it began.
#[derive(Debug, Clone, Copy, PartialEq, Eq, Structural)]
pub struct DragState {
    pub kind: DragKind,
    pub window: u32,
    pub start_x: i16,
    pub start_y: i16,
    pub orig_x: i32,
    pub orig_y: i32,
    pub orig_w: u32,
    pub orig_h: u32,
}

impl DragState {
    /// No motion of the pointer takes the window out of the coordinates' range.
    pub open spec fn fits(self) -> bool {
        &&& i32::MIN + 0xffff <= self.orig_x <= i32::MAX - 0xffff
        &&& i32::MIN + 0xffff <= self.orig_y <= i32::MAX - 0xffff
        &&& self.orig_w <= i32::MAX - 0xffff
        &&& self.orig_h <= i32::MAX - 0xffff
    }
}

/// The states of the lock keys under which a grab has to hold.
pub fn lock_masks() -> (r: [u16; 4])
    ensures
        r@ == seq![0u16, MOD_LOCK, MOD_NUM, (MOD_LOCK | MOD_NUM)],
{
    let r: [u16; 4] = [0, MOD_LOCK, MOD_NUM, MOD_LOCK | MOD_NUM];
    assert(r@ =~= seq![0u16, MOD_LOCK, MOD_NUM, (MOD_LOCK | MOD_NUM)]);
    r
}

/// The button and modifiers of each grab that a drag needs on the root window: buttons 1 and 3
/// with Super, under each state of the lock keys.
pub fn drag_grabs() -> (r: Vec<(u8, u16)>)
    ensures
        r@.len() == 8,
        forall|i: int| 0 <= i < 8 ==> (#[trigger] r@[i]).0 == if i < 4 {
            1u8
        } else {
            3u8
        },
        forall|i: int|
            0 <= i < 8 ==> (#[trigger] r@[i]).1 == MOD_SUPER | seq![
                0u16,
                MOD_LOCK,
                MOD_NUM,
                (MOD_LOCK | MOD_NUM),
            ][i % 4],
{
    let locks = lock_masks();
    let mut out: Vec<(u8, u16)> = Vec::new();
    let mut i: usize = 0;
    while i < 8
        invariant
            i <= 8,
            out@.len() == i,
            locks@ == seq![0u16, MOD_LOCK, MOD_NUM, (MOD_LOCK | MOD_NUM)],
            forall|j: int| 0 <= j < i ==> (#[trigger] out@[j]).0 == if j < 4 {
                1u8
            } else {
                3u8
            },
            forall|j: int| 0 <= j < i ==> (#[trigger] out@[j]).1 == MOD_SUPER | locks@[j % 4],
        decreases 8 - i,
    {
        let button: u8 = if i < 4 {
            1
        } else {
            3
        };
        out.push((button, MOD_SUPER | locks[i % 4]));
        i += 1;
    }
    out
}

// --- starting ---

/// A client in a tiled layout is taken out of it before it is dragged.
pub open spec fn floated(s: WmState, w: u32) -> WmState {
    let p = wm::find(s.clients, w);
    if s.layouts[s.active_tag() as int] != Layout::Floating && !s.clients[p].floating {
        wm::after_arrange(taken_out(s, w))
    } else {
        s
    }
}

/// The client marked as floating.
pub open spec fn taken_out(s: WmState, w: u32) -> WmState {
    let p = wm::find(s.clients, w);
    WmState { clients: s.clients.update(p, Client { floating: true, ..s.clients[p] }), ..s }
}

pub open spec fn float_requests(s: WmState, w: u32) -> Seq<Request> {
    let p = wm::find(s.clients, w);
    if s.layouts[s.active_tag() as int] != Layout::Floating && !s.clients[p].floating {
        wm::arrange_requests(taken_out(s, w))
    } else {
        Seq::empty()
    }
}

/// Whether a window can be dragged: a client that is not fullscreen.
pub open spec fn draggable(s: WmState, w: u32) -> bool {
    wm::is_managed(s.clients, w) && !s.clients[wm::find(s.clients, w)].fullscreen
}

/// The state in which the pointer is to be grabbed for a drag of `w`.
pub open spec fn after_prepare(s: WmState, w: u32) -> WmState {
    if draggable(s, w) {
        floated(wm::after_focus(s, Some(w)), w)
    } else {
        s
    }
}

pub open spec fn prepare_requests(s: WmState, w: u32) -> Seq<Request> {
    wm::focus_requests(s, Some(w)) + float_requests(wm::after_focus(s, Some(w)), w)
}

pub proof fn lemma_taken_out_wf(s: WmState, w: u32)
    requires
        s.wf(),
        wm::is_managed(s.clients, w),
    ensures
        taken_out(s, w).wf(),
{
    wm::lemma_find(s.clients, w, 0);
    let t = taken_out(s, w);
    assert forall|i: int| 0 <= i < s.clients.len() implies (#[trigger] s.clients[i]).window
        == t.clients[i].window by {
        assert(t.clients[i].window == s.clients[i].window);
    }
    wm::lemma_ring_same(s.clients, t.clients, s.mru);
    assert forall|i: int, j: int|
        0 <= i < t.clients.len() && 0 <= j < t.clients.len() && i
            != j implies #[trigger] t.clients[i].window != #[trigger] t.clients[j].window by {
        assert(t.clients[i].window == s.clients[i].window);
        assert(t.clients[j].window == s.clients[j].window);
    }
    assert forall|i: int| 0 <= i < t.clients.len() implies (#[trigger] t.clients[i]).tag
        < t.layouts.len() by {
        assert(t.clients[i].tag == s.clients[i].tag);
    }
}

/// Focuses a window that is to be dragged and takes it out of its layout. `None` where it cannot
/// be dragged; else the pointer is to be grabbed, and [`begin_drag`] called where that works.
pub fn start_drag(wm: &mut Wm, window: u32) -> (r: Option<Vec<Request>>)
    requires
        old(wm).wf(),
    ensures
        final(wm).wf(),
        final(wm)@ == after_prepare(old(wm)@, window),
        match r {
            Some(sent) => draggable(old(wm)@, window) && sent@ == prepare_requests(
                old(wm)@,
                window,
            ),
            None => !draggable(old(wm)@, window),
        },
{
    let p = wm.find_client(window);
    if p >= wm.clients.len() || wm.clients[p].fullscreen {
        return None;
    }
    let mut out = wm.focus_window(Some(window));
    let ghost s = wm@;
    let tag = wm.active_tags[wm.focused_monitor];
    if wm.layouts[tag] != Layout::Floating && !wm.clients[p].floating {
        wm.clients[p].floating = true;
        proof {
            lemma_taken_out_wf(s, window);
            assert(wm.clients@ =~= taken_out(s, window).clients);
        }
        let mut more = wm.arrange();
        out.append(&mut more);
    }
    Some(out)
}

/// The drag of a client that begins with the pointer at `x`, `y`.
pub open spec fn drag_of(c: Client, kind: DragKind, x: i16, y: i16) -> DragState {
    DragState {
        kind,
        window: c.window,
        start_x: x,
        start_y: y,
        orig_x: c.x,
        orig_y: c.y,
        orig_w: c.w,
        orig_h: c.h,
    }
}

/// Begins the drag once the pointer is grabbed.
pub fn begin_drag(wm: &mut Wm, kind: DragKind, window: u32, x: i16, y: i16)
    requires
        old(wm).wf(),
        wm::is_managed(old(wm).clients@, window) ==> drag_of(
            old(wm).clients@[wm::find(old(wm).clients@, window)],
            kind,
            x,
            y,
        ).fits(),
    ensures
        final(wm).wf(),
        final(wm)@ == if wm::is_managed(old(wm).clients@, window) {
            WmState {
                drag: Some(
                    drag_of(
                        old(wm).clients@[wm::find(old(wm).clients@, window)],
                        kind,
                        x,
                        y,
                    ),
                ),
                ..old(wm)@
            }
        } else {
            old(wm)@
        },
        final(wm)@ == after_begin(old(wm)@, kind, window, x, y),
{
    let p = wm.find_client(window);
    if p < wm.clients.len() {
        let c = &wm.clients[p];
        let drag = DragState {
            kind,
            window,
            start_x: x,
            start_y: y,
            orig_x: c.x,
            orig_y: c.y,
            orig_w: c.w,
            orig_h: c.h,
        };
        wm.drag = Some(drag);
    }
}

/// Prepares the move that an application asks for of its own window. `None` where it cannot be
/// moved; else the pointer is to be grabbed, and [`begin_csd_move`] called where that works.
pub fn start_csd_move(wm: &mut Wm, window: u32) -> (r: Option<Vec<Request>>)
    requires
        old(wm).wf(),
    ensures
        final(wm).wf(),
        final(wm)@ == after_prepare(old(wm)@, window),
        match r {
            Some(sent) => draggable(old(wm)@, window) && sent@ == prepare_requests(
                old(wm)@,
                window,
            ),
            None => !draggable(old(wm)@, window),
        },
{
    start_drag(wm, window)
}

/// Begins the move of a window that its application asked for, once the pointer is grabbed.
pub fn begin_csd_move(wm: &mut Wm, window: u32, x: i16, y: i16)
    requires
        old(wm).wf(),
        wm::is_managed(old(wm).clients@, window) ==> drag_of(
            old(wm).clients@[wm::find(old(wm).clients@, window)],
            DragKind::Move,
            x,
            y,
        ).fits(),
    ensures
        final(wm).wf(),
        final(wm)@ == if wm::is_managed(old(wm).clients@, window) {
            WmState {
                drag: Some(
                    drag_of(
                        old(wm).clients@[wm::find(old(wm).clients@, window)],
                        DragKind::Move,
                        x,
                        y,
                    ),
                ),
                ..old(wm)@
            }
        } else {
            old(wm)@
        },
{
    begin_drag(wm, DragKind::Move, window, x, y)
}

// --- moving ---

pub open spec fn at_least(a: int, b: int) -> int {
    if a < b {
        b
    } else {
        a
    }
}

/// The dragged client with the pointer at `x`, `y`: it does not go above the bar, nor below the
/// smallest size.
pub open spec fn dragged(c: Client, d: DragState, x: i16, y: i16, bar_height: u32) -> Client {
    match d.kind {
        DragKind::Move => Client {
            x: (d.orig_x + (x - d.start_x)) as i32,
            y: at_least(d.orig_y + (y - d.start_y), bar_height as int) as i32,
            ..c
        },
        DragKind::Resize => Client {
            w: at_least(d.orig_w + (x - d.start_x), MIN_SIZE as int) as u32,
            h: at_least(d.orig_h + (y - d.start_y), MIN_SIZE as int) as u32,
            ..c
        },
    }
}

pub open spec fn drag_request(d: DragState, x: i16, y: i16, bar_height: u32) -> Request {
    match d.kind {
        DragKind::Move => Request::Move {
            window: d.window,
            x: (d.orig_x + (x - d.start_x)) as i32,
            y: at_least(d.orig_y + (y - d.start_y), bar_height as int) as i32,
        },
        DragKind::Resize => Request::Resize {
            window: d.window,
            w: at_least(d.orig_w + (x - d.start_x), MIN_SIZE as int) as u32,
            h: at_least(d.orig_h + (y - d.start_y), MIN_SIZE as int) as u32,
        },
    }
}

/// The state after the pointer moved.
pub open spec fn after_motion(s: WmState, x: i16, y: i16) -> WmState {
    match s.drag {
        Some(d) => if wm::is_managed(s.clients, d.window) {
            let p = wm::find(s.clients, d.window);
            WmState {
                clients: s.clients.update(p, dragged(s.clients[p], d, x, y, s.bar_height)),
                ..s
            }
        } else {
            s
        },
        None => s,
    }
}

pub open spec fn motion_requests(s: WmState, x: i16, y: i16) -> Seq<Request> {
    match s.drag {
        Some(d) => seq![drag_request(d, x, y, s.bar_height)],
        None => Seq::empty(),
    }
}

/// Moves or resizes the dragged window after the pointer.
pub fn on_motion(wm: &mut Wm, x: i16, y: i16) -> (r: Vec<Request>)
    requires
        old(wm).wf(),
    ensures
        final(wm).wf(),
        final(wm)@ == after_motion(old(wm)@, x, y),
        r@ == motion_requests(old(wm)@, x, y),
{
    let ghost s = wm@;
    let drag = match wm.drag {
        Some(d) => d,
        None => return Vec::new(),
    };
    let dx = x as i32 - drag.start_x as i32;
    let dy = y as i32 - drag.start_y as i32;
    let p = wm.find_client(drag.window);
    let mut out: Vec<Request> = Vec::new();
    match drag.kind {
        DragKind::Move => {
            let new_x = drag.orig_x + dx;
            let mut new_y = drag.orig_y + dy;
            if new_y < wm.bar_height as i32 {
                new_y = wm.bar_height as i32;
            }
            if p < wm.clients.len() {
                wm.clients[p].x = new_x;
                wm.clients[p].y = new_y;
            }
            out.push(Request::Move { window: drag.window, x: new_x, y: new_y });
        },
        DragKind::Resize => {
            let mut new_w = drag.orig_w as i32 + dx;
            let mut new_h = drag.orig_h as i32 + dy;
            if new_w < MIN_SIZE as i32 {
                new_w = MIN_SIZE as i32;
            }
            if new_h < MIN_SIZE as i32 {
                new_h = MIN_SIZE as i32;
            }
            if p < wm.clients.len() {
                wm.clients[p].w = new_w as u32;
                wm.clients[p].h = new_h as u32;
            }
            out.push(Request::Resize { window: drag.window, w: new_w as u32, h: new_h as u32 });
        },
    }
    proof {
        let t = after_motion(s, x, y);
        assert(wm.clients@ =~= t.clients);
        assert forall|i: int| 0 <= i < s.clients.len() implies (#[trigger] s.clients[i]).window
            == t.clients[i].window by {
            assert(t.clients[i].window == s.clients[i].window);
        }
        wm::lemma_ring_same(s.clients, t.clients, s.mru);
        assert forall|i: int, j: int|
            0 <= i < t.clients.len() && 0 <= j < t.clients.len() && i
                != j implies #[trigger] t.clients[i].window != #[trigger] t.clients[j].window by {
            assert(t.clients[i].window == s.clients[i].window);
            assert(t.clients[j].window == s.clients[j].window);
        }
        assert forall|i: int| 0 <= i < t.clients.len() implies (#[trigger] t.clients[i]).tag
            < t.layouts.len() by {
            assert(t.clients[i].tag == s.clients[i].tag);
        }
    }
    out
}

/// Ends the drag.
pub fn end_drag(wm: &mut Wm) -> (r: Vec<Request>)
    requires
        old(wm).wf(),
    ensures
        final(wm).wf(),
        final(wm)@ == (WmState { drag: None, ..old(wm)@ }),
        r@ == seq![Request::UngrabPointer],
{
    wm.drag = None;
    let mut out: Vec<Request> = Vec::new();
    out.push(Request::UngrabPointer);
    out
}

/// A dragged window stays below the bar when moved, and keeps its size; when resized it keeps its
/// place and the smallest size.
pub proof fn law_drag_respects_limits(c: Client, d: DragState, x: i16, y: i16, bar_height: u32)
    requires
        d.fits(),
        bar_height <= i32::MAX,
    ensures
        ({
            let r = dragged(c, d, x, y, bar_height);
            &&& d.kind == DragKind::Move ==> r.y >= bar_height && r.w == c.w && r.h == c.h
            &&& d.kind == DragKind::Resize ==> r.w >= MIN_SIZE && r.h >= MIN_SIZE && r.x == c.x
                && r.y == c.y
        }),
{
}

/// Back at the point where it began, a move leaves the window where it was, and a resize as large
/// as it was, unless the limits held it off already.
pub proof fn law_drag_back_restores(c: Client, kind: DragKind, x: i16, y: i16, bar_height: u32)
    requires
        drag_of(c, kind, x, y).fits(),
        c.y >= bar_height,
        c.w >= MIN_SIZE,
        c.h >= MIN_SIZE,
    ensures
        dragged(c, drag_of(c, kind, x, y), x, y, bar_height) == c,
{
}

/// A drag follows the pointer: as far as the pointer went, so far the window moves, or so much wider
/// and higher it gets, save where the bar or the smallest size holds it.
pub proof fn law_drag_follows_the_pointer(
    c: Client,
    d: DragState,
    x: i16,
    y: i16,
    bar_height: u32,
)
    requires
        d.fits(),
        bar_height <= i32::MAX,
    ensures
        ({
            let r = dragged(c, d, x, y, bar_height);
            &&& d.kind == DragKind::Move ==> {
                &&& r.x - d.orig_x == x - d.start_x
                &&& r.y > bar_height ==> r.y - d.orig_y == y - d.start_y
                &&& r.y == bar_height ==> d.orig_y + (y - d.start_y) <= bar_height
            }
            &&& d.kind == DragKind::Resize ==> {
                &&& r.w > MIN_SIZE ==> r.w - d.orig_w == x - d.start_x
                &&& r.h > MIN_SIZE ==> r.h - d.orig_h == y - d.start_y
                &&& r.w == MIN_SIZE ==> d.orig_w + (x - d.start_x) <= MIN_SIZE
                &&& r.h == MIN_SIZE ==> d.orig_h + (y - d.start_y) <= MIN_SIZE
            }
            &&& r.window == c.window && r.tag == c.tag && r.floating == c.floating
            &&& r.fullscreen == c.fullscreen && r.saved_floating == c.saved_floating
        }),
{
}

/// What counts is where the pointer is, not how it came there: a motion by way of another point
/// leads to the same place.
pub proof fn law_motion_has_no_memory(s: WmState, x1: i16, y1: i16, x2: i16, y2: i16)
    requires
        s.wf(),
    ensures
        after_motion(after_motion(s, x1, y1), x2, y2) == after_motion(s, x2, y2),
{
    if let Some(d) = s.drag {
        if wm::is_managed(s.clients, d.window) {
            let p = wm::find(s.clients, d.window);
            let t = after_motion(s, x1, y1);
            wm::lemma_find(s.clients, d.window, 0);
            wm::lemma_find(t.clients, d.window, 0);
            wm::lemma_managed_at(t.clients, d.window, p);
            let q = wm::find(t.clients, d.window);
            if q < p {
                assert(t.clients[q].window == s.clients[q].window);
            }
            assert(q == p);
            assert(after_motion(t, x2, y2).clients =~= after_motion(s, x2, y2).clients);
        }
    }
}

/// A motion moves the dragged client and no other, and without a drag nothing.
pub proof fn law_motion_moves_the_dragged_client_alone(s: WmState, x: i16, y: i16, i: int)
    requires
        s.wf(),
        0 <= i < s.clients.len(),
    ensures
        ({
            let t = after_motion(s, x, y);
            let sent = motion_requests(s, x, y);
            &&& t.clients.len() == s.clients.len()
            &&& s.drag is None ==> t == s && sent.len() == 0
            &&& s.drag matches Some(d) ==> s.clients[i].window != d.window ==> t.clients[i]
                == s.clients[i]
            &&& s.drag matches Some(d) ==> s.clients[i].window == d.window ==> match d.kind {
                DragKind::Move => sent == seq![
                    Request::Move { window: d.window, x: t.clients[i].x, y: t.clients[i].y },
                ],
                DragKind::Resize => sent == seq![
                    Request::Resize { window: d.window, w: t.clients[i].w, h: t.clients[i].h },
                ],
            }
            &&& t.drag == s.drag && t.focus == s.focus && t.mru == s.mru && t.active_tags
                == s.active_tags
        }),
{
    if let Some(d) = s.drag {
        wm::lemma_find(s.clients, d.window, 0);
        let p = wm::find(s.clients, d.window);
        if s.clients[i].window == d.window {
            wm::lemma_managed_at(s.clients, d.window, i);
            if p != i {
                assert(s.clients[p].window == s.clients[i].window);
            }
        }
    }
}

/// A window that is to be dragged is focused and out of its layout, and stands where it stood; its
/// neighbours close the gap. One that is fullscreen, or not managed, cannot be dragged.
pub proof fn law_dragged_window_leaves_its_layout(s: WmState, i: int)
    requires
        s.wf(),
        0 <= i < s.clients.len(),
        s.shows(s.clients[i].tag),
    ensures
        ({
            let c = s.clients[i];
            let t = after_prepare(s, c.window);
            &&& draggable(s, c.window) == !c.fullscreen
            &&& c.fullscreen ==> t == s
            &&& !c.fullscreen ==> t.focus == Some(c.window) && t.active_tag() == c.tag
            &&& !c.fullscreen && s.layouts[c.tag as int] != Layout::Floating ==> t.clients[i]
                == (Client { floating: true, ..c })
            &&& !c.fullscreen && s.layouts[c.tag as int] == Layout::Floating ==> t.clients == s.clients
            &&& t.active_tags == s.active_tags && t.layouts == s.layouts && t.drag == s.drag
        }),
{
    let c = s.clients[i];
    let w = c.window;
    wm::law_focus_follows_the_window(s, w, i);
    wm::lemma_find(s.clients, w, 0);
    wm::lemma_managed_at(s.clients, w, i);
    let p = wm::find(s.clients, w);
    if p != i {
        assert(s.clients[p].window == s.clients[i].window);
    }
    let f = wm::after_focus(s, Some(w));
    if !c.fullscreen && s.layouts[c.tag as int] != Layout::Floating && !c.floating {
        lemma_out_of_layout(taken_out(f, w), f.monitors.len() as int, i);
    }
    if !c.fullscreen && c.floating {
        assert(c == (Client { floating: true, ..c }));
    }
}

/// A client that is out of its layout stays where it is.
pub proof fn lemma_out_of_layout(s: WmState, m: int, p: int)
    requires
        0 <= p < s.clients.len(),
        s.clients[p].floating || s.clients[p].fullscreen,
    ensures
        wm::arranged_upto(s, m).len() == s.clients.len(),
        wm::arranged_upto(s, m)[p] == s.clients[p],
    decreases m,
{
    if m > 0 {
        lemma_out_of_layout(s, m - 1, p);
    }
}

/// The state once a drag has begun.
pub open spec fn after_begin(s: WmState, kind: DragKind, w: u32, x: i16, y: i16) -> WmState {
    if wm::is_managed(s.clients, w) {
        WmState {
            drag: Some(drag_of(s.clients[wm::find(s.clients, w)], kind, x, y)),
            ..s
        }
    } else {
        s
    }
}

/// A drag begins where the pointer and the window are: a motion to the point where it began leaves
/// every client where it was, and one to another point takes the window as far as the pointer went.
pub proof fn law_drag_begins_where_the_window_is(
    s: WmState,
    kind: DragKind,
    i: int,
    x: i16,
    y: i16,
    to_x: i16,
)
    requires
        s.wf(),
        0 <= i < s.clients.len(),
        drag_of(s.clients[i], kind, x, y).fits(),
        s.clients[i].y >= s.bar_height,
        s.clients[i].w >= MIN_SIZE,
        s.clients[i].h >= MIN_SIZE,
    ensures
        ({
            let t = after_begin(s, kind, s.clients[i].window, x, y);
            &&& t.clients == s.clients
            &&& after_motion(t, x, y).clients == s.clients
            &&& kind == DragKind::Move ==> after_motion(t, to_x, y).clients[i].x == s.clients[i].x + (
            to_x - x)
        }),
{
    let c = s.clients[i];
    let w = c.window;
    wm::lemma_find(s.clients, w, 0);
    wm::lemma_managed_at(s.clients, w, i);
    let p = wm::find(s.clients, w);
    if p != i {
        assert(s.clients[p].window == s.clients[i].window);
    }
    let t = after_begin(s, kind, w, x, y);
    law_drag_back_restores(c, kind, x, y, s.bar_height);
    assert(after_motion(t, x, y).clients =~= s.clients);
}

} // verus!
