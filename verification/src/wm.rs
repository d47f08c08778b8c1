//! The window manager's state, and what each operation on it asks of the display server.
//!
//! Every monitor shows one tag. A client is mapped where some monitor shows its tag. Operations
//! change the state and return the requests to send, in order.
use vstd::prelude::*;

use crate::config;
use crate::config::TaggedSpawn;
use crate::layout;
use crate::layout::Layout;
use crate::monitor::{Monitor, Monitors};
use crate::mouse::DragState;
use crate::mru;
use crate::mru::{CycleState, MruRing};
use crate::text;

verus! {

/// A rectangle on the screen.
#[derive(Debug, Clone, Copy, PartialEq, Eq, Structural)]
pub struct Geometry {
    pub x: i32,
    pub y: i32,
    pub w: u32,
    pub h: u32,
}

/// A managed window.
#[derive(Debug)]
pub struct Client {
    pub window: u32,
    pub tag: usize,
    pub x: i32,
    pub y: i32,
    pub w: u32,
    pub h: u32,
    pub fullscreen: bool,
    /// Taken out of its tag's layout.
    pub floating: bool,
    /// The rectangle to come back to when its tag floats again.
    pub saved_floating: Option<Geometry>,
    /// Unmap notifications that are still to come from our own unmapping.
    pub unmap_ignore: u32,
    pub title: String,
}

/// A window that is expected: the next one of class `class_match` goes to `target_tag`.
#[derive(Debug)]
pub struct PendingSpawn {
    pub class_match: String,
    pub target_tag: usize,
}

/// A request to the display server.
#[derive(Debug, Clone, Copy, PartialEq, Eq, Structural)]
pub enum Request {
    Configure { window: u32, geometry: Geometry },
    Move { window: u32, x: i32, y: i32 },
    Resize { window: u32, w: u32, h: u32 },
    Raise(u32),
    /// Map a window.
    Show(u32),
    /// Unmap a window.
    Hide(u32),
    /// Give the input focus to a window, or to none.
    Focus(Option<u32>),
    /// Let the click through to the application.
    ReplayPointer,
    UngrabKeyboard,
    UngrabPointer,
}

/// The window manager.
#[derive(Debug)]
pub struct Wm {
    pub root: u32,
    pub clients: Vec<Client>,
    /// The layout of each tag.
    pub layouts: Vec<Layout>,
    /// The tag that each monitor shows.
    pub active_tags: Vec<usize>,
    pub focused_monitor: usize,
    pub monitors: Monitors,
    /// The width of the master column on each monitor.
    pub master_widths: Vec<u32>,
    pub bar_height: u32,
    pub focus: Option<u32>,
    pub mru: MruRing<u32>,
    pub mru_cycle: Option<CycleState<u32>>,
    pub drag: Option<DragState>,
    pub pending_spawns: Vec<PendingSpawn>,
}

/// The state as mathematics.
pub struct WmState {
    pub root: u32,
    pub clients: Seq<Client>,
    pub layouts: Seq<Layout>,
    pub active_tags: Seq<usize>,
    pub focused_monitor: int,
    pub monitors: Seq<Monitor>,
    pub master_widths: Seq<u32>,
    pub bar_height: u32,
    pub focus: Option<u32>,
    pub mru: Seq<u32>,
    pub cycle: Option<(Seq<u32>, int)>,
    pub drag: Option<DragState>,
    pub pending: Seq<PendingSpawn>,
}

pub open spec fn cycle_view(c: Option<CycleState<u32>>) -> Option<(Seq<u32>, int)> {
    match c {
        Some(s) => Some((s.candidates@, s.index as int)),
        None => None,
    }
}

impl View for Wm {
    type V = WmState;

    open spec fn view(&self) -> WmState {
        WmState {
            root: self.root,
            clients: self.clients@,
            layouts: self.layouts@,
            active_tags: self.active_tags@,
            focused_monitor: self.focused_monitor as int,
            monitors: self.monitors@,
            master_widths: self.master_widths@,
            bar_height: self.bar_height,
            focus: self.focus,
            mru: self.mru@,
            cycle: cycle_view(self.mru_cycle),
            drag: self.drag,
            pending: self.pending_spawns@,
        }
    }
}

impl Client {
    pub open spec fn geometry(self) -> Geometry {
        Geometry { x: self.x, y: self.y, w: self.w, h: self.h }
    }

    /// The client at another place.
    pub open spec fn placed(self, g: Geometry) -> Client {
        Client { x: g.x, y: g.y, w: g.w, h: g.h, ..self }
    }
}

/// The first client from `i` on whose window is `w`; the number of clients where there is none.
pub open spec fn find_from(clients: Seq<Client>, w: u32, i: int) -> int
    decreases clients.len() - i,
{
    if i >= clients.len() {
        clients.len() as int
    } else if clients[i].window == w {
        i
    } else {
        find_from(clients, w, i + 1)
    }
}

/// Where `w` stands among the clients.
pub open spec fn find(clients: Seq<Client>, w: u32) -> int {
    find_from(clients, w, 0)
}

pub open spec fn is_managed(clients: Seq<Client>, w: u32) -> bool {
    find(clients, w) < clients.len()
}

pub proof fn lemma_find(clients: Seq<Client>, w: u32, i: int)
    requires
        0 <= i <= clients.len(),
    ensures
        i <= find_from(clients, w, i) <= clients.len(),
        find_from(clients, w, i) < clients.len() ==> clients[find_from(clients, w, i)].window == w,
        forall|j: int| i <= j < find_from(clients, w, i) ==> #[trigger] clients[j].window != w,
    decreases clients.len() - i,
{
    if i < clients.len() && clients[i].window != w {
        lemma_find(clients, w, i + 1);
    }
}

/// A window stands at one place at most.
pub open spec fn distinct_windows(clients: Seq<Client>) -> bool {
    forall|i: int, j: int|
        0 <= i < clients.len() && 0 <= j < clients.len() && i != j ==> #[trigger] clients[i].window
            != #[trigger] clients[j].window
}

/// Every window of the ring is managed.
pub open spec fn ring_managed(clients: Seq<Client>, ring: Seq<u32>) -> bool {
    forall|i: int| 0 <= i < ring.len() ==> is_managed(clients, #[trigger] ring[i])
}

/// The clients have the same windows, in the same places.
pub open spec fn same_windows(a: Seq<Client>, b: Seq<Client>) -> bool {
    &&& a.len() == b.len()
    &&& forall|i: int| 0 <= i < a.len() ==> (#[trigger] a[i]).window == b[i].window
}

/// A window that some client has is managed.
pub proof fn lemma_managed_at(clients: Seq<Client>, w: u32, k: int)
    requires
        0 <= k < clients.len(),
        clients[k].window == w,
    ensures
        is_managed(clients, w),
{
    lemma_find(clients, w, 0);
}

proof fn lemma_find_same(a: Seq<Client>, b: Seq<Client>, w: u32, i: int)
    requires
        same_windows(a, b),
        0 <= i <= a.len(),
    ensures
        find_from(a, w, i) == find_from(b, w, i),
    decreases a.len() - i,
{
    if i < a.len() {
        assert(a[i].window == b[i].window);
        lemma_find_same(a, b, w, i + 1);
    }
}

pub proof fn lemma_ring_same(a: Seq<Client>, b: Seq<Client>, ring: Seq<u32>)
    requires
        same_windows(a, b),
        ring_managed(a, ring),
    ensures
        ring_managed(b, ring),
{
    assert forall|i: int| 0 <= i < ring.len() implies is_managed(b, #[trigger] ring[i]) by {
        lemma_find_same(a, b, ring[i], 0);
    }
}

/// The first monitor from `i` on that shows `tag`; the number of monitors where none does.
pub open spec fn shown_from(active: Seq<usize>, tag: usize, i: int) -> int
    decreases active.len() - i,
{
    if i >= active.len() {
        active.len() as int
    } else if active[i] == tag {
        i
    } else {
        shown_from(active, tag, i + 1)
    }
}

pub proof fn lemma_shown(active: Seq<usize>, tag: usize, i: int)
    requires
        0 <= i <= active.len(),
    ensures
        i <= shown_from(active, tag, i) <= active.len(),
        shown_from(active, tag, i) < active.len() ==> active[shown_from(active, tag, i)] == tag,
        forall|j: int| i <= j < shown_from(active, tag, i) ==> active[j] != tag,
    decreases active.len() - i,
{
    if i < active.len() && active[i] != tag {
        lemma_shown(active, tag, i + 1);
    }
}

/// A monitor whose pixels can be numbered, with room for the bar.
pub open spec fn monitor_fits(m: Monitor, bar_height: u32) -> bool {
    &&& m.x + m.width <= i32::MAX
    &&& m.y + m.height <= i32::MAX
    &&& bar_height <= m.height
}

impl WmState {
    pub open spec fn wf(self) -> bool {
        &&& self.layouts.len() > 0
        &&& self.monitors.len() > 0
        &&& self.active_tags.len() == self.monitors.len()
        &&& self.master_widths.len() == self.monitors.len()
        &&& 0 <= self.focused_monitor < self.monitors.len()
        &&& self.bar_height <= i32::MAX
        &&& forall|m: int|
            0 <= m < self.monitors.len() ==> #[trigger] self.active_tags[m] < self.layouts.len()
        &&& forall|m: int|
            0 <= m < self.monitors.len() ==> monitor_fits(
                #[trigger] self.monitors[m],
                self.bar_height,
            )
        &&& forall|m: int|
            0 <= m < self.monitors.len() ==> #[trigger] self.master_widths[m]
                <= self.monitors[m].width
        &&& forall|i: int|
            0 <= i < self.clients.len() ==> (#[trigger] self.clients[i]).tag < self.layouts.len()
        &&& distinct_windows(self.clients)
        &&& self.mru.no_duplicates()
        &&& ring_managed(self.clients, self.mru)
        &&& self.cycle matches Some(c) ==> 0 <= c.1 < c.0.len()
        &&& self.drag matches Some(d) ==> d.fits()
        &&& forall|i: int|
            0 <= i < self.pending.len() ==> (#[trigger] self.pending[i]).target_tag
                < self.layouts.len()
    }

    /// No tag is shown twice.
    pub open spec fn distinct_views(self) -> bool {
        self.active_tags.no_duplicates()
    }

    pub open spec fn shows(self, tag: usize) -> bool {
        self.active_tags.contains(tag)
    }

    /// The tag of the focused monitor.
    pub open spec fn active_tag(self) -> usize {
        self.active_tags[self.focused_monitor]
    }
}

/// Each monitor fits, and its master column too.
pub open spec fn screens_fit(
    monitors: Seq<Monitor>,
    master_widths: Seq<u32>,
    bar_height: u32,
) -> bool {
    &&& master_widths.len() == monitors.len()
    &&& forall|m: int|
        0 <= m < monitors.len() ==> monitor_fits(#[trigger] monitors[m], bar_height)
    &&& forall|m: int|
        0 <= m < monitors.len() ==> #[trigger] master_widths[m] <= monitors[m].width
}

/// Whether each monitor has room for the bar and for its master column.
pub fn monitors_fit(monitors: &Monitors, master_widths: &Vec<u32>, bar_height: u32) -> (r: bool)
    ensures
        r == screens_fit(monitors@, master_widths@, bar_height),
{
    let ms = monitors.as_slice();
    let total = ms.len();
    if master_widths.len() != total {
        return false;
    }
    let mut i: usize = 0;
    while i < total
        invariant
            i <= total,
            total == ms@.len(),
            ms@ == monitors@,
            master_widths@.len() == total,
            forall|m: int| 0 <= m < i ==> monitor_fits(#[trigger] monitors@[m], bar_height),
            forall|m: int| 0 <= m < i ==> #[trigger] master_widths@[m] <= monitors@[m].width,
        decreases total - i,
    {
        let m = &ms[i];
        if m.x as i64 + m.width as i64 > 0x7fff_ffff || m.y as i64 + m.height as i64 > 0x7fff_ffff
            || bar_height > m.height {
            assert(!monitor_fits(monitors@[i as int], bar_height));
            return false;
        }
        if master_widths[i] > m.width {
            return false;
        }
        i += 1;
    }
    true
}

/// The first of the names, from `i` on, that is `tag`; their number where none is.
pub open spec fn tag_index(names: Seq<Seq<char>>, tag: Seq<char>, i: int) -> int
    decreases names.len() - i,
{
    if i >= names.len() {
        names.len() as int
    } else if names[i] == tag {
        i
    } else {
        tag_index(names, tag, i + 1)
    }
}

/// The part of a monitor below the bar.
pub open spec fn work_area(m: Monitor, bar_height: u32) -> Geometry {
    Geometry {
        x: m.x,
        y: (m.y + bar_height) as i32,
        w: m.width,
        h: (m.height - bar_height) as u32,
    }
}

// --- arranging ---

/// The clients once the first `m` monitors have laid out their tags.
pub open spec fn arranged_upto(s: WmState, m: int) -> Seq<Client>
    decreases m,
{
    if m <= 0 {
        s.clients
    } else {
        layout::arranged(
            arranged_upto(s, m - 1),
            s.active_tags[m - 1],
            s.layouts[s.active_tags[m - 1] as int],
            work_area(s.monitors[m - 1], s.bar_height),
            s.master_widths[m - 1],
        )
    }
}

/// The requests of one monitor's tag: its clients' places, and, where one covers the other, the
/// focused window to the top.
pub open spec fn tag_requests(
    clients: Seq<Client>,
    tag: usize,
    lay: Layout,
    work: Geometry,
    master_w: u32,
    focus: Option<u32>,
) -> Seq<Request> {
    let places = layout::place_requests(
        clients,
        tag,
        lay,
        work,
        master_w,
        clients.len() as int,
    );
    match focus {
        Some(w) => if lay == Layout::Monocle {
            places.push(Request::Raise(w))
        } else {
            places
        },
        None => places,
    }
}

pub open spec fn arrange_requests_upto(s: WmState, m: int) -> Seq<Request>
    decreases m,
{
    if m <= 0 {
        Seq::empty()
    } else {
        arrange_requests_upto(s, m - 1) + tag_requests(
            arranged_upto(s, m - 1),
            s.active_tags[m - 1],
            s.layouts[s.active_tags[m - 1] as int],
            work_area(s.monitors[m - 1], s.bar_height),
            s.master_widths[m - 1],
            s.focus,
        )
    }
}

/// Every monitor lays out the clients of its tag.
pub open spec fn after_arrange(s: WmState) -> WmState {
    WmState { clients: arranged_upto(s, s.monitors.len() as int), ..s }
}

pub open spec fn arrange_requests(s: WmState) -> Seq<Request> {
    arrange_requests_upto(s, s.monitors.len() as int)
}

/// Whether a request maps or unmaps a window.
pub open spec fn is_mapping(r: Request) -> bool {
    r is Show || r is Hide
}

proof fn lemma_places_map_nothing(
    clients: Seq<Client>,
    tag: usize,
    lay: Layout,
    work: Geometry,
    master_w: u32,
    n: int,
)
    ensures
        forall|k: int|
            0 <= k < layout::place_requests(clients, tag, lay, work, master_w, n).len()
                ==> (#[trigger] layout::place_requests(
                clients,
                tag,
                lay,
                work,
                master_w,
                n,
            )[k]) is Configure,
    decreases n,
{
    if n > 0 {
        lemma_places_map_nothing(clients, tag, lay, work, master_w, n - 1);
    }
}

pub proof fn lemma_arrange_maps_nothing(s: WmState, m: int)
    ensures
        forall|k: int|
            0 <= k < arrange_requests_upto(s, m).len() ==> !is_mapping(
                #[trigger] arrange_requests_upto(s, m)[k],
            ),
    decreases m,
{
    if m > 0 {
        lemma_arrange_maps_nothing(s, m - 1);
        let before = arranged_upto(s, m - 1);
        let tag = s.active_tags[m - 1];
        let lay = s.layouts[tag as int];
        let work = work_area(s.monitors[m - 1], s.bar_height);
        lemma_places_map_nothing(
            before,
            tag,
            lay,
            work,
            s.master_widths[m - 1],
            before.len() as int,
        );
        let first = arrange_requests_upto(s, m - 1);
        let places = layout::place_requests(
            before,
            tag,
            lay,
            work,
            s.master_widths[m - 1],
            before.len() as int,
        );
        let all = arrange_requests_upto(s, m);
        assert forall|k: int| 0 <= k < all.len() implies !is_mapping(#[trigger] all[k]) by {
            if k < first.len() {
                assert(all[k] == first[k]);
            } else if k - first.len() < places.len() {
                assert(all[k] == places[k - first.len()]);
            }
        }
    }
}

/// Laying out changes nothing of a client but its places.
pub open spec fn same_but_places(a: Seq<Client>, b: Seq<Client>) -> bool {
    &&& a.len() == b.len()
    &&& forall|i: int|
        0 <= i < a.len() ==> (#[trigger] b[i]) == (Client {
            saved_floating: b[i].saved_floating,
            ..a[i].placed(b[i].geometry())
        })
}

pub proof fn lemma_arranged_same(s: WmState, m: int)
    ensures
        same_but_places(s.clients, arranged_upto(s, m)),
    decreases m,
{
    if m > 0 {
        lemma_arranged_same(s, m - 1);
    }
}

proof fn lemma_floating_places(s: WmState, m: int, i: int)
    requires
        0 <= i < s.clients.len(),
    ensures
        arranged_upto(s, m).len() == s.clients.len(),
        layout::floating_place(arranged_upto(s, m)[i]) == layout::floating_place(s.clients[i]),
        forall|n: int|
            0 <= n < m && layout::is_tiled(s.clients[i], #[trigger] s.active_tags[n])
                && s.layouts[s.active_tags[n] as int] == Layout::Floating ==> arranged_upto(
                s,
                m,
            )[i].saved_floating is None,
    decreases m,
{
    lemma_arranged_same(s, m);
    if m > 0 {
        lemma_floating_places(s, m - 1, i);
        lemma_arranged_same(s, m - 1);
        let before = arranged_upto(s, m - 1);
        let tag = s.active_tags[m - 1];
        layout::law_floating_place_is_kept(
            before,
            tag,
            s.layouts[tag as int],
            work_area(s.monitors[m - 1], s.bar_height),
            s.master_widths[m - 1],
            i,
        );
        assert(before[i] == (Client {
            saved_floating: before[i].saved_floating,
            ..s.clients[i].placed(before[i].geometry())
        }));
    }
}

/// The state once the tags have had each of these layouts in turn, and were arranged each time.
pub open spec fn after_layouts(s: WmState, turns: Seq<Seq<Layout>>) -> WmState
    decreases turns.len(),
{
    if turns.len() == 0 {
        s
    } else {
        after_arrange(
            WmState { layouts: turns.last(), ..after_layouts(s, turns.drop_last()) },
        )
    }
}

proof fn lemma_after_layouts(s: WmState, turns: Seq<Seq<Layout>>, i: int)
    requires
        0 <= i < s.clients.len(),
    ensures
        ({
            let t = after_layouts(s, turns);
            &&& same_but_places(s.clients, t.clients)
            &&& layout::floating_place(t.clients[i]) == layout::floating_place(s.clients[i])
            &&& t.active_tags == s.active_tags
            &&& t.monitors == s.monitors
        }),
    decreases turns.len(),
{
    if turns.len() > 0 {
        lemma_after_layouts(s, turns.drop_last(), i);
        let before = WmState { layouts: turns.last(), ..after_layouts(s, turns.drop_last()) };
        lemma_floating_places(before, before.monitors.len() as int, i);
        lemma_arranged_same(before, before.monitors.len() as int);
        let t = after_layouts(s, turns);
        assert forall|j: int| 0 <= j < s.clients.len() implies (#[trigger] t.clients[j]) == (Client {
            saved_floating: t.clients[j].saved_floating,
            ..s.clients[j].placed(t.clients[j].geometry())
        }) by {
            assert(before.clients[j] == (Client {
                saved_floating: before.clients[j].saved_floating,
                ..s.clients[j].placed(before.clients[j].geometry())
            }));
        }
    }
}

/// However often its tag was laid out in between, and in whatever layouts, a client that floats
/// comes back to its place as it was when its tag floats again.
pub proof fn law_floating_place_is_restored(
    s: WmState,
    turns: Seq<Seq<Layout>>,
    floating: Seq<Layout>,
    m: int,
    i: int,
)
    requires
        0 <= i < s.clients.len(),
        0 <= m < s.monitors.len(),
        layout::is_tiled(s.clients[i], s.active_tags[m]),
        s.clients[i].saved_floating is None,
        floating[s.active_tags[m] as int] == Layout::Floating,
    ensures
        after_layouts(s, turns.push(floating)).clients[i] == s.clients[i],
{
    lemma_after_layouts(s, turns, i);
    lemma_after_layouts(s, turns.push(floating), i);
    assert(turns.push(floating).drop_last() =~= turns);
    let before = WmState { layouts: floating, ..after_layouts(s, turns) };
    lemma_floating_places(before, before.monitors.len() as int, i);
    let t = after_layouts(s, turns.push(floating));
    assert(before.clients[i] == (Client {
        saved_floating: before.clients[i].saved_floating,
        ..s.clients[i].placed(before.clients[i].geometry())
    }));
    assert(layout::is_tiled(before.clients[i], before.active_tags[m]));
    assert(t.clients[i].saved_floating is None);
    assert(t.clients[i].geometry() == s.clients[i].geometry());
    assert(s.clients[i].placed(s.clients[i].geometry()) == s.clients[i]);
}

pub proof fn lemma_arrange_wf(s: WmState)
    requires
        s.wf(),
    ensures
        after_arrange(s).wf(),
{
    lemma_arranged_same(s, s.monitors.len() as int);
    let t = after_arrange(s);
    assert forall|i: int| 0 <= i < s.clients.len() implies (#[trigger] s.clients[i]).window
        == t.clients[i].window by {
        assert(t.clients[i].window == s.clients[i].window);
    }
    lemma_ring_same(s.clients, t.clients, s.mru);
    assert forall|i: int| 0 <= i < t.clients.len() implies (#[trigger] t.clients[i]).tag
        < t.layouts.len() by {
        assert(t.clients[i].tag == s.clients[i].tag);
    }
    assert forall|i: int, j: int|
        0 <= i < t.clients.len() && 0 <= j < t.clients.len() && i
            != j implies #[trigger] t.clients[i].window != #[trigger] t.clients[j].window by {
        assert(t.clients[i].window == s.clients[i].window);
        assert(t.clients[j].window == s.clients[j].window);
    }
}

// --- tags ---

/// The shown tags once the focused monitor views `tag`: a monitor that showed it takes the tag
/// that the focused one leaves.
pub open spec fn viewed(active: Seq<usize>, focused: int, tag: usize) -> Seq<usize> {
    let m = shown_from(active, tag, 0);
    if active[focused] == tag {
        active
    } else if m < active.len() {
        active.update(m, active[focused]).update(focused, tag)
    } else {
        active.update(focused, tag)
    }
}

/// A client whose tag is hidden now expects the notice of its unmapping.
pub open spec fn reshown(c: Client, before: Seq<usize>, after: Seq<usize>) -> Client {
    if before.contains(c.tag) && !after.contains(c.tag) {
        Client {
            unmap_ignore: if c.unmap_ignore < u32::MAX {
                (c.unmap_ignore + 1) as u32
            } else {
                u32::MAX
            },
            ..c
        }
    } else {
        c
    }
}

pub open spec fn reshown_all(
    clients: Seq<Client>,
    before: Seq<usize>,
    after: Seq<usize>,
) -> Seq<Client> {
    Seq::new(clients.len(), |i: int| reshown(clients[i], before, after))
}

/// The mapping and unmapping that a change of the shown tags asks of the first `n` clients.
pub open spec fn show_requests(
    clients: Seq<Client>,
    before: Seq<usize>,
    after: Seq<usize>,
    n: int,
) -> Seq<Request>
    decreases n,
{
    if n <= 0 {
        Seq::empty()
    } else {
        let c = clients[n - 1];
        let so_far = show_requests(clients, before, after, n - 1);
        if before.contains(c.tag) && !after.contains(c.tag) {
            so_far.push(Request::Hide(c.window))
        } else if !before.contains(c.tag) && after.contains(c.tag) {
            so_far.push(Request::Show(c.window))
        } else {
            so_far
        }
    }
}

/// The state that shows `after`, before anything is laid out anew.
pub open spec fn showing(s: WmState, after: Seq<usize>) -> WmState {
    WmState {
        clients: reshown_all(s.clients, s.active_tags, after),
        active_tags: after,
        ..s
    }
}

pub open spec fn after_view(s: WmState, tag: usize) -> WmState {
    after_arrange(showing(s, viewed(s.active_tags, s.focused_monitor, tag)))
}

pub open spec fn view_requests(s: WmState, tag: usize) -> Seq<Request> {
    let after = viewed(s.active_tags, s.focused_monitor, tag);
    show_requests(s.clients, s.active_tags, after, s.clients.len() as int) + arrange_requests(
        showing(s, after),
    )
}

pub proof fn lemma_showing_wf(s: WmState, after: Seq<usize>)
    requires
        s.wf(),
        after.len() == s.active_tags.len(),
        forall|m: int| 0 <= m < after.len() ==> #[trigger] after[m] < s.layouts.len(),
    ensures
        showing(s, after).wf(),
{
    let t = showing(s, after);
    assert forall|i: int| 0 <= i < s.clients.len() implies (#[trigger] s.clients[i]).window
        == t.clients[i].window by {
        assert(t.clients[i].window == s.clients[i].window);
    }
    lemma_ring_same(s.clients, t.clients, s.mru);
    assert forall|i: int| 0 <= i < t.clients.len() implies (#[trigger] t.clients[i]).tag
        < t.layouts.len() by {
        assert(t.clients[i].tag == s.clients[i].tag);
    }
    assert forall|i: int, j: int|
        0 <= i < t.clients.len() && 0 <= j < t.clients.len() && i
            != j implies #[trigger] t.clients[i].window != #[trigger] t.clients[j].window by {
        assert(t.clients[i].window == s.clients[i].window);
        assert(t.clients[j].window == s.clients[j].window);
    }
}

proof fn lemma_show_requests(
    clients: Seq<Client>,
    before: Seq<usize>,
    after: Seq<usize>,
    n: int,
    w: u32,
)
    requires
        0 <= n <= clients.len(),
    ensures
        show_requests(clients, before, after, n).contains(Request::Show(w)) <==> exists|i: int|
            0 <= i < n && (#[trigger] clients[i]).window == w && !before.contains(clients[i].tag)
                && after.contains(clients[i].tag),
        show_requests(clients, before, after, n).contains(Request::Hide(w)) <==> exists|i: int|
            0 <= i < n && (#[trigger] clients[i]).window == w && before.contains(clients[i].tag)
                && !after.contains(clients[i].tag),
    decreases n,
{
    if n > 0 {
        lemma_show_requests(clients, before, after, n - 1, w);
        let so_far = show_requests(clients, before, after, n - 1);
        let r = show_requests(clients, before, after, n);
        let c = clients[n - 1];
        if r.len() > so_far.len() {
            assert forall|q: Request| r.contains(q) == (so_far.contains(q) || q == r.last()) by {
                if so_far.contains(q) {
                    let k = so_far.index_of(q);
                    assert(r[k] == q);
                }
                if q == r.last() {
                    assert(r[r.len() - 1] == q);
                }
                if r.contains(q) {
                    let k = r.index_of(q);
                    if k < so_far.len() {
                        assert(so_far[k] == q);
                    }
                }
            }
        }
        assert(c == clients[n - 1]);
    }
}

/// When the shown tags change, a client is mapped where its tag comes into view, unmapped where it
/// leaves it, and left alone otherwise: it is mapped where some monitor shows its tag.
pub proof fn law_clients_are_mapped_with_their_tag(
    clients: Seq<Client>,
    before: Seq<usize>,
    after: Seq<usize>,
    i: int,
)
    requires
        distinct_windows(clients),
        0 <= i < clients.len(),
    ensures
        ({
            let sent = show_requests(clients, before, after, clients.len() as int);
            let c = clients[i];
            &&& sent.contains(Request::Show(c.window)) == (!before.contains(c.tag)
                && after.contains(c.tag))
            &&& sent.contains(Request::Hide(c.window)) == (before.contains(c.tag)
                && !after.contains(c.tag))
        }),
{
    lemma_show_requests(clients, before, after, clients.len() as int, clients[i].window);
}

/// A client is found at the same place, with the same tag, after another tag has been viewed.
pub proof fn lemma_view_keeps_clients(s: WmState, tag: usize, w: u32)
    requires
        s.wf(),
        is_managed(s.clients, w),
    ensures
        find(after_view(s, tag).clients, w) == find(s.clients, w),
        is_managed(after_view(s, tag).clients, w),
        after_view(s, tag).clients[find(s.clients, w)].tag == s.clients[find(s.clients, w)].tag,
{
    let shown = showing(s, viewed(s.active_tags, s.focused_monitor, tag));
    let t = after_view(s, tag);
    lemma_arranged_same(shown, s.monitors.len() as int);
    lemma_find(s.clients, w, 0);
    lemma_find(t.clients, w, 0);
    let p = find(s.clients, w);
    let q = find(t.clients, w);
    assert(shown.clients[p].window == w);
    assert(t.clients[p].window == w);
    if q < p {
        assert(shown.clients[q].window == s.clients[q].window);
        assert(t.clients[q].window == s.clients[q].window);
    }
}

/// A view of some tag shows it on the focused monitor, and no tag twice where none was.
pub proof fn law_view_swaps(active: Seq<usize>, focused: int, tag: usize)
    requires
        0 <= focused < active.len(),
    ensures
        viewed(active, focused, tag).len() == active.len(),
        viewed(active, focused, tag)[focused] == tag,
        active.no_duplicates() ==> viewed(active, focused, tag).no_duplicates(),
        forall|t: usize|
            active.contains(tag) ==> viewed(active, focused, tag).contains(t)
                == #[trigger] active.contains(t),
{
    lemma_shown(active, tag, 0);
    let m = shown_from(active, tag, 0);
    let v = viewed(active, focused, tag);
    if active.no_duplicates() {
        assert forall|i: int, j: int| 0 <= i < v.len() && 0 <= j < v.len() && i != j implies v[i]
            != v[j] by {}
    }
    if active.contains(tag) {
        let k = active.index_of(tag);
        assert(active[k] == tag);
        assert(m < active.len());
        assert forall|t: usize| v.contains(t) == #[trigger] active.contains(t) by {
            if v.contains(t) {
                let i = v.index_of(t);
                assert(v[i] == t);
                assert(active[i] == t || active[m] == t || active[focused] == t);
            }
            if active.contains(t) {
                let i = active.index_of(t);
                assert(active[i] == t);
                assert(v[i] == t || v[m] == t || v[focused] == t);
            }
        }
    }
}

/// Viewing the tag that was left comes back to what was shown.
pub proof fn law_view_back_restores(active: Seq<usize>, focused: int, tag: usize)
    requires
        0 <= focused < active.len(),
        active.no_duplicates(),
    ensures
        viewed(viewed(active, focused, tag), focused, active[focused]) == active,
{
    lemma_shown(active, tag, 0);
    let v = viewed(active, focused, tag);
    lemma_shown(v, active[focused], 0);
    law_view_swaps(active, focused, tag);
    let m = shown_from(v, active[focused], 0);
    assert(viewed(v, focused, active[focused]) =~= active);
}

/// The shown tags once there are `n` monitors of `tags` tags.
pub open spec fn plugged(active: Seq<usize>, n: int, tags: int) -> Seq<usize>
    decreases n,
{
    if n <= active.len() {
        active.take(n)
    } else {
        let so_far = plugged(active, n - 1, tags);
        so_far.push(hidden_from(so_far, 0, tags))
    }
}

/// The first tag from `t` on that is not shown; the first of all where each is.
pub open spec fn hidden_from(active: Seq<usize>, t: int, tags: int) -> usize
    decreases tags - t,
{
    if t >= tags {
        0
    } else if !active.contains(t as usize) {
        t as usize
    } else {
        hidden_from(active, t + 1, tags)
    }
}

proof fn lemma_hidden(active: Seq<usize>, t: int, tags: int)
    requires
        0 <= t <= tags <= usize::MAX,
        tags > 0,
    ensures
        hidden_from(active, t, tags) < tags,
        (exists|k: usize| t <= k < tags && !active.contains(k)) ==> !active.contains(
            hidden_from(active, t, tags),
        ),
    decreases tags - t,
{
    if t < tags && active.contains(t as usize) {
        lemma_hidden(active, t + 1, tags);
        if exists|k: usize| t <= k < tags && !active.contains(k) {
            let k = choose|k: usize| t <= k < tags && !active.contains(k);
            assert(t + 1 <= k < tags && !active.contains(k));
        }
    }
}

/// Fewer shown tags than there are leave one hidden.
proof fn lemma_some_hidden(active: Seq<usize>, tags: int)
    requires
        0 <= active.len() < tags <= usize::MAX,
    ensures
        exists|k: usize| 0 <= k < tags && !active.contains(k),
    decreases tags,
{
    let last = (tags - 1) as usize;
    if active.contains(last) {
        let i = active.index_of(last);
        let rest = active.remove(i);
        if tags == 1 {
            assert(false);
        } else {
            lemma_some_hidden(rest, tags - 1);
            let k = choose|k: usize| 0 <= k < tags - 1 && !rest.contains(k);
            assert(!active.contains(k)) by {
                if active.contains(k) {
                    let j = active.index_of(k);
                    assert(j != i);
                    if j < i {
                        assert(rest[j] == k);
                    } else {
                        assert(rest[j - 1] == k);
                    }
                }
            }
        }
    }
}

/// Plugging keeps what the remaining monitors show; a new one shows a tag that was hidden, as long
/// as there is one, so that no tag is shown twice.
pub proof fn law_plug_keeps_views(active: Seq<usize>, n: int, tags: int)
    requires
        0 < n,
        0 < tags <= usize::MAX,
        forall|m: int| 0 <= m < active.len() ==> #[trigger] active[m] < tags,
    ensures
        plugged(active, n, tags).len() == n,
        forall|m: int| 0 <= m < n ==> #[trigger] plugged(active, n, tags)[m] < tags,
        forall|m: int|
            0 <= m < n && m < active.len() ==> #[trigger] plugged(active, n, tags)[m]
                == active[m],
        active.no_duplicates() && n <= tags ==> plugged(active, n, tags).no_duplicates(),
    decreases n,
{
    let p = plugged(active, n, tags);
    if n <= active.len() {
        if active.no_duplicates() {
            assert forall|i: int, j: int| 0 <= i < p.len() && 0 <= j < p.len() && i
                != j implies p[i] != p[j] by {
                assert(p[i] == active[i] && p[j] == active[j]);
            }
        }
    } else if n == 1 {
        assert(plugged(active, 0, tags) =~= active.take(0));
        lemma_hidden(plugged(active, 0, tags), 0, tags);
    } else {
        let q = plugged(active, n - 1, tags);
        law_plug_keeps_views(active, n - 1, tags);
        lemma_hidden(q, 0, tags);
        if active.no_duplicates() && n <= tags {
            lemma_some_hidden(q, tags);
            assert(!q.contains(p[n - 1]));
            assert forall|i: int, j: int| 0 <= i < p.len() && 0 <= j < p.len() && i
                != j implies p[i] != p[j] by {
                if i == n - 1 {
                    assert(q.contains(q[j]));
                } else if j == n - 1 {
                    assert(q.contains(q[i]));
                } else {
                    assert(p[i] == q[i] && p[j] == q[j]);
                }
            }
        }
    }
}

// --- focus ---

/// The focused monitor once a window of tag `tag` has the focus: the one that shows it.
pub open spec fn monitor_of_tag(s: WmState, tag: usize) -> int {
    let m = shown_from(s.active_tags, tag, 0);
    if m < s.active_tags.len() {
        m
    } else {
        s.focused_monitor
    }
}

/// A managed window takes the focus, its monitor becomes the focused one, and, outside a cycle,
/// it moves to the front of the ring. A window that is not managed changes nothing.
pub open spec fn after_focus(s: WmState, target: Option<u32>) -> WmState {
    match target {
        None => WmState { focus: None, ..s },
        Some(w) => if is_managed(s.clients, w) {
            WmState {
                focus: Some(w),
                focused_monitor: monitor_of_tag(s, s.clients[find(s.clients, w)].tag),
                mru: if s.cycle is None {
                    mru::promoted(s.mru, w)
                } else {
                    s.mru
                },
                ..s
            }
        } else {
            s
        },
    }
}

pub open spec fn focus_requests(s: WmState, target: Option<u32>) -> Seq<Request> {
    match target {
        None => seq![Request::Focus(None)],
        Some(w) => if is_managed(s.clients, w) {
            seq![Request::Focus(Some(w)), Request::Raise(w)]
        } else {
            Seq::empty()
        },
    }
}

pub proof fn lemma_focus_wf(s: WmState, target: Option<u32>)
    requires
        s.wf(),
    ensures
        after_focus(s, target).wf(),
{
    if let Some(w) = target {
        if is_managed(s.clients, w) {
            lemma_find(s.clients, w, 0);
            lemma_shown(s.active_tags, s.clients[find(s.clients, w)].tag, 0);
            mru::lemma_promoted_managed(s.clients, s.mru, w);
        }
    }
}

// --- managing ---

/// The first pending spawn from `i` on whose class is `class`; their number where there is none.
pub open spec fn pending_from(pending: Seq<PendingSpawn>, class: Seq<char>, i: int) -> int
    decreases pending.len() - i,
{
    if i >= pending.len() {
        pending.len() as int
    } else if pending[i].class_match@ == class {
        i
    } else {
        pending_from(pending, class, i + 1)
    }
}

proof fn lemma_pending(pending: Seq<PendingSpawn>, class: Seq<char>, i: int)
    requires
        0 <= i <= pending.len(),
    ensures
        i <= pending_from(pending, class, i) <= pending.len(),
    decreases pending.len() - i,
{
    if i < pending.len() && pending[i].class_match@ != class {
        lemma_pending(pending, class, i + 1);
    }
}

/// The tag of a new window: that of the oldest pending spawn of its class, else the focused
/// monitor's.
pub open spec fn tag_of_new(s: WmState, class: Seq<char>) -> usize {
    let p = pending_from(s.pending, class, 0);
    if p < s.pending.len() {
        s.pending[p].target_tag
    } else {
        s.active_tag()
    }
}

/// The state with one more client, on the tag that is its.
pub open spec fn with_client(s: WmState, c: Client, class: Seq<char>) -> WmState {
    let p = pending_from(s.pending, class, 0);
    WmState {
        clients: s.clients.push(Client { tag: tag_of_new(s, class), ..c }),
        pending: if p < s.pending.len() {
            s.pending.remove(p)
        } else {
            s.pending
        },
        ..s
    }
}

/// A window becomes a client. It takes the focus where its tag is shown.
pub open spec fn after_manage(s: WmState, c: Client, class: Seq<char>) -> WmState {
    let t = with_client(s, c, class);
    if is_managed(s.clients, c.window) {
        s
    } else if s.shows(tag_of_new(s, class)) {
        after_arrange(after_focus(t, Some(c.window)))
    } else {
        t
    }
}

/// A new window is mapped where its tag is shown.
pub open spec fn manage_requests(s: WmState, c: Client, class: Seq<char>) -> Seq<Request> {
    let t = with_client(s, c, class);
    if is_managed(s.clients, c.window) {
        if s.shows(s.clients[find(s.clients, c.window)].tag) {
            seq![Request::Show(c.window)]
        } else {
            Seq::empty()
        }
    } else if s.shows(tag_of_new(s, class)) {
        focus_requests(t, Some(c.window)) + arrange_requests(after_focus(t, Some(c.window)))
            + seq![Request::Show(c.window)]
    } else {
        Seq::empty()
    }
}

pub proof fn lemma_manage_wf(s: WmState, c: Client, class: Seq<char>)
    requires
        s.wf(),
    ensures
        after_manage(s, c, class).wf(),
        !is_managed(s.clients, c.window) ==> with_client(s, c, class).wf(),
{
    lemma_find(s.clients, c.window, 0);
    lemma_pending(s.pending, class, 0);
    let p = pending_from(s.pending, class, 0);
    let tag = tag_of_new(s, class);
    assert(tag < s.layouts.len());
    let t = with_client(s, c, class);
    if !is_managed(s.clients, c.window) {
        assert(distinct_windows(t.clients)) by {
            assert forall|i: int, j: int|
                0 <= i < t.clients.len() && 0 <= j < t.clients.len() && i
                    != j implies #[trigger] t.clients[i].window != #[trigger] t.clients[j].window by {
                if i < s.clients.len() {
                    assert(t.clients[i] == s.clients[i]);
                }
                if j < s.clients.len() {
                    assert(t.clients[j] == s.clients[j]);
                }
            }
        }
        assert forall|i: int| 0 <= i < t.pending.len() implies (#[trigger] t.pending[i]).target_tag
            < t.layouts.len() by {
            if p < s.pending.len() {
                if i < p {
                    assert(t.pending[i] == s.pending[i]);
                } else {
                    assert(t.pending[i] == s.pending[i + 1]);
                }
            }
        }
        assert forall|i: int| 0 <= i < t.mru.len() implies is_managed(
            t.clients,
            #[trigger] t.mru[i],
        ) by {
            let w = s.mru[i];
            assert(is_managed(s.clients, w));
            lemma_find(s.clients, w, 0);
            lemma_managed_at(t.clients, w, find(s.clients, w));
        }
        assert(t.wf());
        lemma_focus_wf(t, Some(c.window));
        lemma_arrange_wf(after_focus(t, Some(c.window)));
    }
}

/// The state without a client: it leaves the ring and the focus too, and a drag of it ends.
pub open spec fn without_client(s: WmState, w: u32) -> WmState {
    WmState {
        clients: s.clients.remove(find(s.clients, w)),
        mru: mru::without(s.mru, w),
        focus: if s.focus == Some(w) {
            None
        } else {
            s.focus
        },
        drag: match s.drag {
            Some(d) => if d.window == w {
                None
            } else {
                Some(d)
            },
            None => None,
        },
        ..s
    }
}

/// A client goes, and the rest is laid out anew.
pub open spec fn after_unmanage(s: WmState, w: u32) -> WmState {
    if is_managed(s.clients, w) {
        after_arrange(without_client(s, w))
    } else {
        s
    }
}

pub open spec fn unmanage_requests(s: WmState, w: u32) -> Seq<Request> {
    if is_managed(s.clients, w) {
        arrange_requests(without_client(s, w))
    } else {
        Seq::empty()
    }
}

pub proof fn lemma_unmanage_wf(s: WmState, w: u32)
    requires
        s.wf(),
        is_managed(s.clients, w),
    ensures
        without_client(s, w).wf(),
{
    lemma_find(s.clients, w, 0);
    mru::lemma_without(s.mru, w);
    let p = find(s.clients, w);
    let t = without_client(s, w);
    assert forall|i: int| 0 <= i < t.mru.len() implies is_managed(
        t.clients,
        #[trigger] t.mru[i],
    ) by {
        let x = t.mru[i];
        assert(t.mru.contains(x));
        assert(s.mru.contains(x));
        assert(is_managed(s.clients, s.mru[s.mru.index_of(x)]));
        lemma_find(s.clients, x, 0);
        let q = find(s.clients, x);
        lemma_managed_at(
            t.clients,
            x,
            if q < p {
                q
            } else {
                q - 1
            },
        );
    }
    assert forall|i: int, j: int|
        0 <= i < t.clients.len() && 0 <= j < t.clients.len() && i
            != j implies #[trigger] t.clients[i].window != #[trigger] t.clients[j].window by {
        let a = if i < p {
            i
        } else {
            i + 1
        };
        let b = if j < p {
            j
        } else {
            j + 1
        };
        assert(t.clients[i] == s.clients[a]);
        assert(t.clients[j] == s.clients[b]);
    }
    assert forall|i: int| 0 <= i < t.clients.len() implies (#[trigger] t.clients[i]).tag
        < t.layouts.len() by {
        if i < p {
            assert(t.clients[i] == s.clients[i]);
        } else {
            assert(t.clients[i] == s.clients[i + 1]);
        }
    }
}

impl Wm {
    pub open spec fn wf(&self) -> bool {
        self@.wf()
    }

    /// A window manager without clients: each monitor shows a tag of its own while there are
    /// enough, and each tag has the layout `lay`. `None` where there is no tag, or where a monitor
    /// has no room for the bar or for its master column.
    pub fn init(
        root: u32,
        tags: usize,
        lay: Layout,
        monitors: Monitors,
        master_widths: Vec<u32>,
        bar_height: u32,
    ) -> (r: Option<Wm>)
        ensures
            match r {
                Some(wm) => {
                    &&& wm.wf()
                    &&& wm@ == (WmState {
                        root,
                        clients: Seq::empty(),
                        layouts: Seq::new(tags as nat, |i: int| lay),
                        active_tags: plugged(Seq::empty(), monitors@.len() as int, tags as int),
                        focused_monitor: 0,
                        monitors: monitors@,
                        master_widths: master_widths@,
                        bar_height,
                        focus: None,
                        mru: Seq::empty(),
                        cycle: None,
                        drag: None,
                        pending: Seq::empty(),
                    })
                    &&& monitors@.len() <= tags ==> wm@.distinct_views()
                },
                None => tags == 0 || bar_height > i32::MAX || !screens_fit(
                    monitors@,
                    master_widths@,
                    bar_height,
                ),
            },
    {
        if tags == 0 || bar_height > 0x7fff_ffff || !monitors_fit(
            &monitors,
            &master_widths,
            bar_height,
        ) {
            return None;
        }
        let mut layouts: Vec<Layout> = Vec::new();
        let mut i: usize = 0;
        while i < tags
            invariant
                i <= tags,
                layouts@ == Seq::new(i as nat, |j: int| lay),
            decreases tags - i,
        {
            layouts.push(lay);
            i += 1;
            assert(layouts@ =~= Seq::new(i as nat, |j: int| lay));
        }
        let n = monitors.as_slice().len();
        let mut wm = Wm {
            root,
            clients: Vec::new(),
            layouts,
            active_tags: Vec::new(),
            focused_monitor: 0,
            monitors,
            master_widths,
            bar_height,
            focus: None,
            mru: MruRing::new(),
            mru_cycle: None,
            drag: None,
            pending_spawns: Vec::new(),
        };
        let shown = wm.plug(n);
        proof {
            assert(wm.active_tags@ =~= Seq::empty());
            law_plug_keeps_views(Seq::empty(), n as int, tags as int);
        }
        wm.active_tags = shown;
        assert(wm.clients@ =~= Seq::empty());
        assert(wm.mru@ =~= Seq::empty());
        assert(wm.pending_spawns@ =~= Seq::empty());
        Some(wm)
    }

    /// Waits for the window of a startup command, to put it on that command's tag. The result is
    /// `false`, and nothing is waited for, where `tags` does not name the tag or the layouts do not
    /// cover it.
    pub fn expect_spawn(&mut self, spawn: &TaggedSpawn, tags: &Vec<String>) -> (r: bool)
        requires
            old(self).wf(),
        ensures
            final(self).wf(),
            ({
                let at = tag_index(text::texts(tags@), spawn.tag@, 0);
                if at < tags@.len() && at < old(self).layouts@.len() {
                    &&& r
                    &&& final(self).pending_spawns@.len() == old(self).pending_spawns@.len() + 1
                    &&& final(self).pending_spawns@.drop_last() == old(self).pending_spawns@
                    &&& final(self).pending_spawns@.last().target_tag == at
                    &&& final(self).pending_spawns@.last().class_match@ == config::class_of(*spawn)
                    &&& final(self)@ == (WmState {
                        pending: final(self).pending_spawns@,
                        ..old(self)@
                    })
                } else {
                    !r && *final(self) == *old(self)
                }
            }),
    {
        let ghost names = text::texts(tags@);
        let mut at: usize = 0;
        while at < tags.len() && !text::same_text(tags[at].as_str(), spawn.tag.as_str())
            invariant
                at <= tags.len(),
                names == text::texts(tags@),
                tag_index(names, spawn.tag@, 0) == tag_index(names, spawn.tag@, at as int),
            decreases tags.len() - at,
        {
            assert(names[at as int] == tags@[at as int]@);
            at += 1;
        }
        if at < tags.len() {
            assert(names[at as int] == tags@[at as int]@);
        }
        if at >= tags.len() || at >= self.layouts.len() {
            return false;
        }
        let class_match = spawn.class_match();
        self.pending_spawns.push(PendingSpawn { class_match, target_tag: at });
        proof {
            assert(self.pending_spawns@.drop_last() =~= old(self).pending_spawns@);
            assert forall|i: int| 0 <= i < self.pending_spawns@.len() implies (
            #[trigger] self.pending_spawns@[i]).target_tag < self.layouts@.len() by {
                if i < old(self).pending_spawns@.len() {
                    assert(self.pending_spawns@[i] == old(self)@.pending[i]);
                }
            }
        }
        true
    }

    /// Where `w` stands among the clients; their number where it is not one.
    pub fn find_client(&self, w: u32) -> (r: usize)
        ensures
            r == find(self.clients@, w),
            r <= self.clients@.len(),
            r < self.clients@.len() ==> self.clients@[r as int].window == w,
    {
        let mut i: usize = 0;
        while i < self.clients.len() && self.clients[i].window != w
            invariant
                i <= self.clients.len(),
                find(self.clients@, w) == find_from(self.clients@, w, i as int),
            decreases self.clients.len() - i,
        {
            i += 1;
        }
        i
    }

    /// The first monitor that shows `tag`; the number of monitors where none does.
    pub fn shown_on(&self, tag: usize) -> (r: usize)
        ensures
            r == shown_from(self.active_tags@, tag, 0),
            r <= self.active_tags@.len(),
            (r < self.active_tags@.len()) == self.active_tags@.contains(tag),
    {
        let mut i: usize = 0;
        while i < self.active_tags.len() && self.active_tags[i] != tag
            invariant
                i <= self.active_tags.len(),
                shown_from(self.active_tags@, tag, 0) == shown_from(
                    self.active_tags@,
                    tag,
                    i as int,
                ),
                forall|j: int| 0 <= j < i ==> self.active_tags@[j] != tag,
            decreases self.active_tags.len() - i,
        {
            i += 1;
        }
        i
    }

    /// Whether some monitor shows `tag`.
    pub fn is_shown(&self, tag: usize) -> (r: bool)
        ensures
            r == self@.shows(tag),
    {
        self.shown_on(tag) < self.active_tags.len()
    }

    /// Lays out the clients of each monitor's tag.
    pub fn arrange(&mut self) -> (r: Vec<Request>)
        requires
            old(self).wf(),
        ensures
            final(self).wf(),
            final(self)@ == after_arrange(old(self)@),
            r@ == arrange_requests(old(self)@),
    {
        let ghost s = self@;
        let mut out: Vec<Request> = Vec::new();
        let mut m: usize = 0;
        let n = self.monitors.as_slice().len();
        while m < n
            invariant
                s.wf(),
                m <= n,
                n == s.monitors.len(),
                self@ == (WmState { clients: arranged_upto(s, m as int), ..s }),
                out@ == arrange_requests_upto(s, m as int),
            decreases n - m,
        {
            let tag = self.active_tags[m];
            let lay = self.layouts[tag];
            let mon = &self.monitors.as_slice()[m];
            let work = Geometry {
                x: mon.x,
                y: mon.y + self.bar_height as i32,
                w: mon.width,
                h: mon.height - self.bar_height,
            };
            let master_w = self.master_widths[m];
            let ghost before = self.clients@;
            let ghost sent = out@;
            layout::arrange_tag(&mut self.clients, tag, lay, work, master_w, &mut out);
            if let Some(w) = self.focus {
                if lay == Layout::Monocle {
                    out.push(Request::Raise(w));
                }
            }
            proof {
                assert(out@ =~= sent + tag_requests(before, tag, lay, work, master_w, s.focus));
            }
            m += 1;
        }
        proof {
            lemma_arrange_wf(s);
        }
        out
    }

    /// Gives the focused monitor's tag the next layout.
    pub fn toggle_layout(&mut self) -> (r: Vec<Request>)
        requires
            old(self).wf(),
        ensures
            final(self).wf(),
            ({
                let s = old(self)@;
                let tag = s.active_tag() as int;
                let t = WmState {
                    layouts: s.layouts.update(tag, layout::next_layout(s.layouts[tag])),
                    ..s
                };
                &&& final(self)@ == after_arrange(t)
                &&& r@ == arrange_requests(t)
            }),
            final(self)@ == after_toggle(old(self)@),
    {
        let tag = self.active_tags[self.focused_monitor];
        let next = self.layouts[tag].next();
        self.layouts.set(tag, next);
        self.arrange()
    }

    /// Shows the tags `after`.
    fn show_tags(&mut self, after: Vec<usize>) -> (r: Vec<Request>)
        requires
            old(self).wf(),
            after@.len() == old(self).active_tags@.len(),
            forall|m: int| 0 <= m < after@.len() ==> #[trigger] after@[m] < old(self).layouts@.len(),
        ensures
            final(self).wf(),
            final(self)@ == after_arrange(showing(old(self)@, after@)),
            r@ == show_requests(
                old(self).clients@,
                old(self).active_tags@,
                after@,
                old(self).clients@.len() as int,
            ) + arrange_requests(showing(old(self)@, after@)),
    {
        let ghost s = self@;
        let ghost goal = after@;
        let mut out: Vec<Request> = Vec::new();
        self.retag(after, &mut out);
        proof {
            lemma_showing_wf(s, goal);
            assert(self@ == showing(s, goal));
        }
        let ghost shown = out@;
        let mut more = self.arrange();
        out.append(&mut more);
        out
    }

    /// Replaces the shown tags and notes which clients that maps and unmaps.
    fn retag(&mut self, after: Vec<usize>, out: &mut Vec<Request>)
        ensures
            final(self)@ == showing(old(self)@, after@),
            final(out)@ == old(out)@ + show_requests(
                old(self).clients@,
                old(self).active_tags@,
                after@,
                old(self).clients@.len() as int,
            ),
    {
        let ghost s = self@;
        let ghost sent = out@;
        let mut i: usize = 0;
        while i < self.clients.len()
            invariant
                i <= self.clients.len(),
                self.clients@.len() == s.clients.len(),
                self@ == (WmState { clients: self.clients@, ..s }),
                forall|j: int|
                    0 <= j < i ==> self.clients@[j] == reshown(
                        s.clients[j],
                        s.active_tags,
                        after@,
                    ),
                forall|j: int| i <= j < s.clients.len() ==> self.clients@[j] == s.clients[j],
                out@ == sent + show_requests(s.clients, s.active_tags, after@, i as int),
            decreases self.clients.len() - i,
        {
            let tag = self.clients[i].tag;
            let was = contains_tag(&self.active_tags, tag);
            let now = contains_tag(&after, tag);
            if was && !now {
                let n = self.clients[i].unmap_ignore;
                self.clients[i].unmap_ignore = if n < u32::MAX {
                    n + 1
                } else {
                    n
                };
                out.push(Request::Hide(self.clients[i].window));
            } else if !was && now {
                out.push(Request::Show(self.clients[i].window));
            }
            i += 1;
        }
        self.active_tags = after;
        assert(self.clients@ =~= reshown_all(s.clients, s.active_tags, after@));
    }

    /// Shows `tag` on the focused monitor. A monitor that showed it takes the tag left behind.
    pub fn view_tag_no_focus(&mut self, tag: usize) -> (r: Vec<Request>)
        requires
            old(self).wf(),
            tag < old(self).layouts@.len(),
        ensures
            final(self).wf(),
            final(self)@ == after_view(old(self)@, tag),
            r@ == view_requests(old(self)@, tag),
            old(self)@.distinct_views() ==> final(self)@.distinct_views(),
    {
        let ghost s = self@;
        let f = self.focused_monitor;
        let left = self.active_tags[f];
        let other = self.shown_on(tag);
        let mut after = self.active_tags.clone();
        assert(after@ =~= s.active_tags);
        if left != tag {
            if other < after.len() {
                after.set(other, left);
            }
            after.set(f, tag);
        }
        proof {
            assert(after@ =~= viewed(s.active_tags, s.focused_monitor, tag));
            law_view_swaps(s.active_tags, s.focused_monitor, tag);
            lemma_shown(s.active_tags, tag, 0);
        }
        self.show_tags(after)
    }

    /// Shows `tag` and focuses the window on it that was used last, if there is one.
    pub fn view_tag(&mut self, tag: usize) -> (r: Vec<Request>)
        requires
            old(self).wf(),
            tag < old(self).layouts@.len(),
        ensures
            final(self).wf(),
            ({
                let t = after_view(old(self)@, tag);
                let top = top_of_tag(t, tag, 0);
                &&& final(self)@ == after_focus(t, top)
                &&& r@ == view_requests(old(self)@, tag) + focus_requests(t, top)
            }),
            final(self)@ == after_enter(old(self)@, tag),
            r@ == enter_requests(old(self)@, tag),
            old(self)@.distinct_views() ==> final(self)@.distinct_views(),
    {
        let mut out = self.view_tag_no_focus(tag);
        let top = self.recent_on(tag);
        let mut more = self.focus_window(top);
        out.append(&mut more);
        out
    }

    /// The window on `tag` that was used last.
    pub fn recent_on(&self, tag: usize) -> (r: Option<u32>)
        ensures
            r == top_of_tag(self@, tag, 0),
    {
        let ring = self.mru.as_slice();
        let mut i: usize = 0;
        while i < ring.len()
            invariant
                ring@ == self.mru@,
                i <= ring@.len(),
                top_of_tag(self@, tag, 0) == top_of_tag(self@, tag, i as int),
            decreases ring.len() - i,
        {
            if self.window_on_tag(ring[i], tag) {
                return Some(ring[i]);
            }
            i += 1;
        }
        None
    }

    /// Whether `w` is a client on `tag`.
    pub fn window_on_tag(&self, w: u32, tag: usize) -> (r: bool)
        ensures
            r == on_tag(self@, w, tag),
    {
        let p = self.find_client(w);
        p < self.clients.len() && self.clients[p].tag == tag
    }

    /// The tag before or after the focused monitor's, round the end.
    pub fn view_step(&mut self, forward: bool) -> (r: Vec<Request>)
        requires
            old(self).wf(),
        ensures
            final(self).wf(),
            ({
                let tag = neighbour(
                    old(self)@.active_tag() as int,
                    old(self)@.layouts.len() as int,
                    forward,
                ) as usize;
                let t = after_view(old(self)@, tag);
                let top = top_of_tag(t, tag, 0);
                &&& final(self)@ == after_focus(t, top)
                &&& r@ == view_requests(old(self)@, tag) + focus_requests(t, top)
                &&& final(self)@ == after_enter(old(self)@, tag)
                &&& r@ == enter_requests(old(self)@, tag)
            }),
    {
        let n = self.layouts.len();
        let tag = self.active_tags[self.focused_monitor];
        let next = if forward {
            if tag + 1 == n {
                0
            } else {
                tag + 1
            }
        } else if tag == 0 {
            n - 1
        } else {
            tag - 1
        };
        self.view_tag(next)
    }

    /// Moves the focused window to `tag`. It stays mapped where some monitor shows that tag.
    pub fn move_to_tag(&mut self, tag: usize) -> (r: Vec<Request>)
        requires
            old(self).wf(),
            tag < old(self).layouts@.len(),
        ensures
            final(self).wf(),
            final(self)@ == after_move(old(self)@, tag),
            r@ == move_requests(old(self)@, tag),
    {
        let ghost s = self@;
        let w = match self.focus {
            Some(w) => w,
            None => return Vec::new(),
        };
        let p = self.find_client(w);
        if p >= self.clients.len() {
            return Vec::new();
        }
        let mut out: Vec<Request> = Vec::new();
        let was = self.is_shown(self.clients[p].tag);
        let now = self.is_shown(tag);
        self.clients[p].tag = tag;
        if was && !now {
            let n = self.clients[p].unmap_ignore;
            self.clients[p].unmap_ignore = if n < u32::MAX {
                n + 1
            } else {
                n
            };
            out.push(Request::Hide(w));
        } else if !was && now {
            out.push(Request::Show(w));
        }
        proof {
            let t = moved(s, tag);
            assert(self.clients@ =~= t.clients);
            assert forall|i: int| 0 <= i < s.clients.len() implies (#[trigger] s.clients[i]).window
                == t.clients[i].window by {
                assert(t.clients[i].window == s.clients[i].window);
            }
            lemma_ring_same(s.clients, t.clients, s.mru);
            assert forall|i: int, j: int|
                0 <= i < t.clients.len() && 0 <= j < t.clients.len() && i
                    != j implies #[trigger] t.clients[i].window != #[trigger] t.clients[j].window by {
                assert(t.clients[i].window == s.clients[i].window);
                assert(t.clients[j].window == s.clients[j].window);
            }
            assert forall|i: int| 0 <= i < t.clients.len() implies (#[trigger] t.clients[i]).tag
                < t.layouts.len() by {
                assert(t.clients[i].tag == tag || t.clients[i].tag == s.clients[i].tag);
            }
        }
        let mut more = self.arrange();
        out.append(&mut more);
        out
    }

    /// Focuses a window, or none.
    pub fn focus_window(&mut self, target: Option<u32>) -> (r: Vec<Request>)
        requires
            old(self).wf(),
        ensures
            final(self).wf(),
            final(self)@ == after_focus(old(self)@, target),
            r@ == focus_requests(old(self)@, target),
    {
        let ghost s = self@;
        proof {
            lemma_focus_wf(s, target);
        }
        let mut out: Vec<Request> = Vec::new();
        let w = match target {
            Some(w) => w,
            None => {
                self.focus = None;
                out.push(Request::Focus(None));
                return out;
            },
        };
        let p = self.find_client(w);
        if p >= self.clients.len() {
            return out;
        }
        let m = self.shown_on(self.clients[p].tag);
        self.focus = Some(w);
        if m < self.active_tags.len() {
            self.focused_monitor = m;
        }
        if self.mru_cycle.is_none() {
            self.mru.on_focus(w);
        }
        out.push(Request::Focus(Some(w)));
        out.push(Request::Raise(w));
        out
    }

    /// Takes a window in as a client, on the tag of the oldest pending spawn of its class, else on
    /// the focused monitor's, and maps it where that tag is shown.
    pub fn manage(&mut self, client: Client, class: &str) -> (r: Vec<Request>)
        requires
            old(self).wf(),
        ensures
            final(self).wf(),
            final(self)@ == after_manage(old(self)@, client, class@),
            r@ == manage_requests(old(self)@, client, class@),
    {
        let ghost s = self@;
        let ghost given = client;
        proof {
            lemma_manage_wf(s, client, class@);
        }
        let w = client.window;
        let mut out: Vec<Request> = Vec::new();
        let known = self.find_client(w);
        if known < self.clients.len() {
            if self.is_shown(self.clients[known].tag) {
                out.push(Request::Show(w));
            }
            return out;
        }
        let p = self.find_pending(class);
        let tag = if p < self.pending_spawns.len() {
            let pending = self.pending_spawns.remove(p);
            pending.target_tag
        } else {
            self.active_tags[self.focused_monitor]
        };
        let mut client = client;
        client.tag = tag;
        self.clients.push(client);
        if self.is_shown(tag) {
            let mut more = self.focus_window(Some(w));
            out.append(&mut more);
            let mut rest = self.arrange();
            out.append(&mut rest);
            out.push(Request::Show(w));
            assert(out@ =~= manage_requests(s, given, class@));
        }
        out
    }

    fn find_pending(&self, class: &str) -> (r: usize)
        ensures
            r == pending_from(self.pending_spawns@, class@, 0),
            r <= self.pending_spawns@.len(),
    {
        let mut i: usize = 0;
        while i < self.pending_spawns.len() && !text::same_text(
            self.pending_spawns[i].class_match.as_str(),
            class,
        )
            invariant
                i <= self.pending_spawns.len(),
                pending_from(self.pending_spawns@, class@, 0) == pending_from(
                    self.pending_spawns@,
                    class@,
                    i as int,
                ),
            decreases self.pending_spawns.len() - i,
        {
            i += 1;
        }
        i
    }

    /// Lets a client go.
    pub fn unmanage(&mut self, w: u32) -> (r: Vec<Request>)
        requires
            old(self).wf(),
        ensures
            final(self).wf(),
            final(self)@ == after_unmanage(old(self)@, w),
            r@ == unmanage_requests(old(self)@, w),
    {
        let ghost s = self@;
        let p = self.find_client(w);
        if p >= self.clients.len() {
            return Vec::new();
        }
        proof {
            lemma_unmanage_wf(s, w);
        }
        self.clients.remove(p);
        self.mru.on_unmanage(w);
        if let Some(f) = self.focus {
            if f == w {
                self.focus = None;
            }
        }
        let dragged = match &self.drag {
            Some(d) => d.window == w,
            None => false,
        };
        if dragged {
            self.drag = None;
        }
        assert(self@ == without_client(s, w));
        self.arrange()
    }

    /// Takes over a new set of monitors. Those that stay keep their tags; new ones show tags that
    /// were hidden.
    pub fn set_monitors(&mut self, monitors: Monitors, master_widths: Vec<u32>) -> (r: Vec<Request>)
        requires
            old(self).wf(),
            master_widths@.len() == monitors@.len(),
            forall|m: int|
                0 <= m < monitors@.len() ==> monitor_fits(
                    #[trigger] monitors@[m],
                    old(self).bar_height,
                ),
            forall|m: int|
                0 <= m < monitors@.len() ==> #[trigger] master_widths@[m] <= monitors@[m].width,
        ensures
            final(self).wf(),
            ({
                let s = old(self)@;
                let n = monitors@.len() as int;
                let after = plugged(s.active_tags, n, s.layouts.len() as int);
                let t = WmState {
                    monitors: monitors@,
                    master_widths: master_widths@,
                    focused_monitor: if s.focused_monitor < n {
                        s.focused_monitor
                    } else {
                        n - 1
                    },
                    ..showing(s, after)
                };
                &&& final(self)@ == after_arrange(t)
                &&& r@ == show_requests(
                    s.clients,
                    s.active_tags,
                    after,
                    s.clients.len() as int,
                ) + arrange_requests(t)
                &&& s.distinct_views() && n <= s.layouts.len() ==> final(self)@.distinct_views()
            }),
            final(self)@ == after_plug(old(self)@, monitors@, master_widths@),
            r@ == plug_requests(old(self)@, monitors@, master_widths@),
    {
        let ghost s = self@;
        let n = monitors.as_slice().len();
        let tags = self.layouts.len();
        let after = self.plug(n);
        proof {
            law_plug_keeps_views(s.active_tags, n as int, tags as int);
        }
        let ghost shown = after@;
        let mut out: Vec<Request> = Vec::new();
        self.retag(after, &mut out);
        self.monitors = monitors;
        self.master_widths = master_widths;
        if self.focused_monitor >= n {
            self.focused_monitor = n - 1;
        }
        proof {
            let t = self@;
            assert forall|i: int| 0 <= i < s.clients.len() implies (#[trigger] s.clients[i]).window
                == t.clients[i].window by {
                assert(t.clients[i].window == s.clients[i].window);
            }
            lemma_ring_same(s.clients, t.clients, s.mru);
            assert forall|i: int| 0 <= i < t.clients.len() implies (#[trigger] t.clients[i]).tag
                < t.layouts.len() by {
                assert(t.clients[i].tag == s.clients[i].tag);
            }
            assert forall|i: int, j: int|
                0 <= i < t.clients.len() && 0 <= j < t.clients.len() && i
                    != j implies #[trigger] t.clients[i].window != #[trigger] t.clients[j].window by {
                assert(t.clients[i].window == s.clients[i].window);
                assert(t.clients[j].window == s.clients[j].window);
            }
        }
        let mut more = self.arrange();
        out.append(&mut more);
        out
    }

    fn plug(&self, n: usize) -> (r: Vec<usize>)
        requires
            n > 0,
            self.layouts@.len() > 0,
            forall|m: int|
                0 <= m < self.active_tags@.len() ==> #[trigger] self.active_tags@[m]
                    < self.layouts@.len(),
        ensures
            r@ == plugged(self.active_tags@, n as int, self.layouts@.len() as int),
    {
        let tags = self.layouts.len();
        let mut after: Vec<usize> = Vec::new();
        let mut i: usize = 0;
        while i < n && i < self.active_tags.len()
            invariant
                i <= n,
                i <= self.active_tags.len(),
                after@ == self.active_tags@.take(i as int),
            decreases n - i,
        {
            after.push(self.active_tags[i]);
            i += 1;
            assert(after@ =~= self.active_tags@.take(i as int));
        }
        while i < n
            invariant
                i <= n,
                i >= self.active_tags@.len() || i == n,
                tags == self.layouts@.len(),
                tags > 0,
                after@ == plugged(self.active_tags@, i as int, tags as int),
            decreases n - i,
        {
            let tag = first_hidden(&after, tags);
            after.push(tag);
            i += 1;
        }
        after
    }
}

fn contains_tag(v: &Vec<usize>, tag: usize) -> (r: bool)
    ensures
        r == v@.contains(tag),
{
    let mut i: usize = 0;
    while i < v.len()
        invariant
            i <= v.len(),
            forall|j: int| 0 <= j < i ==> v@[j] != tag,
        decreases v.len() - i,
    {
        if v[i] == tag {
            assert(v@[i as int] == tag);
            return true;
        }
        i += 1;
    }
    false
}

fn first_hidden(active: &Vec<usize>, tags: usize) -> (r: usize)
    requires
        tags > 0,
    ensures
        r == hidden_from(active@, 0, tags as int),
{
    let mut t: usize = 0;
    while t < tags
        invariant
            t <= tags,
            hidden_from(active@, 0, tags as int) == hidden_from(active@, t as int, tags as int),
        decreases tags - t,
    {
        if !contains_tag(active, t) {
            return t;
        }
        t += 1;
    }
    0
}

/// Whether `w` is a client on `tag`.
pub open spec fn on_tag(s: WmState, w: u32, tag: usize) -> bool {
    is_managed(s.clients, w) && s.clients[find(s.clients, w)].tag == tag
}

/// The first window of the ring, from `i` on, that is on `tag`.
pub open spec fn top_of_tag(s: WmState, tag: usize, i: int) -> Option<u32>
    decreases s.mru.len() - i,
{
    if i >= s.mru.len() {
        None
    } else if on_tag(s, s.mru[i], tag) {
        Some(s.mru[i])
    } else {
        top_of_tag(s, tag, i + 1)
    }
}

/// The tag next to `tag` of `n`, round the end.
pub open spec fn neighbour(tag: int, n: int, forward: bool) -> int {
    if forward {
        if tag + 1 == n {
            0
        } else {
            tag + 1
        }
    } else if tag == 0 {
        n - 1
    } else {
        tag - 1
    }
}

/// The focused window on another tag, before anything is laid out anew.
pub open spec fn moved(s: WmState, tag: usize) -> WmState {
    match s.focus {
        Some(w) => if is_managed(s.clients, w) {
            let p = find(s.clients, w);
            let c = s.clients[p];
            let hidden = s.shows(c.tag) && !s.shows(tag);
            WmState {
                clients: s.clients.update(
                    p,
                    Client {
                        tag,
                        unmap_ignore: if hidden && c.unmap_ignore < u32::MAX {
                            (c.unmap_ignore + 1) as u32
                        } else {
                            c.unmap_ignore
                        },
                        ..c
                    },
                ),
                ..s
            }
        } else {
            s
        },
        None => s,
    }
}

pub open spec fn has_focused_client(s: WmState) -> bool {
    s.focus matches Some(w) && is_managed(s.clients, w)
}

pub open spec fn after_move(s: WmState, tag: usize) -> WmState {
    if has_focused_client(s) {
        after_arrange(moved(s, tag))
    } else {
        s
    }
}

pub open spec fn move_requests(s: WmState, tag: usize) -> Seq<Request> {
    match s.focus {
        Some(w) => if is_managed(s.clients, w) {
            let was = s.shows(s.clients[find(s.clients, w)].tag);
            let now = s.shows(tag);
            let mapping = if was && !now {
                seq![Request::Hide(w)]
            } else if !was && now {
                seq![Request::Show(w)]
            } else {
                Seq::empty()
            };
            mapping + arrange_requests(moved(s, tag))
        } else {
            Seq::empty()
        },
        None => Seq::empty(),
    }
}

// --- laws of the operations ---

/// The area in which clients are laid out is the monitor without the bar: the bar lies above it, and
/// it reaches to the other three sides.
pub proof fn law_work_area_lies_below_the_bar(m: Monitor, bar_height: u32)
    requires
        monitor_fits(m, bar_height),
        bar_height <= i32::MAX,
    ensures
        ({
            let a = work_area(m, bar_height);
            &&& a.x == m.x && a.w == m.width
            &&& a.y == m.y + bar_height
            &&& a.y + a.h == m.y + m.height
        }),
{
}

proof fn lemma_other_tags_stay(s: WmState, m: int, tag: usize, from: int, i: int)
    requires
        0 <= from <= m <= s.monitors.len(),
        0 <= i < s.clients.len(),
        s.clients[i].tag == tag,
        forall|k: int| from <= k < m ==> #[trigger] s.active_tags[k] != tag,
    ensures
        arranged_upto(s, m).len() == s.clients.len(),
        arranged_upto(s, from).len() == s.clients.len(),
        arranged_upto(s, m)[i] == arranged_upto(s, from)[i],
    decreases m - from,
{
    lemma_arranged_same(s, m);
    lemma_arranged_same(s, from);
    if from < m {
        lemma_other_tags_stay(s, m - 1, tag, from, i);
        lemma_arranged_same(s, m - 1);
        assert(arranged_upto(s, m - 1)[i].tag == tag);
        assert(s.active_tags[m - 1] != tag);
    }
}

/// Each monitor lays out the clients of its own tag on its own area: what a client of a shown tag
/// comes to depends on the monitor that shows it alone, and a client of a hidden tag stays as it is.
pub proof fn law_monitors_lay_out_their_own_tags(s: WmState, m: int, i: int)
    requires
        s.wf(),
        s.distinct_views(),
        0 <= m < s.monitors.len(),
        0 <= i < s.clients.len(),
    ensures
        after_arrange(s).clients.len() == s.clients.len(),
        s.clients[i].tag == s.active_tags[m] ==> after_arrange(s).clients[i] == layout::arranged(
            s.clients,
            s.active_tags[m],
            s.layouts[s.active_tags[m] as int],
            work_area(s.monitors[m], s.bar_height),
            s.master_widths[m],
        )[i],
        !s.shows(s.clients[i].tag) ==> after_arrange(s).clients[i] == s.clients[i],
{
    let n = s.monitors.len() as int;
    lemma_arranged_same(s, n);
    let c = s.clients[i];
    if !s.shows(c.tag) {
        assert forall|k: int| 0 <= k < n implies #[trigger] s.active_tags[k] != c.tag by {
            assert(s.active_tags.contains(s.active_tags[k]));
        }
        lemma_other_tags_stay(s, n, c.tag, 0, i);
    }
    if c.tag == s.active_tags[m] {
        let tag = c.tag;
        let before = arranged_upto(s, m);
        lemma_arranged_same(s, m);
        assert forall|j: int| 0 <= j < s.clients.len() && s.clients[j].tag == tag implies before[j]
            == #[trigger] s.clients[j] by {
            lemma_other_tags_stay(s, m, tag, 0, j);
        }
        layout::lemma_same_tag_same_layout(
            s.clients,
            before,
            tag,
            s.layouts[tag as int],
            work_area(s.monitors[m], s.bar_height),
            s.master_widths[m],
            i,
        );
        assert forall|k: int| m + 1 <= k < n implies #[trigger] s.active_tags[k] != tag by {
            assert(s.active_tags[k] != s.active_tags[m]);
        }
        lemma_other_tags_stay(s, n, tag, m + 1, i);
    }
}

/// A view leaves the other monitors alone, but for the one that showed the tag, which takes the tag
/// that the focused monitor leaves; the tag left is hidden only where no monitor takes it.
pub proof fn law_view_changes_two_monitors_at_most(
    active: Seq<usize>,
    focused: int,
    tag: usize,
    m: int,
)
    requires
        active.no_duplicates(),
        0 <= focused < active.len(),
        0 <= m < active.len(),
    ensures
        ({
            let v = viewed(active, focused, tag);
            &&& m != focused && active[m] != tag ==> v[m] == active[m]
            &&& m != focused && active[m] == tag ==> v[m] == active[focused]
            &&& m == focused ==> v[m] == tag
            &&& v.contains(active[focused]) == active.contains(tag)
        }),
{
    lemma_shown(active, tag, 0);
    law_view_swaps(active, focused, tag);
    let v = viewed(active, focused, tag);
    assert(active.contains(active[focused]));
    if !active.contains(tag) {
        let k = shown_from(active, tag, 0);
        if k < active.len() {
            assert(active.contains(active[k]));
        }
        if v.contains(active[focused]) {
            let j = v.index_of(active[focused]);
            assert(v[j] == active[focused]);
            assert(j != focused);
            assert(active[j] == active[focused]);
        }
    }
}

/// A view changes what is shown and where its clients stand, and nothing else: no client is lost or
/// changes its tag, and the focus, the ring and the focused monitor stay.
pub proof fn law_view_keeps_the_rest(s: WmState, tag: usize, i: int)
    requires
        s.wf(),
        tag < s.layouts.len(),
        0 <= i < s.clients.len(),
    ensures
        ({
            let t = after_view(s, tag);
            &&& t.active_tag() == tag
            &&& t.focused_monitor == s.focused_monitor
            &&& t.focus == s.focus && t.mru == s.mru && t.cycle == s.cycle
            &&& t.layouts == s.layouts && t.monitors == s.monitors
            &&& t.drag == s.drag && t.pending == s.pending
            &&& t.clients.len() == s.clients.len()
            &&& t.clients[i].window == s.clients[i].window
            &&& t.clients[i].tag == s.clients[i].tag
            &&& t.clients[i].title == s.clients[i].title
            &&& t.clients[i].floating == s.clients[i].floating
            &&& t.clients[i].fullscreen == s.clients[i].fullscreen
            &&& layout::floating_place(t.clients[i]) == layout::floating_place(s.clients[i])
            &&& tag == s.active_tag() ==> t.clients[i].unmap_ignore == s.clients[i].unmap_ignore
        }),
{
    let v = viewed(s.active_tags, s.focused_monitor, tag);
    let shown = showing(s, v);
    law_view_swaps(s.active_tags, s.focused_monitor, tag);
    lemma_arranged_same(shown, s.monitors.len() as int);
    lemma_floating_places(shown, s.monitors.len() as int, i);
    assert(shown.clients[i].window == s.clients[i].window);
}

/// The focus follows its window: a managed window that is focused has the focus, its monitor is the
/// focused one where its tag is shown, and it is first in the ring unless a cycle runs. No client,
/// and nothing that is shown, changes; a window that is not managed changes nothing at all.
pub proof fn law_focus_follows_the_window(s: WmState, w: u32, i: int)
    requires
        s.wf(),
        0 <= i < s.clients.len(),
    ensures
        ({
            let t = after_focus(s, Some(w));
            &&& t.clients == s.clients && t.active_tags == s.active_tags
            &&& t.layouts == s.layouts && t.cycle == s.cycle && t.drag == s.drag
            &&& s.clients[i].window == w ==> t.focus == Some(w)
            &&& s.clients[i].window == w && s.shows(s.clients[i].tag) ==> t.active_tag()
                == s.clients[i].tag
            &&& s.clients[i].window == w && !s.shows(s.clients[i].tag) ==> t.focused_monitor
                == s.focused_monitor
            &&& s.clients[i].window == w && s.cycle is None ==> t.mru[0] == w
            &&& s.cycle is Some ==> t.mru == s.mru
            &&& !is_managed(s.clients, w) ==> t == s
            &&& after_focus(t, Some(w)).focus == t.focus
            &&& after_focus(s, None) == (WmState { focus: None, ..s })
        }),
{
    lemma_find(s.clients, w, 0);
    if s.clients[i].window == w {
        lemma_managed_at(s.clients, w, i);
        let p = find(s.clients, w);
        if p != i {
            assert(s.clients[p].window == s.clients[i].window);
        }
        lemma_shown(s.active_tags, s.clients[i].tag, 0);
        mru::law_focus_keeps_ring(s.mru, w);
    }
}

/// The window that a tag is entered with is the one on it that was used last: it is on the tag and
/// in the ring, and no window of the tag stands before it. There is none only where no window of the
/// ring is on the tag.
pub proof fn law_tag_is_entered_with_its_last_window(s: WmState, tag: usize)
    ensures
        match top_of_tag(s, tag, 0) {
            Some(w) => {
                &&& s.mru.contains(w)
                &&& on_tag(s, w, tag)
                &&& exists|k: int|
                    0 <= k < s.mru.len() && s.mru[k] == w && (forall|j: int|
                        0 <= j < k ==> !on_tag(s, #[trigger] s.mru[j], tag))
            },
            None => forall|j: int| 0 <= j < s.mru.len() ==> !on_tag(s, #[trigger] s.mru[j], tag),
        },
{
    lemma_top(s, tag, 0);
    if let Some(w) = top_of_tag(s, tag, 0) {
        let k = choose|k: int|
            0 <= k < s.mru.len() && s.mru[k] == w && on_tag(s, w, tag) && (forall|j: int|
                0 <= j < k ==> !on_tag(s, #[trigger] s.mru[j], tag));
        assert(s.mru[k] == w);
    }
}

proof fn lemma_top(s: WmState, tag: usize, i: int)
    requires
        0 <= i <= s.mru.len(),
    ensures
        match top_of_tag(s, tag, i) {
            Some(w) => exists|k: int|
                i <= k < s.mru.len() && s.mru[k] == w && on_tag(s, w, tag) && (forall|j: int|
                    i <= j < k ==> !on_tag(s, #[trigger] s.mru[j], tag)),
            None => forall|j: int| i <= j < s.mru.len() ==> !on_tag(s, #[trigger] s.mru[j], tag),
        },
    decreases s.mru.len() - i,
{
    if i < s.mru.len() {
        if on_tag(s, s.mru[i], tag) {
            assert(s.mru[i] == s.mru[i]);
        } else {
            lemma_top(s, tag, i + 1);
            if let Some(w) = top_of_tag(s, tag, i) {
                let k = choose|k: int|
                    i + 1 <= k < s.mru.len() && s.mru[k] == w && on_tag(s, w, tag) && (forall|j: int|
                        i + 1 <= j < k ==> !on_tag(s, #[trigger] s.mru[j], tag));
                assert(i <= k < s.mru.len() && s.mru[k] == w && on_tag(s, w, tag));
                assert forall|j: int| i <= j < k implies !on_tag(s, #[trigger] s.mru[j], tag) by {}
            }
        }
    }
}

/// A window is on a tag exactly where some client of it says so.
pub proof fn law_window_is_on_its_clients_tag(s: WmState, i: int, tag: usize)
    requires
        s.wf(),
        0 <= i < s.clients.len(),
    ensures
        on_tag(s, s.clients[i].window, tag) == (s.clients[i].tag == tag),
{
    let w = s.clients[i].window;
    lemma_find(s.clients, w, 0);
    lemma_managed_at(s.clients, w, i);
    let p = find(s.clients, w);
    if p != i {
        assert(s.clients[p].window == s.clients[i].window);
    }
}

/// The tags stand in a round: a step forward leads to the next one, from the last to the first, and
/// a step back undoes it.
pub proof fn law_tags_stand_in_a_round(tag: int, n: int)
    requires
        0 <= tag < n,
    ensures
        0 <= neighbour(tag, n, true) < n,
        0 <= neighbour(tag, n, false) < n,
        neighbour(neighbour(tag, n, true), n, false) == tag,
        neighbour(neighbour(tag, n, false), n, true) == tag,
        tag < n - 1 ==> neighbour(tag, n, true) == tag + 1,
        neighbour(n - 1, n, true) == 0,
{
}

/// A window that is expected comes to the tag of the oldest command that waits for its class, and
/// that command waits no longer; the others wait on, in their order. A window that nobody waits for
/// comes to the tag of the focused monitor.
pub proof fn law_expected_window_comes_to_its_tag(
    s: WmState,
    c: Client,
    class: Seq<char>,
    p: int,
)
    requires
        s.wf(),
        !is_managed(s.clients, c.window),
    ensures
        ({
            let t = after_manage(s, c, class);
            let k = s.clients.len() as int;
            let tag = t.clients[k].tag;
            let oldest = 0 <= p < s.pending.len() && s.pending[p].class_match@ == class && (forall|
                j: int,
            |
                0 <= j < p ==> (#[trigger] s.pending[j]).class_match@ != class);
            let nobody = forall|j: int|
                0 <= j < s.pending.len() ==> (#[trigger] s.pending[j]).class_match@ != class;
            &&& t.clients.len() == k + 1
            &&& t.clients[k].window == c.window
            &&& t.clients[k].title == c.title
            &&& oldest ==> tag == s.pending[p].target_tag && t.pending == s.pending.remove(p)
            &&& nobody ==> tag == s.active_tag() && t.pending == s.pending
            &&& s.shows(tag) ==> t.focus == Some(c.window) && t.active_tag() == tag
            &&& !s.shows(tag) ==> t.focus == s.focus && t.mru == s.mru && t.focused_monitor
                == s.focused_monitor
            &&& s.shows(tag) && s.cycle is None ==> t.mru[0] == c.window
            &&& t.active_tags == s.active_tags
        }),
{
    let t = with_client(s, c, class);
    let f = after_focus(t, Some(c.window));
    let k = s.clients.len() as int;
    lemma_manage_wf(s, c, class);
    lemma_managed_at(t.clients, c.window, k);
    lemma_find(t.clients, c.window, 0);
    lemma_arranged_same(f, f.monitors.len() as int);
    assert(find(t.clients, c.window) == k) by {
        let q = find(t.clients, c.window);
        if q < k {
            lemma_managed_at(s.clients, c.window, q);
        }
    }
    lemma_shown(s.active_tags, tag_of_new(s, class), 0);
    lemma_first_pending(s.pending, class, 0);
    assert(t.clients[k].window == c.window);
}

proof fn lemma_first_pending(pending: Seq<PendingSpawn>, class: Seq<char>, i: int)
    requires
        0 <= i <= pending.len(),
    ensures
        i <= pending_from(pending, class, i) <= pending.len(),
        pending_from(pending, class, i) < pending.len() ==> pending[pending_from(
            pending,
            class,
            i,
        )].class_match@ == class,
        forall|j: int|
            i <= j < pending_from(pending, class, i) ==> (#[trigger] pending[j]).class_match@
                != class,
    decreases pending.len() - i,
{
    if i < pending.len() && pending[i].class_match@ != class {
        lemma_first_pending(pending, class, i + 1);
    }
}

/// A window that is managed already is not managed again.
pub proof fn law_window_is_managed_once(s: WmState, c: Client, class: Seq<char>)
    requires
        s.wf(),
    ensures
        is_managed(s.clients, c.window) ==> after_manage(s, c, class) == s,
        is_managed(after_manage(s, c, class).clients, c.window),
        after_manage(after_manage(s, c, class), c, class) == after_manage(s, c, class),
{
    if !is_managed(s.clients, c.window) {
        let k = s.clients.len() as int;
        let t = with_client(s, c, class);
        lemma_managed_at(t.clients, c.window, k);
        let f = after_focus(t, Some(c.window));
        lemma_arranged_same(f, f.monitors.len() as int);
        let u = after_manage(s, c, class);
        assert(u.clients[k].window == t.clients[k].window);
        lemma_managed_at(u.clients, c.window, k);
    }
}

/// A client that goes leaves no trace: it is managed no longer, it is neither in the ring nor
/// focused nor dragged, and every other client stays, in its order, with its tag. What is shown, the
/// layouts and what is waited for stay.
pub proof fn law_unmanaged_client_leaves_no_trace(s: WmState, i: int, j: int)
    requires
        s.wf(),
        0 <= i < s.clients.len(),
        0 <= j < s.clients.len() - 1,
    ensures
        ({
            let w = s.clients[i].window;
            let t = after_unmanage(s, w);
            let c = if j < i {
                s.clients[j]
            } else {
                s.clients[j + 1]
            };
            &&& !is_managed(t.clients, w)
            &&& !t.mru.contains(w)
            &&& t.focus != Some(w)
            &&& s.focus != Some(w) ==> t.focus == s.focus
            &&& t.drag matches Some(d) ==> d.window != w && s.drag == Some(d)
            &&& s.drag matches Some(d) ==> d.window != w ==> t.drag == s.drag
            &&& t.clients.len() == s.clients.len() - 1
            &&& t.clients[j].window == c.window && t.clients[j].tag == c.tag
            &&& t.active_tags == s.active_tags && t.layouts == s.layouts
            &&& t.pending == s.pending && t.focused_monitor == s.focused_monitor
        }),
{
    let w = s.clients[i].window;
    let gone = without_client(s, w);
    let t = after_unmanage(s, w);
    lemma_find(s.clients, w, 0);
    lemma_managed_at(s.clients, w, i);
    let p = find(s.clients, w);
    if p != i {
        assert(s.clients[p].window == s.clients[i].window);
    }
    mru::lemma_without(s.mru, w);
    lemma_arranged_same(gone, gone.monitors.len() as int);
    lemma_find(t.clients, w, 0);
    if is_managed(t.clients, w) {
        let q = find(t.clients, w);
        assert(t.clients[q].window == gone.clients[q].window);
        let a = if q < i {
            q
        } else {
            q + 1
        };
        assert(gone.clients[q] == s.clients[a]);
        assert(s.clients[a].window == s.clients[i].window);
    }
    assert(t.clients[j].window == gone.clients[j].window);
}

/// A window that is not managed cannot go.
pub proof fn law_unknown_window_cannot_go(s: WmState, w: u32)
    requires
        !is_managed(s.clients, w),
    ensures
        after_unmanage(s, w) == s,
        unmanage_requests(s, w).len() == 0,
{
}

/// Managing a window and letting it go again leaves the clients that were there as many as they
/// were, each with its window, its tag and the place where it floats.
pub proof fn law_passing_window_leaves_the_others(s: WmState, c: Client, class: Seq<char>, j: int)
    requires
        s.wf(),
        !is_managed(s.clients, c.window),
        0 <= j < s.clients.len(),
    ensures
        ({
            let t = after_unmanage(after_manage(s, c, class), c.window);
            &&& t.clients.len() == s.clients.len()
            &&& t.clients[j].window == s.clients[j].window
            &&& t.clients[j].tag == s.clients[j].tag
            &&& layout::floating_place(t.clients[j]) == layout::floating_place(s.clients[j])
            &&& t.active_tags == s.active_tags
        }),
{
    let u = after_manage(s, c, class);
    let a = with_client(s, c, class);
    let f = after_focus(a, Some(c.window));
    let k = s.clients.len() as int;
    lemma_manage_wf(s, c, class);
    lemma_arranged_same(f, f.monitors.len() as int);
    assert(a.clients[j] == s.clients[j]);
    assert(u.clients[k].window == c.window) by {
        assert(a.clients[k].window == c.window);
    }
    law_unmanaged_client_leaves_no_trace(u, k, j);
    let gone = without_client(u, c.window);
    lemma_find(u.clients, c.window, 0);
    lemma_managed_at(u.clients, c.window, k);
    let p = find(u.clients, c.window);
    if p != k {
        assert(u.clients[p].window == u.clients[k].window);
    }
    assert(gone.clients[j] == u.clients[j]);
    lemma_floating_places(gone, gone.monitors.len() as int, j);
    lemma_floating_places(f, f.monitors.len() as int, j);
}

/// A move to another tag moves the focused client and no other: it keeps its window and the place
/// where it floats, the others keep their tags, and the focus, the ring and what is shown stay.
/// Without a focused client nothing happens.
pub proof fn law_move_takes_the_focused_client_alone(s: WmState, tag: usize, i: int)
    requires
        s.wf(),
        tag < s.layouts.len(),
        0 <= i < s.clients.len(),
    ensures
        ({
            let t = after_move(s, tag);
            let c = s.clients[i];
            &&& t.clients.len() == s.clients.len()
            &&& t.clients[i].window == c.window
            &&& s.focus == Some(c.window) ==> t.clients[i].tag == tag
            &&& s.focus != Some(c.window) ==> t.clients[i].tag == c.tag && t.clients[i].unmap_ignore
                == c.unmap_ignore
            &&& layout::floating_place(t.clients[i]) == layout::floating_place(c)
            &&& t.focus == s.focus && t.mru == s.mru && t.active_tags == s.active_tags
            &&& t.focused_monitor == s.focused_monitor && t.layouts == s.layouts
            &&& s.focus is None ==> t == s && move_requests(s, tag).len() == 0
        }),
{
    if has_focused_client(s) {
        let w = s.focus->0;
        let p = find(s.clients, w);
        lemma_find(s.clients, w, 0);
        let m = moved(s, tag);
        lemma_arranged_same(m, m.monitors.len() as int);
        lemma_floating_places(m, m.monitors.len() as int, i);
        assert(m.clients[i].window == s.clients[i].window);
        if i != p {
            assert(s.clients[i].window != s.clients[p].window);
        }
    } else if let Some(w) = s.focus {
        if s.clients[i].window == w {
            lemma_managed_at(s.clients, w, i);
        }
    }
}

/// Moving a window away and back leaves every client on its tag.
pub proof fn law_move_back_restores_tags(s: WmState, tag: usize, i: int)
    requires
        s.wf(),
        tag < s.layouts.len(),
        has_focused_client(s),
        after_move(s, tag).wf(),
        0 <= i < s.clients.len(),
    ensures
        ({
            let home = s.clients[find(s.clients, s.focus->0)].tag;
            after_move(after_move(s, tag), home).clients[i].tag == s.clients[i].tag
        }),
{
    let w = s.focus->0;
    let p = find(s.clients, w);
    lemma_find(s.clients, w, 0);
    let t = after_move(s, tag);
    law_move_takes_the_focused_client_alone(s, tag, i);
    law_move_takes_the_focused_client_alone(t, s.clients[p].tag, i);
    if s.clients[i].window == w && i != p {
        assert(s.clients[i].window == s.clients[p].window);
    }
}

/// The name of a tag leads to the first tag of that name, and a name that no tag has to none.
pub proof fn law_tag_is_found_by_name(names: Seq<Seq<char>>, tag: Seq<char>)
    ensures
        ({
            let at = tag_index(names, tag, 0);
            &&& 0 <= at <= names.len()
            &&& at < names.len() ==> names[at] == tag
            &&& forall|j: int| 0 <= j < at ==> #[trigger] names[j] != tag
        }),
{
    lemma_tag_index(names, tag, 0);
}

proof fn lemma_tag_index(names: Seq<Seq<char>>, tag: Seq<char>, i: int)
    requires
        0 <= i <= names.len(),
    ensures
        i <= tag_index(names, tag, i) <= names.len(),
        tag_index(names, tag, i) < names.len() ==> names[tag_index(names, tag, i)] == tag,
        forall|j: int| i <= j < tag_index(names, tag, i) ==> #[trigger] names[j] != tag,
    decreases names.len() - i,
{
    if i < names.len() && names[i] != tag {
        lemma_tag_index(names, tag, i + 1);
    }
}

/// The state once the focused monitor's tag has the next layout.
pub open spec fn after_toggle(s: WmState) -> WmState {
    let tag = s.active_tag() as int;
    after_arrange(
        WmState { layouts: s.layouts.update(tag, layout::next_layout(s.layouts[tag])), ..s },
    )
}

/// A toggle changes the layout of the focused monitor's tag and of no other, and three of them come
/// back to it. No client changes its window, its tag or the place where it floats, and the focus and
/// what is shown stay.
pub proof fn law_toggle_changes_the_active_layout(s: WmState, tag: int, i: int)
    requires
        s.wf(),
        0 <= tag < s.layouts.len(),
        0 <= i < s.clients.len(),
    ensures
        ({
            let t = after_toggle(s);
            &&& t.layouts.len() == s.layouts.len()
            &&& tag == s.active_tag() ==> t.layouts[tag] != s.layouts[tag]
            &&& tag != s.active_tag() ==> t.layouts[tag] == s.layouts[tag]
            &&& after_toggle(after_toggle(t)).layouts[tag] == s.layouts[tag]
            &&& t.clients[i].window == s.clients[i].window && t.clients[i].tag == s.clients[i].tag
            &&& layout::floating_place(t.clients[i]) == layout::floating_place(s.clients[i])
            &&& t.active_tags == s.active_tags && t.focus == s.focus && t.mru == s.mru
        }),
{
    let act = s.active_tag() as int;
    assert(s.active_tags[s.focused_monitor] < s.layouts.len());
    let a = WmState {
        layouts: s.layouts.update(act, layout::next_layout(s.layouts[act])),
        ..s
    };
    lemma_arranged_same(a, a.monitors.len() as int);
    lemma_floating_places(a, a.monitors.len() as int, i);
    layout::law_layouts_cycle(s.layouts[act]);
}

/// The state once a tag is shown and its last used window focused.
pub open spec fn after_enter(s: WmState, tag: usize) -> WmState {
    let t = after_view(s, tag);
    after_focus(t, top_of_tag(t, tag, 0))
}

pub open spec fn enter_requests(s: WmState, tag: usize) -> Seq<Request> {
    let t = after_view(s, tag);
    view_requests(s, tag) + focus_requests(t, top_of_tag(t, tag, 0))
}

/// Entering a tag shows it on the focused monitor and focuses the window on it that was used last:
/// that window stands before every other of the tag in the ring. On a tag without such a window
/// nothing is focused.
pub proof fn law_entered_tag_has_the_focus(s: WmState, tag: usize, k: int)
    requires
        s.wf(),
        s.distinct_views(),
        tag < s.layouts.len(),
        0 <= k < s.mru.len(),
        on_tag(s, s.mru[k], tag),
        forall|j: int| 0 <= j < k ==> !on_tag(s, #[trigger] s.mru[j], tag),
    ensures
        ({
            let t = after_enter(s, tag);
            &&& t.focus == Some(s.mru[k])
            &&& t.active_tag() == tag
            &&& t.focused_monitor == s.focused_monitor
            &&& s.cycle is None ==> t.mru[0] == s.mru[k]
        }),
{
    let v = after_view(s, tag);
    let w = s.mru[k];
    assert forall|j: int| 0 <= j < s.mru.len() implies on_tag(v, #[trigger] s.mru[j], tag) == on_tag(
        s,
        s.mru[j],
        tag,
    ) by {
        assert(is_managed(s.clients, s.mru[j]));
        lemma_view_keeps_clients(s, tag, s.mru[j]);
    }
    law_tag_is_entered_with_its_last_window(v, tag);
    let top = top_of_tag(v, tag, 0);
    assert(on_tag(v, s.mru[k], tag));
    assert(top == Some(w)) by {
        match top {
            Some(x) => {
                let p = choose|p: int|
                    0 <= p < v.mru.len() && v.mru[p] == x && (forall|j: int|
                        0 <= j < p ==> !on_tag(v, #[trigger] v.mru[j], tag));
                assert(on_tag(v, v.mru[p], tag));
                if p < k {
                    assert(!on_tag(s, s.mru[p], tag));
                }
                if k < p {
                    assert(!on_tag(v, v.mru[k], tag));
                }
            },
            None => {
                assert(!on_tag(v, v.mru[k], tag));
            },
        }
    }
    law_view_swaps(s.active_tags, s.focused_monitor, tag);
    let a = viewed(s.active_tags, s.focused_monitor, tag);
    lemma_shown(a, tag, 0);
    let m = shown_from(a, tag, 0);
    assert(a[s.focused_monitor] == tag);
    assert(m == s.focused_monitor) by {
        if m < s.focused_monitor {
            assert(a[m] == a[s.focused_monitor]);
        }
    }
    assert(v.clients[find(v.clients, w)].tag == tag);
    mru::law_focus_keeps_ring(s.mru, w);
}

/// On a tag that no window of the ring is on, nothing is focused.
pub proof fn law_empty_tag_has_no_focus(s: WmState, tag: usize)
    requires
        s.wf(),
        tag < s.layouts.len(),
        forall|j: int| 0 <= j < s.mru.len() ==> !on_tag(s, #[trigger] s.mru[j], tag),
    ensures
        after_enter(s, tag).focus is None,
        after_enter(s, tag).mru == s.mru,
{
    let v = after_view(s, tag);
    law_tag_is_entered_with_its_last_window(v, tag);
    if let Some(w) = top_of_tag(v, tag, 0) {
        let p = choose|p: int|
            0 <= p < v.mru.len() && v.mru[p] == w && (forall|j: int|
                0 <= j < p ==> !on_tag(v, #[trigger] v.mru[j], tag));
        assert(is_managed(s.clients, s.mru[p]));
        lemma_view_keeps_clients(s, tag, s.mru[p]);
        assert(!on_tag(s, s.mru[p], tag));
    }
}

/// The state with a new set of monitors, before anything is laid out anew.
pub open spec fn replugged(
    s: WmState,
    monitors: Seq<Monitor>,
    master_widths: Seq<u32>,
) -> WmState {
    let n = monitors.len() as int;
    WmState {
        monitors,
        master_widths,
        focused_monitor: if s.focused_monitor < n {
            s.focused_monitor
        } else {
            n - 1
        },
        ..showing(s, plugged(s.active_tags, n, s.layouts.len() as int))
    }
}

pub open spec fn after_plug(
    s: WmState,
    monitors: Seq<Monitor>,
    master_widths: Seq<u32>,
) -> WmState {
    after_arrange(replugged(s, monitors, master_widths))
}

pub open spec fn plug_requests(
    s: WmState,
    monitors: Seq<Monitor>,
    master_widths: Seq<u32>,
) -> Seq<Request> {
    show_requests(
        s.clients,
        s.active_tags,
        plugged(s.active_tags, monitors.len() as int, s.layouts.len() as int),
        s.clients.len() as int,
    ) + arrange_requests(replugged(s, monitors, master_widths))
}

/// A new set of monitors leaves what it can: a monitor that stays shows what it showed, the focused
/// one stays the focused one, or the last one takes its place, and no client is lost, nor changes its
/// tag or the place where it floats. The layouts, the focus and the ring stay.
pub proof fn law_plugging_keeps_what_it_can(
    s: WmState,
    monitors: Seq<Monitor>,
    master_widths: Seq<u32>,
    m: int,
    i: int,
)
    requires
        s.wf(),
        s.layouts.len() <= usize::MAX,
        monitors.len() > 0,
        0 <= m < monitors.len(),
        0 <= i < s.clients.len(),
    ensures
        ({
            let t = after_plug(s, monitors, master_widths);
            &&& t.monitors == monitors && t.master_widths == master_widths
            &&& t.active_tags.len() == monitors.len()
            &&& m < s.monitors.len() ==> t.active_tags[m] == s.active_tags[m]
            &&& s.focused_monitor < monitors.len() ==> t.focused_monitor == s.focused_monitor
            &&& s.focused_monitor >= monitors.len() ==> t.focused_monitor == monitors.len() - 1
            &&& t.clients.len() == s.clients.len()
            &&& t.clients[i].window == s.clients[i].window && t.clients[i].tag == s.clients[i].tag
            &&& layout::floating_place(t.clients[i]) == layout::floating_place(s.clients[i])
            &&& t.layouts == s.layouts && t.focus == s.focus && t.mru == s.mru
        }),
{
    let n = monitors.len() as int;
    law_plug_keeps_views(s.active_tags, n, s.layouts.len() as int);
    let r = replugged(s, monitors, master_widths);
    lemma_arranged_same(r, n);
    lemma_floating_places(r, n, i);
    assert(r.clients[i].window == s.clients[i].window);
}

} // verus!
