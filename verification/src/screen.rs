//! The screen as the display server keeps it, and how the requests change it.
//!
//! Whatever happens, the requests that answer it leave the screen as the window manager's state
//! says it is: each client stands where its client says, is mapped where some monitor shows its
//! tag, and has as many unmap notices to come as it expects.
use vstd::prelude::*;

use crate::event;
use crate::event::{BarInfo, ButtonPress, Event};
use crate::layout;
use crate::layout::Layout;
use crate::monitor::Monitor;
use crate::mouse;
use crate::mru;
use crate::mru::CycleScope;
use crate::wm;
use crate::wm::{Client, Geometry, Request, WmState};

verus! {

/// What the display server knows of its windows.
pub struct Screen {
    pub mapped: Set<u32>,
    pub places: Map<u32, Geometry>,
    /// The unmap notices that are under way, of each window.
    pub notices: Map<u32, int>,
    pub focus: Option<u32>,
    /// The window that was raised last.
    pub top: Option<u32>,
}

/// The screen after a request.
pub open spec fn after_request(sc: Screen, r: Request) -> Screen {
    match r {
        Request::Configure { window, geometry } => Screen {
            places: sc.places.insert(window, geometry),
            ..sc
        },
        Request::Move { window, x, y } => Screen {
            places: sc.places.insert(window, Geometry { x, y, ..sc.places[window] }),
            ..sc
        },
        Request::Resize { window, w, h } => Screen {
            places: sc.places.insert(window, Geometry { w, h, ..sc.places[window] }),
            ..sc
        },
        Request::Raise(w) => Screen { top: Some(w), ..sc },
        Request::Show(w) => Screen { mapped: sc.mapped.insert(w), ..sc },
        Request::Hide(w) => if sc.mapped.contains(w) {
            Screen {
                mapped: sc.mapped.remove(w),
                notices: sc.notices.insert(w, sc.notices[w] + 1),
                ..sc
            }
        } else {
            sc
        },
        Request::Focus(f) => Screen { focus: f, ..sc },
        Request::ReplayPointer | Request::UngrabKeyboard | Request::UngrabPointer => sc,
    }
}

/// The screen after requests, in their order.
pub open spec fn after_requests(sc: Screen, rs: Seq<Request>) -> Screen
    decreases rs.len(),
{
    if rs.len() == 0 {
        sc
    } else {
        after_request(after_requests(sc, rs.drop_last()), rs.last())
    }
}

proof fn lemma_push(sc: Screen, rs: Seq<Request>, r: Request)
    ensures
        after_requests(sc, rs.push(r)) == after_request(after_requests(sc, rs), r),
{
    assert(rs.push(r).drop_last() =~= rs);
}

proof fn lemma_append(sc: Screen, a: Seq<Request>, b: Seq<Request>)
    ensures
        after_requests(sc, a + b) == after_requests(after_requests(sc, a), b),
    decreases b.len(),
{
    if b.len() == 0 {
        assert(a + b =~= a);
    } else {
        assert((a + b).drop_last() =~= a + b.drop_last());
        lemma_append(sc, a, b.drop_last());
    }
}

/// A request that neither maps nor unmaps goes its way whatever is mapped.
proof fn lemma_mapped_apart(sc: Screen, mapped: Set<u32>, rs: Seq<Request>)
    requires
        forall|k: int| 0 <= k < rs.len() ==> !wm::is_mapping(#[trigger] rs[k]),
    ensures
        after_requests(Screen { mapped, ..sc }, rs) == (Screen {
            mapped,
            ..after_requests(sc, rs)
        }),
        after_requests(sc, rs).mapped == sc.mapped,
    decreases rs.len(),
{
    if rs.len() > 0 {
        lemma_mapped_apart(sc, mapped, rs.drop_last());
        assert(!wm::is_mapping(rs[rs.len() - 1]));
    }
}

/// The screen shows the client as its state says: at its place, mapped where its tag is shown, with
/// the notices that it expects.
pub open spec fn shows_client(sc: Screen, s: WmState, c: Client) -> bool {
    &&& sc.places[c.window] == c.geometry()
    &&& sc.mapped.contains(c.window) == s.active_tags.contains(c.tag)
    &&& sc.notices[c.window] == c.unmap_ignore
}

/// The screen shows the state.
pub open spec fn mirrors(sc: Screen, s: WmState) -> bool {
    &&& forall|i: int| 0 <= i < s.clients.len() ==> shows_client(sc, s, #[trigger] s.clients[i])
    &&& s.focus is Some ==> sc.focus == s.focus
}

/// No client expects so many notices that another could not be counted.
pub open spec fn notices_fit(clients: Seq<Client>) -> bool {
    forall|i: int| 0 <= i < clients.len() ==> (#[trigger] clients[i]).unmap_ignore < u32::MAX
}

// --- laying out ---

proof fn lemma_places(
    sc: Screen,
    clients: Seq<Client>,
    tag: usize,
    lay: Layout,
    work: Geometry,
    master_w: u32,
    n: int,
)
    requires
        wm::distinct_windows(clients),
        0 <= n <= clients.len(),
        forall|i: int|
            0 <= i < clients.len() ==> sc.places[(#[trigger] clients[i]).window]
                == clients[i].geometry(),
    ensures
        ({
            let t = after_requests(
                sc,
                layout::place_requests(clients, tag, lay, work, master_w, n),
            );
            let after = layout::arranged(clients, tag, lay, work, master_w);
            &&& t.mapped == sc.mapped
            &&& t.notices == sc.notices
            &&& t.focus == sc.focus
            &&& t.top == sc.top
            &&& forall|i: int|
                0 <= i < clients.len() ==> t.places[(#[trigger] clients[i]).window] == if i < n {
                    after[i].geometry()
                } else {
                    clients[i].geometry()
                }
        }),
    decreases n,
{
    if n > 0 {
        lemma_places(sc, clients, tag, lay, work, master_w, n - 1);
        let so_far = layout::place_requests(clients, tag, lay, work, master_w, n - 1);
        let c = clients[n - 1];
        let after = layout::arranged(clients, tag, lay, work, master_w);
        if layout::is_placed(c, tag, lay) {
            let q = layout::place_requests(clients, tag, lay, work, master_w, n).last();
            lemma_push(sc, so_far, q);
        } else {
            assert(after[n - 1] == c);
        }
    }
}

proof fn lemma_arranged_windows(s: WmState, m: int)
    requires
        wm::distinct_windows(s.clients),
    ensures
        wm::distinct_windows(wm::arranged_upto(s, m)),
{
    wm::lemma_arranged_same(s, m);
    let a = wm::arranged_upto(s, m);
    assert forall|i: int, j: int| 0 <= i < a.len() && 0 <= j < a.len() && i
        != j implies #[trigger] a[i].window != #[trigger] a[j].window by {
        assert(a[i].window == s.clients[i].window);
        assert(a[j].window == s.clients[j].window);
    }
}

proof fn lemma_arranged(sc: Screen, s: WmState, m: int)
    requires
        wm::distinct_windows(s.clients),
        forall|i: int|
            0 <= i < s.clients.len() ==> sc.places[(#[trigger] s.clients[i]).window]
                == s.clients[i].geometry(),
    ensures
        ({
            let t = after_requests(sc, wm::arrange_requests_upto(s, m));
            let after = wm::arranged_upto(s, m);
            &&& t.mapped == sc.mapped
            &&& t.notices == sc.notices
            &&& t.focus == sc.focus
            &&& t.top == sc.top || s.focus is Some && t.top == s.focus
            &&& (exists|k: int|
                0 <= k < m && s.layouts[#[trigger] s.active_tags[k] as int] == Layout::Monocle)
                && s.focus is Some ==> t.top == s.focus
            &&& after.len() == s.clients.len()
            &&& forall|i: int|
                0 <= i < after.len() ==> t.places[(#[trigger] after[i]).window]
                    == after[i].geometry()
        }),
    decreases m,
{
    wm::lemma_arranged_same(s, m);
    if m > 0 {
        lemma_arranged(sc, s, m - 1);
        lemma_arranged_windows(s, m - 1);
        let before = wm::arranged_upto(s, m - 1);
        let after = wm::arranged_upto(s, m);
        let tag = s.active_tags[m - 1];
        let lay = s.layouts[tag as int];
        let work = wm::work_area(s.monitors[m - 1], s.bar_height);
        let master_w = s.master_widths[m - 1];
        let first = wm::arrange_requests_upto(s, m - 1);
        let places = layout::place_requests(
            before,
            tag,
            lay,
            work,
            master_w,
            before.len() as int,
        );
        let rest = wm::tag_requests(before, tag, lay, work, master_w, s.focus);
        let mid = after_requests(sc, first);
        lemma_append(sc, first, rest);
        lemma_places(mid, before, tag, lay, work, master_w, before.len() as int);
        if let Some(w) = s.focus {
            if lay == Layout::Monocle {
                lemma_push(mid, places, Request::Raise(w));
            }
        }
        assert forall|i: int| 0 <= i < after.len() implies after_requests(
            sc,
            wm::arrange_requests_upto(s, m),
        ).places[(#[trigger] after[i]).window] == after[i].geometry() by {
            assert(after[i].window == before[i].window);
        }
        if exists|k: int|
            0 <= k < m && s.layouts[#[trigger] s.active_tags[k] as int] == Layout::Monocle {
            let k = choose|k: int|
                0 <= k < m && s.layouts[#[trigger] s.active_tags[k] as int] == Layout::Monocle;
            assert(k == m - 1 || 0 <= k < m - 1);
        }
    }
}

/// Laying out is shown: each client comes to stand at the place that its layout gives it, none is
/// mapped or unmapped, the focus stays, and only the focused window is raised, which it is where a
/// monitor shows its windows one over the other.
pub proof fn law_arrange_is_shown(sc: Screen, s: WmState)
    requires
        s.wf(),
        mirrors(sc, s),
    ensures
        ({
            let t = after_requests(sc, wm::arrange_requests(s));
            &&& mirrors(t, wm::after_arrange(s))
            &&& t.mapped == sc.mapped
            &&& t.notices == sc.notices
            &&& t.focus == sc.focus
            &&& t.top == sc.top || s.focus is Some && t.top == s.focus
            &&& (exists|m: int|
                0 <= m < s.monitors.len() && s.layouts[#[trigger] s.active_tags[m] as int]
                    == Layout::Monocle) && s.focus is Some ==> t.top == s.focus
        }),
{
    let n = s.monitors.len() as int;
    assert forall|i: int| 0 <= i < s.clients.len() implies sc.places[(
    #[trigger] s.clients[i]).window] == s.clients[i].geometry() by {
        assert(shows_client(sc, s, s.clients[i]));
    }
    lemma_arranged(sc, s, n);
    wm::lemma_arranged_same(s, n);
    let a = wm::after_arrange(s);
    let t = after_requests(sc, wm::arrange_requests(s));
    assert forall|i: int| 0 <= i < a.clients.len() implies shows_client(
        t,
        a,
        #[trigger] a.clients[i],
    ) by {
        assert(shows_client(sc, s, s.clients[i]));
        assert(a.clients[i].window == s.clients[i].window);
    }
}

/// The next layout is shown, whatever the layouts were.
pub proof fn law_layout_change_is_shown(sc: Screen, s: WmState, layouts: Seq<Layout>)
    requires
        s.wf(),
        layouts.len() == s.layouts.len(),
        mirrors(sc, s),
    ensures
        ({
            let t = WmState { layouts, ..s };
            mirrors(after_requests(sc, wm::arrange_requests(t)), wm::after_arrange(t))
        }),
{
    let t = WmState { layouts, ..s };
    assert(mirrors(sc, t)) by {
        assert forall|i: int| 0 <= i < t.clients.len() implies shows_client(
            sc,
            t,
            #[trigger] t.clients[i],
        ) by {
            assert(shows_client(sc, s, s.clients[i]));
        }
    }
    law_arrange_is_shown(sc, t);
}

// --- tags ---

proof fn lemma_shown_tags(
    sc: Screen,
    clients: Seq<Client>,
    before: Seq<usize>,
    after: Seq<usize>,
    n: int,
)
    requires
        wm::distinct_windows(clients),
        0 <= n <= clients.len(),
        forall|i: int|
            0 <= i < clients.len() ==> sc.mapped.contains((#[trigger] clients[i]).window)
                == before.contains(clients[i].tag),
    ensures
        ({
            let t = after_requests(sc, wm::show_requests(clients, before, after, n));
            &&& t.places == sc.places
            &&& t.focus == sc.focus
            &&& t.top == sc.top
            &&& forall|i: int|
                0 <= i < clients.len() ==> t.mapped.contains((#[trigger] clients[i]).window)
                    == if i < n {
                    after.contains(clients[i].tag)
                } else {
                    before.contains(clients[i].tag)
                }
            &&& forall|i: int|
                0 <= i < clients.len() ==> t.notices[(#[trigger] clients[i]).window]
                    == sc.notices[clients[i].window] + if i < n && before.contains(clients[i].tag)
                    && !after.contains(clients[i].tag) {
                    1int
                } else {
                    0
                }
        }),
    decreases n,
{
    if n > 0 {
        lemma_shown_tags(sc, clients, before, after, n - 1);
        let so_far = wm::show_requests(clients, before, after, n - 1);
        let all = wm::show_requests(clients, before, after, n);
        if all.len() > so_far.len() {
            lemma_push(sc, so_far, all.last());
        }
        let mid = after_requests(sc, so_far);
        assert(mid.mapped.contains(clients[n - 1].window) == before.contains(clients[n - 1].tag));
    }
}

/// A change of the shown tags is shown.
proof fn lemma_showing(sc: Screen, s: WmState, after: Seq<usize>)
    requires
        wm::distinct_windows(s.clients),
        notices_fit(s.clients),
        mirrors(sc, s),
    ensures
        ({
            let t = after_requests(
                sc,
                wm::show_requests(s.clients, s.active_tags, after, s.clients.len() as int),
            );
            &&& mirrors(t, wm::showing(s, after))
            &&& t.focus == sc.focus
            &&& t.top == sc.top
            &&& t.places == sc.places
        }),
{
    assert forall|i: int| 0 <= i < s.clients.len() implies sc.mapped.contains(
        (#[trigger] s.clients[i]).window,
    ) == s.active_tags.contains(s.clients[i].tag) by {
        assert(shows_client(sc, s, s.clients[i]));
    }
    lemma_shown_tags(sc, s.clients, s.active_tags, after, s.clients.len() as int);
    let a = wm::showing(s, after);
    let t = after_requests(
        sc,
        wm::show_requests(s.clients, s.active_tags, after, s.clients.len() as int),
    );
    assert forall|i: int| 0 <= i < a.clients.len() implies shows_client(
        t,
        a,
        #[trigger] a.clients[i],
    ) by {
        assert(shows_client(sc, s, s.clients[i]));
        assert(a.clients[i] == wm::reshown(s.clients[i], s.active_tags, after));
        assert(a.clients[i].window == s.clients[i].window);
        assert(s.clients[i].unmap_ignore < u32::MAX);
    }
}

proof fn lemma_viewed_wf(s: WmState, tag: usize)
    requires
        s.wf(),
        tag < s.layouts.len(),
    ensures
        wm::showing(s, wm::viewed(s.active_tags, s.focused_monitor, tag)).wf(),
        wm::after_view(s, tag).wf(),
{
    let v = wm::viewed(s.active_tags, s.focused_monitor, tag);
    wm::law_view_swaps(s.active_tags, s.focused_monitor, tag);
    wm::lemma_shown(s.active_tags, tag, 0);
    wm::lemma_showing_wf(s, v);
    wm::lemma_arrange_wf(wm::showing(s, v));
}

/// A view of another tag is shown: the clients of the tags that come into view are mapped, those of
/// the tags that leave it are unmapped, and each stands at its place.
pub proof fn law_view_is_shown(sc: Screen, s: WmState, tag: usize)
    requires
        s.wf(),
        tag < s.layouts.len(),
        notices_fit(s.clients),
        mirrors(sc, s),
    ensures
        ({
            let t = after_requests(sc, wm::view_requests(s, tag));
            &&& mirrors(t, wm::after_view(s, tag))
            &&& t.focus == sc.focus
            &&& wm::after_view(s, tag).active_tag() == tag
            &&& forall|i: int|
                0 <= i < s.clients.len() && (#[trigger] s.clients[i]).tag == tag
                    ==> t.mapped.contains(s.clients[i].window)
        }),
{
    let v = wm::viewed(s.active_tags, s.focused_monitor, tag);
    let mapping = wm::show_requests(s.clients, s.active_tags, v, s.clients.len() as int);
    let shown = wm::showing(s, v);
    lemma_viewed_wf(s, tag);
    lemma_showing(sc, s, v);
    lemma_append(sc, mapping, wm::arrange_requests(shown));
    law_arrange_is_shown(after_requests(sc, mapping), shown);
    wm::law_view_swaps(s.active_tags, s.focused_monitor, tag);
    let a = wm::after_view(s, tag);
    let t = after_requests(sc, wm::view_requests(s, tag));
    wm::lemma_arranged_same(shown, shown.monitors.len() as int);
    assert forall|i: int|
        0 <= i < s.clients.len() && (#[trigger] s.clients[i]).tag
            == tag implies t.mapped.contains(s.clients[i].window) by {
        assert(shown.clients[i].window == s.clients[i].window);
        assert(shows_client(t, a, a.clients[i]));
        assert(a.clients[i].tag == tag);
        assert(v[s.focused_monitor] == tag);
    }
}

/// A new set of monitors is shown.
pub proof fn law_plugging_is_shown(
    sc: Screen,
    s: WmState,
    monitors: Seq<Monitor>,
    master_widths: Seq<u32>,
)
    requires
        s.wf(),
        monitors.len() > 0,
        wm::screens_fit(monitors, master_widths, s.bar_height),
        s.layouts.len() <= usize::MAX,
        notices_fit(s.clients),
        mirrors(sc, s),
    ensures
        mirrors(
            after_requests(sc, wm::plug_requests(s, monitors, master_widths)),
            wm::after_plug(s, monitors, master_widths),
        ),
{
    let n = monitors.len() as int;
    let after = wm::plugged(s.active_tags, n, s.layouts.len() as int);
    let shown = wm::showing(s, after);
    let t = wm::replugged(s, monitors, master_widths);
    let mapping = wm::show_requests(s.clients, s.active_tags, after, s.clients.len() as int);
    wm::law_plug_keeps_views(s.active_tags, n, s.layouts.len() as int);
    lemma_showing(sc, s, after);
    let mid = after_requests(sc, mapping);
    assert(t.wf()) by {
        assert forall|i: int| 0 <= i < s.clients.len() implies (#[trigger] s.clients[i]).window
            == t.clients[i].window by {
            assert(t.clients[i].window == s.clients[i].window);
        }
        wm::lemma_ring_same(s.clients, t.clients, s.mru);
        assert forall|i: int| 0 <= i < t.clients.len() implies (#[trigger] t.clients[i]).tag
            < t.layouts.len() by {
            assert(t.clients[i].tag == s.clients[i].tag);
        }
        assert forall|i: int, j: int|
            0 <= i < t.clients.len() && 0 <= j < t.clients.len() && i
                != j implies #[trigger] t.clients[i].window != #[trigger] t.clients[j].window by {
            assert(t.clients[i].window == s.clients[i].window);
            assert(t.clients[j].window == s.clients[j].window);
        }
    }
    assert(mirrors(mid, t)) by {
        assert forall|i: int| 0 <= i < t.clients.len() implies shows_client(
            mid,
            t,
            #[trigger] t.clients[i],
        ) by {
            assert(shows_client(mid, shown, shown.clients[i]));
        }
    }
    lemma_append(sc, mapping, wm::arrange_requests(t));
    law_arrange_is_shown(mid, t);
}

/// The move of the focused window to another tag is shown: it is mapped afterwards exactly where
/// that tag is shown, and the windows left behind are laid out anew.
pub proof fn law_move_is_shown(sc: Screen, s: WmState, tag: usize)
    requires
        s.wf(),
        tag < s.layouts.len(),
        notices_fit(s.clients),
        mirrors(sc, s),
    ensures
        ({
            let t = after_requests(sc, wm::move_requests(s, tag));
            &&& mirrors(t, wm::after_move(s, tag))
            &&& t.focus == sc.focus
            &&& s.focus matches Some(w) ==> wm::is_managed(s.clients, w) ==> wm::after_move(
                s,
                tag,
            ).clients[wm::find(s.clients, w)].tag == tag && t.mapped.contains(w)
                == s.active_tags.contains(tag)
        }),
{
    if wm::has_focused_client(s) {
        let w = s.focus->0;
        let p = wm::find(s.clients, w);
        wm::lemma_find(s.clients, w, 0);
        assert(shows_client(sc, s, s.clients[p]));
        let m = wm::moved(s, tag);
        let was = s.shows(s.clients[p].tag);
        let now = s.shows(tag);
        let mapping: Seq<Request> = if was && !now {
            seq![Request::Hide(w)]
        } else if !was && now {
            seq![Request::Show(w)]
        } else {
            Seq::empty()
        };
        let mid = after_requests(sc, mapping);
        if mapping.len() > 0 {
            lemma_push(sc, Seq::empty(), mapping[0]);
            assert(Seq::<Request>::empty().push(mapping[0]) =~= mapping);
        }
        assert(mid.places == sc.places && mid.focus == sc.focus);
        assert forall|i: int| 0 <= i < m.clients.len() implies shows_client(
            mid,
            m,
            #[trigger] m.clients[i],
        ) by {
            assert(shows_client(sc, s, s.clients[i]));
            if i != p {
                assert(m.clients[i] == s.clients[i]);
                assert(s.clients[i].window != s.clients[p].window);
            } else {
                assert(s.clients[p].unmap_ignore < u32::MAX);
            }
        }
        assert(m.wf()) by {
            assert forall|i: int| 0 <= i < s.clients.len() implies (#[trigger] s.clients[i]).window
                == m.clients[i].window by {
                assert(m.clients[i].window == s.clients[i].window);
            }
            wm::lemma_ring_same(s.clients, m.clients, s.mru);
            assert forall|i: int| 0 <= i < m.clients.len() implies (#[trigger] m.clients[i]).tag
                < m.layouts.len() by {
                assert(m.clients[i].tag == tag || m.clients[i].tag == s.clients[i].tag);
            }
            assert forall|i: int, j: int|
                0 <= i < m.clients.len() && 0 <= j < m.clients.len() && i
                    != j implies #[trigger] m.clients[i].window != #[trigger] m.clients[j].window by {
                assert(m.clients[i].window == s.clients[i].window);
                assert(m.clients[j].window == s.clients[j].window);
            }
        }
        lemma_append(sc, mapping, wm::arrange_requests(m));
        law_arrange_is_shown(mid, m);
        wm::lemma_arranged_same(m, m.monitors.len() as int);
        let a = wm::after_move(s, tag);
        let t = after_requests(sc, wm::move_requests(s, tag));
        assert(shows_client(t, a, a.clients[p]));
        assert(a.clients[p].window == w && a.clients[p].tag == tag);
    }
}

// --- focus ---

/// A focus is shown: the window has the server's focus and is raised, and nothing else changes.
pub proof fn law_focus_is_shown(sc: Screen, s: WmState, target: Option<u32>)
    requires
        mirrors(sc, s),
    ensures
        ({
            let t = after_requests(sc, wm::focus_requests(s, target));
            &&& mirrors(t, wm::after_focus(s, target))
            &&& t.mapped == sc.mapped
            &&& t.places == sc.places
            &&& t.notices == sc.notices
            &&& target is None ==> t.focus is None && wm::after_focus(s, target).focus is None
            &&& target matches Some(w) ==> wm::is_managed(s.clients, w) ==> t.focus == Some(w)
                && t.top == Some(w) && wm::after_focus(s, target).focus == Some(w)
            &&& target matches Some(w) ==> !wm::is_managed(s.clients, w) ==> t == sc
                && wm::after_focus(s, target) == s
        }),
{
    let a = wm::after_focus(s, target);
    let rs = wm::focus_requests(s, target);
    let t = after_requests(sc, rs);
    reveal_with_fuel(after_requests, 3);
    match target {
        None => {
            assert(rs.drop_last() =~= Seq::empty());
        },
        Some(w) => {
            if wm::is_managed(s.clients, w) {
                assert(rs.drop_last() =~= seq![Request::Focus(Some(w))]);
                assert(rs.drop_last().drop_last() =~= Seq::empty());
            }
        },
    }
    assert forall|i: int| 0 <= i < a.clients.len() implies shows_client(
        t,
        a,
        #[trigger] a.clients[i],
    ) by {
        assert(shows_client(sc, s, s.clients[i]));
    }
}

proof fn lemma_same_clients(sc: Screen, s: WmState, t: WmState)
    requires
        mirrors(sc, s),
        t.clients == s.clients,
        t.active_tags == s.active_tags,
        t.focus is Some ==> t.focus == s.focus,
    ensures
        mirrors(sc, t),
{
    assert forall|i: int| 0 <= i < t.clients.len() implies shows_client(
        sc,
        t,
        #[trigger] t.clients[i],
    ) by {
        assert(shows_client(sc, s, s.clients[i]));
    }
}

/// A view that also focuses is shown.
pub proof fn law_view_with_focus_is_shown(sc: Screen, s: WmState, tag: usize, top: Option<u32>)
    requires
        s.wf(),
        tag < s.layouts.len(),
        notices_fit(s.clients),
        mirrors(sc, s),
    ensures
        ({
            let a = wm::after_view(s, tag);
            let t = after_requests(sc, wm::view_requests(s, tag) + wm::focus_requests(a, top));
            mirrors(t, wm::after_focus(a, top))
        }),
{
    let a = wm::after_view(s, tag);
    law_view_is_shown(sc, s, tag);
    lemma_append(sc, wm::view_requests(s, tag), wm::focus_requests(a, top));
    law_focus_is_shown(after_requests(sc, wm::view_requests(s, tag)), a, top);
}

/// Entering a tag is shown.
pub proof fn law_enter_is_shown(sc: Screen, s: WmState, tag: usize)
    requires
        s.wf(),
        tag < s.layouts.len(),
        notices_fit(s.clients),
        mirrors(sc, s),
    ensures
        ({
            let t = after_requests(sc, wm::enter_requests(s, tag));
            &&& mirrors(t, wm::after_enter(s, tag))
            &&& t.focus == wm::after_enter(s, tag).focus
        }),
{
    let a = wm::after_view(s, tag);
    let top = wm::top_of_tag(a, tag, 0);
    law_view_with_focus_is_shown(sc, s, tag, top);
    law_view_is_shown(sc, s, tag);
    lemma_append(sc, wm::view_requests(s, tag), wm::focus_requests(a, top));
    law_focus_is_shown(after_requests(sc, wm::view_requests(s, tag)), a, top);
    wm::law_tag_is_entered_with_its_last_window(a, tag);
}

/// A step of a cycle is shown: whatever tag its window is on, the window is mapped, has the
/// server's focus and is raised, and every client is mapped exactly where its tag is shown then.
pub proof fn law_cycle_step_is_shown(sc: Screen, s: WmState, candidates: Seq<u32>, index: int)
    requires
        s.wf(),
        0 <= index < candidates.len(),
        notices_fit(s.clients),
        mirrors(sc, s),
    ensures
        ({
            let w = candidates[index];
            let t = after_requests(sc, mru::candidate_requests(s, candidates, index));
            &&& mirrors(t, mru::on_candidate(s, candidates, index))
            &&& wm::is_managed(s.clients, w) ==> t.mapped.contains(w) && t.focus == Some(w)
                && t.top == Some(w)
            &&& !wm::is_managed(s.clients, w) ==> t == sc
        }),
{
    let w = candidates[index];
    let begun = WmState { cycle: Some((candidates, index)), ..s };
    let r = mru::revealed(begun, w);
    let first = mru::reveal_requests(begun, w);
    let p = wm::find(s.clients, w);
    lemma_same_clients(sc, s, begun);
    assert(begun.wf());
    wm::lemma_find(s.clients, w, 0);
    lemma_append(sc, first, wm::focus_requests(r, Some(w)));
    let mid = after_requests(sc, first);
    if wm::is_managed(s.clients, w) {
        let tag = s.clients[p].tag;
        assert(shows_client(sc, s, s.clients[p]));
        if !s.shows(tag) {
            law_view_is_shown(sc, begun, tag);
            wm::lemma_view_keeps_clients(begun, tag, w);
            assert(begun.clients[p].tag == tag);
        } else {
            assert(mid == sc);
        }
        assert(mid.mapped.contains(w));
        assert(wm::is_managed(r.clients, w));
    }
    law_focus_is_shown(mid, r, Some(w));
}

/// Any number of presses of the cycle key is shown: the screen that the requests of each press lead
/// to is the one that the state says, and no request of one press is left for another.
pub proof fn law_press_is_shown(sc: Screen, s: WmState, forward: bool, scope: CycleScope)
    requires
        s.wf(),
        notices_fit(s.clients),
        mirrors(sc, s),
    ensures
        ({
            let (candidates, index) = match s.cycle {
                Some(c) => c,
                None => (mru::cycle_candidates(s, scope), 0),
            };
            let next = mru::stepped(index, candidates.len() as int, forward);
            &&& candidates.len() >= 2 ==> mirrors(
                after_requests(sc, mru::candidate_requests(s, candidates, next)),
                mru::after_press(s, forward, scope),
            )
            &&& candidates.len() < 2 ==> mirrors(sc, mru::after_press(s, forward, scope))
            &&& mirrors(
                after_requests(sc, seq![Request::UngrabKeyboard]),
                mru::after_finish(s),
            )
        }),
{
    let (candidates, index) = match s.cycle {
        Some(c) => c,
        None => (mru::cycle_candidates(s, scope), 0),
    };
    let next = mru::stepped(index, candidates.len() as int, forward);
    if candidates.len() >= 2 {
        mru::law_steps_are_inverse(index, candidates.len() as int);
        law_cycle_step_is_shown(sc, s, candidates, next);
    }
    lemma_ungrab(sc, Request::UngrabKeyboard);
    lemma_same_clients(sc, s, mru::after_finish(s));
}

proof fn lemma_ungrab(sc: Screen, r: Request)
    requires
        r == Request::UngrabKeyboard || r == Request::UngrabPointer || r == Request::ReplayPointer,
    ensures
        after_requests(sc, seq![r]) == sc,
{
    reveal_with_fuel(after_requests, 2);
    assert(seq![r].drop_last() =~= Seq::empty());
}

// --- managing ---

/// A window that is managed is shown: it is mapped where its tag is shown, with the focus and on
/// top, at the place that its layout gives it, and stays unmapped elsewhere.
pub proof fn law_manage_is_shown(sc: Screen, s: WmState, c: Client, class: Seq<char>)
    requires
        s.wf(),
        mirrors(sc, s),
        !wm::is_managed(s.clients, c.window) ==> sc.places[c.window] == c.geometry()
            && !sc.mapped.contains(c.window) && sc.notices[c.window] == c.unmap_ignore,
    ensures
        ({
            let t = after_requests(sc, wm::manage_requests(s, c, class));
            let shown = s.shows(wm::tag_of_new(s, class));
            &&& mirrors(t, wm::after_manage(s, c, class))
            &&& !wm::is_managed(s.clients, c.window) ==> t.mapped.contains(c.window) == shown
            &&& !wm::is_managed(s.clients, c.window) && shown ==> t.focus == Some(c.window) && t.top
                == Some(c.window)
        }),
{
    let w = c.window;
    let a = wm::after_manage(s, c, class);
    let rs = wm::manage_requests(s, c, class);
    wm::lemma_find(s.clients, w, 0);
    if wm::is_managed(s.clients, w) {
        let p = wm::find(s.clients, w);
        assert(shows_client(sc, s, s.clients[p]));
        if s.shows(s.clients[p].tag) {
            reveal_with_fuel(after_requests, 2);
            assert(rs.drop_last() =~= Seq::empty());
            assert(sc.mapped.insert(w) =~= sc.mapped);
        }
    } else {
        wm::lemma_manage_wf(s, c, class);
        let t = wm::with_client(s, c, class);
        let tag = wm::tag_of_new(s, class);
        let k = s.clients.len() as int;
        let new = t.clients[k];
        wm::lemma_managed_at(t.clients, w, k);
        if s.shows(tag) {
            let f = wm::after_focus(t, Some(w));
            let sc0 = Screen { mapped: sc.mapped.insert(w), ..sc };
            let first = wm::focus_requests(t, Some(w));
            let second = wm::arrange_requests(f);
            assert forall|i: int| 0 <= i < t.clients.len() implies shows_client(
                sc0,
                t,
                #[trigger] t.clients[i],
            ) by {
                if i < k {
                    assert(t.clients[i] == s.clients[i]);
                    assert(shows_client(sc, s, s.clients[i]));
                    assert(t.clients[i].window != w);
                }
            }
            assert(mirrors(sc0, t));
            law_focus_is_shown(sc0, t, Some(w));
            let sc1 = after_requests(sc0, first);
            wm::lemma_focus_wf(t, Some(w));
            law_arrange_is_shown(sc1, f);
            let sc2 = after_requests(sc1, second);
            lemma_append(sc0, first, second);
            wm::lemma_arrange_maps_nothing(f, f.monitors.len() as int);
            lemma_mapped_apart(sc, sc0.mapped, first + second);
            lemma_push(sc, first + second, Request::Show(w));
            assert(rs =~= (first + second).push(Request::Show(w)));
            assert(after_requests(sc, first + second).mapped == sc.mapped);
            assert(after_requests(sc, rs) == sc2);
        } else {
            assert forall|i: int| 0 <= i < t.clients.len() implies shows_client(
                sc,
                t,
                #[trigger] t.clients[i],
            ) by {
                if i < k {
                    assert(t.clients[i] == s.clients[i]);
                    assert(shows_client(sc, s, s.clients[i]));
                }
            }
        }
    }
}

/// A client that goes is shown: those that stay stand where their layouts put them without it.
pub proof fn law_unmanage_is_shown(sc: Screen, s: WmState, w: u32)
    requires
        s.wf(),
        mirrors(sc, s),
    ensures
        ({
            let t = after_requests(sc, wm::unmanage_requests(s, w));
            &&& mirrors(t, wm::after_unmanage(s, w))
            &&& t.mapped == sc.mapped
            &&& t.focus == sc.focus
        }),
{
    if wm::is_managed(s.clients, w) {
        let p = wm::find(s.clients, w);
        let t = wm::without_client(s, w);
        wm::lemma_find(s.clients, w, 0);
        wm::lemma_unmanage_wf(s, w);
        assert forall|i: int| 0 <= i < t.clients.len() implies shows_client(
            sc,
            t,
            #[trigger] t.clients[i],
        ) by {
            let j = if i < p {
                i
            } else {
                i + 1
            };
            assert(t.clients[i] == s.clients[j]);
            assert(shows_client(sc, s, s.clients[j]));
        }
        law_arrange_is_shown(sc, t);
    }
}

// --- dragging ---

/// What a drag begins with is shown: the focus, and the window out of its layout, where it stood.
pub proof fn law_drag_start_is_shown(sc: Screen, s: WmState, w: u32)
    requires
        s.wf(),
        mirrors(sc, s),
        mouse::draggable(s, w),
    ensures
        ({
            let t = after_requests(sc, mouse::prepare_requests(s, w));
            let a = mouse::after_prepare(s, w);
            &&& mirrors(t, a)
            &&& t.mapped == sc.mapped
            &&& t.focus == Some(w)
            &&& t.top == Some(w)
            &&& t.places[w] == sc.places[w]
        }),
{
    let f = wm::after_focus(s, Some(w));
    let p = wm::find(s.clients, w);
    let first = wm::focus_requests(s, Some(w));
    let second = mouse::float_requests(f, w);
    wm::lemma_find(s.clients, w, 0);
    wm::lemma_focus_wf(s, Some(w));
    law_focus_is_shown(sc, s, Some(w));
    lemma_append(sc, first, second);
    let sc1 = after_requests(sc, first);
    assert(shows_client(sc, s, s.clients[p]));
    if f.layouts[f.active_tag() as int] != Layout::Floating && !f.clients[p].floating {
        let t = mouse::taken_out(f, w);
        mouse::lemma_taken_out_wf(f, w);
        assert forall|i: int| 0 <= i < t.clients.len() implies shows_client(
            sc1,
            t,
            #[trigger] t.clients[i],
        ) by {
            assert(shows_client(sc1, f, f.clients[i]));
        }
        assert(mirrors(sc1, t));
        law_arrange_is_shown(sc1, t);
        let a = wm::after_arrange(t);
        mouse::lemma_out_of_layout(t, t.monitors.len() as int, p);
        assert(shows_client(after_requests(sc1, second), a, a.clients[p]));
    }
}

/// A motion is shown: the dragged window goes with the pointer on the screen as in the state.
pub proof fn law_motion_is_shown(sc: Screen, s: WmState, x: i16, y: i16)
    requires
        s.wf(),
        mirrors(sc, s),
    ensures
        ({
            let t = after_requests(sc, mouse::motion_requests(s, x, y));
            &&& mirrors(t, mouse::after_motion(s, x, y))
            &&& t.mapped == sc.mapped
            &&& t.focus == sc.focus
            &&& t.top == sc.top
        }),
{
    let rs = mouse::motion_requests(s, x, y);
    let t = after_requests(sc, rs);
    let a = mouse::after_motion(s, x, y);
    if let Some(d) = s.drag {
        reveal_with_fuel(after_requests, 2);
        assert(rs.drop_last() =~= Seq::empty());
        wm::lemma_find(s.clients, d.window, 0);
        let p = wm::find(s.clients, d.window);
        assert forall|i: int| 0 <= i < a.clients.len() implies shows_client(
            t,
            a,
            #[trigger] a.clients[i],
        ) by {
            assert(shows_client(sc, s, s.clients[i]));
            if i != p {
                assert(a.clients[i] == s.clients[i]);
                assert(s.clients[i].window != d.window);
            }
        }
    }
}

// --- events ---

/// The screen once the server has told of an event: a notice of our own unmapping has arrived.
pub open spec fn told(sc: Screen, root: u32, ev: Event) -> Screen {
    match ev {
        Event::UnmapNotify { event, window } => if event == root && sc.notices[window] > 0 {
            Screen { notices: sc.notices.insert(window, sc.notices[window] - 1), ..sc }
        } else {
            sc
        },
        _ => sc,
    }
}

proof fn lemma_click_is_shown(sc: Screen, s: WmState, bar: BarInfo, ev: ButtonPress)
    requires
        s.wf(),
        s.layouts.len() <= usize::MAX,
        bar.wf(s.layouts.len() as int),
        notices_fit(s.clients),
        mirrors(sc, s),
    ensures
        mirrors(
            after_requests(sc, event::click_requests(s, bar, ev)),
            event::after_click(s, bar, ev),
        ),
{
    match event::clicked_tag(bar, ev) {
        Some((panel, tag)) => {
            let from = event::on_panel(s, panel);
            let t = wm::after_view(from, tag as usize);
            event::lemma_panel(bar.panels@, ev.event, 0);
            event::lemma_tag_at(bar.tag_extents@, ev.event_x as int, 0);
            lemma_same_clients(sc, s, from);
            assert(from.wf());
            law_view_with_focus_is_shown(
                sc,
                from,
                tag as usize,
                wm::top_of_tag(t, tag as usize, 0),
            );
        },
        None => {
            let w = event::click_target(s, ev);
            if w == 0 || !wm::is_managed(s.clients, w) {
                lemma_ungrab(sc, Request::ReplayPointer);
            } else if event::is_drag_click(ev) {
                if mouse::draggable(s, w) {
                    law_drag_start_is_shown(sc, s, w);
                }
            } else {
                law_focus_is_shown(sc, s, Some(w));
                lemma_push(sc, wm::focus_requests(s, Some(w)), Request::ReplayPointer);
            }
        },
    }
}

/// Every event is shown: whatever the server tells, the requests that answer it leave the screen as
/// the state after the event says. A window that asks to be shown for the first time stands
/// unmapped where it says.
pub proof fn law_event_is_shown(
    sc: Screen,
    s: WmState,
    bar: BarInfo,
    modifiers: Seq<u8>,
    ev: Event,
)
    requires
        s.wf(),
        s.layouts.len() <= usize::MAX,
        bar.wf(s.layouts.len() as int),
        notices_fit(s.clients),
        mirrors(sc, s),
        ev matches Event::MapRequest(m) ==> !wm::is_managed(s.clients, m.client.window)
            ==> sc.places[m.client.window] == m.client.geometry() && !sc.mapped.contains(
            m.client.window,
        ) && sc.notices[m.client.window] == m.client.unmap_ignore,
    ensures
        mirrors(
            after_requests(told(sc, s.root, ev), event::event_requests(s, bar, modifiers, ev)),
            event::after_event(s, bar, modifiers, ev),
        ),
{
    let a = event::after_event(s, bar, modifiers, ev);
    match ev {
        Event::MapRequest(m) => {
            if !m.override_redirect {
                law_manage_is_shown(sc, s, m.client, m.class@);
            }
        },
        Event::UnmapNotify { event, window } => {
            let p = wm::find(s.clients, window);
            wm::lemma_find(s.clients, window, 0);
            if p < s.clients.len() {
                assert(shows_client(sc, s, s.clients[p]));
            }
            if event == s.root && event::unmap_expected(s, window) {
                let t = told(sc, s.root, ev);
                assert forall|i: int| 0 <= i < a.clients.len() implies shows_client(
                    t,
                    a,
                    #[trigger] a.clients[i],
                ) by {
                    assert(shows_client(sc, s, s.clients[i]));
                    if i != p {
                        assert(a.clients[i] == s.clients[i]);
                        assert(s.clients[i].window != window);
                    }
                }
            } else {
                let t = told(sc, s.root, ev);
                assert(mirrors(t, s)) by {
                    assert forall|i: int| 0 <= i < s.clients.len() implies shows_client(
                        t,
                        s,
                        #[trigger] s.clients[i],
                    ) by {
                        assert(shows_client(sc, s, s.clients[i]));
                        if s.clients[i].window == window {
                            wm::lemma_managed_at(s.clients, window, i);
                            assert(p == i);
                        }
                    }
                }
                if event == s.root {
                    law_unmanage_is_shown(t, s, window);
                }
            }
        },
        Event::DestroyNotify { window } => {
            law_unmanage_is_shown(sc, s, window);
        },
        Event::KeyRelease { keycode } => {
            lemma_ungrab(sc, Request::UngrabKeyboard);
            lemma_same_clients(sc, s, a);
        },
        Event::ButtonPress(b) => {
            lemma_click_is_shown(sc, s, bar, b);
        },
        Event::ButtonRelease => {
            lemma_ungrab(sc, Request::UngrabPointer);
            lemma_same_clients(sc, s, a);
        },
        Event::MotionNotify { root_x, root_y } => {
            law_motion_is_shown(sc, s, root_x, root_y);
        },
        Event::PropertyNotify { window, is_name, title } => {
            let p = wm::find(s.clients, window);
            wm::lemma_find(s.clients, window, 0);
            assert forall|i: int| 0 <= i < a.clients.len() implies shows_client(
                sc,
                a,
                #[trigger] a.clients[i],
            ) by {
                assert(shows_client(sc, s, s.clients[i]));
            }
        },
        _ => {},
    }
}

} // verus!
