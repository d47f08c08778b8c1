//! Layouts: where the clients of a tag stand.
use vstd::prelude::*;

use crate::text;
use crate::wm;
use crate::wm::{Client, Geometry, Request};

verus! {

/// How the clients of a tag are laid out.
#[derive(Debug, Clone, Copy, PartialEq, Eq, Structural)]
pub enum Layout {
    /// Each where it was put.
    Floating,
    /// One beside a column of the others.
    Tile,
    /// Each over the whole area.
    Monocle,
}

pub open spec fn next_layout(l: Layout) -> Layout {
    match l {
        Layout::Floating => Layout::Tile,
        Layout::Tile => Layout::Monocle,
        Layout::Monocle => Layout::Floating,
    }
}

/// The layout of a name. A name that is none is that of the floating one.
pub open spec fn layout_named(s: Seq<char>) -> Layout {
    if s == "tile"@ {
        Layout::Tile
    } else if s == "monocle"@ {
        Layout::Monocle
    } else {
        Layout::Floating
    }
}

impl Layout {
    pub fn next(self) -> (r: Layout)
        ensures
            r == next_layout(self),
    {
        match self {
            Layout::Floating => Layout::Tile,
            Layout::Tile => Layout::Monocle,
            Layout::Monocle => Layout::Floating,
        }
    }

    pub fn from_str(s: &str) -> (r: Layout)
        ensures
            r == layout_named(s@),
    {
        if text::same_text(s, "tile") {
            Layout::Tile
        } else if text::same_text(s, "monocle") {
            Layout::Monocle
        } else {
            Layout::Floating
        }
    }
}

/// Three steps come round.
pub proof fn law_layouts_cycle(l: Layout)
    ensures
        next_layout(next_layout(next_layout(l))) == l,
        next_layout(l) != l,
{
}

/// Whether the layout of `tag` places the client.
pub open spec fn is_tiled(c: Client, tag: usize) -> bool {
    c.tag == tag && !c.fullscreen && !c.floating
}

/// How many of the first `n` clients the layout of `tag` places.
pub open spec fn tiled_count(clients: Seq<Client>, tag: usize, n: int) -> int
    decreases n,
{
    if n <= 0 {
        0
    } else {
        tiled_count(clients, tag, n - 1) + if is_tiled(clients[n - 1], tag) {
            1int
        } else {
            0
        }
    }
}

/// The height of a client of the column, when `n` are tiled on `h` pixels.
pub open spec fn slice_height(h: int, n: int) -> int {
    h / (n - 1)
}

/// The place of the `k`th of `n` clients.
pub open spec fn slot(lay: Layout, work: Geometry, master_w: u32, k: int, n: int) -> Geometry {
    if lay != Layout::Tile || n == 1 {
        work
    } else if k == 0 {
        Geometry { w: master_w, ..work }
    } else {
        let slice = slice_height(work.h as int, n);
        Geometry {
            x: (work.x + master_w) as i32,
            y: (work.y + (k - 1) * slice) as i32,
            w: (work.w - master_w) as u32,
            h: if k == n - 1 {
                (work.h - (k - 1) * slice) as u32
            } else {
                slice as u32
            },
        }
    }
}

/// The `i`th client once the layout of `tag` is applied. A tiled client remembers where it
/// floated, and floats there again.
pub open spec fn arranged_client(
    clients: Seq<Client>,
    i: int,
    tag: usize,
    lay: Layout,
    work: Geometry,
    master_w: u32,
) -> Client {
    let c = clients[i];
    if !is_tiled(c, tag) {
        c
    } else if lay == Layout::Floating {
        match c.saved_floating {
            Some(g) => Client { saved_floating: None, ..c.placed(g) },
            None => c,
        }
    } else {
        let g = slot(
            lay,
            work,
            master_w,
            tiled_count(clients, tag, i),
            tiled_count(clients, tag, clients.len() as int),
        );
        Client {
            saved_floating: match c.saved_floating {
                Some(s) => Some(s),
                None => Some(c.geometry()),
            },
            ..c.placed(g)
        }
    }
}

pub open spec fn arranged(
    clients: Seq<Client>,
    tag: usize,
    lay: Layout,
    work: Geometry,
    master_w: u32,
) -> Seq<Client> {
    Seq::new(
        clients.len(),
        |i: int| arranged_client(clients, i, tag, lay, work, master_w),
    )
}

/// Whether the layout gives the client a place.
pub open spec fn is_placed(c: Client, tag: usize, lay: Layout) -> bool {
    is_tiled(c, tag) && (lay != Layout::Floating || c.saved_floating is Some)
}

/// The requests that put the first `n` clients in their places.
pub open spec fn place_requests(
    clients: Seq<Client>,
    tag: usize,
    lay: Layout,
    work: Geometry,
    master_w: u32,
    n: int,
) -> Seq<Request>
    decreases n,
{
    if n <= 0 {
        Seq::empty()
    } else {
        let so_far = place_requests(clients, tag, lay, work, master_w, n - 1);
        if is_placed(clients[n - 1], tag, lay) {
            so_far.push(
                Request::Configure {
                    window: clients[n - 1].window,
                    geometry: arranged_client(
                        clients,
                        n - 1,
                        tag,
                        lay,
                        work,
                        master_w,
                    ).geometry(),
                },
            )
        } else {
            so_far
        }
    }
}

/// The area in which clients can be placed: its corners have coordinates.
pub open spec fn work_fits(work: Geometry, master_w: u32) -> bool {
    &&& work.x + work.w <= i32::MAX
    &&& work.y + work.h <= i32::MAX
    &&& master_w <= work.w
}

proof fn lemma_tiled_count(clients: Seq<Client>, tag: usize, i: int, n: int)
    requires
        0 <= i <= n <= clients.len(),
    ensures
        0 <= tiled_count(clients, tag, i) <= tiled_count(clients, tag, n) <= n,
        i < n && is_tiled(clients[i], tag) ==> tiled_count(clients, tag, i) < tiled_count(
            clients,
            tag,
            n,
        ),
    decreases n,
{
    if n > i {
        lemma_tiled_count(clients, tag, i, n - 1);
    } else if n > 0 {
        lemma_tiled_count(clients, tag, i - 1, n - 1);
    }
}

fn count_tiled(clients: &Vec<Client>, tag: usize) -> (r: usize)
    ensures
        r == tiled_count(clients@, tag, clients@.len() as int),
{
    let mut n: usize = 0;
    let mut i: usize = 0;
    while i < clients.len()
        invariant
            i <= clients.len(),
            n == tiled_count(clients@, tag, i as int),
            n <= i,
        decreases clients.len() - i,
    {
        let c = &clients[i];
        if c.tag == tag && !c.fullscreen && !c.floating {
            n += 1;
        }
        i += 1;
    }
    n
}

proof fn lemma_slices(h: int, n: int, k: int)
    requires
        0 <= h,
        1 <= k < n,
    ensures
        0 <= slice_height(h, n) <= h,
        0 <= (k - 1) * slice_height(h, n) <= h,
        k < n - 1 ==> k * slice_height(h, n) <= h,
{
    let d = n - 1;
    let slice = h / d;
    assert(0 <= slice && slice * d <= h) by (nonlinear_arith)
        requires
            slice == h / d,
            d >= 1,
            h >= 0,
    ;
    assert(0 <= (k - 1) * slice <= slice * d) by (nonlinear_arith)
        requires
            0 <= slice,
            1 <= k <= d,
    ;
    assert(slice <= slice * d) by (nonlinear_arith)
        requires
            0 <= slice,
            1 <= d,
    ;
    if k < n - 1 {
        assert(k * slice <= slice * d) by (nonlinear_arith)
            requires
                0 <= slice,
                1 <= k <= d,
        ;
    }
}

fn slot_of(lay: Layout, work: Geometry, master_w: u32, k: usize, n: usize) -> (r: Geometry)
    requires
        work_fits(work, master_w),
        k < n,
    ensures
        r == slot(lay, work, master_w, k as int, n as int),
{
    if lay != Layout::Tile || n == 1 {
        return work;
    }
    if k == 0 {
        return Geometry { x: work.x, y: work.y, w: master_w, h: work.h };
    }
    proof {
        lemma_slices(work.h as int, n as int, k as int);
    }
    let slice = work.h as u64 / (n - 1) as u64;
    let above = (k - 1) as u64 * slice;
    Geometry {
        x: (work.x as i64 + master_w as i64) as i32,
        y: (work.y as i64 + above as i64) as i32,
        w: work.w - master_w,
        h: if k == n - 1 {
            (work.h as u64 - above) as u32
        } else {
            slice as u32
        },
    }
}

/// Applies the layout of `tag` to its clients, and asks for their places.
pub fn arrange_tag(
    clients: &mut Vec<Client>,
    tag: usize,
    lay: Layout,
    work: Geometry,
    master_w: u32,
    out: &mut Vec<Request>,
)
    requires
        work_fits(work, master_w),
    ensures
        final(clients)@ == arranged(old(clients)@, tag, lay, work, master_w),
        final(out)@ == old(out)@ + place_requests(
            old(clients)@,
            tag,
            lay,
            work,
            master_w,
            old(clients)@.len() as int,
        ),
{
    let ghost before = clients@;
    let ghost sent = out@;
    let n = count_tiled(clients, tag);
    let mut k: usize = 0;
    let mut i: usize = 0;
    while i < clients.len()
        invariant
            work_fits(work, master_w),
            i <= clients.len(),
            clients@.len() == before.len(),
            n == tiled_count(before, tag, before.len() as int),
            k == tiled_count(before, tag, i as int),
            k <= i,
            forall|j: int|
                0 <= j < i ==> clients@[j] == arranged_client(
                    before,
                    j,
                    tag,
                    lay,
                    work,
                    master_w,
                ),
            forall|j: int| i <= j < before.len() ==> clients@[j] == before[j],
            out@ == sent + place_requests(before, tag, lay, work, master_w, i as int),
        decreases clients.len() - i,
    {
        proof {
            lemma_tiled_count(before, tag, i as int, before.len() as int);
        }
        let tiled = clients[i].tag == tag && !clients[i].fullscreen && !clients[i].floating;
        if tiled {
            let place = match lay {
                Layout::Floating => clients[i].saved_floating.take(),
                _ => {
                    if clients[i].saved_floating.is_none() {
                        let c = &clients[i];
                        let g = Geometry { x: c.x, y: c.y, w: c.w, h: c.h };
                        clients[i].saved_floating = Some(g);
                    }
                    Some(slot_of(lay, work, master_w, k, n))
                },
            };
            if let Some(g) = place {
                clients[i].x = g.x;
                clients[i].y = g.y;
                clients[i].w = g.w;
                clients[i].h = g.h;
                out.push(Request::Configure { window: clients[i].window, geometry: g });
            }
            k += 1;
        }
        i += 1;
    }
    assert(clients@ =~= arranged(before, tag, lay, work, master_w));
}

/// Tiled clients cover the work area without overlap: the master column and the others' column
/// share the width, and each client of the column begins where the one above it ends, down to the
/// bottom.
pub proof fn law_tiles_cover_work_area(work: Geometry, master_w: u32, n: int, k: int)
    requires
        work_fits(work, master_w),
        n >= 2,
        1 <= k < n,
    ensures
        ({
            let master = slot(Layout::Tile, work, master_w, 0, n);
            let a = slot(Layout::Tile, work, master_w, k, n);
            let b = slot(Layout::Tile, work, master_w, k + 1, n);
            &&& master.x == work.x && master.y == work.y && master.h == work.h
            &&& a.x == master.x + master.w && master.w + a.w == work.w
            &&& k == 1 ==> a.y == work.y
            &&& k < n - 1 ==> b.y == a.y + a.h
            &&& k == n - 1 ==> a.y + a.h == work.y + work.h
        }),
{
    lemma_slices(work.h as int, n, k);
    let slice = slice_height(work.h as int, n);
    assert(k * slice == (k - 1) * slice + slice) by (nonlinear_arith);
    if k == 1 {
        assert((k - 1) * slice == 0) by (nonlinear_arith)
            requires
                k == 1,
        ;
    }
}

/// Where a client floats, or would float again.
pub open spec fn floating_place(c: Client) -> Geometry {
    match c.saved_floating {
        Some(g) => g,
        None => c.geometry(),
    }
}

/// No layout forgets where a client floats, and the floating one puts it there.
pub proof fn law_floating_place_is_kept(
    clients: Seq<Client>,
    tag: usize,
    lay: Layout,
    work: Geometry,
    master_w: u32,
    i: int,
)
    requires
        0 <= i < clients.len(),
    ensures
        ({
            let c = arranged(clients, tag, lay, work, master_w)[i];
            &&& floating_place(c) == floating_place(clients[i])
            &&& is_tiled(clients[i], tag) && lay == Layout::Floating ==> c.geometry()
                == floating_place(c) && c.saved_floating is None
        }),
{
}

proof fn lemma_place_requests(
    clients: Seq<Client>,
    tag: usize,
    lay: Layout,
    work: Geometry,
    master_w: u32,
    n: int,
    w: u32,
    g: Geometry,
)
    requires
        0 <= n <= clients.len(),
    ensures
        place_requests(clients, tag, lay, work, master_w, n).contains(
            Request::Configure { window: w, geometry: g },
        ) <==> exists|i: int|
            0 <= i < n && (#[trigger] clients[i]).window == w && is_placed(clients[i], tag, lay)
                && arranged(clients, tag, lay, work, master_w)[i].geometry() == g,
    decreases n,
{
    if n > 0 {
        lemma_place_requests(clients, tag, lay, work, master_w, n - 1, w, g);
        let so_far = place_requests(clients, tag, lay, work, master_w, n - 1);
        let all = place_requests(clients, tag, lay, work, master_w, n);
        let q = Request::Configure { window: w, geometry: g };
        let c = clients[n - 1];
        if is_placed(c, tag, lay) {
            if so_far.contains(q) {
                assert(all[so_far.index_of(q)] == q);
            }
            if all.last() == q {
                assert(all[all.len() - 1] == q);
            }
            if all.contains(q) {
                let k = all.index_of(q);
                if k < so_far.len() {
                    assert(so_far[k] == q);
                }
            }
        }
        assert(c == clients[n - 1]);
    }
}

/// The requests of a layout carry what it decides: each client that it places is sent the geometry
/// that it has in the state afterwards, and no other; a client that it does not place, because it is
/// on another tag, fullscreen or floating, or has nowhere to come back to, is sent nothing and stays
/// as it was.
pub proof fn law_requests_carry_the_new_places(
    clients: Seq<Client>,
    tag: usize,
    lay: Layout,
    work: Geometry,
    master_w: u32,
    i: int,
    g: Geometry,
)
    requires
        wm::distinct_windows(clients),
        0 <= i < clients.len(),
    ensures
        ({
            let c = clients[i];
            let after = arranged(clients, tag, lay, work, master_w)[i];
            let sent = place_requests(
                clients,
                tag,
                lay,
                work,
                master_w,
                clients.len() as int,
            );
            let in_layout = c.tag == tag && !c.fullscreen && !c.floating;
            let placed = in_layout && (lay != Layout::Floating || c.saved_floating is Some);
            &&& sent.contains(Request::Configure { window: c.window, geometry: g }) <==> placed && g
                == after.geometry()
            &&& !placed ==> after == c
            &&& after.window == c.window && after.tag == c.tag && after.title == c.title
            &&& after.fullscreen == c.fullscreen && after.floating == c.floating
            &&& after.unmap_ignore == c.unmap_ignore
            &&& placed && lay == Layout::Monocle ==> after.geometry() == work
            &&& placed && lay == Layout::Floating ==> Some(after.geometry()) == c.saved_floating
            &&& in_layout ==> (after.saved_floating is Some <==> lay != Layout::Floating)
        }),
{
    lemma_place_requests(
        clients,
        tag,
        lay,
        work,
        master_w,
        clients.len() as int,
        clients[i].window,
        g,
    );
}

/// No client of the layout of `tag` stands between two others.
pub open spec fn none_between(clients: Seq<Client>, tag: usize, i: int, j: int) -> bool {
    forall|k: int| i < k < j ==> !is_tiled(#[trigger] clients[k], tag)
}

proof fn lemma_none_tiled(clients: Seq<Client>, tag: usize, a: int, b: int)
    requires
        0 <= a <= b <= clients.len(),
        forall|k: int| a <= k < b ==> !is_tiled(#[trigger] clients[k], tag),
    ensures
        tiled_count(clients, tag, b) == tiled_count(clients, tag, a),
    decreases b - a,
{
    if a < b {
        lemma_none_tiled(clients, tag, a, b - 1);
    }
}

/// In the tiled layout the first client of the tag takes the master column, and the others the rest,
/// one below the other: the second begins at the top beside it, each further one begins where the one
/// before it ends, and the last reaches the bottom. Alone, the first takes the whole area. `i` and
/// `j` are neighbours among the clients of the tag.
pub proof fn law_tiled_clients_follow_each_other(
    clients: Seq<Client>,
    tag: usize,
    work: Geometry,
    master_w: u32,
    i: int,
    j: int,
)
    requires
        work_fits(work, master_w),
        0 <= i < j < clients.len(),
        clients[i].tag == tag && !clients[i].fullscreen && !clients[i].floating,
        clients[j].tag == tag && !clients[j].fullscreen && !clients[j].floating,
        none_between(clients, tag, i, j),
    ensures
        ({
            let after = arranged(clients, tag, Layout::Tile, work, master_w);
            let a = after[i];
            let b = after[j];
            let first = none_between(clients, tag, -1, i);
            let last = none_between(clients, tag, j, clients.len() as int);
            &&& first ==> a.geometry() == (Geometry { w: master_w, ..work })
            &&& first ==> b.y == work.y
            &&& b.x == work.x + master_w
            &&& b.w == work.w - master_w
            &&& !first ==> b.y == a.y + a.h
            &&& last ==> b.y + b.h == work.y + work.h
        }),
{
    let len = clients.len() as int;
    let n = tiled_count(clients, tag, len);
    lemma_tiled_count(clients, tag, i, len);
    lemma_tiled_count(clients, tag, j, len);
    lemma_none_tiled(clients, tag, i + 1, j);
    let ki = tiled_count(clients, tag, i);
    let kj = tiled_count(clients, tag, j);
    assert(kj == ki + 1);
    lemma_tiled_count(clients, tag, j + 1, len);
    if none_between(clients, tag, -1, i) {
        lemma_none_tiled(clients, tag, 0, i);
        assert(ki == 0);
    } else {
        let k = choose|k: int| -1 < k < i && is_tiled(#[trigger] clients[k], tag);
        lemma_tiled_count(clients, tag, k, i);
    }
    if none_between(clients, tag, j, len) {
        lemma_none_tiled(clients, tag, j + 1, len);
        assert(kj == n - 1);
    }
    law_tiles_cover_work_area(work, master_w, n, kj);
    if ki > 0 {
        law_tiles_cover_work_area(work, master_w, n, ki);
    }
}

/// A client that the tiled layout has for itself takes the whole area.
pub proof fn law_single_tile_takes_the_area(
    clients: Seq<Client>,
    tag: usize,
    work: Geometry,
    master_w: u32,
    i: int,
)
    requires
        0 <= i < clients.len(),
        clients[i].tag == tag && !clients[i].fullscreen && !clients[i].floating,
        none_between(clients, tag, -1, i),
        none_between(clients, tag, i, clients.len() as int),
    ensures
        arranged(clients, tag, Layout::Tile, work, master_w)[i].geometry() == work,
{
    lemma_none_tiled(clients, tag, 0, i);
    lemma_none_tiled(clients, tag, i + 1, clients.len() as int);
}

/// The clients of the column share its height evenly: any two but the last are equally high, and the
/// last takes what is left over, which is less than a pixel for each of them.
pub proof fn law_column_is_shared_evenly(
    clients: Seq<Client>,
    tag: usize,
    work: Geometry,
    master_w: u32,
    i: int,
    j: int,
)
    requires
        work_fits(work, master_w),
        0 <= i < j < clients.len(),
        clients[i].tag == tag && !clients[i].fullscreen && !clients[i].floating,
        clients[j].tag == tag && !clients[j].fullscreen && !clients[j].floating,
        !none_between(clients, tag, -1, i),
    ensures
        ({
            let after = arranged(clients, tag, Layout::Tile, work, master_w);
            let last = none_between(clients, tag, j, clients.len() as int);
            &&& !last ==> after[i].h == after[j].h
            &&& last ==> after[i].h <= after[j].h < after[i].h + clients.len()
        }),
{
    let len = clients.len() as int;
    let n = tiled_count(clients, tag, len);
    let k = choose|k: int| -1 < k < i && is_tiled(#[trigger] clients[k], tag);
    lemma_tiled_count(clients, tag, k, i);
    lemma_tiled_count(clients, tag, i, j);
    lemma_tiled_count(clients, tag, i, len);
    lemma_tiled_count(clients, tag, j, len);
    lemma_tiled_count(clients, tag, j + 1, len);
    let ki = tiled_count(clients, tag, i);
    let kj = tiled_count(clients, tag, j);
    let d = n - 1;
    let h = work.h as int;
    let slice = slice_height(h, n);
    lemma_slices(h, n, ki);
    lemma_slices(h, n, kj);
    if none_between(clients, tag, j, len) {
        lemma_none_tiled(clients, tag, j + 1, len);
        assert(kj == d);
        assert(slice <= h - (d - 1) * slice < slice + d) by (nonlinear_arith)
            requires
                slice == h / d,
                d >= 1,
                h >= 0,
        ;
    } else {
        let m = choose|m: int| j < m < len && is_tiled(#[trigger] clients[m], tag);
        lemma_tiled_count(clients, tag, j + 1, m);
        lemma_tiled_count(clients, tag, m, len);
    }
}

/// Laying out twice is laying out once, and asks for the same places again.
pub proof fn law_layout_is_stable(
    clients: Seq<Client>,
    tag: usize,
    lay: Layout,
    work: Geometry,
    master_w: u32,
)
    ensures
        ({
            let once = arranged(clients, tag, lay, work, master_w);
            arranged(once, tag, lay, work, master_w) == once
        }),
{
    let once = arranged(clients, tag, lay, work, master_w);
    lemma_count_kept(clients, once, tag, clients.len() as int);
    assert forall|i: int| 0 <= i < once.len() implies #[trigger] arranged(
        once,
        tag,
        lay,
        work,
        master_w,
    )[i] == once[i] by {
        lemma_count_kept(clients, once, tag, i);
    }
    assert(arranged(once, tag, lay, work, master_w) =~= once);
}

proof fn lemma_count_kept(a: Seq<Client>, b: Seq<Client>, tag: usize, n: int)
    requires
        a.len() == b.len(),
        0 <= n <= a.len(),
        forall|i: int| 0 <= i < a.len() ==> is_tiled(#[trigger] a[i], tag) == is_tiled(b[i], tag),
    ensures
        tiled_count(a, tag, n) == tiled_count(b, tag, n),
    decreases n,
{
    if n > 0 {
        lemma_count_kept(a, b, tag, n - 1);
        assert(is_tiled(a[n - 1], tag) == is_tiled(b[n - 1], tag));
    }
}

/// The names of the layouts are their own: each of the three names stands for one of them, and a
/// cycle of the layouts goes from floating windows over tiles to one over the other.
pub proof fn law_layouts_are_named()
    ensures
        layout_named("tile"@) == Layout::Tile,
        layout_named("monocle"@) == Layout::Monocle,
        layout_named("floating"@) == Layout::Floating,
        forall|s: Seq<char>| #[trigger]
            layout_named(s) == Layout::Tile ==> s == "tile"@,
        forall|s: Seq<char>| #[trigger]
            layout_named(s) == Layout::Monocle ==> s == "monocle"@,
        next_layout(Layout::Floating) == layout_named("tile"@),
        next_layout(Layout::Tile) == layout_named("monocle"@),
        next_layout(Layout::Monocle) == layout_named("floating"@),
{
    reveal_strlit("tile");
    reveal_strlit("monocle");
    reveal_strlit("floating");
    assert("monocle"@.len() != "tile"@.len());
    assert("floating"@.len() != "tile"@.len());
    assert("floating"@.len() != "monocle"@.len());
}

/// The layout of a tag looks at the clients of the tag alone.
pub proof fn lemma_same_tag_same_layout(
    a: Seq<Client>,
    b: Seq<Client>,
    tag: usize,
    lay: Layout,
    work: Geometry,
    master_w: u32,
    i: int,
)
    requires
        a.len() == b.len(),
        0 <= i < a.len(),
        a[i].tag == tag,
        forall|j: int| 0 <= j < a.len() ==> (#[trigger] a[j]).tag == b[j].tag,
        forall|j: int| 0 <= j < a.len() && (#[trigger] a[j]).tag == tag ==> b[j] == a[j],
    ensures
        arranged(b, tag, lay, work, master_w)[i] == arranged(a, tag, lay, work, master_w)[i],
{
    assert forall|j: int| 0 <= j < a.len() implies is_tiled(#[trigger] a[j], tag) == is_tiled(
        b[j],
        tag,
    ) by {
        assert(a[j].tag == b[j].tag);
    }
    lemma_count_kept(a, b, tag, i);
    lemma_count_kept(a, b, tag, a.len() as int);
}

} // verus!
