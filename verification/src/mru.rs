//! The most-recently-used ring: every focusable window once, the last focused first.
//!
//! While a cycle runs its candidates are frozen and the ring keeps its order; the window that the
//! cycle ends on is then moved to the front.
use vstd::arithmetic::div_mod::{
    lemma_fundamental_div_mod, lemma_fundamental_div_mod_converse, lemma_mod_bound, lemma_small_mod,
};
use vstd::prelude::*;
use vstd::std_specs::cmp::PartialEqSpec;

use crate::wm;
use crate::wm::{Client, Request, Wm, WmState};

verus! {

/// Which windows a cycle runs over.
#[derive(Debug, Clone, Copy, PartialEq, Eq, Structural)]
pub enum CycleScope {
    /// Those of the focused monitor's active tag.
    Tag,
    /// All of them.
    All,
}

/// A running cycle.
#[derive(Debug)]
pub struct CycleState<W> {
    pub candidates: Vec<W>,
    pub index: usize,
}

/// The ring.
#[derive(Debug, Clone)]
pub struct MruRing<W> {
    items: Vec<W>,
}

/// `==` on window names tells them apart exactly.
pub open spec fn names_compare<W: PartialEq>() -> bool {
    &&& W::obeys_eq_spec()
    &&& forall|a: W, b: W| #[trigger] a.eq_spec(&b) == (a == b)
}

/// The sequence without the occurrences of `w`.
pub open spec fn without<W>(s: Seq<W>, w: W) -> Seq<W>
    decreases s.len(),
{
    if s.len() == 0 {
        Seq::empty()
    } else if s.last() == w {
        without(s.drop_last(), w)
    } else {
        without(s.drop_last(), w).push(s.last())
    }
}

pub proof fn lemma_without<W>(s: Seq<W>, w: W)
    ensures
        !without(s, w).contains(w),
        forall|x: W| x != w ==> without(s, w).contains(x) == #[trigger] s.contains(x),
        s.no_duplicates() ==> without(s, w).no_duplicates(),
        without(s, w).len() <= s.len(),
        !s.contains(w) ==> without(s, w) == s,
    decreases s.len(),
{
    if s.len() > 0 {
        let t = s.drop_last();
        let r = without(t, w);
        lemma_without(t, w);
        assert(s =~= t.push(s.last()));
        assert forall|x: W| x != w implies without(s, w).contains(x) == #[trigger] s.contains(
            x,
        ) by {
            if s.contains(x) {
                let i = s.index_of(x);
                if i < t.len() {
                    assert(t[i] == x);
                    assert(t.contains(x));
                    let j = r.index_of(x);
                    assert(without(s, w)[j] == x);
                } else {
                    assert(without(s, w).last() == x);
                }
            }
            if without(s, w).contains(x) {
                let i = without(s, w).index_of(x);
                if i < r.len() {
                    assert(r[i] == x);
                    assert(r.contains(x));
                    assert(t.contains(x));
                    let j = t.index_of(x);
                    assert(s[j] == x);
                } else {
                    assert(s.last() == x);
                }
            }
        }
        if without(s, w).contains(w) {
            let i = without(s, w).index_of(w);
            if i < r.len() {
                assert(r[i] == w);
            }
        }
        if s.no_duplicates() {
            assert(t.no_duplicates()) by {
                assert forall|i: int, j: int| 0 <= i < t.len() && 0 <= j < t.len() && i != j implies t[i]
                    != t[j] by {
                    assert(t[i] == s[i] && t[j] == s[j]);
                }
            }
            assert(!t.contains(s.last())) by {
                if t.contains(s.last()) {
                    let i = t.index_of(s.last());
                    assert(s[i] == s[s.len() - 1]);
                }
            }
            if s.last() != w {
                assert(!r.contains(s.last()));
                assert forall|i: int, j: int|
                    0 <= i < r.len() + 1 && 0 <= j < r.len() + 1 && i != j implies r.push(
                    s.last(),
                )[i] != r.push(s.last())[j] by {
                    if i == r.len() {
                        assert(r.contains(r[j]));
                    }
                    if j == r.len() {
                        assert(r.contains(r[i]));
                    }
                }
            }
        }
        if !s.contains(w) {
            assert(s.last() != w) by {
                assert(s[s.len() - 1] == s.last());
            }
            assert(!t.contains(w)) by {
                if t.contains(w) {
                    let i = t.index_of(w);
                    assert(s[i] == w);
                }
            }
            assert(without(s, w) =~= s);
        }
    }
}

/// Copies what differs from `w`.
pub fn remove_all<W: Copy + Eq>(v: &Vec<W>, w: W) -> (r: Vec<W>)
    requires
        names_compare::<W>(),
    ensures
        r@ == without(v@, w),
{
    let mut out: Vec<W> = Vec::new();
    let mut i: usize = 0;
    assert(v@.take(0) =~= Seq::empty());
    while i < v.len()
        invariant
            names_compare::<W>(),
            i <= v.len(),
            out@ == without(v@.take(i as int), w),
        decreases v.len() - i,
    {
        let x = v[i];
        proof {
            assert(v@.take(i + 1).drop_last() =~= v@.take(i as int));
            assert(v@.take(i + 1).last() == x);
        }
        if x != w {
            out.push(x);
        }
        i += 1;
    }
    assert(v@.take(i as int) =~= v@);
    out
}

impl<W> CycleState<W> {
    pub open spec fn wf(&self) -> bool {
        self.index < self.candidates@.len()
    }
}

/// The index one step on, round the end of `len` candidates.
pub open spec fn stepped(index: int, len: int, forward: bool) -> int {
    if len < 2 {
        index
    } else if forward {
        if index + 1 == len {
            0
        } else {
            index + 1
        }
    } else if index == 0 {
        len - 1
    } else {
        index - 1
    }
}

impl<W: Copy + Eq> CycleState<W> {
    /// Moves the cycle on by one candidate, round the end. Nothing moves where there are fewer
    /// than two.
    pub fn advance(&mut self, forward: bool)
        requires
            old(self).candidates@.len() >= 2 ==> old(self).wf(),
        ensures
            old(self).wf() ==> final(self).wf(),
            final(self).candidates == old(self).candidates,
            final(self).index == stepped(
                old(self).index as int,
                old(self).candidates@.len() as int,
                forward,
            ),
    {
        let len = self.candidates.len();
        if len < 2 {
            return;
        }
        self.index = if forward {
            if self.index + 1 == len {
                0
            } else {
                self.index + 1
            }
        } else if self.index == 0 {
            len - 1
        } else {
            self.index - 1
        };
    }

    /// The candidate that the cycle stands on.
    pub fn current(&self) -> (r: Option<W>)
        ensures
            r == if self.index < self.candidates@.len() {
                Some(self.candidates@[self.index as int])
            } else {
                None
            },
    {
        if self.index < self.candidates.len() {
            Some(self.candidates[self.index])
        } else {
            None
        }
    }
}

impl<W> View for MruRing<W> {
    type V = Seq<W>;

    closed spec fn view(&self) -> Seq<W> {
        self.items@
    }
}

impl<W> Default for MruRing<W> {
    fn default() -> (r: Self)
        ensures
            r@ == Seq::<W>::empty(),
    {
        MruRing { items: Vec::new() }
    }
}

/// The ring after `w` was focused.
pub open spec fn promoted<W>(ring: Seq<W>, w: W) -> Seq<W> {
    seq![w] + without(ring, w)
}

/// Focusing a managed window keeps a ring one of managed windows, each once.
pub proof fn lemma_promoted_managed(clients: Seq<Client>, ring: Seq<u32>, w: u32)
    requires
        ring.no_duplicates(),
        wm::ring_managed(clients, ring),
        wm::is_managed(clients, w),
    ensures
        promoted(ring, w).no_duplicates(),
        wm::ring_managed(clients, promoted(ring, w)),
{
    law_focus_keeps_ring(ring, w);
    let p = promoted(ring, w);
    assert forall|i: int| 0 <= i < p.len() implies wm::is_managed(clients, #[trigger] p[i]) by {
        assert(p.contains(p[i]));
        if p[i] != w {
            assert(ring.contains(p[i]));
            let j = ring.index_of(p[i]);
            assert(wm::is_managed(clients, ring[j]));
        }
    }
}

impl<W: Copy + Eq> MruRing<W> {
    pub fn new() -> (r: Self)
        ensures
            r@ == Seq::<W>::empty(),
    {
        MruRing { items: Vec::new() }
    }

    /// Moves `w` to the front; it stands nowhere else.
    pub fn on_focus(&mut self, w: W)
        requires
            names_compare::<W>(),
        ensures
            final(self)@ == promoted(old(self)@, w),
    {
        let mut items = remove_all(&self.items, w);
        items.insert(0, w);
        self.items = items;
        assert(self@ =~= promoted(old(self)@, w));
    }

    /// Drops a window that is gone.
    pub fn on_unmanage(&mut self, gone: W)
        requires
            names_compare::<W>(),
        ensures
            final(self)@ == without(old(self)@, gone),
    {
        self.items = remove_all(&self.items, gone);
    }

    pub fn as_slice(&self) -> (r: &[W])
        ensures
            r@ == self@,
    {
        self.items.as_slice()
    }
}

// --- cycling ---

/// What a press of the cycle key leads to.
#[derive(Debug)]
pub enum CycleStep {
    /// There is nowhere to go.
    Nothing,
    /// A cycle can begin over these candidates once the keyboard is grabbed.
    Grab(Vec<u32>),
    /// The running cycle moved on.
    Moved(Vec<Request>),
}

/// The windows among the first `n` of the ring that are on `tag`.
pub open spec fn ring_on_tag(s: WmState, tag: usize, n: int) -> Seq<u32>
    decreases n,
{
    if n <= 0 {
        Seq::empty()
    } else if wm::on_tag(s, s.mru[n - 1], tag) {
        ring_on_tag(s, tag, n - 1).push(s.mru[n - 1])
    } else {
        ring_on_tag(s, tag, n - 1)
    }
}

/// What a cycle that begins now runs over.
pub open spec fn cycle_candidates(s: WmState, scope: CycleScope) -> Seq<u32> {
    match scope {
        CycleScope::All => s.mru,
        CycleScope::Tag => ring_on_tag(s, s.active_tag(), s.mru.len() as int),
    }
}

/// The state that shows the window's tag, where no monitor does yet.
pub open spec fn revealed(s: WmState, target: u32) -> WmState {
    let p = wm::find(s.clients, target);
    if wm::is_managed(s.clients, target) && !s.shows(s.clients[p].tag) {
        wm::after_view(s, s.clients[p].tag)
    } else {
        s
    }
}

pub open spec fn reveal_requests(s: WmState, target: u32) -> Seq<Request> {
    let p = wm::find(s.clients, target);
    if wm::is_managed(s.clients, target) && !s.shows(s.clients[p].tag) {
        wm::view_requests(s, s.clients[p].tag)
    } else {
        Seq::empty()
    }
}

/// The window is shown and focused.
pub open spec fn after_target(s: WmState, target: u32) -> WmState {
    wm::after_focus(revealed(s, target), Some(target))
}

pub open spec fn target_requests(s: WmState, target: u32) -> Seq<Request> {
    reveal_requests(s, target) + wm::focus_requests(revealed(s, target), Some(target))
}

/// The state with the cycle on candidate `index`.
pub open spec fn on_candidate(s: WmState, candidates: Seq<u32>, index: int) -> WmState {
    after_target(WmState { cycle: Some((candidates, index)), ..s }, candidates[index])
}

pub open spec fn candidate_requests(s: WmState, candidates: Seq<u32>, index: int) -> Seq<Request> {
    target_requests(WmState { cycle: Some((candidates, index)), ..s }, candidates[index])
}

fn candidates_of(wm: &Wm, scope: CycleScope) -> (r: Vec<u32>)
    requires
        wm.wf(),
    ensures
        r@ == cycle_candidates(wm@, scope),
{
    let ring = wm.mru.as_slice();
    let tag = wm.active_tags[wm.focused_monitor];
    let mut out: Vec<u32> = Vec::new();
    let mut i: usize = 0;
    while i < ring.len()
        invariant
            ring@ == wm.mru@,
            i <= ring@.len(),
            tag == wm@.active_tag(),
            scope == CycleScope::All ==> out@ == ring@.take(i as int),
            scope == CycleScope::Tag ==> out@ == ring_on_tag(wm@, tag, i as int),
        decreases ring.len() - i,
    {
        let w = ring[i];
        let wanted = match scope {
            CycleScope::All => true,
            CycleScope::Tag => wm.window_on_tag(w, tag),
        };
        if wanted {
            out.push(w);
        }
        i += 1;
        assert(scope == CycleScope::All ==> out@ =~= ring@.take(i as int));
    }
    assert(ring@.take(i as int) =~= ring@);
    out
}

fn focus_target(wm: &mut Wm, target: u32) -> (r: Vec<Request>)
    requires
        old(wm).wf(),
    ensures
        final(wm).wf(),
        final(wm)@ == after_target(old(wm)@, target),
        r@ == target_requests(old(wm)@, target),
{
    let mut out: Vec<Request> = Vec::new();
    let p = wm.find_client(target);
    if p < wm.clients.len() {
        let tag = wm.clients[p].tag;
        if !wm.is_shown(tag) {
            out = wm.view_tag_no_focus(tag);
        }
    }
    let mut more = wm.focus_window(Some(target));
    out.append(&mut more);
    out
}

/// A press of the cycle key. A running cycle moves on over the candidates it began with; else the
/// candidates of a new one are found, of which there must be two.
pub fn start_or_advance(wm: &mut Wm, forward: bool, scope: CycleScope) -> (r: CycleStep)
    requires
        old(wm).wf(),
    ensures
        final(wm).wf(),
        match old(wm)@.cycle {
            Some((candidates, index)) => {
                let next = stepped(index, candidates.len() as int, forward);
                if candidates.len() < 2 {
                    r is Nothing && final(wm)@ == old(wm)@
                } else {
                    &&& r matches CycleStep::Moved(sent) && sent@ == candidate_requests(
                        old(wm)@,
                        candidates,
                        next,
                    )
                    &&& final(wm)@ == on_candidate(old(wm)@, candidates, next)
                    &&& final(wm)@ == after_press(old(wm)@, forward, scope)
                }
            },
            None => {
                let candidates = cycle_candidates(old(wm)@, scope);
                &&& final(wm)@ == old(wm)@
                &&& match r {
                    CycleStep::Nothing => candidates.len() < 2,
                    CycleStep::Grab(c) => c@ == candidates && candidates.len() >= 2,
                    CycleStep::Moved(_) => false,
                }
            },
        },
{
    let ghost s = wm@;
    match wm.mru_cycle.take() {
        Some(mut cycle) => {
            if cycle.candidates.len() < 2 {
                wm.mru_cycle = Some(cycle);
                return CycleStep::Nothing;
            }
            cycle.advance(forward);
            let target = cycle.candidates[cycle.index];
            wm.mru_cycle = Some(cycle);
            let sent = focus_target(wm, target);
            CycleStep::Moved(sent)
        },
        None => {
            let candidates = candidates_of(wm, scope);
            if candidates.len() < 2 {
                return CycleStep::Nothing;
            }
            CycleStep::Grab(candidates)
        },
    }
}

/// Begins a cycle once the keyboard is grabbed: the first candidate has the focus, so it begins
/// with the second, or, backward, with the last.
pub fn begin_cycle(wm: &mut Wm, candidates: Vec<u32>, forward: bool) -> (r: Vec<Request>)
    requires
        old(wm).wf(),
        candidates@.len() >= 2,
    ensures
        final(wm).wf(),
        ({
            let index = stepped(0, candidates@.len() as int, forward);
            &&& final(wm)@ == on_candidate(old(wm)@, candidates@, index)
            &&& r@ == candidate_requests(old(wm)@, candidates@, index)
        }),
        forall|scope: CycleScope|
            old(wm)@.cycle is None && candidates@ == #[trigger] cycle_candidates(old(wm)@, scope)
                ==> final(wm)@ == after_press(old(wm)@, forward, scope),
{
    let index = if forward {
        1
    } else {
        candidates.len() - 1
    };
    let target = candidates[index];
    wm.mru_cycle = Some(CycleState { candidates, index });
    focus_target(wm, target)
}

/// The cycle ends: the window it stands on moves to the front of the ring, unless it is gone.
pub open spec fn after_finish(s: WmState) -> WmState {
    match s.cycle {
        Some((candidates, index)) => WmState {
            cycle: None,
            mru: if wm::is_managed(s.clients, candidates[index]) {
                promoted(s.mru, candidates[index])
            } else {
                s.mru
            },
            ..s
        },
        None => s,
    }
}

/// Ends the cycle.
pub fn finish_cycle(wm: &mut Wm) -> (r: Vec<Request>)
    requires
        old(wm).wf(),
    ensures
        final(wm).wf(),
        final(wm)@ == after_finish(old(wm)@),
        r@ == seq![Request::UngrabKeyboard],
{
    let mut out: Vec<Request> = Vec::new();
    out.push(Request::UngrabKeyboard);
    if let Some(cycle) = wm.mru_cycle.take() {
        if let Some(target) = cycle.current() {
            if wm.find_client(target) < wm.clients.len() {
                proof {
                    lemma_promoted_managed(wm.clients@, wm.mru@, target);
                }
                wm.mru.on_focus(target);
            }
        }
    }
    out
}

/// Ends a running cycle when one of the keys `modifiers` is released.
pub fn on_key_release(wm: &mut Wm, keycode: u8, modifiers: &Vec<u8>) -> (r: Vec<Request>)
    requires
        old(wm).wf(),
    ensures
        final(wm).wf(),
        old(wm)@.cycle is Some && modifiers@.contains(keycode) ==> final(wm)@ == after_finish(
            old(wm)@,
        ) && r@ == seq![Request::UngrabKeyboard],
        !(old(wm)@.cycle is Some && modifiers@.contains(keycode)) ==> final(wm)@ == old(wm)@
            && r@.len() == 0,
{
    let mut i: usize = 0;
    while i < modifiers.len() && modifiers[i] != keycode
        invariant
            i <= modifiers.len(),
            forall|j: int| 0 <= j < i ==> modifiers@[j] != keycode,
        decreases modifiers.len() - i,
    {
        i += 1;
    }
    if wm.mru_cycle.is_some() && i < modifiers.len() {
        assert(modifiers@[i as int] == keycode);
        return finish_cycle(wm);
    }
    Vec::new()
}

/// While a cycle runs the ring keeps its order, whatever the cycle stands on; when it ends, its
/// window is first, unless it is gone.
pub proof fn law_cycle_keeps_ring_until_finished(s: WmState, candidates: Seq<u32>, index: int)
    requires
        0 <= index < candidates.len(),
    ensures
        ({
            let t = on_candidate(s, candidates, index);
            &&& t.mru == s.mru
            &&& t.cycle == Some((candidates, index))
            &&& after_finish(t).cycle is None
            &&& after_finish(t).mru == if wm::is_managed(t.clients, candidates[index]) {
                promoted(s.mru, candidates[index])
            } else {
                s.mru
            }
        }),
{
}

/// A window that was destroyed during a cycle is not in the ring when the cycle is over.
pub proof fn law_destroyed_window_stays_out(s: WmState, w: u32)
    requires
        s.wf(),
        wm::is_managed(s.clients, w),
    ensures
        !after_finish(wm::after_unmanage(s, w)).mru.contains(w),
{
    let gone = wm::without_client(s, w);
    let t = wm::after_unmanage(s, w);
    wm::lemma_unmanage_wf(s, w);
    wm::lemma_arrange_wf(gone);
    wm::lemma_find(s.clients, w, 0);
    wm::lemma_find(t.clients, w, 0);
    lemma_without(s.mru, w);
    assert(t.mru == without(s.mru, w));
    wm::lemma_arranged_same(gone, gone.monitors.len() as int);
    let p = wm::find(s.clients, w);
    if wm::is_managed(t.clients, w) {
        let q = wm::find(t.clients, w);
        assert(gone.clients[q].window == t.clients[q].window);
        let a = if q < p {
            q
        } else {
            q + 1
        };
        assert(gone.clients[q] == s.clients[a]);
        assert(s.clients[a].window == s.clients[p].window);
    }
    if let Some((c, i)) = t.cycle {
        if wm::is_managed(t.clients, c[i]) {
            law_focus_keeps_ring(t.mru, c[i]);
        }
    }
}

/// A step of a cycle keeps the state well-formed and the same windows managed.
proof fn lemma_on_candidate(s: WmState, candidates: Seq<u32>, index: int)
    requires
        s.wf(),
        0 <= index < candidates.len(),
    ensures
        on_candidate(s, candidates, index).wf(),
        forall|w: u32| #[trigger]
            wm::is_managed(s.clients, w) ==> wm::is_managed(
                on_candidate(s, candidates, index).clients,
                w,
            ),
{
    let begun = WmState { cycle: Some((candidates, index)), ..s };
    let target = candidates[index];
    assert(begun.wf());
    if wm::is_managed(s.clients, target) {
        wm::lemma_find(s.clients, target, 0);
        let tag = s.clients[wm::find(s.clients, target)].tag;
        if !s.shows(tag) {
            wm::law_view_swaps(s.active_tags, s.focused_monitor, tag);
            let v = wm::viewed(s.active_tags, s.focused_monitor, tag);
            wm::lemma_shown(s.active_tags, tag, 0);
            wm::lemma_showing_wf(begun, v);
            wm::lemma_arrange_wf(wm::showing(begun, v));
            assert forall|w: u32| #[trigger] wm::is_managed(s.clients, w) implies wm::is_managed(
                on_candidate(s, candidates, index).clients,
                w,
            ) by {
                wm::lemma_view_keeps_clients(begun, tag, w);
            }
        }
    }
    wm::lemma_focus_wf(revealed(begun, target), Some(target));
}

proof fn lemma_candidates_managed(s: WmState, scope: CycleScope)
    requires
        s.wf(),
    ensures
        wm::ring_managed(s.clients, cycle_candidates(s, scope)),
{
    if scope == CycleScope::Tag {
        law_tag_cycle_has_one_tag(s);
    }
}

/// The state after a press of the cycle key, where the keyboard can be grabbed.
pub open spec fn after_press(s: WmState, forward: bool, scope: CycleScope) -> WmState {
    let (candidates, index) = match s.cycle {
        Some(c) => c,
        None => (cycle_candidates(s, scope), 0),
    };
    if candidates.len() < 2 {
        s
    } else {
        on_candidate(s, candidates, stepped(index, candidates.len() as int, forward))
    }
}

/// The state after `k` presses.
pub open spec fn after_presses(s: WmState, forward: bool, scope: CycleScope, k: nat) -> WmState
    decreases k,
{
    if k == 0 {
        s
    } else {
        after_press(after_presses(s, forward, scope, (k - 1) as nat), forward, scope)
    }
}

/// The index that `k` steps from the first of `n` candidates lead to.
pub open spec fn index_after(k: int, n: int, forward: bool) -> int {
    if forward {
        k % n
    } else {
        (-k) % n
    }
}

proof fn lemma_index_after(k: int, n: int, forward: bool)
    requires
        n >= 2,
    ensures
        0 <= index_after(k, n, forward) < n,
        stepped(index_after(k, n, forward), n, forward) == index_after(k + 1, n, forward),
{
    let a = if forward {
        k
    } else {
        -k
    };
    let b = if forward {
        k + 1
    } else {
        -(k + 1)
    };
    let r = a % n;
    let q = a / n;
    lemma_fundamental_div_mod(a, n);
    lemma_mod_bound(a, n);
    if forward {
        if r + 1 == n {
            assert((q + 1) * n == q * n + n) by (nonlinear_arith);
            assert(n * q == q * n) by (nonlinear_arith);
            lemma_fundamental_div_mod_converse(b, n, q + 1, 0);
        } else {
            assert(n * q == q * n) by (nonlinear_arith);
            lemma_fundamental_div_mod_converse(b, n, q, r + 1);
        }
    } else if r == 0 {
        assert((q - 1) * n == q * n - n) by (nonlinear_arith);
        assert(n * q == q * n) by (nonlinear_arith);
        lemma_fundamental_div_mod_converse(b, n, q - 1, n - 1);
    } else {
        assert(n * q == q * n) by (nonlinear_arith);
        lemma_fundamental_div_mod_converse(b, n, q, r - 1);
    }
}

/// Presses of the cycle key go round the candidates that the first one found: `k` of them stand on
/// the `k`th, counted round the end, the first having the focus when the cycle begins. The ring
/// keeps its order meanwhile. On the release of the modifier that window moves to the front, the
/// others keep their order, and the cycle is over.
pub proof fn law_presses_go_round(s: WmState, forward: bool, scope: CycleScope, k: nat)
    requires
        s.wf(),
        s.cycle is None,
        cycle_candidates(s, scope).len() >= 2,
        k >= 1,
    ensures
        ({
            let c = cycle_candidates(s, scope);
            let at = index_after(k as int, c.len() as int, forward);
            let t = after_presses(s, forward, scope, k);
            &&& 0 <= at < c.len()
            &&& t.wf()
            &&& t.cycle == Some((c, at))
            &&& t.mru == s.mru
            &&& after_finish(t).cycle is None
            &&& after_finish(t).mru == promoted(s.mru, c[at])
        }),
{
    lemma_presses(s, forward, scope, k);
    lemma_index_after(k as int, cycle_candidates(s, scope).len() as int, forward);
}

proof fn lemma_presses(s: WmState, forward: bool, scope: CycleScope, k: nat)
    requires
        s.wf(),
        s.cycle is None,
        cycle_candidates(s, scope).len() >= 2,
        k >= 1,
    ensures
        ({
            let c = cycle_candidates(s, scope);
            let t = after_presses(s, forward, scope, k);
            &&& t.wf()
            &&& t.cycle == Some((c, index_after(k as int, c.len() as int, forward)))
            &&& t.mru == s.mru
            &&& wm::ring_managed(t.clients, c)
        }),
    decreases k,
{
    let c = cycle_candidates(s, scope);
    let n = c.len() as int;
    lemma_index_after(k - 1, n, forward);
    lemma_index_after(k as int, n, forward);
    let at = index_after(k as int, n, forward);
    let before = after_presses(s, forward, scope, (k - 1) as nat);
    if k == 1 {
        reveal_with_fuel(after_presses, 2);
        lemma_small_mod(0, n as nat);
        lemma_candidates_managed(s, scope);
    } else {
        lemma_presses(s, forward, scope, (k - 1) as nat);
    }
    lemma_on_candidate(before, c, at);
    law_cycle_keeps_ring_until_finished(before, c, at);
    let t = after_presses(s, forward, scope, k);
    assert(t == on_candidate(before, c, at));
    assert forall|i: int| 0 <= i < c.len() implies wm::is_managed(t.clients, #[trigger] c[i]) by {
        assert(wm::is_managed(before.clients, c[i]));
    }
}

/// A cycle that comes back to where it began leaves the ring as it was.
pub proof fn law_full_round_changes_nothing<W>(ring: Seq<W>)
    requires
        ring.len() > 0,
        ring.no_duplicates(),
    ensures
        promoted(ring, ring[0]) == ring,
    decreases ring.len(),
{
    let last = ring.drop_last();
    if ring.len() == 1 {
        reveal_with_fuel(without, 2);
        assert(last =~= Seq::empty());
        assert(ring.last() == ring[0]);
        assert(promoted(ring, ring[0]) =~= ring);
    } else {
        assert forall|i: int, j: int| 0 <= i < last.len() && 0 <= j < last.len() && i != j implies last[i]
            != last[j] by {
            assert(last[i] == ring[i] && last[j] == ring[j]);
        }
        law_full_round_changes_nothing(last);
        assert(ring[0] != ring[ring.len() - 1]);
        assert(promoted(last, ring[0]) =~= last);
        assert(promoted(ring, ring[0]) =~= promoted(last, ring[0]).push(ring.last()));
        assert(last.push(ring.last()) =~= ring);
    }
}

/// Every candidate is on the tag of the focused monitor.
pub open spec fn on_one_tag(s: WmState, candidates: Seq<u32>) -> bool {
    forall|i: int|
        0 <= i < candidates.len() ==> wm::on_tag(s, #[trigger] candidates[i], s.active_tag())
}

proof fn lemma_ring_on_tag(s: WmState, tag: usize, n: int)
    ensures
        forall|i: int|
            0 <= i < ring_on_tag(s, tag, n).len() ==> wm::on_tag(
                s,
                #[trigger] ring_on_tag(s, tag, n)[i],
                tag,
            ),
    decreases n,
{
    if n > 0 {
        lemma_ring_on_tag(s, tag, n - 1);
        let before = ring_on_tag(s, tag, n - 1);
        let r = ring_on_tag(s, tag, n);
        assert forall|i: int| 0 <= i < r.len() implies wm::on_tag(s, #[trigger] r[i], tag) by {
            if i < before.len() {
                assert(r[i] == before[i]);
            }
        }
    }
}

/// A cycle over the active tag runs over windows of that tag alone.
pub proof fn law_tag_cycle_has_one_tag(s: WmState)
    ensures
        on_one_tag(s, cycle_candidates(s, CycleScope::Tag)),
{
    lemma_ring_on_tag(s, s.active_tag(), s.mru.len() as int);
}

/// A cycle over the active tag stays on it: each step focuses its candidate and leaves what the
/// monitors show as it was.
pub proof fn law_tag_cycle_stays_on_tag(s: WmState, candidates: Seq<u32>, index: int)
    requires
        s.wf(),
        on_one_tag(s, candidates),
        0 <= index < candidates.len(),
    ensures
        ({
            let t = on_candidate(s, candidates, index);
            &&& t.focus == Some(candidates[index])
            &&& t.active_tags == s.active_tags
            &&& t.active_tag() == s.active_tag()
            &&& on_one_tag(t, candidates)
        }),
{
    let w = candidates[index];
    assert(wm::on_tag(s, w, s.active_tag()));
    assert(s.active_tags[s.focused_monitor] == s.active_tag());
    wm::lemma_shown(s.active_tags, s.active_tag(), 0);
    let t = on_candidate(s, candidates, index);
    assert forall|i: int| 0 <= i < candidates.len() implies wm::on_tag(
        t,
        #[trigger] candidates[i],
        t.active_tag(),
    ) by {
        assert(wm::on_tag(s, candidates[i], s.active_tag()));
    }
}

/// A cycle lands on its candidate: the window is focused, the focused monitor shows its tag, and
/// both stay so when the cycle ends, with the window first in the ring.
pub proof fn law_cycle_lands_on_target(s: WmState, candidates: Seq<u32>, index: int)
    requires
        s.wf(),
        0 <= index < candidates.len(),
        wm::is_managed(s.clients, candidates[index]),
    ensures
        ({
            let w = candidates[index];
            let tag = s.clients[wm::find(s.clients, w)].tag;
            let t = on_candidate(s, candidates, index);
            &&& t.focus == Some(w)
            &&& t.active_tag() == tag
            &&& after_finish(t).focus == Some(w)
            &&& after_finish(t).active_tag() == tag
            &&& after_finish(t).mru[0] == w
        }),
{
    let w = candidates[index];
    let tag = s.clients[wm::find(s.clients, w)].tag;
    let begun = WmState { cycle: Some((candidates, index)), ..s };
    wm::lemma_shown(s.active_tags, tag, 0);
    if !s.shows(tag) {
        assert(begun.wf());
        wm::lemma_view_keeps_clients(begun, tag, w);
        wm::law_view_swaps(s.active_tags, s.focused_monitor, tag);
        let v = wm::viewed(s.active_tags, s.focused_monitor, tag);
        assert(v[s.focused_monitor] == tag);
        wm::lemma_shown(v, tag, 0);
    }
}

/// In a ring in which each window stands once, focusing one keeps it so: the window is first, the
/// others are those that were there, and nothing is lost.
pub proof fn law_focus_keeps_ring<W>(ring: Seq<W>, w: W)
    requires
        ring.no_duplicates(),
    ensures
        promoted(ring, w).no_duplicates(),
        promoted(ring, w)[0] == w,
        forall|x: W| promoted(ring, w).contains(x) == (x == w || #[trigger] ring.contains(x)),
{
    lemma_without(ring, w);
    let p = promoted(ring, w);
    let r = without(ring, w);
    assert forall|i: int, j: int| 0 <= i < p.len() && 0 <= j < p.len() && i != j implies p[i]
        != p[j] by {
        if i == 0 {
            assert(p[j] == r[j - 1]);
            assert(r.contains(r[j - 1]));
        } else if j == 0 {
            assert(p[i] == r[i - 1]);
            assert(r.contains(r[i - 1]));
        } else {
            assert(p[i] == r[i - 1] && p[j] == r[j - 1]);
        }
    }
    assert forall|x: W| p.contains(x) == (x == w || #[trigger] ring.contains(x)) by {
        if p.contains(x) {
            let i = p.index_of(x);
            if i > 0 {
                assert(r[i - 1] == x);
                assert(r.contains(x));
            }
        }
        if x == w {
            assert(p[0] == x);
        } else if ring.contains(x) {
            assert(r.contains(x));
            let i = r.index_of(x);
            assert(p[i + 1] == x);
        }
    }
}

/// A window that is gone stands nowhere in the ring; the others stay, each once, in their order.
pub proof fn law_unmanage_scrubs_ring<W>(ring: Seq<W>, gone: W)
    requires
        ring.no_duplicates(),
    ensures
        without(ring, gone).no_duplicates(),
        !without(ring, gone).contains(gone),
        forall|x: W| x != gone ==> without(ring, gone).contains(x) == #[trigger] ring.contains(x),
{
    lemma_without(ring, gone);
}

/// Focusing a window twice is focusing it once.
pub proof fn law_focus_is_idempotent<W>(ring: Seq<W>, w: W)
    requires
        ring.no_duplicates(),
    ensures
        promoted(promoted(ring, w), w) == promoted(ring, w),
{
    let r = without(ring, w);
    lemma_without(ring, w);
    lemma_without_front(r, w);
    assert(promoted(promoted(ring, w), w) =~= promoted(ring, w));
}

proof fn lemma_without_front<W>(r: Seq<W>, w: W)
    requires
        !r.contains(w),
    ensures
        without(seq![w] + r, w) == r,
    decreases r.len(),
{
    let s = seq![w] + r;
    if r.len() == 0 {
        assert(s.drop_last() =~= Seq::empty());
        assert(without(s.drop_last(), w) =~= Seq::empty());
        assert(without(s, w) =~= r);
    } else {
        let t = r.drop_last();
        assert(s.drop_last() =~= seq![w] + t);
        assert(s.last() == r.last());
        assert(r.last() == r[r.len() - 1]);
        assert(!t.contains(w)) by {
            if t.contains(w) {
                assert(r[t.index_of(w)] == w);
            }
        }
        lemma_without_front(t, w);
        assert(without(s, w) =~= r);
    }
}

/// A step forward and a step back stand where the cycle stood.
pub proof fn law_steps_are_inverse(index: int, len: int)
    requires
        0 <= index < len,
    ensures
        stepped(stepped(index, len, true), len, false) == index,
        stepped(stepped(index, len, false), len, true) == index,
        0 <= stepped(index, len, true) < len,
        0 <= stepped(index, len, false) < len,
{
}

/// A step of a cycle maps what comes into view: its requests map a client exactly where its tag was
/// hidden and is shown afterwards, the window of the step among them, and unmap one exactly where
/// its tag was shown and is hidden afterwards.
pub proof fn law_step_maps_what_comes_into_view(
    s: WmState,
    candidates: Seq<u32>,
    index: int,
    i: int,
)
    requires
        s.wf(),
        0 <= index < candidates.len(),
        0 <= i < s.clients.len(),
    ensures
        ({
            let c = s.clients[i];
            let t = on_candidate(s, candidates, index);
            let sent = candidate_requests(s, candidates, index);
            &&& sent.contains(Request::Show(c.window)) == (!s.shows(c.tag) && t.shows(c.tag))
            &&& sent.contains(Request::Hide(c.window)) == (s.shows(c.tag) && !t.shows(c.tag))
            &&& c.window == candidates[index] ==> t.shows(c.tag)
            &&& c.window == candidates[index] && !s.shows(c.tag) ==> sent.contains(
                Request::Show(c.window),
            )
        }),
{
    let w = candidates[index];
    let begun = WmState { cycle: Some((candidates, index)), ..s };
    let c = s.clients[i];
    let p = wm::find(s.clients, w);
    let r = revealed(begun, w);
    let last = wm::focus_requests(r, Some(w));
    let first = reveal_requests(begun, w);
    let sent = first + last;
    wm::lemma_find(s.clients, w, 0);
    if c.window == w {
        wm::lemma_managed_at(s.clients, w, i);
        if p != i {
            assert(s.clients[p].window == s.clients[i].window);
        }
    }
    assert forall|k: int| 0 <= k < last.len() implies !wm::is_mapping(#[trigger] last[k]) by {}
    if wm::is_managed(s.clients, w) && !s.shows(s.clients[p].tag) {
        let tag = s.clients[p].tag;
        let v = wm::viewed(s.active_tags, s.focused_monitor, tag);
        let shown = wm::showing(begun, v);
        let mapping = wm::show_requests(s.clients, s.active_tags, v, s.clients.len() as int);
        let rest = wm::arrange_requests(shown);
        wm::law_clients_are_mapped_with_their_tag(s.clients, s.active_tags, v, i);
        wm::lemma_arrange_maps_nothing(shown, shown.monitors.len() as int);
        wm::law_view_swaps(s.active_tags, s.focused_monitor, tag);
        assert(v[s.focused_monitor] == tag);
        lemma_mapping_in(mapping, rest, Request::Show(c.window));
        lemma_mapping_in(mapping, rest, Request::Hide(c.window));
    }
    lemma_mapping_in(first, last, Request::Show(c.window));
    lemma_mapping_in(first, last, Request::Hide(c.window));
}

proof fn lemma_mapping_in(a: Seq<Request>, b: Seq<Request>, q: Request)
    requires
        wm::is_mapping(q),
        forall|k: int| 0 <= k < b.len() ==> !wm::is_mapping(#[trigger] b[k]),
    ensures
        (a + b).contains(q) == a.contains(q),
{
    if a.contains(q) {
        assert((a + b)[a.index_of(q)] == q);
    }
    if (a + b).contains(q) {
        let k = (a + b).index_of(q);
        if k >= a.len() {
            assert(b[k - a.len()] == q);
        } else {
            assert(a[k] == q);
        }
    }
}

/// What a cycle runs over is what is in the ring: all of it, or all of the active tag, each window
/// once, the last used before the others.
pub proof fn law_candidates_are_in_ring_order(s: WmState, scope: CycleScope, w: u32)
    requires
        s.wf(),
    ensures
        ({
            let c = cycle_candidates(s, scope);
            &&& c.contains(w) <==> s.mru.contains(w) && (scope == CycleScope::All || wm::on_tag(
                s,
                w,
                s.active_tag(),
            ))
            &&& c.no_duplicates()
            &&& forall|a: int, b: int|
                0 <= a < b < c.len() ==> s.mru.index_of(#[trigger] c[a]) < s.mru.index_of(
                    #[trigger] c[b],
                )
        }),
{
    let n = s.mru.len() as int;
    match scope {
        CycleScope::All => {
            assert forall|a: int, b: int| 0 <= a < b < n implies s.mru.index_of(#[trigger] s.mru[a])
                < s.mru.index_of(#[trigger] s.mru[b]) by {
                assert(s.mru.index_of(s.mru[a]) == a);
                assert(s.mru.index_of(s.mru[b]) == b);
            }
        },
        CycleScope::Tag => {
            lemma_ring_order(s, s.active_tag(), n, w);
            let c = ring_on_tag(s, s.active_tag(), n);
            assert(s.mru.take(n) =~= s.mru);
            assert forall|a: int, b: int| 0 <= a < c.len() && 0 <= b < c.len() && a != b implies c[a]
                != c[b] by {
                if a < b {
                    assert(s.mru.index_of(c[a]) < s.mru.index_of(c[b]));
                } else {
                    assert(s.mru.index_of(c[b]) < s.mru.index_of(c[a]));
                }
            }
        },
    }
}

proof fn lemma_ring_order(s: WmState, tag: usize, n: int, w: u32)
    requires
        s.mru.no_duplicates(),
        0 <= n <= s.mru.len(),
    ensures
        ({
            let c = ring_on_tag(s, tag, n);
            &&& c.contains(w) <==> s.mru.take(n).contains(w) && wm::on_tag(s, w, tag)
            &&& forall|a: int| 0 <= a < c.len() ==> s.mru.index_of(#[trigger] c[a]) < n
            &&& forall|a: int, b: int|
                0 <= a < b < c.len() ==> s.mru.index_of(#[trigger] c[a]) < s.mru.index_of(
                    #[trigger] c[b],
                )
        }),
    decreases n,
{
    let c = ring_on_tag(s, tag, n);
    if n > 0 {
        lemma_ring_order(s, tag, n - 1, w);
        let before = ring_on_tag(s, tag, n - 1);
        let x = s.mru[n - 1];
        assert(s.mru.index_of(x) == n - 1);
        assert(s.mru.take(n) =~= s.mru.take(n - 1).push(x));
        assert(s.mru.take(n).contains(w) <==> s.mru.take(n - 1).contains(w) || w == x) by {
            if s.mru.take(n - 1).contains(w) {
                assert(s.mru.take(n)[s.mru.take(n - 1).index_of(w)] == w);
            }
            if w == x {
                assert(s.mru.take(n)[n - 1] == w);
            }
            if s.mru.take(n).contains(w) {
                let k = s.mru.take(n).index_of(w);
                if k < n - 1 {
                    assert(s.mru.take(n - 1)[k] == w);
                }
            }
        }
        if c.len() > before.len() {
            assert(c =~= before.push(x));
            if before.contains(w) {
                assert(c[before.index_of(w)] == w);
            }
            if w == x {
                assert(c[c.len() - 1] == w);
            }
            if c.contains(w) {
                let k = c.index_of(w);
                if k < before.len() {
                    assert(before[k] == w);
                }
            }
            assert forall|a: int, b: int| 0 <= a < b < c.len() implies s.mru.index_of(
                #[trigger] c[a],
            ) < s.mru.index_of(#[trigger] c[b]) by {
                assert(c[a] == before[a]);
                if b < before.len() {
                    assert(c[b] == before[b]);
                }
            }
            assert forall|a: int| 0 <= a < c.len() implies s.mru.index_of(#[trigger] c[a]) < n by {
                if a < before.len() {
                    assert(c[a] == before[a]);
                }
            }
        }
    }
}

/// Focusing a window moves it and nothing else: the others keep their order, as they do when a
/// window goes.
pub proof fn law_ring_keeps_the_order_of_the_others<W>(ring: Seq<W>, w: W, a: int, b: int)
    requires
        ring.no_duplicates(),
        0 <= a < b < ring.len(),
        ring[a] != w,
        ring[b] != w,
    ensures
        promoted(ring, w).index_of(ring[a]) < promoted(ring, w).index_of(ring[b]),
        without(ring, w).index_of(ring[a]) < without(ring, w).index_of(ring[b]),
{
    lemma_without(ring, w);
    let r = without(ring, w);
    lemma_without_order(ring, w, a, b);
    law_focus_keeps_ring(ring, w);
    let p = promoted(ring, w);
    let i = r.index_of(ring[a]);
    let j = r.index_of(ring[b]);
    assert(ring.contains(ring[a]) && ring.contains(ring[b]));
    assert(r.contains(ring[a]) && r.contains(ring[b]));
    assert(p[i + 1] == ring[a] && p[j + 1] == ring[b]);
    assert(p.contains(ring[a]) && p.contains(ring[b]));
    assert(p.index_of(ring[a]) == i + 1);
    assert(p.index_of(ring[b]) == j + 1);
}

proof fn lemma_without_order<W>(ring: Seq<W>, w: W, a: int, b: int)
    requires
        ring.no_duplicates(),
        0 <= a < b < ring.len(),
        ring[a] != w,
        ring[b] != w,
    ensures
        without(ring, w).index_of(ring[a]) < without(ring, w).index_of(ring[b]),
    decreases ring.len(),
{
    let t = ring.drop_last();
    let r = without(ring, w);
    let q = without(t, w);
    lemma_without(ring, w);
    lemma_without(t, w);
    assert(ring =~= t.push(ring.last()));
    assert(t.no_duplicates());
    assert(ring.contains(ring[a]) && ring.contains(ring[b]));
    assert(t[a] == ring[a]);
    assert(t.contains(t[a]));
    assert(q.contains(ring[a]));
    let i = q.index_of(ring[a]);
    if b < t.len() {
        lemma_without_order(t, w, a, b);
        assert(t[b] == ring[b]);
        assert(t.contains(t[b]));
        assert(q.contains(ring[b]));
        let j = q.index_of(ring[b]);
        assert(r[i] == ring[a] && r[j] == ring[b]);
        assert(r.index_of(ring[a]) == i);
        assert(r.index_of(ring[b]) == j);
    } else {
        assert(ring.last() == ring[b]);
        assert(r == q.push(ring[b]));
        assert(r[i] == ring[a]);
        assert(r.index_of(ring[a]) == i);
        assert(r[q.len() as int] == ring[b]);
        assert(r.index_of(ring[b]) == q.len());
    }
}

/// A cycle that begins stands on the window next to the one that has the focus: going forward on the
/// second, going backward on the last.
pub proof fn law_cycle_begins_beside_the_first(len: int)
    requires
        len >= 2,
    ensures
        stepped(0, len, true) == 1,
        stepped(0, len, false) == len - 1,
        stepped(len - 1, len, true) == 0,
        forall|i: int| 0 <= i < len - 1 ==> #[trigger] stepped(i, len, true) == i + 1,
{
}

} // verus!
