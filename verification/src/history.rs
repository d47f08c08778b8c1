//! Back and forward through the windows that were focused, as in a browser.
use vstd::prelude::*;

use crate::mru;

verus! {

/// Two stacks round the current window.
#[derive(Debug)]
pub struct Nav {
    pub history: Vec<u32>,
    pub future: Vec<u32>,
    pub current: Option<u32>,
}

/// The stacks as sequences, their tops last.
pub struct NavView {
    pub history: Seq<u32>,
    pub future: Seq<u32>,
    pub current: Option<u32>,
}

impl View for Nav {
    type V = NavView;

    open spec fn view(&self) -> NavView {
        NavView { history: self.history@, future: self.future@, current: self.current }
    }
}

/// The stack with the current window, if any, on top.
pub open spec fn onto(stack: Seq<u32>, current: Option<u32>) -> Seq<u32> {
    match current {
        Some(w) => stack.push(w),
        None => stack,
    }
}

/// The focus changed to `target` otherwise than by a step.
pub open spec fn focused(n: NavView, target: u32) -> NavView {
    NavView {
        history: if n.current == Some(target) {
            n.history
        } else {
            onto(n.history, n.current)
        },
        future: Seq::empty(),
        current: Some(target),
    }
}

pub open spec fn stepped_back(n: NavView) -> NavView {
    if n.history.len() == 0 {
        n
    } else {
        NavView {
            history: n.history.drop_last(),
            future: onto(n.future, n.current),
            current: Some(n.history.last()),
        }
    }
}

pub open spec fn stepped_forward(n: NavView) -> NavView {
    if n.future.len() == 0 {
        n
    } else {
        NavView {
            history: onto(n.history, n.current),
            future: n.future.drop_last(),
            current: Some(n.future.last()),
        }
    }
}

pub open spec fn scrubbed(n: NavView, gone: u32) -> NavView {
    NavView {
        history: mru::without(n.history, gone),
        future: mru::without(n.future, gone),
        current: n.current,
    }
}

impl Nav {
    pub fn new() -> (r: Nav)
        ensures
            r@ == (NavView { history: Seq::empty(), future: Seq::empty(), current: None }),
    {
        Nav { history: Vec::new(), future: Vec::new(), current: None }
    }

    /// A click, a new window or a change of tag: the current window joins the history, and there
    /// is no way forward any more.
    pub fn direct_focus(&mut self, target: u32)
        ensures
            final(self)@ == focused(old(self)@, target),
    {
        if let Some(old) = self.current {
            if old != target {
                self.history.push(old);
            }
        }
        self.future.clear();
        self.current = Some(target);
    }

    /// One window back.
    pub fn step_back(&mut self)
        ensures
            final(self)@ == stepped_back(old(self)@),
    {
        if let Some(target) = self.history.pop() {
            if let Some(cur) = self.current {
                self.future.push(cur);
            }
            self.current = Some(target);
        }
    }

    /// One window forward.
    pub fn step_forward(&mut self)
        ensures
            final(self)@ == stepped_forward(old(self)@),
    {
        if let Some(target) = self.future.pop() {
            if let Some(cur) = self.current {
                self.history.push(cur);
            }
            self.current = Some(target);
        }
    }

    /// Drops a window that is gone from both stacks.
    pub fn on_unmanage(&mut self, gone: u32)
        ensures
            final(self)@ == scrubbed(old(self)@, gone),
    {
        self.history = mru::remove_all(&self.history, gone);
        self.future = mru::remove_all(&self.future, gone);
    }
}

/// A step forward undoes a step back, and the other way round.
pub proof fn law_steps_undo_each_other(n: NavView)
    requires
        n.current is Some,
    ensures
        n.history.len() > 0 ==> stepped_forward(stepped_back(n)) == n,
        n.future.len() > 0 ==> stepped_back(stepped_forward(n)) == n,
{
    if n.history.len() > 0 {
        let m = stepped_forward(stepped_back(n));
        assert(m.history =~= n.history);
        assert(m.future =~= n.future);
    }
    if n.future.len() > 0 {
        let m = stepped_back(stepped_forward(n));
        assert(m.history =~= n.history);
        assert(m.future =~= n.future);
    }
}

/// `k` steps back.
pub open spec fn back(n: NavView, k: nat) -> NavView
    decreases k,
{
    if k == 0 {
        n
    } else {
        stepped_back(back(n, (k - 1) as nat))
    }
}

/// `k` steps forward.
pub open spec fn forward(n: NavView, k: nat) -> NavView
    decreases k,
{
    if k == 0 {
        n
    } else {
        forward(stepped_forward(n), (k - 1) as nat)
    }
}

/// However many steps back the history allows, as many forward come back to where they began.
pub proof fn law_back_then_forward_restores(n: NavView, k: nat)
    requires
        n.current is Some,
        k <= n.history.len(),
    ensures
        forward(back(n, k), k) == n,
        back(n, k).history.len() == n.history.len() - k,
        back(n, k).current is Some,
    decreases k,
{
    if k > 0 {
        let m = back(n, (k - 1) as nat);
        law_back_then_forward_restores(n, (k - 1) as nat);
        law_steps_undo_each_other(m);
        assert(stepped_forward(back(n, k)) == m);
    }
}

/// A direct focus leaves nothing to step forward to.
pub proof fn law_direct_focus_ends_future(n: NavView, target: u32)
    ensures
        stepped_forward(focused(n, target)) == focused(n, target),
        focused(n, target).current == Some(target),
{
}

/// A window that was left for another is where a step back leads, and what had been left before it
/// lies behind it as it did. Focusing the current window again leaves nothing behind.
pub proof fn law_back_leads_to_the_window_left(n: NavView, target: u32)
    ensures
        n.current is Some && n.current != Some(target) ==> stepped_back(focused(n, target)).current
            == n.current && stepped_back(focused(n, target)).history == n.history,
        n.current == Some(target) || n.current is None ==> focused(n, target).history == n.history,
        focused(n, target).future.len() == 0,
{
    if let Some(w) = n.current {
        assert(n.history.push(w).drop_last() =~= n.history);
    }
}

/// A window that is gone is in neither stack, and the others stay in theirs; the current one stays.
pub proof fn law_gone_window_is_in_no_stack(n: NavView, gone: u32, w: u32)
    ensures
        ({
            let t = scrubbed(n, gone);
            &&& !t.history.contains(gone) && !t.future.contains(gone)
            &&& w != gone ==> t.history.contains(w) == n.history.contains(w)
            &&& w != gone ==> t.future.contains(w) == n.future.contains(w)
            &&& t.current == n.current
            &&& !n.history.contains(gone) && !n.future.contains(gone) ==> t == n
        }),
{
    mru::lemma_without(n.history, gone);
    mru::lemma_without(n.future, gone);
}

/// A step keeps every window: what leaves one stack is current, and what was current is on the
/// other. Where a stack is empty, the step in its direction changes nothing.
pub proof fn law_steps_lose_no_window(n: NavView)
    requires
        n.current is Some,
    ensures
        ({
            let b = stepped_back(n);
            let f = stepped_forward(n);
            &&& n.history.len() > 0 ==> b.current == Some(n.history.last()) && b.future
                == n.future.push(n.current->0) && b.history.push(b.current->0) == n.history
            &&& n.future.len() > 0 ==> f.current == Some(n.future.last()) && f.history
                == n.history.push(n.current->0) && f.future.push(f.current->0) == n.future
            &&& n.history.len() == 0 ==> b == n
            &&& n.future.len() == 0 ==> f == n
        }),
{
    if n.history.len() > 0 {
        assert(n.history.drop_last().push(n.history.last()) =~= n.history);
    }
    if n.future.len() > 0 {
        assert(n.future.drop_last().push(n.future.last()) =~= n.future);
    }
}

} // verus!
