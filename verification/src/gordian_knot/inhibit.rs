//! Whether something keeps the screen from being locked when idle.
use vstd::prelude::*;

use crate::text;

verus! {

/// Milliseconds for which an answer is kept.
pub const RECHECK_INTERVAL_MS: u64 = 5000;

/// The last answer, and when it was asked for.
#[derive(Debug, Clone, Copy, PartialEq, Eq, Structural)]
pub struct Watcher {
    pub last_check: Option<u64>,
    pub cached: bool,
}

/// Whether the kept answer is still good at `now`.
pub open spec fn is_fresh(w: Watcher, now: u64) -> bool {
    w.last_check matches Some(t) && now - t < RECHECK_INTERVAL_MS
}

/// Whether some inhibitor holds back idling. What each holds back is a list of names.
pub open spec fn any_idle(whats: Seq<Seq<char>>) -> bool {
    exists|i: int| 0 <= i < whats.len() && text::has_text(#[trigger] whats[i], "idle"@)
}

impl Watcher {
    pub fn new() -> (r: Self)
        ensures
            r == (Watcher { last_check: None, cached: false }),
    {
        Watcher { last_check: None, cached: false }
    }

    /// The answer, where it need not be asked for again.
    pub fn is_idle_inhibited(&self, now: u64) -> (r: Option<bool>)
        ensures
            r == if is_fresh(*self, now) {
                Some(self.cached)
            } else {
                None
            },
    {
        match self.last_check {
            Some(t) => if now < t || now - t < RECHECK_INTERVAL_MS {
                Some(self.cached)
            } else {
                None
            },
            None => None,
        }
    }

    /// Keeps the answer to a question asked at `now`: what the inhibitors hold back, or `None`
    /// where the question failed, which counts as nothing.
    pub fn note(&mut self, now: u64, whats: &Option<Vec<String>>) -> (r: bool)
        ensures
            r == match *whats {
                Some(v) => any_idle(text::texts(v@)),
                None => false,
            },
            *final(self) == (Watcher { last_check: Some(now), cached: r }),
    {
        self.last_check = Some(now);
        self.cached = false;
        if let Some(v) = whats {
            let mut i: usize = 0;
            let ghost all = text::texts(v@);
            while i < v.len() && !self.cached
                invariant
                    i <= v.len(),
                    all == text::texts(v@),
                    self.last_check == Some(now),
                    self.cached ==> any_idle(all),
                    !self.cached ==> forall|j: int|
                        0 <= j < i ==> !text::has_text(#[trigger] all[j], "idle"@),
                decreases v.len() - i,
            {
                assert(all[i as int] == v@[i as int]@);
                if text::text_has(v[i].as_str(), "idle") {
                    self.cached = true;
                }
                i += 1;
            }
        }
        self.cached
    }
}

/// Within the interval the answer is the one that was noted, whatever the inhibitors do meanwhile.
pub proof fn law_answer_is_kept(now: u64, later: u64, answer: bool)
    requires
        now <= later < now + RECHECK_INTERVAL_MS,
    ensures
        is_fresh(Watcher { last_check: Some(now), cached: answer }, later),
{
}

/// An answer is asked for anew when it is five seconds old, and before there is one.
pub proof fn law_answer_grows_old(w: Watcher, checked: u64, later: u64)
    ensures
        w.last_check == Some(checked) && later >= checked + 5000 ==> !is_fresh(w, later),
        w.last_check is None ==> !is_fresh(w, later),
{
}

/// One lock that speaks of idling is enough, and there has to be one.
pub proof fn law_one_idle_lock_is_enough(a: Seq<Seq<char>>, what: Seq<char>)
    ensures
        any_idle(a.push(what)) == (any_idle(a) || text::has_text(what, "idle"@)),
        !any_idle(Seq::empty()),
{
    let s = a.push(what);
    if any_idle(a) {
        let i = choose|i: int| 0 <= i < a.len() && text::has_text(#[trigger] a[i], "idle"@);
        assert(s[i] == a[i]);
    }
    if text::has_text(what, "idle"@) {
        assert(s[a.len() as int] == what);
    }
    if any_idle(s) {
        let i = choose|i: int| 0 <= i < s.len() && text::has_text(#[trigger] s[i], "idle"@);
        if i < a.len() {
            assert(a[i] == s[i]);
        }
    }
}

} // verus!
