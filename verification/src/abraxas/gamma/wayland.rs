//! Gamma control by the wlr protocol of Wayland compositors.
use vstd::prelude::*;

use crate::abraxas::gamma::Error;

verus! {

/// An output: whether its gamma control is held, the length of its ramps, and whether the
/// compositor refused it.
#[derive(Debug, Clone, Copy, PartialEq, Eq, Structural)]
pub struct OutputState {
    pub has_control: bool,
    pub gamma_size: u32,
    pub failed: bool,
}

#[derive(Debug)]
pub struct WaylandState {
    pub outputs: Vec<OutputState>,
}

/// What the compositor says of a gamma control.
#[derive(Debug, Clone, Copy, PartialEq, Eq, Structural)]
pub enum ControlEvent {
    GammaSize(u32),
    Failed,
}

/// Which global of the registry is bound.
#[derive(Debug, Clone, Copy, PartialEq, Eq, Structural)]
pub enum Global {
    GammaManager,
    Output,
    Other,
}

pub fn global_of(interface: &str) -> (r: Global)
    ensures
        r == if interface@ == "zwlr_gamma_control_manager_v1"@ {
            Global::GammaManager
        } else if interface@ == "wl_output"@ {
            Global::Output
        } else {
            Global::Other
        },
{
    if crate::text::same_text(interface, "zwlr_gamma_control_manager_v1") {
        Global::GammaManager
    } else if crate::text::same_text(interface, "wl_output") {
        Global::Output
    } else {
        Global::Other
    }
}

/// An output that takes ramps.
pub open spec fn usable(o: OutputState) -> bool {
    !o.failed && o.gamma_size > 0
}

/// The outputs among the first `n` that take ramps.
pub open spec fn usable_upto(outputs: Seq<OutputState>, n: int) -> Seq<usize>
    decreases n,
{
    if n <= 0 {
        Seq::empty()
    } else if usable(outputs[n - 1]) {
        usable_upto(outputs, n - 1).push((n - 1) as usize)
    } else {
        usable_upto(outputs, n - 1)
    }
}

/// The outputs after an event on the control of output `idx`. A refused control is given up.
pub open spec fn after_control(
    outputs: Seq<OutputState>,
    idx: int,
    event: ControlEvent,
) -> Seq<OutputState> {
    if idx < outputs.len() {
        outputs.update(
            idx,
            match event {
                ControlEvent::GammaSize(size) => OutputState {
                    gamma_size: size,
                    ..outputs[idx]
                },
                ControlEvent::Failed => OutputState {
                    failed: true,
                    has_control: false,
                    ..outputs[idx]
                },
            },
        )
    } else {
        outputs
    }
}

/// Every control was given up, and nothing is known of the outputs any more.
pub open spec fn released(before: Seq<OutputState>, after: Seq<OutputState>) -> bool {
    &&& after.len() == before.len()
    &&& forall|i: int|
        0 <= i < after.len() ==> #[trigger] after[i] == (OutputState {
            has_control: false,
            gamma_size: 0,
            failed: false,
        })
}

impl WaylandState {
    /// The table of `count` outputs without controls, where the compositor has a gamma manager.
    pub fn init(has_manager: bool, count: usize) -> (r: Result<Self, Error>)
        ensures
            match r {
                Ok(s) => has_manager && count > 0 && s.outputs@.len() == count && released(
                    s.outputs@,
                    s.outputs@,
                ),
                Err(e) => if !has_manager {
                    e == Error::WaylandProtocol
                } else {
                    count == 0 && e == Error::NoCrtc
                },
            },
    {
        if !has_manager {
            return Err(Error::WaylandProtocol);
        }
        if count == 0 {
            return Err(Error::NoCrtc);
        }
        let mut outputs: Vec<OutputState> = Vec::new();
        let mut i: usize = 0;
        while i < count
            invariant
                i <= count,
                outputs@.len() == i,
                released(outputs@, outputs@),
            decreases count - i,
        {
            outputs.push(OutputState { has_control: false, gamma_size: 0, failed: false });
            i += 1;
        }
        Ok(WaylandState { outputs })
    }

    /// Notes that every output's control was taken.
    pub fn acquire(&mut self)
        ensures
            final(self).outputs@.len() == old(self).outputs@.len(),
            forall|i: int|
                0 <= i < old(self).outputs@.len() ==> #[trigger] final(self).outputs@[i] == (
                OutputState { has_control: true, ..old(self).outputs@[i] }),
    {
        let ghost before = self.outputs@;
        let mut i: usize = 0;
        while i < self.outputs.len()
            invariant
                i <= self.outputs.len(),
                self.outputs@.len() == before.len(),
                forall|j: int|
                    0 <= j < i ==> #[trigger] self.outputs@[j] == (OutputState {
                        has_control: true,
                        ..before[j]
                    }),
                forall|j: int| i <= j < before.len() ==> self.outputs@[j] == before[j],
            decreases self.outputs.len() - i,
        {
            self.outputs[i].has_control = true;
            i += 1;
        }
    }

    /// Notes what the compositor says of a control. The result says whether it is to be destroyed.
    pub fn control_event(&mut self, idx: usize, event: ControlEvent) -> (r: bool)
        ensures
            final(self).outputs@ == after_control(old(self).outputs@, idx as int, event),
            r == (idx < old(self).outputs@.len() && event == ControlEvent::Failed && old(self).outputs@[idx as int].has_control),
    {
        if idx >= self.outputs.len() {
            return false;
        }
        let ghost before = self.outputs@;
        let mut destroy = false;
        match event {
            ControlEvent::GammaSize(size) => {
                self.outputs[idx].gamma_size = size;
            },
            ControlEvent::Failed => {
                destroy = self.outputs[idx].has_control;
                self.outputs[idx].failed = true;
                self.outputs[idx].has_control = false;
            },
        }
        assert(self.outputs@ =~= after_control(before, idx as int, event));
        destroy
    }

    /// Whether some output takes ramps, once all have answered.
    pub fn confirm(&self) -> (r: Result<(), Error>)
        ensures
            r == if usable_upto(self.outputs@, self.outputs@.len() as int).len() > 0 {
                Ok(())
            } else {
                Err(Error::NoCrtc)
            },
    {
        if self.set_temperature().len() > 0 {
            Ok(())
        } else {
            Err(Error::NoCrtc)
        }
    }

    pub fn crtc_count(&self) -> (r: usize)
        ensures
            r == self.outputs@.len(),
    {
        self.outputs.len()
    }

    /// The length of an output's ramps; 0 where it was refused or there is none.
    pub fn gamma_size(&self, crtc_idx: usize) -> (r: u32)
        ensures
            r == if crtc_idx < self.outputs@.len() && !self.outputs@[crtc_idx as int].failed {
                self.outputs@[crtc_idx as int].gamma_size
            } else {
                0
            },
    {
        if crtc_idx < self.outputs.len() && !self.outputs[crtc_idx].failed {
            self.outputs[crtc_idx].gamma_size
        } else {
            0
        }
    }

    /// The length of the ramps to send to an output.
    pub fn set_temperature_crtc(&self, crtc_idx: usize) -> (r: Result<u32, Error>)
        ensures
            r == if crtc_idx >= self.outputs@.len() {
                Err(Error::Crtc)
            } else if usable(self.outputs@[crtc_idx as int])
                && self.outputs@[crtc_idx as int].has_control {
                Ok(self.outputs@[crtc_idx as int].gamma_size)
            } else {
                Err(Error::WaylandProtocol)
            },
    {
        if crtc_idx >= self.outputs.len() {
            return Err(Error::Crtc);
        }
        let out = self.outputs[crtc_idx];
        if out.failed || !out.has_control || out.gamma_size == 0 {
            return Err(Error::WaylandProtocol);
        }
        Ok(out.gamma_size)
    }

    /// The outputs that a temperature is sent to.
    pub fn set_temperature(&self) -> (r: Vec<usize>)
        ensures
            r@ == usable_upto(self.outputs@, self.outputs@.len() as int),
    {
        let mut out: Vec<usize> = Vec::new();
        let mut i: usize = 0;
        while i < self.outputs.len()
            invariant
                i <= self.outputs.len(),
                out@ == usable_upto(self.outputs@, i as int),
            decreases self.outputs.len() - i,
        {
            if !self.outputs[i].failed && self.outputs[i].gamma_size > 0 {
                out.push(i);
            }
            i += 1;
        }
        out
    }

    /// Gives every control up. The compositor then restores the output, and the controls are to be
    /// taken anew.
    pub fn restore(&mut self)
        ensures
            released(old(self).outputs@, final(self).outputs@),
    {
        let ghost before = self.outputs@;
        let mut i: usize = 0;
        while i < self.outputs.len()
            invariant
                i <= self.outputs.len(),
                self.outputs@.len() == before.len(),
                forall|j: int|
                    0 <= j < i ==> #[trigger] self.outputs@[j] == (OutputState {
                        has_control: false,
                        gamma_size: 0,
                        failed: false,
                    }),
            decreases self.outputs.len() - i,
        {
            self.outputs.set(
                i,
                OutputState { has_control: false, gamma_size: 0, failed: false },
            );
            i += 1;
        }
    }
}

/// The bytes of the three ramps of `gamma_size` entries, one behind the other.
pub fn transfer_bytes(gamma_size: u32) -> (r: usize)
    requires
        gamma_size * 6 <= usize::MAX,
    ensures
        r == gamma_size * 6,
{
    gamma_size as usize * 2 * 3
}

/// Exactly the outputs that did not fail and have a ramp are driven, each once, in their order.
pub proof fn law_usable_outputs_are_driven(outputs: Seq<OutputState>, i: usize)
    requires
        outputs.len() <= usize::MAX,
    ensures
        ({
            let u = usable_upto(outputs, outputs.len() as int);
            &&& u.contains(i) <==> i < outputs.len() && !outputs[i as int].failed
                && outputs[i as int].gamma_size > 0
            &&& forall|a: int, b: int| 0 <= a < b < u.len() ==> #[trigger] u[a] < #[trigger] u[b]
        }),
{
    lemma_usable(outputs, outputs.len() as int, i);
}

proof fn lemma_usable(outputs: Seq<OutputState>, n: int, i: usize)
    requires
        0 <= n <= outputs.len() <= usize::MAX,
    ensures
        ({
            let u = usable_upto(outputs, n);
            &&& u.contains(i) <==> i < n && usable(outputs[i as int])
            &&& forall|a: int| 0 <= a < u.len() ==> #[trigger] u[a] < n
            &&& forall|a: int, b: int| 0 <= a < b < u.len() ==> #[trigger] u[a] < #[trigger] u[b]
        }),
    decreases n,
{
    if n > 0 {
        lemma_usable(outputs, n - 1, i);
        let before = usable_upto(outputs, n - 1);
        let u = usable_upto(outputs, n);
        if u.len() > before.len() {
            if before.contains(i) {
                assert(u[before.index_of(i)] == i);
            }
            if i == n - 1 {
                assert(u[u.len() - 1] == i);
            }
            if u.contains(i) {
                let k = u.index_of(i);
                if k < before.len() {
                    assert(before[k] == i);
                }
            }
            assert forall|a: int, b: int| 0 <= a < b < u.len() implies #[trigger] u[a]
                < #[trigger] u[b] by {
                assert(u[a] == before[a]);
                if b < before.len() {
                    assert(u[b] == before[b]);
                }
            }
            assert forall|a: int| 0 <= a < u.len() implies #[trigger] u[a] < n by {
                if a < before.len() {
                    assert(u[a] == before[a]);
                }
            }
        }
    }
}

/// What the compositor says of an output changes that output alone: a size is kept, and a failure
/// takes the control away, after which the output is driven no more, whatever size it is told.
pub proof fn law_control_event_changes_its_output(
    outputs: Seq<OutputState>,
    idx: int,
    size: u32,
    j: int,
)
    requires
        0 <= idx < outputs.len(),
        0 <= j < outputs.len(),
    ensures
        ({
            let sized = after_control(outputs, idx, ControlEvent::GammaSize(size));
            let failed = after_control(outputs, idx, ControlEvent::Failed);
            &&& sized.len() == outputs.len() && failed.len() == outputs.len()
            &&& j != idx ==> sized[j] == outputs[j] && failed[j] == outputs[j]
            &&& sized[idx].gamma_size == size && sized[idx].failed == outputs[idx].failed
                && sized[idx].has_control == outputs[idx].has_control
            &&& failed[idx].failed && !failed[idx].has_control
            &&& !usable(failed[idx])
            &&& !usable(after_control(failed, idx, ControlEvent::GammaSize(size))[idx])
            &&& after_control(outputs, outputs.len() as int, ControlEvent::Failed) == outputs
        }),
{
}

} // verus!
