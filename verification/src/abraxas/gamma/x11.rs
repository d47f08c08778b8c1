//! Gamma control by the X server's RandR extension.
use vstd::prelude::*;

use crate::abraxas::gamma;
use crate::abraxas::gamma::{CrtcState, Error, Ramps, RampWrite};

verus! {

/// What the server said of a screen: the length of its ramps, and the ramps where it has any. What
/// could not be read is `None`.
#[derive(Debug)]
pub struct CrtcReport {
    pub crtc: u32,
    pub gamma_size: Option<u16>,
    pub ramps: Option<Ramps>,
}

#[derive(Debug)]
pub struct X11State {
    pub crtcs: Vec<CrtcState>,
}

/// `s` is the entry of `c`.
pub open spec fn entry_of(s: CrtcState, c: CrtcReport) -> bool {
    &&& s.crtc == c.crtc
    &&& c.gamma_size matches Some(n) && s.gamma_size == n
    &&& s.gamma_size == 0 ==> s.saved_r@.len() == 0 && s.saved_g@.len() == 0 && s.saved_b@.len()
        == 0
    &&& s.gamma_size > 0 ==> (c.ramps matches Some(p) && s.saved_r == p.r && s.saved_g == p.g
        && s.saved_b == p.b)
}

/// The first fault of the reports from `i` on: a length, or ramps, that could not be read.
pub open spec fn fault_from(reports: Seq<CrtcReport>, i: int) -> Option<Error>
    decreases reports.len() - i,
{
    if i >= reports.len() {
        None
    } else if reports[i].gamma_size is None {
        Some(Error::Crtc)
    } else if reports[i].gamma_size != Some(0u16) && reports[i].ramps is None {
        Some(Error::Gamma)
    } else {
        fault_from(reports, i + 1)
    }
}

impl X11State {
    /// The table of the screens that the server reported. One that could not be read spoils it.
    pub fn init(reports: Vec<CrtcReport>) -> (r: Result<Self, Error>)
        ensures
            match r {
                Ok(s) => reports@.len() > 0 && fault_from(reports@, 0) is None && s.crtcs@.len()
                    == reports@.len() && forall|i: int|
                    0 <= i < reports@.len() ==> entry_of(#[trigger] s.crtcs@[i], reports@[i]),
                Err(e) => if reports@.len() == 0 {
                    e == Error::NoCrtc
                } else {
                    fault_from(reports@, 0) == Some(e)
                },
            },
    {
        if reports.len() == 0 {
            return Err(Error::NoCrtc);
        }
        let ghost all = reports@;
        let mut rest = reports;
        let mut crtcs: Vec<CrtcState> = Vec::new();
        let ghost mut done: int = 0;
        while rest.len() > 0
            invariant
                0 <= done <= all.len(),
                all.len() > 0,
                all == reports@,
                rest@ == all.skip(done),
                crtcs@.len() == done,
                fault_from(all, 0) == fault_from(all, done),
                forall|i: int| 0 <= i < done ==> entry_of(#[trigger] crtcs@[i], all[i]),
            decreases rest.len(),
        {
            let c = rest.remove(0);
            proof {
                assert(c == all[done]);
                assert(rest@ =~= all.skip(done + 1));
            }
            let size = match c.gamma_size {
                Some(n) => n,
                None => return Err(Error::Crtc),
            };
            if size == 0 {
                crtcs.push(
                    CrtcState {
                        crtc: c.crtc,
                        gamma_size: 0,
                        saved_r: Vec::new(),
                        saved_g: Vec::new(),
                        saved_b: Vec::new(),
                    },
                );
            } else {
                match c.ramps {
                    Some(p) => {
                        crtcs.push(
                            CrtcState {
                                crtc: c.crtc,
                                gamma_size: size as u32,
                                saved_r: p.r,
                                saved_g: p.g,
                                saved_b: p.b,
                            },
                        );
                    },
                    None => return Err(Error::Gamma),
                }
            }
            proof {
                done = done + 1;
            }
        }
        Ok(X11State { crtcs })
    }

    pub fn crtc_count(&self) -> (r: usize)
        ensures
            r == self.crtcs@.len(),
    {
        self.crtcs.len()
    }

    /// The length of a screen's ramps; 0 where there is no such screen.
    pub fn gamma_size(&self, crtc_idx: usize) -> (r: usize)
        ensures
            r == if crtc_idx < self.crtcs@.len() {
                self.crtcs@[crtc_idx as int].gamma_size as int
            } else {
                0
            },
    {
        if crtc_idx < self.crtcs.len() {
            self.crtcs[crtc_idx].gamma_size as usize
        } else {
            0
        }
    }

    /// The screen that a temperature is written to, and the length of the ramps that it takes.
    pub fn set_temperature_crtc(&self, crtc_idx: usize) -> (r: Result<(u32, u32), Error>)
        ensures
            r == if crtc_idx < self.crtcs@.len() && self.crtcs@[crtc_idx as int].gamma_size > 0 {
                Ok(
                    (
                        self.crtcs@[crtc_idx as int].crtc,
                        self.crtcs@[crtc_idx as int].gamma_size,
                    ),
                )
            } else {
                Err(Error::Crtc)
            },
    {
        if crtc_idx >= self.crtcs.len() {
            return Err(Error::Crtc);
        }
        let crtc = &self.crtcs[crtc_idx];
        if crtc.gamma_size == 0 {
            return Err(Error::Crtc);
        }
        Ok((crtc.crtc, crtc.gamma_size))
    }

    /// The screens that a temperature is written to.
    pub fn set_temperature(&self) -> (r: Vec<usize>)
        ensures
            r@ == gamma::usable_upto(self.crtcs@, 0, self.crtcs@.len() as int),
    {
        gamma::usable_crtcs(&self.crtcs, 0)
    }

    /// The writes that put the screens back as they were.
    pub fn restore(&self) -> (r: Vec<RampWrite>)
        ensures
            gamma::writes(r@) == gamma::restore_upto(self.crtcs@, 0, self.crtcs@.len() as int),
    {
        gamma::restore_writes(&self.crtcs, 0)
    }
}

/// CRTCs are read in their order, and the first that cannot be read is told of: one without a size
/// is a fault of the CRTC, one with a size but without a ramp a fault of the ramp. There is no fault
/// where each has a size, and a ramp unless that size is zero.
pub proof fn law_first_fault_is_told(reports: Seq<CrtcReport>, k: int)
    requires
        0 <= k <= reports.len(),
        forall|i: int|
            0 <= i < k ==> (#[trigger] reports[i]).gamma_size is Some && (reports[i].gamma_size
                == Some(0u16) || reports[i].ramps is Some),
    ensures
        k == reports.len() ==> fault_from(reports, 0) is None,
        k < reports.len() && reports[k].gamma_size is None ==> fault_from(reports, 0) == Some(
            Error::Crtc,
        ),
        k < reports.len() && reports[k].gamma_size is Some && reports[k].gamma_size != Some(0u16)
            && reports[k].ramps is None ==> fault_from(reports, 0) == Some(Error::Gamma),
{
    lemma_fault(reports, 0, k);
}

proof fn lemma_fault(reports: Seq<CrtcReport>, i: int, k: int)
    requires
        0 <= i <= k <= reports.len(),
        forall|j: int|
            i <= j < k ==> (#[trigger] reports[j]).gamma_size is Some && (reports[j].gamma_size
                == Some(0u16) || reports[j].ramps is Some),
    ensures
        fault_from(reports, i) == fault_from(reports, k),
    decreases k - i,
{
    if i < k {
        assert(reports[i].gamma_size is Some);
        lemma_fault(reports, i + 1, k);
    }
}

} // verus!
