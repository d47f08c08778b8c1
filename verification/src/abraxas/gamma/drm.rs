//! Gamma control by the kernel's mode-setting interface.
use vstd::prelude::*;

use crate::abraxas::gamma;
use crate::abraxas::gamma::{CrtcState, Error, Ramps, RampWrite};

verus! {

/// Numbers of the interface's calls.
pub const DRM_IOCTL_BASE: u8 = 0x64;

pub const DRM_IOCTL_MODE_GETRESOURCES: u8 = 0xa0;

pub const DRM_IOCTL_MODE_GETCRTC: u8 = 0xa1;

pub const DRM_IOCTL_MODE_GETGAMMA: u8 = 0xa4;

pub const DRM_IOCTL_MODE_SETGAMMA: u8 = 0xa5;

/// What the kernel said of a screen: the length of its ramps, and the ramps. What could not be
/// read is `None`.
#[derive(Debug)]
pub struct CrtcReport {
    pub crtc_id: u32,
    pub gamma_size: Option<u32>,
    pub ramps: Option<Ramps>,
}

#[derive(Debug)]
pub struct DrmState {
    pub crtcs: Vec<CrtcState>,
}

/// The request number of a call that reads and writes `size` bytes: direction, size, type and
/// number, from the top down.
pub fn ioctl_request(nr: u8, size: usize) -> (r: u64)
    ensures
        r == (3u64 << 30) | (((size as u64) & 0x3fff) << 16) | ((DRM_IOCTL_BASE as u64) << 8) | (
        nr as u64),
{
    (3u64 << 30) | (((size as u64) & 0x3fff) << 16) | ((DRM_IOCTL_BASE as u64) << 8) | (nr as u64)
}

/// Why the device could not be opened.
pub fn open_error(permission_denied: bool) -> (r: Error)
    ensures
        r == if permission_denied {
            Error::Permission
        } else {
            Error::Open
        },
{
    if permission_denied {
        Error::Permission
    } else {
        Error::Open
    }
}

/// Whether a screen with ramps of that length is read further.
pub fn wants_ramps(gamma_size: u32) -> (r: bool)
    ensures
        r == (gamma_size > 1),
{
    gamma_size > 1
}

/// The screen can be driven: its ramps are longer than one entry and could be read.
pub open spec fn drivable(c: CrtcReport) -> bool {
    c.gamma_size matches Some(n) && n > 1 && c.ramps is Some
}

/// `s` is the entry of `c`: with its ramps where it can be driven, else without any.
pub open spec fn entry_of(s: CrtcState, c: CrtcReport) -> bool {
    &&& s.crtc == c.crtc_id
    &&& drivable(c) ==> {
        &&& c.gamma_size == Some(s.gamma_size)
        &&& c.ramps matches Some(p) && s.saved_r == p.r && s.saved_g == p.g && s.saved_b == p.b
    }
    &&& !drivable(c) ==> s.gamma_size == 0 && s.saved_r@.len() == 0 && s.saved_g@.len() == 0
        && s.saved_b@.len() == 0
}

fn entry(c: CrtcReport) -> (r: CrtcState)
    ensures
        entry_of(r, c),
{
    match (c.gamma_size, c.ramps) {
        (Some(n), Some(p)) => if n > 1 {
            return CrtcState {
                crtc: c.crtc_id,
                gamma_size: n,
                saved_r: p.r,
                saved_g: p.g,
                saved_b: p.b,
            };
        },
        _ => {},
    }
    CrtcState {
        crtc: c.crtc_id,
        gamma_size: 0,
        saved_r: Vec::new(),
        saved_g: Vec::new(),
        saved_b: Vec::new(),
    }
}

impl DrmState {
    /// The table of the screens that the kernel reported, in their order.
    pub fn init(reports: Vec<CrtcReport>) -> (r: Result<Self, Error>)
        ensures
            match r {
                Ok(s) => reports@.len() > 0 && s.crtcs@.len() == reports@.len() && forall|i: int|
                    0 <= i < reports@.len() ==> entry_of(#[trigger] s.crtcs@[i], reports@[i]),
                Err(e) => reports@.len() == 0 && e == Error::NoCrtc,
            },
    {
        if reports.len() == 0 {
            return Err(Error::NoCrtc);
        }
        let ghost all = reports@;
        let mut reports = reports;
        let mut crtcs: Vec<CrtcState> = Vec::new();
        let ghost mut done: int = 0;
        while reports.len() > 0
            invariant
                0 <= done <= all.len(),
                reports@ == all.skip(done),
                crtcs@.len() == done,
                forall|i: int| 0 <= i < done ==> entry_of(#[trigger] crtcs@[i], all[i]),
            decreases reports.len(),
        {
            let c = reports.remove(0);
            proof {
                assert(c == all[done]);
                assert(reports@ =~= all.skip(done + 1));
                done = done + 1;
            }
            crtcs.push(entry(c));
        }
        Ok(DrmState { crtcs })
    }

    pub fn crtc_count(&self) -> (r: usize)
        ensures
            r == self.crtcs@.len(),
    {
        self.crtcs.len()
    }

    /// The length of a screen's ramps; 0 where there is no such screen.
    pub fn gamma_size(&self, crtc_idx: usize) -> (r: usize)
        ensures
            r == if crtc_idx < self.crtcs@.len() {
                self.crtcs@[crtc_idx as int].gamma_size as int
            } else {
                0
            },
    {
        if crtc_idx < self.crtcs.len() {
            self.crtcs[crtc_idx].gamma_size as usize
        } else {
            0
        }
    }

    /// The screen that a temperature is written to, and the length of the ramps that it takes.
    pub fn set_temperature_crtc(&self, crtc_idx: usize) -> (r: Result<(u32, u32), Error>)
        ensures
            r == if crtc_idx < self.crtcs@.len() && self.crtcs@[crtc_idx as int].gamma_size > 1 {
                Ok(
                    (
                        self.crtcs@[crtc_idx as int].crtc,
                        self.crtcs@[crtc_idx as int].gamma_size,
                    ),
                )
            } else {
                Err(Error::Crtc)
            },
    {
        if crtc_idx >= self.crtcs.len() {
            return Err(Error::Crtc);
        }
        let crtc = &self.crtcs[crtc_idx];
        if crtc.gamma_size <= 1 {
            return Err(Error::Crtc);
        }
        Ok((crtc.crtc, crtc.gamma_size))
    }

    /// The screens that a temperature is written to.
    pub fn set_temperature(&self) -> (r: Vec<usize>)
        ensures
            r@ == gamma::usable_upto(self.crtcs@, 1, self.crtcs@.len() as int),
    {
        gamma::usable_crtcs(&self.crtcs, 1)
    }

    /// The writes that put the screens back as they were.
    pub fn restore(&self) -> (r: Vec<RampWrite>)
        ensures
            gamma::writes(r@) == gamma::restore_upto(self.crtcs@, 1, self.crtcs@.len() as int),
    {
        gamma::restore_writes(&self.crtcs, 1)
    }
}

/// A CRTC is driven where its ramp has more than one step and could be read: it keeps its size and the
/// ramp that it had. One that cannot be driven has no size and nothing to restore, so that it is
/// neither set nor written back.
pub proof fn law_entry_keeps_what_can_be_driven(s: CrtcState, c: CrtcReport)
    requires
        entry_of(s, c),
    ensures
        s.crtc == c.crtc_id,
        s.gamma_size > 1 <==> (c.gamma_size matches Some(n) && n > 1 && c.ramps is Some),
        s.gamma_size > 1 ==> c.gamma_size == Some(s.gamma_size),
        s.gamma_size > 1 ==> (c.ramps matches Some(p) && s.saved_r == p.r && s.saved_g == p.g
            && s.saved_b == p.b),
        s.gamma_size <= 1 ==> s.gamma_size == 0 && s.saved_r@.len() == 0,
{
}

} // verus!
