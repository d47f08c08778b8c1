//! Gamma control through GNOME's compositor.
use vstd::prelude::*;

use crate::abraxas::gamma;
use crate::abraxas::gamma::{Error, RampWrite, WriteView};

verus! {

/// The length of every ramp.
pub const GNOME_GAMMA_SIZE: usize = 256;

#[derive(Debug)]
pub struct GnomeState {
    /// The number under which the compositor told of its screens.
    pub serial: u32,
    pub crtcs: Vec<u32>,
}

/// The ramp that changes nothing: evenly from 0 to 65535.
pub open spec fn identity_ramp() -> Seq<u16> {
    Seq::new(256, |i: int| (i * 257) as u16)
}

/// That ramp on each channel of each screen.
pub open spec fn identity_writes(crtcs: Seq<u32>) -> Seq<WriteView> {
    crtcs.map_values(
        |c: u32| WriteView { crtc: c, r: identity_ramp(), g: identity_ramp(), b: identity_ramp() },
    )
}

fn identity() -> (r: Vec<u16>)
    ensures
        r@ == identity_ramp(),
{
    let mut v: Vec<u16> = Vec::new();
    let mut i: u16 = 0;
    while i < 256
        invariant
            i <= 256,
            v@ == identity_ramp().take(i as int),
        decreases 256 - i,
    {
        v.push(i * 257);
        i += 1;
        assert(v@ =~= identity_ramp().take(i as int));
    }
    assert(v@ =~= identity_ramp());
    v
}

/// The entries before the first that could not be read.
pub open spec fn readable(entries: Seq<Option<u32>>) -> Seq<u32>
    decreases entries.len(),
{
    if entries.len() == 0 || entries[0] is None {
        Seq::empty()
    } else {
        seq![entries[0]->0] + readable(entries.skip(1))
    }
}

/// What the compositor's answer says: its serial number and its screens. `serial` is `None` where
/// the call failed or its answer did not begin with a number and a list; `entries` is the list,
/// with `None` for an entry that could not be read, which ends it.
pub fn get_resources(serial: Option<u32>, entries: &Vec<Option<u32>>) -> (r: Result<
    (u32, Vec<u32>),
    Error,
>)
    ensures
        match r {
            Ok((n, crtcs)) => serial == Some(n) && crtcs@ == readable(entries@) && crtcs@.len() > 0,
            Err(e) => if serial is None {
                e == Error::GnomeDbus
            } else {
                e == Error::NoCrtc && readable(entries@).len() == 0
            },
        },
{
    let n = match serial {
        Some(n) => n,
        None => return Err(Error::GnomeDbus),
    };
    let mut crtcs: Vec<u32> = Vec::new();
    let mut i: usize = 0;
    assert(entries@.skip(0) =~= entries@);
    while i < entries.len()
        invariant_except_break
            i <= entries.len(),
            readable(entries@) =~= crtcs@ + readable(entries@.skip(i as int)),
        ensures
            crtcs@ == readable(entries@),
        decreases entries.len() - i,
    {
        match entries[i] {
            Some(id) => {
                assert(entries@.skip(i as int).skip(1) =~= entries@.skip(i + 1));
                crtcs.push(id);
            },
            None => {
                break;
            },
        }
        i += 1;
    }
    if crtcs.len() == 0 {
        return Err(Error::NoCrtc);
    }
    Ok((n, crtcs))
}

impl GnomeState {
    /// The state that [`get_resources`] leads to.
    pub fn init(resources: Result<(u32, Vec<u32>), Error>) -> (r: Result<Self, Error>)
        ensures
            match resources {
                Ok((serial, crtcs)) => if crtcs@.len() == 0 {
                    r == Err::<Self, Error>(Error::NoCrtc)
                } else {
                    r == Ok::<Self, Error>(GnomeState { serial, crtcs })
                },
                Err(e) => r == Err::<Self, Error>(e),
            },
    {
        let (serial, crtcs) = match resources {
            Ok(found) => found,
            Err(e) => return Err(e),
        };
        if crtcs.len() == 0 {
            return Err(Error::NoCrtc);
        }
        Ok(GnomeState { serial, crtcs })
    }

    pub fn crtc_count(&self) -> (r: usize)
        ensures
            r == self.crtcs@.len(),
    {
        self.crtcs.len()
    }

    /// The screen that a temperature is written to.
    pub fn set_temperature_crtc(&self, crtc_idx: usize) -> (r: Result<u32, Error>)
        ensures
            r == if crtc_idx < self.crtcs@.len() {
                Ok(self.crtcs@[crtc_idx as int])
            } else {
                Err(Error::GnomeDbus)
            },
    {
        if crtc_idx < self.crtcs.len() {
            Ok(self.crtcs[crtc_idx])
        } else {
            Err(Error::GnomeDbus)
        }
    }

    /// The screens that a temperature is written to: all of them.
    pub fn set_temperature(&self) -> (r: Vec<usize>)
        ensures
            r@ == Seq::new(self.crtcs@.len(), |i: int| i as usize),
    {
        let mut out: Vec<usize> = Vec::new();
        let mut i: usize = 0;
        while i < self.crtcs.len()
            invariant
                i <= self.crtcs.len(),
                out@ == Seq::new(i as nat, |j: int| j as usize),
            decreases self.crtcs.len() - i,
        {
            out.push(i);
            i += 1;
            assert(out@ =~= Seq::new(i as nat, |j: int| j as usize));
        }
        out
    }

    /// The writes that put the screens back: the ramp that changes nothing, on each.
    pub fn restore(&self) -> (r: Vec<RampWrite>)
        ensures
            gamma::writes(r@) == identity_writes(self.crtcs@),
    {
        let mut out: Vec<RampWrite> = Vec::new();
        let mut i: usize = 0;
        while i < self.crtcs.len()
            invariant
                i <= self.crtcs.len(),
                gamma::writes(out@) == identity_writes(self.crtcs@).take(i as int),
            decreases self.crtcs.len() - i,
        {
            let ghost so_far = out@;
            out.push(
                RampWrite { crtc: self.crtcs[i], r: identity(), g: identity(), b: identity() },
            );
            i += 1;
            proof {
                assert(gamma::writes(out@) =~= gamma::writes(so_far).push(out@.last()@));
                assert(out@.last()@ == identity_writes(self.crtcs@)[i - 1]);
                assert(gamma::writes(out@) =~= identity_writes(self.crtcs@).take(i as int));
            }
        }
        assert(gamma::writes(out@) =~= identity_writes(self.crtcs@));
        out
    }
}

/// What the answers to the restoring writes come to: the last error, if there was one.
pub open spec fn last_error(results: Seq<Result<(), Error>>, n: int) -> Result<(), Error>
    decreases n,
{
    if n <= 0 {
        Ok(())
    } else if results[n - 1] is Err {
        results[n - 1]
    } else {
        last_error(results, n - 1)
    }
}

pub fn restore_outcome(results: &Vec<Result<(), Error>>) -> (r: Result<(), Error>)
    ensures
        r == last_error(results@, results@.len() as int),
{
    let mut out: Result<(), Error> = Ok(());
    let mut i: usize = 0;
    while i < results.len()
        invariant
            i <= results.len(),
            out == last_error(results@, i as int),
        decreases results.len() - i,
    {
        match results[i] {
            Ok(_) => {},
            Err(e) => {
                out = Err(e);
            },
        }
        i += 1;
    }
    out
}

/// The ramp that restoring writes maps every level to itself: it begins at zero, ends at the full
/// value, and rises by the same step in between, for all three channels of every CRTC.
pub proof fn law_identity_ramp_is_straight(crtcs: Seq<u32>, k: int, i: int)
    requires
        0 <= k < crtcs.len(),
        0 <= i < 255,
    ensures
        ({
            let w = identity_writes(crtcs)[k];
            &&& identity_writes(crtcs).len() == crtcs.len()
            &&& w.crtc == crtcs[k]
            &&& w.r == w.g && w.g == w.b
            &&& w.r.len() == 256
            &&& w.r[0] == 0 && w.r[255] == 0xffff
            &&& w.r[i + 1] - w.r[i] == 257
        }),
{
}

/// The CRTCs are read up to the first entry that cannot be.
pub proof fn law_entries_are_read_in_turn(entries: Seq<Option<u32>>, crtc: u32)
    ensures
        readable(seq![Some(crtc)] + entries) == seq![crtc] + readable(entries),
        readable(seq![None] + entries).len() == 0,
        readable(Seq::empty()).len() == 0,
{
    assert((seq![Some(crtc)] + entries).skip(1) =~= entries);
}

/// Restoring fails where one CRTC does, with the last failure.
pub proof fn law_last_failure_is_told(results: Seq<Result<(), Error>>, k: int)
    requires
        0 <= k <= results.len(),
        forall|i: int| k <= i < results.len() ==> #[trigger] results[i] is Ok,
    ensures
        k == 0 ==> last_error(results, results.len() as int) is Ok,
        k > 0 && results[k - 1] is Err ==> last_error(results, results.len() as int)
            == results[k - 1],
{
    lemma_last_error(results, results.len() as int, k);
}

proof fn lemma_last_error(results: Seq<Result<(), Error>>, n: int, k: int)
    requires
        0 <= k <= n <= results.len(),
        forall|i: int| k <= i < n ==> #[trigger] results[i] is Ok,
    ensures
        last_error(results, n) == last_error(results, k),
    decreases n - k,
{
    if n > k {
        assert(results[n - 1] is Ok);
        lemma_last_error(results, n - 1, k);
    }
}

} // verus!
