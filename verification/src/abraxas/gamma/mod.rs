//! Gamma control: which backend drives the screens, and what each is asked to write.
//!
//! A backend's state here is the table of its screens. The ramps themselves are drawn outside; what
//! a backend says to each write comes back as a [`Result`].
use vstd::prelude::*;

pub mod drm;
pub mod gnome;
pub mod wayland;
pub mod x11;

use crate::abraxas::gamma::drm::DrmState;
use crate::abraxas::gamma::gnome::GnomeState;
use crate::abraxas::gamma::wayland::WaylandState;
use crate::abraxas::gamma::x11::X11State;

verus! {

/// What can go wrong.
#[derive(Debug, Clone, Copy, PartialEq, Eq, Structural)]
pub enum Error {
    InvalidTemp,
    Open,
    Resources,
    Crtc,
    Gamma,
    NoCrtc,
    Permission,
    WaylandConnect,
    WaylandProtocol,
    GnomeDbus,
}

/// The message of each error.
pub open spec fn error_text(e: Error) -> Seq<char> {
    match e {
        Error::InvalidTemp => "Invalid temperature"@,
        Error::Open => "Failed to open display device"@,
        Error::Resources => "Failed to get display resources"@,
        Error::Crtc => "Failed to get CRTC info"@,
        Error::Gamma => "Failed to set gamma ramp"@,
        Error::NoCrtc => "No usable CRTC found"@,
        Error::Permission => "Permission denied (need video group?)"@,
        Error::WaylandConnect => "Failed to connect to Wayland display"@,
        Error::WaylandProtocol => "Wayland compositor lacks gamma control protocol"@,
        Error::GnomeDbus => "Failed to communicate with Mutter via DBus"@,
    }
}

impl Error {
    pub fn message(&self) -> (r: &'static str)
        ensures
            r@ == error_text(*self),
    {
        match self {
            Error::InvalidTemp => "Invalid temperature",
            Error::Open => "Failed to open display device",
            Error::Resources => "Failed to get display resources",
            Error::Crtc => "Failed to get CRTC info",
            Error::Gamma => "Failed to set gamma ramp",
            Error::NoCrtc => "No usable CRTC found",
            Error::Permission => "Permission denied (need video group?)",
            Error::WaylandConnect => "Failed to connect to Wayland display",
            Error::WaylandProtocol => "Wayland compositor lacks gamma control protocol",
            Error::GnomeDbus => "Failed to communicate with Mutter via DBus",
        }
    }
}

/// The three ramps of a screen.
#[derive(Debug)]
pub struct Ramps {
    pub r: Vec<u16>,
    pub g: Vec<u16>,
    pub b: Vec<u16>,
}

/// A screen: its number, the length of its ramps (0 where it takes none), and the ramps that it
/// had at first.
#[derive(Debug)]
pub struct CrtcState {
    pub crtc: u32,
    pub gamma_size: u32,
    pub saved_r: Vec<u16>,
    pub saved_g: Vec<u16>,
    pub saved_b: Vec<u16>,
}

/// Ramps to be written to a screen.
#[derive(Debug)]
pub struct RampWrite {
    pub crtc: u32,
    pub r: Vec<u16>,
    pub g: Vec<u16>,
    pub b: Vec<u16>,
}

/// The same as mathematics.
pub struct WriteView {
    pub crtc: u32,
    pub r: Seq<u16>,
    pub g: Seq<u16>,
    pub b: Seq<u16>,
}

impl View for RampWrite {
    type V = WriteView;

    open spec fn view(&self) -> WriteView {
        WriteView { crtc: self.crtc, r: self.r@, g: self.g@, b: self.b@ }
    }
}

pub open spec fn writes(v: Seq<RampWrite>) -> Seq<WriteView> {
    v.map_values(|w: RampWrite| w@)
}

/// The screens among the first `n` whose ramps are longer than `least`.
pub open spec fn usable_upto(crtcs: Seq<CrtcState>, least: int, n: int) -> Seq<usize>
    decreases n,
{
    if n <= 0 {
        Seq::empty()
    } else if crtcs[n - 1].gamma_size > least {
        usable_upto(crtcs, least, n - 1).push((n - 1) as usize)
    } else {
        usable_upto(crtcs, least, n - 1)
    }
}

/// The screens that a new temperature is written to.
pub fn usable_crtcs(crtcs: &Vec<CrtcState>, least: u32) -> (r: Vec<usize>)
    ensures
        r@ == usable_upto(crtcs@, least as int, crtcs@.len() as int),
{
    let mut out: Vec<usize> = Vec::new();
    let mut i: usize = 0;
    while i < crtcs.len()
        invariant
            i <= crtcs.len(),
            out@ == usable_upto(crtcs@, least as int, i as int),
        decreases crtcs.len() - i,
    {
        if crtcs[i].gamma_size > least {
            out.push(i);
        }
        i += 1;
    }
    out
}

/// The writes that give the first `n` screens back the ramps that they had at first.
pub open spec fn restore_upto(crtcs: Seq<CrtcState>, least: int, n: int) -> Seq<WriteView>
    decreases n,
{
    if n <= 0 {
        Seq::empty()
    } else {
        let c = crtcs[n - 1];
        let so_far = restore_upto(crtcs, least, n - 1);
        if c.gamma_size > least && c.saved_r@.len() > 0 {
            so_far.push(
                WriteView { crtc: c.crtc, r: c.saved_r@, g: c.saved_g@, b: c.saved_b@ },
            )
        } else {
            so_far
        }
    }
}

pub fn restore_writes(crtcs: &Vec<CrtcState>, least: u32) -> (r: Vec<RampWrite>)
    ensures
        writes(r@) == restore_upto(crtcs@, least as int, crtcs@.len() as int),
{
    let mut out: Vec<RampWrite> = Vec::new();
    let mut i: usize = 0;
    assert(writes(out@) =~= Seq::empty());
    while i < crtcs.len()
        invariant
            i <= crtcs.len(),
            writes(out@) == restore_upto(crtcs@, least as int, i as int),
        decreases crtcs.len() - i,
    {
        let c = &crtcs[i];
        let ghost so_far = out@;
        if c.gamma_size > least && c.saved_r.len() > 0 {
            let r = c.saved_r.clone();
            let g = c.saved_g.clone();
            let b = c.saved_b.clone();
            assert(r@ =~= c.saved_r@);
            assert(g@ =~= c.saved_g@);
            assert(b@ =~= c.saved_b@);
            out.push(RampWrite { crtc: c.crtc, r, g, b });
            assert(writes(out@) =~= writes(so_far).push(out@.last()@));
        }
        i += 1;
    }
    out
}

/// What the answers to the writes of a temperature come to: one that worked is enough, else the
/// last error counts, or, of none, that there was no screen.
pub open spec fn outcome_of(results: Seq<Result<(), Error>>) -> Result<(), Error> {
    if exists|i: int| 0 <= i < results.len() && #[trigger] results[i] is Ok {
        Ok(())
    } else if results.len() > 0 {
        results.last()
    } else {
        Err(Error::NoCrtc)
    }
}

pub fn set_outcome(results: &Vec<Result<(), Error>>) -> (r: Result<(), Error>)
    ensures
        r == outcome_of(results@),
{
    let mut last = Error::NoCrtc;
    let mut i: usize = 0;
    while i < results.len()
        invariant
            i <= results.len(),
            forall|j: int| 0 <= j < i ==> !(#[trigger] results@[j] is Ok),
            i == 0 ==> last == Error::NoCrtc,
            i > 0 ==> results@[i - 1] == Err::<(), Error>(last),
        decreases results.len() - i,
    {
        match results[i] {
            Ok(_) => {
                assert(results@[i as int] is Ok);
                return Ok(());
            },
            Err(e) => {
                last = e;
            },
        }
        i += 1;
    }
    Err(last)
}

/// The backend that drives the screens.
#[derive(Debug)]
pub enum Backend {
    Drm(DrmState),
    Wayland(WaylandState),
    X11(X11State),
    Gnome(GnomeState),
}

/// The state of gamma control.
#[derive(Debug)]
pub struct GammaState {
    pub backend: Backend,
}

/// What putting the screens back asks for.
#[derive(Debug)]
pub enum Restore {
    /// These writes.
    Write(Vec<RampWrite>),
    /// Give every control up, which restores its screen, and take it anew.
    Reacquire,
}

impl GammaState {
    pub fn backend_name(&self) -> (r: &'static str)
        ensures
            r@ == match self.backend {
                Backend::Drm(_) => "drm"@,
                Backend::Wayland(_) => "wayland"@,
                Backend::X11(_) => "x11"@,
                Backend::Gnome(_) => "gnome"@,
            },
    {
        match &self.backend {
            Backend::Drm(_) => "drm",
            Backend::Wayland(_) => "wayland",
            Backend::X11(_) => "x11",
            Backend::Gnome(_) => "gnome",
        }
    }

    /// The screens that a new temperature is written to.
    pub fn set_temperature(&self) -> (r: Vec<usize>)
        ensures
            r@ == match self.backend {
                Backend::Drm(s) => usable_upto(s.crtcs@, 1, s.crtcs@.len() as int),
                Backend::Wayland(s) => wayland::usable_upto(s.outputs@, s.outputs@.len() as int),
                Backend::X11(s) => usable_upto(s.crtcs@, 0, s.crtcs@.len() as int),
                Backend::Gnome(s) => Seq::new(s.crtcs@.len(), |i: int| i as usize),
            },
    {
        match &self.backend {
            Backend::Drm(s) => s.set_temperature(),
            Backend::Wayland(s) => s.set_temperature(),
            Backend::X11(s) => s.set_temperature(),
            Backend::Gnome(s) => s.set_temperature(),
        }
    }

    /// What puts the screens back as they were.
    pub fn restore(&mut self) -> (r: Restore)
        ensures
            match (old(self).backend, final(self).backend, r) {
                (Backend::Drm(s), Backend::Drm(t), Restore::Write(w)) => t == s && writes(w@)
                    == restore_upto(s.crtcs@, 1, s.crtcs@.len() as int),
                (Backend::X11(s), Backend::X11(t), Restore::Write(w)) => t == s && writes(w@)
                    == restore_upto(s.crtcs@, 0, s.crtcs@.len() as int),
                (Backend::Gnome(s), Backend::Gnome(t), Restore::Write(w)) => t == s && writes(w@)
                    == gnome::identity_writes(s.crtcs@),
                (Backend::Wayland(s), Backend::Wayland(t), Restore::Reacquire) =>
                    wayland::released(s.outputs@, t.outputs@),
                _ => false,
            },
    {
        match &mut self.backend {
            Backend::Drm(s) => Restore::Write(s.restore()),
            Backend::X11(s) => Restore::Write(s.restore()),
            Backend::Gnome(s) => Restore::Write(s.restore()),
            Backend::Wayland(s) => {
                s.restore();
                Restore::Reacquire
            },
        }
    }
}

/// What a probe of each backend found. One that was not probed is `None`.
#[derive(Debug)]
pub struct Probes {
    /// Whether a Wayland display is named.
    pub wayland_display: bool,
    pub wayland: Option<Result<WaylandState, Error>>,
    pub gnome: Option<Result<GnomeState, Error>>,
    pub drm: Option<Result<DrmState, Error>>,
    pub x11: Option<Result<X11State, Error>>,
}

/// Which backend is to be probed next, or taken.
#[derive(Debug, Clone, Copy, PartialEq, Eq, Structural)]
pub enum Choice {
    ProbeWayland,
    ProbeGnome,
    ProbeDrm,
    ProbeX11,
    Wayland,
    Gnome,
    Drm,
    X11,
    /// No backend has a screen that takes ramps.
    Fail,
}

pub open spec fn wayland_works(p: Probes) -> bool {
    p.wayland matches Some(Ok(s)) && wayland::usable_upto(
        s.outputs@,
        s.outputs@.len() as int,
    ).len() > 0
}

pub open spec fn gnome_works(p: Probes) -> bool {
    p.gnome matches Some(Ok(s)) && s.crtcs@.len() > 0
}

pub open spec fn drm_works(p: Probes) -> bool {
    p.drm matches Some(Ok(s)) && usable_upto(s.crtcs@, 1, s.crtcs@.len() as int).len() > 0
}

pub open spec fn x11_works(p: Probes) -> bool {
    p.x11 matches Some(Ok(s)) && usable_upto(s.crtcs@, 0, s.crtcs@.len() as int).len() > 0
}

/// The first backend, in the order Wayland, GNOME, DRM, X11, that has a screen that takes ramps.
/// Each is probed only where those before it do not serve, and Wayland only where a display is
/// named.
pub open spec fn choice(p: Probes) -> Choice {
    if p.wayland_display && p.wayland is None {
        Choice::ProbeWayland
    } else if p.wayland_display && wayland_works(p) {
        Choice::Wayland
    } else if p.gnome is None {
        Choice::ProbeGnome
    } else if gnome_works(p) {
        Choice::Gnome
    } else if p.drm is None {
        Choice::ProbeDrm
    } else if drm_works(p) {
        Choice::Drm
    } else if p.x11 is None {
        Choice::ProbeX11
    } else if x11_works(p) {
        Choice::X11
    } else {
        Choice::Fail
    }
}

/// What to do with what was probed so far.
pub fn init_card(p: &Probes) -> (r: Choice)
    ensures
        r == choice(*p),
{
    if p.wayland_display {
        match &p.wayland {
            None => return Choice::ProbeWayland,
            Some(Ok(s)) => if s.set_temperature().len() > 0 {
                return Choice::Wayland;
            },
            Some(Err(_)) => {},
        }
    }
    match &p.gnome {
        None => return Choice::ProbeGnome,
        Some(Ok(s)) => if s.crtc_count() > 0 {
            return Choice::Gnome;
        },
        Some(Err(_)) => {},
    }
    match &p.drm {
        None => return Choice::ProbeDrm,
        Some(Ok(s)) => if s.set_temperature().len() > 0 {
            return Choice::Drm;
        },
        Some(Err(_)) => {},
    }
    match &p.x11 {
        None => return Choice::ProbeX11,
        Some(Ok(s)) => if s.set_temperature().len() > 0 {
            return Choice::X11;
        },
        Some(Err(_)) => {},
    }
    Choice::Fail
}

/// The probes before any was made.
pub fn init(wayland_display: bool) -> (r: Probes)
    ensures
        r == (Probes { wayland_display, wayland: None, gnome: None, drm: None, x11: None }),
{
    Probes { wayland_display, wayland: None, gnome: None, drm: None, x11: None }
}

/// The backend that the probes settle on: the state of the one chosen, and otherwise, once all
/// have been made, that there is no screen.
pub fn settle(p: Probes) -> (r: Result<GammaState, Error>)
    ensures
        match r {
            Ok(g) => match g.backend {
                Backend::Wayland(s) => choice(p) == Choice::Wayland && p.wayland == Some(
                    Ok::<WaylandState, Error>(s),
                ),
                Backend::Gnome(s) => choice(p) == Choice::Gnome && p.gnome == Some(
                    Ok::<GnomeState, Error>(s),
                ),
                Backend::Drm(s) => choice(p) == Choice::Drm && p.drm == Some(
                    Ok::<DrmState, Error>(s),
                ),
                Backend::X11(s) => choice(p) == Choice::X11 && p.x11 == Some(
                    Ok::<X11State, Error>(s),
                ),
            },
            Err(e) => e == Error::NoCrtc && choice(p) != Choice::Wayland && choice(p)
                != Choice::Gnome && choice(p) != Choice::Drm && choice(p) != Choice::X11,
        },
{
    match init_card(&p) {
        Choice::Wayland => if let Some(Ok(s)) = p.wayland {
            return Ok(GammaState { backend: Backend::Wayland(s) });
        },
        Choice::Gnome => if let Some(Ok(s)) = p.gnome {
            return Ok(GammaState { backend: Backend::Gnome(s) });
        },
        Choice::Drm => if let Some(Ok(s)) = p.drm {
            return Ok(GammaState { backend: Backend::Drm(s) });
        },
        Choice::X11 => if let Some(Ok(s)) = p.x11 {
            return Ok(GammaState { backend: Backend::X11(s) });
        },
        _ => {},
    }
    Err(Error::NoCrtc)
}

/// `q` holds what `p` does, and perhaps more probes.
pub open spec fn extends(q: Probes, p: Probes) -> bool {
    &&& q.wayland_display == p.wayland_display
    &&& p.wayland is Some ==> q.wayland == p.wayland
    &&& p.gnome is Some ==> q.gnome == p.gnome
    &&& p.drm is Some ==> q.drm == p.drm
    &&& p.x11 is Some ==> q.x11 == p.x11
}

/// Once a backend is chosen, or none is left, further probes change nothing: an earlier backend
/// wins whatever those behind it would have found.
pub proof fn law_choice_is_settled(p: Probes, q: Probes)
    requires
        extends(q, p),
        choice(p) != Choice::ProbeWayland,
        choice(p) != Choice::ProbeGnome,
        choice(p) != Choice::ProbeDrm,
        choice(p) != Choice::ProbeX11,
    ensures
        choice(q) == choice(p),
{
}

/// Without a named Wayland display, Wayland is neither probed nor taken.
pub proof fn law_no_wayland_without_display(p: Probes)
    requires
        !p.wayland_display,
    ensures
        choice(p) != Choice::ProbeWayland,
        choice(p) != Choice::Wayland,
{
}

/// Exactly the CRTCs whose ramp is larger than `least` are driven, each once, in their order.
pub proof fn law_usable_crtcs_are_driven(crtcs: Seq<CrtcState>, least: int, i: usize)
    requires
        crtcs.len() <= usize::MAX,
    ensures
        ({
            let u = usable_upto(crtcs, least, crtcs.len() as int);
            &&& u.contains(i) <==> i < crtcs.len() && crtcs[i as int].gamma_size > least
            &&& forall|a: int, b: int| 0 <= a < b < u.len() ==> #[trigger] u[a] < #[trigger] u[b]
        }),
{
    lemma_usable(crtcs, least, crtcs.len() as int, i);
}

proof fn lemma_usable(crtcs: Seq<CrtcState>, least: int, n: int, i: usize)
    requires
        0 <= n <= crtcs.len() <= usize::MAX,
    ensures
        ({
            let u = usable_upto(crtcs, least, n);
            &&& u.contains(i) <==> i < n && crtcs[i as int].gamma_size > least
            &&& forall|a: int| 0 <= a < u.len() ==> #[trigger] u[a] < n
            &&& forall|a: int, b: int| 0 <= a < b < u.len() ==> #[trigger] u[a] < #[trigger] u[b]
        }),
    decreases n,
{
    if n > 0 {
        lemma_usable(crtcs, least, n - 1, i);
        let before = usable_upto(crtcs, least, n - 1);
        let u = usable_upto(crtcs, least, n);
        if u.len() > before.len() {
            if before.contains(i) {
                assert(u[before.index_of(i)] == i);
            }
            if i == n - 1 {
                assert(u[u.len() - 1] == i);
            }
            if u.contains(i) {
                let k = u.index_of(i);
                if k < before.len() {
                    assert(before[k] == i);
                }
            }
            assert forall|a: int, b: int| 0 <= a < b < u.len() implies #[trigger] u[a]
                < #[trigger] u[b] by {
                assert(u[a] == before[a]);
                if b < before.len() {
                    assert(u[b] == before[b]);
                }
            }
            assert forall|a: int| 0 <= a < u.len() implies #[trigger] u[a] < n by {
                if a < before.len() {
                    assert(u[a] == before[a]);
                }
            }
        }
    }
}

/// Restoring writes back what was saved: a CRTC that is driven and had a ramp gets that ramp again,
/// all three channels of it, and nothing else is written.
pub proof fn law_restoring_writes_back_what_was_saved(
    crtcs: Seq<CrtcState>,
    least: int,
    w: WriteView,
)
    ensures
        restore_upto(crtcs, least, crtcs.len() as int).contains(w) <==> exists|i: int|
            0 <= i < crtcs.len() && (#[trigger] crtcs[i]).gamma_size > least
                && crtcs[i].saved_r@.len() > 0 && w.crtc == crtcs[i].crtc && w.r
                == crtcs[i].saved_r@ && w.g == crtcs[i].saved_g@ && w.b == crtcs[i].saved_b@,
{
    lemma_restored(crtcs, least, crtcs.len() as int, w);
}

proof fn lemma_restored(crtcs: Seq<CrtcState>, least: int, n: int, w: WriteView)
    requires
        0 <= n <= crtcs.len(),
    ensures
        restore_upto(crtcs, least, n).contains(w) <==> exists|i: int|
            0 <= i < n && (#[trigger] crtcs[i]).gamma_size > least && crtcs[i].saved_r@.len() > 0
                && w.crtc == crtcs[i].crtc && w.r == crtcs[i].saved_r@ && w.g == crtcs[i].saved_g@
                && w.b == crtcs[i].saved_b@,
    decreases n,
{
    if n > 0 {
        lemma_restored(crtcs, least, n - 1, w);
        let before = restore_upto(crtcs, least, n - 1);
        let all = restore_upto(crtcs, least, n);
        let c = crtcs[n - 1];
        if c.gamma_size > least && c.saved_r@.len() > 0 {
            if before.contains(w) {
                assert(all[before.index_of(w)] == w);
            }
            if all.last() == w {
                assert(all[all.len() - 1] == w);
            }
            if all.contains(w) {
                let k = all.index_of(w);
                if k < before.len() {
                    assert(before[k] == w);
                }
            }
        }
        assert(c == crtcs[n - 1]);
    }
}

/// One CRTC that took the temperature is enough; where none did, the last failure is told, and
/// without any there was none to drive.
pub proof fn law_one_success_is_enough(results: Seq<Result<(), Error>>, i: int)
    ensures
        0 <= i < results.len() && results[i] is Ok ==> outcome_of(results) is Ok,
        outcome_of(results) is Ok ==> exists|k: int|
            0 <= k < results.len() && #[trigger] results[k] is Ok,
        outcome_of(results) is Err && results.len() > 0 ==> outcome_of(results)
            == results[results.len() - 1],
        results.len() == 0 ==> outcome_of(results) == Err::<(), Error>(Error::NoCrtc),
{
}

/// The backends are tried in their order, Wayland, GNOME, DRM and X11: one is chosen only where those
/// before it were tried and do not work, each is tried only then, and none is given up on untried.
pub proof fn law_backends_are_tried_in_order(p: Probes)
    ensures
        ({
            let c = choice(p);
            let no_wayland = !p.wayland_display || (p.wayland is Some && !wayland_works(p));
            let no_gnome = p.gnome is Some && !gnome_works(p);
            let no_drm = p.drm is Some && !drm_works(p);
            let no_x11 = p.x11 is Some && !x11_works(p);
            &&& c == Choice::Wayland <==> p.wayland_display && wayland_works(p)
            &&& c == Choice::ProbeWayland <==> p.wayland_display && p.wayland is None
            &&& c == Choice::Gnome <==> no_wayland && gnome_works(p)
            &&& c == Choice::ProbeGnome <==> no_wayland && p.gnome is None
            &&& c == Choice::Drm <==> no_wayland && no_gnome && drm_works(p)
            &&& c == Choice::ProbeDrm <==> no_wayland && no_gnome && p.drm is None
            &&& c == Choice::X11 <==> no_wayland && no_gnome && no_drm && x11_works(p)
            &&& c == Choice::ProbeX11 <==> no_wayland && no_gnome && no_drm && p.x11 is None
            &&& c == Choice::Fail <==> no_wayland && no_gnome && no_drm && no_x11
        }),
{
}

/// A backend works where it came up and has something to drive.
pub proof fn law_backend_works_with_something_to_drive(p: Probes, i: int)
    requires
        0 <= i,
    ensures
        p.drm matches Some(Ok(s)) ==> i < s.crtcs@.len() && s.crtcs@[i].gamma_size > 1 ==> drm_works(
            p,
        ),
        p.x11 matches Some(Ok(s)) ==> i < s.crtcs@.len() && s.crtcs@[i].gamma_size > 0 ==> x11_works(
            p,
        ),
        p.gnome matches Some(Ok(s)) ==> (gnome_works(p) <==> s.crtcs@.len() > 0),
        p.drm matches Some(Err(_)) ==> !drm_works(p),
        p.x11 matches Some(Err(_)) ==> !x11_works(p),
        p.gnome matches Some(Err(_)) ==> !gnome_works(p),
        p.wayland matches Some(Err(_)) ==> !wayland_works(p),
        p.drm matches Some(Ok(s)) ==> s.crtcs@.len() <= usize::MAX && drm_works(p) ==> exists|k: int|
            0 <= k < s.crtcs@.len() && (#[trigger] s.crtcs@[k]).gamma_size > 1,
        p.x11 matches Some(Ok(s)) ==> s.crtcs@.len() <= usize::MAX && x11_works(p) ==> exists|k: int|
            0 <= k < s.crtcs@.len() && (#[trigger] s.crtcs@[k]).gamma_size > 0,
        p.wayland matches Some(Ok(s)) ==> s.outputs@.len() <= usize::MAX ==> (wayland_works(p)
            <==> exists|k: int|
            0 <= k < s.outputs@.len() && !(#[trigger] s.outputs@[k]).failed
                && s.outputs@[k].gamma_size > 0),
{
    if let Some(Ok(s)) = p.drm {
        let u = usable_upto(s.crtcs@, 1, s.crtcs@.len() as int);
        if s.crtcs@.len() <= usize::MAX && u.len() > 0 {
            assert(u.contains(u[0]));
            law_usable_crtcs_are_driven(s.crtcs@, 1, u[0]);
            assert(s.crtcs@[u[0] as int].gamma_size > 1);
        }
    }
    if let Some(Ok(s)) = p.x11 {
        let u = usable_upto(s.crtcs@, 0, s.crtcs@.len() as int);
        if s.crtcs@.len() <= usize::MAX && u.len() > 0 {
            assert(u.contains(u[0]));
            law_usable_crtcs_are_driven(s.crtcs@, 0, u[0]);
            assert(s.crtcs@[u[0] as int].gamma_size > 0);
        }
    }
    if let Some(Ok(s)) = p.wayland {
        let u = wayland::usable_upto(s.outputs@, s.outputs@.len() as int);
        if s.outputs@.len() <= usize::MAX {
            if u.len() > 0 {
                assert(u.contains(u[0]));
                wayland::law_usable_outputs_are_driven(s.outputs@, u[0]);
                assert(!s.outputs@[u[0] as int].failed);
            }
            if exists|k: int|
                0 <= k < s.outputs@.len() && !(#[trigger] s.outputs@[k]).failed
                    && s.outputs@[k].gamma_size > 0 {
                let k = choose|k: int|
                    0 <= k < s.outputs@.len() && !(#[trigger] s.outputs@[k]).failed
                        && s.outputs@[k].gamma_size > 0;
                wayland::law_usable_outputs_are_driven(s.outputs@, k as usize);
                assert(u.contains(k as usize));
            }
        }
    }
    if let Some(Ok(s)) = p.drm {
        if i < s.crtcs@.len() && s.crtcs@[i].gamma_size > 1 {
            lemma_some_usable(s.crtcs@, 1, s.crtcs@.len() as int, i);
        }
    }
    if let Some(Ok(s)) = p.x11 {
        if i < s.crtcs@.len() && s.crtcs@[i].gamma_size > 0 {
            lemma_some_usable(s.crtcs@, 0, s.crtcs@.len() as int, i);
        }
    }
}

proof fn lemma_some_usable(crtcs: Seq<CrtcState>, least: int, n: int, i: int)
    requires
        0 <= i < n <= crtcs.len(),
        crtcs[i].gamma_size > least,
    ensures
        usable_upto(crtcs, least, n).len() > 0,
    decreases n,
{
    if i < n - 1 {
        lemma_some_usable(crtcs, least, n - 1, i);
    }
}

} // verus!
