use demiurge::abraxas::gamma::drm::{self, DrmState};
use demiurge::abraxas::gamma::gnome::{self, GnomeState};
use demiurge::abraxas::gamma::wayland::{self, ControlEvent, Global, WaylandState};
use demiurge::abraxas::gamma::x11::{self, X11State};
use demiurge::abraxas::gamma::{self, Backend, Choice, Error, GammaState, Ramps, Restore};

fn ramps(n: u16) -> Option<Ramps> {
    let r: Vec<u16> = (0..n).collect();
    Some(Ramps { r: r.clone(), g: r.clone(), b: r })
}

fn drm_crtc(id: u32, size: Option<u32>, n: u16) -> drm::CrtcReport {
    drm::CrtcReport { crtc_id: id, gamma_size: size, ramps: ramps(n) }
}

fn gnome_state() -> GnomeState {
    GnomeState { serial: 3, crtcs: vec![40, 41] }
}

#[test]
fn errors_have_messages() {
    assert_eq!(Error::InvalidTemp.message(), "Invalid temperature");
    assert_eq!(Error::Open.message(), "Failed to open display device");
    assert_eq!(Error::Resources.message(), "Failed to get display resources");
    assert_eq!(Error::Crtc.message(), "Failed to get CRTC info");
    assert_eq!(Error::Gamma.message(), "Failed to set gamma ramp");
    assert_eq!(Error::NoCrtc.message(), "No usable CRTC found");
    assert_eq!(Error::Permission.message(), "Permission denied (need video group?)");
    assert_eq!(Error::WaylandConnect.message(), "Failed to connect to Wayland display");
    assert_eq!(
        Error::WaylandProtocol.message(),
        "Wayland compositor lacks gamma control protocol"
    );
    assert_eq!(Error::GnomeDbus.message(), "Failed to communicate with Mutter via DBus");
}

#[test]
fn kernel_requests_are_numbered() {
    assert_eq!(drm::ioctl_request(drm::DRM_IOCTL_MODE_GETRESOURCES, 64), 0xc040_64a0);
    assert_eq!(drm::open_error(true), Error::Permission);
    assert_eq!(drm::open_error(false), Error::Open);
    assert!(drm::wants_ramps(256));
    assert!(!drm::wants_ramps(1));
}

#[test]
fn drm_screens_are_written_and_put_back() {
    let s = DrmState::init(vec![drm_crtc(7, Some(4), 4), drm_crtc(8, Some(0), 0)]).unwrap();
    assert!(s.crtc_count() >= 1);
    assert_eq!(s.gamma_size(0), 4);
    assert_eq!(s.gamma_size(99), 0);
    assert_eq!(s.set_temperature_crtc(0), Ok((7, 4)));
    assert!(s.set_temperature_crtc(99).is_err());
    assert_eq!(s.set_temperature(), vec![0]);
    let w = s.restore();
    assert_eq!(w.len(), 1);
    assert_eq!(w[0].crtc, 7);
    assert_eq!(w[0].g, vec![0, 1, 2, 3]);
    assert!(DrmState::init(Vec::new()).is_err());
}

#[test]
fn x11_screens_are_written_and_put_back() {
    let report = x11::CrtcReport { crtc: 7, gamma_size: Some(4), ramps: ramps(4) };
    let s = X11State::init(vec![report]).unwrap();
    assert_eq!(s.crtc_count(), 1);
    assert_eq!(s.gamma_size(0), 4);
    assert_eq!(s.set_temperature_crtc(0), Ok((7, 4)));
    assert_eq!(s.set_temperature(), vec![0]);
    assert_eq!(s.restore()[0].b, vec![0, 1, 2, 3]);
    assert!(X11State::init(Vec::new()).is_err());
}

#[test]
fn compositor_answer_is_read_up_to_its_first_fault() {
    let all = vec![Some(40), Some(41), None, Some(42)];
    assert_eq!(gnome::get_resources(Some(3), &all), Ok((3, vec![40, 41])));
    assert_eq!(gnome::get_resources(None, &all), Err(Error::GnomeDbus));
    assert_eq!(gnome::get_resources(Some(3), &vec![None]), Err(Error::NoCrtc));
    let s = GnomeState::init(gnome::get_resources(Some(3), &all)).unwrap();
    assert_eq!((s.serial, s.crtc_count()), (3, 2));
    assert_eq!(GnomeState::init(Err(Error::GnomeDbus)).unwrap_err(), Error::GnomeDbus);
    assert_eq!(GnomeState::init(Ok((3, Vec::new()))).unwrap_err(), Error::NoCrtc);
}

#[test]
fn compositor_screens_get_the_identity_back() {
    let s = gnome_state();
    assert_eq!(s.set_temperature(), vec![0, 1]);
    assert_eq!(s.set_temperature_crtc(1), Ok(41));
    assert_eq!(s.set_temperature_crtc(2), Err(Error::GnomeDbus));
    let w = s.restore();
    assert_eq!(w.len(), 2);
    assert_eq!(w[0].r.len(), 256);
    for i in 0..256usize {
        let exact = (i as f32 / 255.0 * u16::MAX as f32) as u16;
        assert_eq!(w[0].r[i], exact);
    }
    assert_eq!(gnome::restore_outcome(&vec![Ok(()), Ok(())]), Ok(()));
    assert_eq!(
        gnome::restore_outcome(&vec![Err(Error::GnomeDbus), Ok(())]),
        Err(Error::GnomeDbus)
    );
}

#[test]
fn one_write_that_worked_is_enough() {
    assert_eq!(gamma::set_outcome(&vec![Err(Error::Gamma), Ok(())]), Ok(()));
    assert_eq!(
        gamma::set_outcome(&vec![Err(Error::Gamma), Err(Error::Crtc)]),
        Err(Error::Crtc)
    );
    assert_eq!(gamma::set_outcome(&Vec::new()), Err(Error::NoCrtc));
}

#[test]
fn wayland_outputs_take_control() {
    assert_eq!(wayland::global_of("wl_output"), Global::Output);
    assert_eq!(wayland::global_of("zwlr_gamma_control_manager_v1"), Global::GammaManager);
    assert_eq!(wayland::global_of("wl_seat"), Global::Other);
    assert_eq!(WaylandState::init(false, 1).unwrap_err(), Error::WaylandProtocol);
    assert_eq!(WaylandState::init(true, 0).unwrap_err(), Error::NoCrtc);
    let mut s = WaylandState::init(true, 2).unwrap();
    s.acquire();
    s.control_event(0, ControlEvent::GammaSize(256));
    s.control_event(1, ControlEvent::Failed);
    assert_eq!(s.confirm(), Ok(()));
    assert_eq!(s.gamma_size(0), 256);
    assert_eq!(s.set_temperature(), vec![0]);
    assert_eq!(s.set_temperature_crtc(0), Ok(256));
    assert!(s.set_temperature_crtc(1).is_err());
    assert_eq!(wayland::transfer_bytes(256), 1536);
}

#[test]
fn backend_is_chosen_by_probing() {
    let mut p = gamma::init(true);
    assert_eq!(gamma::init_card(&p), Choice::ProbeWayland);
    p.wayland = Some(Err(Error::WaylandProtocol));
    assert_eq!(gamma::init_card(&p), Choice::ProbeGnome);
    p.gnome = Some(Ok(gnome_state()));
    assert_eq!(gamma::init_card(&p), Choice::Gnome);
    let mut g = gamma::settle(p).unwrap();
    assert!(matches!(g.backend, Backend::Gnome(_)));
    assert!(!g.backend_name().is_empty());
    assert_eq!(g.set_temperature(), vec![0, 1]);
    assert!(matches!(g.restore(), Restore::Write(w) if w.len() == 2));
}

#[test]
fn no_wayland_without_a_display() {
    let mut p = gamma::init(false);
    assert_eq!(gamma::init_card(&p), Choice::ProbeGnome);
    p.gnome = Some(Err(Error::GnomeDbus));
    assert_eq!(gamma::init_card(&p), Choice::ProbeDrm);
    p.drm = Some(Err(Error::Permission));
    assert_eq!(gamma::init_card(&p), Choice::ProbeX11);
    p.x11 = Some(Err(Error::Open));
    assert_eq!(gamma::init_card(&p), Choice::Fail);
    assert!(gamma::settle(p).is_err());
}

#[test]
fn wayland_control_is_taken_anew_to_restore() {
    let mut w = WaylandState::init(true, 1).unwrap();
    w.acquire();
    let mut g = GammaState { backend: Backend::Wayland(w) };
    assert!(matches!(g.restore(), Restore::Reacquire));
}
