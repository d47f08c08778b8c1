use demiurge::abraxas::cli::{self, Command, LocationArg, Mode, UsageError};
use demiurge::abraxas::config::{self, OverrideState, WeatherCache, WeatherData};
use demiurge::abraxas::daemon::{
    self, CloudStep, DaemonState, EventFlags, FileChanges, LoopStep, OverrideFile, PollState,
    RetryStep,
};
use demiurge::abraxas::landlock;
use demiurge::abraxas::seccomp;
use demiurge::abraxas::sigmoid::{self, SolarPhase};
use demiurge::abraxas::solar::SunTimes;
use demiurge::abraxas::uring::{self, AbraxasRing, IoUringCqe, RingParams};
use demiurge::abraxas::weather::{self, Drain, FetchError, FetchPhase, FetchState, ReadResult};
use demiurge::abraxas::zipdb::{self, Coordinates};
use demiurge::bpf;
use demiurge::syscalls;

const NOW: i64 = 1_700_000_000;

fn args(v: &[&str]) -> Vec<String> {
    let mut all = vec!["abraxas".to_string()];
    all.extend(v.iter().map(|s| s.to_string()));
    all
}

fn report(cover: i32, has_error: bool) -> WeatherData {
    WeatherData {
        cloud_cover: cover,
        forecast: "Sunny".to_string(),
        temperature: 71.5f64.to_bits(),
        is_day: true,
        fetched_at: NOW,
        has_error,
    }
}

fn over(target: i32, minutes: i32, start: i32) -> OverrideState {
    OverrideState {
        active: true,
        target_temp: target,
        duration_minutes: minutes,
        issued_at: NOW,
        start_temp: start,
    }
}

fn today() -> Option<SunTimes> {
    Some(SunTimes { sunrise: NOW - 10_000, sunset: NOW + 20_000 })
}

fn tomorrow() -> Option<SunTimes> {
    Some(SunTimes { sunrise: NOW + 76_400, sunset: NOW + 106_400 })
}

// --- command line ---

#[test]
fn commands_with_and_without_dashes() {
    assert!(matches!(cli::parse_args(&args(&[])), Ok(Command::Daemon)));
    for word in ["status", "--status"] {
        assert!(matches!(cli::parse_args(&args(&[word])), Ok(Command::Status)));
    }
    for word in ["set", "--set"] {
        assert!(matches!(
            cli::parse_args(&args(&[word, "3500", "30"])),
            Ok(Command::Override { temp: 3500, duration: 30 })
        ));
        assert!(matches!(
            cli::parse_args(&args(&[word, "3500"])),
            Ok(Command::Override { temp: 3500, duration: 3 })
        ));
    }
    assert!(matches!(
        cli::parse_args(&args(&["--set-location", "60614"])),
        Ok(Command::SetLocation(l)) if l == "60614"
    ));
    assert!(matches!(cli::parse_args(&args(&["refresh"])), Ok(Command::Refresh)));
    assert!(matches!(cli::parse_args(&args(&["resume"])), Ok(Command::Resume)));
    assert!(matches!(cli::parse_args(&args(&["--reset"])), Ok(Command::Reset)));
    assert!(matches!(cli::parse_args(&args(&["benchmark"])), Ok(Command::Benchmark)));
}

#[test]
fn faulty_command_lines() {
    let fault = |v: &[&str]| cli::parse_args(&args(v)).unwrap_err();
    assert!(matches!(fault(&["-h"]), UsageError::Help));
    assert!(matches!(fault(&["--help"]), UsageError::Help));
    assert_eq!(fault(&["help"]).exit_code(), 0);
    assert_eq!(fault(&["help"]).message(), None);
    let say = |v: &[&str]| fault(v).message().unwrap();
    assert_eq!(say(&["set-location"]), "--set-location requires a location argument");
    assert_eq!(say(&["set"]), "--set requires a temperature argument");
    assert_eq!(say(&["set", "warm"]), "Invalid temperature: warm");
    assert_eq!(say(&["set", "3500", "2147483648"]), "Invalid duration: 2147483648");
    assert_eq!(say(&["fly"]), "Unknown command: fly");
    assert_eq!(fault(&["fly"]).exit_code(), 1);
}

#[test]
fn some_commands_need_a_location() {
    assert!(Command::Daemon.needs_location());
    assert!(Command::Status.needs_location());
    assert!(Command::Refresh.needs_location());
    assert!(!Command::Reset.needs_location());
    assert!(!Command::Override { temp: 1, duration: 1 }.needs_location());
}

#[test]
fn location_arguments() {
    assert!(matches!(
        cli::location_arg("41.88,-87.63"),
        LocationArg::Pair(a, b) if a == "41.88" && b == "-87.63"
    ));
    assert!(matches!(cli::location_arg("1,2,3"), LocationArg::BadFormat));
    assert!(matches!(cli::location_arg("60614"), LocationArg::Zip(z) if z == "60614"));
    assert!(matches!(cli::location_arg("6061"), LocationArg::BadZip));
    assert!(matches!(cli::location_arg("6061x"), LocationArg::BadZip));
}

#[test]
fn overrides_stay_in_bounds() {
    assert_eq!(cli::override_of(3500, 30, NOW), Some(over(3500, 30, 0)));
    assert!(cli::override_of(1000, 0, NOW).is_some());
    assert!(cli::override_of(999, 0, NOW).is_none());
    assert!(cli::override_of(25001, 0, NOW).is_none());
    assert!(!cli::resume_override().active);
    assert_eq!(
        cli::override_report(3500, 30),
        "Override: -> 3500K over 30 min (sigmoid)"
    );
    assert_eq!(cli::override_report(3500, 0), "Override: -> 3500K (instant)");
}

#[test]
fn status_modes() {
    let o = Some(over(3500, 30, 0));
    assert_eq!(
        cli::status_mode(o, &None, NOW),
        Mode::Ramping { target_temp: 3500, duration_minutes: 30 }
    );
    assert_eq!(cli::status_mode(o, &None, NOW + 1800), Mode::Holding(3500));
    assert_eq!(cli::status_mode(None, &Some(report(60, false)), NOW), Mode::Dark);
    assert_eq!(cli::status_mode(None, &Some(report(59, false)), NOW), Mode::Clear);
    let done = Some(cli::resume_override());
    assert_eq!(cli::status_mode(done, &Some(report(99, true)), NOW), Mode::Clear);
}

// --- files ---

#[test]
fn location_is_read_back() {
    let saved = config::save_location("41.88", "-87.63");
    assert_eq!(saved, "[location]\nlatitude = 41.88\nlongitude = -87.63\n");
    assert_eq!(
        config::find_location(&saved),
        Some(("41.88".to_string(), "-87.63".to_string()))
    );
}

#[test]
fn location_counts_in_its_section_only() {
    let text = "latitude=9\n[other]\nlatitude=8\n[location]\n# x\nlatitude = 1\nlongitude=2\n";
    assert_eq!(config::find_location(text), Some(("1".to_string(), "2".to_string())));
    assert_eq!(config::find_location("[location]\nlatitude=1\n"), None);
}

#[test]
fn process_numbers_are_read_back() {
    assert_eq!(config::daemon_pid(&config::pid_text(4711)), Some(4711));
    assert_eq!(config::daemon_pid("0"), None);
    assert_eq!(config::daemon_pid("-5"), None);
    assert_eq!(config::daemon_pid("x"), None);
}

#[test]
fn weather_cache_round_trip() {
    let wd = report(40, false);
    let cache = config::save_weather_cache(&wd);
    assert_eq!(cache.error, None);
    let back = config::load_weather_cache(cache);
    assert_eq!(back.cloud_cover, 40);
    assert_eq!(back.forecast, "Sunny");
    assert_eq!(back.fetched_at, NOW);
    assert!(!back.has_error);
    let failed = WeatherCache { error: Some("x".to_string()), ..config::save_weather_cache(&wd) };
    assert!(config::load_weather_cache(failed).has_error);
}

#[test]
fn reports_grow_old() {
    assert!(!config::weather_needs_refresh(&report(0, false), NOW + 900));
    assert!(config::weather_needs_refresh(&report(0, false), NOW + 901));
    assert!(config::weather_needs_refresh(&report(0, true), NOW));
    assert!(config::is_dark(&Some(report(60, false))));
    assert!(!config::is_dark(&None));
}

#[test]
fn long_files_are_refused() {
    assert!(config::override_fits("{}"));
    assert!(!config::override_fits(&"x".repeat(config::OVERRIDE_MAX + 1)));
    assert!(config::weather_cache_fits("{}"));
    assert!(!config::weather_cache_fits(&"x".repeat(config::WEATHER_CACHE_MAX + 1)));
}

// --- the curve ---

#[test]
fn phases_of_the_day() {
    assert_eq!(sigmoid::solar_phase(1800, 30_000), SolarPhase::Dawn);
    assert_eq!(sigmoid::solar_phase(30_000, 1800), SolarPhase::Dusk);
    assert_eq!(sigmoid::solar_phase(20_000, 20_000), SolarPhase::Day);
    assert_eq!(sigmoid::solar_phase(-20_000, 60_000), SolarPhase::Night);
    assert_eq!(sigmoid::calculate_solar_temp(20_000, 20_000, 6500, 1, 2), 6500);
    assert_eq!(sigmoid::calculate_solar_temp(-20_000, 60_000, 6500, 1, 2), 2900);
    assert_eq!(sigmoid::calculate_solar_temp(1800, 30_000, 6500, 4000, 2), 4000);
}

#[test]
fn manual_curve_ends_at_its_target() {
    assert_eq!(sigmoid::calculate_manual_temp(3500, NOW, 30, NOW + 60, 5000), 5000);
    assert_eq!(sigmoid::calculate_manual_temp(3500, NOW, 30, NOW + 1800, 5000), 3500);
    assert_eq!(sigmoid::calculate_manual_temp(3500, NOW, 0, NOW, 5000), 3500);
    assert_eq!(sigmoid::distances(NOW, today()), (10_000, 20_000));
    assert_eq!(sigmoid::distances(NOW, None), (0, 0));
}

#[test]
fn next_window_is_ahead() {
    let dusk = sigmoid::next_solar_window_start(NOW, today(), tomorrow(), true);
    assert_eq!(dusk, NOW + 20_000 - 1800 - 5400);
    let dawn = sigmoid::next_solar_window_start(NOW, today(), tomorrow(), false);
    assert_eq!(dawn, NOW + 76_400 + 1800 - 2700);
}

// --- the daemon ---

#[test]
fn new_override_starts_at_the_shown_temperature() {
    let mut s = DaemonState::new(false);
    s.end_tick(6000, true);
    let kept = s.note_override(Some(over(3500, 30, 0)), NOW, today(), tomorrow());
    assert_eq!(kept, OverrideFile::Save(over(3500, 30, 6000)));
    assert!(s.manual_mode);
    assert_eq!(s.manual_start_temp, 6000);
    let before = s;
    assert_eq!(
        s.note_override(Some(over(3500, 30, 6000)), NOW + 9, today(), tomorrow()),
        OverrideFile::Keep
    );
    assert_eq!(s, before);
}

#[test]
fn cleared_override_gives_the_sun_back_control() {
    let mut s = DaemonState::new(false);
    s.note_override(Some(over(3500, 30, 0)), NOW, today(), tomorrow());
    let kept = s.note_override(Some(cli::resume_override()), NOW, today(), tomorrow());
    assert_eq!(kept, OverrideFile::Remove);
    assert!(!s.manual_mode);
    assert_eq!(s.target_temperature(NOW, 1, 6500).temp, 6500);
}

#[test]
fn restart_takes_an_override_up() {
    let mut s = DaemonState::new(false);
    let kept = s.recover_override(Some(over(3500, 30, 0)), 6400, NOW + 9999, today(), tomorrow());
    assert_eq!(kept, OverrideFile::Save(over(3500, 30, 6400)));
    assert!(s.manual_mode);
    let mut s = DaemonState::new(false);
    let kept = s.recover_override(Some(over(3500, 30, 5000)), 6400, NOW, today(), tomorrow());
    assert_eq!(kept, OverrideFile::Keep);
    assert_eq!(s.manual_start_temp, 5000);
    let mut s = DaemonState::new(false);
    assert_eq!(
        s.recover_override(None, 6400, NOW, today(), tomorrow()),
        OverrideFile::Keep
    );
    assert!(!s.manual_mode);
}

#[test]
fn held_override_ends_when_the_sun_reaches_it() {
    let mut s = DaemonState::new(false);
    s.end_tick(6500, true);
    s.note_override(Some(over(3500, 30, 0)), NOW, today(), tomorrow());
    let early = s.target_temperature(NOW + 1800, 5000, 3000);
    assert_eq!(early.temp, 3500);
    assert!(!early.caught_up);
    let dusk = s.catch_up_check_after;
    assert!(s.checks_catch_up(dusk));
    let above = s.target_temperature(dusk, 5000, 3600);
    assert_eq!((above.temp, above.caught_up), (3500, false));
    let below = s.target_temperature(dusk, 5000, 3500);
    assert_eq!((below.temp, below.caught_up), (3500, true));
    assert!(!s.manual_mode);
}

#[test]
fn tick_looks_at_the_file_only_when_it_changed() {
    let mut s = DaemonState::new(false);
    let file = Some(over(3500, 30, 0));
    let (kept, step) = s.begin_tick(false, file, &None, NOW, today(), tomorrow());
    assert_eq!((kept, step), (OverrideFile::Keep, CloudStep::Settled));
    assert!(!s.manual_mode);
    let dark = Some(report(90, false));
    let (kept, step) = s.begin_tick(true, file, &dark, NOW, today(), tomorrow());
    assert_eq!(kept, OverrideFile::Save(over(3500, 30, 3500)));
    assert_eq!(step, CloudStep::Moving { fresh: true, elapsed: 0 });
    let (_, step) = s.begin_tick(false, None, &dark, NOW + 599, today(), tomorrow());
    assert_eq!(step, CloudStep::Moving { fresh: false, elapsed: 599 });
    let (_, step) = s.begin_tick(false, None, &dark, NOW + 600, today(), tomorrow());
    assert_eq!(step, CloudStep::Arrived);
    assert_eq!(s.note_clouds(true, NOW + 601), CloudStep::Settled);
}

#[test]
fn temperature_is_written_when_it_changes() {
    let mut s = DaemonState::new(false);
    assert!(s.must_apply(6500));
    s.end_tick(6500, false);
    assert!(s.must_apply(6500));
    s.end_tick(6500, true);
    assert!(!s.must_apply(6500));
    assert!(s.must_apply(6400));
    s.applied(6400);
    assert_eq!(s.last_temp, 6400);
}

#[test]
fn ticks_are_dense_during_a_transition() {
    let mut s = DaemonState::new(false);
    assert_eq!(s.manual_tick_sec(NOW), 60);
    for (minutes, sec) in [(3, 5), (30, 50), (90, 60)] {
        s.note_override(Some(cli::resume_override()), NOW, today(), tomorrow());
        s.note_override(Some(over(3500, minutes, 0)), NOW, today(), tomorrow());
        assert_eq!(s.manual_tick_sec(NOW), sec);
        assert_eq!(s.manual_tick_sec(NOW + minutes as i64 * 60), 60);
    }
}

fn inotify_event(name: &[u8], len: u32) -> Vec<u8> {
    let mut v = vec![0u8; 12];
    v.extend_from_slice(&len.to_le_bytes());
    v.extend_from_slice(name);
    v.resize(16 + len as usize, 0);
    v
}

#[test]
fn inotify_buffers_name_the_changed_files() {
    let mut buf = inotify_event(b"other", 16);
    buf.extend(inotify_event(b"override.json", 16));
    let read = |b: &[u8]| daemon::parse_inotify_events(b, b"override.json", b"config.ini");
    let c = read(&buf);
    assert_eq!(c, FileChanges { override_file: true, config_file: false });
    buf.extend(inotify_event(b"config.ini", 16));
    assert!(read(&buf).config_file);
    assert!(!read(&buf[..buf.len() - 1]).config_file);
    assert_eq!(read(&[]), FileChanges { override_file: false, config_file: false });
}

fn cqe(user_data: u64, res: i32, flags: u32) -> IoUringCqe {
    IoUringCqe { user_data, res, flags }
}

#[test]
fn completions_set_their_flags() {
    let mut e = EventFlags::new();
    let mut p = PollState { inotify: true, signal: true, weather: true };
    let files = FileChanges { override_file: true, config_file: false };
    assert!(daemon::wants_inotify_read(&cqe(1, 1, 0)));
    assert!(!daemon::wants_inotify_read(&cqe(1, 0, 0)));
    daemon::process_cqe(&cqe(1, 1, 2), &mut e, &mut p, files);
    assert!(e.override_file && !e.config_file && p.inotify);
    daemon::process_cqe(&cqe(5, -1, 0), &mut e, &mut p, files);
    assert!(!e.weather && !p.weather);
    assert_eq!(
        e.next_step(),
        LoopStep::Tick { override_changed: true, config_changed: false }
    );
    daemon::process_cqe(&cqe(3, -62, 0), &mut e, &mut p, files);
    assert!(e.timer);
    daemon::process_cqe(&cqe(2, 1, 0), &mut e, &mut p, files);
    assert!(e.signal && !p.signal);
    assert_eq!(e.next_step(), LoopStep::Stop);
}

#[test]
fn ring_hands_entries_over_in_order() {
    let mut ring = AbraxasRing::init(9, true, 7, 8, 15, 16).unwrap();
    let mut p = PollState { inotify: false, signal: false, weather: false };
    daemon::arm(&mut ring, &mut p, 4, -1, Some(6), 0x1000);
    assert_eq!(p, PollState { inotify: true, signal: false, weather: true });
    assert_eq!(ring.to_submit(), 3);
    assert_eq!(ring.sqes[0].fd, 4);
    assert_eq!(ring.sqes[1].user_data, uring::EV_WEATHER);
    assert_eq!(ring.sqes[2].addr, 0x1000);
    assert!(ring.taken(3));
    assert!(!ring.taken(4));
    assert_eq!(ring.to_submit(), 0);
    assert!(ring.peek_cqe().is_none());
    assert!(ring.arrived(cqe(3, -62, 0)));
    assert!(ring.arrived(cqe(1, 1, 2)));
    assert_eq!(ring.peek_cqe().map(|c| c.user_data), Some(3));
    ring.cqe_seen();
    assert_eq!(ring.peek_cqe().map(|c| c.user_data), Some(1));
}

#[test]
fn full_ring_takes_nothing_more() {
    let mut ring = AbraxasRing::init(9, true, 1, 2, 1, 2).unwrap();
    for n in 0..3 {
        ring.prep_poll(n, n as u64);
    }
    assert_eq!(ring.to_submit(), 2);
    for _ in 0..2 {
        assert!(ring.arrived(cqe(0, 0, 0)));
    }
    assert!(!ring.arrived(cqe(0, 0, 0)));
    assert!(AbraxasRing::init(-1, true, 1, 2, 1, 2).is_none());
    assert!(AbraxasRing::init(9, false, 1, 2, 1, 2).is_none());
    let odd = AbraxasRing::init(9, true, 6, 7, 1, 2).unwrap();
    assert_eq!((odd.sq_mask, odd.sq_entries, odd.ring_fd), (6, 7, 9));
    assert!(uring::is_slot_mask(7, 8) && !uring::is_slot_mask(6, 7));
    assert!(!uring::is_slot_mask(3, 2) && !uring::is_slot_mask(0, 0));
}

#[test]
fn ring_memory_and_results() {
    let p = RingParams { sq_entries: 8, cq_entries: 16, sq_array_offset: 64, cqes_offset: 96 };
    let s = uring::ring_sizes(&p);
    assert_eq!((s.sq_ring, s.sqes, s.cq_ring), (96, 512, 352));
    assert_eq!(uring::enter_result(-1, true), 0);
    assert_eq!(uring::enter_result(-1, false), -1);
    assert_eq!(uring::enter_result(3, false), 3);
}

#[test]
fn early_wake_cancels_the_timeout() {
    let mut ring = AbraxasRing::init(9, true, 7, 8, 15, 16).unwrap();
    let mut e = EventFlags::new();
    assert!(daemon::cancel_timeout(&mut ring, &e));
    assert_eq!(ring.sqes[0].addr, uring::EV_TIMEOUT);
    e.timer = true;
    assert!(!daemon::cancel_timeout(&mut ring, &e));
    assert_eq!(ring.to_submit(), 1);
}

#[test]
fn gamma_is_tried_sixty_times() {
    assert_eq!(daemon::gamma_retry(0, false), RetryStep::SleepMs(500));
    assert_eq!(daemon::gamma_retry(0, true), RetryStep::Leave);
    assert_eq!(daemon::gamma_retry(59, true), RetryStep::GiveUp);
}

// --- the weather ---

const POINTS: &str = r#"{"properties":{"forecastHourly":"https://api.weather.gov/f/1"}}"#;
const FORECAST: &str = r#"{"properties":{"periods":[
    {"shortForecast":"Mostly Cloudy","temperature":71.5,"isDaytime":false}]}}"#;

#[test]
fn forecasts_mean_cloud_cover() {
    let cover = weather::cloud_cover_from_forecast;
    assert_eq!(cover("Sunny"), cover("SUNNY"));
    for (forecast, percent) in [
        ("Chance Rain Showers", 95),
        ("Thunderstorms", 95),
        ("Sunny then Light Snow", 95),
        ("Overcast", 90),
        ("Mostly Cloudy", 75),
        ("Partly Cloudy", 90),
        ("Partly Sunny", 50),
        ("Mostly Clear", 25),
        ("Mostly Sunny", 25),
        ("CLEAR", 10),
        ("Fog", 0),
    ] {
        assert_eq!(cover(forecast), percent, "{}", forecast);
    }
    assert_eq!(cover("Sunny"), weather::cloud_cover_of_lower("sunny"));
}

#[test]
fn addresses_of_the_service() {
    assert_eq!(
        weather::points_url("41.8800", "-87.6300"),
        "https://api.weather.gov/points/41.8800,-87.6300"
    );
    let a = weather::curl_args("https://x");
    assert_eq!(a.last().map(|s| s.as_str()), Some("https://x"));
}

fn json_words(text: &str) -> String {
    serde_json::from_str::<serde_json::Value>(text).unwrap_err().to_string()
}

#[test]
fn answers_are_read() {
    assert_eq!(weather::read_points(POINTS), Ok("https://api.weather.gov/f/1".to_string()));
    assert_eq!(weather::read_points("{}"), Err(FetchError::NoForecastUrl));
    assert_eq!(weather::read_points("{"), Err(FetchError::BadJson(json_words("{"))));
    let wd = weather::read_forecast(FORECAST, NOW).unwrap();
    assert_eq!(wd.forecast, "Mostly Cloudy");
    assert_eq!(f64::from_bits(wd.temperature), 71.5);
    assert!(!wd.is_day && !wd.has_error);
    assert_eq!(wd.fetched_at, NOW);
    assert_eq!(wd.cloud_cover, weather::cloud_cover_from_forecast("Mostly Cloudy"));
    assert_eq!(weather::read_forecast("{}", NOW).unwrap_err(), FetchError::NoPeriods);
    assert_eq!(
        weather::read_forecast("x", NOW).unwrap_err().message(false),
        "expected value at line 1 column 1"
    );
}

#[test]
fn json_values_are_looked_into() {
    let v: serde_json::Value = serde_json::from_str(POINTS).unwrap();
    assert_eq!(weather::forecast_url(&v), Some("https://api.weather.gov/f/1".to_string()));
    let v: serde_json::Value = serde_json::from_str(FORECAST).unwrap();
    assert_eq!(weather::forecast_url(&v), None);
    assert!(weather::forecast_report(&v, NOW).is_ok());
}

#[test]
fn fetch_goes_through_both_requests() {
    let mut f = FetchState::new();
    assert!(daemon::wants_fetch(&f, &None, NOW));
    assert!(!daemon::wants_fetch(&f, &Some(report(0, false)), NOW));
    assert!(!f.needs_poll());
    assert_eq!(f.start(Some(7)), 7);
    assert_eq!(f.start(Some(8)), -1);
    assert!(f.needs_poll());
    assert!(!daemon::wants_fetch(&f, &None, NOW));
    f.receive(&POINTS.as_bytes()[..10]);
    assert!(matches!(f.read_response(Drain::Again, false, NOW), ReadResult::Pending));
    f.receive(&POINTS.as_bytes()[10..]);
    match f.read_response(Drain::Eof, true, NOW) {
        ReadResult::NewPipe(url) => assert_eq!(url, "https://api.weather.gov/f/1"),
        other => panic!("{:?}", other),
    }
    assert!(f.forecast_started(Ok(8)).is_ok());
    f.receive(FORECAST.as_bytes());
    match f.read_response(Drain::Eof, true, NOW) {
        ReadResult::Done(Ok(wd)) => assert_eq!(wd.forecast, "Mostly Cloudy"),
        other => panic!("{:?}", other),
    }
    assert_eq!(f.phase, FetchPhase::Idle);
}

fn failure(f: &mut FetchState, drained: Drain, success: bool) -> FetchError {
    match f.read_response(drained, success, NOW) {
        ReadResult::Done(Err(e)) => e,
        other => panic!("{:?}", other),
    }
}

#[test]
fn fetch_can_fail_at_each_step() {
    let mut f = FetchState::new();
    f.start(Some(7));
    assert_eq!(failure(&mut f, Drain::Failed, true), FetchError::PipeRead);
    assert_eq!(failure(&mut f, Drain::Eof, true), FetchError::NoChild);
    f.start(Some(7));
    assert_eq!(failure(&mut f, Drain::Eof, true), FetchError::CurlFailed);
    f.start(Some(7));
    f.receive(b"x");
    assert_eq!(failure(&mut f, Drain::Eof, false), FetchError::CurlFailed);
    f.start(Some(7));
    f.receive(&[0xff, 0xfe]);
    assert_eq!(failure(&mut f, Drain::Eof, true), FetchError::InvalidUtf8);
    f.start(Some(7));
    f.receive(b"{");
    assert_eq!(failure(&mut f, Drain::Eof, true), FetchError::BadJson(json_words("{")));
    f.start(Some(7));
    f.receive(b"{}");
    assert_eq!(failure(&mut f, Drain::Eof, true), FetchError::NoForecastUrl);
    f.start(Some(7));
    f.forecast_started(Ok(8)).unwrap();
    f.receive(b"{}");
    assert_eq!(failure(&mut f, Drain::Eof, true), FetchError::NoPeriods);
    f.start(Some(7));
    assert_eq!(
        f.forecast_started(Err("no curl".to_string())),
        Err(FetchError::Spawn("no curl".to_string()))
    );
    let mut f = FetchState::new();
    f.has_child = true;
    f.receive(b"{}");
    assert_eq!(failure(&mut f, Drain::Eof, true), FetchError::UnexpectedIdle);
    assert!(!f.abort());
    assert_eq!(FetchError::PipeRead.message(false), "pipe read error");
    assert_eq!(FetchError::Spawn("no curl".to_string()).message(false), "no curl");
    assert_eq!(FetchError::NoForecastUrl.message(false), "no forecastHourly URL");
}

#[test]
fn request_in_one_go_says_what_went_wrong() {
    assert_eq!(
        weather::http_answer(true, "exit status: 0".to_string(), b"{}".to_vec()),
        Ok("{}".to_string())
    );
    let e = weather::http_answer(false, "exit status: 22".to_string(), Vec::new()).unwrap_err();
    assert_eq!(e.message(true), "curl exit exit status: 22");
    let e = weather::http_answer(true, "exit status: 0".to_string(), vec![0xff]).unwrap_err();
    let words = String::from_utf8(vec![0xff]).unwrap_err().to_string();
    assert_eq!(e.message(true), words);
    assert_eq!(FetchError::NoForecastUrl.message(true), "No forecastHourly URL");
    assert_eq!(FetchError::NoPeriods.message(true), "No forecast periods");
}

#[test]
fn failed_fetch_leaves_an_error_report() {
    let mut p = PollState { inotify: true, signal: true, weather: true };
    let mut w = None;
    assert!(!daemon::note_report(Err(FetchError::CurlFailed), &mut p, &mut w, NOW));
    assert!(!p.weather && p.inotify && p.signal);
    let kept = w.take().unwrap();
    assert!(kept.has_error && kept.forecast == "Unknown" && kept.fetched_at == NOW);
    assert!(daemon::note_report(Ok(report(3, false)), &mut p, &mut w, NOW));
    assert_eq!(w.map(|r| r.cloud_cover), Some(3));
    assert!(weather::fetch(Err(FetchError::CurlFailed), NOW).has_error);
    assert_eq!(weather::fetch(Ok(report(3, false)), NOW).cloud_cover, 3);
    assert_eq!(daemon::failed_report(NOW).fetched_at, NOW);
}

// --- ZIP codes ---

fn database(entries: &[(&str, f32, f32)]) -> Vec<u8> {
    let mut v = (entries.len() as u32).to_le_bytes().to_vec();
    for (zip, lat, lon) in entries {
        v.extend_from_slice(zip.as_bytes());
        v.extend_from_slice(&lat.to_le_bytes());
        v.extend_from_slice(&lon.to_le_bytes());
    }
    v
}

#[test]
fn zip_codes_are_found() {
    let all = [("10001", 40.75, -74.0), ("60614", 41.92, -87.65), ("94105", 37.79, -122.39)];
    let db = database(&all);
    for (zip, lat, lon) in all {
        assert_eq!(
            zipdb::lookup(&db, zip),
            Some(Coordinates { lat: lat.to_bits(), lon: lon.to_bits() })
        );
    }
    assert_eq!(zipdb::lookup(&db, "60615"), None);
    assert_eq!(zipdb::lookup(&db, "1"), None);
    assert_eq!(zipdb::lookup(&db[..3], "10001"), None);
}

// --- the sandbox ---

#[test]
fn daemon_writes_to_its_own_directory() {
    let rules = landlock::sandbox_rules("/home/ann/.config/abraxas");
    let own: Vec<_> = rules.iter().filter(|r| r.path == "/home/ann/.config/abraxas").collect();
    assert_eq!(own.len(), 1);
    assert_eq!(own[0].access, landlock::CONFIG_ACCESS);
}

fn run(program: &[bpf::SockFilter], arch: u32, nr: u32) -> u32 {
    let mut acc = 0;
    let mut pc = 0;
    loop {
        let i = program[pc];
        pc += 1;
        match i.code {
            bpf::LOAD_WORD => acc = if i.k == bpf::OFFSET_ARCH { arch } else { nr },
            bpf::JUMP_EQUAL => pc += if acc == i.k { i.jt as usize } else { i.jf as usize },
            bpf::RETURN_CONST => return i.k,
            other => panic!("opcode {}", other),
        }
    }
}

#[test]
fn filter_lets_the_listed_calls_through() {
    let program = seccomp::filter_program();
    let allowed = seccomp::allowed_syscalls();
    for nr in 0..500 {
        let want = if allowed.contains(&nr) {
            bpf::SECCOMP_RET_ALLOW
        } else {
            bpf::SECCOMP_RET_KILL_PROCESS
        };
        assert_eq!(run(&program, bpf::AUDIT_ARCH_X86_64, nr), want, "call {}", nr);
    }
    assert_eq!(run(&program, 0x4000_0003, syscalls::READ), bpf::SECCOMP_RET_KILL_PROCESS);
}

#[test]
fn locker_filter_lets_the_listed_calls_through() {
    let program = demiurge::gordian_knot::seccomp::filter_program();
    let allowed = demiurge::gordian_knot::seccomp::allowed_syscalls();
    for nr in 0..500 {
        let ok = run(&program, bpf::AUDIT_ARCH_X86_64, nr) == bpf::SECCOMP_RET_ALLOW;
        assert_eq!(ok, allowed.contains(&nr), "call {}", nr);
    }
}
