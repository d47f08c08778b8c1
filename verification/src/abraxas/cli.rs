//! The command line of the colour-temperature tool, and what its commands decide.
use vstd::prelude::*;

use super::config::{OverrideState, WeatherData};
use super::sigmoid::{TEMP_MAX, TEMP_MIN};
use super::solar::SunTimes;
use super::{config, daemon, sigmoid};
use crate::text;

verus! {

/// The minutes of an override that names none.
pub const DEFAULT_DURATION_MIN: i32 = 3;

#[derive(Debug, Clone)]
pub enum Command {
    Daemon,
    Status,
    SetLocation(String),
    Refresh,
    Override { temp: i32, duration: i32 },
    Resume,
    Reset,
    Benchmark,
}

/// Why a command line holds no command.
#[derive(Debug, Clone)]
pub enum UsageError {
    /// Help was asked for.
    Help,
    MissingLocation,
    MissingTemperature,
    InvalidTemperature(String),
    InvalidDuration(String),
    Unknown(String),
}

/// The outcome of reading a command line, as mathematics.
pub enum Parsed {
    Daemon,
    Status,
    SetLocation(Seq<char>),
    Refresh,
    Override { temp: int, duration: int },
    Resume,
    Reset,
    Benchmark,
    Help,
    MissingLocation,
    MissingTemperature,
    InvalidTemperature(Seq<char>),
    InvalidDuration(Seq<char>),
    Unknown(Seq<char>),
}

pub open spec fn command_view(c: Command) -> Parsed {
    match c {
        Command::Daemon => Parsed::Daemon,
        Command::Status => Parsed::Status,
        Command::SetLocation(l) => Parsed::SetLocation(l@),
        Command::Refresh => Parsed::Refresh,
        Command::Override { temp, duration } => Parsed::Override {
            temp: temp as int,
            duration: duration as int,
        },
        Command::Resume => Parsed::Resume,
        Command::Reset => Parsed::Reset,
        Command::Benchmark => Parsed::Benchmark,
    }
}

pub open spec fn error_view(e: UsageError) -> Parsed {
    match e {
        UsageError::Help => Parsed::Help,
        UsageError::MissingLocation => Parsed::MissingLocation,
        UsageError::MissingTemperature => Parsed::MissingTemperature,
        UsageError::InvalidTemperature(t) => Parsed::InvalidTemperature(t@),
        UsageError::InvalidDuration(t) => Parsed::InvalidDuration(t@),
        UsageError::Unknown(t) => Parsed::Unknown(t@),
    }
}

pub open spec fn outcome_view(r: Result<Command, UsageError>) -> Parsed {
    match r {
        Ok(c) => command_view(c),
        Err(e) => error_view(e),
    }
}

/// A command's word, with or without its dashes.
pub open spec fn names(word: Seq<char>, bare: Seq<char>) -> bool {
    word == bare || word == "--"@ + bare
}

/// What `set` asks for: a temperature and, optionally, the minutes to reach it.
pub open spec fn parsed_set(args: Seq<Seq<char>>) -> Parsed {
    if args.len() < 3 {
        Parsed::MissingTemperature
    } else if text::i32_value(args[2]) is None {
        Parsed::InvalidTemperature(args[2])
    } else if args.len() < 4 {
        Parsed::Override {
            temp: text::i32_value(args[2])->0,
            duration: DEFAULT_DURATION_MIN as int,
        }
    } else if text::i32_value(args[3]) is None {
        Parsed::InvalidDuration(args[3])
    } else {
        Parsed::Override {
            temp: text::i32_value(args[2])->0,
            duration: text::i32_value(args[3])->0,
        }
    }
}

/// What a command line asks for; its first word is the program's own name.
pub open spec fn parsed(args: Seq<Seq<char>>) -> Parsed {
    if args.len() < 2 {
        Parsed::Daemon
    } else {
        let word = args[1];
        if names(word, "daemon"@) {
            Parsed::Daemon
        } else if names(word, "status"@) {
            Parsed::Status
        } else if names(word, "set-location"@) {
            if args.len() < 3 {
                Parsed::MissingLocation
            } else {
                Parsed::SetLocation(args[2])
            }
        } else if names(word, "refresh"@) {
            Parsed::Refresh
        } else if names(word, "set"@) {
            parsed_set(args)
        } else if names(word, "resume"@) {
            Parsed::Resume
        } else if names(word, "reset"@) {
            Parsed::Reset
        } else if names(word, "benchmark"@) {
            Parsed::Benchmark
        } else if names(word, "help"@) || word == "-h"@ {
            Parsed::Help
        } else {
            Parsed::Unknown(word)
        }
    }
}

fn is_named(word: &str, bare: &str) -> (r: bool)
    ensures
        r == names(word@, bare@),
{
    if text::same_text(word, bare) {
        return true;
    }
    let mut dashed = String::new();
    dashed.append("--");
    dashed.append(bare);
    assert(dashed@ =~= "--"@ + bare@);
    text::same_text(word, dashed.as_str())
}

fn parse_set(args: &Vec<String>) -> (r: Result<Command, UsageError>)
    ensures
        outcome_view(r) == parsed_set(text::texts(args@)),
{
    let ghost all = text::texts(args@);
    if args.len() < 3 {
        return Err(UsageError::MissingTemperature);
    }
    assert(all[2] == args@[2]@);
    let temp: i32 = match text::parse_i32(text::chars_of(args[2].as_str()).as_slice()) {
        Some(t) => t,
        None => {
            return Err(UsageError::InvalidTemperature(args[2].clone()));
        },
    };
    if args.len() < 4 {
        return Ok(Command::Override { temp, duration: DEFAULT_DURATION_MIN });
    }
    assert(all[3] == args@[3]@);
    match text::parse_i32(text::chars_of(args[3].as_str()).as_slice()) {
        Some(duration) => Ok(Command::Override { temp, duration }),
        None => Err(UsageError::InvalidDuration(args[3].clone())),
    }
}

/// Reads a command line; the first of `args` is the program's own name.
pub fn parse_args(args: &Vec<String>) -> (r: Result<Command, UsageError>)
    ensures
        outcome_view(r) == parsed(text::texts(args@)),
{
    let ghost all = text::texts(args@);
    if args.len() < 2 {
        return Ok(Command::Daemon);
    }
    let word = args[1].as_str();
    assert(all[1] == word@);
    if is_named(word, "daemon") {
        Ok(Command::Daemon)
    } else if is_named(word, "status") {
        Ok(Command::Status)
    } else if is_named(word, "set-location") {
        if args.len() < 3 {
            Err(UsageError::MissingLocation)
        } else {
            assert(all[2] == args@[2]@);
            Ok(Command::SetLocation(args[2].clone()))
        }
    } else if is_named(word, "refresh") {
        Ok(Command::Refresh)
    } else if is_named(word, "set") {
        parse_set(args)
    } else if is_named(word, "resume") {
        Ok(Command::Resume)
    } else if is_named(word, "reset") {
        Ok(Command::Reset)
    } else if is_named(word, "benchmark") {
        Ok(Command::Benchmark)
    } else if is_named(word, "help") || text::same_text(word, "-h") {
        Err(UsageError::Help)
    } else {
        Err(UsageError::Unknown(args[1].clone()))
    }
}

impl Command {
    /// Whether the command works on a configured location.
    pub fn needs_location(&self) -> (r: bool)
        ensures
            r == (*self is Daemon || *self is Status || *self is Refresh),
    {
        match self {
            Command::Daemon | Command::Status | Command::Refresh => true,
            _ => false,
        }
    }
}

impl UsageError {
    /// The exit code of a run that ends here: asking for help is no failure.
    pub fn exit_code(&self) -> (r: i32)
        ensures
            r == (if *self is Help {
                0i32
            } else {
                1i32
            }),
    {
        match self {
            UsageError::Help => 0,
            _ => 1,
        }
    }

    /// The first line that is printed; none for help, which is the usage text alone.
    pub fn message(&self) -> (r: Option<String>)
        ensures
            config::text_of(r) == (match *self {
                UsageError::Help => None::<Seq<char>>,
                UsageError::MissingLocation => Some(
                    "--set-location requires a location argument"@,
                ),
                UsageError::MissingTemperature => Some("--set requires a temperature argument"@),
                UsageError::InvalidTemperature(t) => Some("Invalid temperature: "@ + t@),
                UsageError::InvalidDuration(t) => Some("Invalid duration: "@ + t@),
                UsageError::Unknown(t) => Some("Unknown command: "@ + t@),
            }),
    {
        match self {
            UsageError::Help => None,
            UsageError::MissingLocation => Some(
                "--set-location requires a location argument".to_string(),
            ),
            UsageError::MissingTemperature => Some(
                "--set requires a temperature argument".to_string(),
            ),
            UsageError::InvalidTemperature(t) => Some(
                two_parts("Invalid temperature: ", t.as_str()),
            ),
            UsageError::InvalidDuration(t) => Some(two_parts("Invalid duration: ", t.as_str())),
            UsageError::Unknown(t) => Some(two_parts("Unknown command: ", t.as_str())),
        }
    }
}

fn two_parts(a: &str, b: &str) -> (r: String)
    ensures
        r@ == a@ + b@,
{
    let mut out = String::new();
    out.append(a);
    out.append(b);
    assert(out@ =~= a@ + b@);
    out
}

// --- setting a location ---

/// What a location argument names. The numbers of a pair are still text.
#[derive(Debug, Clone)]
pub enum LocationArg {
    Pair(String, String),
    Zip(String),
    /// More than one comma.
    BadFormat,
    BadZip,
}

pub open spec fn is_zip(s: Seq<char>) -> bool {
    s.len() == 5 && forall|i: int| 0 <= i < s.len() ==> '0' <= #[trigger] s[i] <= '9'
}

/// A pair is told by its comma; what has none is a ZIP code of five digits.
pub open spec fn names_location(arg: Seq<char>, r: LocationArg) -> bool {
    if arg.contains(',') {
        let parts = text::split(arg, ',');
        if parts.len() == 2 {
            r matches LocationArg::Pair(lat, lon) && lat@ == parts[0] && lon@ == parts[1]
        } else {
            r is BadFormat
        }
    } else if is_zip(arg) {
        r matches LocationArg::Zip(z) && z@ == arg
    } else {
        r is BadZip
    }
}

fn all_zip_digits(s: &[char]) -> (r: bool)
    ensures
        r == is_zip(s@),
{
    if s.len() != 5 {
        return false;
    }
    let mut i: usize = 0;
    while i < s.len()
        invariant
            i <= s.len(),
            s@.len() == 5,
            forall|j: int| 0 <= j < i ==> '0' <= #[trigger] s@[j] <= '9',
        decreases s.len() - i,
    {
        if s[i] < '0' || s[i] > '9' {
            return false;
        }
        i += 1;
    }
    true
}

/// Tells what a location argument names.
pub fn location_arg(arg: &str) -> (r: LocationArg)
    ensures
        names_location(arg@, r),
{
    let chars = text::chars_of(arg);
    let comma = text::find_char(chars.as_slice(), ',');
    proof {
        text::lemma_first_of(arg@, ',');
    }
    if comma < chars.len() {
        let parts = text::split_chars(chars.as_slice(), ',');
        if parts.len() == 2 {
            let lat = text::string_of(parts[0].as_slice());
            let lon = text::string_of(parts[1].as_slice());
            return LocationArg::Pair(lat, lon);
        }
        return LocationArg::BadFormat;
    }
    if all_zip_digits(chars.as_slice()) {
        LocationArg::Zip(text::string_of(chars.as_slice()))
    } else {
        LocationArg::BadZip
    }
}

// --- overrides ---

/// The override that a command asks for at time `now`; `None` where the temperature is out of
/// bounds. The daemon fills in where the change starts.
pub fn override_of(target_temp: i32, duration_min: i32, now: i64) -> (r: Option<OverrideState>)
    ensures
        r == (if TEMP_MIN <= target_temp <= TEMP_MAX {
            Some(
                OverrideState {
                    active: true,
                    target_temp,
                    duration_minutes: duration_min,
                    issued_at: now,
                    start_temp: 0,
                },
            )
        } else {
            None
        }),
        r == issued(target_temp, duration_min, now),
{
    if target_temp < TEMP_MIN || target_temp > TEMP_MAX {
        return None;
    }
    Some(
        OverrideState {
            active: true,
            target_temp,
            duration_minutes: duration_min,
            issued_at: now,
            start_temp: 0,
        },
    )
}

/// The override file's contents that end an override.
pub fn resume_override() -> (r: OverrideState)
    ensures
        r == (OverrideState {
            active: false,
            target_temp: 0,
            duration_minutes: 0,
            issued_at: 0,
            start_temp: 0,
        }),
{
    OverrideState {
        active: false,
        target_temp: 0,
        duration_minutes: 0,
        issued_at: 0,
        start_temp: 0,
    }
}

/// What is printed once an override has been written.
pub fn override_report(target_temp: i32, duration_min: i32) -> (r: String)
    ensures
        r@ == (if duration_min > 0 {
            "Override: -> "@ + text::signed_decimal(target_temp as int) + "K over "@
                + text::signed_decimal(duration_min as int) + " min (sigmoid)"@
        } else {
            "Override: -> "@ + text::signed_decimal(target_temp as int) + "K (instant)"@
        }),
{
    let mut out = String::new();
    out.append("Override: -> ");
    text::push_signed(&mut out, target_temp as i64);
    if duration_min > 0 {
        out.append("K over ");
        text::push_signed(&mut out, duration_min as i64);
        out.append(" min (sigmoid)");
        assert(out@ =~= "Override: -> "@ + text::signed_decimal(target_temp as int) + "K over "@
            + text::signed_decimal(duration_min as int) + " min (sigmoid)"@);
    } else {
        out.append("K (instant)");
        assert(out@ =~= "Override: -> "@ + text::signed_decimal(target_temp as int)
            + "K (instant)"@);
    }
    out
}

// --- status ---

/// What the status command reports of the temperature.
#[derive(Debug, Clone, Copy, PartialEq, Eq, Structural)]
pub enum Mode {
    /// An override has reached its target and holds it.
    Holding(i32),
    /// An override is on its way.
    Ramping { target_temp: i32, duration_minutes: i32 },
    /// The sun's curve, under a dark sky.
    Dark,
    /// The sun's curve, under a clear sky.
    Clear,
}

/// The mode at time `now`: an active override comes before the sun.
pub open spec fn mode(
    overriding: Option<OverrideState>,
    weather: Option<WeatherData>,
    now: int,
) -> Mode {
    if overriding is Some && overriding->0.active {
        let o = overriding->0;
        if sigmoid::transition_over(o.issued_at as int, o.duration_minutes as int, now) {
            Mode::Holding(o.target_temp)
        } else {
            Mode::Ramping { target_temp: o.target_temp, duration_minutes: o.duration_minutes }
        }
    } else if config::dark(weather) {
        Mode::Dark
    } else {
        Mode::Clear
    }
}

pub fn status_mode(
    overriding: Option<OverrideState>,
    weather: &Option<WeatherData>,
    now: i64,
) -> (r: Mode)
    requires
        overriding matches Some(o) ==> i64::MIN <= now - o.issued_at <= i64::MAX,
    ensures
        r == mode(overriding, *weather, now as int),
{
    if let Some(o) = overriding {
        if o.active {
            if sigmoid::is_transition_over(o.issued_at, o.duration_minutes, now) {
                return Mode::Holding(o.target_temp);
            }
            return Mode::Ramping {
                target_temp: o.target_temp,
                duration_minutes: o.duration_minutes,
            };
        }
    }
    if config::is_dark(weather) {
        Mode::Dark
    } else {
        Mode::Clear
    }
}

/// After a resume the sun's curve is reported, whatever the time.
pub proof fn law_resume_ends_override(weather: Option<WeatherData>, now: int, o: OverrideState)
    requires
        o == (OverrideState {
            active: false,
            target_temp: 0,
            duration_minutes: 0,
            issued_at: 0,
            start_temp: 0,
        }),
    ensures
        mode(Some(o), weather, now) is Dark || mode(Some(o), weather, now) is Clear,
{
}

/// An override that was accepted is reported from its first second on: held at once where it has
/// no duration, else on its way.
pub proof fn law_accepted_override_is_reported(
    target_temp: i32,
    duration_min: i32,
    now: i64,
    weather: Option<WeatherData>,
)
    ensures
        mode(
            Some(
                OverrideState {
                    active: true,
                    target_temp,
                    duration_minutes: duration_min,
                    issued_at: now,
                    start_temp: 0,
                },
            ),
            weather,
            now as int,
        ) == (if duration_min <= 0 {
            Mode::Holding(target_temp)
        } else {
            Mode::Ramping { target_temp, duration_minutes: duration_min }
        }),
{
}

/// A command word means the same with its dashes and without them.
pub proof fn law_dashes_are_optional(args: Seq<Seq<char>>, bare: Seq<char>)
    requires
        args.len() >= 2,
        args[1] == bare,
        bare.len() > 0,
        bare[0] != '-',
        parsed(args) !is Unknown,
    ensures
        parsed(args.update(1, "--"@ + bare)) == parsed(args),
{
    reveal_strlit("--");
    reveal_strlit("-h");
    let dashed = "--"@ + bare;
    let other = args.update(1, dashed);
    assert(dashed[0] == '-');
    assert forall|w: Seq<char>| #![trigger names(bare, w)] names(bare, w) ==> names(dashed, w) by {
        if bare == "--"@ + w {
            assert(bare[0] == '-');
        }
    }
    assert forall|w: Seq<char>|
        #![trigger names(dashed, w)]
        names(dashed, w) && w.len() > 0 && w[0] != '-' implies names(bare, w) by {
        if dashed == "--"@ + w {
            assert(dashed.skip(2) =~= bare);
            assert(("--"@ + w).skip(2) =~= w);
        }
    }
    reveal_strlit("daemon");
    reveal_strlit("status");
    reveal_strlit("set-location");
    reveal_strlit("refresh");
    reveal_strlit("set");
    reveal_strlit("resume");
    reveal_strlit("reset");
    reveal_strlit("benchmark");
    reveal_strlit("help");
    assert(other.len() == args.len());
    assert(forall|i: int| 2 <= i < args.len() ==> other[i] == args[i]);
    assert(dashed != "-h"@) by {
        if dashed == "-h"@ {
            assert(dashed[1] == '-');
        }
    }
}

/// Each command has its word, which stands first, and what is no command's word is unknown; without a
/// word the daemon runs.
pub proof fn law_commands_have_their_words(args: Seq<Seq<char>>)
    ensures
        args.len() < 2 ==> parsed(args) == Parsed::Daemon,
        args.len() >= 2 ==> {
            let word = args[1];
            &&& word == "daemon"@ ==> parsed(args) == Parsed::Daemon
            &&& word == "status"@ ==> parsed(args) == Parsed::Status
            &&& word == "refresh"@ ==> parsed(args) == Parsed::Refresh
            &&& word == "resume"@ ==> parsed(args) == Parsed::Resume
            &&& word == "reset"@ ==> parsed(args) == Parsed::Reset
            &&& word == "benchmark"@ ==> parsed(args) == Parsed::Benchmark
            &&& word == "help"@ || word == "-h"@ ==> parsed(args) == Parsed::Help
            &&& word == "set-location"@ && args.len() >= 3 ==> parsed(args) == Parsed::SetLocation(
                args[2],
            )
            &&& word == "set-location"@ && args.len() < 3 ==> parsed(args)
                == Parsed::MissingLocation
            &&& parsed(args) is Unknown ==> parsed(args) == Parsed::Unknown(word) && word
                != "daemon"@ && word != "set"@
            &&& parsed(args) is Reset ==> word == "reset"@ || word == "--"@ + "reset"@
            &&& parsed(args) is Resume ==> word == "resume"@ || word == "--"@ + "resume"@
        },
{
    reveal_strlit("--");
    reveal_strlit("daemon");
    reveal_strlit("status");
    reveal_strlit("set-location");
    reveal_strlit("refresh");
    reveal_strlit("set");
    reveal_strlit("resume");
    reveal_strlit("reset");
    reveal_strlit("benchmark");
    reveal_strlit("help");
    reveal_strlit("-h");
    assert("daemon"@.len() == 6 && "daemon"@[0] == 'd');
    assert("status"@.len() == 6 && "status"@[0] == 's');
    assert("set-location"@.len() == 12 && "set-location"@[0] == 's');
    assert("refresh"@.len() == 7 && "refresh"@[0] == 'r');
    assert("set"@.len() == 3 && "set"@[0] == 's');
    assert("resume"@.len() == 6 && "resume"@[0] == 'r');
    assert("reset"@.len() == 5 && "reset"@[0] == 'r');
    assert("benchmark"@.len() == 9 && "benchmark"@[0] == 'b');
    assert("help"@.len() == 4 && "help"@[0] == 'h');
    assert("-h"@.len() == 2 && "-h"@[0] == '-' && "-h"@[1] == 'h');
    assert(forall|b: Seq<char>| #[trigger] ("--"@ + b)[0] == '-' && ("--"@ + b)[1] == '-');
}

/// A temperature is set as it is written, for the minutes that are written behind it, or for three
/// where none are; what is no number is refused, the temperature before the minutes.
pub proof fn law_temperature_is_set_as_written(
    args: Seq<Seq<char>>,
    temp: int,
    minutes: int,
)
    requires
        args.len() >= 2,
        args[1] == "set"@,
        i32::MIN <= temp <= i32::MAX,
        i32::MIN <= minutes <= i32::MAX,
    ensures
        args.len() < 3 ==> parsed_set(args) == Parsed::MissingTemperature,
        args.len() == 3 && args[2] == text::signed_decimal(temp) ==> parsed_set(args)
            == (Parsed::Override { temp, duration: 3 }),
        args.len() >= 4 && args[2] == text::signed_decimal(temp) && args[3]
            == text::signed_decimal(minutes) ==> parsed_set(args) == (Parsed::Override {
            temp,
            duration: minutes,
        }),
        args.len() >= 3 && text::i32_value(args[2]) is None ==> parsed_set(args)
            == Parsed::InvalidTemperature(args[2]),
        args.len() >= 4 && args[2] == text::signed_decimal(temp) && text::i32_value(args[3]) is None
            ==> parsed_set(args) == Parsed::InvalidDuration(args[3]),
        parsed(args) == parsed_set(args),
{
    text::law_number_is_read_back(temp);
    text::law_number_is_read_back(minutes);
    reveal_strlit("--");
    reveal_strlit("daemon");
    reveal_strlit("status");
    reveal_strlit("set-location");
    reveal_strlit("refresh");
    reveal_strlit("set");
    assert("set"@.len() == 3 && "set"@[0] == 's');
    assert("daemon"@.len() == 6 && "status"@.len() == 6);
    assert("set-location"@.len() == 12 && "refresh"@.len() == 7);
    assert(forall|b: Seq<char>| #[trigger] ("--"@ + b)[0] == '-' && ("--"@ + b)[1] == '-');
}

/// Two coordinates with a comma between them are a place, and so are five digits; with more commas,
/// or with neither, there is none.
pub proof fn law_place_is_a_pair_or_a_code(lat: Seq<char>, lon: Seq<char>, r: LocationArg)
    requires
        !lat.contains(','),
        !lon.contains(','),
        names_location(lat.push(',') + lon, r),
    ensures
        r matches LocationArg::Pair(a, b) && a@ == lat && b@ == lon,
{
    let s = lat.push(',') + lon;
    assert(s[lat.len() as int] == ',');
    text::lemma_first_of_behind(lat, ',', lon);
    text::lemma_first_of(lat, ',');
    text::lemma_first_of(lon, ',');
    text::lemma_first_of(s, ',');
    let n = text::first_of(s, ',');
    assert(n == lat.len()) by {
        if n < lat.len() {
            assert(s[n] == lat[n]);
            assert(lat.contains(lat[n]));
        }
        if n > lat.len() {
            assert(s[lat.len() as int] != ',');
        }
    }
    assert(s.take(n) =~= lat);
    assert(s.skip(n + 1) =~= lon);
    reveal_with_fuel(text::split, 3);
    assert(text::split(lon, ',') =~= seq![lon]);
    assert(text::split(s, ',') =~= seq![lat, lon]);
}

/// A place without a comma is a code of five digits or none.
pub proof fn law_code_is_five_digits(arg: Seq<char>, r: LocationArg)
    requires
        !arg.contains(','),
        names_location(arg, r),
    ensures
        r is Zip || r is BadZip,
        r is Zip <==> arg.len() == 5 && forall|i: int|
            0 <= i < arg.len() ==> '0' <= #[trigger] arg[i] <= '9',
        r matches LocationArg::Zip(z) ==> z@ == arg,
{
}

/// The status tells of an override as long as there is one: it moves until its minutes are over and
/// holds from then on; without one the weather decides.
pub proof fn law_status_tells_of_the_override(
    o: OverrideState,
    weather: Option<WeatherData>,
    now: int,
)
    ensures
        o.active && now >= o.issued_at + 60 * o.duration_minutes ==> mode(Some(o), weather, now)
            == Mode::Holding(o.target_temp),
        o.active && now < o.issued_at + 60 * o.duration_minutes ==> mode(Some(o), weather, now)
            == (Mode::Ramping {
            target_temp: o.target_temp,
            duration_minutes: o.duration_minutes,
        }),
        !o.active ==> mode(Some(o), weather, now) == mode(None, weather, now),
        mode(None, weather, now) == if config::dark(weather) {
            Mode::Dark
        } else {
            Mode::Clear
        },
{
}

/// The override that a command issues, where its temperature can be shown.
pub open spec fn issued(target_temp: i32, duration_min: i32, now: i64) -> Option<OverrideState> {
    if TEMP_MIN <= target_temp <= TEMP_MAX {
        Some(
            OverrideState {
                active: true,
                target_temp,
                duration_minutes: duration_min,
                issued_at: now,
                start_temp: 0,
            },
        )
    } else {
        None
    }
}

/// An override that a command issues is what the daemon then follows: a temperature between 1000 and
/// 25000 kelvin is accepted, and a daemon that does not follow it yet holds it as its target from
/// then on, over the minutes that were asked for, beginning at what it shows.
pub proof fn law_issued_override_is_followed(
    s: daemon::DaemonState,
    target_temp: i32,
    duration_min: i32,
    at: i64,
    now: int,
    today: Option<SunTimes>,
    tomorrow: Option<SunTimes>,
)
    requires
        s.manual_mode ==> s.manual_issued_at != at,
        s.last_temp_valid,
    ensures
        issued(target_temp, duration_min, at) is Some <==> 1000 <= target_temp <= 25000,
        issued(target_temp, duration_min, at) matches Some(o) ==> {
            let t = daemon::after_override(s, Some(o), now, today, tomorrow);
            &&& t.manual_mode
            &&& t.manual_target_temp == target_temp
            &&& t.manual_duration_min == duration_min
            &&& t.manual_start_time == at
            &&& t.manual_start_temp == s.last_temp
        },
{
}

} // verus!
