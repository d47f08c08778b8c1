//! The weather service: two requests, one behind the other, and what their answers say.
//!
//! The first answer names the address of the forecast, the second holds it. Each request is a
//! child process whose output is read as it comes.
use vstd::prelude::*;

use crate::abraxas::config;
use crate::abraxas::config::WeatherData;
use crate::abraxas::daemon;
use crate::abraxas::json;
use crate::abraxas::json::JsonView;
use crate::text;

verus! {

#[derive(Debug, Clone, Copy, PartialEq, Eq, Structural)]
pub enum FetchPhase {
    Idle,
    ReadingPoints,
    ReadingForecast,
}

/// Why a fetch failed. What failed outside says why in its own words.
#[derive(Debug, Clone, PartialEq, Eq)]
pub enum FetchError {
    PipeRead,
    NoChild,
    CurlFailed,
    /// The child ended with this status.
    CurlExit(String),
    InvalidUtf8,
    /// The answer is not UTF-8.
    NotUtf8(String),
    /// The answer is not JSON.
    BadJson(String),
    NoForecastUrl,
    NoPeriods,
    UnexpectedIdle,
    /// The child could not be started.
    Spawn(String),
}

/// What reading the pipe came to.
#[derive(Debug, Clone, Copy, PartialEq, Eq, Structural)]
pub enum Drain {
    /// The child closed it.
    Eof,
    /// There is no more for now.
    Again,
    Failed,
}

/// What follows a read.
#[derive(Debug)]
pub enum ReadResult {
    /// More is to come.
    Pending,
    /// Request this address, and tell [`FetchState::forecast_started`] of the new pipe.
    NewPipe(String),
    Done(Result<WeatherData, FetchError>),
}

/// A running fetch. `pipe_fd` is -1 where there is no pipe.
#[derive(Debug)]
pub struct FetchState {
    pub phase: FetchPhase,
    pub has_child: bool,
    pub pipe_fd: i32,
    pub buf: Vec<u8>,
}

pub fn init() {
}

pub fn cleanup() {
}

/// The address of a place, from its coordinates as they are to be written.
pub fn points_url(lat: &str, lon: &str) -> (r: String)
    ensures
        r@ == "https://api.weather.gov/points/"@ + lat@ + ","@ + lon@,
{
    let mut out = String::new();
    out.append("https://api.weather.gov/points/");
    out.append(lat);
    out.append(",");
    out.append(lon);
    assert(out@ =~= "https://api.weather.gov/points/"@ + lat@ + ","@ + lon@);
    out
}

/// The arguments of the child process that requests `url`.
pub fn curl_args(url: &str) -> (r: Vec<String>)
    ensures
        text::texts(r@) == seq![
            "-s"@,
            "-f"@,
            "-L"@,
            "--max-time"@,
            "5"@,
            "-H"@,
            "User-Agent: abraxas/7.0 (weather color temp daemon)"@,
            "-H"@,
            "Accept: application/geo+json"@,
            url@,
        ],
{
    let mut r: Vec<String> = Vec::new();
    r.push("-s".to_string());
    r.push("-f".to_string());
    r.push("-L".to_string());
    r.push("--max-time".to_string());
    r.push("5".to_string());
    r.push("-H".to_string());
    r.push("User-Agent: abraxas/7.0 (weather color temp daemon)".to_string());
    r.push("-H".to_string());
    r.push("Accept: application/geo+json".to_string());
    r.push(url.to_string());
    assert(text::texts(r@) =~= seq![
        "-s"@,
        "-f"@,
        "-L"@,
        "--max-time"@,
        "5"@,
        "-H"@,
        "User-Agent: abraxas/7.0 (weather color temp daemon)"@,
        "-H"@,
        "Accept: application/geo+json"@,
        url@,
    ]);
    r
}

// --- cloud cover ---

/// What `str::to_lowercase` makes of a text.
pub uninterp spec fn lower(s: Seq<char>) -> Seq<char>;

/// `str::to_lowercase`: the Unicode lower case of a text, a function of the text alone.
#[verifier::external_body]
fn lowercase(s: &str) -> (r: String)
    ensures
        r@ == lower(s@),
{
    s.to_lowercase()
}

/// The cloud cover, in percent, that a forecast in lower case speaks of. What means more cloud is
/// looked for first, and the longer phrase before the shorter one.
pub open spec fn cover_of(l: Seq<char>) -> i32 {
    if text::has_text(l, "rain"@) || text::has_text(l, "storm"@) || text::has_text(l, "snow"@)
        || text::has_text(l, "drizzle"@) || text::has_text(l, "showers"@) {
        95
    } else if text::has_text(l, "overcast"@) {
        90
    } else if text::has_text(l, "mostly cloudy"@) {
        75
    } else if text::has_text(l, "cloudy"@) {
        90
    } else if text::has_text(l, "partly"@) {
        50
    } else if text::has_text(l, "mostly sunny"@) || text::has_text(l, "mostly clear"@) {
        25
    } else if text::has_text(l, "sunny"@) || text::has_text(l, "clear"@) {
        10
    } else {
        0
    }
}

pub fn cloud_cover_of_lower(l: &str) -> (r: i32)
    ensures
        r == cover_of(l@),
{
    if text::text_has(l, "rain") || text::text_has(l, "storm") || text::text_has(l, "snow")
        || text::text_has(l, "drizzle") || text::text_has(l, "showers") {
        return 95;
    }
    if text::text_has(l, "overcast") {
        return 90;
    }
    if text::text_has(l, "mostly cloudy") {
        return 75;
    }
    if text::text_has(l, "cloudy") {
        return 90;
    }
    if text::text_has(l, "partly") {
        return 50;
    }
    if text::text_has(l, "mostly sunny") || text::text_has(l, "mostly clear") {
        return 25;
    }
    if text::text_has(l, "sunny") || text::text_has(l, "clear") {
        return 10;
    }
    0
}

/// The cloud cover that a forecast speaks of, whatever its case.
pub fn cloud_cover_from_forecast(forecast: &str) -> (r: i32)
    ensures
        r == cover_of(lower(forecast@)),
{
    cloud_cover_of_lower(lowercase(forecast).as_str())
}

/// Cloud cover is a percentage.
pub proof fn law_cover_is_percentage(l: Seq<char>)
    ensures
        0 <= cover_of(l) <= 100,
{
}

/// Precipitation counts as heavy cloud, whatever else the forecast says.
pub proof fn law_precipitation_is_heavy_cloud(l: Seq<char>)
    requires
        text::has_text(l, "rain"@) || text::has_text(l, "storm"@) || text::has_text(l, "snow"@)
            || text::has_text(l, "drizzle"@) || text::has_text(l, "showers"@),
    ensures
        cover_of(l) == 95,
{
}

/// A part of a phrase occurs where the phrase does: here its first `n` characters, or what follows
/// them.
proof fn lemma_phrase(l: Seq<char>, phrase: Seq<char>, n: int)
    requires
        0 <= n <= phrase.len(),
        text::has_text(l, phrase),
    ensures
        text::has_text(l, phrase.take(n)),
        text::has_text(l, phrase.skip(n)),
{
    let i = choose|i: int| 0 <= i <= l.len() && #[trigger] text::starts_with(l.skip(i), phrase);
    assert(phrase == l.skip(i).take(phrase.len() as int));
    assert(phrase.take(n) =~= l.skip(i).take(n));
    assert(text::starts_with(l.skip(i), phrase.take(n)));
    assert(phrase.skip(n) =~= l.skip(i + n).take(phrase.len() - n));
    assert(text::starts_with(l.skip(i + n), phrase.skip(n)));
}

/// The longer phrases speak of their words.
proof fn lemma_mostly(l: Seq<char>)
    ensures
        text::has_text(l, "mostly cloudy"@) ==> text::has_text(l, "cloudy"@) && text::has_text(
            l,
            "mostly"@,
        ),
        text::has_text(l, "mostly sunny"@) ==> text::has_text(l, "sunny"@) && text::has_text(
            l,
            "mostly"@,
        ),
        text::has_text(l, "mostly clear"@) ==> text::has_text(l, "clear"@) && text::has_text(
            l,
            "mostly"@,
        ),
{
    reveal_strlit("mostly");
    reveal_strlit("cloudy");
    reveal_strlit("sunny");
    reveal_strlit("clear");
    reveal_strlit("mostly cloudy");
    reveal_strlit("mostly sunny");
    reveal_strlit("mostly clear");
    assert("mostly cloudy"@.take(6) =~= "mostly"@);
    assert("mostly sunny"@.take(6) =~= "mostly"@);
    assert("mostly clear"@.take(6) =~= "mostly"@);
    assert("mostly cloudy"@.skip(7) =~= "cloudy"@);
    assert("mostly sunny"@.skip(7) =~= "sunny"@);
    assert("mostly clear"@.skip(7) =~= "clear"@);
    if text::has_text(l, "mostly cloudy"@) {
        lemma_phrase(l, "mostly cloudy"@, 6);
        lemma_phrase(l, "mostly cloudy"@, 7);
    }
    if text::has_text(l, "mostly sunny"@) {
        lemma_phrase(l, "mostly sunny"@, 6);
        lemma_phrase(l, "mostly sunny"@, 7);
    }
    if text::has_text(l, "mostly clear"@) {
        lemma_phrase(l, "mostly clear"@, 6);
        lemma_phrase(l, "mostly clear"@, 7);
    }
}

/// A forecast speaks of something that falls from the sky.
pub open spec fn speaks_of_precipitation(l: Seq<char>) -> bool {
    ||| text::has_text(l, "rain"@)
    ||| text::has_text(l, "storm"@)
    ||| text::has_text(l, "snow"@)
    ||| text::has_text(l, "drizzle"@)
    ||| text::has_text(l, "showers"@)
}

/// A sunny or clear sky has almost no cloud: a forecast that says so, and that speaks neither of
/// precipitation nor of cloud nor of a part of the sky, has a cover of 10 percent and makes no dark
/// day.
pub proof fn law_clear_sky_is_bright(l: Seq<char>, w: WeatherData)
    requires
        text::has_text(l, "sunny"@) || text::has_text(l, "clear"@),
        !speaks_of_precipitation(l),
        !text::has_text(l, "overcast"@),
        !text::has_text(l, "cloudy"@),
        !text::has_text(l, "partly"@),
        !text::has_text(l, "mostly"@),
        w.cloud_cover == cover_of(l),
    ensures
        cover_of(l) == 10,
        !config::dark(Some(w)),
{
    lemma_mostly(l);
}

/// A mostly sunny or mostly clear sky has some cloud, and makes no dark day.
pub proof fn law_mostly_clear_sky_is_bright(l: Seq<char>, w: WeatherData)
    requires
        text::has_text(l, "mostly sunny"@) || text::has_text(l, "mostly clear"@),
        !speaks_of_precipitation(l),
        !text::has_text(l, "overcast"@),
        !text::has_text(l, "cloudy"@),
        !text::has_text(l, "partly"@),
        w.cloud_cover == cover_of(l),
    ensures
        cover_of(l) == 25,
        !config::dark(Some(w)),
{
    lemma_mostly(l);
}

/// A sky that is partly something, but not cloudy, is half covered, and makes no dark day.
pub proof fn law_partly_covered_sky_is_bright(l: Seq<char>, w: WeatherData)
    requires
        text::has_text(l, "partly"@),
        !speaks_of_precipitation(l),
        !text::has_text(l, "overcast"@),
        !text::has_text(l, "cloudy"@),
        w.cloud_cover == cover_of(l),
    ensures
        cover_of(l) == 50,
        !config::dark(Some(w)),
{
    lemma_mostly(l);
}

/// Clouds make a dark day: a cloudy or overcast sky is covered to 90 percent, a mostly cloudy one
/// to 75.
pub proof fn law_clouds_make_a_dark_day(l: Seq<char>, w: WeatherData)
    requires
        text::has_text(l, "overcast"@) || text::has_text(l, "cloudy"@),
        !speaks_of_precipitation(l),
        w.cloud_cover == cover_of(l),
        !w.has_error,
    ensures
        text::has_text(l, "overcast"@) || !text::has_text(l, "mostly"@) ==> cover_of(l) == 90,
        !text::has_text(l, "overcast"@) && text::has_text(l, "mostly cloudy"@) ==> cover_of(l)
            == 75,
        config::dark(Some(w)),
{
    lemma_mostly(l);
}

/// What falls from the sky makes a dark day, and what a forecast does not speak of makes none: a
/// forecast without any of the words has no cover.
pub proof fn law_words_decide_the_day(l: Seq<char>, w: WeatherData)
    requires
        w.cloud_cover == cover_of(l),
        !w.has_error,
    ensures
        speaks_of_precipitation(l) ==> cover_of(l) == 95,
        config::dark(Some(w)) <==> speaks_of_precipitation(l) || text::has_text(l, "overcast"@)
            || text::has_text(l, "cloudy"@),
        cover_of(l) == 0 <==> !speaks_of_precipitation(l) && !text::has_text(l, "overcast"@)
            && !text::has_text(l, "cloudy"@) && !text::has_text(l, "partly"@) && !text::has_text(
            l,
            "sunny"@,
        ) && !text::has_text(l, "clear"@),
{
    lemma_mostly(l);
}

/// Cover falls in the order precipitation, cloudy, mostly cloudy, partly, mostly sunny, sunny,
/// none of them.
pub proof fn law_cover_falls_with_the_words(
    rain: Seq<char>,
    cloudy: Seq<char>,
    mostly_cloudy: Seq<char>,
    partly: Seq<char>,
    mostly_sunny: Seq<char>,
    sunny: Seq<char>,
    other: Seq<char>,
)
    requires
        speaks_of_precipitation(rain),
        forall|l: Seq<char>|
            l == cloudy || l == mostly_cloudy || l == partly || l == mostly_sunny || l == sunny
                || l == other ==> !#[trigger] speaks_of_precipitation(l) && !text::has_text(
                l,
                "overcast"@,
            ),
        forall|l: Seq<char>|
            l == partly || l == mostly_sunny || l == sunny || l == other
                ==> !#[trigger] text::has_text(l, "cloudy"@),
        forall|l: Seq<char>|
            l == mostly_sunny || l == sunny || l == other ==> !#[trigger] text::has_text(
                l,
                "partly"@,
            ),
        forall|l: Seq<char>|
            l == cloudy || l == sunny || l == other ==> !#[trigger] text::has_text(l, "mostly"@),
        text::has_text(cloudy, "cloudy"@),
        text::has_text(mostly_cloudy, "mostly cloudy"@),
        text::has_text(partly, "partly"@),
        text::has_text(mostly_sunny, "mostly sunny"@) || text::has_text(
            mostly_sunny,
            "mostly clear"@,
        ),
        text::has_text(sunny, "sunny"@) || text::has_text(sunny, "clear"@),
        !text::has_text(other, "sunny"@) && !text::has_text(other, "clear"@),
    ensures
        cover_of(rain) > cover_of(cloudy) > cover_of(mostly_cloudy) > cover_of(partly) > cover_of(
            mostly_sunny,
        ) > cover_of(sunny) > cover_of(other),
{
    lemma_mostly(cloudy);
    lemma_mostly(mostly_cloudy);
    lemma_mostly(partly);
    lemma_mostly(mostly_sunny);
    lemma_mostly(sunny);
    lemma_mostly(other);
    assert(!speaks_of_precipitation(cloudy) && !speaks_of_precipitation(mostly_cloudy)
        && !speaks_of_precipitation(partly) && !speaks_of_precipitation(mostly_sunny)
        && !speaks_of_precipitation(sunny) && !speaks_of_precipitation(other));
}

// --- answers ---

/// The address of the forecast that the first answer names.
pub open spec fn url_in(v: JsonView) -> Option<Seq<char>> {
    json::text_of(json::member_of(json::member_of(v, "properties"@), "forecastHourly"@))
}

pub fn forecast_url(v: &serde_json::Value) -> (r: Option<String>)
    ensures
        match r {
            Some(url) => url_in(json::json_view(*v)) == Some(url@),
            None => url_in(json::json_view(*v)) is None,
        },
{
    let properties = json::member(v, "properties");
    match json::member(properties, "forecastHourly").as_str() {
        Some(url) => Some(url.to_string()),
        None => None,
    }
}

/// The first period of the forecast in the second answer.
pub open spec fn period_in(v: JsonView) -> JsonView {
    json::element_of(json::member_of(json::member_of(v, "properties"@), "periods"@), 0)
}

/// The words of a period.
pub open spec fn forecast_in(period: JsonView) -> Seq<char> {
    match json::text_of(json::member_of(period, "shortForecast"@)) {
        Some(s) => s,
        None => "Unknown"@,
    }
}

/// `wd` is the report of a period that was fetched at `now`. What a period does not say has its
/// default.
pub open spec fn reports_period(wd: WeatherData, period: JsonView, now: i64) -> bool {
    &&& wd.forecast@ == forecast_in(period)
    &&& wd.cloud_cover == cover_of(lower(forecast_in(period)))
    &&& wd.temperature == match json::number_of(json::member_of(period, "temperature"@)) {
        Some(n) => n,
        None => 0,
    }
    &&& wd.is_day == match json::bool_of(json::member_of(period, "isDaytime"@)) {
        Some(b) => b,
        None => true,
    }
    &&& wd.fetched_at == now
    &&& !wd.has_error
}

pub fn forecast_report(v: &serde_json::Value, now: i64) -> (r: Result<WeatherData, FetchError>)
    ensures
        match r {
            Ok(wd) => !(period_in(json::json_view(*v)) is Null) && reports_period(
                wd,
                period_in(json::json_view(*v)),
                now,
            ),
            Err(e) => period_in(json::json_view(*v)) is Null && e == FetchError::NoPeriods,
        },
{
    let properties = json::member(v, "properties");
    let period = json::element(json::member(properties, "periods"), 0);
    if period.is_null() {
        return Err(FetchError::NoPeriods);
    }
    let forecast = match json::member(period, "shortForecast").as_str() {
        Some(s) => s.to_string(),
        None => "Unknown".to_string(),
    };
    let temperature = match json::number(json::member(period, "temperature")) {
        Some(n) => n,
        None => 0,
    };
    let is_day = match json::member(period, "isDaytime").as_bool() {
        Some(b) => b,
        None => true,
    };
    let cloud_cover = cloud_cover_from_forecast(forecast.as_str());
    Ok(
        WeatherData {
            cloud_cover,
            forecast,
            temperature,
            is_day,
            fetched_at: now,
            has_error: false,
        },
    )
}

/// What the first answer comes to: the address of the forecast.
pub fn read_points(body: &str) -> (r: Result<String, FetchError>)
    ensures
        match json::json_parse(body@) {
            Err(why) => r matches Err(FetchError::BadJson(w)) && w@ == why,
            Ok(v) => match url_in(v) {
                None => r == Err::<String, FetchError>(FetchError::NoForecastUrl),
                Some(url) => r matches Ok(u) && u@ == url,
            },
        },
{
    match json::parse(body) {
        Err(why) => Err(FetchError::BadJson(why)),
        Ok(v) => match forecast_url(&v) {
            None => Err(FetchError::NoForecastUrl),
            Some(url) => Ok(url),
        },
    }
}

/// What the second answer comes to: the report.
pub fn read_forecast(body: &str, now: i64) -> (r: Result<WeatherData, FetchError>)
    ensures
        match json::json_parse(body@) {
            Err(why) => r matches Err(FetchError::BadJson(w)) && w@ == why,
            Ok(v) => if period_in(v) is Null {
                r == Err::<WeatherData, FetchError>(FetchError::NoPeriods)
            } else {
                r matches Ok(wd) && reports_period(wd, period_in(v), now)
            },
        },
{
    match json::parse(body) {
        Err(why) => Err(FetchError::BadJson(why)),
        Ok(v) => forecast_report(&v, now),
    }
}

/// The answer of a request that was made in one go, from how its child ended and what it wrote.
pub fn http_answer(success: bool, status: String, stdout: Vec<u8>) -> (r: Result<String, FetchError>)
    ensures
        if !success {
            r == Err::<String, FetchError>(FetchError::CurlExit(status))
        } else if vstd::utf8::valid_utf8(stdout@) {
            r matches Ok(body) && body@ == vstd::utf8::decode_utf8(stdout@)
        } else {
            r matches Err(FetchError::NotUtf8(why)) && why@ == utf8_fault(stdout@)
        },
{
    if !success {
        return Err(FetchError::CurlExit(status));
    }
    match text_of_bytes(stdout) {
        Ok(body) => Ok(body),
        Err(why) => Err(FetchError::NotUtf8(why)),
    }
}

/// A fetch in one go: its report, or, where it failed, the one that stands for a failure.
pub fn fetch(result: Result<WeatherData, FetchError>, now: i64) -> (r: WeatherData)
    ensures
        match result {
            Ok(wd) => r == wd,
            Err(_) => r.has_error && r.cloud_cover == 0 && r.forecast@ == "Unknown"@
                && r.temperature == 0 && r.is_day && r.fetched_at == now,
        },
{
    match result {
        Ok(wd) => wd,
        Err(_) => daemon::failed_report(now),
    }
}

// --- the fetch as it goes ---

/// The words of the error of `String::from_utf8` on bytes that are not valid UTF-8.
pub uninterp spec fn utf8_fault(bytes: Seq<u8>) -> Seq<char>;

/// `String::from_utf8`: the text of bytes that are valid UTF-8, and for all others an error, whose
/// words depend on the bytes alone.
#[verifier::external_body]
fn text_of_bytes(bytes: Vec<u8>) -> (r: Result<String, String>)
    ensures
        match r {
            Ok(s) => vstd::utf8::valid_utf8(bytes@) && s@ == vstd::utf8::decode_utf8(bytes@),
            Err(why) => !vstd::utf8::valid_utf8(bytes@) && why@ == utf8_fault(bytes@),
        },
{
    String::from_utf8(bytes).map_err(|e| e.to_string())
}

/// Nothing is being fetched.
pub open spec fn is_idle(s: FetchState) -> bool {
    s.phase == FetchPhase::Idle && !s.has_child && s.pipe_fd == -1 && s.buf@.len() == 0
}

/// A fetch that read all of an answer, which the child gave with success where `success`, and
/// which is UTF-8.
pub open spec fn answered(s: FetchState, success: bool) -> bool {
    s.has_child && success && s.buf@.len() > 0 && vstd::utf8::valid_utf8(s.buf@)
}

/// The text of that answer.
pub open spec fn answer(s: FetchState) -> Seq<char> {
    vstd::utf8::decode_utf8(s.buf@)
}

/// Why a finished child gave no answer.
pub open spec fn no_answer(s: FetchState, success: bool) -> FetchError {
    if !s.has_child {
        FetchError::NoChild
    } else if !success || s.buf@.len() == 0 {
        FetchError::CurlFailed
    } else {
        FetchError::InvalidUtf8
    }
}

impl FetchState {
    pub fn new() -> (r: Self)
        ensures
            is_idle(r),
    {
        FetchState { phase: FetchPhase::Idle, has_child: false, pipe_fd: -1, buf: Vec::new() }
    }

    /// Whether the pipe is to be polled.
    pub fn needs_poll(&self) -> (r: bool)
        ensures
            r == (self.pipe_fd >= 0 && self.phase != FetchPhase::Idle),
    {
        self.pipe_fd >= 0 && self.phase != FetchPhase::Idle
    }

    /// Begins a fetch, where none runs, with the pipe `spawned` of the child that requests the
    /// place's address; `None` where the child could not be started. The result is the pipe, or -1.
    pub fn start(&mut self, spawned: Option<i32>) -> (r: i32)
        ensures
            if old(self).phase != FetchPhase::Idle {
                r == -1 && *final(self) == *old(self)
            } else {
                &&& final(self).buf@.len() == 0
                &&& match spawned {
                    Some(fd) => r == fd && final(self).phase == FetchPhase::ReadingPoints
                        && final(self).has_child && final(self).pipe_fd == fd,
                    None => r == -1 && final(self).phase == FetchPhase::Idle && final(self).has_child == old(self).has_child && final(self).pipe_fd == old(self).pipe_fd,
                }
            },
    {
        if self.phase != FetchPhase::Idle {
            return -1;
        }
        self.buf.clear();
        match spawned {
            Some(fd) => {
                self.has_child = true;
                self.pipe_fd = fd;
                self.phase = FetchPhase::ReadingPoints;
                fd
            },
            None => -1,
        }
    }

    /// Keeps what was read of the pipe.
    pub fn receive(&mut self, chunk: &[u8])
        ensures
            *final(self) == (FetchState { buf: final(self).buf, ..*old(self) }),
            final(self).buf@ == old(self).buf@ + chunk@,
    {
        self.buf.extend_from_slice(chunk);
        assert(self.buf@ =~= old(self).buf@ + chunk@);
    }

    /// Goes on after the pipe was read as far as it went. `success` is what the child said when it
    /// ended.
    pub fn read_response(&mut self, drained: Drain, success: bool, now: i64) -> (r: ReadResult)
        ensures
            match drained {
                Drain::Again => r is Pending && *final(self) == *old(self),
                Drain::Failed => r == ReadResult::Done(Err(FetchError::PipeRead)) && is_idle(
                    *final(self),
                ),
                Drain::Eof => {
                    &&& !final(self).has_child
                    &&& final(self).pipe_fd == -1
                    &&& if !answered(*old(self), success) {
                        &&& r == ReadResult::Done(Err(no_answer(*old(self), success)))
                        &&& final(self).phase == FetchPhase::Idle
                        &&& final(self).buf@ == if old(self).has_child && !success {
                            old(self).buf@
                        } else {
                            Seq::empty()
                        }
                    } else {
                        &&& final(self).buf@.len() == 0
                        &&& match old(self).phase {
                            FetchPhase::Idle => r == ReadResult::Done(
                                Err(FetchError::UnexpectedIdle),
                            ) && final(self).phase == FetchPhase::Idle,
                            FetchPhase::ReadingPoints => match json::json_parse(
                                answer(*old(self)),
                            ) {
                                Err(why) => (r matches ReadResult::Done(
                                    Err(FetchError::BadJson(w)),
                                ) && w@ == why) && final(self).phase == FetchPhase::Idle,
                                Ok(v) => match url_in(v) {
                                    None => r == ReadResult::Done(Err(FetchError::NoForecastUrl))
                                        && final(self).phase == FetchPhase::Idle,
                                    Some(url) => (r matches ReadResult::NewPipe(u) && u@ == url)
                                        && final(self).phase == FetchPhase::ReadingPoints,
                                },
                            },
                            FetchPhase::ReadingForecast => {
                                &&& final(self).phase == FetchPhase::Idle
                                &&& match json::json_parse(answer(*old(self))) {
                                    Err(why) => r matches ReadResult::Done(
                                        Err(FetchError::BadJson(w)),
                                    ) && w@ == why,
                                    Ok(v) => if period_in(v) is Null {
                                        r == ReadResult::Done(Err(FetchError::NoPeriods))
                                    } else {
                                        r matches ReadResult::Done(Ok(wd)) && reports_period(
                                            wd,
                                            period_in(v),
                                            now,
                                        )
                                    },
                                }
                            },
                        }
                    }
                },
            },
    {
        match drained {
            Drain::Again => return ReadResult::Pending,
            Drain::Failed => {
                self.abort();
                return ReadResult::Done(Err(FetchError::PipeRead));
            },
            Drain::Eof => {},
        }
        self.pipe_fd = -1;
        if !self.has_child {
            self.abort();
            return ReadResult::Done(Err(FetchError::NoChild));
        }
        self.has_child = false;
        if !success || self.buf.len() == 0 {
            self.phase = FetchPhase::Idle;
            return ReadResult::Done(Err(FetchError::CurlFailed));
        }
        let mut bytes: Vec<u8> = Vec::new();
        bytes.append(&mut self.buf);
        assert(bytes@ =~= old(self).buf@);
        let body = match text_of_bytes(bytes) {
            Ok(s) => s,
            Err(_) => {
                self.phase = FetchPhase::Idle;
                return ReadResult::Done(Err(FetchError::InvalidUtf8));
            },
        };
        match self.phase {
            FetchPhase::ReadingPoints => match read_points(body.as_str()) {
                Ok(url) => ReadResult::NewPipe(url),
                Err(e) => {
                    self.phase = FetchPhase::Idle;
                    ReadResult::Done(Err(e))
                },
            },
            FetchPhase::ReadingForecast => {
                self.phase = FetchPhase::Idle;
                ReadResult::Done(read_forecast(body.as_str(), now))
            },
            FetchPhase::Idle => ReadResult::Done(Err(FetchError::UnexpectedIdle)),
        }
    }

    /// Goes on with the pipe of the child that requests the forecast, or with the words of why it
    /// could not be started.
    pub fn forecast_started(&mut self, spawned: Result<i32, String>) -> (r: Result<(), FetchError>)
        ensures
            final(self).buf == old(self).buf,
            match spawned {
                Ok(fd) => {
                    &&& r is Ok
                    &&& final(self).phase == FetchPhase::ReadingForecast
                    &&& final(self).has_child
                    &&& final(self).pipe_fd == fd
                },
                Err(why) => {
                    &&& r == Err::<(), FetchError>(FetchError::Spawn(why))
                    &&& final(self).phase == FetchPhase::Idle
                    &&& final(self).has_child == old(self).has_child
                    &&& final(self).pipe_fd == old(self).pipe_fd
                },
            },
    {
        match spawned {
            Ok(fd) => {
                self.has_child = true;
                self.pipe_fd = fd;
                self.phase = FetchPhase::ReadingForecast;
                Ok(())
            },
            Err(why) => {
                self.phase = FetchPhase::Idle;
                Err(FetchError::Spawn(why))
            },
        }
    }

    /// Gives the fetch up. The result says whether there is a child to end.
    pub fn abort(&mut self) -> (r: bool)
        ensures
            is_idle(*final(self)),
            r == old(self).has_child,
    {
        let had_child = self.has_child;
        self.has_child = false;
        self.pipe_fd = -1;
        self.buf.clear();
        self.phase = FetchPhase::Idle;
        had_child
    }
}

/// What a failure says. A fetch that is made in one go says of an answer's missing parts with a
/// capital what another says without.
pub open spec fn error_text(e: FetchError, at_once: bool) -> Seq<char> {
    match e {
        FetchError::PipeRead => "pipe read error"@,
        FetchError::NoChild => "no child"@,
        FetchError::CurlFailed => "curl failed"@,
        FetchError::CurlExit(status) => "curl exit "@ + status@,
        FetchError::InvalidUtf8 => "invalid utf8"@,
        FetchError::NotUtf8(why) => why@,
        FetchError::BadJson(why) => why@,
        FetchError::NoForecastUrl => if at_once {
            "No forecastHourly URL"@
        } else {
            "no forecastHourly URL"@
        },
        FetchError::NoPeriods => if at_once {
            "No forecast periods"@
        } else {
            "no forecast periods"@
        },
        FetchError::UnexpectedIdle => "unexpected idle"@,
        FetchError::Spawn(why) => why@,
    }
}

impl FetchError {
    pub fn message(&self, at_once: bool) -> (r: String)
        ensures
            r@ == error_text(*self, at_once),
    {
        match self {
            FetchError::PipeRead => "pipe read error".to_string(),
            FetchError::NoChild => "no child".to_string(),
            FetchError::CurlFailed => "curl failed".to_string(),
            FetchError::CurlExit(status) => {
                let mut out = String::new();
                out.append("curl exit ");
                out.append(status.as_str());
                assert(out@ =~= "curl exit "@ + status@);
                out
            },
            FetchError::InvalidUtf8 => "invalid utf8".to_string(),
            FetchError::NotUtf8(why) => why.clone(),
            FetchError::BadJson(why) => why.clone(),
            FetchError::NoForecastUrl => if at_once {
                "No forecastHourly URL".to_string()
            } else {
                "no forecastHourly URL".to_string()
            },
            FetchError::NoPeriods => if at_once {
                "No forecast periods".to_string()
            } else {
                "no forecast periods".to_string()
            },
            FetchError::UnexpectedIdle => "unexpected idle".to_string(),
            FetchError::Spawn(why) => why.clone(),
        }
    }
}

/// The address of the forecast is what the first answer says under `properties` and
/// `forecastHourly`, and an answer that says nothing there names none.
pub proof fn law_forecast_address_is_in_the_answer(
    m: Map<Seq<char>, JsonView>,
    p: Map<Seq<char>, JsonView>,
    url: Seq<char>,
)
    ensures
        m.contains_key("properties"@) && m["properties"@] == JsonView::Obj(p) && p.contains_key(
            "forecastHourly"@,
        ) && p["forecastHourly"@] == JsonView::Str(url) ==> url_in(JsonView::Obj(m)) == Some(url),
        !m.contains_key("properties"@) ==> url_in(JsonView::Obj(m)) is None,
        m.contains_key("properties"@) && m["properties"@] == JsonView::Obj(p) && !p.contains_key(
            "forecastHourly"@,
        ) ==> url_in(JsonView::Obj(m)) is None,
        url_in(JsonView::Null) is None,
{
}

/// The forecast is the first of the periods that the second answer lists under `properties`; an
/// answer without periods has none.
pub proof fn law_forecast_is_the_first_period(
    m: Map<Seq<char>, JsonView>,
    p: Map<Seq<char>, JsonView>,
    periods: Seq<JsonView>,
)
    requires
        m.contains_key("properties"@),
        m["properties"@] == JsonView::Obj(p),
    ensures
        p.contains_key("periods"@) && p["periods"@] == JsonView::Arr(periods) && periods.len() > 0
            ==> period_in(JsonView::Obj(m)) == periods[0],
        p.contains_key("periods"@) && p["periods"@] == JsonView::Arr(periods) && periods.len() == 0
            ==> period_in(JsonView::Obj(m)) is Null,
        !p.contains_key("periods"@) ==> period_in(JsonView::Obj(m)) is Null,
{
}

/// A report says what its period says: the words, the temperature and whether it is day, each from
/// the member of its name, with the default where the period does not say; its cloud cover is that
/// of the words, and it has no error.
pub proof fn law_report_says_what_the_period_says(
    wd: WeatherData,
    m: Map<Seq<char>, JsonView>,
    now: i64,
    words: Seq<char>,
    degrees: u64,
    day: bool,
)
    requires
        reports_period(wd, JsonView::Obj(m), now),
    ensures
        wd.fetched_at == now && !wd.has_error,
        wd.cloud_cover == cover_of(lower(wd.forecast@)),
        m.contains_key("shortForecast"@) && m["shortForecast"@] == JsonView::Str(words)
            ==> wd.forecast@ == words,
        !m.contains_key("shortForecast"@) ==> wd.forecast@ == "Unknown"@,
        m.contains_key("temperature"@) && m["temperature"@] == JsonView::Number(Some(degrees))
            ==> wd.temperature == degrees,
        !m.contains_key("temperature"@) ==> wd.temperature == 0,
        m.contains_key("isDaytime"@) && m["isDaytime"@] == JsonView::Bool(day) ==> wd.is_day == day,
        !m.contains_key("isDaytime"@) ==> wd.is_day,
{
}

/// A request that brought no answer says why, and one that did has no reason not to: without a child
/// there is none, a child that failed or sent nothing failed, and what is left is text that is no
/// text.
pub proof fn law_missing_answer_has_a_reason(s: FetchState, success: bool)
    ensures
        !s.has_child ==> !answered(s, success) && no_answer(s, success) == FetchError::NoChild,
        s.has_child && (!success || s.buf@.len() == 0) ==> !answered(s, success) && no_answer(
            s,
            success,
        ) == FetchError::CurlFailed,
        s.has_child && success && s.buf@.len() > 0 && !vstd::utf8::valid_utf8(s.buf@) ==> !answered(
            s,
            success,
        ) && no_answer(s, success) == FetchError::InvalidUtf8,
        s.has_child && success && s.buf@.len() > 0 && vstd::utf8::valid_utf8(s.buf@) ==> answered(
            s,
            success,
        ),
{
}

/// A fetch that is idle has nothing left of the last one: no child, no pipe and no bytes, and so no
/// answer to read.
pub proof fn law_idle_fetch_holds_nothing(s: FetchState, success: bool)
    requires
        is_idle(s),
    ensures
        s.phase == FetchPhase::Idle,
        !s.has_child && s.pipe_fd < 0 && s.buf@.len() == 0,
        !answered(s, success),
        no_answer(s, success) == FetchError::NoChild,
{
}

} // verus!
