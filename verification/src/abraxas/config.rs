//! Location, manual override and weather cache: what the daemon's files say.
use vstd::prelude::*;

use crate::text;

verus! {

/// Seconds after which a weather report is fetched again.
pub const WEATHER_REFRESH_SEC: i64 = 900;

/// Cloud cover, in percent, from which the day counts as dark.
pub const CLOUD_THRESHOLD: i32 = 60;

/// The longest weather cache that is read, in bytes.
pub const WEATHER_CACHE_MAX: usize = 8192;

/// The longest override file that is read, in bytes.
pub const OVERRIDE_MAX: usize = 4096;

/// The files of the daemon.
pub struct Paths {
    pub config_file: std::path::PathBuf,
    pub cache_file: std::path::PathBuf,
    pub override_file: std::path::PathBuf,
    pub zipdb_file: std::path::PathBuf,
    pub pid_file: std::path::PathBuf,
}

/// A weather report. `temperature` is the IEEE 754 bit pattern of the reported number.
#[derive(Debug, Clone)]
pub struct WeatherData {
    pub cloud_cover: i32,
    pub forecast: String,
    pub temperature: u64,
    pub is_day: bool,
    pub fetched_at: i64,
    pub has_error: bool,
}

/// A weather report as the cache file holds it.
#[derive(Debug, Clone)]
pub struct WeatherCache {
    pub cloud_cover: i32,
    pub forecast: String,
    pub temperature: u64,
    pub is_day: bool,
    pub fetched_at: i64,
    pub error: Option<String>,
}

/// A manual override. A `start_temp` of 0 has not been filled in yet.
#[derive(Debug, Clone, Copy, PartialEq, Eq, Structural)]
pub struct OverrideState {
    pub active: bool,
    pub target_temp: i32,
    pub duration_minutes: i32,
    pub issued_at: i64,
    pub start_temp: i32,
}

/// What has been read of a location file: whether the current section is `[location]`, and the
/// last value given there to each key.
pub struct LocationScan {
    pub in_location: bool,
    pub latitude: Option<Seq<char>>,
    pub longitude: Option<Seq<char>>,
}

/// The scan after one more line.
pub open spec fn scan_line(scan: LocationScan, line: Seq<char>) -> LocationScan {
    let t = text::trim(line);
    let n = text::first_of(t, '=');
    if t.len() == 0 || t[0] == '#' || t[0] == ';' {
        scan
    } else if t[0] == '[' {
        LocationScan { in_location: t == "[location]"@, ..scan }
    } else if !scan.in_location || n >= t.len() {
        scan
    } else {
        let key = text::trim(t.take(n));
        let value = text::trim(t.skip(n + 1));
        if key == "latitude"@ {
            LocationScan { latitude: Some(value), ..scan }
        } else if key == "longitude"@ {
            LocationScan { longitude: Some(value), ..scan }
        } else {
            scan
        }
    }
}

/// The scan after all the lines.
pub open spec fn scan_lines(lines: Seq<Seq<char>>) -> LocationScan
    decreases lines.len(),
{
    if lines.len() == 0 {
        LocationScan { in_location: false, latitude: None, longitude: None }
    } else {
        scan_line(scan_lines(lines.drop_last()), lines.last())
    }
}

/// The characters of an optional text.
pub open spec fn text_of(t: Option<String>) -> Option<Seq<char>> {
    match t {
        Some(s) => Some(s@),
        None => None,
    }
}

/// The texts that the `[location]` section of an INI file gives for latitude and longitude;
/// `None` unless it gives both.
pub fn find_location(content: &str) -> (r: Option<(String, String)>)
    ensures
        ({
            let scan = scan_lines(text::lines(content@));
            match r {
                Some((lat, lon)) => scan.latitude == Some(lat@) && scan.longitude == Some(lon@),
                None => scan.latitude is None || scan.longitude is None,
            }
        }),
{
    let chars = text::chars_of(content);
    let lines = text::lines_of(chars.as_slice());
    let mut latitude: Option<String> = None;
    let mut longitude: Option<String> = None;
    let mut in_location = false;
    let mut i: usize = 0;
    let ghost all = text::lines(content@);
    assert(all.take(0) =~= Seq::empty());
    while i < lines.len()
        invariant
            i <= lines.len(),
            text::views(lines@) == all,
            scan_lines(all.take(i as int)) == (LocationScan {
                in_location,
                latitude: text_of(latitude),
                longitude: text_of(longitude),
            }),
        decreases lines.len() - i,
    {
        let ghost scan = scan_lines(all.take(i as int));
        proof {
            assert(all.take(i + 1).drop_last() =~= all.take(i as int));
            assert(all.take(i + 1).last() == lines@[i as int]@);
        }
        let t = text::trim_chars(lines[i].as_slice());
        i += 1;
        if t.len() == 0 || t[0] == '#' || t[0] == ';' {
            continue;
        }
        if t[0] == '[' {
            in_location = text::same_chars(t, text::chars_of("[location]").as_slice());
            continue;
        }
        if !in_location {
            continue;
        }
        let n = text::find_char(t, '=');
        if n < t.len() {
            let key = text::trim_chars(&t[0..n]);
            let value = text::trim_chars(&t[n + 1..t.len()]);
            assert(t@.subrange(0, n as int) =~= t@.take(n as int));
            assert(t@.subrange(n + 1, t@.len() as int) =~= t@.skip(n + 1));
            if text::same_chars(key, text::chars_of("latitude").as_slice()) {
                latitude = Some(text::string_of(value));
            } else if text::same_chars(key, text::chars_of("longitude").as_slice()) {
                longitude = Some(text::string_of(value));
            }
        }
    }
    assert(all.take(i as int) =~= all);
    match (latitude, longitude) {
        (Some(lat), Some(lon)) => Some((lat, lon)),
        _ => None,
    }
}

/// Whether an override file is short enough to be read.
pub fn override_fits(content: &str) -> (r: bool)
    ensures
        r == (text::byte_len(content@) <= OVERRIDE_MAX),
{
    text::bytes_in(content) <= OVERRIDE_MAX
}

/// Whether a weather cache is short enough to be read.
pub fn weather_cache_fits(content: &str) -> (r: bool)
    ensures
        r == (text::byte_len(content@) <= WEATHER_CACHE_MAX),
{
    text::bytes_in(content) <= WEATHER_CACHE_MAX
}

/// The cache file's form of a report: everything of it, or, of one in error, when it was fetched.
pub open spec fn caches(c: WeatherCache, wd: WeatherData) -> bool {
    &&& c.fetched_at == wd.fetched_at
    &&& wd.has_error ==> c.cloud_cover == 0 && c.forecast@ == Seq::<char>::empty() && c.temperature
        == 0 && c.is_day && text_of(c.error) == Some("fetch failed"@)
    &&& !wd.has_error ==> c.cloud_cover == wd.cloud_cover && c.forecast@ == wd.forecast@
        && c.temperature == wd.temperature && c.is_day == wd.is_day && c.error is None
}

/// The report that a cache holds. It is in error where the cache says so or was never fetched.
pub open spec fn reports(wd: WeatherData, c: WeatherCache) -> bool {
    &&& wd.cloud_cover == c.cloud_cover
    &&& wd.forecast@ == c.forecast@
    &&& wd.temperature == c.temperature
    &&& wd.is_day == c.is_day
    &&& wd.fetched_at == c.fetched_at
    &&& wd.has_error == (c.error is Some || c.fetched_at == 0)
}

pub fn load_weather_cache(cached: WeatherCache) -> (r: WeatherData)
    ensures
        reports(r, cached),
{
    let has_error = cached.error.is_some() || cached.fetched_at == 0;
    WeatherData {
        cloud_cover: cached.cloud_cover,
        forecast: cached.forecast,
        temperature: cached.temperature,
        is_day: cached.is_day,
        fetched_at: cached.fetched_at,
        has_error,
    }
}

pub fn save_weather_cache(wd: &WeatherData) -> (r: WeatherCache)
    ensures
        caches(r, *wd),
{
    if wd.has_error {
        WeatherCache {
            cloud_cover: 0,
            forecast: String::new(),
            temperature: 0,
            is_day: true,
            fetched_at: wd.fetched_at,
            error: Some("fetch failed".to_string()),
        }
    } else {
        WeatherCache {
            cloud_cover: wd.cloud_cover,
            forecast: wd.forecast.clone(),
            temperature: wd.temperature,
            is_day: wd.is_day,
            fetched_at: wd.fetched_at,
            error: None,
        }
    }
}

/// What two reports have in common that a cache keeps.
pub open spec fn same_report(a: WeatherData, b: WeatherData) -> bool {
    &&& a.cloud_cover == b.cloud_cover
    &&& a.forecast@ == b.forecast@
    &&& a.temperature == b.temperature
    &&& a.is_day == b.is_day
    &&& a.fetched_at == b.fetched_at
    &&& a.has_error == b.has_error
}

/// A report without an error that was fetched at some time comes back from the cache as it went
/// in; a report in error comes back in error.
pub proof fn law_weather_cache_round_trip(wd: WeatherData, c: WeatherCache, back: WeatherData)
    requires
        caches(c, wd),
        reports(back, c),
    ensures
        !wd.has_error && wd.fetched_at != 0 ==> same_report(back, wd),
        wd.has_error ==> back.has_error && back.fetched_at == wd.fetched_at,
{
}

/// Whether a report is due to be fetched again.
pub fn weather_needs_refresh(wd: &WeatherData, now: i64) -> (r: bool)
    requires
        i64::MIN <= now - wd.fetched_at <= i64::MAX,
    ensures
        r == (wd.has_error || wd.fetched_at == 0 || now - wd.fetched_at > WEATHER_REFRESH_SEC),
        r == is_stale(*wd, now as int),
{
    if wd.has_error || wd.fetched_at == 0 {
        return true;
    }
    (now - wd.fetched_at) > WEATHER_REFRESH_SEC
}

/// Whether a report makes the day dark.
pub open spec fn dark(weather: Option<WeatherData>) -> bool {
    match weather {
        Some(w) => !w.has_error && w.cloud_cover >= CLOUD_THRESHOLD,
        None => false,
    }
}

pub fn is_dark(weather: &Option<WeatherData>) -> (r: bool)
    ensures
        r == dark(*weather),
{
    match weather {
        Some(w) => !w.has_error && w.cloud_cover >= CLOUD_THRESHOLD,
        None => false,
    }
}

/// The process number that a PID file holds; `None` where it holds no positive number.
pub fn daemon_pid(content: &str) -> (r: Option<i32>)
    ensures
        match r {
            Some(pid) => pid > 0 && text::i32_value(text::trim(content@)) == Some(pid as int),
            None => match text::i32_value(text::trim(content@)) {
                Some(n) => n <= 0,
                None => true,
            },
        },
{
    let chars = text::chars_of(content);
    match text::parse_i32(text::trim_chars(chars.as_slice())) {
        Some(pid) => if pid <= 0 {
            None
        } else {
            Some(pid)
        },
        None => None,
    }
}

/// The contents of the PID file of process `pid`.
pub fn pid_text(pid: i32) -> (r: String)
    ensures
        r@ == text::signed_decimal(pid as int).push('\n'),
{
    let mut out = String::new();
    text::push_signed(&mut out, pid as i64);
    assert(out@ =~= text::signed_decimal(pid as int));
    out.push('\n');
    out
}

/// A process number that was written to the PID file is read from it.
pub proof fn law_pid_is_read_back(pid: int)
    requires
        0 < pid <= i32::MAX,
    ensures
        text::i32_value(text::trim(text::signed_decimal(pid).push('\n'))) == Some(pid),
{
    let d = text::decimal(pid as nat);
    text::lemma_decimal(pid as nat);
    text::lemma_i32_written_and_read(pid as nat);
    let s = d.push('\n');
    assert(s[0] == d[0]);
    assert(text::trim_start(s) == s);
    assert(s.drop_last() =~= d);
    assert(!text::is_space(d.last())) by {
        assert(d.last() == d[d.len() - 1]);
    }
    assert(text::trim_end(s) == text::trim_end(d));
}

/// The lines of a location file.
pub open spec fn location_lines(lat: Seq<char>, lon: Seq<char>) -> Seq<Seq<char>> {
    seq!["[location]"@, "latitude = "@ + lat, "longitude = "@ + lon]
}

/// The contents of a location file, from the coordinates as they are to be written.
pub fn save_location(lat: &str, lon: &str) -> (r: String)
    ensures
        r@ == text::terminated(location_lines(lat@, lon@)),
{
    let mut out = String::new();
    out.append("[location]");
    out.push('\n');
    let ghost first = out@;
    out.append("latitude = ");
    out.append(lat);
    out.push('\n');
    let ghost second = out@;
    out.append("longitude = ");
    out.append(lon);
    out.push('\n');
    proof {
        let all = location_lines(lat@, lon@);
        let two = all.drop_last();
        let one = two.drop_last();
        assert(one.drop_last() =~= Seq::empty());
        assert(text::terminated(one.drop_last()) =~= Seq::empty());
        assert(one.last() == all[0] && two.last() == all[1]);
        assert(first =~= text::terminated(one));
        assert(second =~= text::terminated(two));
        assert(out@ =~= text::terminated(all));
    }
    out
}

/// A number as it stands in a location file: not empty, on one line, without white space at its
/// ends.
pub open spec fn is_plain(s: Seq<char>) -> bool {
    s.len() > 0 && !s.contains('\n') && !text::is_space(s[0]) && !text::is_space(s.last())
}

proof fn lemma_setting_line(scan: LocationScan, key: Seq<char>, value: Seq<char>)
    requires
        scan.in_location,
        is_plain(key),
        is_plain(value),
        !key.contains('='),
        key[0] != '#',
        key[0] != ';',
        key[0] != '[',
    ensures
        scan_line(scan, key + seq![' ', '=', ' '] + value) == if key == "latitude"@ {
            LocationScan { latitude: Some(value), ..scan }
        } else if key == "longitude"@ {
            LocationScan { longitude: Some(value), ..scan }
        } else {
            scan
        },
{
    let line = key + seq![' ', '=', ' '] + value;
    assert(line[0] == key[0]);
    assert(line.last() == value.last());
    text::lemma_trim_keeps(line);
    let before = key.push(' ');
    let after = seq![' '] + value;
    assert(line =~= before + seq!['='] + after);
    assert(!before.contains('=')) by {
        if before.contains('=') {
            let i = before.index_of('=');
            assert(i < key.len());
            assert(key[i] == '=');
        }
    }
    text::lemma_first_of_behind(before, '=', after);
    let n = text::first_of(line, '=');
    assert(line.take(n) =~= before);
    assert(line.skip(n + 1) =~= after);
    assert(text::trim_start(before) == before) by {
        assert(before[0] == key[0]);
    }
    assert(before.drop_last() =~= key);
    assert(text::trim_end(before) == text::trim_end(key));
    assert(after.skip(1) =~= value);
    assert(text::trim_start(after) == text::trim_start(value));
}

/// Coordinates that were saved are found again.
pub proof fn law_location_is_read_back(lat: Seq<char>, lon: Seq<char>)
    requires
        is_plain(lat),
        is_plain(lon),
    ensures
        scan_lines(text::lines(text::terminated(location_lines(lat, lon)))).latitude == Some(lat),
        scan_lines(text::lines(text::terminated(location_lines(lat, lon)))).longitude == Some(lon),
{
    reveal_strlit("[location]");
    reveal_strlit("latitude = ");
    reveal_strlit("longitude = ");
    reveal_strlit("latitude");
    reveal_strlit("longitude");
    let all = location_lines(lat, lon);
    assert forall|i: int| 0 <= i < all.len() implies text::is_line(#[trigger] all[i]) by {
        let line = all[i];
        let head = if i == 0 {
            "[location]"@
        } else if i == 1 {
            "latitude = "@
        } else {
            "longitude = "@
        };
        let tail = if i == 0 {
            Seq::empty()
        } else if i == 1 {
            lat
        } else {
            lon
        };
        assert(line =~= head + tail);
        if line.contains('\n') {
            let k = line.index_of('\n');
            if k < head.len() {
                assert(head[k] == '\n');
            } else {
                assert(tail[k - head.len()] == '\n');
            }
        }
    }
    text::lemma_lines_terminated(all);
    let none = LocationScan { in_location: false, latitude: None, longitude: None };
    let two = all.drop_last();
    let one = two.drop_last();
    assert(one.drop_last() =~= Seq::empty());
    assert(scan_lines(Seq::empty()) == none);
    text::lemma_trim_keeps(all[0]);
    let s1 = scan_line(none, all[0]);
    assert(s1 == (LocationScan { in_location: true, ..none }));
    assert(scan_lines(one) == s1);
    assert("latitude = "@ =~= "latitude"@ + seq![' ', '=', ' ']);
    assert("longitude = "@ =~= "longitude"@ + seq![' ', '=', ' ']);
    lemma_setting_line(s1, "latitude"@, lat);
    let s2 = scan_lines(two);
    assert(s2 == (LocationScan { latitude: Some(lat), ..s1 }));
    assert("longitude"@.len() != "latitude"@.len());
    lemma_setting_line(s2, "longitude"@, lon);
    assert(scan_lines(all) == (LocationScan { longitude: Some(lon), ..s2 }));
}

/// Only the section of the location counts: a line of another section, a comment, an empty line and a
/// line without an equals sign change nothing; a heading says whether the lines below it count; and
/// of two values for a coordinate the later one holds.
pub proof fn law_only_the_location_section_counts(scan: LocationScan, line: Seq<char>)
    ensures
        ({
            let t = text::trim(line);
            let after = scan_line(scan, line);
            &&& t.len() == 0 ==> after == scan
            &&& t.len() > 0 && (t[0] == '#' || t[0] == ';') ==> after == scan
            &&& t.len() > 0 && t[0] == '[' ==> after.in_location == (t == "[location]"@)
                && after.latitude == scan.latitude && after.longitude == scan.longitude
            &&& !scan.in_location ==> after.latitude == scan.latitude && after.longitude
                == scan.longitude
            &&& !t.contains('=') ==> after.latitude == scan.latitude && after.longitude
                == scan.longitude
            &&& t.len() > 0 && t[0] != '[' ==> after.in_location == scan.in_location
            &&& after.latitude == scan.latitude || after.longitude == scan.longitude
        }),
{
    text::lemma_first_of(text::trim(line), '=');
}

/// A line of the section sets the coordinate of its name: what stands behind the first equals sign,
/// without the blanks round it. A line of another name sets nothing.
pub proof fn law_setting_is_taken_up(scan: LocationScan, key: Seq<char>, value: Seq<char>)
    requires
        scan.in_location,
        is_plain(key),
        is_plain(value),
        !key.contains('='),
        key[0] != '#',
        key[0] != ';',
        key[0] != '[',
    ensures
        ({
            let after = scan_line(scan, key + seq![' ', '=', ' '] + value);
            &&& key == "latitude"@ ==> after.latitude == Some(value) && after.longitude
                == scan.longitude
            &&& key == "longitude"@ ==> after.longitude == Some(value) && after.latitude
                == scan.latitude
            &&& key != "latitude"@ && key != "longitude"@ ==> after == scan
            &&& after.in_location
        }),
{
    reveal_strlit("latitude");
    reveal_strlit("longitude");
    assert("longitude"@.len() != "latitude"@.len());
    lemma_setting_line(scan, key, value);
}

/// A day is dark where its report says so: without a report, or with one that failed, it is not; and
/// more cloud does not make it brighter.
pub proof fn law_dark_day_needs_a_report(a: WeatherData, b: WeatherData)
    ensures
        !dark(None),
        a.has_error ==> !dark(Some(a)),
        !a.has_error ==> (dark(Some(a)) <==> a.cloud_cover >= 60),
        dark(Some(a)) && !b.has_error && b.cloud_cover >= a.cloud_cover ==> dark(Some(b)),
{
}

/// A report is due to be fetched again.
pub open spec fn is_stale(wd: WeatherData, now: int) -> bool {
    wd.has_error || wd.fetched_at == 0 || now - wd.fetched_at > WEATHER_REFRESH_SEC
}

/// A report holds for a quarter of an hour: it is not fetched again before, and is after; one that
/// failed is fetched again at once, and one that is stale stays so.
pub proof fn law_report_holds_for_a_while(wd: WeatherData, now: int, later: int)
    requires
        now <= later,
    ensures
        wd.has_error ==> is_stale(wd, now),
        !wd.has_error && wd.fetched_at != 0 ==> (is_stale(wd, now) <==> now > wd.fetched_at + 900),
        is_stale(wd, now) ==> is_stale(wd, later),
        wd.fetched_at == 0 ==> is_stale(wd, now),
{
}

} // verus!
