use demiurge::gordian_knot::sysinfo;

#[test]
fn uptime_zero_formats_as_all_zeros() {
    assert_eq!(sysinfo::format_uptime(0), "0D 0H 0M 0S");
}

#[test]
fn uptime_under_a_minute_shows_seconds_only() {
    assert_eq!(sysinfo::format_uptime(47), "0D 0H 0M 47S");
}

#[test]
fn uptime_minutes_and_seconds() {
    assert_eq!(sysinfo::format_uptime(125), "0D 0H 2M 5S");
}

#[test]
fn uptime_hours_minutes_seconds() {
    assert_eq!(sysinfo::format_uptime(3_600 * 3 + 60 * 46 + 12), "0D 3H 46M 12S");
}

#[test]
fn uptime_days_handled() {
    // 2 days, 0 hours, 0 minutes, 0 seconds.
    assert_eq!(sysinfo::format_uptime(86_400 * 2), "2D 0H 0M 0S");
}

#[test]
fn uptime_mixed_large() {
    // 5 days, 12 hours, 34 minutes, 56 seconds.
    let s = 86_400 * 5 + 3_600 * 12 + 60 * 34 + 56;
    assert_eq!(sysinfo::format_uptime(s), "5D 12H 34M 56S");
}

#[test]
fn uptime_boundary_at_seconds_wrap() {
    // 59s -> 0 min; 60s -> 1 min; 61s -> 1 min 1 sec.
    assert_eq!(sysinfo::format_uptime(59), "0D 0H 0M 59S");
    assert_eq!(sysinfo::format_uptime(60), "0D 0H 1M 0S");
    assert_eq!(sysinfo::format_uptime(61), "0D 0H 1M 1S");
}

#[test]
fn uptime_of_the_largest_number_of_seconds() {
    assert_eq!(sysinfo::format_uptime(u64::MAX), "213503982334601D 7H 0M 15S");
}
