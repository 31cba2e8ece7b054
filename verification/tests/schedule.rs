use twitch_1337::berlin::{
    calculate_next_daily_run, calculate_next_occurrence, format_clock, format_datetime, format_day,
    format_stamp, parse_clock, resolve_berlin_time, sleep_until_hms, wait_until_schedule,
    CHRONO_MAX_SECS, CHRONO_MIN_SECS, MAX_DAY, MIN_DAY,
};
use twitch_1337::schedule::{
    load_schedules_from_config, parse_datetime, parse_time, plan_tasks,
    schedule_config_to_schedule, tick, LocalDateTime, Schedule, ScheduleCache, ScheduleConfig,
    Tick,
};
use twitch_1337::time::{Duration, TimeDelta, Timestamp};

/// 2026-01-01T00:00:00Z, which is 01:00 in Berlin.
const NEW_YEAR: i64 = 1_767_225_600;
const HOUR: i64 = 3600;

fn at(secs: i64) -> Timestamp {
    Timestamp::new(secs, 0).unwrap()
}

fn schedule(name: &str) -> Schedule {
    Schedule {
        name: name.to_string(),
        start_date: None,
        end_date: None,
        active_time_start: None,
        active_time_end: None,
        interval: TimeDelta { nanos: 3_600_000_000_000 },
        message: "hi".to_string(),
    }
}

fn config(name: &str, interval: &str) -> ScheduleConfig {
    ScheduleConfig {
        name: name.to_string(),
        message: "hi".to_string(),
        interval: interval.to_string(),
        start_date: None,
        end_date: None,
        active_time_start: None,
        active_time_end: None,
        enabled: true,
    }
}

#[test]
fn intervals_are_read() {
    assert_eq!(Schedule::parse_interval("01:30"), Ok(5400));
    assert_eq!(Schedule::parse_interval(" 0:01 "), Ok(60));
    assert_eq!(Schedule::parse_interval("30m"), Ok(1800));
    assert_eq!(Schedule::parse_interval("1h"), Ok(3600));
    assert_eq!(Schedule::parse_interval("2H30M"), Ok(9000));
    assert_eq!(Schedule::parse_interval("90s"), Ok(90));
}

#[test]
fn intervals_are_refused() {
    let err = |s: &str| Schedule::parse_interval(s).unwrap_err();
    assert_eq!(err("  "), "Interval string is empty");
    assert_eq!(err("1:2:3"), "Invalid hh:mm format: 1:2:3");
    assert_eq!(err("x:10"), "Invalid hours in hh:mm format: x");
    assert_eq!(err("1:y"), "Invalid minutes in hh:mm format: y");
    assert_eq!(err("1:60"), "Invalid hh:mm values (hours=1, minutes=60)");
    assert_eq!(err("-1:10"), "Invalid hh:mm values (hours=-1, minutes=10)");
    assert_eq!(err("00:00"), "Interval must be at least 1 minute (got 00:00)");
    assert_eq!(
        err("9223372036854775:00"),
        "Interval too large: 33204139332677190000 seconds"
    );
    assert_eq!(err("h"), "No number before unit 'h'");
    assert_eq!(err("5"), "Number without unit at end of interval: 5");
    assert_eq!(err("5x"), "Invalid character in interval: 'x'");
    assert_eq!(err("0m"), "Interval must be greater than zero");
    assert_eq!(err("59s"), "Interval must be at least 1 minute (got 59 seconds)");
    assert_eq!(err("99999999999999999999s"), "Invalid number: 99999999999999999999");
    assert_eq!(
        err("9223372036854776s"),
        "Interval too large: 9223372036854776 seconds"
    );
}

#[test]
fn windows_of_the_day() {
    let mut s = schedule("a");
    s.active_time_start = Some(8 * 3600);
    s.active_time_end = Some(20 * 3600);
    assert!(!s.is_active(&at(NEW_YEAR)));
    assert!(s.is_active(&at(NEW_YEAR + 7 * HOUR)));
    assert!(s.is_active(&at(NEW_YEAR + 19 * HOUR - 1)));
    assert!(!s.is_active(&at(NEW_YEAR + 19 * HOUR)));
    // Over midnight it is the other way round.
    s.active_time_start = Some(20 * 3600);
    s.active_time_end = Some(8 * 3600);
    assert!(s.is_active(&at(NEW_YEAR)));
    assert!(!s.is_active(&at(NEW_YEAR + 7 * HOUR)));
    assert!(s.is_active(&at(NEW_YEAR + 19 * HOUR)));
    // A window of no length is never open.
    s.active_time_end = Some(20 * 3600);
    assert!(!s.is_active(&at(NEW_YEAR + 19 * HOUR)));
}

#[test]
fn ranges_of_days() {
    let mut s = schedule("a");
    let start = parse_datetime("2026-01-01T01:00:00").unwrap();
    let end = parse_datetime("2026-01-01T02:00:00").unwrap();
    s.start_date = Some(start);
    s.end_date = Some(end);
    assert!(!s.is_active(&at(NEW_YEAR - 1)));
    assert!(s.is_active(&at(NEW_YEAR)));
    assert!(s.is_active(&at(NEW_YEAR + HOUR)));
    assert!(!s.is_active(&at(NEW_YEAR + HOUR + 1)));
}

#[test]
fn validation_names_the_fault() {
    let fault = |s: &Schedule| s.validate().unwrap_err();
    assert!(schedule("a").validate().is_ok());
    assert_eq!(fault(&schedule(" ")), "Schedule name cannot be empty");
    let mut s = schedule("a");
    s.message = String::new();
    assert_eq!(fault(&s), "Schedule message cannot be empty");
    let mut s = schedule("a");
    s.interval = TimeDelta { nanos: 0 };
    assert_eq!(fault(&s), "Interval must be positive");
    s.interval = TimeDelta { nanos: 59_999_999_999 };
    assert_eq!(fault(&s), "Interval must be at least 1 minute");
    let mut s = schedule("a");
    let d = LocalDateTime { secs: 5, nanos: 0 };
    s.start_date = Some(d);
    s.end_date = Some(d);
    assert_eq!(fault(&s), "End date must be after start date");
    let mut s = schedule("a");
    s.active_time_start = Some(1);
    assert_eq!(fault(&s), "active_time_end must be set if active_time_start is set");
    let mut s = schedule("a");
    s.active_time_end = Some(1);
    assert_eq!(fault(&s), "active_time_start must be set if active_time_end is set");
}

#[test]
fn times_are_read() {
    assert_eq!(parse_time("13:37"), Ok(13 * 3600 + 37 * 60));
    assert_eq!(parse_time("25:00").unwrap_err(), "Invalid time format '25:00' (expected HH:MM)");
    assert_eq!(parse_clock("04:00"), Some(14_400));
    let d = parse_datetime("2026-01-01T00:00:00").unwrap();
    assert_eq!((d.secs, d.nanos), (NEW_YEAR, 0));
    assert_eq!(
        parse_datetime("2026-01-01").unwrap_err(),
        "Invalid datetime format '2026-01-01' (expected YYYY-MM-DDTHH:MM:SS)"
    );
}

#[test]
fn configured_schedules() {
    let s = schedule_config_to_schedule(&config("a", "1h")).unwrap();
    assert_eq!(s.name, "a");
    assert_eq!(s.interval, TimeDelta { nanos: 3_600_000_000_000 });
    assert!(schedule_config_to_schedule(&config("a", "1s")).is_err());
    let mut bad = config("b", "1h");
    bad.active_time_start = Some("08:00".to_string());
    assert!(schedule_config_to_schedule(&bad).is_err());

    let mut off = config("off", "1h");
    off.enabled = false;
    let list = vec![config("a", "1h"), off, bad, config("c", "x"), config("d", "2h")];
    let names: Vec<String> =
        load_schedules_from_config(&list).into_iter().map(|s| s.name).collect();
    assert_eq!(names, vec!["a", "d"]);
}

#[test]
fn tasks_follow_the_cache() {
    let mut cache = ScheduleCache::new(at(NEW_YEAR));
    assert_eq!(cache.version, 0);
    cache.update(vec![schedule("a"), schedule("b")], at(NEW_YEAR + 5));
    assert_eq!(cache.version, 1);
    assert_eq!(cache.last_updated, at(NEW_YEAR + 5));

    assert!(matches!(tick(&schedule("a"), &cache, &at(NEW_YEAR)), Tick::Post));
    assert!(matches!(tick(&schedule("c"), &cache, &at(NEW_YEAR)), Tick::Stop));
    let mut early = schedule("a");
    early.active_time_start = Some(8 * 3600);
    early.active_time_end = Some(9 * 3600);
    // The task of a schedule that was changed ends.
    assert!(matches!(tick(&early, &cache, &at(NEW_YEAR)), Tick::Stop));
    cache.update(vec![early.clone(), schedule("b")], at(NEW_YEAR + 6));
    assert!(matches!(tick(&early, &cache, &at(NEW_YEAR)), Tick::Skip));
    assert!(matches!(tick(&schedule("a"), &cache, &at(NEW_YEAR)), Tick::Stop));

    let plan = plan_tasks(&vec![schedule("b"), schedule("old")], &cache.schedules);
    assert_eq!(plan.stop, vec![1]);
    assert_eq!(plan.start, vec![0]);
}

#[test]
fn changed_schedules_are_started_anew() {
    let mut changed = schedule("a");
    changed.message = "ho".to_string();
    let mut faster = schedule("b");
    faster.interval = TimeDelta { nanos: 60_000_000_000 };
    let running = vec![schedule("a"), schedule("b"), schedule("c")];
    let plan = plan_tasks(&running, &vec![changed, faster, schedule("c")]);
    assert_eq!(plan.stop, vec![0, 1]);
    assert_eq!(plan.start, vec![0, 1]);
    // Of two schedules with one name the last counts.
    let mut second = schedule("a");
    second.message = "second".to_string();
    let plan = plan_tasks(&vec![], &vec![schedule("a"), second.clone()]);
    assert_eq!(plan.start, vec![1]);
    assert!(plan.stop.is_empty());
    assert!(second.same(&second.clone()));
    assert!(!second.same(&schedule("a")));
}

#[test]
fn berlin_times_resolve() {
    // Winter: one hour ahead of UTC.
    assert_eq!(resolve_berlin_time(NEW_YEAR + HOUR), NEW_YEAR);
    // Summer: two hours. 2026-07-01T00:00:00 local.
    let july: i64 = 1_782_864_000;
    assert_eq!(resolve_berlin_time(july), july - 2 * HOUR);
    // 2026-10-25T02:30 comes twice; the later is taken.
    let twice: i64 = 1_792_895_400;
    assert_eq!(resolve_berlin_time(twice), twice - HOUR);
    // 2026-03-29T02:30 does not come at all; it counts as UTC.
    let gap: i64 = 1_774_751_400;
    assert_eq!(resolve_berlin_time(gap), gap);
    // The ends of the range.
    assert!((resolve_berlin_time(CHRONO_MIN_SECS) - CHRONO_MIN_SECS).abs() < 24 * HOUR);
    assert!((resolve_berlin_time(CHRONO_MAX_SECS) - CHRONO_MAX_SECS).abs() < 24 * HOUR);
    assert_eq!(format_day(0), "01.01.1970");
    assert!(format_day(MIN_DAY).starts_with("01.01."));
    assert!(format_day(MAX_DAY).starts_with("31.12."));
}

#[test]
fn next_occurrences() {
    // 01:00 local now; 13:37 local is 12:37 UTC.
    let target = NEW_YEAR + 12 * HOUR + 37 * 60;
    assert_eq!(calculate_next_occurrence(&at(NEW_YEAR), 13, 37), target);
    assert_eq!(calculate_next_occurrence(&at(target), 13, 37), target + 24 * HOUR);
    // 2026-10-25 has 25 hours in Berlin. At 00:30 the next 00:15 is that of the 26th.
    let long_day = 1_792_881_000;
    assert_eq!(calculate_next_occurrence(&at(long_day), 0, 15), long_day + 24 * HOUR + 45 * 60);
    // A daily run at 04:00 keeps to the clock when clocks are set back: it is 25 hours
    // from 04:00 on the 24th to 04:00 on the 25th.
    let four = long_day - 20 * HOUR - HOUR / 2;
    assert_eq!(calculate_next_daily_run(&at(four - 1), 4 * 3600), Some(four));
    assert_eq!(calculate_next_daily_run(&at(four), 4 * 3600), Some(four + 25 * HOUR));
    // 02:30 does not come on 2026-03-29; the run after that of the 28th is on the 30th.
    let spring = 1_774_751_400 - 24 * HOUR - HOUR;
    assert_eq!(calculate_next_daily_run(&at(spring), 9_000), Some(spring + 47 * HOUR));
    assert_eq!(
        wait_until_schedule(&at(NEW_YEAR), 13, 37),
        Some(Duration::from_secs((target - NEW_YEAR) as u64))
    );
    assert_eq!(
        sleep_until_hms(&at(target), 13, 37, 30, 100),
        Some(Duration::from_millis(29_900))
    );
    assert_eq!(sleep_until_hms(&at(target), 13, 37, 0, 0), None);
    assert_eq!(
        calculate_next_daily_run(&at(NEW_YEAR), 4 * 3600),
        Some(NEW_YEAR + 3 * HOUR)
    );
}

#[test]
fn berlin_texts() {
    let now = at(NEW_YEAR + 12 * HOUR + 37 * 60 + 5);
    assert_eq!(format_stamp(&now), "2026-01-01 13:37 CET");
    assert_eq!(format_datetime(&now), "2026-01-01T13:37:05");
    assert_eq!(format_clock(&now), "13:37");
    assert_eq!(format_day(NEW_YEAR / 86_400), "01.01.2026");
}
