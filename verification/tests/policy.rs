use screenguard::clock::{Date, LocalTime, TimeOfDay, FIRST_DAY, LAST_DAY};
use screenguard::db::{Db, UserConfig};
use screenguard::link::paired;
use screenguard::policy::{
    crosses_threshold, day_remaining, evaluate, lock_behavior, read_windows, remaining, CachedPolicy, DailyLimit,
    EnforceAction, LockBehavior, LockState, Schedule, Window,
};

fn time(hours: u32, minutes: u32, seconds: u32) -> TimeOfDay {
    TimeOfDay { secs: hours * 3600 + minutes * 60 + seconds, nanos: 0 }
}

fn on(day: &str, hours: u32, minutes: u32, seconds: u32) -> LocalTime {
    LocalTime { date: Date::from_key(day).unwrap(), time: time(hours, minutes, seconds) }
}

fn at(hours: u32, minutes: u32, seconds: u32) -> LocalTime {
    on("2026-09-14", hours, minutes, seconds)
}

fn config() -> UserConfig {
    UserConfig {
        local_uid: 1,
        managed: true,
        schedules: vec![Schedule {
            day_of_week: 0,
            start_time: "09:00".to_string(),
            end_time: "18:00".to_string(),
        }],
        daily_limits: vec![DailyLimit { day_of_week: 0, allowed_minutes: 60 }],
        adjustments_today: 0,
        lockout_grace_minutes: 5,
        preserve_tasks_on_lock: false,
        warning_thresholds_minutes: vec![15, 5, 1],
        language: "en".to_string(),
        blocked_domains: vec![],
    }
}

fn cached() -> CachedPolicy {
    CachedPolicy {
        manual_lock: None,
        schedules: vec![Schedule {
            day_of_week: 0,
            start_time: "09:00".to_string(),
            end_time: "18:00".to_string(),
        }],
        daily_limits: vec![DailyLimit { day_of_week: 0, allowed_minutes: 60 }],
        adjustments: vec![],
        usage: vec![],
        warning_thresholds: vec![15, 5, 1],
    }
}

#[test]
fn grant_cancels_old_logoff_and_reblock_has_new_deadline() {
    let mut state = LockState::default();
    assert!(!state.update(true, false, 60, 0));
    assert!(!state.update(false, false, 60, 59));
    assert!(!state.update(true, false, 60, 60));
    assert!(!state.update(true, false, 60, 119));
    assert!(state.update(true, false, 60, 120));
}

#[test]
fn preserve_never_logs_off_and_switching_arms_grace() {
    let mut state = LockState::default();
    assert!(!state.update(true, true, 0, 0));
    assert!(!state.update(true, true, 0, 1000));
    assert!(!state.update(true, false, 60, 1000));
    assert!(state.update(true, false, 60, 1060));
}

#[test]
fn offline_limits_usage_and_schedule_intersection() {
    let mut db = Db::new("machine".to_string());
    db.apply_config_push(vec![config()], 1, "2026-09-14");
    assert_eq!(remaining(&db.policy(1), &at(8, 59, 0)), 0);
    assert_eq!(remaining(&db.policy(1), &at(9, 0, 0)), 3600);
    db.add_usage_seconds(1, "2026-09-14", 3000);
    assert_eq!(remaining(&db.policy(1), &at(10, 0, 0)), 600);
    assert_eq!(evaluate(&db.policy(1), &at(10, 0, 0)), EnforceAction::Warn);
    assert_eq!(remaining(&db.policy(1), &at(17, 59, 30)), 30);
    assert_eq!(remaining(&db.policy(1), &at(18, 0, 1)), 0);
}

#[test]
fn manual_lock_is_dated_and_superseded_by_new_policy() {
    let mut db = Db::new("machine".to_string());
    let free = || UserConfig { schedules: vec![], daily_limits: vec![], ..config() };
    db.apply_config_push(vec![free()], 1, "2026-09-14");
    db.force_lock_today(1, "2026-09-14");
    assert_eq!(remaining(&db.policy(1), &at(10, 0, 0)), 0);
    let tomorrow = on("2026-09-15", 10, 0, 0);
    assert_eq!(remaining(&db.policy(1), &tomorrow), i64::MAX);
    db.apply_config_push(vec![free()], 2, "2026-09-14");
    assert_eq!(remaining(&db.policy(1), &at(10, 0, 0)), i64::MAX);
}

#[test]
fn use_adds_up_by_user_and_day() {
    let mut db = Db::new("machine".to_string());
    db.apply_config_push(vec![config()], 1, "2026-09-14");
    db.add_usage_seconds(1, "2026-09-14", 100);
    db.add_usage_seconds(1, "2026-09-13", 7);
    db.add_usage_seconds(2, "2026-09-14", 9);
    db.add_usage_seconds(1, "2026-09-14", 20);
    assert_eq!(db.usage.len(), 3);
    assert_eq!(db.usage[0].used_seconds, 120);
    assert_eq!(remaining(&db.policy(1), &at(10, 0, 0)), 3480);
    assert_eq!(remaining(&db.policy(2), &at(10, 0, 0)), i64::MAX);
    db.add_usage_seconds(1, "2026-09-14", u64::MAX);
    assert_eq!(db.usage[0].used_seconds, u64::MAX);
    assert_eq!(remaining(&db.policy(1), &at(10, 0, 0)), 0);
}

#[test]
fn an_adjustment_holds_on_the_day_of_its_push() {
    let mut db = Db::new("machine".to_string());
    db.apply_config_push(vec![UserConfig { adjustments_today: -10, ..config() }], 1, "2026-09-14");
    assert_eq!(db.adjustment(1, "2026-09-14"), -10);
    assert_eq!(db.adjustment(1, "2026-09-15"), 0);
    assert_eq!(db.adjustment(2, "2026-09-14"), 0);
    assert_eq!(remaining(&db.policy(1), &at(10, 0, 0)), 3000);
}

#[test]
fn identities_are_stable_and_not_shared() {
    let mut db = Db::new("machine".to_string());
    assert_eq!(db.uid_for_sid("S-1-5-21-1"), Some(1));
    assert_eq!(db.uid_for_sid("S-1-5-21-2"), Some(2));
    assert_eq!(db.uid_for_sid("S-1-5-21-1"), Some(1));
    db.apply_config_push(vec![config()], 4, "2026-09-14");
    db.add_usage_seconds(1, "2026-09-14", 5);
    db.save_server_connection(paired(
        "wss://s/ws".to_string(),
        "t".to_string(),
        "a".to_string(),
        None,
    ));
    assert!(db.connection.is_some());
    db.wipe_for_rebind();
    assert!(db.connection.is_none() && db.users.is_empty() && db.usage.is_empty() && db.locks.is_empty());
    assert_eq!(db.config_version, 0);
    assert_eq!(db.machine_id, "machine");
    assert_eq!(db.uid_for_sid("S-1-5-21-3"), Some(3));
    assert_eq!(db.uid_for_sid("S-1-5-21-2"), Some(2));
    assert_eq!(db.sid_for_uid(2).as_deref(), Some("S-1-5-21-2"));
    assert_eq!(db.sid_for_uid(0), None);
    assert_eq!(db.sid_for_uid(4), None);
}

#[test]
fn resetting_the_pairing_keeps_policy_and_use() {
    let mut db = Db::new("machine".to_string());
    db.apply_config_push(vec![config()], 4, "2026-09-14");
    db.add_usage_seconds(1, "2026-09-14", 5);
    db.save_server_connection(paired(String::new(), String::new(), String::new(), None));
    db.reset_pairing();
    assert!(db.connection.is_none());
    assert_eq!(db.users.len(), 1);
    assert_eq!(db.usage.len(), 1);
}

#[test]
fn managed_users_are_listed_once_by_their_last_policy() {
    let mut db = Db::new("machine".to_string());
    let of = |local_uid, managed| UserConfig { local_uid, managed, ..config() };
    db.apply_config_push(vec![of(5, true), of(3, true), of(5, true), of(3, false), of(4, true)], 1, "2026-09-14");
    assert_eq!(db.managed_uids(), vec![5, 4]);
    assert_eq!(db.language(5), "en");
    assert_eq!(db.language(9), "");
    assert_eq!(db.settings(5).warning_thresholds, vec![15, 5, 1]);
    assert_eq!(db.settings(5).lockout_grace_minutes, 5);
    assert!(!db.settings(5).preserve_tasks_on_lock);
    assert_eq!(db.settings(9).lockout_grace_minutes, 0);
    let blocking = UserConfig { blocked_domains: vec!["example.com".to_string()], ..config() };
    db.apply_config_push(vec![blocking], 2, "2026-09-14");
    assert_eq!(db.blocked_domains(1), vec!["example.com".to_string()]);
    assert!(db.blocked_domains(9).is_empty());
}

#[test]
fn preserve_off_terminates_after_grace() {
    assert_eq!(lock_behavior(false), LockBehavior::TerminateAfterGrace);
}

#[test]
fn preserve_on_keeps_session_armed_for_relocking() {
    assert_eq!(lock_behavior(true), LockBehavior::PreserveAndRelock);
}

#[test]
fn a_deadline_at_the_end_of_time_does_not_wrap() {
    let mut state = LockState::default();
    assert!(!state.update(true, false, u64::MAX, 10));
    assert!(!state.update(true, false, u64::MAX, u64::MAX - 1));
    assert!(state.update(true, false, u64::MAX, u64::MAX));
}

#[test]
fn the_longest_open_window_counts() {
    let mut db = cached();
    db.daily_limits.clear();
    db.schedules.push(Schedule {
        day_of_week: 0,
        start_time: "10:00".to_string(),
        end_time: "20:00".to_string(),
    });
    assert_eq!(remaining(&db, &at(10, 0, 0)), 10 * 3600);
    assert_eq!(remaining(&db, &at(9, 30, 0)), 8 * 3600 + 1800);
    assert_eq!(remaining(&db, &at(20, 0, 0)), 0);
}

#[test]
fn a_window_that_cannot_be_read_or_is_of_another_day_leaves_nothing() {
    let mut db = cached();
    db.daily_limits.clear();
    db.schedules[0].start_time = "nine".to_string();
    assert_eq!(remaining(&db, &at(10, 0, 0)), 0);
    db.schedules[0].start_time = "09:00".to_string();
    db.schedules[0].day_of_week = 1;
    assert_eq!(remaining(&db, &at(10, 0, 0)), 0);
    assert_eq!(remaining(&db, &on("2026-09-15", 10, 0, 0)), 8 * 3600);
}

#[test]
fn windows_are_read_by_the_hour_and_minute() {
    let windows = read_windows(&cached().schedules);
    assert_eq!(
        windows,
        vec![Window { day_of_week: 0, start: Some(time(9, 0, 0)), end: Some(time(18, 0, 0)) }]
    );
    let bad = vec![Schedule {
        day_of_week: 3,
        start_time: "25:00".to_string(),
        end_time: "08:07".to_string(),
    }];
    assert_eq!(
        read_windows(&bad),
        vec![Window { day_of_week: 3, start: None, end: Some(time(8, 7, 0)) }]
    );
}

#[test]
fn adjustments_of_the_day_add_and_take_minutes() {
    let mut db = cached();
    db.adjustments.push(("2026-09-13".to_string(), 100));
    db.adjustments.push(("2026-09-14".to_string(), -20));
    assert_eq!(remaining(&db, &at(9, 0, 0)), 2400);
    db.adjustments[1].1 = -90;
    assert_eq!(remaining(&db, &at(9, 0, 0)), 0);
    assert_eq!(evaluate(&db, &at(9, 0, 0)), EnforceAction::Lock);
}

#[test]
fn use_only_takes_time() {
    let mut db = cached();
    let mut last = i64::MAX;
    for used in [0, 1, 1799, 3599, 3600, 9000] {
        db.usage = vec![("2026-09-14".to_string(), used)];
        let left = remaining(&db, &at(9, 0, 0));
        assert!(left <= last && left >= 0);
        assert_eq!(left == 0, evaluate(&db, &at(9, 0, 0)) == EnforceAction::Lock);
        last = left;
    }
    assert_eq!(last, 0);
}

#[test]
fn a_day_without_windows_or_limits_is_unbounded() {
    let now = at(10, 0, 0);
    assert_eq!(day_remaining(false, &vec![], &vec![], 0, 0, &now), i64::MAX);
    assert_eq!(day_remaining(true, &vec![], &vec![], 0, 0, &now), 0);
    let limits = vec![DailyLimit { day_of_week: 0, allowed_minutes: 10 }];
    assert_eq!(day_remaining(false, &vec![], &limits, 5, 60, &now), 840);
    let windows = vec![Window { day_of_week: 0, start: Some(time(9, 0, 0)), end: Some(time(10, 0, 5)) }];
    assert_eq!(day_remaining(false, &windows, &limits, 5, 60, &now), 5);
}

#[test]
fn thresholds_are_reached_by_the_minute() {
    assert!(crosses_threshold(&vec![15, 5], 959));
    assert!(!crosses_threshold(&vec![15, 5], 960));
    assert!(!crosses_threshold(&vec![], 1));
}

#[test]
fn allow_warn_and_lock() {
    let mut db = cached();
    assert_eq!(evaluate(&db, &at(9, 0, 0)), EnforceAction::Allow);
    db.usage = vec![("2026-09-14".to_string(), 2700)];
    assert_eq!(evaluate(&db, &at(9, 0, 0)), EnforceAction::Warn);
    db.usage = vec![("2026-09-14".to_string(), 3600)];
    assert_eq!(evaluate(&db, &at(9, 0, 0)), EnforceAction::Lock);
}

#[test]
fn dates_and_their_texts() {
    let day = Date::from_key("2026-09-14").unwrap();
    assert_eq!(day.days, 739_873);
    assert_eq!(day.key(), "2026-09-14");
    assert_eq!(day.weekday(), 0);
    assert_eq!(Date { days: 1 }.key(), "0001-01-01");
    assert_eq!(Date { days: 1 }.weekday(), 0);
    assert_eq!(Date { days: 0 }.weekday(), 6);
    assert!(Date::from_key("2026-02-30").is_none());
    assert!(Date::from_key("someday").is_none());
}

#[test]
fn the_ends_of_the_calendar() {
    for days in [FIRST_DAY, FIRST_DAY + 1, LAST_DAY - 1, LAST_DAY] {
        let day = Date { days };
        assert_eq!(Date::from_key(&day.key()), Some(day));
        assert_eq!(i64::from(day.weekday()), (i64::from(days) - 1).rem_euclid(7));
    }
    assert!(chrono::NaiveDate::from_num_days_from_ce_opt(FIRST_DAY - 1).is_none());
    assert!(chrono::NaiveDate::from_num_days_from_ce_opt(LAST_DAY + 1).is_none());
}

#[test]
fn clocks_in_time_zones() {
    let now = LocalTime::in_zone("Europe/Amsterdam", 1_789_380_000, 5).unwrap();
    assert_eq!(now.date.key(), "2026-09-14");
    assert_eq!(now.time, TimeOfDay { secs: 12 * 3600, nanos: 5 });
    let utc = LocalTime::in_zone("UTC", 1_789_380_000, 0).unwrap();
    assert_eq!(utc.time, time(10, 0, 0));
    assert!(LocalTime::in_zone("Nowhere/Land", 0, 0).is_none());
    for secs in [screenguard::clock::FIRST_SECOND, screenguard::clock::LAST_SECOND] {
        for zone in ["UTC", "Pacific/Kiritimati", "Pacific/Niue"] {
            let shown = LocalTime::in_zone(zone, secs, 999_999_999).unwrap();
            assert!(shown.date.days >= FIRST_DAY && shown.date.days <= LAST_DAY);
        }
    }
}

#[test]
fn seconds_between_times_of_a_day() {
    assert!(time(9, 0, 0).up_to(&time(9, 0, 0)));
    assert!(!time(9, 0, 1).up_to(&time(9, 0, 0)));
    assert_eq!(time(9, 0, 0).until(&time(10, 0, 0)), 3600);
    let half = TimeOfDay { secs: 9 * 3600, nanos: 500_000_000 };
    assert_eq!(half.until(&time(9, 0, 1)), 0);
    let leap = TimeOfDay { secs: 59, nanos: 1_000_000_000 };
    assert_eq!(leap.until(&time(0, 1, 0)), 1);
    assert_eq!(leap.until(&leap), 0);
}
