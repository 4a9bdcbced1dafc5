use screenguard::clock::{Date, LocalTime, TimeOfDay};
use screenguard::enforcement::{evaluate_enforcement, yesterday, LockEvent, LockRun, LockStep, LockedUsers};
use screenguard::ipc::{Notification, SessionStatus};
use screenguard::policy::{CachedPolicy, EnforceAction};
use screenguard::tray::{
    apply_proxy, backup_path, copy_text, local_proxy, new_notification, opens, time_text, tip_for, tooltip, Helper, ProxyPlan, Tip,
};

fn status() -> SessionStatus {
    SessionStatus::default()
}

fn ids(list: &[&str]) -> Vec<String> {
    list.iter().map(|s| s.to_string()).collect()
}

#[test]
fn texts_of_fixed_size() {
    assert_eq!(copy_text("ab", 4), vec![0x61, 0x62, 0, 0]);
    assert_eq!(copy_text("abcd", 4), vec![0x61, 0x62, 0x63, 0]);
    assert_eq!(copy_text("abc", 1), vec![0]);
    assert_eq!(copy_text("a\u{1f600}", 3), vec![0x61, 0xd83d, 0]);
}

#[test]
fn what_the_icon_shows() {
    assert_eq!(time_text(None), "\u{2014}");
    assert_eq!(time_text(Some(3661)), "1h 01m");
    assert_eq!(time_text(Some(-5)), "0h 00m");
    assert_eq!(time_text(Some(36_000 + 59 * 60 + 59)), "10h 59m");
    assert_eq!(time_text(Some(i64::MAX)), "2562047788015215h 30m");
    let mut s = status();
    assert_eq!(tip_for(&s), Tip::Unlimited);
    s.remaining_seconds = Some(5);
    assert_eq!(tip_for(&s), Tip::Remaining);
    s.blocked = true;
    assert_eq!(tip_for(&s), Tip::Locked);
    assert_eq!(tooltip("x", true), "ScreenGuard: x");
    assert_eq!(tooltip("x", false), "ScreenGuard: x (offline)");
    assert!(opens("https://x") && opens("http://x"));
    assert!(!opens("file:///c:/x") && !opens("HTTPS://x") && !opens(""));
}

#[test]
fn a_notification_is_shown_once() {
    let mut s = status();
    assert!(new_notification(0, &s).is_none());
    s.notification = Some(Notification { id: 7, title: "t".to_string(), body: "b".to_string() });
    let n = new_notification(6, &s).unwrap();
    assert_eq!((n.id, n.title.as_str(), n.body.as_str()), (7, "t", "b"));
    assert!(new_notification(7, &s).is_none());
}

#[test]
fn own_proxy_settings_come_back() {
    let p = local_proxy(8123);
    assert_eq!((p.flags, p.proxy.as_str()), (2, "127.0.0.1:8123"));
    assert!(p.bypass.is_empty() && p.pac.is_empty());
    let mut current = "own".to_string();
    let mut saved: Option<String> = None;
    for port in [None, Some(1), Some(1), Some(2), None, None, Some(3), None] {
        match apply_proxy(port, saved.is_some()) {
            ProxyPlan::Save(p) => {
                saved = Some(current);
                current = local_proxy(p).proxy;
            }
            ProxyPlan::Keep(p) => current = local_proxy(p).proxy,
            ProxyPlan::Restore => current = saved.take().unwrap(),
            ProxyPlan::Nothing => {}
        }
        match port {
            Some(p) => assert_eq!(current, format!("127.0.0.1:{p}")),
            None => assert_eq!((current.as_str(), saved.is_none()), ("own", true)),
        }
    }
}

#[test]
fn a_helper_gives_up_after_five_failures() {
    let mut h = Helper::new();
    assert!(!h.sets(None) && h.sets(Some(1)));
    assert!(!h.answered(Some(1), true));
    assert_eq!(h.port, Some(1));
    assert!(h.sets(Some(1)) && h.sets(None));
    assert!(!h.answered(Some(2), false));
    assert_eq!(h.port, Some(1));
    for _ in 0..4 {
        assert!(!h.failed());
    }
    assert_eq!(h.port, Some(1));
    assert!(h.failed());
    assert_eq!((h.failures, h.port), (5, None));
    assert!(h.answered(None, true));
    assert_eq!(h.failures, 0);
    h.failures = u32::MAX;
    assert!(h.failed());
}

#[test]
fn the_server_decides_while_it_is_there() {
    let policy = CachedPolicy {
        manual_lock: Some("2026-09-14".to_string()),
        schedules: vec![],
        daily_limits: vec![],
        adjustments: vec![],
        usage: vec![],
        warning_thresholds: vec![],
    };
    let now = LocalTime {
        date: Date::from_key("2026-09-14").unwrap(),
        time: TimeOfDay { secs: 0, nanos: 0 },
    };
    let at = |online: bool, word: Option<&str>| evaluate_enforcement(online, word, &policy, &now);
    assert_eq!(at(true, Some("warn")), EnforceAction::Warn);
    assert_eq!(at(true, Some("lock")), EnforceAction::Lock);
    assert_eq!(at(true, Some("allow")), EnforceAction::Allow);
    assert_eq!(at(true, None), EnforceAction::Allow);
    assert_eq!(at(false, Some("allow")), EnforceAction::Lock);
    assert_eq!(yesterday(now.date).key(), "2026-09-13");
}

#[test]
fn sessions_are_locked_and_ended_after_grace() {
    let mut run = LockRun::new(false, 5);
    assert!(matches!(run.execute_lock(LockEvent::Sessions(ids(&["1", "2"]))), LockStep::Warn(4)));
    assert!(matches!(run.execute_lock(LockEvent::Done), LockStep::Lock(v) if v == ids(&["1", "2"])));
    assert!(matches!(run.execute_lock(LockEvent::Done), LockStep::Wait(300)));
    assert!(matches!(run.execute_lock(LockEvent::Waited(true)), LockStep::AskSessions));
    assert!(matches!(
        run.execute_lock(LockEvent::Sessions(ids(&["2"]))),
        LockStep::Terminate(v) if v == ids(&["2"])
    ));
    assert!(matches!(run.execute_lock(LockEvent::Done), LockStep::Finish(true)));
}

#[test]
fn a_lifted_lock_ends_no_session() {
    let mut run = LockRun::new(false, u32::MAX);
    run.execute_lock(LockEvent::Sessions(ids(&["1"])));
    run.execute_lock(LockEvent::Done);
    assert!(matches!(run.execute_lock(LockEvent::Done), LockStep::Wait(257_698_037_700)));
    assert!(matches!(run.execute_lock(LockEvent::Waited(false)), LockStep::Finish(true)));
    let mut run = LockRun::new(false, 1);
    assert!(matches!(run.execute_lock(LockEvent::Sessions(vec![])), LockStep::Finish(true)));
    let mut run = LockRun::new(false, 1);
    run.execute_lock(LockEvent::Sessions(ids(&["1"])));
    run.execute_lock(LockEvent::Done);
    run.execute_lock(LockEvent::Done);
    run.execute_lock(LockEvent::Waited(true));
    assert!(matches!(run.execute_lock(LockEvent::Sessions(vec![])), LockStep::Finish(true)));
}

#[test]
fn preserved_sessions_stay_locked() {
    let mut run = LockRun::new(true, 1);
    run.execute_lock(LockEvent::Sessions(ids(&["1"])));
    run.execute_lock(LockEvent::Done);
    assert!(matches!(run.execute_lock(LockEvent::Done), LockStep::Finish(false)));
}

#[test]
fn one_enforcement_at_a_time() {
    let mut users = LockedUsers::new();
    assert!(!users.handle_midnight(1, EnforceAction::Warn));
    assert!(!users.contains(1));
    assert!(users.handle_midnight(1, EnforceAction::Lock));
    assert!(!users.handle_midnight(1, EnforceAction::Lock));
    assert!(users.handle_midnight(2, EnforceAction::Lock));
    users.finished(1, Ok(false));
    assert!(users.contains(1));
    users.finished(1, Ok(true));
    assert!(!users.contains(1) && users.contains(2));
    users.finished(2, Err("lost".to_string()));
    assert!(!users.contains(2));
}

#[test]
fn where_own_settings_are_saved() {
    let place = backup_path(Some(5)).unwrap();
    assert_eq!(place.root, 5);
    assert_eq!(place.names, vec!["ScreenGuard", "proxy-backup.json"]);
    assert_eq!(backup_path::<u8>(None).unwrap_err(), "LOCALAPPDATA missing");
}
