use screenguard::clock::Date;
use screenguard::policy::EnforceAction;
use screenguard::runtime::{
    keeps_helper, lists, policy_notice, sessions_without_helper, unlocked_sessions, user_sessions, Agent,
    HeartbeatUser, LocalUser, Outgoing, PolicyNotice, Reaction, RemainingEntry, ServerMessage, TickNotice,
    UserSession, UserSettings,
};

const TODAY: Date = Date { days: 739_873 };

fn user(uid: u32) -> LocalUser {
    LocalUser { local_uid: uid, username: format!("u{uid}"), display_name: format!("User {uid}") }
}

fn session(id: u32, uid: u32, active: bool, locked: bool) -> UserSession {
    UserSession { id, uid, active, locked }
}

fn settings(preserve: bool, thresholds: &[u32]) -> UserSettings {
    UserSettings {
        preserve_tasks_on_lock: preserve,
        lockout_grace_minutes: 1,
        warning_thresholds: thresholds.to_vec(),
    }
}

fn agent(now: u64) -> Agent {
    Agent::new(100, TODAY, now, "Europe/Amsterdam", &vec![user(1), user(2)])
}

fn said(uid: u32, minutes: i32, enforce: EnforceAction) -> ServerMessage {
    ServerMessage::RemainingUpdate(vec![RemainingEntry {
        local_uid: uid,
        remaining_minutes: minutes,
        enforce,
    }])
}

#[test]
fn a_new_link_is_told_everything() {
    let mut a = agent(10);
    assert!(!a.is_connected());
    let out = a.link_up(&vec![user(1)]);
    assert_eq!(out, vec![Outgoing::Hello, Outgoing::UsageSync, Outgoing::UserList]);
    assert!(a.is_connected());
    let beat = a.heartbeat(10, 10, &vec![1], &vec![]).unwrap();
    assert_eq!(
        beat,
        vec![HeartbeatUser { local_uid: 1, active_seconds_since_last: 0, idle: true, session_count: 0 }]
    );
    assert!(a.heartbeat(19, 10, &vec![1], &vec![]).is_none());
    assert!(a.heartbeat(20, 10, &vec![1], &vec![]).is_some());
    a.send_failed();
    assert!(!a.is_connected());
}

#[test]
fn use_is_credited_once_for_each_active_user() {
    let mut a = agent(100);
    let sessions = vec![
        session(1, 1, true, false),
        session(2, 1, true, false),
        session(3, 2, false, false),
        session(4, 9, true, false),
    ];
    let managed = vec![1, 2];
    let first = a.tick_start(101, TODAY, &sessions, &managed);
    assert!(first.credits.is_empty());
    assert_eq!(first.elapsed, 1);
    let second = a.tick_start(103, TODAY, &sessions, &managed);
    assert_eq!(second.credits, vec![1]);
    assert_eq!(second.elapsed, 2);
    assert_eq!(second.date, TODAY);
    let third = a.tick_start(200, TODAY, &vec![], &managed);
    assert_eq!((third.credits, third.elapsed), (vec![1], 5));
    let fourth = a.tick_start(199, TODAY, &sessions, &managed);
    assert_eq!((fourth.credits, fourth.elapsed), (vec![], 0));
    let beat = a.heartbeat(300, 10, &managed, &sessions).unwrap();
    assert_eq!(
        beat,
        vec![
            HeartbeatUser { local_uid: 1, active_seconds_since_last: 7, idle: false, session_count: 2 },
            HeartbeatUser { local_uid: 2, active_seconds_since_last: 0, idle: true, session_count: 1 },
        ]
    );
}

#[test]
fn a_user_who_is_no_longer_managed_is_not_credited() {
    let mut a = agent(0);
    a.tick_start(1, TODAY, &vec![session(1, 1, true, false)], &vec![1]);
    let next = a.tick_start(2, TODAY, &vec![session(1, 1, true, false)], &vec![2]);
    assert!(next.credits.is_empty());
}

#[test]
fn midnight_attributes_the_interval_to_the_day_before() {
    let mut a = agent(0);
    a.link_up(&vec![user(1)]);
    let sessions = vec![session(1, 1, true, false)];
    a.tick_start(1, TODAY, &sessions, &vec![1]);
    let tomorrow = Date { days: TODAY.days + 1 };
    let t = a.tick_start(2, tomorrow, &sessions, &vec![1]);
    assert_eq!((t.credits, t.date, t.elapsed), (vec![1], TODAY, 1));
    assert!(t.sync_usage);
    assert_eq!(a.current_date(), tomorrow);
    let t = a.tick_start(3, tomorrow, &sessions, &vec![1]);
    assert!(!t.sync_usage);
    let beat = a.heartbeat(100, 10, &vec![1], &sessions).unwrap();
    assert_eq!(beat[0].active_seconds_since_last, 1);
}

#[test]
fn an_old_cache_is_reported_once_and_goes_on() {
    let mut a = agent(0);
    assert!(!a.ttl_exceeded(3599, 1));
    assert!(a.ttl_exceeded(3600, 1));
    assert!(!a.ttl_exceeded(3601, 1));
    a.link_down(4000);
    assert!(!a.ttl_exceeded(4001, 1));
    assert!(a.ttl_exceeded(7600, 1));
    a.link_up(&vec![]);
    assert!(!a.ttl_exceeded(u64::MAX, u64::MAX));
    a.link_down(5);
    assert!(!a.ttl_exceeded(u64::MAX, u64::MAX));
    assert!(a.ttl_exceeded(5, 0));
}

#[test]
fn an_old_cache_is_reported_in_the_look_that_loses_the_link() {
    let mut a = agent(0);
    a.link_up(&vec![user(1)]);
    let tomorrow = Date { days: TODAY.days + 1 };
    assert!(a.tick_start(7200, tomorrow, &vec![], &vec![1]).sync_usage);
    assert!(!a.ttl_exceeded(7200, 2));
    a.send_failed();
    assert!(a.ttl_exceeded(7200, 2));
    assert!(!a.tick_start(7201, tomorrow, &vec![], &vec![1]).sync_usage);
    assert!(!a.ttl_exceeded(7201, 2));
}

#[test]
fn the_server_counts_while_it_is_fresh_and_linked() {
    let mut a = agent(0);
    let s = settings(false, &[]);
    assert_eq!(a.on_message(&said(1, 5, EnforceAction::Allow), 10, false), Reaction::Nothing);
    assert_eq!(a.tick_user(1, 77, &s, &vec![], 10).seconds, 77);
    a.link_up(&vec![user(1)]);
    a.on_message(&said(1, 5, EnforceAction::Allow), 10, false);
    assert_eq!(a.tick_user(1, 77, &s, &vec![], 39).seconds, 300);
    assert_eq!(a.tick_user(1, 77, &s, &vec![], 40).seconds, 77);
    a.on_message(&said(1, 5, EnforceAction::Lock), 50, false);
    let t = a.tick_user(1, 77, &s, &vec![], 50);
    assert!(t.blocked && t.seconds == 0);
    a.on_message(&ServerMessage::ConfigPush, 51, false);
    assert_eq!(a.tick_user(1, 77, &s, &vec![], 51).seconds, 77);
    a.on_message(&said(1, 5, EnforceAction::Allow), 52, false);
    a.link_down(53);
    assert_eq!(a.tick_user(1, 77, &s, &vec![], 53).seconds, 77);
}

#[test]
fn messages_and_what_is_done_about_them() {
    let mut a = agent(0);
    a.link_up(&vec![user(1)]);
    assert_eq!(a.on_message(&ServerMessage::ConfigPush, 1, false), Reaction::ApplyConfig);
    assert_eq!(
        a.on_message(&ServerMessage::LockNow { local_uid: 1 }, 1, false),
        Reaction::ForceLock { local_uid: 1, date: TODAY }
    );
    assert!(a.tick_user(1, 500, &settings(true, &[]), &vec![], 1).blocked);
    assert_eq!(a.on_message(&ServerMessage::ConfigReload, 1, false), Reaction::SendHello);
    assert_eq!(a.on_message(&ServerMessage::FetchLogs, 1, false), Reaction::SendLogs);
    assert_eq!(a.on_message(&ServerMessage::UpdateAgent, 1, false), Reaction::RefuseUpdate);
    assert_eq!(a.on_message(&ServerMessage::UpdateAgent, 1, true), Reaction::LaunchUpdater);
    a.updater_started();
    assert_eq!(a.on_message(&ServerMessage::UpdateAgent, 1, true), Reaction::RefuseUpdate);
    a.updater_exited();
    assert_eq!(a.on_message(&ServerMessage::UpdateAgent, 1, true), Reaction::LaunchUpdater);
    assert_eq!(a.on_message(&ServerMessage::Other, 1, true), Reaction::Nothing);
    assert_eq!(a.on_message(&ServerMessage::Unpair, 1, true), Reaction::Nothing);
    assert!(!a.is_connected());
}

#[test]
fn notices_are_numbered_and_cut() {
    let mut a = agent(0);
    let long = "x".repeat(3000);
    a.on_message(
        &ServerMessage::NotifyUser { local_uid: 1, summary: long.clone(), body: long },
        0,
        false,
    );
    let t = a.tick_user(1, i64::MAX, &settings(false, &[]), &vec![], 0);
    let status = a.session_status(1, &t, "nl", "https://admin", Some(4000));
    let n = status.notification.unwrap();
    assert_eq!((n.id, n.title.len(), n.body.len()), (101, 128, 2048));
    assert_eq!(status.remaining_seconds, None);
    assert_eq!(status.language, "nl");
    assert_eq!(status.admin_url, "https://admin");
    assert_eq!(status.proxy_port, Some(4000));
    assert!(!status.online && !status.blocked);
    a.notify(1, "t", "b");
    let n = a.session_status(1, &t, "", "", None).notification.unwrap();
    assert_eq!((n.id, n.title, n.body), (102, "t".to_string(), "b".to_string()));
    assert!(a.session_status(2, &t, "", "", None).notification.is_none());
}

#[test]
fn one_warning_for_each_threshold() {
    let mut a = agent(0);
    let s = settings(false, &[15, 5]);
    let mut at = |seconds: i64| a.tick_user(1, seconds, &s, &vec![], 0).notice;
    assert_eq!(at(960), None);
    assert_eq!(at(959), Some(TickNotice::Warning { minutes: 15 }));
    assert_eq!(at(900), None);
    assert_eq!(at(359), Some(TickNotice::Warning { minutes: 5 }));
    assert_eq!(at(60), None);
    assert_eq!(at(1000), None);
    assert_eq!(at(30), Some(TickNotice::Warning { minutes: 0 }));
    assert_eq!(at(i64::MAX), None);
    a.user_configured(1, "t", "b");
    assert_eq!(
        a.tick_user(1, 30, &s, &vec![], 0).notice,
        Some(TickNotice::Warning { minutes: 0 })
    );
}

#[test]
fn a_block_is_announced_disconnected_and_logged_off() {
    let mut a = agent(0);
    let s = settings(false, &[]);
    let sessions = vec![
        session(1, 1, true, false),
        session(2, 1, false, true),
        session(3, 2, true, false),
    ];
    let t = a.tick_user(1, 0, &s, &sessions, 100);
    assert_eq!(t.notice, Some(TickNotice::Lock));
    assert!(t.logoff.is_empty() && t.disconnect.is_empty());
    let t = a.tick_user(1, 0, &s, &sessions, 103);
    assert_eq!(t.notice, None);
    assert!(t.disconnect.is_empty());
    let t = a.tick_user(1, 0, &s, &sessions, 104);
    assert_eq!(t.disconnect, vec![1]);
    let t = a.tick_user(1, 0, &s, &sessions, 163);
    assert!(t.logoff.is_empty());
    let t = a.tick_user(1, 0, &s, &sessions, 164);
    assert_eq!(t.logoff, vec![1, 2]);
    assert!(t.disconnect.is_empty());
    // Time is granted, and the block comes back: it is announced and waited for anew.
    assert!(!a.tick_user(1, 10, &s, &sessions, 165).blocked);
    let t = a.tick_user(1, 0, &s, &sessions, 166);
    assert_eq!(t.notice, Some(TickNotice::Lock));
    assert!(t.logoff.is_empty());
}

#[test]
fn preserved_sessions_are_only_disconnected() {
    let mut a = agent(0);
    let s = settings(true, &[]);
    let sessions = vec![session(1, 1, true, false)];
    for now in [0, 4, 1000, 100_000] {
        let t = a.tick_user(1, 0, &s, &sessions, now);
        assert!(t.logoff.is_empty());
        assert_eq!(t.disconnect.is_empty(), now < 4);
    }
}

#[test]
fn what_concerns_an_unmanaged_user_is_forgotten() {
    let mut a = agent(0);
    let s = settings(false, &[]);
    a.tick_user(1, 0, &s, &vec![], 0);
    a.tick_end(&vec![1]);
    assert_eq!(a.tick_user(1, 0, &s, &vec![], 1).notice, None);
    a.tick_end(&vec![2]);
    assert_eq!(a.tick_user(1, 0, &s, &vec![], 2).notice, Some(TickNotice::Lock));
}

#[test]
fn scans_report_removed_users_and_a_new_zone() {
    let mut a = agent(10);
    assert!(!a.scan_due(309, 300));
    assert!(a.scan_due(310, 300));
    let scan = a.scanned(310, "Europe/Amsterdam", &vec![user(2), user(3)]);
    assert!(!scan.hello);
    assert_eq!(scan.removed_uids, vec![1]);
    assert!(!a.scan_due(311, 300));
    a.link_up(&vec![user(2)]);
    a.on_message(&said(1, 5, EnforceAction::Allow), 320, false);
    let scan = a.scanned(320, "UTC", &vec![user(2)]);
    assert!(scan.hello && scan.removed_uids.is_empty());
    assert_eq!(a.tick_user(1, 7, &settings(false, &[]), &vec![], 320).seconds, 7);
}

#[test]
fn what_a_user_is_told_of_a_policy() {
    assert_eq!(policy_notice(0, 10, 3661), PolicyNotice::Added { minutes: 10, left: 61 });
    assert_eq!(policy_notice(10, -5, 59), PolicyNotice::Reduced { minutes: 15, left: 0 });
    assert_eq!(policy_notice(3, 3, 0), PolicyNotice::Updated);
    assert_eq!(
        policy_notice(0, 1, i64::MAX),
        PolicyNotice::Added { minutes: 1, left: i32::MAX }
    );
}

#[test]
fn helpers_and_sessions() {
    let sessions = vec![
        session(1, 1, true, false),
        session(2, 2, true, true),
        session(3, 1, true, true),
    ];
    assert_eq!(user_sessions(&sessions, 1), vec![1, 3]);
    assert_eq!(unlocked_sessions(&sessions, 1), vec![1]);
    assert!(keeps_helper(&vec![1, 2], 2, true));
    assert!(!keeps_helper(&vec![1, 2], 2, false));
    assert!(!keeps_helper(&vec![1, 2], 3, true));
    assert_eq!(sessions_without_helper(&vec![1, 2, 3], &vec![2]), vec![1, 3]);
    assert!(lists(&vec![3], 3) && !lists(&vec![3], 4));
}
