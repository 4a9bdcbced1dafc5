use screenguard::config::{data_dir, db_path, load, logs_dir, settings_path, Config};
use screenguard::filter::{
    active, all_filters, check, filters, user_descriptor, user_filters, user_rules, BlockRule, Filter, FilteredUser,
    Layer,
};
use screenguard::ipc::{
    frame, is_status_request, peer_is_service, status_for, FrameReader, FrameStep, SessionStatus, StatusEntry,
    MAX_FRAME, PIPE_NAME,
};
use screenguard::link::{
    admin_url, authorization, closed, code_from, discovered, hello, hostname, needs_rebind, paired, pairing_code,
    route, usage_entries, while_connected, while_pairing, Backoff, Frame, FrameReply, Route, ServerConnection,
    UsageRow,
};
use screenguard::native::{
    account, accounts, awake_seconds, decode, from_wide, is_user_session, local_user, may_be_helper,
    same_ignoring_case, session, sessions, socket_owner, wide, AccountRow, SessionInfo, SessionRow, TcpRow,
};
use screenguard::service::{command, on_control, status, Command, Control, ControlReply, ServiceState};
use screenguard::update::{
    last_lines, log_lines, newest_log, tail_start, updater_options, updater_program,
};

fn some(s: &str) -> Option<String> {
    Some(s.to_string())
}

fn strings(list: &[&str]) -> Vec<String> {
    list.iter().map(|s| s.to_string()).collect()
}

#[test]
fn settings_of_the_agent() {
    let c = load(None).unwrap();
    assert_eq!(c.cloud_url, "wss://api.screenguard.cc/ws");
    assert_eq!((c.heartbeat_interval, c.user_scan_interval), (10, 300));
    assert_eq!((c.cache_ttl_hours, c.idle_seconds), (48, 300));
    assert!(c.web_filter && !c.allow_remote_update);
    assert!(c.server_url.is_none() && c.webui_url.is_none() && c.cloud_account.is_none());
    let problem = |change: &dyn Fn(&mut Config)| {
        let mut c = Config::default();
        change(&mut c);
        load(Some(c)).err()
    };
    assert_eq!(problem(&|c| c.heartbeat_interval = 1), None);
    assert_eq!(problem(&|c| c.heartbeat_interval = 60), None);
    for n in [0, 61] {
        assert_eq!(
            problem(&|c| c.heartbeat_interval = n),
            some("heartbeat_interval must be 1..60 seconds")
        );
    }
    assert_eq!(problem(&|c| c.user_scan_interval = 5), None);
    assert_eq!(problem(&|c| c.user_scan_interval = 4), some("Invalid scan/idle interval"));
    assert_eq!(problem(&|c| c.idle_seconds = 0), some("Invalid scan/idle interval"));
    assert_eq!(problem(&|c| c.cloud_account = some("me@example.com")), None);
    assert_eq!(
        problem(&|c| c.cloud_account = some("me")),
        some("cloud_account must be an email")
    );
}

#[test]
fn places_of_files() {
    let place = db_path(Some("C:/ProgramData")).unwrap();
    assert_eq!(place.root, "C:/ProgramData");
    assert_eq!(place.names, vec!["ScreenGuard", "agent.db"]);
    assert_eq!(data_dir(Some(1)).unwrap().names, vec!["ScreenGuard"]);
    assert_eq!(settings_path(Some(1)).unwrap().names, vec!["ScreenGuard", "agent.toml"]);
    assert_eq!(logs_dir(Some(1)).unwrap().names, vec!["ScreenGuard", "logs"]);
    assert_eq!(db_path::<u8>(None).unwrap_err(), "ProgramData missing");
}

fn filtered(uid: u32, domains: &[&str]) -> FilteredUser {
    FilteredUser { uid, sid: some("S-1"), domains: strings(domains) }
}

#[test]
fn ports_stay_while_a_user_is_filtered() {
    let mut nobody = filtered(4, &["x"]);
    nobody.sid = None;
    assert!(!filters(&nobody));
    let users = vec![filtered(1, &["a"]), filtered(2, &[]), filtered(3, &["b"]), nobody];
    let uids = active(&users);
    assert_eq!(uids, vec![1, 3]);
    let mut filter = Filter::new();
    assert_eq!(filter.to_stage(&uids), vec![1, 3]);
    filter.apply(vec![10, 11], &uids, &vec![(1, 5001), (3, 5003)]);
    assert_eq!((filter.port(1), filter.port(2), filter.port(3)), (Some(5001), None, Some(5003)));
    assert_eq!(filter.ids(), &vec![10, 11]);
    let uids = vec![3, 2];
    assert_eq!(filter.to_stage(&uids), vec![2]);
    filter.apply(vec![12], &uids, &vec![(2, 5002)]);
    assert_eq!((filter.port(1), filter.port(2), filter.port(3)), (None, Some(5002), Some(5003)));
    assert_eq!(filter.ids(), &vec![12]);
}

#[test]
fn a_failed_change_leaves_the_filter_as_it_was() {
    let mut filter = Filter::new();
    assert_eq!(filter.settle(Ok(vec![10, 11]), &vec![1, 3], &vec![(1, 5001), (3, 5003)]), Ok(()));
    assert_eq!(filter.ids(), &vec![10, 11]);
    let failed = Err("transaction".to_string());
    assert_eq!(filter.settle(failed, &vec![3, 2], &vec![(2, 5002)]), Err("transaction".to_string()));
    assert_eq!(filter.ids(), &vec![10, 11]);
    assert_eq!((filter.port(1), filter.port(2), filter.port(3)), (Some(5001), None, Some(5003)));
    assert_eq!(filter.settle(Ok(vec![12]), &vec![3, 2], &vec![(2, 5002)]), Ok(()));
    assert_eq!(filter.ids(), &vec![12]);
    assert_eq!((filter.port(1), filter.port(2), filter.port(3)), (None, Some(5002), Some(5003)));
    assert_eq!(filter.settle(Ok(vec![]), &vec![], &vec![]), Ok(()));
    assert_eq!(filter.ids(), &Vec::<u64>::new());
    assert_eq!(filter.port(3), None);
}

#[test]
fn rules_of_a_filtered_user() {
    let rules = user_rules();
    assert_eq!(rules.len(), 14);
    assert_eq!(rules[0], BlockRule { layer: Layer::V4, protocol: 6, port: 80 });
    assert_eq!(rules[13], BlockRule { layer: Layer::V6, protocol: 17, port: 53 });
    for i in 0..7 {
        assert_eq!((rules[i].protocol, rules[i].port), (rules[i + 7].protocol, rules[i + 7].port));
    }
    let of_udp: Vec<u16> = rules.iter().take(7).filter(|r| r.protocol == 17).map(|r| r.port).collect();
    assert_eq!(of_udp, vec![443, 853, 53]);
    assert_eq!(user_descriptor("S-1-5"), "D:(A;;CC;;;S-1-5)");
    let filters = user_filters("S-1-5");
    assert_eq!(filters.len(), 14);
    for (filter, rule) in filters.iter().zip(&rules) {
        assert_eq!(filter.rule, *rule);
        assert_eq!(filter.descriptor, "D:(A;;CC;;;S-1-5)");
        assert!(filter.blocks && !filter.loopback);
        assert_eq!(filter.weight, 15);
    }
    let mut other = filtered(3, &["b"]);
    other.sid = some("S-2");
    let all = all_filters(&vec![filtered(1, &["a"]), filtered(2, &[]), other]);
    assert_eq!(all.len(), 28);
    assert_eq!((all[13].descriptor.as_str(), all[14].descriptor.as_str()), ("D:(A;;CC;;;S-1)", "D:(A;;CC;;;S-2)"));
    assert_eq!(all[14].rule, rules[0]);
    assert_eq!(check(0), Ok(()));
    assert_eq!(check(0x8032_0009), Err("WFP operation failed: 0x80320009".to_string()));
    assert_eq!(check(0xab), Err("WFP operation failed: 0x000000ab".to_string()));
}

#[test]
fn frames_and_who_may_read_them() {
    assert_eq!(PIPE_NAME, r"\\.\pipe\ScreenGuard.Session.v1");
    assert!(is_status_request(b"status\n"));
    assert!(!is_status_request(b"status") && !is_status_request(b"statuS\n"));
    let bytes = frame(b"{}".to_vec());
    assert_eq!(bytes, b"{}\n");
    let mut reader = FrameReader::new();
    assert_eq!(reader.feed(b'{'), FrameStep::More);
    assert_eq!(reader.feed(b'}'), FrameStep::More);
    assert_eq!(reader.feed(b'\n'), FrameStep::Done);
    assert_eq!(reader.into_body(), b"{}");
    let mut reader = FrameReader::new();
    for _ in 0..MAX_FRAME - 1 {
        assert_eq!(reader.feed(b'x'), FrameStep::More);
    }
    assert_eq!(reader.feed(b'x'), FrameStep::TooLarge);
    assert!(peer_is_service(7, 7, true));
    assert!(!peer_is_service(7, 8, true) && !peer_is_service(7, 7, false));
}

#[test]
fn a_helper_gets_its_own_status_only() {
    let entry = |sid: &str, session: u32, blocked: bool| StatusEntry {
        sid: sid.to_string(),
        session,
        status: SessionStatus { blocked, ..SessionStatus::default() },
    };
    let entries = vec![entry("a", 1, true), entry("b", 1, false), entry("b", 2, true)];
    assert!(status_for(&entries, "a", 1).blocked);
    assert!(!status_for(&entries, "b", 1).blocked);
    assert!(status_for(&entries, "b", 2).blocked);
    let none = status_for(&entries, "a", 2);
    assert!(!none.blocked && !none.online && none.proxy_port.is_none() && none.notification.is_none());
}

#[test]
fn pauses_between_attempts() {
    let mut b = Backoff::new();
    let pauses: Vec<u64> = (0..8).map(|_| b.pause(1, 0)).collect();
    assert_eq!(pauses, vec![5, 10, 20, 40, 80, 160, 300, 300]);
    assert_eq!(b.pause(30, 0), 300);
    assert_eq!(b.pause(30, 1), 5);
    assert_eq!(b.pause(0, 0), 10);
}

fn connection(account: Option<&str>) -> Option<ServerConnection> {
    Some(paired(
        "wss://s/ws".to_string(),
        "t".to_string(),
        "a".to_string(),
        account.map(|s| s.to_string()),
    ))
}

#[test]
fn another_account_starts_anew() {
    assert!(!needs_rebind(&some("Me@Example.com "), &connection(Some("me@example.com"))));
    assert!(needs_rebind(&some("you@example.com"), &connection(Some("me@example.com"))));
    assert!(needs_rebind(&some("me@example.com"), &connection(None)));
    assert!(!needs_rebind(&None, &connection(Some("me@example.com"))));
    assert!(!needs_rebind(&some("me@example.com"), &None));
}

#[test]
fn where_an_agent_connects_to() {
    assert!(matches!(route(true, &some("a@b"), "wss://c"), Route::Paired));
    assert!(matches!(route(false, &some("a@b"), "wss://c"), Route::Pair(u) if u == "wss://c"));
    assert!(matches!(route(false, &None, "wss://c"), Route::Discover));
    assert_eq!(discovered(some("ws://x")), Ok("ws://x".to_string()));
    assert_eq!(discovered(None), Err("No server discovered".to_string()));
    assert_eq!(authorization("tok"), "Bearer tok");
    assert_eq!(closed(true), "Pairing connection closed");
    assert_eq!(closed(false), "Server closed connection");
}

#[test]
fn frames_of_the_link() {
    assert_eq!(while_pairing(Frame::PairingAccepted), FrameReply::Paired);
    assert_eq!(while_pairing(Frame::Text), FrameReply::Wait);
    assert_eq!(while_pairing(Frame::Unpair), FrameReply::Wait);
    assert_eq!(while_pairing(Frame::Ping), FrameReply::Pong);
    assert_eq!(while_pairing(Frame::Close), FrameReply::Fail);
    assert_eq!(while_connected(Frame::Text), FrameReply::Deliver);
    assert_eq!(while_connected(Frame::PairingAccepted), FrameReply::Deliver);
    assert_eq!(while_connected(Frame::Unpair), FrameReply::ForgetAndEnd);
    assert_eq!(while_connected(Frame::Ping), FrameReply::Pong);
    assert_eq!(while_connected(Frame::Close), FrameReply::End);
    assert_eq!(while_connected(Frame::Other), FrameReply::Wait);
}

#[test]
fn pairing_codes() {
    assert_eq!(code_from(&vec![0, 7, 8, 31, 24, 12]), "AHJ92N");
    let alphabet = "ABCDEFGHJKLMNPQRSTUVWXYZ23456789";
    let mut seen = Vec::new();
    for _ in 0..50 {
        let code = pairing_code();
        assert_eq!(code.len(), 6);
        assert!(code.chars().all(|c| alphabet.contains(c)));
        seen.push(code);
    }
    seen.sort();
    seen.dedup();
    assert!(seen.len() > 1);
}

#[test]
fn what_an_agent_says_of_itself() {
    let h = hello(
        "m".to_string(),
        hostname(some("PC")),
        "UTC".to_string(),
        "0.1.0".to_string(),
        true,
        None,
        some("c@d"),
    );
    assert_eq!((h.machine_id.as_str(), h.hostname.as_str()), ("m", "PC"));
    assert_eq!((h.timezone.as_str(), h.agent_version.as_str()), ("UTC", "0.1.0"));
    assert_eq!(h.last_config_version, 0);
    assert_eq!(h.capabilities, vec!["platform:windows", "arch:x86_64", "web_filter"]);
    assert_eq!(h.cloud_account, some("c@d"));
    let h = hello(
        String::new(),
        hostname(None),
        String::new(),
        String::new(),
        false,
        some("a@b"),
        some("c@d"),
    );
    assert_eq!(h.hostname, "Windows");
    assert_eq!(h.capabilities, vec!["platform:windows", "arch:x86_64"]);
    assert_eq!(h.cloud_account, some("a@b"));
}

#[test]
fn use_of_days_that_can_be_read_is_sent() {
    let row = |uid: u32, date: &str, used_seconds: u64| UsageRow {
        local_uid: uid,
        date: date.to_string(),
        used_seconds,
    };
    let sent = usage_entries(&vec![row(1, "2026-09-14", 5), row(2, "x", 6), row(3, "2026-09-15", 7)]);
    let shown: Vec<(u32, i32, u64)> =
        sent.iter().map(|e| (e.local_uid, e.date.days, e.used_seconds)).collect();
    assert_eq!(shown, vec![(1, 739_873, 5), (3, 739_874, 7)]);
}

#[test]
fn the_address_of_the_administration() {
    let url = |w: Option<&str>, p: Option<&str>, s: Option<&str>| {
        admin_url(
            &w.map(|s| s.to_string()),
            &p.map(|s| s.to_string()),
            &s.map(|s| s.to_string()),
        )
    };
    assert_eq!(url(Some("https://w"), Some("wss://p/ws"), None), "https://w");
    assert_eq!(url(None, Some("wss://p/ws"), Some("ws://s")), "https://p");
    assert_eq!(url(None, None, Some("ws://s:80/ws/ws")), "http://s:80");
    assert_eq!(url(None, None, None), "");
}

#[test]
fn texts_in_utf16() {
    assert_eq!(wide("a\u{e9}"), vec![0x61, 0xe9, 0]);
    assert_eq!(wide("\u{1f600}"), vec![0xd83d, 0xde00, 0]);
    for s in ["", "plain", "na\u{ef}ve \u{1f600}\u{10ffff}\u{ffff}"] {
        assert_eq!(from_wide(&wide(s)), s);
        let units: Vec<u16> = s.encode_utf16().collect();
        assert_eq!(decode(&units), s);
    }
    assert_eq!(decode(&vec![0xd83d]), "\u{fffd}");
    assert_eq!(decode(&vec![0xde00, 0x61]), "\u{fffd}a");
    assert_eq!(decode(&vec![0xd83d, 0xd83d, 0xde00]), "\u{fffd}\u{1f600}");
    assert_eq!(from_wide(&vec![0x61, 0, 0x62]), "a");
    assert_eq!(from_wide(&vec![]), "");
}

#[test]
fn accounts_of_the_machine() {
    let a = account(512, some("S-1"), "kid".to_string(), String::new()).unwrap();
    assert_eq!((a.sid.as_str(), a.name.as_str(), a.display_name.as_str()), ("S-1", "kid", "kid"));
    let a = account(0, some("S-1"), "kid".to_string(), "The Kid".to_string()).unwrap();
    assert_eq!(a.display_name, "The Kid");
    let u = local_user(9, &a);
    assert_eq!((u.local_uid, u.username.as_str(), u.display_name.as_str()), (9, "kid", "The Kid"));
    assert!(account(2, some("S-1"), String::new(), String::new()).is_none());
    assert!(account(514, some("S-1"), String::new(), String::new()).is_none());
    assert!(account(0, None, String::new(), String::new()).is_none());
    let row = |flags: u32, sid: Option<String>, name: &str| AccountRow {
        flags,
        sid,
        name: name.to_string(),
        full_name: String::new(),
    };
    let list = accounts(&vec![row(0, some("S-1"), "a"), row(2, some("S-2"), "b"), row(0, None, "c"), row(1, some("S-4"), "d")]);
    let names: Vec<&str> = list.iter().map(|a| a.name.as_str()).collect();
    assert_eq!(names, vec!["a", "d"]);
}

#[test]
fn sessions_of_the_machine() {
    let info = |flags: i32, current: i64, last: i64| {
        Some(SessionInfo { flags, current_time: current, last_input: last })
    };
    let at = |connected: bool, info: Option<SessionInfo>| {
        let s = session(3, "S".to_string(), connected, info, 300);
        (s.active, s.locked)
    };
    assert_eq!(at(true, None), (true, false));
    assert_eq!(at(false, None), (false, false));
    assert_eq!(at(true, info(0, 10, 5)), (false, true));
    assert_eq!(at(true, info(1, 3_000_000_004, 5)), (true, false));
    assert_eq!(at(true, info(1, 3_000_000_005, 5)), (false, false));
    assert_eq!(at(true, info(1, i64::MAX, 0)), (true, false));
    assert_eq!(at(true, info(1, i64::MIN, i64::MAX)), (true, false));
    assert!(!is_user_session(0) && is_user_session(1));
    let row = |id: u32, sid: Option<String>, connected: bool, info| SessionRow { id, sid, connected, info };
    let rows = vec![
        row(0, some("S-0"), true, None),
        row(2, some("S-2"), true, None),
        row(3, None, true, None),
        row(5, some("S-5"), true, info(0, 10, 5)),
        row(4, some("S-4"), false, None),
    ];
    let listed: Vec<(u32, String, bool, bool)> =
        sessions(&rows, 300).into_iter().map(|s| (s.id, s.sid, s.active, s.locked)).collect();
    assert_eq!(
        listed,
        vec![
            (2, "S-2".to_string(), true, false),
            (5, "S-5".to_string(), false, true),
            (4, "S-4".to_string(), false, false),
        ]
    );
    assert_eq!(awake_seconds(29_999_999), 2);
}

#[test]
fn owners_of_connections() {
    let row = |local_port: u32, remote_port: u32, pid: u32| TcpRow {
        local_address: u32::from_le_bytes([127, 0, 0, 1]),
        local_port,
        remote_address: u32::from_le_bytes([127, 0, 0, 1]),
        remote_port,
        pid,
    };
    let from: u32 = 0x3412;
    let to: u32 = 0xffff_7856;
    let mut rows = vec![row(to, from, 1), row(from, to, 2), row(from, to, 3)];
    assert_eq!(socket_owner(&rows, 0x1234, 0x5678), Some(2));
    assert_eq!(socket_owner(&rows, 0x5678, 0x1234), Some(1));
    assert_eq!(socket_owner(&rows, 0x1234, 0x5679), None);
    rows[1].local_address = u32::from_le_bytes([127, 0, 0, 2]);
    assert_eq!(socket_owner(&rows, 0x1234, 0x5678), Some(3));
}

#[test]
fn helpers_of_sessions() {
    assert!(may_be_helper(1, 1, "ScreenGuard-Tray-Windows.EXE"));
    assert!(!may_be_helper(1, 2, "screenguard-tray-windows.exe"));
    assert!(!may_be_helper(1, 1, "other.exe"));
    assert!(same_ignoring_case("C:\\A", "c:\\a"));
    assert!(!same_ignoring_case("\u{e9}", "\u{c9}"));
}

#[test]
fn the_newest_log_and_its_last_lines() {
    let names = strings(&["agent.2026-09-13.log", "zzz.txt", ".log", "agent.2026-09-14.log", "agent.log.old"]);
    assert_eq!(newest_log(&names), Some(3));
    assert_eq!(newest_log(&strings(&[".log", "a.LOG"])), None);
    assert_eq!(newest_log(&strings(&["a.log", "a.b.log"])), Some(0));
    assert_eq!(newest_log(&vec![]), None);
    assert_eq!((tail_start(65_536), tail_start(65_537), tail_start(0)), (0, 1, 0));
    for text in ["", "\n", "a", "a\n", "a\r\nb\r", "\r\n\r\n", "a\n\nb", "a\rb\nc"] {
        let expected: Vec<String> = text.lines().map(|l| l.to_string()).collect();
        assert_eq!(last_lines(text), expected, "{text:?}");
    }
    let many: String = (0..250).map(|i| format!("{i}\n")).collect();
    let lines = last_lines(&many);
    assert_eq!((lines.len(), lines[0].as_str(), lines[199].as_str()), (200, "50", "249"));
    assert_eq!(log_lines(&b"caf\xc3\xa9\nx\xff".to_vec()), strings(&["caf\u{e9}", "x\u{fffd}"]));
}

#[test]
fn commands_and_controls() {
    assert_eq!(command(Some("--service")), Command::Service);
    assert_eq!(command(Some("--console")), Command::Console);
    assert_eq!(command(Some("--version")), Command::Version);
    assert_eq!(command(Some("--reset")), Command::Reset);
    assert_eq!(command(Some("--Service")), Command::Help);
    assert_eq!(command(None), Command::Help);
    assert_eq!(on_control(Control::Stop), ControlReply::Stop);
    assert_eq!(on_control(Control::Shutdown), ControlReply::Stop);
    assert_eq!(on_control(Control::Interrogate), ControlReply::Fine);
    assert_eq!(on_control(Control::Other), ControlReply::Unknown);
    assert!(status(ServiceState::Running).stoppable && !status(ServiceState::Starting).stoppable);
    assert_eq!(status(ServiceState::Stopped(true)).failure, Some(1));
    assert_eq!(status(ServiceState::Stopped(false)).failure, None);
    assert_eq!(status(ServiceState::Starting).wait_seconds, 10);
}

#[test]
fn the_updater_is_always_the_installed_one() {
    let place = updater_program(Some("C:/Windows")).unwrap();
    assert_eq!(place.root, "C:/Windows");
    assert_eq!(place.names, vec!["System32", "WindowsPowerShell", "v1.0", "powershell.exe"]);
    assert_eq!(updater_program::<u8>(None).unwrap_err(), "SystemRoot missing");
    assert_eq!(
        updater_options(),
        vec!["-NoProfile", "-NonInteractive", "-ExecutionPolicy", "Bypass", "-File"]
    );
}
