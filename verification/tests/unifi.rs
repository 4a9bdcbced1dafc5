use screenguard::address::UrlParts;
use screenguard::clock::{Date, LocalTime, TimeOfDay};
use screenguard::ids::Uuid;
use screenguard::json::{without_nulls, Json, Number};
use screenguard::policy::{DailyLimit, Window};
use screenguard::unifi::api;
use screenguard::unifi::clients::{bind, bound, clients, events, BindStep, Binding, ClientRow, EventRow};
use screenguard::unifi::config::{
    body_step, broken_page, check_reply, holds, id_setting, is_https_origin, reply_step, Config, Environment,
    IdSetting, KeyFile, PageStep, Pager, ReplyStep,
};
use screenguard::unifi::reconcile::{
    after_create, effects, find_rule, name_for, policies_path, policy_path, reconcile, report_done, use_created,
    use_found, want_block, Decision, Effect, Facts, Want,
};
use screenguard::unifi::sync::{
    client_record, events_cutoff, is_news, mark_stale, statistics_device, statistics_devices, statistics_entry,
    statistics_path, status_text, unconfigured, Answer, Step, Sync,
};
use screenguard::unifi::{admin_time, normalize_mac, owned_matches, policy_blocked, profile_blocked, rule, rule_between};

const MAC: &str = "02:11:22:33:44:55";

fn id(n: u128) -> Uuid {
    Uuid { bits: n }
}

fn text(s: &str) -> Json {
    Json::text(s)
}

fn client(policy_id: Json) -> Json {
    Json::object()
        .with("mac", text(MAC))
        .with("profile_id", text(&id(7).text()))
        .with("mode", text("block"))
        .with("excluded", Json::Bool(false))
        .with("policy_id", policy_id)
        .with("result", text("observe"))
}

fn config() -> Config {
    Config {
        base: "http://controller".to_string(),
        key: "k".to_string(),
        site: Some(id(1)),
        source: Some(id(2)),
        destination: Some(id(3)),
        enforce: true,
        protected: vec![],
    }
}

fn known(saved_name: Option<&str>) -> Facts {
    Facts {
        profile_exists: Some(true),
        profile_blocked: None,
        saved_name: Some(saved_name.map(|s| s.to_string())),
    }
}

fn own_rule(rule_id: &str) -> Json {
    rule("ScreenGuard-owner-021122334455", MAC, id(2), id(3)).with("id", text(rule_id))
}

fn failed(d: Decision, message: &str) -> bool {
    matches!(d, Decision::Fail(e) if e == message)
}

#[test]
fn validates_mac_identity() {
    assert_eq!(normalize_mac("02-AA-bb-cc-DD-ee").unwrap(), "02:aa:bb:cc:dd:ee");
    for invalid in [
        "ff:ff:ff:ff:ff:ff",
        "01:00:00:00:00:00",
        "00:00:00:00:00:00",
        "../../sites",
        "123",
    ] {
        assert!(normalize_mac(invalid).is_err())
    }
}

#[test]
fn mac_addresses_are_brought_into_one_form() {
    let form = normalize_mac(" 0A:bC-0d:00-00:01\n").unwrap();
    assert_eq!(form, "0a:bc:0d:00:00:01");
    assert_eq!(normalize_mac(&form).unwrap(), form);
    for invalid in [
        "02:aa:bb:cc:dd",
        "02:aa:bb:cc:dd:ee:ff",
        "2:aa:bb:cc:dd:eee",
        "02:aa:bb:cc:dd:eg",
        "02aabbccddee",
        "",
        "0\u{e9}:aa:bb:cc:dd:ee",
        "1b:aa:bb:cc:dd:ee",
    ] {
        assert_eq!(normalize_mac(invalid), Err("Invalid unicast MAC address".to_string()));
    }
}

#[test]
fn limits_adjustments_and_windows() {
    assert!(policy_blocked(60, 0, 3600, true));
    assert!(!policy_blocked(60, 10, 3600, true));
    assert!(policy_blocked(60, 10, 0, false));
    assert!(policy_blocked(0, 0, 0, true));
    assert!(!policy_blocked(60, 0, 3599, true));
}

#[test]
fn extreme_limits_do_not_overflow() {
    assert!(policy_blocked(i32::MIN, i32::MIN, 0, true));
    assert!(!policy_blocked(i32::MAX, i32::MAX, 257_698_037_639, true));
    assert!(policy_blocked(i32::MAX, i32::MAX, 257_698_037_640, true));
    assert!(!policy_blocked(60, -100, -1, true));
}

#[test]
fn a_profile_is_blocked_by_its_day() {
    let date = Date::from_key("2026-09-14").unwrap();
    let at = |secs: u32| LocalTime { date, time: TimeOfDay { secs, nanos: 0 } };
    let limits = vec![
        DailyLimit { day_of_week: 1, allowed_minutes: 0 },
        DailyLimit { day_of_week: 0, allowed_minutes: 10 },
        DailyLimit { day_of_week: 0, allowed_minutes: 0 },
    ];
    assert!(!profile_blocked(&at(0), &limits, 0, 599, &vec![]));
    assert!(profile_blocked(&at(0), &limits, 0, 600, &vec![]));
    assert!(!profile_blocked(&at(0), &vec![], 0, 86_399, &vec![]));
    assert!(profile_blocked(&at(0), &vec![], 0, 86_400, &vec![]));
    let nine = TimeOfDay { secs: 32_400, nanos: 0 };
    let ten = TimeOfDay { secs: 36_000, nanos: 0 };
    let windows = vec![Window { day_of_week: 0, start: Some(nine), end: Some(ten) }];
    assert!(profile_blocked(&at(32_399), &limits, 0, 0, &windows));
    assert!(!profile_blocked(&at(32_400), &limits, 0, 0, &windows));
    assert!(!profile_blocked(&at(35_999), &limits, 0, 0, &windows));
    assert!(profile_blocked(&at(36_000), &limits, 0, 0, &windows));
    let broken = vec![Window { day_of_week: 0, start: None, end: Some(ten) }];
    assert!(profile_blocked(&at(33_000), &limits, 0, 0, &broken));
}

#[test]
fn exact_rule_ownership_and_dual_stack() {
    let expected = rule("owned", "02:11:22:33:44:55", id(10), id(11));
    assert!(expected.field("ipProtocolScope").field("ipVersion").is_text("IPV4_AND_IPV6"));
    let actual = expected.copy().with("id", text(&id(12).text()));
    assert!(owned_matches(&actual, &expected));
    let scope = actual.field("ipProtocolScope").copy().with("protocolFilter", Json::Null);
    let filter = actual.field("source").field("trafficFilter").copy().with("portFilter", Json::Null);
    let source = actual.field("source").copy().with("trafficFilter", filter);
    let actual = actual.with("ipProtocolScope", scope).with("source", source);
    assert!(owned_matches(&actual, &expected));
    let actual = actual.with("schedule", Json::object().with("mode", text("ALWAYS")));
    assert!(!owned_matches(&actual, &expected));
    let destination = expected.field("destination").copy().with("zoneId", text(&id(13).text()));
    let actual = expected.copy().with("destination", destination);
    assert!(!owned_matches(&actual, &expected));
}

#[test]
fn a_rule_says_what_is_blocked() {
    let r = rule_between("n", "m", "s", "d");
    assert!(r.field("name").is_text("n") && r.field("description").is_text("n"));
    assert!(r.field("enabled").is_true());
    assert!(r.field("loggingEnabled").equals(&Json::Bool(false)));
    assert!(r.field("action").field("type").is_text("BLOCK"));
    assert!(r.field("source").field("zoneId").is_text("s"));
    assert!(r.field("destination").field("zoneId").is_text("d"));
    let filter = r.field("source").field("trafficFilter");
    assert!(filter.field("type").is_text("MAC_ADDRESS"));
    let macs = filter.field("macAddressFilter").field("macAddresses");
    assert!(macs.equals(&Json::Array(vec![text("m")])));
    assert!(!owned_matches(&rule_between("n", "x", "s", "d"), &r));
    assert!(!owned_matches(&rule_between("x", "m", "s", "d"), &r));
    assert!(!owned_matches(&rule_between("n", "m", "x", "d"), &r));
    assert!(!owned_matches(&r.copy().with("ipsecFilter", Json::Bool(false)), &r));
    assert!(!owned_matches(&r.copy().with("connectionStateFilter", text("x")), &r));
}

#[test]
fn identifiers_and_their_texts() {
    let text = id(0x550e8400_e29b_41d4_a716_446655440000).text();
    assert_eq!(text, "550e8400-e29b-41d4-a716-446655440000");
    assert_eq!(Uuid::parse_str(&text), Ok(id(0x550e8400_e29b_41d4_a716_446655440000)));
    assert_eq!(
        Uuid::parse_str("550E8400E29B41D4A716446655440000"),
        Ok(id(0x550e8400_e29b_41d4_a716_446655440000))
    );
    assert!(Uuid::parse_str("550e8400").unwrap_err().contains("invalid"));
}

#[test]
fn nulls_are_dropped_from_objects_only() {
    let v = Json::object()
        .with("a", Json::Null)
        .with("b", Json::Array(vec![Json::Null, Json::object().with("c", Json::Null)]))
        .with("d", Json::object().with("e", Json::Null).with("f", Json::Bool(true)));
    let expected = Json::object()
        .with("b", Json::Array(vec![Json::Null, Json::object()]))
        .with("d", Json::object().with("f", Json::Bool(true)));
    let once = without_nulls(&v);
    assert!(once.equals(&expected));
    assert!(without_nulls(&once).equals(&once));
}

#[test]
fn preview_never_writes() {
    let mut cfg = config();
    cfg.enforce = false;
    let say = |d: Decision| match d {
        Decision::Report(s) => s,
        other => panic!("{other:?}"),
    };
    assert_eq!(
        say(reconcile(&cfg, "owner", &client(Json::Null), Some(&vec![]), &known(None))),
        "preview: would block internet"
    );
    assert_eq!(
        say(reconcile(&cfg, "owner", &client(text("r")), None, &known(None))),
        "disabled: existing rule may still block; enable enforcement and release first"
    );
    let observed = client(Json::Null).with("mode", text("observe"));
    assert_eq!(say(reconcile(&cfg, "owner", &observed, None, &known(None))), "preview: allow");
}

#[test]
fn exempt_clients_get_no_rule() {
    let mut cfg = config();
    cfg.protected.push(MAC.to_string());
    let d = reconcile(&cfg, "owner", &client(Json::Null), Some(&vec![]), &known(None));
    assert!(matches!(d, Decision::Clear));
    let excluded = client(Json::Null).with("excluded", Json::Bool(true));
    assert!(matches!(
        reconcile(&config(), "owner", &excluded, Some(&vec![]), &known(None)),
        Decision::Clear
    ));
}

#[test]
fn a_rule_is_created_recovered_and_released() {
    let cfg = config();
    let c = client(Json::Null);
    let created = match reconcile(&cfg, "owner", &c, Some(&vec![]), &known(None)) {
        Decision::Create(name, body) => {
            assert_eq!(name, "ScreenGuard-owner-021122334455");
            assert!(body.equals(&rule(&name, MAC, id(2), id(3))));
            after_create(&Json::object().with("id", text(&id(99).text()))).unwrap()
        }
        other => panic!("{other:?}"),
    };
    assert_eq!(created, id(99).text());
    // The identifier was never stored: the rule is found by its name.
    let rules = vec![own_rule(&created)];
    let name = "ScreenGuard-owner-021122334455";
    match reconcile(&cfg, "owner", &c, Some(&rules), &known(Some(name))) {
        Decision::Observe(found) => assert_eq!(found, created),
        other => panic!("{other:?}"),
    }
    let c = client(text(&created)).with("mode", text("observe"));
    match reconcile(&cfg, "owner", &c, Some(&rules), &known(Some(name))) {
        Decision::Delete(found) => assert_eq!(found, created),
        other => panic!("{other:?}"),
    }
}

#[test]
fn a_changed_rule_is_not_deleted() {
    let rule_id = id(50).text();
    let c = client(text(&rule_id)).with("excluded", Json::Bool(true));
    let actual = Json::object().with("id", text(&rule_id)).with("name", text("someone else's rule"));
    let d = reconcile(&config(), "owner", &c, Some(&vec![actual]), &known(None));
    assert!(failed(d, "Rule ownership or contents changed; manual review required"));
}

#[test]
fn a_deleted_profile_releases_and_does_not_recreate() {
    let mut facts = known(None);
    facts.profile_exists = Some(false);
    let d = reconcile(&config(), "owner", &client(Json::Null), Some(&vec![]), &facts);
    assert!(matches!(d, Decision::Clear));
    let no_profile = client(Json::Null).with("profile_id", Json::Null);
    let d = reconcile(&config(), "owner", &no_profile, Some(&vec![]), &known(None));
    assert!(matches!(d, Decision::Clear));
}

#[test]
fn missing_capabilities_change_nothing() {
    let c = client(Json::Null);
    let mut cfg = config();
    assert!(failed(
        reconcile(&cfg, "owner", &c, None, &known(None)),
        "Firewall API unavailable; no changes made"
    ));
    cfg.source = None;
    assert!(failed(
        reconcile(&cfg, "owner", &c, Some(&vec![]), &known(None)),
        "Select source and external destination zone IDs"
    ));
    cfg.source = Some(id(3));
    assert!(failed(
        reconcile(&cfg, "owner", &c, Some(&vec![]), &known(None)),
        "Source and destination zones must differ"
    ));
    assert!(failed(reconcile(&cfg, "owner", &Json::object(), Some(&vec![]), &known(None)), "Missing MAC"));
}

#[test]
fn what_is_not_known_is_asked_in_order() {
    let cfg = config();
    let c = client(Json::Null).with("mode", text("follow"));
    let mut facts = Facts { profile_exists: None, profile_blocked: None, saved_name: None };
    assert!(matches!(
        reconcile(&cfg, "o", &c, Some(&vec![]), &facts),
        Decision::AskProfile(p) if p == id(7)
    ));
    facts.profile_exists = Some(true);
    assert!(matches!(
        reconcile(&cfg, "o", &c, Some(&vec![]), &facts),
        Decision::AskBlocked(p) if p == id(7)
    ));
    facts.profile_blocked = Some(true);
    assert!(matches!(reconcile(&cfg, "o", &c, Some(&vec![]), &facts), Decision::AskName));
    facts.saved_name = Some(None);
    assert!(matches!(reconcile(&cfg, "o", &c, Some(&vec![]), &facts), Decision::Create(_, _)));
    facts.profile_blocked = Some(false);
    assert!(matches!(reconcile(&cfg, "o", &c, Some(&vec![]), &facts), Decision::Clear));
}

#[test]
fn modes_decide_what_is_wanted() {
    let p = Some(id(7));
    let with_mode = |mode: &str| client(Json::Null).with("mode", text(mode));
    assert_eq!(want_block(&with_mode("block"), false, p, Some(true), None), Want::Known(true));
    assert_eq!(want_block(&with_mode("block"), true, p, Some(true), None), Want::Known(false));
    assert_eq!(want_block(&with_mode("block"), false, None, None, None), Want::Known(false));
    assert_eq!(want_block(&with_mode("follow"), false, p, Some(true), Some(true)), Want::Known(true));
    assert_eq!(want_block(&with_mode("other"), false, p, Some(true), Some(true)), Want::Known(false));
    assert_eq!(want_block(&with_mode("block"), false, p, None, None), Want::AskProfile(id(7)));
}

#[test]
fn rules_are_found_by_identifier_before_name() {
    let rules = vec![
        Json::object().with("id", text("a")).with("name", text("n")),
        Json::object().with("id", text("b")).with("name", text("other")),
        Json::object().with("id", text("b")).with("name", text("second")),
    ];
    let saved = Some("n".to_string());
    let name_of = |r: Option<&Json>| r.map(|j| j.field("name").as_str().unwrap().to_string());
    assert_eq!(name_of(find_rule(&rules, Some("b"), &saved, "n")), Some("other".to_string()));
    assert_eq!(name_of(find_rule(&rules, Some("x"), &saved, "n")), Some("n".to_string()));
    assert_eq!(name_of(find_rule(&rules, None, &saved, "n")), Some("n".to_string()));
    assert!(find_rule(&rules, None, &None, "n").is_none());
    assert!(find_rule(&rules, None, &Some("m".to_string()), "n").is_none());
}

#[test]
fn a_found_rule_needs_a_usable_identifier() {
    let expected = rule_between("n", "m", "s", "d");
    assert!(failed(use_found(&expected, &expected, true, None), "Rule ID missing"));
    let actual = expected.copy().with("id", text("x"));
    assert!(failed(use_found(&actual, &expected, true, Some("bad id".to_string())), "bad id"));
    assert!(matches!(use_found(&actual, &expected, true, None), Decision::Observe(i) if i == "x"));
    assert!(matches!(use_found(&actual, &expected, false, None), Decision::Delete(i) if i == "x"));
    let rules = vec![rule("ScreenGuard-owner-021122334455", MAC, id(2), id(3)).with("id", text("no uuid"))];
    let d = reconcile(&config(), "owner", &client(text("no uuid")), Some(&rules), &known(None));
    assert!(matches!(d, Decision::Fail(e) if e.contains("invalid")));
}

#[test]
fn created_rules_are_remembered_by_identifier() {
    assert_eq!(
        after_create(&Json::object()),
        Err("Create response has no rule ID; will reconcile by name".to_string())
    );
    assert!(after_create(&Json::object().with("id", text("zzz"))).is_err());
    assert_eq!(use_created(&Json::object().with("id", text("zzz")), None), Ok("zzz".to_string()));
    assert_eq!(
        use_created(&Json::object().with("id", text("zzz")), Some("e".to_string())),
        Err("e".to_string())
    );
}

#[test]
fn the_name_is_stored_before_a_rule_is_created() {
    let done = effects(&Decision::Create("n".to_string(), Json::Bool(true)));
    assert_eq!(done.len(), 3);
    assert!(matches!(&done[0], Effect::StoreName(n) if n == "n"));
    assert!(matches!(&done[1], Effect::CreateRule(j) if j.is_true()));
    assert!(matches!(&done[2], Effect::StoreCreatedId));
    let done = effects(&Decision::Delete("d".to_string()));
    assert!(matches!(&done[..], [Effect::DeleteRule(d), Effect::Forget] if d == "d"));
    let done = effects(&Decision::Observe("o".to_string()));
    assert!(matches!(&done[..], [Effect::StoreId(o)] if o == "o"));
    assert!(matches!(&effects(&Decision::Clear)[..], [Effect::Forget]));
    assert!(effects(&Decision::AskName).is_empty());
    assert!(effects(&Decision::Report(String::new())).is_empty());
}

#[test]
fn what_is_reported_after_a_change() {
    assert_eq!(
        report_done(&Decision::Delete(String::new())).unwrap(),
        "own rule removed; other UniFi restrictions unchanged"
    );
    assert_eq!(
        report_done(&Decision::Observe(String::new())).unwrap(),
        "block rule observed; traffic test required"
    );
    assert_eq!(report_done(&Decision::Clear).unwrap(), "no ScreenGuard block rule");
    assert_eq!(
        report_done(&Decision::Create(String::new(), Json::Null)).unwrap(),
        "block rule created; verification pending"
    );
    assert_eq!(report_done(&Decision::AskName), None);
    assert_eq!(name_for("me", "aa:bb"), "ScreenGuard-me-aabb");
    assert_eq!(policies_path("/sites/x"), "/sites/x/firewall/policies");
    assert_eq!(policy_path("/sites/x", "y"), "/sites/x/firewall/policies/y");
}

fn environment() -> Environment {
    Environment {
        url: Some("https://controller.example/".to_string()),
        key: KeyFile::Contents(" secret\n".to_string()),
        certificate_error: None,
        site: Some(id(1).text()),
        source: None,
        destination: Some(id(3).text()),
        enforce: Some("true".to_string()),
        protected: Some("02-AA-bb-cc-DD-ee, ,02:aa:bb:cc:dd:ee,04:00:00:00:00:01".to_string()),
    }
}

#[test]
fn settings_of_the_controller() {
    let cfg = Config::load(&environment()).unwrap().unwrap();
    assert_eq!(cfg.base, "https://controller.example");
    assert_eq!(cfg.key, "secret");
    assert_eq!((cfg.site, cfg.source, cfg.destination), (Some(id(1)), None, Some(id(3))));
    assert!(cfg.enforce);
    assert_eq!(cfg.protected, vec!["02:aa:bb:cc:dd:ee", "04:00:00:00:00:01"]);
    assert!(holds(&cfg.protected, "04:00:00:00:00:01"));
    assert!(!holds(&cfg.protected, "04:00:00:00:00:02"));
    assert_eq!(
        cfg.request_url("/sites"),
        "https://controller.example/proxy/network/integration/v1/sites"
    );
    let mut env = environment();
    env.enforce = Some("TRUE".to_string());
    env.protected = None;
    let cfg = Config::load(&env).unwrap().unwrap();
    assert!(!cfg.enforce && cfg.protected.is_empty());
    env.url = None;
    assert!(Config::load(&env).unwrap().is_none());
}

#[test]
fn what_is_wrong_with_settings() {
    let problem = |change: &dyn Fn(&mut Environment)| {
        let mut env = environment();
        change(&mut env);
        Config::load(&env).unwrap_err()
    };
    assert!(problem(&|e| e.url = Some("nonsense".to_string())).contains("relative URL"));
    for url in [
        "http://controller/",
        "https://me@controller/",
        "https://me:pw@controller/",
        "https://controller/path",
        "https://controller/?q",
        "https://controller/#f",
    ] {
        assert_eq!(
            problem(&|e| e.url = Some(url.to_string())),
            "UniFi URL must be an HTTPS origin without credentials or path"
        );
    }
    assert_eq!(problem(&|e| e.key = KeyFile::Unset), "SCREENGUARD_UNIFI_API_KEY_FILE is required");
    assert_eq!(problem(&|e| e.key = KeyFile::Unreadable("gone".to_string())), "gone");
    assert_eq!(
        problem(&|e| e.key = KeyFile::Contents("a\nb".to_string())),
        "failed to parse header value"
    );
    assert_eq!(problem(&|e| e.certificate_error = Some("bad ca".to_string())), "bad ca");
    assert_eq!(
        problem(&|e| e.protected = Some("02:aa:bb:cc:dd:ee,x".to_string())),
        "Invalid unicast MAC address"
    );
    assert_eq!(problem(&|e| e.site = Some("x".to_string())), "SCREENGUARD_UNIFI_SITE_ID");
    assert_eq!(problem(&|e| e.source = Some("x".to_string())), "SCREENGUARD_UNIFI_SOURCE_ZONE_ID");
    assert_eq!(
        problem(&|e| e.destination = Some("x".to_string())),
        "SCREENGUARD_UNIFI_DESTINATION_ZONE_ID"
    );
    let mut env = environment();
    env.key = KeyFile::Contents("caf\u{e9}\tok".to_string());
    assert_eq!(Config::load(&env).unwrap().unwrap().key, "caf\u{e9}\tok");
    env.key = KeyFile::Contents("del\u{7f}".to_string());
    assert!(Config::load(&env).is_err());
}

#[test]
fn settings_follow_from_what_was_read() {
    let env = environment();
    let parts = || UrlParts {
        scheme: "https".to_string(),
        username: String::new(),
        password: None,
        host: Some("h".to_string()),
        port: Some(443),
        path: "/".to_string(),
        query: None,
        fragment: None,
    };
    let cfg = Config::settle(&env, "https://h//", Ok(parts()), IdSetting::Unset, IdSetting::Id(id(5)), IdSetting::Unset)
        .unwrap();
    assert_eq!(cfg.base, "https://h");
    assert_eq!((cfg.site, cfg.source), (None, Some(id(5))));
    assert!(is_https_origin(&parts()));
    let mut other = parts();
    other.host = None;
    assert!(!is_https_origin(&other));
    assert_eq!(
        Config::settle(&env, "x", Err("e".to_string()), IdSetting::Unset, IdSetting::Unset, IdSetting::Unset)
            .unwrap_err(),
        "e"
    );
    assert_eq!(id_setting(&None), IdSetting::Unset);
    assert_eq!(id_setting(&Some("x".to_string())), IdSetting::Bad);
    assert_eq!(id_setting(&Some(id(9).text())), IdSetting::Id(id(9)));
}

#[test]
fn replies_are_judged_by_their_head() {
    assert!(matches!(check_reply(200, "/x", None), ReplyStep::Body));
    assert!(matches!(check_reply(200, "/x", Some(4 * 1024 * 1024)), ReplyStep::Body));
    assert!(matches!(check_reply(204, "/x", Some(u64::MAX)), ReplyStep::Nothing));
    assert!(matches!(
        check_reply(201, "/x", Some(4 * 1024 * 1024 + 1)),
        ReplyStep::Fail(e) if e == "UniFi response too large"
    ));
    assert!(matches!(
        check_reply(404, "/x", None),
        ReplyStep::Fail(e) if e == "UniFi HTTP 404 Not Found for /x; check API support and permissions"
    ));
    assert!(matches!(
        reply_step(302, "moved", "/y", None),
        ReplyStep::Fail(e) if e == "UniFi HTTP moved for /y; check API support and permissions"
    ));
    assert!(matches!(body_step(0), ReplyStep::Nothing));
    assert!(matches!(body_step(1), ReplyStep::Body));
}

fn page(total: Option<u64>, ids: &[u64]) -> Json {
    let data = ids.iter().map(|n| Json::object().with("id", Json::unsigned(*n))).collect();
    let page = Json::object().with("data", Json::Array(data));
    match total {
        Some(n) => page.with("totalCount", Json::unsigned(n)),
        None => page,
    }
}

#[test]
fn pages_of_any_size_make_one_list() {
    let mut pager = Pager::new();
    let mut offsets = Vec::new();
    loop {
        offsets.push(pager.next_request("/sites").unwrap());
        let start = match offsets.len() {
            1 => 0,
            2 => 2,
            _ => 4,
        };
        let ids: Vec<u64> = (start..(start + 2).min(5)).collect();
        match pager.accept(&page(Some(5), &ids)) {
            PageStep::More => {}
            PageStep::Done => break,
            PageStep::Broken => panic!("no list"),
        }
    }
    assert_eq!(
        offsets,
        vec!["/sites?offset=0&limit=200", "/sites?offset=2&limit=200", "/sites?offset=4&limit=200"]
    );
    let items = pager.into_items();
    let ids: Vec<u64> = items.iter().map(|r| r.field("id").as_u64().unwrap()).collect();
    assert_eq!(ids, vec![0, 1, 2, 3, 4]);
}

#[test]
fn an_empty_page_ends_a_list_and_too_many_discard_it() {
    let mut pager = Pager::new();
    assert_eq!(pager.accept(&page(None, &[1])), PageStep::More);
    assert_eq!(pager.accept(&page(None, &[])), PageStep::Done);
    assert_eq!(pager.into_items().len(), 1);
    let mut pager = Pager::new();
    for _ in 0..100 {
        assert!(pager.next_request("/x").is_ok());
        assert_eq!(pager.accept(&page(None, &[1])), PageStep::More);
    }
    assert_eq!(
        pager.next_request("/x"),
        Err("UniFi pagination limit exceeded; incomplete snapshot discarded".to_string())
    );
    let mut pager = Pager::new();
    assert_eq!(pager.accept(&Json::object()), PageStep::Broken);
    assert_eq!(broken_page(), "UniFi list response has no data array");
}

#[test]
fn links_need_a_known_mode_and_a_profile() {
    let link = |profile_id: Option<Uuid>, mode: &str| Binding {
        profile_id,
        mode: mode.to_string(),
        excluded: false,
    };
    let says = |s: BindStep, m: &str| matches!(s, BindStep::Fail(e) if e == m);
    assert!(says(bind(&link(None, "watch"), None), "Unknown mode"));
    assert!(says(bind(&link(None, "block"), None), "A profile is required for enforcement"));
    assert!(says(bind(&link(None, "follow"), None), "A profile is required for enforcement"));
    assert!(matches!(bind(&link(None, "observe"), None), BindStep::Update));
    assert!(matches!(bind(&link(Some(id(4)), "block"), None), BindStep::AskProfile(p) if p == id(4)));
    assert!(says(bind(&link(Some(id(4)), "observe"), Some(false)), "Profile does not exist"));
    assert!(matches!(bind(&link(Some(id(4)), "follow"), Some(true)), BindStep::Update));
    assert_eq!(bound(0), Err("Discover the client before linking it".to_string()));
    assert_eq!(bound(1), Ok("binding_changed".to_string()));
}

#[test]
fn rows_as_they_are_shown() {
    let row = ClientRow {
        mac: MAC.to_string(),
        data: Json::object().with("ip", text("10.0.0.2")),
        last_seen: -5,
        profile_id: None,
        mode: "observe".to_string(),
        excluded: 1,
        policy_id: Some("p".to_string()),
        result: "r".to_string(),
    };
    let shown = clients(&vec![row]);
    assert_eq!(shown.len(), 1);
    let c = &shown[0];
    assert!(c.field("mac").is_text(MAC));
    assert!(c.field("data").field("ip").is_text("10.0.0.2"));
    assert!(c.field("last_seen").equals(&Json::Number(Number::Negative(-5))));
    assert!(c.field("profile_id").is_null());
    assert!(c.field("excluded").is_true());
    assert!(c.field("policy_id").is_text("p"));
    assert!(c.field("mode").is_text("observe") && c.field("result").is_text("r"));
    let shown = events(&vec![EventRow { at: 3, mac: MAC.to_string(), action: "a".to_string() }]);
    assert!(shown[0].equals(
        &Json::object().with("at", Json::unsigned(3)).with("mac", text(MAC)).with("action", text("a"))
    ));
}

#[test]
fn discovered_clients_keep_what_is_shown() {
    let c = Json::object()
        .with("macAddress", text("02-AA-BB-CC-DD-EE"))
        .with("id", text("i"))
        .with("name", text("n"))
        .with("ipAddress", text("10.0.0.9"))
        .with("secret", text("s"));
    let record = client_record(&c).unwrap();
    assert_eq!(record.mac, "02:aa:bb:cc:dd:ee");
    assert!(record.data.field("ip").is_text("10.0.0.9"));
    assert!(record.data.field("secret").is_null());
    assert!(record.data.field("type").is_null());
    assert!(client_record(&Json::object()).is_none());
    assert!(client_record(&Json::object().with("macAddress", text("ff:ff:ff:ff:ff:ff"))).is_none());
}

#[test]
fn devices_with_statistics() {
    let device = |n: u128| Json::object().with("id", text(&id(n).text())).with("name", text("sw"));
    let mut list = vec![
        Json::object().with("id", text("no")),
        Json::object().with("id", text(&id(1).text())),
    ];
    for n in 2..80 {
        list.push(device(n));
    }
    let snapshot = Json::object().with("devices", Json::Array(list));
    let devices = statistics_devices(&snapshot);
    assert_eq!(devices.len(), 63);
    assert_eq!(devices[0], (id(1), "UniFi".to_string()));
    assert_eq!(devices[62], (id(63), "sw".to_string()));
    assert!(statistics_devices(&Json::object()).is_empty());
    assert_eq!(statistics_device(&device(5), Ok(id(6))), Some((id(6), "sw".to_string())));
    assert_eq!(statistics_device(&device(5), Err("e".to_string())), None);
    assert_eq!(statistics_path("/sites/s", "d"), "/sites/s/devices/d/statistics/latest");
}

#[test]
fn statistics_as_they_are_shown() {
    let stats = Json::object()
        .with("cpuUtilizationPct", Json::unsigned(7))
        .with("uplink", Json::object().with("rxRateBps", Json::unsigned(8)));
    let shown = statistics_entry("i", "n", &Ok(stats));
    let expected = Json::object()
        .with("id", text("i"))
        .with("name", text("n"))
        .with("cpu", Json::unsigned(7))
        .with("memory", Json::Null)
        .with("uptime", Json::Null)
        .with("rx_bps", Json::unsigned(8))
        .with("tx_bps", Json::Null);
    assert!(shown.equals(&expected));
    let failed = statistics_entry("i", "n", &Err("e".to_string()));
    assert!(failed.equals(
        &Json::object().with("id", text("i")).with("name", text("n")).with("error", text("e"))
    ));
}

fn path(step: Step) -> String {
    match step {
        Step::List(p) => p,
        other => panic!("{other:?}"),
    }
}

#[test]
fn a_synchronisation_from_start_to_end() {
    let mut cfg = config();
    cfg.protected.push(MAC.to_string());
    let mut sync = Sync::start(&cfg);
    let site = id(1).text();
    let root = format!("/sites/{site}");
    let scope = match sync.next(Answer::List(Ok(vec![Json::Null])), 1000) {
        Step::Scope(s) => s,
        other => panic!("{other:?}"),
    };
    assert_eq!(scope, format!("http://controller|{site}"));
    assert_eq!(path(sync.next(Answer::Scope(scope), 1001)), format!("{root}/clients"));
    assert_eq!(sync.root(), root);
    let found = vec![
        Json::object().with("macAddress", text(MAC)),
        Json::object().with("macAddress", text("junk")),
    ];
    match sync.next(Answer::List(Ok(found)), 1002) {
        Step::Store(records) => {
            assert_eq!(records.len(), 1);
            assert_eq!(records[0].mac, MAC);
        }
        other => panic!("{other:?}"),
    }
    assert_eq!(path(sync.next(Answer::Stored, 1003)), format!("{root}/firewall/zones"));
    assert_eq!(path(sync.next(Answer::List(Err("no zones".to_string())), 1004)), format!("{root}/networks"));
    assert_eq!(path(sync.next(Answer::List(Ok(vec![])), 1005)), format!("{root}/devices"));
    let devices = vec![Json::object().with("id", text(&id(8).text()))];
    match sync.next(Answer::List(Ok(devices)), 1006) {
        Step::Statistics(list) => assert_eq!(list, vec![(id(8), "UniFi".to_string())]),
        other => panic!("{other:?}"),
    }
    assert_eq!(
        path(sync.next(Answer::Statistics(vec![Json::Bool(true)]), 1007)),
        format!("{root}/firewall/policies")
    );
    match sync.next(Answer::List(Ok(vec![Json::Null, Json::Null])), 1008) {
        Step::Publish(snapshot, policies) => {
            assert_eq!(policies.unwrap().len(), 2);
            let expected = Json::object()
                .with("configured", Json::Bool(true))
                .with("url", text("http://controller"))
                .with("sites", Json::Array(vec![Json::Null]))
                .with("enforcement", Json::Bool(true))
                .with("last_sync", Json::unsigned(1000))
                .with("stale", Json::Bool(false))
                .with("connected_clients", Json::unsigned(2))
                .with("site_id", text(&site))
                .with("zones_error", text("no zones"))
                .with("networks", Json::Array(vec![]))
                .with("devices", Json::Array(vec![Json::object().with("id", text(&id(8).text()))]))
                .with("statistics", Json::Array(vec![Json::Bool(true)]))
                .with("protected_macs", Json::Array(vec![text(MAC)]))
                .with("firewall_api_available", Json::Bool(true))
                .with("policy_count", Json::unsigned(2));
            assert!(snapshot.equals(&expected), "{snapshot:?}");
        }
        other => panic!("{other:?}"),
    }
}

#[test]
fn synchronisations_that_end_early() {
    let mut sync = Sync::with_site("http://c".to_string(), None, false, vec![]);
    match sync.next(Answer::List(Ok(vec![])), -1) {
        Step::Publish(snapshot, policies) => {
            assert!(policies.is_none());
            assert!(snapshot.field("last_sync").equals(&Json::signed(-1)));
        }
        other => panic!("{other:?}"),
    }
    let mut sync = Sync::with_site("http://c".to_string(), Some("s".to_string()), false, vec![]);
    assert!(matches!(sync.next(Answer::List(Err("down".to_string())), 0), Step::Fail(e) if e == "down"));
    assert!(matches!(sync.next(Answer::List(Ok(vec![])), 0), Step::Scope(_)));
    assert!(matches!(
        sync.next(Answer::Scope("http://other|s".to_string()), 0),
        Step::Fail(e) if e == "Controller/site changed; clean up existing rules and mappings before migration"
    ));
}

#[test]
fn rules_that_cannot_be_read_are_published_as_missing() {
    let mut sync = Sync::with_site("http://c".to_string(), Some("s".to_string()), false, vec![]);
    sync.next(Answer::List(Ok(vec![])), 0);
    sync.next(Answer::Scope("http://c|s".to_string()), 0);
    sync.next(Answer::List(Ok(vec![])), 0);
    sync.next(Answer::Stored, 0);
    for _ in 0..3 {
        sync.next(Answer::List(Err("denied".to_string())), 0);
    }
    sync.next(Answer::Statistics(vec![]), 0);
    match sync.next(Answer::List(Err("denied".to_string())), 0) {
        Step::Publish(snapshot, policies) => {
            assert!(policies.is_none());
            assert!(snapshot.field("firewall_api_available").equals(&Json::Bool(false)));
            assert!(snapshot.field("firewall_error").is_text("denied"));
            assert!(snapshot.field("devices_error").is_text("denied"));
        }
        other => panic!("{other:?}"),
    }
}

#[test]
fn a_failure_marks_the_snapshot_and_keeps_it() {
    let mut snapshot = unconfigured();
    mark_stale(&mut snapshot, "down");
    assert!(snapshot.equals(
        &Json::object()
            .with("configured", Json::Bool(false))
            .with("enforcement", Json::Bool(false))
            .with("error", text("down"))
            .with("stale", Json::Bool(true))
    ));
    let mut nothing = Json::Null;
    mark_stale(&mut nothing, "x");
    assert!(nothing.field("error").is_text("x") && nothing.field("stale").is_true());
}

#[test]
fn results_and_events() {
    assert_eq!(status_text(Ok("fine".to_string())), "fine");
    assert_eq!(status_text(Err("bad".to_string())), "error: bad");
    assert!(!is_news(&client(Json::Null), "observe"));
    assert!(is_news(&client(Json::Null), "else"));
    assert!(is_news(&Json::object(), "observe"));
    assert_eq!(events_cutoff(2_592_001), 1);
}

#[test]
fn replies_to_requests() {
    let shown = api::status(Json::Bool(true), vec![Json::Null], vec![]);
    assert!(shown.equals(
        &Json::object()
            .with("connection", Json::Bool(true))
            .with("clients", Json::Array(vec![Json::Null]))
            .with("events", Json::Array(vec![]))
    ));
    let queued = api::sync();
    assert_eq!(queued.code, 202);
    assert!(queued.body.field("message").is_text("Sync queued"));
    assert_eq!(api::binding(MAC, false).unwrap(), MAC);
    let bad = api::binding("x", true).unwrap_err();
    assert_eq!(bad.code, 400);
    assert!(bad.body.field("error").is_text("Invalid unicast MAC address"));
    let busy = api::binding(MAC, true).unwrap_err();
    assert_eq!(busy.code, 409);
    assert!(busy.body.field("error").is_text("UniFi synchronisatie bezig; probeer het zo opnieuw"));
    let saved = api::binding_done(Ok(String::new())).unwrap();
    assert!(saved.field("message").is_text("Binding saved; application pending"));
    let refused = api::binding_done(Err("Unknown mode".to_string())).unwrap_err();
    assert_eq!(refused.code, 400);
    assert!(refused.body.field("error").is_text("Unknown mode"));
    assert_eq!(api::refused(418, "tea").code, 418);
}

#[test]
fn the_later_entry_of_a_key_counts() {
    let mut v = Json::Null;
    v.set("a", Json::unsigned(1));
    v.set("a", Json::unsigned(2));
    assert_eq!(v.field("a").as_u64(), Some(2));
    assert!(v.equals(&Json::object().with("a", Json::unsigned(2))));
    assert!(!v.equals(&Json::object().with("a", Json::unsigned(1))));
    assert!(Json::Number(Number::Negative(-1)).as_u64().is_none());
    assert!(v.field("missing").is_null() && v.field("a").field("b").is_null());
}

#[test]
fn the_administrator_has_a_time_zone() {
    let now = admin_time("Europe/Amsterdam", 1_789_380_000, 0).unwrap();
    assert_eq!(now.time.secs, 12 * 3600);
    assert_eq!(admin_time("Mars/Base", 0, 0), Err("Invalid administrator timezone".to_string()));
}
