//! The UniFi controller: clients by their MAC address, block rules and their ownership.
use vstd::prelude::*;

use crate::clock::{zone_time, LocalTime, FIRST_SECOND, LAST_SECOND};
use crate::ids::{uuid_text, Uuid};
use crate::json::{field, strip, with_field, without_nulls, Json, JsonView};
use crate::policy::{lemma_first_limit, lemma_no_limit, limit_for, DailyLimit, Window};
use crate::text::{
    chars_of, is_hex, lower, lower_char, lowered, replaced, string_of, trim, trim_end, trim_start, trimmed,
    white_space, with_replaced,
};

pub mod api;
pub mod clients;
pub mod config;
pub mod reconcile;
pub mod sync;

verus! {

/// Whether a character stands where a MAC address has its colons.
pub open spec fn colon_place(i: int) -> bool {
    i % 3 == 2
}

/// Whether an address is that of one device, in lower case with colons: six bytes, the
/// first of them even, not all of them zero.
pub open spec fn unicast(m: Seq<char>) -> bool {
    &&& m.len() == 17
    &&& forall|i: int|
        0 <= i < 17 ==> if colon_place(i) {
            #[trigger] m[i] == ':'
        } else {
            is_hex(m[i])
        }
    &&& even_digit(m[1])
    &&& m != "00:00:00:00:00:00"@
}

/// Whether a hexadecimal digit is even.
pub open spec fn even_digit(c: char) -> bool {
    c == '0' || c == '2' || c == '4' || c == '6' || c == '8' || c == 'a' || c == 'c' || c == 'e'
}

/// How a MAC address is written: in lower case, with colons, without white space around.
pub open spec fn mac_form(value: Seq<char>) -> Seq<char> {
    replaced(lower(trim(value)), '-', ':')
}

/// The MAC address that a text gives; none where it is not the address of one device.
pub open spec fn mac_of(value: Seq<char>) -> Option<Seq<char>> {
    if unicast(mac_form(value)) {
        Some(mac_form(value))
    } else {
        None
    }
}

/// What is said of a text that is not the address of one device.
pub open spec fn mac_error() -> Seq<char> {
    "Invalid unicast MAC address"@
}

/// The MAC address that a text gives, in lower case with colons; an error where it is not
/// the address of one device.
pub fn normalize_mac(value: &str) -> (r: Result<String, String>)
    ensures
        match r {
            Ok(mac) => mac_of(value@) == Some(mac@),
            Err(e) => mac_of(value@) is None && e@ == mac_error(),
        },
{
    let chars = chars_of(value);
    let bare = trimmed(&chars);
    let low = lowered(&bare);
    let mac = with_replaced(&low, '-', ':');
    if is_unicast(&mac) {
        Ok(string_of(&mac))
    } else {
        Err("Invalid unicast MAC address".to_owned())
    }
}

/// Whether an address is that of one device.
fn is_unicast(m: &Vec<char>) -> (r: bool)
    ensures
        r == unicast(m@),
{
    if m.len() != 17 {
        return false;
    }
    let mut zero = true;
    for i in 0..17usize
        invariant
            m.len() == 17,
            forall|j: int|
                0 <= j < i ==> if colon_place(j) {
                    #[trigger] m@[j] == ':'
                } else {
                    is_hex(m@[j])
                },
            zero == (forall|j: int|
                0 <= j < i ==> #[trigger] m@[j] == (if colon_place(j) {
                    ':'
                } else {
                    '0'
                })),
    {
        let c = m[i];
        if i % 3 == 2 {
            if c != ':' {
                assert(!(m@[i as int] == ':'));
                return false;
            }
        } else {
            if !(('0' <= c && c <= '9') || ('a' <= c && c <= 'f') || ('A' <= c && c <= 'F')) {
                assert(!is_hex(m@[i as int]));
                return false;
            }
            if c != '0' {
                zero = false;
            }
        }
        assert(m@[i as int] == c);
    }
    let d = m[1];
    let even = d == '0' || d == '2' || d == '4' || d == '6' || d == '8' || d == 'a' || d == 'c' || d == 'e';
    proof {
        reveal_strlit("00:00:00:00:00:00");
        let zeros = "00:00:00:00:00:00"@;
        assert(forall|j: int|
            0 <= j < 17 ==> #[trigger] zeros[j] == (if colon_place(j) {
                ':'
            } else {
                '0'
            }));
        if zero {
            assert(m@ =~= zeros);
        } else {
            assert(m@ != zeros) by {
                if m@ == zeros {
                    assert forall|j: int| 0 <= j < 17 implies #[trigger] m@[j] == (if colon_place(j) {
                        ':'
                    } else {
                        '0'
                    }) by {
                        assert(zeros[j] == m@[j]);
                    }
                }
            }
        }
    }
    even && !zero
}

/// A text without white space at its ends is not changed by trimming.
proof fn lemma_trim_same(s: Seq<char>)
    requires
        s.len() > 0 ==> !white_space(s[0]) && !white_space(s.last()),
    ensures
        trim(s) == s,
{
    assert(trim_start(s) == s);
    assert(trim_end(s) == s);
}

/// An address that was written in the usual form is left as it is.
pub proof fn law_mac_form_is_stable(value: Seq<char>)
    requires
        mac_of(value) is Some,
    ensures
        mac_of(mac_of(value)->Some_0) == mac_of(value),
{
    let m = mac_form(value);
    let before = lower(trim(value));
    assert(is_hex(m[0])) by {
        assert(!colon_place(0));
    }
    assert(is_hex(m[16])) by {
        assert(!colon_place(16));
    }
    lemma_trim_same(m);
    assert forall|i: int| 0 <= i < 17 implies lower_char(#[trigger] m[i]) == m[i] by {
        assert(before[i] == lower_char(trim(value)[i]));
        assert(m[i] == (if before[i] == '-' {
            ':'
        } else {
            before[i]
        }));
    }
    assert(lower(m) =~= m);
    assert forall|i: int| 0 <= i < 17 implies #[trigger] m[i] != '-' by {
        if colon_place(i) {
        } else {
            assert(is_hex(m[i]));
        }
    }
    assert(replaced(m, '-', ':') =~= m);
}

/// Whether use up to now, or the schedule, blocks a user: the day's minutes and what was
/// granted are used up, or no window is open.
pub fn policy_blocked(limit: i32, adjustment: i32, used: i64, in_window: bool) -> (r: bool)
    ensures
        r == blocked_by(limit as int, adjustment as int, used as int, in_window),
{
    let minutes: i64 = limit as i64 + adjustment as i64;
    let allowed: i64 = if minutes > 0 {
        minutes * 60
    } else {
        0
    };
    !in_window || used >= allowed
}

/// The use is blocked outside the windows, and once the allowed minutes are used up.
pub open spec fn blocked_by(limit: int, adjustment: int, used: int, in_window: bool) -> bool {
    let minutes = if limit + adjustment > 0 {
        limit + adjustment
    } else {
        0
    };
    !in_window || used >= minutes * 60
}

/// Whether a window is open: on its weekday, from its start up to its end exclusive.
pub open spec fn open_now(w: Window, now: LocalTime) -> bool {
    &&& w.day_of_week == now.date.weekday_number()
    &&& w.start matches Some(start) && start.not_after(now.time)
    &&& w.end matches Some(end) && !end.not_after(now.time)
}

/// Whether the schedule is open: there is none, or one of its windows is open.
pub open spec fn in_schedule(windows: Seq<Window>, now: LocalTime) -> bool {
    windows.len() == 0 || exists|i: int| 0 <= i < windows.len() && open_now(#[trigger] windows[i], now)
}

/// The minutes of the weekday; the whole day where there is no limit for it.
pub open spec fn minutes_of_day(limits: Seq<DailyLimit>, now: LocalTime) -> int {
    match limit_for(limits, now.date.weekday_number()) {
        Some(minutes) => minutes,
        None => 1440,
    }
}

/// Whether the profile that a client follows is blocked at a moment: outside its schedule,
/// and once the minutes of the weekday and the granted ones are used up.
pub open spec fn profile_is_blocked(
    now: LocalTime,
    limits: Seq<DailyLimit>,
    adjustment: int,
    used: int,
    windows: Seq<Window>,
) -> bool {
    blocked_by(minutes_of_day(limits, now), adjustment, used, in_schedule(windows, now))
}

/// Whether the profile that a client follows is blocked at a moment, given the day's
/// adjustment and use.
pub fn profile_blocked(
    now: &LocalTime,
    limits: &Vec<DailyLimit>,
    adjustment: i32,
    used: i64,
    windows: &Vec<Window>,
) -> (r: bool)
    requires
        now.valid(),
    ensures
        r == profile_is_blocked(*now, limits@, adjustment as int, used as int, windows@),
{
    let weekday = now.date.weekday();
    let mut limit: i32 = 1440;
    let mut known = false;
    let mut i: usize = 0;
    assert(limits@.skip(0) == limits@);
    while i < limits.len() && !known
        invariant
            i <= limits.len(),
            weekday == now.date.weekday_number(),
            !known ==> limit == 1440 && limit_for(limits@.skip(i as int), weekday as int) == limit_for(
                limits@,
                weekday as int,
            ),
            known ==> limit_for(limits@, weekday as int) == Some(limit as int),
        decreases limits.len() - i,
    {
        assert(limits@.skip(i as int).drop_first() == limits@.skip(i + 1));
        if limits[i].day_of_week == weekday {
            limit = limits[i].allowed_minutes;
            known = true;
        }
        i += 1;
    }
    let mut open = windows.len() == 0;
    for j in 0..windows.len()
        invariant
            weekday == now.date.weekday_number(),
            open == (windows.len() == 0 || exists|k: int|
                0 <= k < j && open_now(#[trigger] windows@[k], *now)),
    {
        let w = &windows[j];
        let this = w.day_of_week == weekday && match (w.start, w.end) {
            (Some(start), Some(end)) => start.up_to(&now.time) && !end.up_to(&now.time),
            _ => false,
        };
        assert(this == open_now(windows@[j as int], *now));
        if this {
            open = true;
        }
    }
    policy_blocked(limit, adjustment, used, open)
}

/// What a clock in the administrator's time zone shows at a moment, or what is wrong with
/// the name of that zone.
pub fn admin_time(zone: &str, secs: i64, nanos: u32) -> (r: Result<LocalTime, String>)
    requires
        FIRST_SECOND <= secs <= LAST_SECOND,
        nanos < 1_000_000_000,
    ensures
        match zone_time(zone@, secs, nanos) {
            Some(t) => r is Ok && r->Ok_0 == t && t.valid(),
            None => r is Err && r->Err_0@ == "Invalid administrator timezone"@,
        },
{
    match LocalTime::in_zone(zone, secs, nanos) {
        Some(t) => Ok(t),
        None => Err("Invalid administrator timezone".to_owned()),
    }
}

/// More use never lifts a block, and more minutes never set one.
pub proof fn law_block_grows_with_use(limit: int, adjustment: int, used: int, more: int, extra: int, open: bool)
    requires
        more >= 0,
        extra >= 0,
    ensures
        blocked_by(limit, adjustment, used, open) ==> blocked_by(limit, adjustment, used + more, open),
        blocked_by(limit, adjustment + extra, used, open) ==> blocked_by(limit, adjustment, used, open),
{
}

/// A profile with a schedule is blocked whenever none of its windows holds the moment: each is
/// for another weekday, cannot be read, has not begun, or is over. Neither the limit nor what
/// was granted or used changes that.
pub proof fn law_no_open_window_blocks(
    now: LocalTime,
    limits: Seq<DailyLimit>,
    adjustment: int,
    used: int,
    windows: Seq<Window>,
)
    requires
        now.valid(),
        windows.len() > 0,
        forall|i: int|
            0 <= i < windows.len() ==> {
                ||| (#[trigger] windows[i]).day_of_week as int != (now.date.days - 1) % 7
                ||| windows[i].start is None
                ||| windows[i].end is None
                ||| now.time.secs < windows[i].start->Some_0.secs
                ||| now.time.secs == windows[i].start->Some_0.secs && now.time.nanos < windows[i].start->Some_0.nanos
                ||| now.time.secs > windows[i].end->Some_0.secs
                ||| now.time.secs == windows[i].end->Some_0.secs && now.time.nanos >= windows[i].end->Some_0.nanos
            },
    ensures
        profile_is_blocked(now, limits, adjustment, used, windows),
{
    assert forall|i: int| 0 <= i < windows.len() implies !open_now(#[trigger] windows[i], now) by {
    }
}

/// Without a schedule, or while one of its windows holds the moment, the first limit of the
/// weekday decides: a profile is blocked exactly where its use, which is not negative, has
/// come to the minutes of the limit and the granted ones together.
pub proof fn law_used_up_minutes_block(
    now: LocalTime,
    limits: Seq<DailyLimit>,
    j: int,
    adjustment: int,
    used: int,
    windows: Seq<Window>,
    i: int,
)
    requires
        now.valid(),
        used >= 0,
        0 <= j < limits.len(),
        limits[j].day_of_week as int == (now.date.days - 1) % 7,
        forall|k: int| 0 <= k < j ==> (#[trigger] limits[k]).day_of_week as int != (now.date.days - 1) % 7,
        windows.len() == 0 || {
            &&& 0 <= i < windows.len()
            &&& windows[i].day_of_week as int == (now.date.days - 1) % 7
            &&& windows[i].start is Some && windows[i].end is Some
            &&& windows[i].start->Some_0.secs < now.time.secs || (windows[i].start->Some_0.secs == now.time.secs
                && windows[i].start->Some_0.nanos <= now.time.nanos)
            &&& now.time.secs < windows[i].end->Some_0.secs || (now.time.secs == windows[i].end->Some_0.secs
                && now.time.nanos < windows[i].end->Some_0.nanos)
        },
    ensures
        profile_is_blocked(now, limits, adjustment, used, windows) <==> used - 60 * adjustment >= 60
            * limits[j].allowed_minutes,
{
    lemma_first_limit(limits, (now.date.days - 1) % 7, j);
    if windows.len() > 0 {
        assert(open_now(windows[i], now));
    }
}

/// A weekday without a limit has the whole day's minutes.
pub proof fn law_a_day_without_limit_has_all_its_minutes(
    now: LocalTime,
    limits: Seq<DailyLimit>,
    adjustment: int,
    used: int,
)
    requires
        now.valid(),
        used >= 0,
        forall|k: int| 0 <= k < limits.len() ==> (#[trigger] limits[k]).day_of_week as int != (now.date.days - 1) % 7,
    ensures
        profile_is_blocked(now, limits, adjustment, used, Seq::empty()) <==> used - 60 * adjustment >= 86_400,
{
    lemma_no_limit(limits, (now.date.days - 1) % 7);
}

/// An object without entries.
pub open spec fn empty_object() -> JsonView {
    JsonView::Object(Map::empty())
}

/// An object with one entry.
pub open spec fn single(key: Seq<char>, value: JsonView) -> JsonView {
    with_field(empty_object(), key, value)
}

/// The source of a block rule: one address in a zone.
pub open spec fn rule_source(mac: Seq<char>, zone: Seq<char>) -> JsonView {
    let addresses = single("macAddresses"@, JsonView::Array(seq![JsonView::Text(mac)]));
    let filter = with_field(
        single("type"@, JsonView::Text("MAC_ADDRESS"@)),
        "macAddressFilter"@,
        addresses,
    );
    with_field(single("zoneId"@, JsonView::Text(zone)), "trafficFilter"@, filter)
}

/// The rule that blocks one address from one zone to another, for both versions of the
/// internet protocol.
pub open spec fn rule_view(
    name: Seq<char>,
    mac: Seq<char>,
    source: Seq<char>,
    destination: Seq<char>,
) -> JsonView {
    let a = single("name"@, JsonView::Text(name));
    let b = with_field(a, "description"@, JsonView::Text(name));
    let c = with_field(b, "enabled"@, JsonView::Bool(true));
    let d = with_field(c, "loggingEnabled"@, JsonView::Bool(false));
    let e = with_field(d, "action"@, single("type"@, JsonView::Text("BLOCK"@)));
    let f = with_field(e, "ipProtocolScope"@, single("ipVersion"@, JsonView::Text("IPV4_AND_IPV6"@)));
    let g = with_field(f, "source"@, rule_source(mac, source));
    with_field(g, "destination"@, single("zoneId"@, JsonView::Text(destination)))
}

/// The rule that blocks one address, between zones given by their text.
pub fn rule_between(name: &str, mac: &str, source: &str, destination: &str) -> (r: Json)
    ensures
        r@ == rule_view(name@, mac@, source@, destination@),
{
    let mut list: Vec<Json> = Vec::new();
    let ghost empty = list@;
    list.push(Json::text(mac));
    proof {
        assert(list@.drop_last() == empty);
        assert(crate::json::items_view(empty) == Seq::<JsonView>::empty());
        assert(crate::json::items_view(list@) == seq![JsonView::Text(mac@)]);
    }
    let addresses = Json::object().with("macAddresses", Json::Array(list));
    let filter = Json::object().with("type", Json::text("MAC_ADDRESS")).with("macAddressFilter", addresses);
    let from = Json::object().with("zoneId", Json::text(source)).with("trafficFilter", filter);
    let action = Json::object().with("type", Json::text("BLOCK"));
    let scope = Json::object().with("ipVersion", Json::text("IPV4_AND_IPV6"));
    let to = Json::object().with("zoneId", Json::text(destination));
    Json::object().with("name", Json::text(name)).with("description", Json::text(name)).with(
        "enabled",
        Json::Bool(true),
    ).with("loggingEnabled", Json::Bool(false)).with("action", action).with("ipProtocolScope", scope).with(
        "source",
        from,
    ).with("destination", to)
}

/// The rule that blocks one address from one zone to another.
pub fn rule(name: &str, mac: &str, source: Uuid, destination: Uuid) -> (r: Json)
    ensures
        r@ == rule_view(name@, mac@, uuid_text(source.bits), uuid_text(destination.bits)),
{
    let from = source.text();
    let to = destination.text();
    rule_between(name, mac, from.as_str(), to.as_str())
}

/// Whether two values have the same under a key, apart from entries that are null.
pub open spec fn same_under(a: JsonView, b: JsonView, key: Seq<char>) -> bool {
    strip(field(a, key)) == strip(field(b, key))
}

/// Whether a rule of the controller is the expected one: the same in everything that a
/// block rule says, and free of a schedule or a filter that would narrow it.
pub open spec fn owned(actual: JsonView, expected: JsonView) -> bool {
    &&& same_under(actual, expected, "name"@)
    &&& same_under(actual, expected, "description"@)
    &&& same_under(actual, expected, "enabled"@)
    &&& same_under(actual, expected, "loggingEnabled"@)
    &&& same_under(actual, expected, "action"@)
    &&& same_under(actual, expected, "ipProtocolScope"@)
    &&& same_under(actual, expected, "source"@)
    &&& same_under(actual, expected, "destination"@)
    &&& field(actual, "schedule"@) == JsonView::Null
    &&& field(actual, "connectionStateFilter"@) == JsonView::Null
    &&& field(actual, "ipsecFilter"@) == JsonView::Null
}

/// Whether two values have the same under a key, apart from entries that are null.
fn equal_under(a: &Json, b: &Json, key: &str) -> (r: bool)
    ensures
        r == same_under(a@, b@, key@),
{
    let x = without_nulls(a.field(key));
    let y = without_nulls(b.field(key));
    x.equals(&y)
}

/// Whether a rule of the controller is the expected one.
pub fn owned_matches(actual: &Json, expected: &Json) -> (r: bool)
    ensures
        r == owned(actual@, expected@),
{
    equal_under(actual, expected, "name") && equal_under(actual, expected, "description") && equal_under(
        actual,
        expected,
        "enabled",
    ) && equal_under(actual, expected, "loggingEnabled") && equal_under(actual, expected, "action")
        && equal_under(actual, expected, "ipProtocolScope") && equal_under(actual, expected, "source")
        && equal_under(actual, expected, "destination") && actual.field("schedule").is_null()
        && actual.field("connectionStateFilter").is_null() && actual.field("ipsecFilter").is_null()
}

/// A null is dropped from an object once; dropping again changes nothing.
pub proof fn law_dropping_nulls_twice_is_dropping_once(v: JsonView)
    ensures
        strip(strip(v)) == strip(v),
    decreases v,
{
    match v {
        JsonView::Array(s) => {
            let once = strip(v)->Array_0;
            assert forall|i: int| 0 <= i < s.len() implies strip(#[trigger] once[i]) == once[i] by {
                law_dropping_nulls_twice_is_dropping_once(s[i]);
            }
            assert(strip(strip(v))->Array_0 =~= once);
        },
        JsonView::Object(m) => {
            let once = strip(v)->Object_0;
            assert forall|k: Seq<char>| #[trigger] once.dom().contains(k) implies strip(once[k]) == once[k]
                && once[k] != JsonView::Null by {
                law_dropping_nulls_twice_is_dropping_once(m[k]);
            }
            assert(strip(strip(v))->Object_0 =~= once);
        },
        _ => {},
    }
}

/// What an object without its nulls has under a key is what it had there, without nulls.
proof fn lemma_strip_field(v: JsonView, key: Seq<char>)
    ensures
        field(strip(v), key) == strip(field(v, key)),
{
    match v {
        JsonView::Object(m) => {
            let once = strip(v)->Object_0;
            assert(once.dom().contains(key) <==> m.dom().contains(key) && m[key] != JsonView::Null);
        },
        _ => {},
    }
}

/// Ownership does not depend on whether the controller leaves an absent field out or
/// writes it as null.
pub proof fn law_ownership_ignores_nulls(actual: JsonView, expected: JsonView)
    ensures
        owned(strip(actual), expected) == owned(actual, expected),
{
    assert forall|k: Seq<char>| same_under(strip(actual), expected, k) == #[trigger] same_under(
        actual,
        expected,
        k,
    ) by {
        lemma_strip_field(actual, k);
        law_dropping_nulls_twice_is_dropping_once(field(actual, k));
    }
    assert forall|k: Seq<char>|
        (field(strip(actual), k) == JsonView::Null) == (#[trigger] field(actual, k) == JsonView::Null) by {
        lemma_strip_field(actual, k);
    }
}

/// A rule is owned as it was written, also once the controller has numbered it.
pub proof fn law_own_rule_is_owned(
    name: Seq<char>,
    mac: Seq<char>,
    source: Seq<char>,
    destination: Seq<char>,
    id: JsonView,
)
    ensures
        owned(
            with_field(rule_view(name, mac, source, destination), "id"@, id),
            rule_view(name, mac, source, destination),
        ),
{
    lemma_rule_keys();
}

/// Of two block rules, one is taken for the other exactly where they have the same name,
/// address and zones.
pub proof fn law_ownership_tells_rules_apart(
    name: Seq<char>,
    mac: Seq<char>,
    source: Seq<char>,
    destination: Seq<char>,
    name2: Seq<char>,
    mac2: Seq<char>,
    source2: Seq<char>,
    destination2: Seq<char>,
)
    ensures
        owned(rule_view(name, mac, source, destination), rule_view(name2, mac2, source2, destination2)) == (name
            == name2 && mac == mac2 && source == source2 && destination == destination2),
{
    lemma_rule_keys();
    let a = rule_view(name, mac, source, destination);
    let b = rule_view(name2, mac2, source2, destination2);
    if owned(a, b) {
        assert(field(a, "name"@) == JsonView::Text(name));
        assert(field(b, "name"@) == JsonView::Text(name2));
        lemma_strip_field(field(a, "destination"@), "zoneId"@);
        lemma_strip_field(field(b, "destination"@), "zoneId"@);
        lemma_strip_field(field(a, "source"@), "zoneId"@);
        lemma_strip_field(field(b, "source"@), "zoneId"@);
        assert(field(field(a, "source"@), "zoneId"@) == JsonView::Text(source));
        assert(field(field(b, "source"@), "zoneId"@) == JsonView::Text(source2));
        assert(field(field(a, "destination"@), "zoneId"@) == JsonView::Text(destination));
        assert(field(field(b, "destination"@), "zoneId"@) == JsonView::Text(destination2));
        let fa = field(field(a, "source"@), "trafficFilter"@);
        let fb = field(field(b, "source"@), "trafficFilter"@);
        lemma_strip_field(field(a, "source"@), "trafficFilter"@);
        lemma_strip_field(field(b, "source"@), "trafficFilter"@);
        lemma_strip_field(fa, "macAddressFilter"@);
        lemma_strip_field(fb, "macAddressFilter"@);
        let ga = field(fa, "macAddressFilter"@);
        let gb = field(fb, "macAddressFilter"@);
        lemma_strip_field(ga, "macAddresses"@);
        lemma_strip_field(gb, "macAddresses"@);
        let la = field(ga, "macAddresses"@);
        let lb = field(gb, "macAddresses"@);
        assert(la == JsonView::Array(seq![JsonView::Text(mac)]));
        assert(lb == JsonView::Array(seq![JsonView::Text(mac2)]));
        assert(strip(JsonView::Text(mac)) == JsonView::Text(mac));
        assert(strip(JsonView::Text(mac2)) == JsonView::Text(mac2));
        assert(strip(la)->Array_0[0] == JsonView::Text(mac));
        assert(strip(lb)->Array_0[0] == JsonView::Text(mac2));
    }
}

/// The keys of a block rule are different from each other and from those that a block
/// rule must not have.
pub proof fn lemma_rule_keys()
    ensures
        "name"@.len() == 4,
        "description"@.len() == 11,
        "enabled"@.len() == 7,
        "loggingEnabled"@.len() == 14,
        "action"@.len() == 6 && "action"@[0] == 'a',
        "ipProtocolScope"@.len() == 15,
        "source"@.len() == 6 && "source"@[0] == 's',
        "destination"@.len() == 11 && "destination"@[3] == 't',
        "description"@[3] == 'c',
        "schedule"@.len() == 8,
        "connectionStateFilter"@.len() == 21,
        "ipsecFilter"@.len() == 11 && "ipsecFilter"@[3] == 'e',
        "id"@.len() == 2,
        "type"@[0] == 't' && "type"@.len() == 4,
        "zoneId"@.len() == 6 && "zoneId"@[0] == 'z',
        "trafficFilter"@.len() == 13,
        "macAddressFilter"@.len() == 16,
        "macAddresses"@.len() == 12,
{
    reveal_strlit("name");
    reveal_strlit("description");
    reveal_strlit("enabled");
    reveal_strlit("loggingEnabled");
    reveal_strlit("action");
    reveal_strlit("ipProtocolScope");
    reveal_strlit("source");
    reveal_strlit("destination");
    reveal_strlit("schedule");
    reveal_strlit("connectionStateFilter");
    reveal_strlit("ipsecFilter");
    reveal_strlit("id");
    reveal_strlit("type");
    reveal_strlit("zoneId");
    reveal_strlit("trafficFilter");
    reveal_strlit("macAddressFilter");
    reveal_strlit("macAddresses");
}

/// An address of six bytes, in hexadecimal of either case, with colons or hyphens between them,
/// is written in lower case with colons, where its first byte is even and not every byte is
/// zero; otherwise it is refused.
pub proof fn law_addresses_of_devices_are_read(v: Seq<char>, i: int)
    requires
        v.len() == 17,
        forall|k: int|
            0 <= k < 17 ==> if k % 3 == 2 {
                #[trigger] v[k] == ':' || v[k] == '-'
            } else {
                ||| 48 <= v[k] as int <= 57
                ||| 65 <= v[k] as int <= 70
                ||| 97 <= v[k] as int <= 102
            },
        0 <= i < 17,
    ensures
        mac_of(v) is Some <==> {
            &&& v[1] == '0' || v[1] == '2' || v[1] == '4' || v[1] == '6' || v[1] == '8' || v[1] == 'a' || v[1] == 'A'
                || v[1] == 'c' || v[1] == 'C' || v[1] == 'e' || v[1] == 'E'
            &&& exists|k: int| 0 <= k < 17 && k % 3 != 2 && #[trigger] v[k] != '0'
        },
        mac_of(v) matches Some(m) ==> {
            &&& m.len() == 17
            &&& i % 3 == 2 ==> m[i] == ':'
            &&& i % 3 != 2 && 65 <= v[i] as int <= 70 ==> m[i] as int == v[i] as int + 32
            &&& i % 3 != 2 && !(65 <= v[i] as int <= 70) ==> m[i] == v[i]
        },
{
    assert(v[0] == v[0] && v[16] == v[16] && v[1] == v[1]);
    lemma_trim_same(v);
    let m = mac_form(v);
    assert(m.len() == 17);
    assert forall|k: int| 0 <= k < 17 implies #[trigger] m[k] == (if k % 3 == 2 {
        ':'
    } else {
        lower_char(v[k])
    }) by {
        assert(lower(v)[k] == lower_char(v[k]));
    }
    reveal_strlit("00:00:00:00:00:00");
    let zeros = "00:00:00:00:00:00"@;
    assert(forall|k: int|
        0 <= k < 17 ==> #[trigger] zeros[k] == (if k % 3 == 2 {
            ':'
        } else {
            '0'
        }));
    assert forall|k: int| 0 <= k < 17 implies if colon_place(k) {
        #[trigger] m[k] == ':'
    } else {
        is_hex(m[k])
    } by {
        assert(v[k] == v[k]);
    }
    assert(m[1] == lower_char(v[1]));
    if exists|k: int| 0 <= k < 17 && k % 3 != 2 && #[trigger] v[k] != '0' {
        let k = choose|k: int| 0 <= k < 17 && k % 3 != 2 && #[trigger] v[k] != '0';
        assert(m[k] == lower_char(v[k]));
        assert(m[k] != zeros[k]);
    } else {
        assert forall|k: int| 0 <= k < 17 implies #[trigger] m[k] == zeros[k] by {
            if k % 3 != 2 {
                assert(v[k] == '0');
            }
        }
        assert(m =~= zeros);
    }
}

/// A text that is not seventeen characters long without the white space around it, or that
/// holds anything but hexadecimal digits where a byte stands, is no address.
pub proof fn law_other_texts_are_no_address(value: Seq<char>, k: int)
    requires
        trim(value).len() != 17 || (0 <= k < 17 && (if k % 3 == 2 {
            trim(value)[k] != ':' && trim(value)[k] != '-'
        } else {
            !(48 <= trim(value)[k] as int <= 57) && !(65 <= trim(value)[k] as int <= 70) && !(97
                <= trim(value)[k] as int <= 102)
        })),
    ensures
        mac_of(value) is None,
        mac_error() == "Invalid unicast MAC address"@,
{
    let m = mac_form(value);
    if m.len() == 17 {
        assert(lower(trim(value))[k] == lower_char(trim(value)[k]));
        assert(m[k] == (if lower(trim(value))[k] == '-' {
            ':'
        } else {
            lower(trim(value))[k]
        }));
        assert(colon_place(k) <==> k % 3 == 2);
    }
}

/// What a block rule says: it is on, it blocks, for both versions of the internet protocol, what
/// comes from this one address in the source zone and goes to the destination zone; it is not
/// logged, and its description is its name.
pub proof fn law_rules_block_one_address(
    name: Seq<char>,
    mac: Seq<char>,
    source: Seq<char>,
    destination: Seq<char>,
)
    ensures
        ({
            let r = rule_view(name, mac, source, destination);
            let from = field(r, "source"@);
            &&& field(r, "name"@) == JsonView::Text(name)
            &&& field(r, "description"@) == JsonView::Text(name)
            &&& field(r, "enabled"@) == JsonView::Bool(true)
            &&& field(r, "loggingEnabled"@) == JsonView::Bool(false)
            &&& field(field(r, "action"@), "type"@) == JsonView::Text("BLOCK"@)
            &&& field(field(r, "ipProtocolScope"@), "ipVersion"@) == JsonView::Text("IPV4_AND_IPV6"@)
            &&& field(from, "zoneId"@) == JsonView::Text(source)
            &&& field(field(from, "trafficFilter"@), "type"@) == JsonView::Text("MAC_ADDRESS"@)
            &&& field(field(field(from, "trafficFilter"@), "macAddressFilter"@), "macAddresses"@)
                == JsonView::Array(seq![JsonView::Text(mac)])
            &&& field(field(r, "destination"@), "zoneId"@) == JsonView::Text(destination)
        }),
{
    lemma_rule_keys();
}

/// Whether a key is one of those that a block rule is recognised by.
pub open spec fn telling_key(key: Seq<char>) -> bool {
    key == "name"@ || key == "description"@ || key == "enabled"@ || key == "loggingEnabled"@ || key == "action"@
        || key == "ipProtocolScope"@ || key == "source"@ || key == "destination"@
}

/// Whether a key would narrow what a block rule blocks.
pub open spec fn narrowing_key(key: Seq<char>) -> bool {
    key == "schedule"@ || key == "connectionStateFilter"@ || key == "ipsecFilter"@
}

/// A rule is no longer the own one as soon as something that it is recognised by is changed, or
/// something is set that narrows it; whatever else the controller keeps with it does not matter.
pub proof fn law_changed_rules_are_not_owned(actual: JsonView, expected: JsonView, key: Seq<char>, value: JsonView)
    requires
        owned(actual, expected),
        actual is Object,
    ensures
        telling_key(key) ==> (owned(with_field(actual, key, value), expected) <==> strip(value) == strip(
            field(expected, key),
        )),
        narrowing_key(key) ==> (owned(with_field(actual, key, value), expected) <==> value == JsonView::Null),
        !telling_key(key) && !narrowing_key(key) ==> owned(with_field(actual, key, value), expected),
{
    lemma_rule_keys();
    let changed = with_field(actual, key, value);
    assert(forall|k: Seq<char>| k != key ==> #[trigger] field(changed, k) == field(actual, k));
    assert(field(changed, key) == value);
}

} // verus!
