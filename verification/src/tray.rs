//! The helper of a session: what its icon shows, and which proxy its user's programs use.
use vstd::prelude::*;

use crate::config::{below, Place};
use crate::ipc::{Notification, NotificationView, SessionStatus};
use crate::native::{encode, utf16};
use crate::text::{begins, decimal, decimal_of, digit, join, starts_with, texts};

verus! {

/// The units of a text in a field of fixed size: cut off where they do not fit, and always
/// with a zero after them.
pub open spec fn fixed_units(units: Seq<u16>, size: int) -> Seq<u16> {
    Seq::new(
        size as nat,
        |i: int|
            if i < size - 1 && i < units.len() {
                units[i]
            } else {
                0
            },
    )
}

/// A text for a field of fixed size.
pub fn copy_text(text: &str, size: usize) -> (r: Vec<u16>)
    requires
        size > 0,
    ensures
        r@ == fixed_units(utf16(text@), size as int),
{
    let units = encode(text);
    let mut out: Vec<u16> = Vec::new();
    for i in 0..size
        invariant
            size > 0,
            units@ == utf16(text@),
            out@ == fixed_units(units@, size as int).take(i as int),
    {
        let unit: u16 = if i < size - 1 && i < units.len() {
            units[i]
        } else {
            0
        };
        out.push(unit);
        assert(fixed_units(units@, size as int).take(i + 1) == fixed_units(units@, size as int).take(i as int).push(
            unit,
        ));
    }
    assert(fixed_units(units@, size as int).take(size as int) == fixed_units(units@, size as int));
    out
}

/// A field of fixed size always ends in a zero. A text that fits is there whole, with zeros after it; of
/// one that does not, as much as fits is there.
pub proof fn law_fixed_text_ends_in_zero(units: Seq<u16>, size: int)
    requires
        size > 0,
    ensures
        fixed_units(units, size).len() == size,
        fixed_units(units, size).last() == 0,
        units.len() < size ==> fixed_units(units, size).take(units.len() as int) == units,
        forall|i: int| units.len() <= i < size ==> #[trigger] fixed_units(units, size)[i] == 0,
        units.len() >= size ==> fixed_units(units, size).drop_last() == units.take(size - 1),
{
    if units.len() >= size {
        assert(fixed_units(units, size).drop_last() =~= units.take(size - 1));
    }
    if units.len() < size {
        assert(fixed_units(units, size).take(units.len() as int) =~= units);
    }
}

/// A number below a hundred with two digits.
pub open spec fn two_digits(n: int) -> Seq<char> {
    seq![digit(n / 10), digit(n % 10)]
}

/// The time that is left, in hours and minutes; a dash where it is not limited.
pub open spec fn time_left(seconds: Option<i64>) -> Seq<char> {
    match seconds {
        None => "—"@,
        Some(s) => {
            let left: int = if s > 0 {
                s as int
            } else {
                0
            };
            decimal((left / 3600) as nat) + "h "@ + two_digits(left / 60 % 60) + "m"@
        },
    }
}

/// The time that is left, in hours and minutes.
pub fn time_text(seconds: Option<i64>) -> (r: String)
    ensures
        r@ == time_left(seconds),
{
    match seconds {
        None => "—".to_owned(),
        Some(s) => {
            let left: u64 = if s > 0 {
                s as u64
            } else {
                0
            };
            let minutes: u64 = left / 60 % 60;
            let hours = decimal_of(left / 3600);
            let mut out = join(hours.as_str(), "h ");
            let ghost before = out@;
            out.push((48u8 + (minutes / 10) as u8) as char);
            out.push((48u8 + (minutes % 10) as u8) as char);
            assert(out@ =~= before + two_digits(minutes as int));
            join(out.as_str(), "m")
        },
    }
}

/// What the tip of the icon is about.
#[derive(Clone, Copy, Debug, PartialEq, Eq, Structural)]
pub enum Tip {
    Locked,
    Remaining,
    Unlimited,
}

/// What the tip of the icon is about: a block before the time that is left.
pub open spec fn tip_of(blocked: bool, remaining: Option<i64>) -> Tip {
    if blocked {
        Tip::Locked
    } else if remaining is Some {
        Tip::Remaining
    } else {
        Tip::Unlimited
    }
}

/// What the tip of the icon is about: a block before the time that is left.
pub fn tip_for(status: &SessionStatus) -> (r: Tip)
    ensures
        r == tip_of(status.blocked, status.remaining_seconds),
{
    if status.blocked {
        Tip::Locked
    } else if status.remaining_seconds.is_some() {
        Tip::Remaining
    } else {
        Tip::Unlimited
    }
}

/// The tip of the icon.
pub open spec fn tip_text(tip: Seq<char>, online: bool) -> Seq<char> {
    "ScreenGuard: "@ + tip + (if online {
        ""@
    } else {
        " (offline)"@
    })
}

/// The tip of the icon.
pub fn tooltip(tip: &str, online: bool) -> (r: String)
    ensures
        r@ == tip_text(tip@, online),
{
    let a = join("ScreenGuard: ", tip);
    join(
        a.as_str(),
        if online {
            ""
        } else {
            " (offline)"
        },
    )
}

/// The notification to show, given the number of the one that was shown last.
pub open spec fn to_show(shown: u64, notification: Option<NotificationView>) -> Option<NotificationView> {
    match notification {
        Some(n) => if n.id != shown {
            Some(n)
        } else {
            None
        },
        None => None,
    }
}

/// The notification to show, given the number of the one that was shown last: each is
/// shown once.
pub fn new_notification(shown: u64, status: &SessionStatus) -> (r: Option<Notification>)
    ensures
        crate::ipc::notification_view(r) == to_show(shown, status@.notification),
{
    match &status.notification {
        Some(n) => if n.id != shown {
            Some(n.copy())
        } else {
            None
        },
        None => None,
    }
}

/// Whether an address is one of the web.
pub open spec fn is_web_address(url: Seq<char>) -> bool {
    starts_with(url, "https://"@) || starts_with(url, "http://"@)
}

/// Whether an address is opened for the user: only one of the web is.
pub fn opens(url: &str) -> (r: bool)
    ensures
        r == is_web_address(url@),
{
    begins(url, "https://") || begins(url, "http://")
}

/// The proxy settings of a user.
#[derive(Debug)]
pub struct ProxyConfig {
    pub flags: u32,
    pub proxy: String,
    pub bypass: String,
    pub pac: String,
}

/// The file in which a user's own proxy settings are saved, below the user's directory for
/// local data.
pub fn backup_path<T>(local_data: Option<T>) -> (r: Result<Place<T>, String>)
    ensures
        match local_data {
            Some(root) => r is Ok && r->Ok_0.root == root && texts(r->Ok_0.names@) == seq![
                "ScreenGuard"@,
                "proxy-backup.json"@,
            ],
            None => r is Err && r->Err_0@ == "LOCALAPPDATA missing"@,
        },
{
    match local_data {
        None => Err("LOCALAPPDATA missing".to_owned()),
        Some(root) => {
            let top = Place { root, names: Vec::new() };
            assert(texts(top.names@) =~= Seq::<Seq<char>>::empty());
            let r = below(below(Ok(top), "ScreenGuard"), "proxy-backup.json");
            assert(texts(r->Ok_0.names@) =~= seq!["ScreenGuard"@, "proxy-backup.json"@]);
            r
        },
    }
}

/// The flag that makes a named proxy be used.
pub const NAMED_PROXY: u32 = 2;

/// Whether settings lead everything through a local port: through a named proxy on this machine,
/// without an exception and without a script.
pub open spec fn leads_through(c: ProxyConfig, port: u16) -> bool {
    &&& c.flags == NAMED_PROXY
    &&& c.proxy@ == "127.0.0.1:"@ + decimal(port as nat)
    &&& c.bypass@.len() == 0
    &&& c.pac@.len() == 0
}

/// The settings that lead everything through a local port.
pub fn local_proxy(port: u16) -> (r: ProxyConfig)
    ensures
        leads_through(r, port),
{
    let number = decimal_of(port as u64);
    ProxyConfig {
        flags: NAMED_PROXY,
        proxy: join("127.0.0.1:", number.as_str()),
        bypass: String::new(),
        pac: String::new(),
    }
}

/// What is done to a user's proxy settings.
#[derive(Clone, Copy, Debug, PartialEq, Eq, Structural)]
pub enum ProxyPlan {
    /// Save the settings, then lead everything through the port.
    Save(u16),
    /// Lead everything through the port; the settings are saved already.
    Keep(u16),
    /// Bring the saved settings back, and delete what was saved.
    Restore,
    Nothing,
}

/// What is done to a user's proxy settings, given whether settings are saved. Settings are
/// saved once, so that the user's own ones are never overwritten by those of the filter.
pub open spec fn proxy_plan(port: Option<u16>, saved: bool) -> ProxyPlan {
    match port {
        Some(p) => if saved {
            ProxyPlan::Keep(p)
        } else {
            ProxyPlan::Save(p)
        },
        None => if saved {
            ProxyPlan::Restore
        } else {
            ProxyPlan::Nothing
        },
    }
}

/// What is done to a user's proxy settings, given whether settings are saved.
pub fn apply_proxy(port: Option<u16>, saved: bool) -> (r: ProxyPlan)
    ensures
        r == proxy_plan(port, saved),
{
    match port {
        Some(p) => if saved {
            ProxyPlan::Keep(p)
        } else {
            ProxyPlan::Save(p)
        },
        None => if saved {
            ProxyPlan::Restore
        } else {
            ProxyPlan::Nothing
        },
    }
}

/// The failures in a row after which the helper gives up the filter.
pub const MOST_FAILURES: u32 = 5;

/// What the helper remembers between two questions to the service: the failures in a row,
/// and the port that it has set.
#[derive(Clone, Copy, Debug, PartialEq, Eq, Structural)]
pub struct Helper {
    pub failures: u32,
    pub port: Option<u16>,
}

/// Whether the proxy is set anew for the port that the service names.
pub open spec fn sets_proxy(h: Helper, named: Option<u16>) -> bool {
    named != h.port || named is Some
}

/// What the helper remembers after an answer of the service, and whether setting the proxy for it
/// succeeded.
pub open spec fn after_answer(h: Helper, named: Option<u16>, succeeded: bool) -> Helper {
    Helper {
        failures: 0,
        port: if sets_proxy(h, named) && succeeded {
            named
        } else {
            h.port
        },
    }
}

/// What the helper remembers after a failure to reach the service, and whether it gives up.
pub open spec fn after_failure(h: Helper) -> (Helper, bool) {
    let failures = if h.failures < u32::MAX {
        (h.failures + 1) as u32
    } else {
        u32::MAX
    };
    let gives_up = failures >= MOST_FAILURES;
    (
        Helper {
            failures,
            port: if gives_up {
                None
            } else {
                h.port
            },
        },
        gives_up,
    )
}

/// A helper that has asked nothing.
pub open spec fn fresh_helper() -> Helper {
    Helper { failures: 0, port: None }
}

/// What a helper remembers after so many failures in a row, and whether the last of them made it give up.
pub open spec fn failed_often(h: Helper, failures: nat) -> (Helper, bool)
    decreases failures,
{
    if failures == 0 {
        (h, false)
    } else {
        after_failure(failed_often(h, (failures - 1) as nat).0)
    }
}

impl Helper {
    /// A helper that has asked nothing.
    pub fn new() -> (r: Helper)
        ensures
            r == fresh_helper(),
    {
        Helper { failures: 0, port: None }
    }

    /// Whether the proxy is set anew for the port that the service names: a port is set
    /// again each time, so that it cannot be taken out for long; none is set where none
    /// was.
    pub fn sets(&self, named: Option<u16>) -> (r: bool)
        ensures
            r == sets_proxy(*self, named),
    {
        let differs = match (named, self.port) {
            (Some(a), Some(b)) => a != b,
            (None, None) => false,
            _ => true,
        };
        differs || named.is_some()
    }

    /// Takes an answer of the service, and whether setting the proxy for it succeeded.
    /// Returns whether saved settings are brought back afterwards in any case, such as those
    /// that a helper before this one has saved.
    pub fn answered(&mut self, named: Option<u16>, succeeded: bool) -> (r: bool)
        ensures
            *final(self) == after_answer(*old(self), named, succeeded),
            r == (named is None),
    {
        self.failures = 0;
        if self.sets(named) && succeeded {
            self.port = named;
        }
        named.is_none()
    }

    /// Takes a failure to reach the service. Returns whether the helper gives up: the saved
    /// settings are brought back and nothing is shown.
    pub fn failed(&mut self) -> (r: bool)
        ensures
            *final(self) == after_failure(*old(self)).0,
            r == after_failure(*old(self)).1,
    {
        if self.failures < u32::MAX {
            self.failures = self.failures + 1;
        }
        if self.failures >= MOST_FAILURES {
            self.port = None;
            true
        } else {
            false
        }
    }
}

/// A user's proxy settings and what is saved of them.
pub struct UserProxy<S> {
    pub current: S,
    pub saved: Option<S>,
}

/// The settings once a plan was carried out; `local` is what leads through a port.
pub open spec fn carried_out<S>(u: UserProxy<S>, plan: ProxyPlan, local: spec_fn(u16) -> S) -> UserProxy<S> {
    match plan {
        ProxyPlan::Save(p) => UserProxy { current: local(p), saved: Some(u.current) },
        ProxyPlan::Keep(p) => UserProxy { current: local(p), saved: u.saved },
        ProxyPlan::Restore => UserProxy { current: u.saved->Some_0, saved: None },
        ProxyPlan::Nothing => u,
    }
}

/// The settings after a series of ports that were asked for, `None` where none was.
pub open spec fn after_ports<S>(u: UserProxy<S>, ports: Seq<Option<u16>>, local: spec_fn(u16) -> S) -> UserProxy<
    S,
>
    decreases ports.len(),
{
    if ports.len() == 0 {
        u
    } else {
        let before = after_ports(u, ports.drop_last(), local);
        carried_out(before, proxy_plan(ports.last(), before.saved is Some), local)
    }
}

/// However often and in whatever order ports are set and given up: the user's own settings
/// stay saved while a port is in use, and come back, with nothing left saved, when it is
/// given up.
pub proof fn law_own_settings_come_back<S>(own: S, ports: Seq<Option<u16>>, local: spec_fn(u16) -> S)
    ensures
        ({
            let after = after_ports(UserProxy { current: own, saved: None }, ports, local);
            if ports.len() == 0 || ports.last() is None {
                after == (UserProxy { current: own, saved: None })
            } else {
                after == (UserProxy { current: local(ports.last()->Some_0), saved: Some(own) })
            }
        }),
    decreases ports.len(),
{
    if ports.len() > 0 {
        law_own_settings_come_back(own, ports.drop_last(), local);
    }
}

/// The time that is left is shown in whole hours and minutes, the minutes with two digits; a time
/// that is over is shown as none.
pub proof fn law_time_is_shown_in_hours_and_minutes(seconds: i64, hours: nat, tens: int, ones: int)
    requires
        0 <= tens < 6,
        0 <= ones < 10,
        3600 * hours + 60 * (10 * tens + ones) <= (if seconds > 0 {
            seconds as int
        } else {
            0
        }) < 3600 * hours + 60 * (10 * tens + ones) + 60,
    ensures
        time_left(Some(seconds)) == decimal(hours) + "h "@ + seq![(48 + tens) as char, (48 + ones) as char] + "m"@,
        time_left(None) == "—"@,
{
    let left: int = if seconds > 0 {
        seconds as int
    } else {
        0
    };
    let minutes = 10 * tens + ones;
    assert(left / 3600 == hours);
    assert(left / 60 == 60 * hours + minutes) by {
        assert(60 * (60 * hours + minutes) <= left < 60 * (60 * hours + minutes) + 60);
    }
    assert((60 * hours + minutes) % 60 == minutes);
    assert(minutes / 10 == tens && minutes % 10 == ones);
}

/// The tip tells of a block before everything else, then of the time that is left where it is
/// bounded; and it says where the service has no link.
pub proof fn law_tips_tell_of_a_block_first(remaining: Option<i64>, tip: Seq<char>)
    ensures
        tip_of(true, remaining) == Tip::Locked,
        tip_of(false, remaining) == Tip::Remaining <==> remaining is Some,
        tip_of(false, remaining) == Tip::Unlimited <==> remaining is None,
        tip_text(tip, true) == "ScreenGuard: "@ + tip,
        tip_text(tip, false) == "ScreenGuard: "@ + tip + " (offline)"@,
{
    reveal_strlit("");
    assert(tip_text(tip, true) =~= "ScreenGuard: "@ + tip);
}

/// A notification is shown exactly where it is another one than was shown last.
pub proof fn law_notifications_are_shown_once(shown: u64, n: NotificationView)
    ensures
        n.id != shown ==> to_show(shown, Some(n)) == Some(n),
        to_show(n.id, Some(n)) is None,
        to_show(shown, None) is None,
{
}

/// An address is opened exactly where it begins as an address of the web does.
pub proof fn law_only_web_addresses_are_opened(url: Seq<char>, rest: Seq<char>)
    ensures
        is_web_address("https://"@ + rest),
        is_web_address("http://"@ + rest),
        is_web_address(url) ==> url == "https://"@ + url.skip("https://"@.len() as int) || url == "http://"@ + url.skip(
            "http://"@.len() as int,
        ),
{
    crate::text::law_starts_are_what_leads(url, "https://"@, rest);
    crate::text::law_starts_are_what_leads(url, "http://"@, rest);
}

/// A port that the service names is set each time; where it names none, the proxy is touched only
/// where one was set. After an answer the failures are forgotten, and the port that was set is
/// remembered.
pub proof fn law_named_ports_are_set_each_time(h: Helper, port: u16, succeeded: bool)
    ensures
        sets_proxy(h, Some(port)),
        sets_proxy(h, None) <==> h.port is Some,
        after_answer(h, Some(port), true).port == Some(port),
        after_answer(h, None, true).port is None,
        after_answer(h, Some(port), false).port == h.port,
        after_answer(h, Some(port), succeeded).failures == 0 && after_answer(h, None, succeeded).failures == 0,
{
}

/// The helper gives up with the fifth failure in a row, and not before; then no port is set any more.
pub proof fn law_helpers_give_up_after_five_failures(h: Helper)
    ensures
        after_failure(h).1 <==> h.failures >= 4,
        h.failures < u32::MAX ==> after_failure(h).0.failures == h.failures + 1,
        after_failure(h).1 ==> after_failure(h).0.port is None,
        !after_failure(h).1 ==> after_failure(h).0.port == h.port,
{
}

/// What leads through a port is a proxy of this machine at that port, with no exception and no
/// script.
pub proof fn law_ports_are_on_this_machine(c: ProxyConfig, port: u16)
    requires
        leads_through(c, port),
    ensures
        c.flags == 2,
        c.proxy@ == "127.0.0.1:"@ + decimal(port as nat),
        c.bypass@.len() == 0 && c.pac@.len() == 0,
{
}

/// While a port is asked for it is set, and the user's own settings are saved only where none are;
/// once none is asked for, saved ones come back.
pub proof fn law_settings_are_saved_once(port: u16, saved: bool)
    ensures
        proxy_plan(Some(port), false) == ProxyPlan::Save(port),
        proxy_plan(Some(port), true) == ProxyPlan::Keep(port),
        proxy_plan(None, true) == ProxyPlan::Restore,
        proxy_plan(None, false) == ProxyPlan::Nothing,
{
}

/// A helper that begins has set no proxy, and gives up with its fifth failure in a row; so does one that
/// was answered, whatever it had failed at before.
pub proof fn law_four_failures_are_borne(h: Helper, named: Option<u16>, succeeded: bool, failures: nat)
    requires
        0 < failures <= 5,
    ensures
        !sets_proxy(fresh_helper(), None),
        failed_often(fresh_helper(), failures).1 <==> failures == 5,
        failed_often(after_answer(h, named, succeeded), failures).1 <==> failures == 5,
{
    reveal_with_fuel(failed_often, 6);
}

} // verus!
