//! The main loop of the agent: what it remembers between events, and what it decides
//! on each of them. The caller performs what is decided and reports what came of it.
use std::collections::{HashMap, HashSet};

use vstd::prelude::*;

use crate::clock::Date;
use crate::ipc::{Notification, NotificationView, SessionStatus, SessionStatusView};
use crate::policy::{
    capped_sum, lock_after, lock_initial, lock_next, logs_off, EnforceAction, LockModel, LockState, Look,
};
use crate::text::{at_most, limited, same};

verus! {

broadcast use vstd::std_specs::hash::group_hash_axioms;

/// What the server last said of a user, and when.
#[derive(Clone, Copy, Debug, PartialEq, Eq, Structural)]
pub struct Remote {
    pub seconds: i64,
    pub action: EnforceAction,
    pub at: u64,
}

/// A session that belongs to a known user.
#[derive(Debug)]
pub struct UserSession {
    pub id: u32,
    pub uid: u32,
    pub active: bool,
    pub locked: bool,
}

/// The settings of a user that the loop goes by.
#[derive(Debug)]
pub struct UserSettings {
    pub preserve_tasks_on_lock: bool,
    pub lockout_grace_minutes: u32,
    pub warning_thresholds: Vec<u32>,
}

/// A user of the machine, as the server is told.
#[derive(Debug)]
pub struct LocalUser {
    pub local_uid: u32,
    pub username: String,
    pub display_name: String,
}

/// What the loop remembers between events.
pub struct Agent {
    connected: bool,
    remote: HashMap<u32, Remote>,
    locks: HashMap<u32, LockState>,
    notices: HashMap<u32, Notification>,
    sequence: u64,
    warnings: HashMap<u32, HashSet<u32>>,
    active: HashSet<u32>,
    deltas: HashMap<u32, u32>,
    date: Date,
    previous_tick: u64,
    last_heartbeat: u64,
    last_scan: u64,
    timezone: String,
    known_users: Vec<u32>,
    lock_started: HashMap<u32, u64>,
    offline_since: u64,
    ttl_warned: bool,
    updating: bool,
}

/// What the loop remembers, as maps from users.
#[verifier::ext_equal]
pub struct AgentModel {
    /// Whether there is a link to the server.
    pub connected: bool,
    /// What the server last said of each user.
    pub remote: Map<u32, Remote>,
    /// The grace timers.
    pub locks: Map<u32, LockModel>,
    /// The last message for each user.
    pub notices: Map<u32, NotificationView>,
    /// The number of the last message.
    pub sequence: u64,
    /// The thresholds at which each user has been warned.
    pub warnings: Map<u32, Set<u32>>,
    /// The users who were active when the loop last looked.
    pub active: Set<u32>,
    /// The seconds of use since the last heartbeat.
    pub deltas: Map<u32, u32>,
    /// The day to which use is attributed.
    pub date: Date,
    pub previous_tick: u64,
    pub last_heartbeat: u64,
    pub last_scan: u64,
    pub timezone: Seq<char>,
    /// The users that the server has been told of.
    pub known_users: Seq<u32>,
    /// Since when each blocked user is blocked.
    pub lock_started: Map<u32, u64>,
    pub offline_since: u64,
    pub ttl_warned: bool,
    /// Whether an updater is running.
    pub updating: bool,
}

impl View for Agent {
    type V = AgentModel;

    closed spec fn view(&self) -> AgentModel {
        AgentModel {
            connected: self.connected,
            remote: self.remote@,
            locks: self.locks@.map_values(|l: LockState| l@),
            notices: self.notices@.map_values(|n: Notification| n@),
            sequence: self.sequence,
            warnings: self.warnings@.map_values(|w: HashSet<u32>| w@),
            active: self.active@,
            deltas: self.deltas@,
            date: self.date,
            previous_tick: self.previous_tick,
            last_heartbeat: self.last_heartbeat,
            last_scan: self.last_scan,
            timezone: self.timezone@,
            known_users: self.known_users@,
            lock_started: self.lock_started@,
            offline_since: self.offline_since,
            ttl_warned: self.ttl_warned,
            updating: self.updating,
        }
    }
}

/// The seconds from one moment to another; none where the second is earlier.
pub open spec fn since(now: u64, then: u64) -> u64 {
    if now >= then {
        (now - then) as u64
    } else {
        0
    }
}

/// What a loop that begins remembers.
pub open spec fn beginning(
    sequence: u64,
    date: Date,
    now: u64,
    timezone: Seq<char>,
    users: Seq<LocalUser>,
) -> AgentModel {
    AgentModel {
        connected: false,
        remote: Map::empty(),
        locks: Map::empty(),
        notices: Map::empty(),
        sequence,
        warnings: Map::empty(),
        active: Set::empty(),
        deltas: Map::empty(),
        date,
        previous_tick: now,
        last_heartbeat: now,
        last_scan: now,
        timezone,
        known_users: uids_of(users),
        lock_started: Map::empty(),
        offline_since: now,
        ttl_warned: false,
        updating: false,
    }
}

impl Agent {
    /// A loop that begins, without a link: at a moment of the clock that excludes sleep,
    /// on a day, in a time zone, with the users that the machine has.
    pub fn new(sequence: u64, date: Date, now: u64, timezone: &str, users: &Vec<LocalUser>) -> (r: Agent)
        ensures
            r@ == beginning(sequence, date, now, timezone@, users@),
    {
        Agent {
            connected: false,
            remote: HashMap::new(),
            locks: HashMap::new(),
            notices: HashMap::new(),
            sequence,
            warnings: HashMap::new(),
            active: HashSet::new(),
            deltas: HashMap::new(),
            date,
            previous_tick: now,
            last_heartbeat: now,
            last_scan: now,
            timezone: timezone.to_owned(),
            known_users: user_ids(users),
            lock_started: HashMap::new(),
            offline_since: now,
            ttl_warned: false,
            updating: false,
        }
    }
}

/// The identifiers of users.
pub open spec fn uids_of(users: Seq<LocalUser>) -> Seq<u32> {
    Seq::new(users.len(), |i: int| users[i].local_uid)
}

/// The identifiers of users.
fn user_ids(users: &Vec<LocalUser>) -> (r: Vec<u32>)
    ensures
        r@ == uids_of(users@),
{
    let mut out: Vec<u32> = Vec::new();
    for i in 0..users.len()
        invariant
            out@ == uids_of(users@.take(i as int)),
    {
        out.push(users[i].local_uid);
        assert(uids_of(users@.take(i + 1)) =~= uids_of(users@.take(i as int)).push(users@[i as int].local_uid));
    }
    assert(users@.take(users@.len() as int) == users@);
    out
}

/// What to send to the server.
#[derive(Clone, Copy, Debug, PartialEq, Eq, Structural)]
pub enum Outgoing {
    /// Who the agent is and what it can do.
    Hello,
    /// The cumulative use of each day that the server may not know.
    UsageSync,
    /// The users of the machine.
    UserList,
}

/// What the server says of one user's time.
#[derive(Clone, Copy, Debug, PartialEq, Eq, Structural)]
pub struct RemainingEntry {
    pub local_uid: u32,
    pub remaining_minutes: i32,
    pub enforce: EnforceAction,
}

/// A message of the server.
#[derive(Debug)]
pub enum ServerMessage {
    /// New policies; the caller stores them.
    ConfigPush,
    RemainingUpdate(Vec<RemainingEntry>),
    NotifyUser { local_uid: u32, summary: String, body: String },
    LockNow { local_uid: u32 },
    ConfigReload,
    FetchLogs,
    UpdateAgent,
    Unpair,
    Other,
}

/// What the caller does about a message.
#[derive(Clone, Copy, Debug, PartialEq, Eq, Structural)]
pub enum Reaction {
    Nothing,
    /// Store the policies, apply the web filter, and tell each user.
    ApplyConfig,
    /// Keep a lock of the user for the day, in case the link drops before the server
    /// follows with a policy.
    ForceLock { local_uid: u32, date: Date },
    SendHello,
    SendLogs,
    LaunchUpdater,
    /// Remote updates are off, or one is running.
    RefuseUpdate,
}

/// What the loop remembers once a message for a user has been numbered.
pub open spec fn notified(m: AgentModel, uid: u32, title: Seq<char>, body: Seq<char>) -> AgentModel {
    let id = capped_sum(m.sequence, 1);
    AgentModel {
        sequence: id,
        notices: m.notices.insert(
            uid,
            NotificationView { id, title: at_most(title, 128), body: at_most(body, 2048) },
        ),
        ..m
    }
}

/// What the loop remembers once a user has got a new policy and was told of it.
pub open spec fn after_configured(m: AgentModel, uid: u32, title: Seq<char>, body: Seq<char>) -> AgentModel {
    let told = notified(m, uid, title, body);
    AgentModel { warnings: told.warnings.remove(uid), ..told }
}

/// What the server said of each user, after an update.
pub open spec fn remote_after(
    remote: Map<u32, Remote>,
    entries: Seq<RemainingEntry>,
    now: u64,
) -> Map<u32, Remote>
    decreases entries.len(),
{
    if entries.len() == 0 {
        remote
    } else {
        let e = entries.last();
        remote_after(remote, entries.drop_last(), now).insert(
            e.local_uid,
            Remote { seconds: (e.remaining_minutes * 60) as i64, action: e.enforce, at: now },
        )
    }
}

/// What is sent once the link to the server is up, in order.
pub open spec fn greetings() -> Seq<Outgoing> {
    seq![Outgoing::Hello, Outgoing::UsageSync, Outgoing::UserList]
}

/// Once the link is up the agent says who it is, then sends the use, then the users, each once.
pub proof fn law_greetings_come_in_order()
    ensures
        greetings().len() == 3,
        greetings()[0] == Outgoing::Hello,
        greetings()[1] == Outgoing::UsageSync,
        greetings()[2] == Outgoing::UserList,
{
}

/// What the loop remembers once the link to the server is up.
pub open spec fn after_link_up(m: AgentModel, users: Seq<LocalUser>) -> AgentModel {
    AgentModel {
        connected: true,
        remote: Map::empty(),
        deltas: Map::empty(),
        known_users: uids_of(users),
        last_heartbeat: 0,
        ..m
    }
}

/// What the loop remembers once the link to the server is down.
pub open spec fn after_link_down(m: AgentModel, now: u64) -> AgentModel {
    AgentModel { connected: false, remote: Map::empty(), offline_since: now, ttl_warned: false, ..m }
}

/// What the loop remembers after a message.
pub open spec fn after_message(m: AgentModel, message: ServerMessage, now: u64) -> AgentModel {
    match message {
        ServerMessage::ConfigPush => AgentModel { remote: Map::empty(), ..m },
        ServerMessage::RemainingUpdate(entries) => AgentModel {
            remote: remote_after(m.remote, entries@, now),
            ..m
        },
        ServerMessage::NotifyUser { local_uid, summary, body } => notified(m, local_uid, summary@, body@),
        ServerMessage::LockNow { local_uid } => AgentModel {
            remote: m.remote.insert(local_uid, Remote { seconds: 0, action: EnforceAction::Lock, at: now }),
            ..m
        },
        ServerMessage::Unpair => AgentModel { connected: false, remote: Map::empty(), ..m },
        _ => m,
    }
}

/// What the caller does about a message.
pub open spec fn reaction_to(m: AgentModel, message: ServerMessage, allow_remote_update: bool) -> Reaction {
    match message {
        ServerMessage::ConfigPush => Reaction::ApplyConfig,
        ServerMessage::LockNow { local_uid } => Reaction::ForceLock { local_uid, date: m.date },
        ServerMessage::ConfigReload => Reaction::SendHello,
        ServerMessage::FetchLogs => Reaction::SendLogs,
        ServerMessage::UpdateAgent => if allow_remote_update && !m.updating {
            Reaction::LaunchUpdater
        } else {
            Reaction::RefuseUpdate
        },
        _ => Reaction::Nothing,
    }
}

impl Agent {
    /// Whether there is a link to the server.
    pub fn is_connected(&self) -> (r: bool)
        ensures
            r == self@.connected,
    {
        self.connected
    }

    /// The day to which use is attributed.
    pub fn current_date(&self) -> (r: Date)
        ensures
            r == self@.date,
    {
        self.date
    }

    /// The link to the server is up: what the server said before no longer counts, the
    /// cumulative use replaces what was counted since the last heartbeat, and a heartbeat
    /// is due at once.
    pub fn link_up(&mut self, users: &Vec<LocalUser>) -> (r: Vec<Outgoing>)
        ensures
            final(self)@ == after_link_up(old(self)@, users@),
            r@ == greetings(),
    {
        self.connected = true;
        self.remote.clear();
        self.deltas.clear();
        self.known_users = user_ids(users);
        self.last_heartbeat = 0;
        let mut out: Vec<Outgoing> = Vec::new();
        out.push(Outgoing::Hello);
        out.push(Outgoing::UsageSync);
        out.push(Outgoing::UserList);
        assert(out@ =~= seq![Outgoing::Hello, Outgoing::UsageSync, Outgoing::UserList]);
        out
    }

    /// The link to the server is down: cached policies count from now on.
    pub fn link_down(&mut self, now: u64)
        ensures
            final(self)@ == after_link_down(old(self)@, now),
    {
        self.connected = false;
        self.remote.clear();
        self.offline_since = now;
        self.ttl_warned = false;
    }

    /// A message could not be queued: the link is given up.
    pub fn send_failed(&mut self)
        ensures
            final(self)@ == after_send_failed(old(self)@),
    {
        self.connected = false;
    }

    /// Numbers a message for a user and keeps it until the next one. Titles and bodies are
    /// cut to what a notification can hold.
    pub fn notify(&mut self, uid: u32, title: &str, body: &str)
        ensures
            final(self)@ == notified(old(self)@, uid, title@, body@),
    {
        self.sequence = self.sequence.saturating_add(1);
        let n = Notification { id: self.sequence, title: limited(title, 128), body: limited(body, 2048) };
        self.notices.insert(uid, n);
        assert(self@.notices =~= notified(old(self)@, uid, title@, body@).notices);
    }

    /// Takes note of a message of the server.
    pub fn on_message(&mut self, message: &ServerMessage, now: u64, allow_remote_update: bool) -> (r: Reaction)
        ensures
            final(self)@ == after_message(old(self)@, *message, now),
            r == reaction_to(old(self)@, *message, allow_remote_update),
    {
        match message {
            ServerMessage::ConfigPush => {
                self.remote.clear();
                Reaction::ApplyConfig
            },
            ServerMessage::RemainingUpdate(entries) => {
                self.update_remaining(entries, now);
                Reaction::Nothing
            },
            ServerMessage::NotifyUser { local_uid, summary, body } => {
                self.notify(*local_uid, summary.as_str(), body.as_str());
                Reaction::Nothing
            },
            ServerMessage::LockNow { local_uid } => {
                self.remote.insert(*local_uid, Remote { seconds: 0, action: EnforceAction::Lock, at: now });
                Reaction::ForceLock { local_uid: *local_uid, date: self.date }
            },
            ServerMessage::ConfigReload => Reaction::SendHello,
            ServerMessage::FetchLogs => Reaction::SendLogs,
            ServerMessage::UpdateAgent => {
                if allow_remote_update && !self.updating {
                    Reaction::LaunchUpdater
                } else {
                    Reaction::RefuseUpdate
                }
            },
            ServerMessage::Unpair => {
                self.connected = false;
                self.remote.clear();
                Reaction::Nothing
            },
            ServerMessage::Other => Reaction::Nothing,
        }
    }

    fn update_remaining(&mut self, entries: &Vec<RemainingEntry>, now: u64)
        ensures
            final(self)@ == (AgentModel {
                remote: remote_after(old(self)@.remote, entries@, now),
                ..old(self)@
            }),
    {
        let mut i: usize = 0;
        while i < entries.len()
            invariant
                i <= entries.len(),
                self@ == (AgentModel {
                    remote: remote_after(old(self)@.remote, entries@.take(i as int), now),
                    ..old(self)@
                }),
            decreases entries.len() - i,
        {
            let e = entries[i];
            self.remote.insert(
                e.local_uid,
                Remote { seconds: e.remaining_minutes as i64 * 60, action: e.enforce, at: now },
            );
            i += 1;
            assert(entries@.take(i as int).drop_last() == entries@.take(i - 1));
        }
        assert(entries@.take(i as int) == entries@);
    }

    /// A user has got a new policy: the user is told, and warnings start anew.
    pub fn user_configured(&mut self, uid: u32, title: &str, body: &str)
        ensures
            final(self)@ == after_configured(old(self)@, uid, title@, body@),
    {
        self.notify(uid, title, body);
        let ghost before = self@;
        self.warnings.remove(&uid);
        assert(self@.warnings =~= before.warnings.remove(uid));
    }

    /// An updater was started.
    pub fn updater_started(&mut self)
        ensures
            final(self)@ == with_updater(old(self)@, true),
    {
        self.updating = true;
    }

    /// The updater has exited.
    pub fn updater_exited(&mut self)
        ensures
            final(self)@ == with_updater(old(self)@, false),
    {
        self.updating = false;
    }
}

/// What the loop remembers once an updater was started or has exited.
pub open spec fn with_updater(m: AgentModel, running: bool) -> AgentModel {
    AgentModel { updating: running, ..m }
}

/// While an updater runs no second one is started, and once it has exited one may be.
pub proof fn law_one_updater_at_a_time(m: AgentModel)
    ensures
        reaction_to(with_updater(m, true), ServerMessage::UpdateAgent, true) == Reaction::RefuseUpdate,
        reaction_to(with_updater(m, false), ServerMessage::UpdateAgent, true) == Reaction::LaunchUpdater,
{
}

/// What a user is told of a new policy.
#[derive(Clone, Copy, Debug, PartialEq, Eq, Structural)]
pub enum PolicyNotice {
    /// Minutes were added; so many are left.
    Added { minutes: i32, left: i32 },
    /// Minutes were taken away; so many are left.
    Reduced { minutes: i32, left: i32 },
    /// The schedule was updated.
    Updated,
}

/// The whole minutes of a number of seconds, as far as they fit.
pub open spec fn minutes_left(seconds: int) -> int {
    if seconds / 60 > i32::MAX {
        i32::MAX as int
    } else {
        seconds / 60
    }
}

/// What a user is told of a change of the day's adjustment, with so many seconds left.
pub open spec fn notice_of_change(old_minutes: i32, new_minutes: i32, remaining: i64) -> PolicyNotice {
    if new_minutes > old_minutes {
        PolicyNotice::Added {
            minutes: (new_minutes - old_minutes) as i32,
            left: minutes_left(remaining as int) as i32,
        }
    } else if new_minutes < old_minutes {
        PolicyNotice::Reduced {
            minutes: (old_minutes - new_minutes) as i32,
            left: minutes_left(remaining as int) as i32,
        }
    } else {
        PolicyNotice::Updated
    }
}

/// What a user is told when the adjustment of the day changes from one value to
/// another, with so many seconds left.
pub fn policy_notice(old_minutes: i32, new_minutes: i32, remaining: i64) -> (r: PolicyNotice)
    requires
        remaining >= 0,
        i32::MIN < new_minutes - old_minutes <= i32::MAX,
    ensures
        r == notice_of_change(old_minutes, new_minutes, remaining),
{
    let left: i32 = if remaining / 60 > i32::MAX as i64 {
        i32::MAX
    } else {
        (remaining / 60) as i32
    };
    let delta: i32 = new_minutes - old_minutes;
    if delta > 0 {
        PolicyNotice::Added { minutes: delta, left }
    } else if delta < 0 {
        PolicyNotice::Reduced { minutes: -delta, left }
    } else {
        PolicyNotice::Updated
    }
}

/// The seconds that one look can attribute at most.
pub const LONGEST_INTERVAL: u64 = 5;

/// For how many seconds what the server said of a user counts.
pub const REMOTE_LIFETIME: u64 = 30;

/// After how many seconds of a block a session that is still in use is disconnected.
pub const LOCK_PATIENCE: u64 = 4;

/// What the beginning of a look asks of the caller.
#[derive(Debug)]
pub struct TickStart {
    /// The users to whose use the interval is added, each once.
    pub credits: Vec<u32>,
    /// The day to which the interval is attributed.
    pub date: Date,
    /// The seconds of the interval.
    pub elapsed: u64,
    /// Whether to send the cumulative use, because the day has changed.
    pub sync_usage: bool,
}

/// The seconds of an interval that count.
pub open spec fn counted(now: u64, previous: u64) -> u64 {
    if since(now, previous) < LONGEST_INTERVAL {
        since(now, previous)
    } else {
        LONGEST_INTERVAL
    }
}

/// The managed users who have an active session.
pub open spec fn active_users(sessions: Seq<UserSession>, managed: Seq<u32>) -> Set<u32> {
    Set::new(
        |uid: u32|
            managed.contains(uid) && exists|i: int|
                0 <= i < sessions.len() && (#[trigger] sessions[i]).uid == uid && sessions[i].active,
    )
}

/// The managed users who were active before, in the order in which they are managed.
pub open spec fn credited(managed: Seq<u32>, active: Set<u32>) -> Seq<u32>
    decreases managed.len(),
{
    if managed.len() == 0 {
        Seq::empty()
    } else if active.contains(managed.last()) {
        credited(managed.drop_last(), active).push(managed.last())
    } else {
        credited(managed.drop_last(), active)
    }
}

/// The seconds that are counted for a user; none where nothing is.
pub open spec fn delta_of(deltas: Map<u32, u32>, uid: u32) -> u32 {
    if deltas.dom().contains(uid) {
        deltas[uid]
    } else {
        0
    }
}

/// A sum that stays at the largest number instead of passing it.
pub open spec fn capped_u32(a: u32, b: u32) -> u32 {
    if a + b <= u32::MAX {
        (a + b) as u32
    } else {
        u32::MAX
    }
}

/// What is counted for each user after an interval is added to some of them.
pub open spec fn credit_all(deltas: Map<u32, u32>, uids: Seq<u32>, elapsed: u32) -> Map<u32, u32>
    decreases uids.len(),
{
    if uids.len() == 0 {
        deltas
    } else {
        let rest = credit_all(deltas, uids.drop_last(), elapsed);
        rest.insert(uids.last(), capped_u32(delta_of(rest, uids.last()), elapsed))
    }
}

/// Whether the cached policies have become older than configured without the user
/// having been told.
pub open spec fn ttl_passes(m: AgentModel, now: u64, cache_ttl_hours: u64) -> bool {
    &&& !m.connected
    &&& !m.ttl_warned
    &&& since(now, m.offline_since) >= capped_product(cache_ttl_hours, 3600)
}

/// A product that stays at the largest number instead of passing it.
pub open spec fn capped_product(a: u64, b: u64) -> u64 {
    if a * b <= u64::MAX {
        (a * b) as u64
    } else {
        u64::MAX
    }
}

/// What the loop remembers once a look has begun.
pub open spec fn after_tick_start(
    m: AgentModel,
    now: u64,
    today: Date,
    sessions: Seq<UserSession>,
    managed: Seq<u32>,
) -> AgentModel {
    let elapsed = counted(now, m.previous_tick);
    let deltas = credit_all(m.deltas, credited(managed, m.active), elapsed as u32);
    let new_day = today != m.date;
    AgentModel {
        previous_tick: now,
        active: active_users(sessions, managed),
        date: today,
        remote: if new_day {
            Map::empty()
        } else {
            m.remote
        },
        deltas: if new_day {
            Map::empty()
        } else {
            deltas
        },
        warnings: if new_day {
            Map::empty()
        } else {
            m.warnings
        },
        ..m
    }
}

/// Whether a look that begins sends the cumulative use, because the day has changed.
pub open spec fn syncs_usage(m: AgentModel, today: Date) -> bool {
    today != m.date && m.connected
}

/// What the loop remembers once the link was given up because a message could not be queued.
pub open spec fn after_send_failed(m: AgentModel) -> AgentModel {
    AgentModel { connected: false, ..m }
}

/// What the loop remembers once the age of the cached policies was looked at.
pub open spec fn after_ttl_check(m: AgentModel, now: u64, cache_ttl_hours: u64) -> AgentModel {
    AgentModel { ttl_warned: m.ttl_warned || ttl_passes(m, now, cache_ttl_hours), ..m }
}

/// Whether a list holds a number.
pub fn lists(v: &Vec<u32>, n: u32) -> (r: bool)
    ensures
        r == v@.contains(n),
{
    for i in 0..v.len()
        invariant
            forall|j: int| 0 <= j < i ==> v@[j] != n,
    {
        if v[i] == n {
            assert(v@[i as int] == n);
            return true;
        }
    }
    false
}

impl Agent {
    /// Begins a look at the sessions. The interval since the last look is attributed to
    /// the users who were active then and are still managed, on the day of that look. A
    /// change of day ends what the server said and what was counted and warned of.
    pub fn tick_start(
        &mut self,
        now: u64,
        today: Date,
        sessions: &Vec<UserSession>,
        managed: &Vec<u32>,
    ) -> (r: TickStart)
        requires
            managed@.no_duplicates(),
        ensures
            final(self)@ == after_tick_start(old(self)@, now, today, sessions@, managed@),
            r.credits@ == credited(managed@, old(self)@.active),
            r.date == old(self)@.date,
            r.elapsed == counted(now, old(self)@.previous_tick),
            r.sync_usage == syncs_usage(old(self)@, today),
    {
        let gap = now.saturating_sub(self.previous_tick);
        let elapsed: u64 = if gap < LONGEST_INTERVAL {
            gap
        } else {
            LONGEST_INTERVAL
        };
        self.previous_tick = now;
        let credits = self.credit(managed, elapsed as u32);
        self.active = find_active(sessions, managed);
        let date = self.date;
        let new_day = today != date;
        if new_day {
            self.date = today;
            self.remote.clear();
            self.deltas.clear();
            self.warnings.clear();
        }
        let sync_usage = new_day && self.connected;
        assert(new_day ==> self@.warnings =~= Map::empty());
        TickStart { credits, date, elapsed, sync_usage }
    }

    /// Whether the cached policies have just become older than configured without a link;
    /// it is so once until the link is lost again. They go on being enforced. A look asks
    /// this after it has sent the use of the day that ended, since that may end the link.
    pub fn ttl_exceeded(&mut self, now: u64, cache_ttl_hours: u64) -> (r: bool)
        ensures
            final(self)@ == after_ttl_check(old(self)@, now, cache_ttl_hours),
            r == ttl_passes(old(self)@, now, cache_ttl_hours),
    {
        let ttl: u64 = match cache_ttl_hours.checked_mul(3600) {
            Some(secs) => secs,
            None => u64::MAX,
        };
        let passes = !self.connected && !self.ttl_warned && now.saturating_sub(self.offline_since) >= ttl;
        if passes {
            self.ttl_warned = true;
        }
        passes
    }

    fn credit(&mut self, managed: &Vec<u32>, elapsed: u32) -> (r: Vec<u32>)
        ensures
            r@ == credited(managed@, old(self)@.active),
            final(self)@ == (AgentModel {
                deltas: credit_all(old(self)@.deltas, credited(managed@, old(self)@.active), elapsed),
                ..old(self)@
            }),
    {
        let mut out: Vec<u32> = Vec::new();
        let mut i: usize = 0;
        while i < managed.len()
            invariant
                i <= managed.len(),
                out@ == credited(managed@.take(i as int), old(self)@.active),
                self@ == (AgentModel {
                    deltas: credit_all(old(self)@.deltas, out@, elapsed),
                    ..old(self)@
                }),
            decreases managed.len() - i,
        {
            let uid = managed[i];
            assert(managed@.take(i + 1).drop_last() == managed@.take(i as int));
            if self.active.contains(&uid) {
                let counted: u32 = match self.deltas.get(&uid) {
                    Some(n) => *n,
                    None => 0,
                };
                self.deltas.insert(uid, counted.saturating_add(elapsed));
                let ghost before = out@;
                out.push(uid);
                assert(out@.drop_last() == before);
            }
            i += 1;
        }
        assert(managed@.take(i as int) == managed@);
        out
    }
}

/// The managed users who have an active session.
fn find_active(sessions: &Vec<UserSession>, managed: &Vec<u32>) -> (r: HashSet<u32>)
    ensures
        r@ == active_users(sessions@, managed@),
{
    let mut out: HashSet<u32> = HashSet::new();
    assert(out@ =~= active_users(sessions@.take(0), managed@));
    for i in 0..sessions.len()
        invariant
            out@ == active_users(sessions@.take(i as int), managed@),
    {
        let ghost before = out@;
        let s = &sessions[i];
        let ghost prev = sessions@.take(i as int);
        let ghost next = sessions@.take(i + 1);
        if s.active && lists(managed, s.uid) {
            out.insert(s.uid);
        }
        proof {
            assert forall|uid: u32| out@.contains(uid) <==> active_users(next, managed@).contains(uid) by {
                assert(next[i as int] == *s);
                if active_users(prev, managed@).contains(uid) {
                    let k = choose|k: int| 0 <= k < prev.len() && (#[trigger] prev[k]).uid == uid && prev[k].active;
                    assert(next[k] == prev[k]);
                }
                if active_users(next, managed@).contains(uid) {
                    let k = choose|k: int| 0 <= k < next.len() && (#[trigger] next[k]).uid == uid && next[k].active;
                    if k < i {
                        assert(prev[k] == next[k]);
                    }
                }
            }
            assert(out@ =~= active_users(next, managed@));
        }
    }
    assert(sessions@.take(sessions@.len() as int) == sessions@);
    out
}

/// A message that a look gives rise to.
#[derive(Clone, Copy, Debug, PartialEq, Eq, Structural)]
pub enum TickNotice {
    /// The session is about to be locked.
    Lock,
    /// So many minutes are left.
    Warning { minutes: i64 },
}

/// What a look at one user asks of the caller.
#[derive(Debug)]
pub struct UserTick {
    /// The seconds that the user may go on; `i64::MAX` for no bound.
    pub seconds: i64,
    pub blocked: bool,
    /// What to tell the user.
    pub notice: Option<TickNotice>,
    /// The sessions to log off.
    pub logoff: Vec<u32>,
    /// The sessions to disconnect, which keeps their applications.
    pub disconnect: Vec<u32>,
}

/// The seconds that count: what the server said while there is a link and what it said
/// is fresh, what the cached policy leaves otherwise.
pub open spec fn effective_seconds(m: AgentModel, uid: u32, local: i64, now: u64) -> i64 {
    if m.connected && m.remote.dom().contains(uid) && since(now, m.remote[uid].at) < REMOTE_LIFETIME {
        if m.remote[uid].action == EnforceAction::Lock {
            0
        } else {
            m.remote[uid].seconds
        }
    } else {
        local
    }
}

/// The grace timer of a user.
pub open spec fn lock_of(m: AgentModel, uid: u32) -> LockModel {
    if m.locks.dom().contains(uid) {
        m.locks[uid]
    } else {
        lock_initial()
    }
}

/// The thresholds at which a user has been warned.
pub open spec fn warned_of(m: AgentModel, uid: u32) -> Set<u32> {
    if m.warnings.dom().contains(uid) {
        m.warnings[uid]
    } else {
        Set::empty()
    }
}

/// Whether warnings apply: time is left, and it is bounded.
pub open spec fn warns(seconds: i64) -> bool {
    seconds > 0 && seconds != i64::MAX
}

/// The thresholds at which a user has been warned, with so many minutes left: those
/// that are reached, and none that is not.
pub open spec fn warned_next(warned: Set<u32>, thresholds: Seq<u32>, minutes: int) -> Set<u32> {
    Set::new(
        |t: u32|
            if thresholds.contains(t) {
                minutes <= t
            } else {
                warned.contains(t)
            },
    )
}

/// Whether a threshold is reached at which the user has not been warned yet.
pub open spec fn newly_reached(warned: Set<u32>, thresholds: Seq<u32>, minutes: int) -> bool {
    exists|i: int| 0 <= i < thresholds.len() && minutes <= #[trigger] thresholds[i] && !warned.contains(thresholds[i])
}

/// The seconds after which a blocked session that is not preserved is logged off.
pub open spec fn grace_seconds(settings: UserSettings) -> u64 {
    (settings.lockout_grace_minutes * 60 + 4) as u64
}

/// The grace timer of a user after a look.
pub open spec fn lock_after_tick(m: AgentModel, uid: u32, seconds: i64, settings: UserSettings, now: u64) -> LockModel {
    lock_next(lock_of(m, uid), seconds <= 0, settings.preserve_tasks_on_lock, grace_seconds(settings), now)
}

/// Since when the user is blocked, after a look that finds the user blocked.
pub open spec fn blocked_since(m: AgentModel, uid: u32, now: u64) -> u64 {
    if m.lock_started.dom().contains(uid) {
        m.lock_started[uid]
    } else {
        now
    }
}

/// What the loop remembers after a look at one user.
pub open spec fn after_user_tick(
    m: AgentModel,
    uid: u32,
    seconds: i64,
    settings: UserSettings,
    now: u64,
) -> AgentModel {
    AgentModel {
        lock_started: if seconds <= 0 {
            m.lock_started.insert(uid, blocked_since(m, uid, now))
        } else {
            m.lock_started.remove(uid)
        },
        locks: m.locks.insert(uid, lock_after_tick(m, uid, seconds, settings, now)),
        warnings: if warns(seconds) {
            m.warnings.insert(
                uid,
                warned_next(warned_of(m, uid), settings.warning_thresholds@, seconds as int / 60),
            )
        } else {
            m.warnings
        },
        ..m
    }
}

/// What a user is told after a look: of a block once, when it begins, and of a threshold
/// when it is reached.
pub open spec fn tick_notice(
    m: AgentModel,
    uid: u32,
    seconds: i64,
    settings: UserSettings,
) -> Option<TickNotice> {
    if seconds <= 0 {
        if m.lock_started.dom().contains(uid) {
            None
        } else {
            Some(TickNotice::Lock)
        }
    } else if warns(seconds) && newly_reached(
        warned_of(m, uid),
        settings.warning_thresholds@,
        seconds as int / 60,
    ) {
        Some(TickNotice::Warning { minutes: (seconds as int / 60) as i64 })
    } else {
        None
    }
}

/// The sessions of a user.
pub open spec fn sessions_of(sessions: Seq<UserSession>, uid: u32) -> Seq<u32>
    decreases sessions.len(),
{
    if sessions.len() == 0 {
        Seq::empty()
    } else if sessions.last().uid == uid {
        sessions_of(sessions.drop_last(), uid).push(sessions.last().id)
    } else {
        sessions_of(sessions.drop_last(), uid)
    }
}

/// The sessions of a user that are not locked.
pub open spec fn unlocked_of(sessions: Seq<UserSession>, uid: u32) -> Seq<u32>
    decreases sessions.len(),
{
    if sessions.len() == 0 {
        Seq::empty()
    } else if sessions.last().uid == uid && !sessions.last().locked {
        unlocked_of(sessions.drop_last(), uid).push(sessions.last().id)
    } else {
        unlocked_of(sessions.drop_last(), uid)
    }
}

/// Whether so many seconds block a user.
pub open spec fn no_time(seconds: i64) -> bool {
    seconds <= 0
}

/// The sessions that a look at a user logs off: those of the user, where the grace timer says
/// so.
pub open spec fn logged_off(
    m: AgentModel,
    uid: u32,
    seconds: i64,
    settings: UserSettings,
    sessions: Seq<UserSession>,
    now: u64,
) -> Seq<u32> {
    if logs_off(lock_of(after_user_tick(m, uid, seconds, settings, now), uid), now) {
        sessions_of(sessions, uid)
    } else {
        Seq::empty()
    }
}

/// The sessions that a look at a user disconnects: those that are still in use a few seconds
/// after the block began, unless they are logged off.
pub open spec fn disconnected(
    m: AgentModel,
    uid: u32,
    seconds: i64,
    settings: UserSettings,
    sessions: Seq<UserSession>,
    now: u64,
) -> Seq<u32> {
    if !logs_off(lock_of(after_user_tick(m, uid, seconds, settings, now), uid), now) && no_time(seconds) && since(
        now,
        blocked_since(m, uid, now),
    ) >= LOCK_PATIENCE {
        unlocked_of(sessions, uid)
    } else {
        Seq::empty()
    }
}

/// The sessions of a user.
pub fn user_sessions(sessions: &Vec<UserSession>, uid: u32) -> (r: Vec<u32>)
    ensures
        r@ == sessions_of(sessions@, uid),
{
    let mut out: Vec<u32> = Vec::new();
    for i in 0..sessions.len()
        invariant
            out@ == sessions_of(sessions@.take(i as int), uid),
    {
        assert(sessions@.take(i + 1).drop_last() == sessions@.take(i as int));
        if sessions[i].uid == uid {
            out.push(sessions[i].id);
        }
    }
    assert(sessions@.take(sessions@.len() as int) == sessions@);
    out
}

/// The sessions of a user that are not locked.
pub fn unlocked_sessions(sessions: &Vec<UserSession>, uid: u32) -> (r: Vec<u32>)
    ensures
        r@ == unlocked_of(sessions@, uid),
{
    let mut out: Vec<u32> = Vec::new();
    for i in 0..sessions.len()
        invariant
            out@ == unlocked_of(sessions@.take(i as int), uid),
    {
        assert(sessions@.take(i + 1).drop_last() == sessions@.take(i as int));
        if sessions[i].uid == uid && !sessions[i].locked {
            out.push(sessions[i].id);
        }
    }
    assert(sessions@.take(sessions@.len() as int) == sessions@);
    out
}

/// Marks the thresholds that are reached and unmarks those that are not; whether one was
/// reached that had not been marked.
fn mark_thresholds(warned: &mut HashSet<u32>, thresholds: &Vec<u32>, minutes: i64) -> (r: bool)
    requires
        minutes >= 0,
    ensures
        final(warned)@ == warned_next(old(warned)@, thresholds@, minutes as int),
        r == newly_reached(old(warned)@, thresholds@, minutes as int),
{
    let mut crossed = false;
    let ghost start = warned@;
    let mut i: usize = 0;
    assert(warned@ =~= warned_next(start, thresholds@.take(0), minutes as int));
    while i < thresholds.len()
        invariant
            i <= thresholds.len(),
            minutes >= 0,
            warned@ == warned_next(start, thresholds@.take(i as int), minutes as int),
            crossed == newly_reached(start, thresholds@.take(i as int), minutes as int),
        decreases thresholds.len() - i,
    {
        let t = thresholds[i];
        let ghost before = warned@;
        let ghost prev = thresholds@.take(i as int);
        let ghost next = thresholds@.take(i + 1);
        assert(next[i as int] == t);
        assert forall|u: u32| next.contains(u) <==> prev.contains(u) || u == t by {
            if prev.contains(u) {
                let k = choose|k: int| 0 <= k < prev.len() && prev[k] == u;
                assert(next[k] == u);
            }
            if next.contains(u) {
                let k = choose|k: int| 0 <= k < next.len() && next[k] == u;
                if k < i {
                    assert(prev[k] == u);
                }
            }
        }
        if minutes > t as i64 {
            warned.remove(&t);
        } else {
            let inserted = warned.insert(t);
            proof {
                if inserted {
                    assert(!start.contains(t));
                    assert(newly_reached(start, next, minutes as int));
                } else if !start.contains(t) {
                    let k = choose|k: int| 0 <= k < prev.len() && prev[k] == t;
                    assert(newly_reached(start, prev, minutes as int)) by {
                        assert(minutes <= prev[k] && !start.contains(prev[k]));
                    }
                }
            }
            if inserted {
                crossed = true;
            }
        }
        proof {
            if newly_reached(start, prev, minutes as int) {
                let k = choose|k: int| 0 <= k < prev.len() && minutes <= #[trigger] prev[k] && !start.contains(prev[k]);
                assert(minutes <= next[k] && !start.contains(next[k]));
            }
            if newly_reached(start, next, minutes as int) {
                let k = choose|k: int| 0 <= k < next.len() && minutes <= #[trigger] next[k] && !start.contains(next[k]);
                if k < i {
                    assert(minutes <= prev[k] && !start.contains(prev[k]));
                }
            }
            assert(warned@ =~= warned_next(start, next, minutes as int));
        }
        i += 1;
    }
    assert(thresholds@.take(i as int) == thresholds@);
    crossed
}

impl Agent {
    /// Looks at one user, for whom the cached policy leaves `local` seconds. A session is
    /// logged off when its grace period is over. One that is blocked and still in use
    /// after a few seconds is disconnected, which keeps its applications: this holds even
    /// where the user ends or suspends the helper before it can lock the desktop.
    pub fn tick_user(
        &mut self,
        uid: u32,
        local: i64,
        settings: &UserSettings,
        sessions: &Vec<UserSession>,
        now: u64,
    ) -> (r: UserTick)
        ensures
            r.seconds == effective_seconds(old(self)@, uid, local, now),
            r.blocked == no_time(r.seconds),
            final(self)@ == after_user_tick(old(self)@, uid, r.seconds, *settings, now),
            r.notice == tick_notice(old(self)@, uid, r.seconds, *settings),
            r.logoff@ == logged_off(old(self)@, uid, r.seconds, *settings, sessions@, now),
            r.disconnect@ == disconnected(old(self)@, uid, r.seconds, *settings, sessions@, now),
    {
        let seconds: i64 = match self.remote.get(&uid) {
            Some(said) => {
                if self.connected && now.saturating_sub(said.at) < REMOTE_LIFETIME {
                    if said.action == EnforceAction::Lock {
                        0
                    } else {
                        said.seconds
                    }
                } else {
                    local
                }
            },
            None => local,
        };
        let blocked = seconds <= 0;
        let mut notice: Option<TickNotice> = None;
        let mut started: u64 = now;
        if blocked {
            match self.lock_started.get(&uid) {
                Some(at) => {
                    started = *at;
                },
                None => {
                    notice = Some(TickNotice::Lock);
                },
            }
            self.lock_started.insert(uid, started);
        } else {
            self.lock_started.remove(&uid);
        }
        let mut lock = match self.locks.get(&uid) {
            Some(l) => *l,
            None => LockState::default(),
        };
        let grace: u64 = settings.lockout_grace_minutes as u64 * 60 + 4;
        let terminate = lock.update(blocked, settings.preserve_tasks_on_lock, grace, now);
        self.locks.insert(uid, lock);
        if seconds > 0 && seconds != i64::MAX {
            let mut warned = match self.warnings.remove(&uid) {
                Some(w) => w,
                None => HashSet::new(),
            };
            if mark_thresholds(&mut warned, &settings.warning_thresholds, seconds / 60) {
                notice = Some(TickNotice::Warning { minutes: seconds / 60 });
            }
            self.warnings.insert(uid, warned);
        }
        let logoff = if terminate {
            user_sessions(sessions, uid)
        } else {
            Vec::new()
        };
        let disconnect = if !terminate && blocked && now.saturating_sub(started) >= LOCK_PATIENCE {
            unlocked_sessions(sessions, uid)
        } else {
            Vec::new()
        };
        proof {
            let m = after_user_tick(old(self)@, uid, seconds, *settings, now);
            assert(self@.locks =~= m.locks);
            assert(self@.warnings =~= m.warnings);
            assert(self@.lock_started =~= m.lock_started);
        }
        UserTick { seconds, blocked, notice, logoff, disconnect }
    }

    /// What the helper of a session of a user is told after a look.
    pub fn session_status(
        &self,
        uid: u32,
        tick: &UserTick,
        language: &str,
        admin_url: &str,
        proxy_port: Option<u16>,
    ) -> (r: SessionStatus)
        ensures
            r@ == status_for(self@, uid, tick.seconds, tick.blocked, language@, admin_url@, proxy_port),
    {
        SessionStatus {
            remaining_seconds: if tick.seconds != i64::MAX {
                Some(tick.seconds)
            } else {
                None
            },
            blocked: tick.blocked,
            online: self.connected,
            language: language.to_owned(),
            admin_url: admin_url.to_owned(),
            proxy_port,
            notification: match self.notices.get(&uid) {
                Some(n) => Some(n.copy()),
                None => None,
            },
        }
    }
}

/// What the helper of a session of a user is told.
pub open spec fn status_for(
    m: AgentModel,
    uid: u32,
    seconds: i64,
    blocked: bool,
    language: Seq<char>,
    admin_url: Seq<char>,
    proxy_port: Option<u16>,
) -> SessionStatusView {
    SessionStatusView {
        remaining_seconds: if seconds != i64::MAX {
            Some(seconds)
        } else {
            None
        },
        blocked,
        online: m.connected,
        language,
        admin_url,
        proxy_port,
        notification: if m.notices.dom().contains(uid) {
            Some(m.notices[uid])
        } else {
            None
        },
    }
}

/// The entries of a map for the listed users.
pub open spec fn retained<V>(m: Map<u32, V>, uids: Seq<u32>) -> Map<u32, V> {
    m.restrict(uids.to_set())
}

/// Keeps the grace timers of the listed users.
fn retain_locks(locks: &mut HashMap<u32, LockState>, uids: &Vec<u32>)
    ensures
        final(locks)@ == retained(old(locks)@, uids@),
{
    let mut kept: HashMap<u32, LockState> = HashMap::new();
    let mut i: usize = 0;
    assert(kept@ =~= retained(locks@, uids@.take(0)));
    while i < uids.len()
        invariant
            i <= uids.len(),
            locks@ == old(locks)@,
            kept@ == retained(locks@, uids@.take(i as int)),
        decreases uids.len() - i,
    {
        let uid = uids[i];
        match locks.get(&uid) {
            Some(l) => {
                kept.insert(uid, *l);
            },
            None => {},
        }
        proof {
            lemma_take_next(uids@, i as int);
            assert(kept@ =~= retained(locks@, uids@.take(i + 1)));
        }
        i += 1;
    }
    assert(uids@.take(i as int) == uids@);
    *locks = kept;
}

/// Keeps the beginnings of blocks of the listed users.
fn retain_starts(starts: &mut HashMap<u32, u64>, uids: &Vec<u32>)
    ensures
        final(starts)@ == retained(old(starts)@, uids@),
{
    let mut kept: HashMap<u32, u64> = HashMap::new();
    let mut i: usize = 0;
    assert(kept@ =~= retained(starts@, uids@.take(0)));
    while i < uids.len()
        invariant
            i <= uids.len(),
            starts@ == old(starts)@,
            kept@ == retained(starts@, uids@.take(i as int)),
        decreases uids.len() - i,
    {
        let uid = uids[i];
        match starts.get(&uid) {
            Some(at) => {
                kept.insert(uid, *at);
            },
            None => {},
        }
        proof {
            lemma_take_next(uids@, i as int);
            assert(kept@ =~= retained(starts@, uids@.take(i + 1)));
        }
        i += 1;
    }
    assert(uids@.take(i as int) == uids@);
    *starts = kept;
}

proof fn lemma_take_next(s: Seq<u32>, i: int)
    requires
        0 <= i < s.len(),
    ensures
        forall|n: u32| #[trigger] s.take(i + 1).contains(n) <==> s.take(i).contains(n) || n == s[i],
{
    assert forall|n: u32| #[trigger] s.take(i + 1).contains(n) <==> s.take(i).contains(n) || n == s[i] by {
        let prev = s.take(i);
        let next = s.take(i + 1);
        assert(next[i] == s[i]);
        if prev.contains(n) {
            let k = choose|k: int| 0 <= k < prev.len() && prev[k] == n;
            assert(next[k] == n);
        }
        if next.contains(n) {
            let k = choose|k: int| 0 <= k < next.len() && next[k] == n;
            if k < i {
                assert(prev[k] == n);
            }
        }
    }
}

/// The users of one list that another lacks.
pub open spec fn missing(known: Seq<u32>, next: Seq<u32>) -> Seq<u32>
    decreases known.len(),
{
    if known.len() == 0 {
        Seq::empty()
    } else if next.contains(known.last()) {
        missing(known.drop_last(), next)
    } else {
        missing(known.drop_last(), next).push(known.last())
    }
}

/// The users of one list that another lacks.
fn find_missing(known: &Vec<u32>, next: &Vec<u32>) -> (r: Vec<u32>)
    ensures
        r@ == missing(known@, next@),
{
    let mut out: Vec<u32> = Vec::new();
    for i in 0..known.len()
        invariant
            out@ == missing(known@.take(i as int), next@),
    {
        assert(known@.take(i + 1).drop_last() == known@.take(i as int));
        if !lists(next, known[i]) {
            out.push(known[i]);
        }
    }
    assert(known@.take(known@.len() as int) == known@);
    out
}

/// What the loop remembers after a scan of the users and of the time zone.
pub open spec fn after_scan(m: AgentModel, now: u64, timezone: Seq<char>, users: Seq<LocalUser>) -> AgentModel {
    AgentModel {
        timezone,
        remote: if timezone != m.timezone {
            Map::empty()
        } else {
            m.remote
        },
        known_users: uids_of(users),
        last_scan: now,
        ..m
    }
}

/// What a scan of the users asks of the caller: first a hello, where the time zone has
/// changed, then the list of users.
#[derive(Debug)]
pub struct Scan {
    pub hello: bool,
    pub removed_uids: Vec<u32>,
}

/// What a heartbeat says of one user.
#[derive(Clone, Copy, Debug, PartialEq, Eq, Structural)]
pub struct HeartbeatUser {
    pub local_uid: u32,
    pub active_seconds_since_last: u32,
    pub idle: bool,
    pub session_count: u32,
}

/// What a heartbeat says of a user.
pub open spec fn heartbeat_of(m: AgentModel, uid: u32, sessions: Seq<UserSession>) -> HeartbeatUser {
    HeartbeatUser {
        local_uid: uid,
        active_seconds_since_last: delta_of(m.deltas, uid),
        idle: !m.active.contains(uid),
        session_count: sessions_of(sessions, uid).len() as u32,
    }
}

/// Whether a heartbeat is due.
pub open spec fn heartbeat_is_due(m: AgentModel, now: u64, heartbeat_interval: u64) -> bool {
    since(now, m.last_heartbeat) >= heartbeat_interval
}

/// What the loop remembers once a heartbeat was sent.
pub open spec fn after_heartbeat(m: AgentModel, now: u64) -> AgentModel {
    AgentModel { deltas: Map::empty(), last_heartbeat: now, ..m }
}

/// Whether the users are to be scanned again.
pub open spec fn scan_is_due(m: AgentModel, now: u64, user_scan_interval: u64) -> bool {
    since(now, m.last_scan) >= user_scan_interval
}

/// Whether a scan asks for a hello, because the time zone has changed.
pub open spec fn says_hello(m: AgentModel, timezone: Seq<char>) -> bool {
    timezone != m.timezone
}

/// What the loop remembers once a look at the users has ended.
pub open spec fn after_tick_end(m: AgentModel, managed: Seq<u32>) -> AgentModel {
    AgentModel {
        locks: retained(m.locks, managed),
        lock_started: retained(m.lock_started, managed),
        ..m
    }
}

impl Agent {
    /// Ends a look at the users: what concerns a user who is no longer managed is
    /// forgotten.
    pub fn tick_end(&mut self, managed: &Vec<u32>)
        ensures
            final(self)@ == after_tick_end(old(self)@, managed@),
    {
        retain_locks(&mut self.locks, managed);
        retain_starts(&mut self.lock_started, managed);
        assert(self@.locks =~= retained(old(self)@.locks, managed@));
    }

    /// Whether the users are to be scanned again.
    pub fn scan_due(&self, now: u64, user_scan_interval: u64) -> (r: bool)
        ensures
            r == scan_is_due(self@, now, user_scan_interval),
    {
        now.saturating_sub(self.last_scan) >= user_scan_interval
    }

    /// Takes note of a scan of the users and of the time zone. A change of time zone ends
    /// what the server said.
    pub fn scanned(&mut self, now: u64, timezone: &str, users: &Vec<LocalUser>) -> (r: Scan)
        ensures
            final(self)@ == after_scan(old(self)@, now, timezone@, users@),
            r.hello == says_hello(old(self)@, timezone@),
            r.removed_uids@ == missing(old(self)@.known_users, uids_of(users@)),
    {
        let hello = !same(timezone, self.timezone.as_str());
        if hello {
            self.timezone = timezone.to_owned();
            self.remote.clear();
        }
        let next = user_ids(users);
        let removed_uids = find_missing(&self.known_users, &next);
        self.known_users = next;
        self.last_scan = now;
        Scan { hello, removed_uids }
    }

    /// The heartbeat, when it is due: what was counted for each managed user since the
    /// last one.
    pub fn heartbeat(
        &mut self,
        now: u64,
        heartbeat_interval: u64,
        managed: &Vec<u32>,
        sessions: &Vec<UserSession>,
    ) -> (r: Option<Vec<HeartbeatUser>>)
        ensures
            match r {
                Some(users) => {
                    &&& heartbeat_is_due(old(self)@, now, heartbeat_interval)
                    &&& users@ == Seq::new(
                        managed@.len(),
                        |i: int| heartbeat_of(old(self)@, managed@[i], sessions@),
                    )
                    &&& final(self)@ == after_heartbeat(old(self)@, now)
                },
                None => !heartbeat_is_due(old(self)@, now, heartbeat_interval) && final(self)@ == old(self)@,
            },
    {
        if now.saturating_sub(self.last_heartbeat) < heartbeat_interval {
            return None;
        }
        let mut users: Vec<HeartbeatUser> = Vec::new();
        let mut i: usize = 0;
        while i < managed.len()
            invariant
                i <= managed.len(),
                self@ == old(self)@,
                users@ == Seq::new(i as nat, |j: int| heartbeat_of(old(self)@, managed@[j], sessions@)),
            decreases managed.len() - i,
        {
            let uid = managed[i];
            let counted: u32 = match self.deltas.get(&uid) {
                Some(n) => *n,
                None => 0,
            };
            let count = user_sessions(sessions, uid).len();
            let idle = !self.active.contains(&uid);
            users.push(
                HeartbeatUser {
                    local_uid: uid,
                    active_seconds_since_last: counted,
                    idle,
                    session_count: #[verifier::truncate] (count as u32),
                },
            );
            i += 1;
            assert(users@ =~= Seq::new(i as nat, |j: int| heartbeat_of(old(self)@, managed@[j], sessions@)));
        }
        self.deltas.clear();
        self.last_heartbeat = now;
        Some(users)
    }
}

/// Whether a helper process is kept.
pub open spec fn stays_helper(sessions: Seq<u32>, session: u32, running: bool) -> bool {
    sessions.contains(session) && running
}

/// A helper is kept exactly where it runs and its session is one of the list.
pub proof fn law_helpers_stay_with_their_session(sessions: Seq<u32>, session: u32, running: bool)
    ensures
        stays_helper(sessions, session, running) <==> running && exists|i: int|
            0 <= i < sessions.len() && #[trigger] sessions[i] == session,
{
}

/// Whether a helper process is kept: its session is still there, and it runs.
pub fn keeps_helper(sessions: &Vec<u32>, session: u32, running: bool) -> (r: bool)
    ensures
        r == stays_helper(sessions@, session, running),
{
    lists(sessions, session) && running
}

/// The sessions that have no helper.
pub fn sessions_without_helper(sessions: &Vec<u32>, helpers: &Vec<u32>) -> (r: Vec<u32>)
    ensures
        r@ == missing(sessions@, helpers@),
{
    find_missing(sessions, helpers)
}

/// A message for one user changes nothing of what another user is told.
pub proof fn law_messages_reach_their_user_only(
    m: AgentModel,
    uid: u32,
    title: Seq<char>,
    body: Seq<char>,
    other: u32,
)
    requires
        other != uid,
    ensures
        notified(m, uid, title, body).notices.dom().contains(other) <==> m.notices.dom().contains(other),
        m.notices.dom().contains(other) ==> notified(m, uid, title, body).notices[other] == m.notices[other],
        notified(m, uid, title, body).notices.dom().contains(uid),
{
}

/// No updater is started without consent, nor while one is running.
pub proof fn law_no_update_without_consent(m: AgentModel, message: ServerMessage, allow_remote_update: bool)
    ensures
        reaction_to(m, message, allow_remote_update) == Reaction::LaunchUpdater ==> allow_remote_update
            && !m.updating && message is UpdateAgent,
{
}

/// The seconds that a series of looks counts, one look after another.
pub open spec fn counted_in_all(looks: Seq<u64>) -> int
    decreases looks.len(),
{
    if looks.len() < 2 {
        0
    } else {
        counted_in_all(looks.drop_last()) + counted(looks.last(), looks[looks.len() - 2])
    }
}

/// However often and however irregularly the loop looks, no more seconds are counted than
/// have passed on a clock that does not go back.
pub proof fn law_no_more_time_counts_than_passes(looks: Seq<u64>)
    requires
        looks.len() > 0,
        forall|i: int, j: int| 0 <= i <= j < looks.len() ==> looks[i] <= looks[j],
    ensures
        0 <= counted_in_all(looks) <= looks.last() - looks[0],
    decreases looks.len(),
{
    if looks.len() >= 2 {
        let front = looks.drop_last();
        assert forall|i: int, j: int| 0 <= i <= j < front.len() implies front[i] <= front[j] by {
            assert(front[i] == looks[i] && front[j] == looks[j]);
        }
        law_no_more_time_counts_than_passes(front);
        assert(front.last() == looks[looks.len() - 2]);
        assert(looks[looks.len() - 2] <= looks[looks.len() - 1]);
    }
}

/// An interval is credited to the users who were active before and are managed, and to
/// each of them once, however many sessions they have.
pub proof fn law_each_active_user_is_credited_once(managed: Seq<u32>, active: Set<u32>)
    requires
        managed.no_duplicates(),
    ensures
        credited(managed, active).no_duplicates(),
        forall|uid: u32| #[trigger]
            credited(managed, active).contains(uid) <==> managed.contains(uid) && active.contains(uid),
    decreases managed.len(),
{
    if managed.len() > 0 {
        let rest = managed.drop_last();
        assert(rest.no_duplicates());
        law_each_active_user_is_credited_once(rest, active);
        let before = credited(rest, active);
        let after = credited(managed, active);
        assert forall|uid: u32| #[trigger] after.contains(uid) <==> managed.contains(uid) && active.contains(uid) by {
            assert(managed[managed.len() - 1] == managed.last());
            if managed.contains(uid) {
                let k = choose|k: int| 0 <= k < managed.len() && managed[k] == uid;
                if k < rest.len() {
                    assert(rest[k] == uid);
                }
            }
            if rest.contains(uid) {
                let k = choose|k: int| 0 <= k < rest.len() && rest[k] == uid;
                assert(managed[k] == uid);
            }
            if before.contains(uid) {
                let k = choose|k: int| 0 <= k < before.len() && before[k] == uid;
                assert(after[k] == uid);
            }
            if active.contains(managed.last()) {
                assert(after[before.len() as int] == managed.last());
                if after.contains(uid) {
                    let k = choose|k: int| 0 <= k < after.len() && after[k] == uid;
                    if k < before.len() {
                        assert(before[k] == uid);
                    }
                }
            }
        }
        assert(after.no_duplicates()) by {
            if active.contains(managed.last()) {
                assert(!before.contains(managed.last())) by {
                    if before.contains(managed.last()) {
                        let k = choose|k: int| 0 <= k < rest.len() && rest[k] == managed.last();
                        assert(managed[k] == managed[managed.len() - 1]);
                    }
                }
                assert forall|a: int, b: int| 0 <= a < after.len() && 0 <= b < after.len() && a != b implies after[a]
                    != after[b] by {
                    if a < before.len() && b < before.len() {
                        assert(before[a] != before[b]);
                    } else if a < before.len() {
                        assert(before.contains(before[a]));
                    } else {
                        assert(before.contains(before[b]));
                    }
                }
            }
        }
    }
}

/// What is counted for a user grows by the interval where the user is credited, and stays
/// as it is otherwise.
pub proof fn law_credit_adds_one_interval(deltas: Map<u32, u32>, uids: Seq<u32>, elapsed: u32, uid: u32)
    requires
        uids.no_duplicates(),
    ensures
        delta_of(credit_all(deltas, uids, elapsed), uid) == if uids.contains(uid) {
            capped_u32(delta_of(deltas, uid), elapsed)
        } else {
            delta_of(deltas, uid)
        },
    decreases uids.len(),
{
    if uids.len() > 0 {
        let rest = uids.drop_last();
        assert(rest.no_duplicates());
        law_credit_adds_one_interval(deltas, rest, elapsed, uid);
        assert(uids[uids.len() - 1] == uids.last());
        if rest.contains(uid) {
            let k = choose|k: int| 0 <= k < rest.len() && rest[k] == uid;
            assert(uids[k] == uid);
        }
        if uids.contains(uid) && uid != uids.last() {
            let k = choose|k: int| 0 <= k < uids.len() && uids[k] == uid;
            assert(rest[k] == uid);
        }
        if rest.contains(uids.last()) {
            let k = choose|k: int| 0 <= k < rest.len() && rest[k] == uids.last();
            assert(uids[k] == uids[uids.len() - 1]);
        }
    }
}

/// No interval counts for more than the time that passed, nor for more than the longest
/// interval.
pub proof fn law_no_interval_counts_double(now: u64, previous: u64)
    ensures
        counted(now, previous) <= since(now, previous),
        counted(now, previous) <= LONGEST_INTERVAL,
{
}

/// A user who has no active session now is not credited for the interval that begins.
pub proof fn law_inactive_users_are_not_credited(
    m: AgentModel,
    now: u64,
    today: Date,
    sessions: Seq<UserSession>,
    managed: Seq<u32>,
    later: Seq<u32>,
    uid: u32,
)
    requires
        later.no_duplicates(),
        forall|i: int| 0 <= i < sessions.len() && (#[trigger] sessions[i]).uid == uid ==> !sessions[i].active,
    ensures
        !credited(
            later,
            after_tick_start(m, now, today, sessions, managed).active,
        ).contains(uid),
{
    law_each_active_user_is_credited_once(
        later,
        after_tick_start(m, now, today, sessions, managed).active,
    );
}

/// The age of the cached policies is reported in the very look in which the link is given
/// up, where the use of the day that ended could not be sent, as in any other look without a
/// link; it is reported once, and not at all with a link.
pub proof fn law_an_old_cache_is_reported_once(
    m: AgentModel,
    now: u64,
    today: Date,
    sessions: Seq<UserSession>,
    managed: Seq<u32>,
    cache_ttl_hours: u64,
    later: u64,
    hours_then: u64,
)
    ensures
        ({
            let begun = after_tick_start(m, now, today, sessions, managed);
            let old_enough = since(now, m.offline_since) >= capped_product(cache_ttl_hours, 3600);
            &&& ttl_passes(after_send_failed(begun), now, cache_ttl_hours) <==> !m.ttl_warned && old_enough
            &&& ttl_passes(begun, now, cache_ttl_hours) <==> !m.connected && !m.ttl_warned && old_enough
        }),
        ttl_passes(m, now, cache_ttl_hours) ==> !ttl_passes(
            after_ttl_check(m, now, cache_ttl_hours),
            later,
            hours_then,
        ),
{
}

/// Without a link the cached policy counts, whatever the server said.
pub proof fn law_offline_uses_the_cache(m: AgentModel, uid: u32, local: i64, now: u64)
    requires
        !m.connected,
    ensures
        effective_seconds(m, uid, local, now) == local,
{
}

/// What the server said no longer counts once it is as old as its lifetime, nor after a
/// new policy, a lost link, a new link, the end of the pairing, a new day or a new time zone.
pub proof fn law_stale_word_of_the_server_does_not_count(
    m: AgentModel,
    uid: u32,
    local: i64,
    now: u64,
    today: Date,
    sessions: Seq<UserSession>,
    managed: Seq<u32>,
    timezone: Seq<char>,
    users: Seq<LocalUser>,
)
    ensures
        m.remote.dom().contains(uid) && since(now, m.remote[uid].at) >= REMOTE_LIFETIME ==> effective_seconds(
            m,
            uid,
            local,
            now,
        ) == local,
        effective_seconds(after_message(m, ServerMessage::ConfigPush, now), uid, local, now) == local,
        effective_seconds(after_message(m, ServerMessage::Unpair, now), uid, local, now) == local,
        effective_seconds(after_link_down(m, now), uid, local, now) == local,
        effective_seconds(after_link_up(m, users), uid, local, now) == local,
        today != m.date ==> effective_seconds(
            after_tick_start(m, now, today, sessions, managed),
            uid,
            local,
            now,
        ) == local,
        timezone != m.timezone ==> effective_seconds(after_scan(m, now, timezone, users), uid, local, now) == local,
{
}

/// A lock that the server orders blocks the user at once, as long as there is a link.
pub proof fn law_lock_now_blocks(m: AgentModel, uid: u32, local: i64, now: u64)
    requires
        m.connected,
    ensures
        effective_seconds(after_message(m, ServerMessage::LockNow { local_uid: uid }, now), uid, local, now) == 0,
{
}

/// A user is warned once for each passage of a threshold: of two looks in a row, the
/// second gives a warning exactly when a threshold lies between what was left at the
/// first and what is left at the second. Added time makes a threshold count again.
pub proof fn law_one_warning_for_each_passage(
    m: AgentModel,
    uid: u32,
    first: i64,
    second: i64,
    settings: UserSettings,
    now: u64,
)
    requires
        warns(first),
        warns(second),
    ensures
        tick_notice(after_user_tick(m, uid, first, settings, now), uid, second, settings) is Some <==> exists|i: int|
            0 <= i < settings.warning_thresholds@.len() && second as int / 60
                <= #[trigger] settings.warning_thresholds@[i] < first as int / 60,
{
    let t = settings.warning_thresholds@;
    let after = after_user_tick(m, uid, first, settings, now);
    let warned = warned_of(after, uid);
    assert(warned == warned_next(warned_of(m, uid), t, first as int / 60));
    assert forall|i: int| 0 <= i < t.len() implies (warned.contains(#[trigger] t[i]) <==> first as int / 60 <= t[i]) by {
        assert(t.contains(t[i]));
    }
    if newly_reached(warned, t, second as int / 60) {
        let i = choose|i: int| 0 <= i < t.len() && second as int / 60 <= #[trigger] t[i] && !warned.contains(t[i]);
        assert(second as int / 60 <= t[i] < first as int / 60);
    }
    if exists|i: int| 0 <= i < t.len() && second as int / 60 <= #[trigger] t[i] < first as int / 60 {
        let i = choose|i: int| 0 <= i < t.len() && second as int / 60 <= #[trigger] t[i] < first as int / 60;
        assert(second as int / 60 <= t[i] && !warned.contains(t[i]));
    }
}

/// A user is told of a block when it begins, and not again while it lasts.
pub proof fn law_one_notice_for_each_block(
    m: AgentModel,
    uid: u32,
    first: i64,
    second: i64,
    settings: UserSettings,
    now: u64,
)
    requires
        second <= 0,
    ensures
        first <= 0 ==> tick_notice(after_user_tick(m, uid, first, settings, now), uid, second, settings) is None,
        first > 0 ==> tick_notice(after_user_tick(m, uid, first, settings, now), uid, second, settings) == Some(
            TickNotice::Lock,
        ),
{
}

/// A look at one user: what counts, the settings, and the moment.
pub struct UserLook {
    pub seconds: i64,
    pub settings: UserSettings,
    pub now: u64,
}

/// What the loop remembers after a series of looks at one user.
pub open spec fn after_looks(m: AgentModel, uid: u32, looks: Seq<UserLook>) -> AgentModel
    decreases looks.len(),
{
    if looks.len() == 0 {
        m
    } else {
        let l = looks.last();
        after_user_tick(after_looks(m, uid, looks.drop_last()), uid, l.seconds, l.settings, l.now)
    }
}

/// The looks as a grace timer sees them.
pub open spec fn timer_looks(looks: Seq<UserLook>) -> Seq<Look> {
    Seq::new(
        looks.len(),
        |i: int|
            Look {
                blocked: looks[i].seconds <= 0,
                preserve: looks[i].settings.preserve_tasks_on_lock,
                grace_secs: grace_seconds(looks[i].settings),
                now: looks[i].now,
            },
    )
}

/// The sessions of a user are logged off exactly when a grace timer that sees each look
/// at the user says so. So they are logged off when an unbroken block without preserved
/// tasks has lasted for the grace period, and extra time cancels the wait.
pub proof fn law_logoff_follows_the_grace_timer(m: AgentModel, uid: u32, looks: Seq<UserLook>)
    requires
        lock_of(m, uid) == lock_initial(),
    ensures
        lock_of(after_looks(m, uid, looks), uid) == lock_after(timer_looks(looks)),
    decreases looks.len(),
{
    if looks.len() > 0 {
        law_logoff_follows_the_grace_timer(m, uid, looks.drop_last());
        assert(timer_looks(looks).drop_last() =~= timer_looks(looks.drop_last()));
    } else {
        assert(timer_looks(looks) =~= Seq::empty());
    }
}

/// A look at one user concerns the sessions of that user only.
pub proof fn law_only_own_sessions(sessions: Seq<UserSession>, uid: u32, id: u32)
    ensures
        sessions_of(sessions, uid).contains(id) ==> exists|i: int|
            0 <= i < sessions.len() && (#[trigger] sessions[i]).id == id && sessions[i].uid == uid,
        unlocked_of(sessions, uid).contains(id) ==> exists|i: int|
            0 <= i < sessions.len() && (#[trigger] sessions[i]).id == id && sessions[i].uid == uid
                && !sessions[i].locked,
    decreases sessions.len(),
{
    if sessions.len() > 0 {
        let rest = sessions.drop_last();
        law_only_own_sessions(rest, uid, id);
        assert(sessions[sessions.len() - 1] == sessions.last());
        if sessions_of(sessions, uid).contains(id) {
            let all = sessions_of(sessions, uid);
            let k = choose|k: int| 0 <= k < all.len() && all[k] == id;
            if !(sessions.last().uid == uid && k == all.len() - 1) {
                assert(sessions_of(rest, uid)[k] == id);
                let i = choose|i: int| 0 <= i < rest.len() && (#[trigger] rest[i]).id == id && rest[i].uid == uid;
                assert(sessions[i] == rest[i]);
            }
        }
        if unlocked_of(sessions, uid).contains(id) {
            let all = unlocked_of(sessions, uid);
            let k = choose|k: int| 0 <= k < all.len() && all[k] == id;
            if !(sessions.last().uid == uid && !sessions.last().locked && k == all.len() - 1) {
                assert(unlocked_of(rest, uid)[k] == id);
                let i = choose|i: int|
                    0 <= i < rest.len() && (#[trigger] rest[i]).id == id && rest[i].uid == uid && !rest[i].locked;
                assert(sessions[i] == rest[i]);
            }
        }
    }
}

/// Messages for users are numbered upwards.
pub proof fn law_notices_are_numbered_upwards(m: AgentModel, uid: u32, title: Seq<char>, body: Seq<char>)
    requires
        m.sequence < u64::MAX,
    ensures
        notified(m, uid, title, body).sequence == m.sequence + 1,
        notified(m, uid, title, body).notices[uid].id == m.sequence + 1,
{
}

proof fn lemma_remote_after(remote: Map<u32, Remote>, entries: Seq<RemainingEntry>, now: u64, i: int)
    requires
        0 <= i < entries.len(),
        forall|k: int| i < k < entries.len() ==> (#[trigger] entries[k]).local_uid != entries[i].local_uid,
    ensures
        remote_after(remote, entries, now).dom().contains(entries[i].local_uid),
        remote_after(remote, entries, now)[entries[i].local_uid] == (Remote {
            seconds: (entries[i].remaining_minutes * 60) as i64,
            action: entries[i].enforce,
            at: now,
        }),
    decreases entries.len(),
{
    if i < entries.len() - 1 {
        let front = entries.drop_last();
        assert(entries[entries.len() - 1].local_uid != entries[i].local_uid);
        assert forall|k: int| i < k < front.len() implies (#[trigger] front[k]).local_uid != front[i].local_uid by {
            assert(entries[k].local_uid != entries[i].local_uid);
        }
        lemma_remote_after(remote, front, now, i);
    }
}

proof fn lemma_remote_kept(remote: Map<u32, Remote>, entries: Seq<RemainingEntry>, now: u64, uid: u32)
    requires
        forall|k: int| 0 <= k < entries.len() ==> (#[trigger] entries[k]).local_uid != uid,
    ensures
        remote_after(remote, entries, now).dom().contains(uid) == remote.dom().contains(uid),
        remote.dom().contains(uid) ==> remote_after(remote, entries, now)[uid] == remote[uid],
    decreases entries.len(),
{
    if entries.len() > 0 {
        let front = entries.drop_last();
        assert(entries[entries.len() - 1].local_uid != uid);
        assert forall|k: int| 0 <= k < front.len() implies (#[trigger] front[k]).local_uid != uid by {
            assert(entries[k].local_uid != uid);
        }
        lemma_remote_kept(remote, front, now, uid);
    }
}

/// With a link, what the server last said of a user counts for thirty seconds and not longer:
/// sixty seconds for each minute that it said, or nothing where it said to lock. In that time
/// the cached policy does not matter; afterwards it alone does.
pub proof fn law_fresh_word_of_the_server_counts(
    m: AgentModel,
    message: ServerMessage,
    i: int,
    now: u64,
    later: u64,
    local: i64,
)
    requires
        m.connected,
        message is RemainingUpdate,
        0 <= i < message->RemainingUpdate_0@.len(),
        forall|k: int|
            i < k < message->RemainingUpdate_0@.len() ==> (#[trigger] message->RemainingUpdate_0@[k]).local_uid
                != message->RemainingUpdate_0@[i].local_uid,
    ensures
        ({
            let said = message->RemainingUpdate_0@[i];
            let seconds = effective_seconds(after_message(m, message, now), said.local_uid, local, later);
            &&& later < now + 30 && said.enforce != EnforceAction::Lock ==> seconds == 60 * said.remaining_minutes
            &&& later < now + 30 && said.enforce == EnforceAction::Lock ==> seconds == 0
            &&& later >= now + 30 ==> seconds == local
        }),
{
    lemma_remote_after(m.remote, message->RemainingUpdate_0@, now, i);
}

/// What the server says of some users changes nothing for another one.
pub proof fn law_word_of_the_server_is_for_its_users(
    m: AgentModel,
    message: ServerMessage,
    uid: u32,
    now: u64,
    later: u64,
    local: i64,
)
    requires
        message is RemainingUpdate || message is LockNow || message is NotifyUser,
        message is RemainingUpdate ==> forall|k: int|
            0 <= k < message->RemainingUpdate_0@.len() ==> (#[trigger] message->RemainingUpdate_0@[k]).local_uid != uid,
        message is LockNow ==> message->LockNow_local_uid != uid,
    ensures
        effective_seconds(after_message(m, message, now), uid, local, later) == effective_seconds(m, uid, local, later),
{
    if message is RemainingUpdate {
        lemma_remote_kept(m.remote, message->RemainingUpdate_0@, now, uid);
    }
}

/// A lock that the server orders leaves no time for thirty seconds with a link, and the caller
/// keeps it for the day to which use is attributed; a later word of the server replaces it.
pub proof fn law_ordered_locks_last(m: AgentModel, uid: u32, now: u64, later: u64, local: i64, allow: bool)
    ensures
        m.connected && later < now + 30 ==> effective_seconds(
            after_message(m, ServerMessage::LockNow { local_uid: uid }, now),
            uid,
            local,
            later,
        ) == 0,
        later >= now + 30 ==> effective_seconds(
            after_message(m, ServerMessage::LockNow { local_uid: uid }, now),
            uid,
            local,
            later,
        ) == local,
        after_message(m, ServerMessage::LockNow { local_uid: uid }, now).remote[uid].seconds == 0,
        reaction_to(m, ServerMessage::LockNow { local_uid: uid }, allow) == (Reaction::ForceLock {
            local_uid: uid,
            date: m.date,
        }),
{
}

/// Each message of the server has its own consequence, and an update is started exactly where
/// it is allowed and none is running.
pub proof fn law_messages_have_their_consequence(m: AgentModel, message: ServerMessage, allow: bool)
    ensures
        reaction_to(m, message, allow) == Reaction::ApplyConfig <==> message is ConfigPush,
        reaction_to(m, message, allow) is ForceLock <==> message is LockNow,
        reaction_to(m, message, allow) == Reaction::SendHello <==> message is ConfigReload,
        reaction_to(m, message, allow) == Reaction::SendLogs <==> message is FetchLogs,
        reaction_to(m, message, allow) == Reaction::LaunchUpdater <==> message is UpdateAgent && allow && !m.updating,
        reaction_to(m, message, allow) == Reaction::RefuseUpdate <==> message is UpdateAgent && !(allow
            && !m.updating),
{
}

/// A message of the server ends the link only where it ends the pairing, tells a user
/// something only where it is for that user, and touches nothing else that the loop counts.
pub proof fn law_messages_change_their_own_only(m: AgentModel, message: ServerMessage, now: u64)
    ensures
        ({
            let n = after_message(m, message, now);
            &&& n.connected == (m.connected && !(message is Unpair))
            &&& message is NotifyUser ==> n.notices.dom().contains(message->NotifyUser_local_uid)
            &&& !(message is NotifyUser) ==> n.notices == m.notices && n.sequence == m.sequence
            &&& n.deltas == m.deltas && n.active == m.active && n.locks == m.locks && n.warnings == m.warnings
            &&& n.lock_started == m.lock_started && n.date == m.date && n.previous_tick == m.previous_tick
            &&& n.known_users == m.known_users && n.timezone == m.timezone && n.updating == m.updating
            &&& n.offline_since == m.offline_since && n.ttl_warned == m.ttl_warned
        }),
{
}

/// A message is kept for its user as it was written, cut to 128 characters of title and 2048
/// of body.
pub proof fn law_messages_are_kept_as_written(m: AgentModel, uid: u32, title: Seq<char>, body: Seq<char>)
    ensures
        ({
            let n = notified(m, uid, title, body).notices[uid];
            &&& title.len() <= 128 ==> n.title == title
            &&& title.len() > 128 ==> n.title == title.subrange(0, 128)
            &&& body.len() <= 2048 ==> n.body == body
            &&& body.len() > 2048 ==> n.body == body.subrange(0, 2048)
        }),
        after_configured(m, uid, title, body).notices == notified(m, uid, title, body).notices,
        !after_configured(m, uid, title, body).warnings.dom().contains(uid),
{
    assert(title.len() > 128 ==> title.take(128) =~= title.subrange(0, 128));
    assert(body.len() > 2048 ==> body.take(2048) =~= body.subrange(0, 2048));
}

/// A user is told of the minutes by which the adjustment grew or shrank, and of the whole
/// minutes that are left.
pub proof fn law_changes_of_time_are_told(old_minutes: i32, new_minutes: i32, remaining: i64)
    requires
        remaining >= 0,
        i32::MIN < new_minutes - old_minutes <= i32::MAX,
    ensures
        match notice_of_change(old_minutes, new_minutes, remaining) {
            PolicyNotice::Added { minutes, left } => {
                &&& minutes > 0
                &&& new_minutes == old_minutes + minutes
                &&& 60 * left <= remaining
                &&& left < i32::MAX ==> remaining < 60 * left + 60
            },
            PolicyNotice::Reduced { minutes, left } => {
                &&& minutes > 0
                &&& old_minutes == new_minutes + minutes
                &&& 60 * left <= remaining
                &&& left < i32::MAX ==> remaining < 60 * left + 60
            },
            PolicyNotice::Updated => old_minutes == new_minutes,
        },
{
}

/// The time between two looks counts in whole, but for no more than five seconds, and not at
/// all where the clock went back.
pub proof fn law_intervals_count_up_to_five_seconds(now: u64, previous: u64)
    ensures
        previous <= now <= previous + 5 ==> counted(now, previous) == now - previous,
        now > previous + 5 ==> counted(now, previous) == 5,
        now < previous ==> counted(now, previous) == 0,
{
}

/// Between two looks on one day, a managed user is counted the interval exactly where the user
/// had an active session at the first of them. What was counted before stays.
pub proof fn law_use_is_counted_from_look_to_look(
    m: AgentModel,
    first: u64,
    second: u64,
    today: Date,
    sessions: Seq<UserSession>,
    managed: Seq<u32>,
    later_sessions: Seq<UserSession>,
    later_managed: Seq<u32>,
    uid: u32,
)
    requires
        managed.no_duplicates(),
        later_managed.no_duplicates(),
        first <= second <= first + 5,
        delta_of(after_tick_start(m, first, today, sessions, managed).deltas, uid) + 5 <= u32::MAX,
    ensures
        ({
            let one = after_tick_start(m, first, today, sessions, managed);
            let two = after_tick_start(one, second, today, later_sessions, later_managed);
            let counts = managed.contains(uid) && later_managed.contains(uid) && exists|i: int|
                0 <= i < sessions.len() && (#[trigger] sessions[i]).uid == uid && sessions[i].active;
            delta_of(two.deltas, uid) == delta_of(one.deltas, uid) + (if counts {
                second - first
            } else {
                0
            })
        }),
{
    let one = after_tick_start(m, first, today, sessions, managed);
    law_each_active_user_is_credited_once(later_managed, one.active);
    law_credit_adds_one_interval(
        one.deltas,
        credited(later_managed, one.active),
        counted(second, first) as u32,
        uid,
    );
    assert(one.active.contains(uid) <==> managed.contains(uid) && exists|i: int|
        0 <= i < sessions.len() && (#[trigger] sessions[i]).uid == uid && sessions[i].active);
}

/// A new day ends what the server said, what was counted and what was warned of, and asks for
/// the use to be sent where there is a link; within a day they stay.
pub proof fn law_a_new_day_starts_anew(
    m: AgentModel,
    now: u64,
    today: Date,
    sessions: Seq<UserSession>,
    managed: Seq<u32>,
    uid: u32,
)
    ensures
        ({
            let n = after_tick_start(m, now, today, sessions, managed);
            &&& n.date == today && n.previous_tick == now
            &&& today != m.date ==> {
                &&& !n.remote.dom().contains(uid)
                &&& !n.deltas.dom().contains(uid)
                &&& !n.warnings.dom().contains(uid)
            }
            &&& today == m.date ==> n.remote == m.remote && n.warnings == m.warnings
            &&& n.locks == m.locks && n.lock_started == m.lock_started && n.notices == m.notices
            &&& n.connected == m.connected && n.last_heartbeat == m.last_heartbeat && n.last_scan == m.last_scan
            &&& syncs_usage(m, today) <==> m.connected && m.date != today
        }),
{
}

/// Without a link for so many hours, and not before, the age of the cached policies is
/// reported, unless it was reported since the link was lost.
pub proof fn law_cache_is_old_after_its_hours(m: AgentModel, now: u64, hours: u64)
    requires
        hours * 3600 <= u64::MAX,
        now >= m.offline_since,
    ensures
        ttl_passes(m, now, hours) <==> !m.connected && !m.ttl_warned && now >= m.offline_since + 3600 * hours,
        ttl_passes(m, now, hours) ==> after_ttl_check(m, now, hours).ttl_warned,
{
}

/// The state of the link: once it is up the use since the last heartbeat is not counted a
/// second time, and a heartbeat is due; once it is down its loss is dated and a new report of
/// an old cache is possible.
pub proof fn law_links_come_and_go(m: AgentModel, users: Seq<LocalUser>, now: u64, later: u64, interval: u64, uid: u32)
    ensures
        after_link_up(m, users).connected,
        delta_of(after_link_up(m, users).deltas, uid) == 0,
        later >= interval ==> heartbeat_is_due(after_link_up(m, users), later, interval),
        !after_link_down(m, now).connected,
        after_link_down(m, now).offline_since == now && !after_link_down(m, now).ttl_warned,
        after_link_down(m, now).deltas == m.deltas,
        !after_send_failed(m).connected && after_send_failed(m).remote == m.remote,
        after_send_failed(m).offline_since == m.offline_since,
{
}

/// A user is blocked exactly where no second is left, so a word of the server to lock, or of
/// no minutes, blocks, and so does a policy without time where the server is not heard.
pub proof fn law_no_second_left_blocks(m: AgentModel, uid: u32, local: i64, now: u64)
    ensures
        no_time(effective_seconds(m, uid, local, now)) <==> effective_seconds(m, uid, local, now) < 1,
        !m.connected ==> (no_time(effective_seconds(m, uid, local, now)) <==> local < 1),
        m.connected && m.remote.dom().contains(uid) && now < m.remote[uid].at + 30 ==> (no_time(
            effective_seconds(m, uid, local, now),
        ) <==> m.remote[uid].action == EnforceAction::Lock || m.remote[uid].seconds < 1),
{
}

/// A user who was not warned yet, and whose time is bounded, is warned as soon as no more
/// whole minutes are left than a threshold says, and is told how many they are.
pub proof fn law_first_warning_comes_at_the_threshold(
    m: AgentModel,
    uid: u32,
    seconds: i64,
    settings: UserSettings,
)
    requires
        !m.warnings.dom().contains(uid),
        0 < seconds < i64::MAX,
    ensures
        tick_notice(m, uid, seconds, settings) is Some <==> exists|i: int|
            0 <= i < settings.warning_thresholds@.len() && seconds < 60 * (
            #[trigger] settings.warning_thresholds@[i]) + 60,
        tick_notice(m, uid, seconds, settings) matches Some(TickNotice::Warning { minutes }) ==> 60 * minutes
            <= seconds < 60 * minutes + 60,
        !(tick_notice(m, uid, seconds, settings) matches Some(TickNotice::Lock)),
{
    let t = settings.warning_thresholds@;
    if newly_reached(warned_of(m, uid), t, seconds as int / 60) {
        let i = choose|i: int|
            0 <= i < t.len() && seconds as int / 60 <= #[trigger] t[i] && !warned_of(m, uid).contains(t[i]);
        assert(seconds < 60 * t[i] + 60);
    }
    if exists|i: int| 0 <= i < t.len() && seconds < 60 * (#[trigger] t[i]) + 60 {
        let i = choose|i: int| 0 <= i < t.len() && seconds < 60 * (#[trigger] t[i]) + 60;
        assert(seconds as int / 60 <= t[i] && !warned_of(m, uid).contains(t[i]));
    }
}

/// Time without a bound is never warned of, and says nothing of a lock.
pub proof fn law_no_warning_without_a_bound(m: AgentModel, uid: u32, settings: UserSettings, now: u64)
    ensures
        tick_notice(m, uid, i64::MAX, settings) is None,
        after_user_tick(m, uid, i64::MAX, settings, now).warnings == m.warnings,
        !after_user_tick(m, uid, i64::MAX, settings, now).lock_started.dom().contains(uid),
{
}

proof fn lemma_sessions_complete(sessions: Seq<UserSession>, uid: u32, i: int)
    requires
        0 <= i < sessions.len(),
        sessions[i].uid == uid,
    ensures
        sessions_of(sessions, uid).contains(sessions[i].id),
        !sessions[i].locked ==> unlocked_of(sessions, uid).contains(sessions[i].id),
    decreases sessions.len(),
{
    let front = sessions.drop_last();
    let all = sessions_of(sessions, uid);
    let unlocked = unlocked_of(sessions, uid);
    if i == sessions.len() - 1 {
        assert(all[all.len() - 1] == sessions[i].id);
        assert(!sessions[i].locked ==> unlocked[unlocked.len() - 1] == sessions[i].id);
    } else {
        assert(front[i] == sessions[i]);
        lemma_sessions_complete(front, uid, i);
        let k = choose|k: int| 0 <= k < sessions_of(front, uid).len() && sessions_of(front, uid)[k] == sessions[i].id;
        assert(all[k] == sessions[i].id);
        if !sessions[i].locked {
            let j = choose|j: int|
                0 <= j < unlocked_of(front, uid).len() && unlocked_of(front, uid)[j] == sessions[i].id;
            assert(unlocked[j] == sessions[i].id);
        }
    }
}

/// A user without time who has been blocked for four seconds loses every session that is not
/// locked, unless they are logged off; before that, with time left, and of other users, no
/// session is disconnected.
pub proof fn law_stubborn_sessions_are_disconnected(
    m: AgentModel,
    uid: u32,
    seconds: i64,
    settings: UserSettings,
    sessions: Seq<UserSession>,
    now: u64,
    i: int,
)
    requires
        0 <= i < sessions.len(),
        m.lock_started.dom().contains(uid) ==> m.lock_started[uid] <= now,
    ensures
        ({
            let gone = disconnected(m, uid, seconds, settings, sessions, now);
            let off = logged_off(m, uid, seconds, settings, sessions, now);
            let patient = seconds <= 0 && m.lock_started.dom().contains(uid) && now - m.lock_started[uid] >= 4;
            &&& patient && sessions[i].uid == uid && !sessions[i].locked ==> gone.contains(sessions[i].id)
                || off.contains(sessions[i].id)
            &&& !patient ==> gone.len() == 0
            &&& off.len() > 0 ==> gone.len() == 0
            &&& forall|id: u32| #[trigger]
                gone.contains(id) ==> exists|k: int|
                    0 <= k < sessions.len() && (#[trigger] sessions[k]).id == id && sessions[k].uid == uid
                        && !sessions[k].locked
        }),
{
    if sessions[i].uid == uid {
        lemma_sessions_complete(sessions, uid, i);
    }
    assert forall|id: u32| #[trigger] disconnected(m, uid, seconds, settings, sessions, now).contains(id) implies exists|
        k: int,
    |
        0 <= k < sessions.len() && (#[trigger] sessions[k]).id == id && sessions[k].uid == uid && !sessions[k].locked by {
        law_only_own_sessions(sessions, uid, id);
    }
}

/// A user whose blocks an unbroken run of looks has seen, without preserved tasks, is logged
/// off once the minutes of grace and four seconds have passed since the first of them: then
/// every session of the user goes, and until then none does.
pub proof fn law_sessions_end_after_their_grace(
    m: AgentModel,
    uid: u32,
    looks: Seq<UserLook>,
    start: int,
    sessions: Seq<UserSession>,
    i: int,
)
    requires
        !m.locks.dom().contains(uid),
        0 <= start < looks.len(),
        start > 0 ==> looks[start - 1].seconds > 0 || looks[start - 1].settings.preserve_tasks_on_lock,
        forall|k: int|
            start <= k < looks.len() ==> (#[trigger] looks[k]).seconds <= 0
                && !looks[k].settings.preserve_tasks_on_lock,
        looks[start].now + 60 * looks[start].settings.lockout_grace_minutes + 4 <= u64::MAX,
        0 <= i < sessions.len(),
        sessions[i].uid == uid,
    ensures
        ({
            let l = looks.last();
            let before = after_looks(m, uid, looks.drop_last());
            let off = logged_off(before, uid, l.seconds, l.settings, sessions, l.now);
            &&& l.now - looks[start].now >= 60 * looks[start].settings.lockout_grace_minutes + 4 ==> off.contains(
                sessions[i].id,
            )
            &&& l.now - looks[start].now < 60 * looks[start].settings.lockout_grace_minutes + 4 ==> off.len() == 0
        }),
{
    let timer = timer_looks(looks);
    law_logoff_follows_the_grace_timer(m, uid, looks);
    assert(timer.last().now == looks.last().now);
    assert forall|k: int| start <= k < timer.len() implies (#[trigger] timer[k]).blocked && !timer[k].preserve by {
        assert(looks[k].seconds <= 0 && !looks[k].settings.preserve_tasks_on_lock);
    }
    crate::policy::law_grace_is_waited_out(timer, start);
    lemma_sessions_complete(sessions, uid, i);
    let l = looks.last();
    assert(after_looks(m, uid, looks) == after_user_tick(
        after_looks(m, uid, looks.drop_last()),
        uid,
        l.seconds,
        l.settings,
        l.now,
    ));
}

/// No session of a user is logged off by a look that finds time left, nor by one that
/// preserves the tasks of a user whose tasks were not to be ended before.
pub proof fn law_time_or_preserved_tasks_keep_sessions(
    m: AgentModel,
    uid: u32,
    seconds: i64,
    settings: UserSettings,
    sessions: Seq<UserSession>,
    now: u64,
)
    requires
        seconds > 0 || (settings.preserve_tasks_on_lock && !m.locks.dom().contains(uid)),
    ensures
        logged_off(m, uid, seconds, settings, sessions, now).len() == 0,
{
}

/// A look at one user changes nothing of what is remembered of another one.
pub proof fn law_looks_are_at_one_user(
    m: AgentModel,
    uid: u32,
    other: u32,
    seconds: i64,
    settings: UserSettings,
    now: u64,
)
    requires
        other != uid,
    ensures
        ({
            let n = after_user_tick(m, uid, seconds, settings, now);
            &&& lock_of(n, other) == lock_of(m, other)
            &&& warned_of(n, other) == warned_of(m, other)
            &&& n.lock_started.dom().contains(other) == m.lock_started.dom().contains(other)
            &&& m.lock_started.dom().contains(other) ==> n.lock_started[other] == m.lock_started[other]
            &&& n.remote == m.remote && n.deltas == m.deltas && n.active == m.active && n.notices == m.notices
        }),
{
}

/// The beginning of a block is remembered from its first look on, and forgotten with it.
pub proof fn law_blocks_are_dated_from_their_first_look(
    m: AgentModel,
    uid: u32,
    seconds: i64,
    settings: UserSettings,
    now: u64,
)
    ensures
        ({
            let n = after_user_tick(m, uid, seconds, settings, now);
            &&& n.lock_started.dom().contains(uid) <==> seconds <= 0
            &&& seconds <= 0 && m.lock_started.dom().contains(uid) ==> n.lock_started[uid] == m.lock_started[uid]
            &&& seconds <= 0 && !m.lock_started.dom().contains(uid) ==> n.lock_started[uid] == now
        }),
{
}

/// The helper of a session is told the seconds that are left, nothing of them where there is no
/// bound, and otherwise what it was looked at with; the last message for the user goes along.
pub proof fn law_helpers_are_told_what_counts(
    m: AgentModel,
    uid: u32,
    seconds: i64,
    blocked: bool,
    language: Seq<char>,
    admin_url: Seq<char>,
    port: Option<u16>,
)
    ensures
        ({
            let s = status_for(m, uid, seconds, blocked, language, admin_url, port);
            &&& seconds < i64::MAX ==> s.remaining_seconds == Some(seconds)
            &&& seconds == i64::MAX ==> s.remaining_seconds is None
            &&& s.blocked == blocked && s.online == m.connected && s.language == language
            &&& s.admin_url == admin_url && s.proxy_port == port
            &&& s.notification is Some <==> m.notices.dom().contains(uid)
            &&& m.notices.dom().contains(uid) ==> s.notification == Some(m.notices[uid])
        }),
{
}

/// Once the users were looked at, grace timers and beginnings of blocks are remembered of the
/// managed users and of nobody else.
pub proof fn law_unmanaged_users_are_forgotten(m: AgentModel, managed: Seq<u32>, uid: u32)
    ensures
        ({
            let n = after_tick_end(m, managed);
            &&& n.locks.dom().contains(uid) <==> m.locks.dom().contains(uid) && managed.contains(uid)
            &&& n.locks.dom().contains(uid) ==> n.locks[uid] == m.locks[uid]
            &&& n.lock_started.dom().contains(uid) <==> m.lock_started.dom().contains(uid) && managed.contains(uid)
            &&& n.lock_started.dom().contains(uid) ==> n.lock_started[uid] == m.lock_started[uid]
        }),
{
    if managed.to_set().contains(uid) {
        assert(managed.contains(uid));
    }
    if managed.contains(uid) {
        assert(managed.to_set().contains(uid));
    }
}

/// A heartbeat is due once its interval has passed. It says of a user what was counted since
/// the last one, whether the user is active, and how many sessions the user has; what it said
/// is not said again.
pub proof fn law_heartbeats_say_what_was_counted(
    m: AgentModel,
    now: u64,
    interval: u64,
    uid: u32,
    sessions: Seq<UserSession>,
    later_sessions: Seq<UserSession>,
)
    requires
        now >= m.last_heartbeat,
    ensures
        heartbeat_is_due(m, now, interval) <==> now - m.last_heartbeat >= interval,
        heartbeat_of(m, uid, sessions).local_uid == uid,
        m.deltas.dom().contains(uid) ==> heartbeat_of(m, uid, sessions).active_seconds_since_last == m.deltas[uid],
        !m.deltas.dom().contains(uid) ==> heartbeat_of(m, uid, sessions).active_seconds_since_last == 0,
        heartbeat_of(m, uid, sessions).idle <==> !m.active.contains(uid),
        heartbeat_of(after_heartbeat(m, now), uid, later_sessions).active_seconds_since_last == 0,
        0 < interval ==> !heartbeat_is_due(after_heartbeat(m, now), now, interval),
        after_heartbeat(m, now).active == m.active,
{
}

/// The users of a machine are scanned once the interval has passed since the last scan; a scan
/// says hello exactly where the time zone is another, and reports as removed exactly those
/// whom it knew and finds no longer.
pub proof fn law_scans_find_what_has_gone(
    m: AgentModel,
    now: u64,
    interval: u64,
    timezone: Seq<char>,
    users: Seq<LocalUser>,
    uid: u32,
)
    requires
        now >= m.last_scan,
    ensures
        scan_is_due(m, now, interval) <==> now - m.last_scan >= interval,
        0 < interval ==> !scan_is_due(after_scan(m, now, timezone, users), now, interval),
        says_hello(m, timezone) <==> m.timezone != timezone,
        !says_hello(after_scan(m, now, timezone, users), timezone),
        missing(m.known_users, uids_of(users)).contains(uid) <==> m.known_users.contains(uid) && !(exists|i: int|
            0 <= i < users.len() && (#[trigger] users[i]).local_uid == uid),
        after_scan(m, now, timezone, users).known_users.contains(uid) <==> exists|i: int|
            0 <= i < users.len() && (#[trigger] users[i]).local_uid == uid,
{
    law_missing_users_are_those_not_found(m.known_users, uids_of(users), uid);
    let found = uids_of(users);
    if found.contains(uid) {
        let k = choose|k: int| 0 <= k < found.len() && found[k] == uid;
        assert(users[k].local_uid == uid);
    }
    if exists|i: int| 0 <= i < users.len() && (#[trigger] users[i]).local_uid == uid {
        let i = choose|i: int| 0 <= i < users.len() && (#[trigger] users[i]).local_uid == uid;
        assert(found[i] == uid);
    }
}

/// What one list lacks of another is what stands in the other only; so the sessions that get a
/// helper are those that have none.
pub proof fn law_missing_users_are_those_not_found(known: Seq<u32>, next: Seq<u32>, uid: u32)
    ensures
        missing(known, next).contains(uid) <==> known.contains(uid) && !next.contains(uid),
    decreases known.len(),
{
    if known.len() > 0 {
        let front = known.drop_last();
        let before = missing(front, next);
        let all = missing(known, next);
        law_missing_users_are_those_not_found(front, next, uid);
        assert(known[known.len() - 1] == known.last());
        if front.contains(uid) {
            let k = choose|k: int| 0 <= k < front.len() && front[k] == uid;
            assert(known[k] == uid);
        }
        if known.contains(uid) && uid != known.last() {
            let k = choose|k: int| 0 <= k < known.len() && known[k] == uid;
            assert(front[k] == uid);
        }
        if !next.contains(known.last()) {
            assert(all[before.len() as int] == known.last());
            if before.contains(uid) {
                let k = choose|k: int| 0 <= k < before.len() && before[k] == uid;
                assert(all[k] == uid);
            }
            if all.contains(uid) && uid != known.last() {
                let k = choose|k: int| 0 <= k < all.len() && all[k] == uid;
                assert(before[k] == uid);
            }
        }
    }
}

/// One more session adds one to the sessions of its user, and nothing to those of others; a
/// heartbeat counts them.
pub proof fn law_sessions_are_counted(m: AgentModel, sessions: Seq<UserSession>, one: UserSession, uid: u32)
    ensures
        one.uid == uid ==> sessions_of(sessions.push(one), uid) == sessions_of(sessions, uid).push(one.id),
        one.uid != uid ==> sessions_of(sessions.push(one), uid) == sessions_of(sessions, uid),
        one.uid == uid && !one.locked ==> unlocked_of(sessions.push(one), uid) == unlocked_of(sessions, uid).push(one.id),
        one.uid != uid || one.locked ==> unlocked_of(sessions.push(one), uid) == unlocked_of(sessions, uid),
        sessions_of(Seq::empty(), uid).len() == 0 && unlocked_of(Seq::empty(), uid).len() == 0,
        sessions_of(sessions, uid).len() <= u32::MAX ==> heartbeat_of(m, uid, sessions).session_count
            == sessions_of(sessions, uid).len(),
{
    assert(sessions.push(one).drop_last() =~= sessions);
}

/// A loop that begins has no link and credits nobody for the time before: until the server is heard
/// the cached policy counts, nobody has been warned or blocked, and no updater runs.
pub proof fn law_a_loop_begins_with_nothing_known(
    sequence: u64,
    date: Date,
    now: u64,
    timezone: Seq<char>,
    users: Seq<LocalUser>,
    uid: u32,
    local: i64,
    later: u64,
    managed: Seq<u32>,
)
    requires
        managed.no_duplicates(),
    ensures
        ({
            let m = beginning(sequence, date, now, timezone, users);
            &&& effective_seconds(m, uid, local, later) == local
            &&& !credited(managed, m.active).contains(uid)
            &&& delta_of(m.deltas, uid) == 0
            &&& lock_of(m, uid) == lock_initial() && warned_of(m, uid) == Set::<u32>::empty()
            &&& !m.lock_started.dom().contains(uid) && !m.notices.dom().contains(uid)
            &&& m.date == date && m.previous_tick == now && m.offline_since == now
            &&& m.last_heartbeat == now && m.last_scan == now && m.timezone == timezone
            &&& m.sequence == sequence && !m.connected && !m.updating && !m.ttl_warned
        }),
{
    let m = beginning(sequence, date, now, timezone, users);
    law_each_active_user_is_credited_once(managed, m.active);
}

} // verus!
