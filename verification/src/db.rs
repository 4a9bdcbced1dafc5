//! What the agent keeps between runs: whom it is paired with, the identities of the users,
//! their policies and their use.
use vstd::prelude::*;

use crate::clock::{date_key, LocalTime};
use crate::link::{ServerConnection, UsageRow};
use crate::policy::{
    capped_sum, locked_by_hand, minutes_on, remaining_seconds, seconds_on, windows_of, CachedPolicy, DailyLimit,
    Schedule,
};
use crate::runtime::UserSettings;
use crate::text::{copies, optional, same, texts};

verus! {

/// The policy of one user, as the server pushes it.
#[derive(Debug)]
pub struct UserConfig {
    pub local_uid: u32,
    /// Whether the policy is enforced.
    pub managed: bool,
    pub schedules: Vec<Schedule>,
    pub daily_limits: Vec<DailyLimit>,
    /// Minutes granted or taken away on the day of the push.
    pub adjustments_today: i32,
    pub lockout_grace_minutes: u32,
    pub preserve_tasks_on_lock: bool,
    pub warning_thresholds_minutes: Vec<u32>,
    pub language: String,
    pub blocked_domains: Vec<String>,
}

/// A lock of a user by hand, and the day for which it holds.
#[derive(Debug)]
pub struct ManualLock {
    pub local_uid: u32,
    pub date: String,
}

/// What the agent keeps.
#[derive(Debug)]
pub struct Db {
    pub machine_id: String,
    pub connection: Option<ServerConnection>,
    pub config_version: u64,
    /// The security identifiers that were seen, in the order in which they were.
    pub sids: Vec<String>,
    /// The policies of the last push.
    pub users: Vec<UserConfig>,
    /// The day of the last push.
    pub pushed_on: String,
    /// The locks by hand since the last push.
    pub locks: Vec<ManualLock>,
    /// The seconds used, by user and day.
    pub usage: Vec<UsageRow>,
}

/// What the agent keeps, as maps.
#[verifier::ext_equal]
pub struct DbModel {
    pub machine_id: Seq<char>,
    pub connection: Option<ServerConnection>,
    pub config_version: u64,
    pub sids: Seq<Seq<char>>,
    /// The policy of each user.
    pub users: Map<u32, UserConfig>,
    pub pushed_on: Seq<char>,
    /// The day for which each user is locked by hand.
    pub locks: Map<u32, Seq<char>>,
    /// The seconds that each user used on each day.
    pub usage: Map<(u32, Seq<char>), u64>,
}

/// The policies of a list by user; of two for one user the later counts.
pub open spec fn users_of(users: Seq<UserConfig>) -> Map<u32, UserConfig>
    decreases users.len(),
{
    if users.len() == 0 {
        Map::empty()
    } else {
        users_of(users.drop_last()).insert(users.last().local_uid, users.last())
    }
}

/// The locks of a list by user; of two for one user the later counts.
pub open spec fn locks_of(locks: Seq<ManualLock>) -> Map<u32, Seq<char>>
    decreases locks.len(),
{
    if locks.len() == 0 {
        Map::empty()
    } else {
        locks_of(locks.drop_last()).insert(locks.last().local_uid, locks.last().date@)
    }
}

/// The use of a list by user and day; of two rows for one day the later counts.
pub open spec fn usage_of(rows: Seq<UsageRow>) -> Map<(u32, Seq<char>), u64>
    decreases rows.len(),
{
    if rows.len() == 0 {
        Map::empty()
    } else {
        usage_of(rows.drop_last()).insert((rows.last().local_uid, rows.last().date@), rows.last().used_seconds)
    }
}

impl View for Db {
    type V = DbModel;

    open spec fn view(&self) -> DbModel {
        DbModel {
            machine_id: self.machine_id@,
            connection: self.connection,
            config_version: self.config_version,
            sids: texts(self.sids@),
            users: users_of(self.users@),
            pushed_on: self.pushed_on@,
            locks: locks_of(self.locks@),
            usage: usage_of(self.usage@),
        }
    }
}

/// The identity of a security identifier: its place among those that were seen, from one.
pub open spec fn identity(sids: Seq<Seq<char>>, sid: Seq<char>) -> Option<int>
    decreases sids.len(),
{
    if sids.len() == 0 {
        None
    } else {
        match identity(sids.drop_last(), sid) {
            Some(place) => Some(place),
            None => if sids.last() == sid {
                Some(sids.len() as int)
            } else {
                None
            },
        }
    }
}

/// What is kept once a security identifier was seen. There are no more identities than
/// numbers for them.
pub open spec fn identified(m: DbModel, sid: Seq<char>) -> DbModel {
    if identity(m.sids, sid) is None && m.sids.len() < u32::MAX {
        DbModel { sids: m.sids.push(sid), ..m }
    } else {
        m
    }
}

/// The number of an identity, where it fits.
pub open spec fn uid_of(place: Option<int>) -> Option<u32> {
    match place {
        Some(n) => if n <= u32::MAX {
            Some(n as u32)
        } else {
            None
        },
        None => None,
    }
}

/// What is kept after a push of policies: they take the place of all earlier ones, and of
/// the locks by hand.
pub open spec fn pushed(m: DbModel, users: Seq<UserConfig>, version: u64, today: Seq<char>) -> DbModel {
    DbModel {
        users: users_of(users),
        config_version: version,
        pushed_on: today,
        locks: Map::empty(),
        ..m
    }
}

/// What is kept after a lock by hand.
pub open spec fn locked(m: DbModel, uid: u32, date: Seq<char>) -> DbModel {
    DbModel { locks: m.locks.insert(uid, date), ..m }
}

/// The seconds that a user used on a day.
pub open spec fn used_on(m: DbModel, uid: u32, date: Seq<char>) -> u64 {
    if m.usage.dom().contains((uid, date)) {
        m.usage[(uid, date)]
    } else {
        0
    }
}

/// What is kept once seconds of use were added.
pub open spec fn used_more(m: DbModel, uid: u32, date: Seq<char>, seconds: u64) -> DbModel {
    DbModel { usage: m.usage.insert((uid, date), capped_sum(used_on(m, uid, date), seconds)), ..m }
}

/// What is kept once the agent is bound to another account: policies, use and pairing go,
/// the identities of the machine and of its users stay.
pub open spec fn wiped(m: DbModel) -> DbModel {
    DbModel {
        connection: None,
        config_version: 0,
        users: Map::empty(),
        locks: Map::empty(),
        usage: Map::empty(),
        ..m
    }
}

/// The minutes granted or taken away for a user on a day.
pub open spec fn adjustment_of(m: DbModel, uid: u32, date: Seq<char>) -> int {
    if m.users.dom().contains(uid) && m.pushed_on == date {
        m.users[uid].adjustments_today as int
    } else {
        0
    }
}

/// The security identifier that has an identity.
pub open spec fn sid_of(m: DbModel, uid: u32) -> Option<Seq<char>> {
    if 1 <= uid <= m.sids.len() {
        Some(m.sids[uid - 1])
    } else {
        None
    }
}

/// The domains that are blocked for a user.
pub open spec fn domains_of(m: DbModel, uid: u32) -> Seq<Seq<char>> {
    if m.users.dom().contains(uid) {
        texts(m.users[uid].blocked_domains@)
    } else {
        Seq::empty()
    }
}

/// The language of a user.
pub open spec fn language_of(m: DbModel, uid: u32) -> Seq<char> {
    if m.users.dom().contains(uid) {
        m.users[uid].language@
    } else {
        Seq::empty()
    }
}

/// What is stored on a machine at first.
pub open spec fn nothing_stored(machine_id: Seq<char>) -> DbModel {
    DbModel {
        machine_id,
        connection: None,
        config_version: 0,
        sids: Seq::empty(),
        users: Map::empty(),
        pushed_on: Seq::empty(),
        locks: Map::empty(),
        usage: Map::empty(),
    }
}

/// What is stored once the agent is paired, or no longer is.
pub open spec fn with_connection(m: DbModel, connection: Option<ServerConnection>) -> DbModel {
    DbModel { connection, ..m }
}

/// Whether these are the settings of a user: those of the last push, or none.
pub open spec fn settings_are(s: UserSettings, m: DbModel, uid: u32) -> bool {
    if m.users.dom().contains(uid) {
        &&& s.preserve_tasks_on_lock == m.users[uid].preserve_tasks_on_lock
        &&& s.lockout_grace_minutes == m.users[uid].lockout_grace_minutes
        &&& s.warning_thresholds@ == m.users[uid].warning_thresholds_minutes@
    } else {
        &&& !s.preserve_tasks_on_lock
        &&& s.lockout_grace_minutes == 0
        &&& s.warning_thresholds@ == Seq::<u32>::empty()
    }
}

/// Whether the user is managed.
pub open spec fn is_managed(m: DbModel, uid: u32) -> bool {
    m.users.dom().contains(uid) && m.users[uid].managed
}

/// The policy that counts for a user.
fn find_user(users: &Vec<UserConfig>, uid: u32) -> (r: Option<usize>)
    ensures
        match r {
            Some(i) => {
                &&& i < users@.len()
                &&& users@[i as int].local_uid == uid
                &&& users_of(users@).dom().contains(uid)
                &&& users_of(users@)[uid] == users@[i as int]
            },
            None => !users_of(users@).dom().contains(uid),
        },
{
    let mut found: Option<usize> = None;
    for i in 0..users.len()
        invariant
            match found {
                Some(k) => {
                    &&& k < i
                    &&& users@[k as int].local_uid == uid
                    &&& users_of(users@.take(i as int)).dom().contains(uid)
                    &&& users_of(users@.take(i as int))[uid] == users@[k as int]
                },
                None => !users_of(users@.take(i as int)).dom().contains(uid),
            },
    {
        assert(users@.take(i + 1).drop_last() == users@.take(i as int));
        if users[i].local_uid == uid {
            found = Some(i);
        }
    }
    assert(users@.take(users@.len() as int) == users@);
    found
}

/// The lock that counts for a user.
fn find_lock(locks: &Vec<ManualLock>, uid: u32) -> (r: Option<String>)
    ensures
        optional(r) == (if locks_of(locks@).dom().contains(uid) {
            Some(locks_of(locks@)[uid])
        } else {
            None
        }),
{
    let mut found: Option<String> = None;
    for i in 0..locks.len()
        invariant
            optional(found) == (if locks_of(locks@.take(i as int)).dom().contains(uid) {
                Some(locks_of(locks@.take(i as int))[uid])
            } else {
                None
            }),
    {
        assert(locks@.take(i + 1).drop_last() == locks@.take(i as int));
        if locks[i].local_uid == uid {
            found = Some(locks[i].date.clone());
        }
    }
    assert(locks@.take(locks@.len() as int) == locks@);
    found
}

/// The row of a user and a day.
fn find_row(rows: &Vec<UsageRow>, uid: u32, date: &str) -> (r: Option<usize>)
    ensures
        match r {
            Some(i) => {
                &&& i < rows@.len()
                &&& rows@[i as int].local_uid == uid && rows@[i as int].date@ == date@
                &&& forall|j: int|
                    i < j < rows@.len() ==> !((#[trigger] rows@[j]).local_uid == uid && rows@[j].date@ == date@)
                &&& usage_of(rows@).dom().contains((uid, date@))
                &&& usage_of(rows@)[(uid, date@)] == rows@[i as int].used_seconds
            },
            None => !usage_of(rows@).dom().contains((uid, date@)),
        },
{
    let mut found: Option<usize> = None;
    for i in 0..rows.len()
        invariant
            match found {
                Some(k) => {
                    &&& k < i
                    &&& rows@[k as int].local_uid == uid && rows@[k as int].date@ == date@
                    &&& forall|j: int|
                        k < j < i ==> !((#[trigger] rows@[j]).local_uid == uid && rows@[j].date@ == date@)
                    &&& usage_of(rows@.take(i as int)).dom().contains((uid, date@))
                    &&& usage_of(rows@.take(i as int))[(uid, date@)] == rows@[k as int].used_seconds
                },
                None => !usage_of(rows@.take(i as int)).dom().contains((uid, date@)),
            },
    {
        assert(rows@.take(i + 1).drop_last() == rows@.take(i as int));
        if rows[i].local_uid == uid && same(rows[i].date.as_str(), date) {
            found = Some(i);
        }
    }
    assert(rows@.take(rows@.len() as int) == rows@);
    found
}

/// Where the last row of a user and a day is replaced by another one of them, nothing else
/// changes.
proof fn lemma_row_replaced(rows: Seq<UsageRow>, i: int, row: UsageRow)
    requires
        0 <= i < rows.len(),
        row.local_uid == rows[i].local_uid,
        row.date@ == rows[i].date@,
        forall|j: int|
            i < j < rows.len() ==> !((#[trigger] rows[j]).local_uid == row.local_uid && rows[j].date@ == row.date@),
    ensures
        usage_of(rows.update(i, row)) == usage_of(rows).insert((row.local_uid, row.date@), row.used_seconds),
    decreases rows.len(),
{
    let last = rows.len() - 1;
    if i == last {
        assert(rows.update(i, row).drop_last() == rows.drop_last());
    } else {
        assert(rows.update(i, row).drop_last() == rows.drop_last().update(i, row));
        assert(rows[last] == rows.last());
        assert forall|j: int| i < j < rows.drop_last().len() implies !((#[trigger] rows.drop_last()[j]).local_uid
            == row.local_uid && rows.drop_last()[j].date@ == row.date@) by {
            assert(rows.drop_last()[j] == rows[j]);
        }
        lemma_row_replaced(rows.drop_last(), i, row);
    }
    assert(usage_of(rows.update(i, row)) =~= usage_of(rows).insert((row.local_uid, row.date@), row.used_seconds));
}

/// The windows of a list, once more.
fn copy_schedules(v: &Vec<Schedule>) -> (r: Vec<Schedule>)
    ensures
        r@.len() == v@.len(),
        windows_of(r@) == windows_of(v@),
{
    let mut out: Vec<Schedule> = Vec::new();
    for i in 0..v.len()
        invariant
            out@.len() == i,
            windows_of(out@) == windows_of(v@.take(i as int)),
    {
        let ghost before = out@;
        out.push(
            Schedule {
                day_of_week: v[i].day_of_week,
                start_time: v[i].start_time.clone(),
                end_time: v[i].end_time.clone(),
            },
        );
        assert(windows_of(out@) =~= windows_of(before).push(windows_of(v@)[i as int]));
        assert(windows_of(v@.take(i + 1)) =~= windows_of(v@.take(i as int)).push(windows_of(v@)[i as int]));
    }
    assert(v@.take(v@.len() as int) == v@);
    out
}

/// The limits of a list, once more.
fn copy_limits(v: &Vec<DailyLimit>) -> (r: Vec<DailyLimit>)
    ensures
        r@ == v@,
{
    let mut out: Vec<DailyLimit> = Vec::new();
    for i in 0..v.len()
        invariant
            out@ == v@.take(i as int),
    {
        out.push(v[i]);
        assert(v@.take(i + 1) == v@.take(i as int).push(v@[i as int]));
    }
    assert(v@.take(v@.len() as int) == v@);
    out
}

/// The numbers of a list, once more.
fn copy_numbers(v: &Vec<u32>) -> (r: Vec<u32>)
    ensures
        r@ == v@,
{
    let mut out: Vec<u32> = Vec::new();
    for i in 0..v.len()
        invariant
            out@ == v@.take(i as int),
    {
        out.push(v[i]);
        assert(v@.take(i + 1) == v@.take(i as int).push(v@[i as int]));
    }
    assert(v@.take(v@.len() as int) == v@);
    out
}

/// A number of seconds, at most the largest that a time can be.
pub open spec fn capped_seconds(n: u64) -> int {
    if n <= i64::MAX {
        n as int
    } else {
        i64::MAX as int
    }
}

/// The use of one user, day by day.
fn usage_list(rows: &Vec<UsageRow>, uid: u32) -> (r: Vec<(String, i64)>)
    ensures
        forall|key: Seq<char>| #[trigger]
            seconds_on(r@, key) == (if usage_of(rows@).dom().contains((uid, key)) {
                capped_seconds(usage_of(rows@)[(uid, key)])
            } else {
                0
            }),
{
    let mut out: Vec<(String, i64)> = Vec::new();
    for i in 0..rows.len()
        invariant
            forall|key: Seq<char>| #[trigger]
                seconds_on(out@, key) == (if usage_of(rows@.take(i as int)).dom().contains((uid, key)) {
                    capped_seconds(usage_of(rows@.take(i as int))[(uid, key)])
                } else {
                    0
                }),
    {
        assert(rows@.take(i + 1).drop_last() == rows@.take(i as int));
        let row = &rows[i];
        let ghost before = out@;
        if row.local_uid == uid {
            let seconds: i64 = if row.used_seconds <= i64::MAX as u64 {
                row.used_seconds as i64
            } else {
                i64::MAX
            };
            out.insert(0, (row.date.clone(), seconds));
            assert(out@.drop_first() =~= before);
            assert(out@[0].0@ == row.date@);
        }
        assert forall|key: Seq<char>| #[trigger]
            seconds_on(out@, key) == (if usage_of(rows@.take(i + 1)).dom().contains((uid, key)) {
                capped_seconds(usage_of(rows@.take(i + 1))[(uid, key)])
            } else {
                0
            }) by {
            assert(seconds_on(before, key) == (if usage_of(rows@.take(i as int)).dom().contains((uid, key)) {
                capped_seconds(usage_of(rows@.take(i as int))[(uid, key)])
            } else {
                0
            }));
        }
    }
    assert(rows@.take(rows@.len() as int) == rows@);
    out
}

impl Db {
    /// Nothing but the identity of the machine.
    pub fn new(machine_id: String) -> (r: Db)
        ensures
            r@ == nothing_stored(machine_id@),
    {
        let r = Db {
            machine_id,
            connection: None,
            config_version: 0,
            sids: Vec::new(),
            users: Vec::new(),
            pushed_on: String::new(),
            locks: Vec::new(),
            usage: Vec::new(),
        };
        assert(r@.sids =~= Seq::<Seq<char>>::empty());
        r
    }

    /// Keeps whom the agent is paired with.
    pub fn save_server_connection(&mut self, connection: ServerConnection)
        ensures
            final(self)@ == with_connection(old(self)@, Some(connection)),
    {
        self.connection = Some(connection);
    }

    /// Forgets whom the agent is paired with.
    pub fn reset_pairing(&mut self)
        ensures
            final(self)@ == with_connection(old(self)@, None),
    {
        self.connection = None;
    }

    /// Forgets policies, use and pairing, because the agent is bound to another account.
    /// The identities of users stay.
    pub fn wipe_for_rebind(&mut self)
        ensures
            final(self)@ == wiped(old(self)@),
    {
        self.connection = None;
        self.config_version = 0;
        self.users.clear();
        self.locks.clear();
        self.usage.clear();
    }

    /// The identity of a security identifier, which gets one where it has none. None is
    /// left only when all numbers are given.
    pub fn uid_for_sid(&mut self, sid: &str) -> (r: Option<u32>)
        ensures
            final(self)@ == identified(old(self)@, sid@),
            r == uid_of(identity(final(self)@.sids, sid@)),
    {
        let ghost all = texts(self.sids@);
        let mut i: usize = 0;
        while i < self.sids.len()
            invariant
                *self == *old(self),
                all == texts(self.sids@),
                i <= self.sids@.len(),
                identity(all.take(i as int), sid@) is None,
            decreases self.sids@.len() - i,
        {
            assert(all.take(i + 1).drop_last() == all.take(i as int));
            if same(self.sids[i].as_str(), sid) {
                proof {
                    assert(identity(all.take(i + 1), sid@) == Some(i + 1));
                    assert(all.take(i + 1) + all.skip(i + 1) == all);
                    law_identities_are_kept(all.take(i + 1), all.skip(i + 1), sid@);
                }
                return if i < u32::MAX as usize {
                    Some((i + 1) as u32)
                } else {
                    None
                };
            }
            i += 1;
        }
        assert(all.take(all.len() as int) == all);
        if self.sids.len() < u32::MAX as usize {
            self.sids.push(sid.to_owned());
            assert(texts(self.sids@) == all.push(sid@));
            assert(all.push(sid@).drop_last() == all);
            Some(self.sids.len() as u32)
        } else {
            None
        }
    }

    /// The security identifier that has an identity.
    pub fn sid_for_uid(&self, uid: u32) -> (r: Option<String>)
        ensures
            optional(r) == sid_of(self@, uid),
    {
        if uid >= 1 && uid as usize <= self.sids.len() {
            Some(self.sids[uid as usize - 1].clone())
        } else {
            None
        }
    }

    /// The users who are managed, each once.
    pub fn managed_uids(&self) -> (r: Vec<u32>)
        ensures
            r@.no_duplicates(),
            forall|uid: u32| #[trigger] r@.contains(uid) <==> is_managed(self@, uid),
    {
        let mut out: Vec<u32> = Vec::new();
        for i in 0..self.users.len()
            invariant
                out@.no_duplicates(),
                forall|uid: u32| #[trigger]
                    out@.contains(uid) <==> is_managed(self@, uid) && exists|j: int|
                        0 <= j < i && (#[trigger] self.users@[j]).local_uid == uid,
        {
            let uid = self.users[i].local_uid;
            let ghost before = out@;
            let managed = match find_user(&self.users, uid) {
                Some(k) => self.users[k].managed,
                None => false,
            };
            if managed && !crate::runtime::lists(&out, uid) {
                out.push(uid);
                assert(out@[before.len() as int] == uid);
            }
            assert forall|n: u32| #[trigger] out@.contains(n) <==> is_managed(self@, n) && exists|j: int|
                0 <= j < i + 1 && (#[trigger] self.users@[j]).local_uid == n by {
                assert(self.users@[i as int].local_uid == uid);
                if before.contains(n) {
                    let k = choose|k: int| 0 <= k < before.len() && before[k] == n;
                    assert(out@[k] == n);
                }
                assert(before.contains(n) <==> is_managed(self@, n) && exists|j: int|
                    0 <= j < i && (#[trigger] self.users@[j]).local_uid == n);
            }
        }
        assert forall|uid: u32| #[trigger] out@.contains(uid) <==> is_managed(self@, uid) by {
            if self@.users.dom().contains(uid) {
                lemma_users_listed(self.users@, uid);
            }
        }
        out
    }

    /// Takes a push of policies of a day.
    pub fn apply_config_push(&mut self, users: Vec<UserConfig>, version: u64, today: &str)
        ensures
            final(self)@ == pushed(old(self)@, users@, version, today@),
    {
        self.users = users;
        self.config_version = version;
        self.pushed_on = today.to_owned();
        self.locks.clear();
    }

    /// Locks a user for a day, until the next push of policies.
    pub fn force_lock_today(&mut self, uid: u32, date: &str)
        ensures
            final(self)@ == locked(old(self)@, uid, date@),
    {
        let ghost before = self.locks@;
        self.locks.push(ManualLock { local_uid: uid, date: date.to_owned() });
        assert(self.locks@.drop_last() == before);
    }

    /// Adds seconds of use of a user on a day.
    pub fn add_usage_seconds(&mut self, uid: u32, date: &str, seconds: u64)
        ensures
            final(self)@ == used_more(old(self)@, uid, date@, seconds),
    {
        let ghost before = self.usage@;
        match find_row(&self.usage, uid, date) {
            Some(i) => {
                let sum = self.usage[i].used_seconds.saturating_add(seconds);
                let row = UsageRow { local_uid: uid, date: date.to_owned(), used_seconds: sum };
                proof {
                    lemma_row_replaced(before, i as int, row);
                }
                self.usage[i] = row;
            },
            None => {
                self.usage.push(UsageRow { local_uid: uid, date: date.to_owned(), used_seconds: seconds });
                assert(self.usage@.drop_last() == before);
            },
        }
    }

    /// The minutes granted or taken away for a user on a day.
    pub fn adjustment(&self, uid: u32, date: &str) -> (r: i32)
        ensures
            r == adjustment_of(self@, uid, date@),
    {
        match find_user(&self.users, uid) {
            Some(i) => if same(self.pushed_on.as_str(), date) {
                self.users[i].adjustments_today
            } else {
                0
            },
            None => 0,
        }
    }

    /// The domains that are blocked for a user.
    pub fn blocked_domains(&self, uid: u32) -> (r: Vec<String>)
        ensures
            texts(r@) == domains_of(self@, uid),
    {
        match find_user(&self.users, uid) {
            Some(i) => copies(&self.users[i].blocked_domains),
            None => {
                let none: Vec<String> = Vec::new();
                assert(texts(none@) =~= Seq::<Seq<char>>::empty());
                none
            },
        }
    }

    /// The language of a user.
    pub fn language(&self, uid: u32) -> (r: String)
        ensures
            r@ == language_of(self@, uid),
    {
        match find_user(&self.users, uid) {
            Some(i) => self.users[i].language.clone(),
            None => String::new(),
        }
    }

    /// The settings that the main loop goes by.
    pub fn settings(&self, uid: u32) -> (r: UserSettings)
        ensures
            settings_are(r, self@, uid),
    {
        match find_user(&self.users, uid) {
            Some(i) => UserSettings {
                preserve_tasks_on_lock: self.users[i].preserve_tasks_on_lock,
                lockout_grace_minutes: self.users[i].lockout_grace_minutes,
                warning_thresholds: copy_numbers(&self.users[i].warning_thresholds_minutes),
            },
            None => UserSettings {
                preserve_tasks_on_lock: false,
                lockout_grace_minutes: 0,
                warning_thresholds: Vec::new(),
            },
        }
    }

    /// What is cached of a user, for the rules that speak of the time that is left.
    pub fn policy(&self, uid: u32) -> (r: CachedPolicy)
        ensures
            caches(r, self@, uid),
    {
        let manual_lock = find_lock(&self.locks, uid);
        let usage = usage_list(&self.usage, uid);
        match find_user(&self.users, uid) {
            Some(i) => {
                let user = &self.users[i];
                let mut adjustments: Vec<(String, i32)> = Vec::new();
                adjustments.push((self.pushed_on.clone(), user.adjustments_today));
                assert forall|key: Seq<char>| #[trigger]
                    minutes_on(adjustments@, key) == adjustment_of(self@, uid, key) by {
                    reveal_with_fuel(minutes_on, 2);
                }
                CachedPolicy {
                    manual_lock,
                    schedules: copy_schedules(&user.schedules),
                    daily_limits: copy_limits(&user.daily_limits),
                    adjustments,
                    usage,
                    warning_thresholds: copy_numbers(&user.warning_thresholds_minutes),
                }
            },
            None => CachedPolicy {
                manual_lock,
                schedules: Vec::new(),
                daily_limits: Vec::new(),
                adjustments: Vec::new(),
                usage,
                warning_thresholds: Vec::new(),
            },
        }
    }
}

/// Whether a policy holds what is kept of a user: the windows, limits and thresholds of the
/// last push, and for each day the lock, the adjustment and the use.
pub open spec fn caches(p: CachedPolicy, m: DbModel, uid: u32) -> bool {
    &&& optional(p.manual_lock) == (if m.locks.dom().contains(uid) {
        Some(m.locks[uid])
    } else {
        None
    })
    &&& forall|key: Seq<char>| #[trigger] minutes_on(p.adjustments@, key) == adjustment_of(m, uid, key)
    &&& forall|key: Seq<char>| #[trigger] seconds_on(p.usage@, key) == capped_seconds(used_on(m, uid, key))
    &&& if m.users.dom().contains(uid) {
        &&& windows_of(p.schedules@) == windows_of(m.users[uid].schedules@)
        &&& p.daily_limits@ == m.users[uid].daily_limits@
        &&& p.warning_thresholds@ == m.users[uid].warning_thresholds_minutes@
    } else {
        &&& windows_of(p.schedules@).len() == 0
        &&& p.daily_limits@.len() == 0
        &&& p.warning_thresholds@.len() == 0
    }
}

/// A user who has a policy is in the list.
proof fn lemma_users_listed(users: Seq<UserConfig>, uid: u32)
    requires
        users_of(users).dom().contains(uid),
    ensures
        exists|j: int| 0 <= j < users.len() && (#[trigger] users[j]).local_uid == uid,
    decreases users.len(),
{
    if users.last().local_uid == uid {
        assert(users[users.len() - 1].local_uid == uid);
    } else {
        lemma_users_listed(users.drop_last(), uid);
        let j = choose|j: int|
            0 <= j < users.drop_last().len() && (#[trigger] users.drop_last()[j]).local_uid == uid;
        assert(users[j].local_uid == uid);
    }
}

/// The identity of a security identifier leads back to it.
pub proof fn law_identities_lead_back(sids: Seq<Seq<char>>, sid: Seq<char>)
    ensures
        match identity(sids, sid) {
            Some(place) => 1 <= place <= sids.len() && sids[place - 1] == sid,
            None => !sids.contains(sid),
        },
    decreases sids.len(),
{
    if sids.len() > 0 {
        let front = sids.drop_last();
        law_identities_lead_back(front, sid);
        if sids.contains(sid) {
            let k = choose|k: int| 0 <= k < sids.len() && sids[k] == sid;
            if k < front.len() {
                assert(front[k] == sid);
            }
        }
    }
}

/// Two security identifiers never have the same identity.
pub proof fn law_identities_are_never_shared(sids: Seq<Seq<char>>, a: Seq<char>, b: Seq<char>)
    requires
        a != b,
        identity(sids, a) is Some,
    ensures
        identity(sids, a) != identity(sids, b),
{
    law_identities_lead_back(sids, a);
    law_identities_lead_back(sids, b);
}

/// An identity that was given stays, whatever is seen later.
pub proof fn law_identities_are_kept(sids: Seq<Seq<char>>, more: Seq<Seq<char>>, sid: Seq<char>)
    requires
        identity(sids, sid) is Some,
    ensures
        identity(sids + more, sid) == identity(sids, sid),
    decreases more.len(),
{
    if more.len() == 0 {
        assert(sids + more == sids);
    } else {
        assert((sids + more).drop_last() == sids + more.drop_last());
        law_identities_are_kept(sids, more.drop_last(), sid);
    }
}

/// What changes what is kept.
pub enum DbChange {
    Paired(ServerConnection),
    Unpaired,
    Rebound,
    Seen(Seq<char>),
    Pushed(Seq<UserConfig>, u64, Seq<char>),
    Locked(u32, Seq<char>),
    Used(u32, Seq<char>, u64),
}

/// What is kept after a change.
pub open spec fn changed(m: DbModel, change: DbChange) -> DbModel {
    match change {
        DbChange::Paired(c) => DbModel { connection: Some(c), ..m },
        DbChange::Unpaired => DbModel { connection: None, ..m },
        DbChange::Rebound => wiped(m),
        DbChange::Seen(sid) => identified(m, sid),
        DbChange::Pushed(users, version, today) => pushed(m, users, version, today),
        DbChange::Locked(uid, date) => locked(m, uid, date),
        DbChange::Used(uid, date, seconds) => used_more(m, uid, date, seconds),
    }
}

/// What is kept after a series of changes.
pub open spec fn after_changes(m: DbModel, changes: Seq<DbChange>) -> DbModel
    decreases changes.len(),
{
    if changes.len() == 0 {
        m
    } else {
        changed(after_changes(m, changes.drop_last()), changes.last())
    }
}

/// Through every series of changes, also pairing anew and binding to another account, a
/// security identifier keeps its identity, and no other one gets it.
pub proof fn law_identities_outlast_everything(m: DbModel, changes: Seq<DbChange>, sid: Seq<char>, other: Seq<char>)
    requires
        identity(m.sids, sid) is Some,
        other != sid,
    ensures
        identity(after_changes(m, changes).sids, sid) == identity(m.sids, sid),
        identity(after_changes(m, changes).sids, other) != identity(m.sids, sid),
    decreases changes.len(),
{
    if changes.len() > 0 {
        let before = after_changes(m, changes.drop_last());
        law_identities_outlast_everything(m, changes.drop_last(), sid, other);
        if changes.last() is Seen && identified(before, changes.last()->Seen_0) != before {
            assert(before.sids.push(changes.last()->Seen_0) == before.sids + seq![changes.last()->Seen_0]);
            law_identities_are_kept(before.sids, seq![changes.last()->Seen_0], sid);
        }
    }
    law_identities_are_never_shared(after_changes(m, changes).sids, sid, other);
}

/// A lock by hand holds on its day and on no other, and a push of policies ends it.
pub proof fn law_new_policies_end_locks(
    m: DbModel,
    uid: u32,
    date: Seq<char>,
    users: Seq<UserConfig>,
    version: u64,
    today: Seq<char>,
    before: CachedPolicy,
    after: CachedPolicy,
    now: LocalTime,
)
    requires
        caches(before, locked(m, uid, date), uid),
        caches(after, pushed(locked(m, uid, date), users, version, today), uid),
    ensures
        locked_by_hand(before, now) <==> date == date_key(now.date.days),
        locked_by_hand(before, now) ==> remaining_seconds(before, now) == 0,
        !locked_by_hand(after, now),
{
}

/// Use adds up on the day and for the user that it is of, and nowhere else.
pub proof fn law_use_adds_up(m: DbModel, uid: u32, date: Seq<char>, seconds: u64, other: u32, day: Seq<char>)
    ensures
        used_on(used_more(m, uid, date, seconds), uid, date) == capped_sum(used_on(m, uid, date), seconds),
        (other, day) != (uid, date) ==> used_on(used_more(m, uid, date, seconds), other, day) == used_on(m, other, day),
{
}

/// Binding to another account leaves nothing of the old policies and the old use.
pub proof fn law_rebinding_forgets_policy_and_use(m: DbModel, uid: u32, p: CachedPolicy, now: LocalTime)
    requires
        caches(p, wiped(m), uid),
    ensures
        !is_managed(wiped(m), uid),
        seconds_on(p.usage@, date_key(now.date.days)) == 0,
        remaining_seconds(p, now) == i64::MAX,
{
}

proof fn lemma_last_user_counts(users: Seq<UserConfig>, i: int)
    requires
        0 <= i < users.len(),
        forall|k: int| i < k < users.len() ==> (#[trigger] users[k]).local_uid != users[i].local_uid,
    ensures
        users_of(users).dom().contains(users[i].local_uid),
        users_of(users)[users[i].local_uid] == users[i],
    decreases users.len(),
{
    if i < users.len() - 1 {
        let front = users.drop_last();
        assert(users[users.len() - 1].local_uid != users[i].local_uid);
        assert forall|k: int| i < k < front.len() implies (#[trigger] front[k]).local_uid != front[i].local_uid by {
            assert(users[k].local_uid != users[i].local_uid);
        }
        lemma_last_user_counts(front, i);
    }
}

proof fn lemma_unlisted_user(users: Seq<UserConfig>, uid: u32)
    requires
        forall|k: int| 0 <= k < users.len() ==> (#[trigger] users[k]).local_uid != uid,
    ensures
        !users_of(users).dom().contains(uid),
{
    if users_of(users).dom().contains(uid) {
        lemma_users_listed(users, uid);
        let j = choose|j: int| 0 <= j < users.len() && (#[trigger] users[j]).local_uid == uid;
        assert(users[j].local_uid == uid);
    }
}

/// What was last pushed for a user is what counts: whether the user is managed, the windows, limits,
/// thresholds and settings, the language and the blocked domains. The adjustment counts on the day of
/// the push and on no other.
pub proof fn law_pushed_policies_count(
    m: DbModel,
    users: Seq<UserConfig>,
    version: u64,
    today: Seq<char>,
    i: int,
    other_day: Seq<char>,
    p: CachedPolicy,
    s: UserSettings,
)
    requires
        0 <= i < users.len(),
        forall|k: int| i < k < users.len() ==> (#[trigger] users[k]).local_uid != users[i].local_uid,
        caches(p, pushed(m, users, version, today), users[i].local_uid),
        settings_are(s, pushed(m, users, version, today), users[i].local_uid),
        other_day != today,
    ensures
        ({
            let n = pushed(m, users, version, today);
            let u = users[i];
            &&& is_managed(n, u.local_uid) <==> u.managed
            &&& adjustment_of(n, u.local_uid, today) == u.adjustments_today
            &&& adjustment_of(n, u.local_uid, other_day) == 0
            &&& domains_of(n, u.local_uid) == texts(u.blocked_domains@)
            &&& language_of(n, u.local_uid) == u.language@
            &&& n.config_version == version
            &&& windows_of(p.schedules@) == windows_of(u.schedules@)
            &&& p.daily_limits@ == u.daily_limits@
            &&& p.warning_thresholds@ == u.warning_thresholds_minutes@
            &&& p.manual_lock is None
            &&& minutes_on(p.adjustments@, today) == u.adjustments_today
            &&& minutes_on(p.adjustments@, other_day) == 0
            &&& s.preserve_tasks_on_lock == u.preserve_tasks_on_lock
            &&& s.lockout_grace_minutes == u.lockout_grace_minutes
            &&& s.warning_thresholds@ == u.warning_thresholds_minutes@
        }),
{
    lemma_last_user_counts(users, i);
}

/// A user of whom the last push says nothing is not managed, has nothing blocked, no adjustment and
/// no bound; what was pushed earlier does not count any more.
pub proof fn law_a_push_replaces_everything(
    m: DbModel,
    users: Seq<UserConfig>,
    version: u64,
    today: Seq<char>,
    uid: u32,
    p: CachedPolicy,
    now: LocalTime,
)
    requires
        forall|k: int| 0 <= k < users.len() ==> (#[trigger] users[k]).local_uid != uid,
        caches(p, pushed(m, users, version, today), uid),
    ensures
        ({
            let n = pushed(m, users, version, today);
            &&& !is_managed(n, uid)
            &&& domains_of(n, uid).len() == 0
            &&& adjustment_of(n, uid, today) == 0
            &&& remaining_seconds(p, now) == i64::MAX
            &&& n.usage == m.usage && n.sids == m.sids && n.connection == m.connection
        }),
{
    lemma_unlisted_user(users, uid);
}

/// Seconds of use are added to those of the same user on the same day, and shorten what the policy
/// leaves there; the use of other users and days stays.
pub proof fn law_added_use_counts(
    m: DbModel,
    uid: u32,
    date: Seq<char>,
    seconds: u64,
    before: CachedPolicy,
    after: CachedPolicy,
    other: u32,
    day: Seq<char>,
)
    requires
        used_on(m, uid, date) + seconds <= i64::MAX,
        caches(before, m, uid),
        caches(after, used_more(m, uid, date, seconds), uid),
    ensures
        used_on(used_more(m, uid, date, seconds), uid, date) == used_on(m, uid, date) + seconds,
        seconds_on(after.usage@, date) == seconds_on(before.usage@, date) + seconds,
        day != date ==> seconds_on(after.usage@, day) == seconds_on(before.usage@, day),
        other != uid ==> used_on(used_more(m, uid, date, seconds), other, day) == used_on(m, other, day),
        used_more(m, uid, date, seconds).users == m.users && used_more(m, uid, date, seconds).locks == m.locks,
{
}

/// A lock by hand counts for its user and its day; it changes nothing for other users, and nothing of
/// the policies and the use.
pub proof fn law_locks_are_for_one_user(m: DbModel, uid: u32, date: Seq<char>, other: u32, p: CachedPolicy)
    requires
        other != uid,
        caches(p, locked(m, uid, date), other),
    ensures
        caches(p, m, other),
        locked(m, uid, date).locks.dom().contains(uid) && locked(m, uid, date).locks[uid] == date,
        locked(m, uid, date).users == m.users && locked(m, uid, date).usage == m.usage,
{
    let n = locked(m, uid, date);
    assert(forall|key: Seq<char>| adjustment_of(n, other, key) == #[trigger] adjustment_of(m, other, key));
    assert(forall|key: Seq<char>| used_on(n, other, key) == #[trigger] used_on(m, other, key));
}

/// A security identifier that is new gets the next number, from one on, and leads back from it; one
/// that was seen keeps what it has.
pub proof fn law_new_identifiers_get_the_next_number(m: DbModel, sid: Seq<char>)
    requires
        m.sids.len() < u32::MAX,
    ensures
        !m.sids.contains(sid) ==> {
            &&& identified(m, sid).sids == m.sids.push(sid)
            &&& uid_of(identity(identified(m, sid).sids, sid)) == Some((m.sids.len() + 1) as u32)
            &&& sid_of(identified(m, sid), (m.sids.len() + 1) as u32) == Some(sid)
        },
        m.sids.contains(sid) ==> identified(m, sid) == m,
        uid_of(identity(identified(m, sid).sids, sid)) matches Some(uid) ==> sid_of(identified(m, sid), uid) == Some(sid),
{
    law_identities_lead_back(m.sids, sid);
    law_identities_lead_back(identified(m, sid).sids, sid);
    if !m.sids.contains(sid) {
        if identity(m.sids, sid) is Some {
            assert(m.sids[identity(m.sids, sid)->Some_0 - 1] == sid);
        }
        assert(m.sids.push(sid).drop_last() =~= m.sids);
    }
}

/// Binding to another account forgets the pairing, the policies, the locks and the use of every user,
/// and keeps the machine and the identities.
pub proof fn law_wiping_keeps_identities_only(m: DbModel, uid: u32, date: Seq<char>)
    ensures
        wiped(m).connection is None && wiped(m).config_version == 0,
        !is_managed(wiped(m), uid),
        used_on(wiped(m), uid, date) == 0,
        !wiped(m).locks.dom().contains(uid),
        domains_of(wiped(m), uid).len() == 0,
        wiped(m).sids == m.sids && wiped(m).machine_id == m.machine_id,
{
}

/// At first the machine has its identity and nothing else: nobody is managed, known, locked or has used
/// any time, and the agent is not paired.
pub proof fn law_a_machine_begins_with_its_identity(machine_id: Seq<char>, uid: u32, date: Seq<char>)
    ensures
        ({
            let m = nothing_stored(machine_id);
            &&& m.machine_id == machine_id
            &&& m.connection is None && m.config_version == 0 && m.sids.len() == 0
            &&& !is_managed(m, uid)
            &&& !m.users.dom().contains(uid)
            &&& !m.locks.dom().contains(uid)
            &&& !m.usage.dom().contains((uid, date))
        }),
{
}

/// Pairing changes whom the agent is paired with, and no policy, lock, identity or use; it lasts until
/// another pairing or its end.
pub proof fn law_pairing_touches_no_policy(
    m: DbModel,
    connection: Option<ServerConnection>,
    next: Option<ServerConnection>,
    uid: u32,
)
    ensures
        with_connection(m, connection).connection == connection,
        with_connection(with_connection(m, connection), next) == with_connection(m, next),
        with_connection(m, connection).users == m.users && with_connection(m, connection).locks == m.locks,
        with_connection(m, connection).usage == m.usage && with_connection(m, connection).sids == m.sids,
        with_connection(m, connection).machine_id == m.machine_id,
        with_connection(m, connection).config_version == m.config_version,
        with_connection(m, connection).pushed_on == m.pushed_on,
        is_managed(with_connection(m, connection), uid) == is_managed(m, uid),
{
}

/// The settings of a user are those of the policy that was pushed for them; without one nothing is
/// preserved, no grace is given and no warning comes.
pub proof fn law_settings_are_those_that_were_pushed(s: UserSettings, m: DbModel, uid: u32, pushed: UserConfig)
    requires
        settings_are(s, m, uid),
    ensures
        m.users.dom().contains(uid) && m.users[uid] == pushed ==> {
            &&& s.preserve_tasks_on_lock == pushed.preserve_tasks_on_lock
            &&& s.lockout_grace_minutes == pushed.lockout_grace_minutes
            &&& s.warning_thresholds@ == pushed.warning_thresholds_minutes@
        },
        !m.users.dom().contains(uid) ==> !s.preserve_tasks_on_lock && s.lockout_grace_minutes == 0
            && s.warning_thresholds@.len() == 0,
{
}

/// A user without a policy has no window, limit or warning, and no adjustment on any day; one with a
/// policy has its limits and its warnings.
pub proof fn law_users_without_policy_are_not_bound(p: CachedPolicy, m: DbModel, uid: u32, key: Seq<char>)
    requires
        caches(p, m, uid),
    ensures
        !m.users.dom().contains(uid) ==> {
            &&& p.schedules@.len() == 0
            &&& p.daily_limits@.len() == 0
            &&& p.warning_thresholds@.len() == 0
            &&& minutes_on(p.adjustments@, key) == 0
        },
        m.users.dom().contains(uid) ==> {
            &&& p.schedules@.len() == m.users[uid].schedules@.len()
            &&& p.daily_limits@ == m.users[uid].daily_limits@
            &&& p.warning_thresholds@ == m.users[uid].warning_thresholds_minutes@
        },
        p.manual_lock is Some <==> m.locks.dom().contains(uid),
        p.manual_lock matches Some(day) ==> day@ == m.locks[uid],
{
    assert(windows_of(p.schedules@).len() == p.schedules@.len());
    if m.users.dom().contains(uid) {
        assert(windows_of(m.users[uid].schedules@).len() == m.users[uid].schedules@.len());
    }
}

/// There are no more identities than numbers for them: once all are given, a new identifier gets none,
/// and until then each new one does.
pub proof fn law_identities_have_numbers(m: DbModel, sid: Seq<char>)
    requires
        identity(m.sids, sid) is None,
    ensures
        m.sids.len() >= 4_294_967_295 ==> identified(m, sid) == m,
        m.sids.len() < 4_294_967_295 ==> identified(m, sid).sids == m.sids.push(sid),
{
}

} // verus!
