//! Time-dependent policy with an explicit clock: how long a user may go on, what to do
//! about it, and when a blocked session is logged off.
use vstd::prelude::*;

use crate::clock::{date_key, hour_minute, parse_hour_minute, LocalTime, TimeOfDay};
use crate::text::{optional, same};

verus! {

/// What a user's session is to be met with.
#[derive(Clone, Copy, Debug, PartialEq, Eq, Structural)]
pub enum EnforceAction {
    Allow,
    Warn,
    Lock,
}

/// A window of a weekday in which the user is allowed in; both ends as `HH:MM`.
#[derive(Debug)]
pub struct Schedule {
    pub day_of_week: u8,
    pub start_time: String,
    pub end_time: String,
}

/// The minutes that a user has on a weekday.
#[derive(Clone, Copy, Debug, PartialEq, Eq, Structural)]
pub struct DailyLimit {
    pub day_of_week: u8,
    pub allowed_minutes: i32,
}

/// What an agent has cached of one user. Values of a single day stand beside the text
/// of that day.
#[derive(Debug)]
pub struct CachedPolicy {
    /// The day on which the user was locked by hand.
    pub manual_lock: Option<String>,
    pub schedules: Vec<Schedule>,
    pub daily_limits: Vec<DailyLimit>,
    /// Minutes granted or taken away.
    pub adjustments: Vec<(String, i32)>,
    /// Seconds used.
    pub usage: Vec<(String, i64)>,
    /// Minutes left at which the user is warned.
    pub warning_thresholds: Vec<u32>,
}

/// A window of a weekday with its ends read; `None` for an end that cannot be read.
#[derive(Clone, Copy, Debug, PartialEq, Eq, Structural)]
pub struct Window {
    pub day_of_week: u8,
    pub start: Option<TimeOfDay>,
    pub end: Option<TimeOfDay>,
}

impl Window {
    /// Whether the ends that could be read are times of a day.
    pub open spec fn valid(self) -> bool {
        &&& self.start matches Some(t) ==> t.valid()
        &&& self.end matches Some(t) ==> t.valid()
    }
}

/// The windows of a schedule, with their ends read.
pub open spec fn windows_of(schedules: Seq<Schedule>) -> Seq<Window> {
    Seq::new(
        schedules.len(),
        |i: int|
            Window {
                day_of_week: schedules[i].day_of_week,
                start: hour_minute(schedules[i].start_time@),
                end: hour_minute(schedules[i].end_time@),
            },
    )
}

/// The seconds that one window leaves; `None` where the window is for another weekday,
/// cannot be read, or is not open now. A window is open up to its end inclusive.
pub open spec fn window_left(w: Window, now: LocalTime) -> Option<int> {
    match (w.start, w.end) {
        (Some(start), Some(end)) => if w.day_of_week == now.date.weekday_number() && start.not_after(now.time)
            && now.time.not_after(end) {
            Some(now.time.seconds_until(end))
        } else {
            None
        },
        _ => None,
    }
}

/// The longest time that an open window leaves; nothing where none is open.
pub open spec fn longest_window(windows: Seq<Window>, now: LocalTime) -> int
    decreases windows.len(),
{
    if windows.len() == 0 {
        0
    } else {
        let rest = longest_window(windows.drop_last(), now);
        match window_left(windows.last(), now) {
            Some(left) => if left > rest {
                left
            } else {
                rest
            },
            None => rest,
        }
    }
}

/// The seconds that the windows leave: no bound where there are none.
pub open spec fn schedule_left(windows: Seq<Window>, now: LocalTime) -> int {
    if windows.len() == 0 {
        i64::MAX as int
    } else {
        longest_window(windows, now)
    }
}

/// The first limit for a weekday.
pub open spec fn limit_for(limits: Seq<DailyLimit>, weekday: int) -> Option<int>
    decreases limits.len(),
{
    if limits.len() == 0 {
        None
    } else if limits[0].day_of_week == weekday {
        Some(limits[0].allowed_minutes as int)
    } else {
        limit_for(limits.drop_first(), weekday)
    }
}

/// The amount that is kept for a day; zero where there is none.
pub open spec fn minutes_on(amounts: Seq<(String, i32)>, key: Seq<char>) -> int
    decreases amounts.len(),
{
    if amounts.len() == 0 {
        0
    } else if amounts[0].0@ == key {
        amounts[0].1 as int
    } else {
        minutes_on(amounts.drop_first(), key)
    }
}

/// The seconds that are kept for a day; zero where there are none.
pub open spec fn seconds_on(amounts: Seq<(String, i64)>, key: Seq<char>) -> int
    decreases amounts.len(),
{
    if amounts.len() == 0 {
        0
    } else if amounts[0].0@ == key {
        amounts[0].1 as int
    } else {
        seconds_on(amounts.drop_first(), key)
    }
}

/// The seconds that the daily limit leaves: no bound where the weekday has no limit.
pub open spec fn allowance_left(limits: Seq<DailyLimit>, adjustment: int, used: int, now: LocalTime) -> int {
    match limit_for(limits, now.date.weekday_number()) {
        Some(minutes) => (minutes + adjustment) * 60 - used,
        None => i64::MAX as int,
    }
}

/// The seconds that are left of a day: the smaller of what the windows and the limit
/// leave, never negative, and nothing where the day is locked.
pub open spec fn day_left(
    locked: bool,
    windows: Seq<Window>,
    limits: Seq<DailyLimit>,
    adjustment: int,
    used: int,
    now: LocalTime,
) -> int {
    let window = schedule_left(windows, now);
    let allowance = allowance_left(limits, adjustment, used, now);
    let least = if window <= allowance {
        window
    } else {
        allowance
    };
    if locked || least < 0 {
        0
    } else {
        least
    }
}

/// Whether the user was locked by hand on the day of `now`.
pub open spec fn locked_by_hand(p: CachedPolicy, now: LocalTime) -> bool {
    optional(p.manual_lock) == Some(date_key(now.date.days))
}

/// The seconds that the user may go on, from what is cached for the day of `now`.
pub open spec fn remaining_seconds(p: CachedPolicy, now: LocalTime) -> int {
    let key = date_key(now.date.days);
    day_left(
        locked_by_hand(p, now),
        windows_of(p.schedules@),
        p.daily_limits@,
        minutes_on(p.adjustments@, key),
        seconds_on(p.usage@, key),
        now,
    )
}

/// Whether so many seconds are within a warning threshold, in whole minutes.
pub open spec fn within_threshold(thresholds: Seq<u32>, seconds: int) -> bool {
    exists|i: int| 0 <= i < thresholds.len() && seconds / 60 <= #[trigger] thresholds[i]
}

/// What to do with so many seconds left.
pub open spec fn action_for(thresholds: Seq<u32>, seconds: int) -> EnforceAction {
    if seconds <= 0 {
        EnforceAction::Lock
    } else if within_threshold(thresholds, seconds) {
        EnforceAction::Warn
    } else {
        EnforceAction::Allow
    }
}

/// The first limit for a weekday.
fn limit_on(limits: &Vec<DailyLimit>, weekday: u8) -> (r: Option<i32>)
    ensures
        limit_for(limits@, weekday as int) == match r {
            Some(m) => Some(m as int),
            None => None,
        },
{
    assert(limits@.skip(0) == limits@);
    for i in 0..limits.len()
        invariant
            limit_for(limits@, weekday as int) == limit_for(limits@.skip(i as int), weekday as int),
    {
        assert(limits@.skip(i as int).drop_first() == limits@.skip(i + 1));
        if limits[i].day_of_week == weekday {
            return Some(limits[i].allowed_minutes);
        }
    }
    None
}

/// The minutes that are kept for a day.
fn adjustment_on(amounts: &Vec<(String, i32)>, key: &str) -> (r: i32)
    ensures
        r == minutes_on(amounts@, key@),
{
    assert(amounts@.skip(0) == amounts@);
    for i in 0..amounts.len()
        invariant
            minutes_on(amounts@, key@) == minutes_on(amounts@.skip(i as int), key@),
    {
        assert(amounts@.skip(i as int).drop_first() == amounts@.skip(i + 1));
        if same(amounts[i].0.as_str(), key) {
            return amounts[i].1;
        }
    }
    0
}

/// The seconds that are kept for a day.
fn usage_on(amounts: &Vec<(String, i64)>, key: &str) -> (r: i64)
    ensures
        r == seconds_on(amounts@, key@),
{
    assert(amounts@.skip(0) == amounts@);
    for i in 0..amounts.len()
        invariant
            seconds_on(amounts@, key@) == seconds_on(amounts@.skip(i as int), key@),
    {
        assert(amounts@.skip(i as int).drop_first() == amounts@.skip(i + 1));
        if same(amounts[i].0.as_str(), key) {
            return amounts[i].1;
        }
    }
    0
}

/// The longest time that an open window leaves.
fn longest_open(windows: &Vec<Window>, now: &LocalTime) -> (r: i64)
    requires
        now.valid(),
        forall|i: int| 0 <= i < windows@.len() ==> (#[trigger] windows@[i]).valid(),
    ensures
        r == longest_window(windows@, *now),
        r >= 0,
{
    let weekday = now.date.weekday();
    let mut best: i64 = 0;
    for i in 0..windows.len()
        invariant
            now.valid(),
            forall|j: int| 0 <= j < windows@.len() ==> (#[trigger] windows@[j]).valid(),
            weekday == now.date.weekday_number(),
            best == longest_window(windows@.take(i as int), *now),
            best >= 0,
    {
        assert(windows@.take(i + 1).drop_last() == windows@.take(i as int));
        let w = windows[i];
        assert(windows@[i as int].valid());
        match (w.start, w.end) {
            (Some(start), Some(end)) => {
                if w.day_of_week == weekday && start.up_to(&now.time) && now.time.up_to(&end) {
                    let left = now.time.until(&end);
                    if left > best {
                        best = left;
                    }
                }
            },
            _ => {},
        }
    }
    assert(windows@.take(windows@.len() as int) == windows@);
    best
}

/// The seconds that are left of a day: at most what an open window and what the daily
/// limit with its adjustment leave, never negative, and zero where the day is locked.
/// `i64::MAX` stands for no bound at all.
pub fn day_remaining(
    locked: bool,
    windows: &Vec<Window>,
    limits: &Vec<DailyLimit>,
    adjustment: i32,
    used: i64,
    now: &LocalTime,
) -> (r: i64)
    requires
        now.valid(),
        forall|i: int| 0 <= i < windows@.len() ==> (#[trigger] windows@[i]).valid(),
    ensures
        r == day_left(locked, windows@, limits@, adjustment as int, used as int, *now),
{
    if locked {
        return 0;
    }
    let window: i64 = if windows.len() == 0 {
        i64::MAX
    } else {
        longest_open(windows, now)
    };
    let allowance: i128 = match limit_on(limits, now.date.weekday()) {
        Some(minutes) => (minutes as i128 + adjustment as i128) * 60 - used as i128,
        None => i64::MAX as i128,
    };
    if window as i128 <= allowance {
        window
    } else if allowance < 0 {
        0
    } else {
        allowance as i64
    }
}

/// The windows of a schedule, with their ends read.
pub fn read_windows(schedules: &Vec<Schedule>) -> (r: Vec<Window>)
    ensures
        r@ == windows_of(schedules@),
        forall|i: int| 0 <= i < r@.len() ==> (#[trigger] r@[i]).valid(),
{
    let mut out: Vec<Window> = Vec::new();
    for i in 0..schedules.len()
        invariant
            out@ == windows_of(schedules@.take(i as int)),
            forall|j: int| 0 <= j < out@.len() ==> (#[trigger] out@[j]).valid(),
    {
        let s = &schedules[i];
        out.push(
            Window {
                day_of_week: s.day_of_week,
                start: parse_hour_minute(s.start_time.as_str()),
                end: parse_hour_minute(s.end_time.as_str()),
            },
        );
        assert(windows_of(schedules@.take(i + 1)) =~= windows_of(schedules@.take(i as int)).push(
            out@[i as int],
        ));
    }
    assert(schedules@.take(schedules@.len() as int) == schedules@);
    out
}

/// The seconds that the user may go on at a moment, from what is cached of the user.
pub fn remaining(db: &CachedPolicy, now: &LocalTime) -> (r: i64)
    requires
        now.valid(),
    ensures
        r == remaining_seconds(*db, *now),
{
    let key = now.date.key();
    let locked = match &db.manual_lock {
        Some(day) => same(day.as_str(), key.as_str()),
        None => false,
    };
    let windows = read_windows(&db.schedules);
    let adjustment = adjustment_on(&db.adjustments, key.as_str());
    let used = usage_on(&db.usage, key.as_str());
    day_remaining(locked, &windows, &db.daily_limits, adjustment, used, now)
}

/// Whether so many seconds are within a warning threshold.
pub fn crosses_threshold(thresholds: &Vec<u32>, seconds: i64) -> (r: bool)
    requires
        seconds >= 0,
    ensures
        r == within_threshold(thresholds@, seconds as int),
{
    for i in 0..thresholds.len()
        invariant
            seconds >= 0,
            forall|j: int| 0 <= j < i ==> seconds / 60 > thresholds@[j],
    {
        if seconds / 60 <= thresholds[i] as i64 {
            assert(seconds as int / 60 <= thresholds@[i as int]);
            return true;
        }
    }
    false
}

/// What a user's session is to be met with at a moment: a lock when no time is left, a
/// warning within a threshold, leave to go on otherwise.
pub fn evaluate(db: &CachedPolicy, now: &LocalTime) -> (r: EnforceAction)
    requires
        now.valid(),
    ensures
        r == action_for(db.warning_thresholds@, remaining_seconds(*db, *now)),
{
    let seconds = remaining(db, now);
    if seconds <= 0 {
        EnforceAction::Lock
    } else if crosses_threshold(&db.warning_thresholds, seconds) {
        EnforceAction::Warn
    } else {
        EnforceAction::Allow
    }
}

/// What a lock does to the session.
#[derive(Clone, Copy, Debug, PartialEq, Eq, Structural)]
pub enum LockBehavior {
    TerminateAfterGrace,
    PreserveAndRelock,
}

/// What a lock does with the session.
pub open spec fn behavior_for(preserve_tasks_on_lock: bool) -> LockBehavior {
    if preserve_tasks_on_lock {
        LockBehavior::PreserveAndRelock
    } else {
        LockBehavior::TerminateAfterGrace
    }
}

/// Sessions are ended exactly where tasks are not to be preserved.
pub proof fn law_sessions_are_ended_where_nothing_is_preserved(preserve: bool)
    ensures
        behavior_for(preserve) == LockBehavior::TerminateAfterGrace <==> !preserve,
        behavior_for(preserve) == LockBehavior::PreserveAndRelock <==> preserve,
{
}

/// A lock keeps the session where tasks are to be preserved, and ends it after the
/// grace period otherwise.
pub fn lock_behavior(preserve_tasks_on_lock: bool) -> (r: LockBehavior)
    ensures
        r == behavior_for(preserve_tasks_on_lock),
{
    if preserve_tasks_on_lock {
        LockBehavior::PreserveAndRelock
    } else {
        LockBehavior::TerminateAfterGrace
    }
}

/// Grace timers are owned by the policy loop, not detached tasks. Lifting a block
/// cancels its deadline, including a block lifted and reapplied quickly.
#[derive(Clone, Copy, Debug)]
pub struct LockState {
    deadline: Option<u64>,
    blocked: bool,
    preserve: bool,
}

/// What a lock state holds: the moment at which the session is logged off, and the
/// block and the mode that were last seen.
pub struct LockModel {
    pub deadline: Option<u64>,
    pub blocked: bool,
    pub preserve: bool,
}

impl View for LockState {
    type V = LockModel;

    closed spec fn view(&self) -> LockModel {
        LockModel { deadline: self.deadline, blocked: self.blocked, preserve: self.preserve }
    }
}

/// The state before anything was seen.
pub open spec fn lock_initial() -> LockModel {
    LockModel { deadline: None, blocked: false, preserve: false }
}

/// A sum that stays at the largest number instead of passing it.
pub open spec fn capped_sum(a: u64, b: u64) -> u64 {
    if a + b <= u64::MAX {
        (a + b) as u64
    } else {
        u64::MAX
    }
}

/// The state after a look at the policy. A block that is new, or whose mode changed,
/// gets a deadline of its own; lifting a block removes it.
pub open spec fn lock_next(s: LockModel, blocked: bool, preserve: bool, grace_secs: u64, now: u64) -> LockModel {
    let deadline = if !blocked {
        None
    } else if !s.blocked || s.preserve != preserve {
        if preserve {
            None
        } else {
            Some(capped_sum(now, grace_secs))
        }
    } else {
        s.deadline
    };
    LockModel { deadline, blocked, preserve }
}

/// Whether the session is logged off now.
pub open spec fn logs_off(s: LockModel, now: u64) -> bool {
    match s.deadline {
        Some(d) => now >= d,
        None => false,
    }
}

impl Default for LockState {
    fn default() -> (r: LockState)
        ensures
            r@ == lock_initial(),
    {
        LockState { deadline: None, blocked: false, preserve: false }
    }
}

impl LockState {
    /// Takes note of the policy at a moment; whether the session is to be logged off.
    pub fn update(&mut self, blocked: bool, preserve: bool, grace_secs: u64, now: u64) -> (r: bool)
        ensures
            final(self)@ == lock_next(old(self)@, blocked, preserve, grace_secs, now),
            r == logs_off(final(self)@, now),
    {
        if !blocked {
            self.deadline = None;
            self.blocked = false;
            self.preserve = preserve;
            return false;
        }
        if !self.blocked || self.preserve != preserve {
            self.deadline = if preserve {
                None
            } else {
                Some(now.saturating_add(grace_secs))
            };
        }
        self.blocked = true;
        self.preserve = preserve;
        match self.deadline {
            Some(d) => now >= d,
            None => false,
        }
    }
}

/// A look at the policy.
pub struct Look {
    pub blocked: bool,
    pub preserve: bool,
    pub grace_secs: u64,
    pub now: u64,
}

/// The state after a series of looks, from the beginning.
pub open spec fn lock_after(looks: Seq<Look>) -> LockModel
    decreases looks.len(),
{
    if looks.len() == 0 {
        lock_initial()
    } else {
        let l = looks.last();
        lock_next(lock_after(looks.drop_last()), l.blocked, l.preserve, l.grace_secs, l.now)
    }
}

/// Whether a look keeps the clock of a logoff running.
pub open spec fn arms(l: Look) -> bool {
    l.blocked && !l.preserve
}

/// The session is logged off exactly when an unbroken run of looks that block without
/// preserving has lasted as long as the grace period that was set at its beginning. A
/// look that lifts the block or preserves the session starts the wait anew.
pub proof fn law_logoff_after_unbroken_grace(looks: Seq<Look>, start: int)
    requires
        0 <= start < looks.len(),
        start > 0 ==> !arms(looks[start - 1]),
        forall|i: int| start <= i < looks.len() ==> arms(#[trigger] looks[i]),
    ensures
        logs_off(lock_after(looks), looks.last().now) <==> looks.last().now >= capped_sum(
            looks[start].now,
            looks[start].grace_secs,
        ),
    decreases looks.len(),
{
    lemma_armed_deadline(looks, start);
}

proof fn lemma_last_seen(looks: Seq<Look>)
    requires
        looks.len() > 0,
    ensures
        lock_after(looks).blocked == looks.last().blocked,
        lock_after(looks).preserve == looks.last().preserve,
{
}

proof fn lemma_armed_deadline(looks: Seq<Look>, start: int)
    requires
        0 <= start < looks.len(),
        start > 0 ==> !arms(looks[start - 1]),
        forall|i: int| start <= i < looks.len() ==> arms(#[trigger] looks[i]),
    ensures
        lock_after(looks).deadline == Some(capped_sum(looks[start].now, looks[start].grace_secs)),
    decreases looks.len(),
{
    let before = looks.drop_last();
    if start < looks.len() - 1 {
        assert(arms(looks[looks.len() - 2]));
        assert(arms(looks[looks.len() - 1]));
        assert forall|i: int| start <= i < before.len() implies arms(#[trigger] before[i]) by {
            assert(arms(looks[i]));
        }
        lemma_armed_deadline(before, start);
        lemma_last_seen(before);
    } else {
        assert(arms(looks[start]));
        if start > 0 {
            lemma_last_seen(before);
        } else {
            assert(lock_after(before) == lock_initial());
        }
    }
}

/// A session is never logged off by a look that does not block it, nor by one that
/// preserves its tasks.
pub proof fn law_lifted_or_preserved_never_logs_off(looks: Seq<Look>)
    requires
        looks.len() > 0,
        !arms(looks.last()),
    ensures
        !logs_off(lock_after(looks), looks.last().now),
    decreases looks.len(),
{
    lemma_no_deadline(looks);
}

proof fn lemma_no_deadline(looks: Seq<Look>)
    requires
        looks.len() > 0,
        !arms(looks.last()),
    ensures
        lock_after(looks).deadline is None,
    decreases looks.len(),
{
    let before = looks.drop_last();
    if before.len() == 0 {
        assert(lock_after(before) == lock_initial());
    } else if looks.last().blocked {
        lemma_last_seen(before);
        if before.last().blocked && before.last().preserve {
            lemma_no_deadline(before);
        }
    }
}

/// The time that is left is never negative.
pub proof fn law_remaining_not_negative(p: CachedPolicy, now: LocalTime)
    ensures
        remaining_seconds(p, now) >= 0,
{
}

/// A manual lock of the day leaves no time; one of another day changes nothing.
pub proof fn law_manual_lock_is_dated(p: CachedPolicy, day: String, now: LocalTime)
    requires
        p.manual_lock == Some(day),
    ensures
        day@ == date_key(now.date.days) ==> remaining_seconds(p, now) == 0,
        day@ != date_key(now.date.days) ==> remaining_seconds(p, now) == remaining_seconds(
            (CachedPolicy { manual_lock: None, ..p }),
            now,
        ),
{
}

/// Outside every window of a schedule no time is left, whatever the limit says.
pub proof fn law_no_time_outside_the_schedule(p: CachedPolicy, now: LocalTime)
    requires
        p.schedules@.len() > 0,
        forall|i: int|
            0 <= i < p.schedules@.len() ==> window_left(#[trigger] windows_of(p.schedules@)[i], now) is None,
    ensures
        remaining_seconds(p, now) == 0,
{
    law_longest_window(windows_of(p.schedules@), now);
}

/// The longest window is at least as long as each open one, and is that of an open one
/// unless it is nothing.
pub proof fn law_longest_window(windows: Seq<Window>, now: LocalTime)
    ensures
        forall|i: int|
            0 <= i < windows.len() ==> match window_left(#[trigger] windows[i], now) {
                Some(left) => left <= longest_window(windows, now),
                None => true,
            },
        longest_window(windows, now) != 0 ==> exists|i: int|
            0 <= i < windows.len() && window_left(#[trigger] windows[i], now) == Some(longest_window(windows, now)),
    decreases windows.len(),
{
    if windows.len() > 0 {
        let rest = windows.drop_last();
        law_longest_window(rest, now);
        assert forall|i: int| 0 <= i < windows.len() implies match window_left(#[trigger] windows[i], now) {
            Some(left) => left <= longest_window(windows, now),
            None => true,
        } by {
            if i < rest.len() {
                assert(rest[i] == windows[i]);
            }
        }
        if longest_window(windows, now) != 0 {
            if longest_window(windows, now) == longest_window(rest, now) {
                let i = choose|i: int|
                    0 <= i < rest.len() && window_left(#[trigger] rest[i], now) == Some(longest_window(rest, now));
                assert(windows[i] == rest[i]);
            } else {
                assert(window_left(windows[windows.len() - 1], now) == Some(longest_window(windows, now)));
            }
        }
    }
}

/// More use of the day never leaves more time, and a larger adjustment never less.
pub proof fn law_use_never_adds_time(p: CachedPolicy, q: CachedPolicy, now: LocalTime)
    requires
        q.manual_lock == p.manual_lock,
        q.schedules@ == p.schedules@,
        q.daily_limits@ == p.daily_limits@,
        minutes_on(q.adjustments@, date_key(now.date.days)) <= minutes_on(p.adjustments@, date_key(now.date.days)),
        seconds_on(p.usage@, date_key(now.date.days)) <= seconds_on(q.usage@, date_key(now.date.days)),
    ensures
        remaining_seconds(q, now) <= remaining_seconds(p, now),
{
}

/// A user is locked exactly when no time is left.
pub proof fn law_lock_exactly_without_time(p: CachedPolicy, now: LocalTime)
    ensures
        action_for(p.warning_thresholds@, remaining_seconds(p, now)) == EnforceAction::Lock <==> remaining_seconds(
            p,
            now,
        ) == 0,
{
}

pub(crate) proof fn lemma_first_limit(limits: Seq<DailyLimit>, weekday: int, j: int)
    requires
        0 <= j < limits.len(),
        limits[j].day_of_week == weekday,
        forall|k: int| 0 <= k < j ==> (#[trigger] limits[k]).day_of_week != weekday,
    ensures
        limit_for(limits, weekday) == Some(limits[j].allowed_minutes as int),
    decreases limits.len(),
{
    if j > 0 {
        let rest = limits.drop_first();
        assert(limits[0].day_of_week != weekday);
        assert forall|k: int| 0 <= k < j - 1 implies (#[trigger] rest[k]).day_of_week != weekday by {
            assert(limits[k + 1].day_of_week != weekday);
        }
        lemma_first_limit(rest, weekday, j - 1);
    }
}

pub(crate) proof fn lemma_no_limit(limits: Seq<DailyLimit>, weekday: int)
    requires
        forall|k: int| 0 <= k < limits.len() ==> (#[trigger] limits[k]).day_of_week != weekday,
    ensures
        limit_for(limits, weekday) is None,
    decreases limits.len(),
{
    if limits.len() > 0 {
        let rest = limits.drop_first();
        assert(limits[0].day_of_week != weekday);
        assert forall|k: int| 0 <= k < rest.len() implies (#[trigger] rest[k]).day_of_week != weekday by {
            assert(limits[k + 1].day_of_week != weekday);
        }
        lemma_no_limit(rest, weekday);
    }
}

proof fn lemma_first_minutes(amounts: Seq<(String, i32)>, key: Seq<char>, j: int)
    requires
        0 <= j < amounts.len(),
        amounts[j].0@ == key,
        forall|k: int| 0 <= k < j ==> (#[trigger] amounts[k]).0@ != key,
    ensures
        minutes_on(amounts, key) == amounts[j].1,
    decreases amounts.len(),
{
    if j > 0 {
        let rest = amounts.drop_first();
        assert(amounts[0].0@ != key);
        assert forall|k: int| 0 <= k < j - 1 implies (#[trigger] rest[k]).0@ != key by {
            assert(amounts[k + 1].0@ != key);
        }
        lemma_first_minutes(rest, key, j - 1);
    }
}

proof fn lemma_no_minutes(amounts: Seq<(String, i32)>, key: Seq<char>)
    requires
        forall|k: int| 0 <= k < amounts.len() ==> (#[trigger] amounts[k]).0@ != key,
    ensures
        minutes_on(amounts, key) == 0,
    decreases amounts.len(),
{
    if amounts.len() > 0 {
        let rest = amounts.drop_first();
        assert(amounts[0].0@ != key);
        assert forall|k: int| 0 <= k < rest.len() implies (#[trigger] rest[k]).0@ != key by {
            assert(amounts[k + 1].0@ != key);
        }
        lemma_no_minutes(rest, key);
    }
}

proof fn lemma_first_seconds(amounts: Seq<(String, i64)>, key: Seq<char>, j: int)
    requires
        0 <= j < amounts.len(),
        amounts[j].0@ == key,
        forall|k: int| 0 <= k < j ==> (#[trigger] amounts[k]).0@ != key,
    ensures
        seconds_on(amounts, key) == amounts[j].1,
    decreases amounts.len(),
{
    if j > 0 {
        let rest = amounts.drop_first();
        assert(amounts[0].0@ != key);
        assert forall|k: int| 0 <= k < j - 1 implies (#[trigger] rest[k]).0@ != key by {
            assert(amounts[k + 1].0@ != key);
        }
        lemma_first_seconds(rest, key, j - 1);
    }
}

proof fn lemma_no_seconds(amounts: Seq<(String, i64)>, key: Seq<char>)
    requires
        forall|k: int| 0 <= k < amounts.len() ==> (#[trigger] amounts[k]).0@ != key,
    ensures
        seconds_on(amounts, key) == 0,
    decreases amounts.len(),
{
    if amounts.len() > 0 {
        let rest = amounts.drop_first();
        assert(amounts[0].0@ != key);
        assert forall|k: int| 0 <= k < rest.len() implies (#[trigger] rest[k]).0@ != key by {
            assert(amounts[k + 1].0@ != key);
        }
        lemma_no_seconds(rest, key);
    }
}

/// Without a schedule and a lock, the first limit of the weekday decides: its minutes and
/// the granted ones, less the seconds of use, are what is left, and never less than nothing.
/// While some of it is left, one more granted minute leaves exactly sixty seconds more, and
/// one more second of use exactly one second less.
pub proof fn law_limit_and_grants_less_use_are_left(
    limits: Seq<DailyLimit>,
    j: int,
    adjustment: int,
    used: int,
    now: LocalTime,
)
    requires
        0 <= j < limits.len(),
        limits[j].day_of_week == (now.date.days - 1) % 7,
        forall|k: int| 0 <= k < j ==> (#[trigger] limits[k]).day_of_week != (now.date.days - 1) % 7,
        (limits[j].allowed_minutes + adjustment) * 60 - used < i64::MAX - 60,
    ensures
        ({
            let left = day_left(false, Seq::empty(), limits, adjustment, used, now);
            let sum = 60 * limits[j].allowed_minutes + 60 * adjustment - used;
            &&& left >= 0
            &&& sum > 0 ==> left == sum
            &&& sum <= 0 ==> left == 0
            &&& sum >= 0 ==> day_left(false, Seq::empty(), limits, adjustment + 1, used, now) == left + 60
            &&& sum > 0 ==> day_left(false, Seq::empty(), limits, adjustment, used + 1, now) == left - 1
        }),
{
    lemma_first_limit(limits, (now.date.days - 1) % 7, j);
}

/// A weekday without a limit and without windows has no bound, whatever was granted or used,
/// and whatever limits other weekdays have.
pub proof fn law_other_weekdays_set_no_limit(
    limits: Seq<DailyLimit>,
    windows: Seq<Window>,
    adjustment: int,
    used: int,
    now: LocalTime,
)
    requires
        forall|k: int| 0 <= k < limits.len() ==> (#[trigger] limits[k]).day_of_week != (now.date.days - 1) % 7,
    ensures
        day_left(false, Seq::empty(), limits, adjustment, used, now) == 0x7fff_ffff_ffff_ffff,
        day_left(false, windows, limits, adjustment, used, now) == day_left(
            false,
            windows,
            Seq::empty(),
            0,
            0,
            now,
        ),
{
    lemma_no_limit(limits, (now.date.days - 1) % 7);
    lemma_longest_in_day(windows, now);
}

proof fn lemma_longest_in_day(windows: Seq<Window>, now: LocalTime)
    ensures
        longest_window(windows, now) >= 0,
    decreases windows.len(),
{
    if windows.len() > 0 {
        lemma_longest_in_day(windows.drop_last(), now);
    }
}

proof fn lemma_longest_is_within_a_day(windows: Seq<Window>, now: LocalTime)
    requires
        now.valid(),
        forall|k: int| 0 <= k < windows.len() ==> (#[trigger] windows[k]).valid(),
    ensures
        0 <= longest_window(windows, now) <= 86_402,
    decreases windows.len(),
{
    if windows.len() > 0 {
        let rest = windows.drop_last();
        assert forall|k: int| 0 <= k < rest.len() implies (#[trigger] rest[k]).valid() by {
            assert(windows[k].valid());
        }
        lemma_longest_is_within_a_day(rest, now);
        let w = windows[windows.len() - 1];
        assert(w.valid());
        if window_left(w, now) is Some {
            let d = w.end->Some_0.nanos - now.time.nanos;
            assert(d < 2_000_000_000);
            assert(d / 1_000_000_000 <= 1);
        }
    }
}

/// Windows and a limit together leave the smaller of what each of them leaves alone; a lock
/// leaves nothing.
pub proof fn law_windows_and_limit_bound_each_other(
    windows: Seq<Window>,
    limits: Seq<DailyLimit>,
    adjustment: int,
    used: int,
    now: LocalTime,
)
    requires
        now.valid(),
        forall|k: int| 0 <= k < windows.len() ==> (#[trigger] windows[k]).valid(),
    ensures
        ({
            let by_windows = day_left(false, windows, Seq::empty(), adjustment, used, now);
            let by_limit = day_left(false, Seq::empty(), limits, adjustment, used, now);
            let left = day_left(false, windows, limits, adjustment, used, now);
            &&& left <= by_windows
            &&& left <= by_limit
            &&& left == by_windows || left == by_limit
        }),
        day_left(true, windows, limits, adjustment, used, now) == 0,
{
    lemma_longest_is_within_a_day(windows, now);
}

/// Whether a window holds a moment: it is of that weekday, and the moment lies from its
/// start to its end, both included.
pub open spec fn holds_moment(w: Window, now: LocalTime) -> bool {
    &&& w.day_of_week as int == (now.date.days - 1) % 7
    &&& w.start is Some && w.end is Some
    &&& w.start->Some_0.secs * 4_000_000_000 + w.start->Some_0.nanos <= now.time.secs * 4_000_000_000 + now.time.nanos
    &&& now.time.secs * 4_000_000_000 + now.time.nanos <= w.end->Some_0.secs * 4_000_000_000 + w.end->Some_0.nanos
}

proof fn lemma_window_left(w: Window, now: LocalTime)
    requires
        now.valid(),
        w.valid(),
        now.time.nanos < 1_000_000_000,
        w.end matches Some(end) ==> end.nanos < 1_000_000_000,
    ensures
        window_left(w, now) is Some <==> holds_moment(w, now),
        window_left(w, now) matches Some(left) ==> {
            let gap = (w.end->Some_0.secs * 1_000_000_000 + w.end->Some_0.nanos) - (now.time.secs * 1_000_000_000
                + now.time.nanos);
            0 <= left && left * 1_000_000_000 <= gap < (left + 1) * 1_000_000_000
        },
{
    if let Some(left) = window_left(w, now) {
        let end = w.end->Some_0;
        let d = end.nanos - now.time.nanos;
        assert(-1_000_000_000 < d < 1_000_000_000);
        assert(d >= 0 ==> d / 1_000_000_000 == 0);
        assert(d < 0 ==> d / 1_000_000_000 == -1);
    }
}

/// A schedule leaves time up to the end of the window that is open longest: as many whole
/// seconds as lie between the moment and that end. A window of another weekday, one that has
/// not begun, one that is over and one that cannot be read leave none. No leap second runs.
pub proof fn law_windows_leave_the_time_to_their_end(windows: Seq<Window>, i: int, now: LocalTime)
    requires
        now.valid(),
        now.time.nanos < 1_000_000_000,
        0 <= i < windows.len(),
        forall|k: int|
            0 <= k < windows.len() ==> (#[trigger] windows[k]).valid() && (windows[k].end matches Some(end)
                ==> end.nanos < 1_000_000_000),
    ensures
        ({
            let left = day_left(false, windows, Seq::empty(), 0, 0, now);
            let moment = now.time.secs * 1_000_000_000 + now.time.nanos;
            &&& holds_moment(windows[i], now) ==> (left + 1) * 1_000_000_000
                > windows[i].end->Some_0.secs * 1_000_000_000 + windows[i].end->Some_0.nanos - moment
            &&& left == 0 || exists|k: int|
                0 <= k < windows.len() && holds_moment(#[trigger] windows[k], now) && 0 <= (
                windows[k].end->Some_0.secs * 1_000_000_000 + windows[k].end->Some_0.nanos - moment) - left
                    * 1_000_000_000 < 1_000_000_000
        }),
{
    law_longest_window(windows, now);
    lemma_longest_in_day(windows, now);
    let left = longest_window(windows, now);
    lemma_longest_is_short(windows, now);
    assert(day_left(false, windows, Seq::empty(), 0, 0, now) == left);
    lemma_window_left(windows[i], now);
    if left != 0 {
        let k = choose|k: int| 0 <= k < windows.len() && window_left(#[trigger] windows[k], now) == Some(left);
        lemma_window_left(windows[k], now);
        assert(holds_moment(windows[k], now));
    }
}

proof fn lemma_longest_is_short(windows: Seq<Window>, now: LocalTime)
    requires
        now.valid(),
        now.time.nanos < 1_000_000_000,
        forall|k: int|
            0 <= k < windows.len() ==> (#[trigger] windows[k]).valid() && (windows[k].end matches Some(end)
                ==> end.nanos < 1_000_000_000),
    ensures
        longest_window(windows, now) <= 86_400,
{
    law_longest_window(windows, now);
    let left = longest_window(windows, now);
    if left != 0 {
        let k = choose|k: int| 0 <= k < windows.len() && window_left(#[trigger] windows[k], now) == Some(left);
        lemma_window_left(windows[k], now);
    }
}

/// What is left of a cached policy is what its schedule, its limits, and the first amounts
/// that are kept for the day leave: amounts of other days do not count, and neither does a
/// lock of another day.
pub proof fn law_only_the_amounts_of_the_day_count(p: CachedPolicy, now: LocalTime, a: int, u: int)
    requires
        0 <= a < p.adjustments@.len() ==> p.adjustments@[a].0@ == date_key(now.date.days),
        0 <= u < p.usage@.len() ==> p.usage@[u].0@ == date_key(now.date.days),
        0 <= a <= p.adjustments@.len(),
        0 <= u <= p.usage@.len(),
        forall|k: int| 0 <= k < a ==> (#[trigger] p.adjustments@[k]).0@ != date_key(now.date.days),
        forall|k: int| 0 <= k < u ==> (#[trigger] p.usage@[k]).0@ != date_key(now.date.days),
    ensures
        ({
            let granted: int = if a < p.adjustments@.len() {
                p.adjustments@[a].1 as int
            } else {
                0
            };
            let used: int = if u < p.usage@.len() {
                p.usage@[u].1 as int
            } else {
                0
            };
            let locked = match p.manual_lock {
                Some(day) => day@ == date_key(now.date.days),
                None => false,
            };
            remaining_seconds(p, now) == day_left(
                locked,
                windows_of(p.schedules@),
                p.daily_limits@,
                granted,
                used,
                now,
            )
        }),
{
    let key = date_key(now.date.days);
    if a < p.adjustments@.len() {
        lemma_first_minutes(p.adjustments@, key, a);
    } else {
        lemma_no_minutes(p.adjustments@, key);
    }
    if u < p.usage@.len() {
        lemma_first_seconds(p.usage@, key, u);
    } else {
        lemma_no_seconds(p.usage@, key);
    }
}

/// Each entry of a schedule is a window of its own weekday, with its ends read by the hour
/// and the minute.
pub proof fn law_schedules_are_read_entry_by_entry(schedules: Seq<Schedule>, i: int)
    requires
        0 <= i < schedules.len(),
    ensures
        windows_of(schedules).len() == schedules.len(),
        windows_of(schedules)[i].day_of_week == schedules[i].day_of_week,
        windows_of(schedules)[i].start == crate::clock::formatted_time(schedules[i].start_time@, "%H:%M"@),
        windows_of(schedules)[i].end == crate::clock::formatted_time(schedules[i].end_time@, "%H:%M"@),
{
}

/// With time left, a user is warned exactly where fewer than a threshold's minutes and one
/// more are left, and is let go on otherwise; without time the user is locked, whatever the
/// thresholds are.
pub proof fn law_warned_within_a_threshold(thresholds: Seq<u32>, seconds: int)
    ensures
        action_for(thresholds, seconds) == EnforceAction::Lock <==> seconds <= 0,
        action_for(thresholds, seconds) == EnforceAction::Warn <==> seconds > 0 && exists|i: int|
            0 <= i < thresholds.len() && seconds < 60 * (#[trigger] thresholds[i]) + 60,
{
    if seconds > 0 {
        if within_threshold(thresholds, seconds) {
            let i = choose|i: int| 0 <= i < thresholds.len() && seconds / 60 <= #[trigger] thresholds[i];
            assert(seconds < 60 * thresholds[i] + 60);
        }
        if exists|i: int| 0 <= i < thresholds.len() && seconds < 60 * (#[trigger] thresholds[i]) + 60 {
            let i = choose|i: int| 0 <= i < thresholds.len() && seconds < 60 * (#[trigger] thresholds[i]) + 60;
            assert(seconds / 60 <= thresholds[i]);
        }
    }
}

/// An unbroken run of looks that block without preserving logs the session off as soon as,
/// and not before, the seconds of grace that its first look gave have passed since that look.
pub proof fn law_grace_is_waited_out(looks: Seq<Look>, start: int)
    requires
        0 <= start < looks.len(),
        start > 0 ==> !looks[start - 1].blocked || looks[start - 1].preserve,
        forall|i: int| start <= i < looks.len() ==> (#[trigger] looks[i]).blocked && !looks[i].preserve,
        looks[start].now + looks[start].grace_secs <= u64::MAX,
    ensures
        logs_off(lock_after(looks), looks.last().now) <==> looks.last().now - looks[start].now
            >= looks[start].grace_secs,
{
    if start > 0 {
        assert(!arms(looks[start - 1]));
    }
    assert forall|i: int| start <= i < looks.len() implies arms(#[trigger] looks[i]) by {
        assert(looks[i].blocked && !looks[i].preserve);
    }
    lemma_armed_deadline(looks, start);
}

/// A look that lifts the block, or that preserves the session, never logs it off, whatever
/// came before it.
pub proof fn law_no_logoff_without_a_block(s: LockModel, preserve: bool, grace_secs: u64, now: u64)
    ensures
        !logs_off(lock_next(s, false, preserve, grace_secs, now), now),
        !s.blocked || !s.preserve ==> !logs_off(lock_next(s, true, true, grace_secs, now), now),
        lock_next(s, false, preserve, grace_secs, now).deadline is None,
{
}

} // verus!
