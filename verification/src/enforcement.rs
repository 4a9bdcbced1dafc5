//! Enforcement of a lock on a machine where sessions are locked, and after a grace period
//! ended.
use std::collections::HashSet;
use vstd::prelude::*;

use crate::clock::{Date, LocalTime, FIRST_DAY};
use crate::policy::{
    action_for, evaluate, lock_behavior, remaining_seconds, CachedPolicy, EnforceAction, LockBehavior,
};
use crate::text::{copies, optional_str, same, texts};

verus! {

broadcast use vstd::std_specs::hash::group_hash_axioms;

/// What the server's word means.
pub open spec fn word_action(word: Seq<char>) -> EnforceAction {
    if word == "warn"@ {
        EnforceAction::Warn
    } else if word == "lock"@ {
        EnforceAction::Lock
    } else {
        EnforceAction::Allow
    }
}

/// What a user's session is to be met with: by the word of the server while it is there, by the
/// cached policy without it.
pub open spec fn enforcement_of(
    online: bool,
    word: Option<Seq<char>>,
    policy: CachedPolicy,
    now: LocalTime,
) -> EnforceAction {
    if online {
        match word {
            Some(w) => word_action(w),
            None => EnforceAction::Allow,
        }
    } else {
        action_for(policy.warning_thresholds@, remaining_seconds(policy, now))
    }
}

/// What a user's session is to be met with. While the server is there, its word counts,
/// and a user of whom it has not said anything goes on; without it the cached policy does.
pub fn evaluate_enforcement(
    online: bool,
    word: Option<&str>,
    policy: &CachedPolicy,
    now: &LocalTime,
) -> (r: EnforceAction)
    requires
        now.valid(),
    ensures
        r == enforcement_of(online, optional_str(word), *policy, *now),
{
    if online {
        match word {
            Some(w) => if same(w, "warn") {
                EnforceAction::Warn
            } else if same(w, "lock") {
                EnforceAction::Lock
            } else {
                EnforceAction::Allow
            },
            None => EnforceAction::Allow,
        }
    } else {
        evaluate(policy, now)
    }
}

/// The seconds between the last warning and the lock.
pub const LOCK_PAUSE: u64 = 4;

/// How far the enforcement of a lock has come, by what is waited for.
#[derive(Clone, Copy, Debug, PartialEq, Eq, Structural)]
pub enum LockStage {
    /// For the sessions of the user.
    Start,
    /// For the pause after the warning.
    Warned,
    /// For the sessions to be locked.
    Locking,
    /// For the grace period.
    Grace,
    /// For the sessions that are left.
    Left,
    /// For those sessions to be ended.
    Ending,
    Over,
}

/// What has happened since the last step.
#[derive(Debug)]
pub enum LockEvent {
    /// The user has these sessions.
    Sessions(Vec<String>),
    /// What was asked for is done.
    Done,
    /// The grace period is over; whether the user is still to be locked.
    Waited(bool),
}

/// What has happened, as it is said.
pub enum LockEventView {
    Sessions(Seq<Seq<char>>),
    Done,
    Waited(bool),
}

impl View for LockEvent {
    type V = LockEventView;

    open spec fn view(&self) -> LockEventView {
        match *self {
            LockEvent::Sessions(v) => LockEventView::Sessions(texts(v@)),
            LockEvent::Done => LockEventView::Done,
            LockEvent::Waited(b) => LockEventView::Waited(b),
        }
    }
}

/// What is done next.
#[derive(Debug)]
pub enum LockStep {
    /// Warn the user, and wait for so many seconds.
    Warn(u64),
    /// Lock these sessions.
    Lock(Vec<String>),
    /// Wait for so many seconds, then look whether the user is still to be locked.
    Wait(u64),
    /// Look which sessions are left.
    AskSessions,
    /// End these sessions.
    Terminate(Vec<String>),
    /// It is over; whether the user may be locked anew.
    Finish(bool),
}

/// What is done next, as it is said.
pub enum LockStepView {
    Warn(u64),
    Lock(Seq<Seq<char>>),
    Wait(u64),
    AskSessions,
    Terminate(Seq<Seq<char>>),
    Finish(bool),
}

impl View for LockStep {
    type V = LockStepView;

    open spec fn view(&self) -> LockStepView {
        match *self {
            LockStep::Warn(n) => LockStepView::Warn(n),
            LockStep::Lock(v) => LockStepView::Lock(texts(v@)),
            LockStep::Wait(n) => LockStepView::Wait(n),
            LockStep::AskSessions => LockStepView::AskSessions,
            LockStep::Terminate(v) => LockStepView::Terminate(texts(v@)),
            LockStep::Finish(b) => LockStepView::Finish(b),
        }
    }
}

/// The enforcement of a lock that is under way.
#[derive(Debug)]
pub struct LockRun {
    preserve: bool,
    grace_minutes: u32,
    sessions: Vec<String>,
    stage: LockStage,
}

/// What an enforcement of a lock holds.
#[verifier::ext_equal]
pub struct LockRunView {
    pub preserve: bool,
    pub grace_minutes: u32,
    pub sessions: Seq<Seq<char>>,
    pub stage: LockStage,
}

impl View for LockRun {
    type V = LockRunView;

    closed spec fn view(&self) -> LockRunView {
        LockRunView {
            preserve: self.preserve,
            grace_minutes: self.grace_minutes,
            sessions: texts(self.sessions@),
            stage: self.stage,
        }
    }
}

impl LockRunView {
    /// Whether what has happened is what was waited for.
    pub open spec fn expects(self, e: LockEventView) -> bool {
        match self.stage {
            LockStage::Start | LockStage::Left => e is Sessions,
            LockStage::Warned | LockStage::Locking | LockStage::Ending => e is Done,
            LockStage::Grace => e is Waited,
            LockStage::Over => false,
        }
    }
}

/// What follows: the enforcement afterwards, and what is done next.
pub open spec fn lock_run_next(s: LockRunView, e: LockEventView) -> (LockRunView, LockStepView) {
    let over = LockRunView { stage: LockStage::Over, ..s };
    match (s.stage, e) {
        (LockStage::Start, LockEventView::Sessions(ids)) => if ids.len() == 0 {
            (over, LockStepView::Finish(true))
        } else {
            (LockRunView { sessions: ids, stage: LockStage::Warned, ..s }, LockStepView::Warn(LOCK_PAUSE))
        },
        (LockStage::Warned, _) => (
            LockRunView { stage: LockStage::Locking, ..s },
            LockStepView::Lock(s.sessions),
        ),
        (LockStage::Locking, _) => if s.preserve {
            (over, LockStepView::Finish(false))
        } else {
            (
                LockRunView { stage: LockStage::Grace, ..s },
                LockStepView::Wait((s.grace_minutes * 60) as u64),
            )
        },
        (LockStage::Grace, LockEventView::Waited(still)) => if still {
            (LockRunView { stage: LockStage::Left, ..s }, LockStepView::AskSessions)
        } else {
            (over, LockStepView::Finish(true))
        },
        (LockStage::Left, LockEventView::Sessions(ids)) => if ids.len() == 0 {
            (over, LockStepView::Finish(true))
        } else {
            (LockRunView { stage: LockStage::Ending, ..s }, LockStepView::Terminate(ids))
        },
        _ => (over, LockStepView::Finish(true)),
    }
}

/// The enforcement of a lock that begins.
pub open spec fn lock_start(preserve: bool, grace_minutes: u32) -> LockRunView {
    LockRunView { preserve, grace_minutes, sessions: Seq::empty(), stage: LockStage::Start }
}

impl LockRun {
    /// The enforcement of a lock, by the settings of the user.
    pub fn new(preserve_tasks_on_lock: bool, grace_minutes: u32) -> (r: LockRun)
        ensures
            r@ == lock_start(preserve_tasks_on_lock, grace_minutes),
    {
        let r = LockRun {
            preserve: preserve_tasks_on_lock,
            grace_minutes,
            sessions: Vec::new(),
            stage: LockStage::Start,
        };
        assert(r@.sessions =~= Seq::<Seq<char>>::empty());
        r
    }

    /// Takes what has happened, and says what is done next: the user is warned, then the
    /// sessions are locked, and unless tasks are preserved those that are left after the
    /// grace period are ended, provided that the user is still to be locked then.
    pub fn execute_lock(&mut self, event: LockEvent) -> (r: LockStep)
        requires
            old(self)@.expects(event@),
        ensures
            final(self)@ == lock_run_next(old(self)@, event@).0,
            r@ == lock_run_next(old(self)@, event@).1,
    {
        match event {
            LockEvent::Sessions(ids) => if ids.len() == 0 {
                self.stage = LockStage::Over;
                LockStep::Finish(true)
            } else if self.stage == LockStage::Start {
                self.sessions = ids;
                self.stage = LockStage::Warned;
                LockStep::Warn(LOCK_PAUSE)
            } else {
                self.stage = LockStage::Ending;
                LockStep::Terminate(ids)
            },
            LockEvent::Done => if self.stage == LockStage::Warned {
                self.stage = LockStage::Locking;
                LockStep::Lock(copies(&self.sessions))
            } else if self.stage == LockStage::Locking {
                if lock_behavior(self.preserve) == LockBehavior::PreserveAndRelock {
                    self.stage = LockStage::Over;
                    LockStep::Finish(false)
                } else {
                    self.stage = LockStage::Grace;
                    LockStep::Wait(self.grace_minutes as u64 * 60)
                }
            } else {
                self.stage = LockStage::Over;
                LockStep::Finish(true)
            },
            LockEvent::Waited(still) => if still {
                self.stage = LockStage::Left;
                LockStep::AskSessions
            } else {
                self.stage = LockStage::Over;
                LockStep::Finish(true)
            },
        }
    }
}

/// What happens in an enforcement of a lock, event by event.
pub open spec fn lock_steps(start: LockRunView, events: Seq<LockEventView>) -> LockRunView
    decreases events.len(),
{
    if events.len() == 0 {
        start
    } else {
        lock_run_next(lock_steps(start, events.drop_last()), events.last()).0
    }
}

/// Where tasks are preserved, no session is ever ended.
pub proof fn law_preserved_sessions_are_never_ended(
    grace_minutes: u32,
    events: Seq<LockEventView>,
    event: LockEventView,
)
    ensures
        ({
            let start = lock_start(true, grace_minutes);
            let before = lock_steps(start, events);
            &&& !(lock_run_next(before, event).1 is Terminate)
            &&& before.preserve
            &&& before.stage != LockStage::Grace && before.stage != LockStage::Left && before.stage
                != LockStage::Ending
        }),
    decreases events.len(),
{
    if events.len() > 0 {
        law_preserved_sessions_are_never_ended(grace_minutes, events.drop_last(), events.last());
    }
}

/// Sessions are ended only directly after a look at the sessions that are left, which
/// follows only on a grace period at whose end the user was still to be locked. A lock that
/// was lifted meanwhile ends nothing.
pub proof fn law_lifted_locks_end_nothing(s: LockRunView, e: LockEventView)
    ensures
        lock_run_next(s, e).1 is Terminate ==> s.stage == LockStage::Left,
        lock_run_next(s, e).0.stage == LockStage::Left ==> s.stage == LockStage::Grace && e
            == LockEventView::Waited(true),
        s.stage == LockStage::Grace && e == LockEventView::Waited(false) ==> lock_run_next(s, e).1
            == LockStepView::Finish(true),
{
}

/// The users for whom a lock is being enforced.
#[derive(Debug)]
pub struct LockedUsers {
    uids: HashSet<u32>,
}

impl View for LockedUsers {
    type V = Set<u32>;

    closed spec fn view(&self) -> Set<u32> {
        self.uids@
    }
}

/// Whether a lock is to be enforced now: it is wanted, and none is under way.
pub open spec fn starts_lock(locked: Set<u32>, uid: u32, action: EnforceAction) -> bool {
    action == EnforceAction::Lock && !locked.contains(uid)
}

/// The users for whom a lock is being enforced, once it is known what a user's session is to
/// be met with.
pub open spec fn locked_after(locked: Set<u32>, uid: u32, action: EnforceAction) -> Set<u32> {
    if action == EnforceAction::Lock {
        locked.insert(uid)
    } else {
        locked
    }
}

/// The users for whom a lock is being enforced, once an enforcement has ended: whether the user
/// may be locked anew, or nothing where it failed.
pub open spec fn after_finish(locked: Set<u32>, uid: u32, again: Option<bool>) -> Set<u32> {
    if again == Some(false) {
        locked
    } else {
        locked.remove(uid)
    }
}

impl LockedUsers {
    /// No user.
    pub fn new() -> (r: LockedUsers)
        ensures
            r@ == Set::<u32>::empty(),
    {
        LockedUsers { uids: HashSet::new() }
    }

    /// Whether a user is still to be locked.
    pub fn contains(&self, uid: u32) -> (r: bool)
        ensures
            r == self@.contains(uid),
    {
        self.uids.contains(&uid)
    }

    /// Takes what a user's session is to be met with at the start of a day; returns whether
    /// a lock is to be enforced now: it is wanted, and none is under way.
    pub fn handle_midnight(&mut self, uid: u32, action: EnforceAction) -> (r: bool)
        ensures
            r == starts_lock(old(self)@, uid, action),
            final(self)@ == locked_after(old(self)@, uid, action),
    {
        if action == EnforceAction::Lock {
            self.uids.insert(uid)
        } else {
            false
        }
    }

    /// Takes the end of an enforcement: whether the user may be locked anew, or what went
    /// wrong, after which they may.
    pub fn finished(&mut self, uid: u32, result: Result<bool, String>)
        ensures
            final(self)@ == after_finish(
                old(self)@,
                uid,
                match result {
                    Ok(again) => Some(again),
                    Err(_) => None,
                },
            ),
    {
        let again = match result {
            Ok(again) => again,
            Err(_) => true,
        };
        if again {
            self.uids.remove(&uid);
        }
    }
}

/// What users' sessions are to be met with, one after another; who is locked afterwards.
pub open spec fn after_midnights(locked: Set<u32>, actions: Seq<(u32, EnforceAction)>) -> Set<u32>
    decreases actions.len(),
{
    if actions.len() == 0 {
        locked
    } else {
        locked_after(after_midnights(locked, actions.drop_last()), actions.last().0, actions.last().1)
    }
}

/// Until an enforcement has ended, no second one is started for the same user, whatever
/// comes meanwhile.
pub proof fn law_one_enforcement_at_a_time(
    locked: Set<u32>,
    uid: u32,
    actions: Seq<(u32, EnforceAction)>,
    action: EnforceAction,
)
    requires
        starts_lock(locked, uid, EnforceAction::Lock),
    ensures
        ({
            let started = locked_after(locked, uid, EnforceAction::Lock);
            &&& after_midnights(started, actions).contains(uid)
            &&& !starts_lock(after_midnights(started, actions), uid, action)
        }),
    decreases actions.len(),
{
    if actions.len() > 0 {
        law_one_enforcement_at_a_time(locked, uid, actions.drop_last(), action);
    }
}

/// The day before another.
pub open spec fn day_before(today: Date) -> Date {
    Date { days: (today.days - 1) as i32 }
}

/// The day after the day before is the day itself, and the weekdays follow each other.
pub proof fn law_yesterday_is_one_day_before(today: Date)
    requires
        FIRST_DAY < today.days,
    ensures
        day_before(today).days + 1 == today.days,
        today.weekday_number() == (day_before(today).weekday_number() + 1) % 7,
{
}

/// The day before, whose use is reset at midnight.
pub fn yesterday(today: Date) -> (r: Date)
    requires
        FIRST_DAY < today.days,
    ensures
        r == day_before(today),
{
    Date { days: today.days - 1 }
}

/// While the server is there its word alone counts: `lock` locks, `warn` warns, and any other word,
/// or none, lets the user go on. Without it the word does not count: the user is locked exactly
/// where the cached policy leaves nothing.
pub proof fn law_the_server_decides_while_it_is_there(
    word: Option<Seq<char>>,
    policy: CachedPolicy,
    now: LocalTime,
)
    ensures
        enforcement_of(true, word, policy, now) == EnforceAction::Lock <==> word == Some("lock"@),
        enforcement_of(true, word, policy, now) == EnforceAction::Warn <==> word == Some("warn"@),
        enforcement_of(false, word, policy, now) == EnforceAction::Lock <==> remaining_seconds(policy, now) <= 0,
        enforcement_of(false, word, policy, now) == EnforceAction::Warn <==> remaining_seconds(policy, now) > 0
            && exists|i: int|
            0 <= i < policy.warning_thresholds@.len() && remaining_seconds(policy, now) < 60 * (
            #[trigger] policy.warning_thresholds@[i]) + 60,
{
    reveal_strlit("lock");
    reveal_strlit("warn");
    assert("lock"@[0] != "warn"@[0]);
    crate::policy::law_warned_within_a_threshold(policy.warning_thresholds@, remaining_seconds(policy, now));
}

/// How a lock is enforced, from beginning to end: the user is warned four seconds ahead, every
/// session is locked, and where tasks are preserved that is all, and the user stays locked. Else
/// the grace period is waited for; if the user is still to be locked, the sessions that are left
/// are ended, and the user may be locked anew.
pub proof fn law_locks_are_enforced_step_by_step(
    preserve: bool,
    grace_minutes: u32,
    ids: Seq<Seq<char>>,
    left: Seq<Seq<char>>,
)
    requires
        ids.len() > 0,
        left.len() > 0,
    ensures
        ({
            let start = lock_start(preserve, grace_minutes);
            let (warned, warn) = lock_run_next(start, LockEventView::Sessions(ids));
            let (locking, lock) = lock_run_next(warned, LockEventView::Done);
            let (waiting, then) = lock_run_next(locking, LockEventView::Done);
            let (looking, ask) = lock_run_next(waiting, LockEventView::Waited(true));
            let (ending, end) = lock_run_next(looking, LockEventView::Sessions(left));
            &&& warn == LockStepView::Warn(4)
            &&& lock == LockStepView::Lock(ids)
            &&& preserve ==> then == LockStepView::Finish(false)
            &&& !preserve ==> {
                &&& then == LockStepView::Wait((60 * grace_minutes) as u64)
                &&& ask == LockStepView::AskSessions
                &&& end == LockStepView::Terminate(left)
                &&& lock_run_next(ending, LockEventView::Done).1 == LockStepView::Finish(true)
                &&& lock_run_next(waiting, LockEventView::Waited(false)).1 == LockStepView::Finish(true)
                &&& lock_run_next(looking, LockEventView::Sessions(Seq::empty())).1 == LockStepView::Finish(true)
            }
            &&& lock_run_next(start, LockEventView::Sessions(Seq::empty())).1 == LockStepView::Finish(true)
        }),
{
}

/// A lock is started exactly for a user who is to be locked and for whom none is under way; other
/// users are not concerned. Once it has ended, the user may be locked anew, unless it ended with
/// the tasks preserved.
pub proof fn law_locks_are_started_and_ended_for_one_user(
    locked: Set<u32>,
    uid: u32,
    other: u32,
    action: EnforceAction,
    again: Option<bool>,
)
    ensures
        starts_lock(locked, uid, action) <==> action == EnforceAction::Lock && !locked.contains(uid),
        locked_after(locked, uid, action).contains(uid) <==> locked.contains(uid) || action == EnforceAction::Lock,
        other != uid ==> (locked_after(locked, uid, action).contains(other) <==> locked.contains(other)),
        after_finish(locked, uid, again).contains(uid) <==> locked.contains(uid) && again == Some(false),
        other != uid ==> (after_finish(locked, uid, again).contains(other) <==> locked.contains(other)),
{
}

} // verus!
