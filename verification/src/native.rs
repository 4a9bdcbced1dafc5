//! What Windows hands over: texts in UTF-16, accounts, sessions, sockets and processes.
use vstd::prelude::*;

use crate::runtime::LocalUser;
use crate::text::{chars_of, lower, lowercase, optional, same, string_of};

verus! {

/// `char::from_u32`: the character with a code, for every code that is one.
pub assume_specification[ std::primitive::char::from_u32 ](i: u32) -> (r: Option<char>)
    ensures
        r == (if i < 0xd800 || 0xe000 <= i <= 0x10ffff {
            Some(i as char)
        } else {
            None
        }),
;

/// The units of a character in UTF-16: one, or a pair of surrogates.
pub open spec fn char_units(c: char) -> Seq<u16> {
    let code = c as int;
    if code < 0x10000 {
        seq![code as u16]
    } else {
        seq![(0xd800 + (code - 0x10000) / 1024) as u16, (0xdc00 + (code - 0x10000) % 1024) as u16]
    }
}

/// The units of a text in UTF-16.
pub open spec fn utf16(s: Seq<char>) -> Seq<u16>
    decreases s.len(),
{
    if s.len() == 0 {
        Seq::empty()
    } else {
        utf16(s.drop_last()) + char_units(s.last())
    }
}

/// Whether a unit is the first of a pair.
pub open spec fn high(u: u16) -> bool {
    0xd800 <= u < 0xdc00
}

/// Whether a unit is the second of a pair.
pub open spec fn low(u: u16) -> bool {
    0xdc00 <= u < 0xe000
}

/// The character of a pair.
pub open spec fn paired(a: u16, b: u16) -> char {
    (0x10000 + (a - 0xd800) * 1024 + (b - 0xdc00)) as char
}

/// The text that units stand for; a unit of a pair without the other stands for the
/// replacement character.
pub open spec fn from_utf16(u: Seq<u16>) -> Seq<char>
    decreases u.len(),
{
    if u.len() == 0 {
        Seq::empty()
    } else if u.len() >= 2 && high(u[0]) && low(u[1]) {
        seq![paired(u[0], u[1])] + from_utf16(u.skip(2))
    } else if high(u[0]) || low(u[0]) {
        seq!['\u{fffd}'] + from_utf16(u.skip(1))
    } else {
        seq![u[0] as char] + from_utf16(u.skip(1))
    }
}

/// The units before the first zero.
pub open spec fn before_zero(u: Seq<u16>) -> Seq<u16>
    decreases u.len(),
{
    if u.len() == 0 || u[0] == 0 {
        Seq::empty()
    } else {
        seq![u[0]] + before_zero(u.skip(1))
    }
}

/// Adds the units of a character.
fn push_char(out: &mut Vec<u16>, c: char)
    ensures
        final(out)@ == old(out)@ + char_units(c),
{
    let code = c as u32;
    if code < 0x10000 {
        out.push(code as u16);
    } else {
        let over = code - 0x10000;
        out.push((0xd800 + over / 1024) as u16);
        out.push((0xdc00 + over % 1024) as u16);
    }
}

/// The units of a text in UTF-16.
pub fn encode(s: &str) -> (r: Vec<u16>)
    ensures
        r@ == utf16(s@),
{
    let v = chars_of(s);
    let mut out: Vec<u16> = Vec::new();
    for i in 0..v.len()
        invariant
            out@ == utf16(v@.take(i as int)),
    {
        assert(v@.take(i + 1).drop_last() == v@.take(i as int));
        push_char(&mut out, v[i]);
    }
    assert(v@.take(v@.len() as int) == v@);
    out
}

/// A text as Windows takes it: in UTF-16, with a zero after it.
pub open spec fn wide_units(s: Seq<char>) -> Seq<u16> {
    utf16(s).push(0)
}

/// A text as Windows takes it: in UTF-16, with a zero after it.
pub fn wide(s: &str) -> (r: Vec<u16>)
    ensures
        r@ == wide_units(s@),
{
    let mut out = encode(s);
    out.push(0);
    out
}

/// The text that units stand for.
pub fn decode(u: &Vec<u16>) -> (r: String)
    ensures
        r@ == from_utf16(u@),
{
    let mut out: Vec<char> = Vec::new();
    let mut i: usize = 0;
    assert(u@.skip(0) == u@);
    while i < u.len()
        invariant
            i <= u.len(),
            out@ + from_utf16(u@.skip(i as int)) == from_utf16(u@),
        decreases u.len() - i,
    {
        let ghost rest = u@.skip(i as int);
        let ghost before = out@;
        let a = u[i];
        assert(rest[0] == a);
        assert(rest.skip(1) == u@.skip(i + 1));
        if 0xd800 <= a && a < 0xdc00 && i + 1 < u.len() && 0xdc00 <= u[i + 1] && u[i + 1] < 0xe000 {
            let b = u[i + 1];
            assert(rest[1] == b);
            assert(rest.skip(2) == u@.skip(i + 2));
            let code: u32 = 0x10000 + (a as u32 - 0xd800) * 1024 + (b as u32 - 0xdc00);
            let c = match char::from_u32(code) {
                Some(c) => c,
                None => '\u{fffd}',
            };
            assert(c == paired(a, b));
            out.push(c);
            i = i + 2;
            assert(out@ + from_utf16(u@.skip(i as int)) == before + (seq![c] + from_utf16(u@.skip(i as int))));
        } else {
            let c = match char::from_u32(a as u32) {
                Some(c) => c,
                None => '\u{fffd}',
            };
            out.push(c);
            i = i + 1;
            assert(out@ + from_utf16(u@.skip(i as int)) == before + (seq![c] + from_utf16(u@.skip(i as int))));
        }
    }
    assert(u@.skip(i as int) == Seq::<u16>::empty());
    assert(out@ == from_utf16(u@));
    string_of(&out)
}

/// The text that Windows gives: the units up to the zero that ends it.
pub fn from_wide(u: &Vec<u16>) -> (r: String)
    ensures
        r@ == from_utf16(before_zero(u@)),
{
    let mut text: Vec<u16> = Vec::new();
    let mut i: usize = 0;
    assert(u@.skip(0) == u@);
    while i < u.len() && u[i] != 0
        invariant
            i <= u.len(),
            text@ + before_zero(u@.skip(i as int)) == before_zero(u@),
        decreases u.len() - i,
    {
        let ghost rest = u@.skip(i as int);
        let ghost before = text@;
        assert(rest[0] == u@[i as int]);
        assert(rest.skip(1) == u@.skip(i + 1));
        text.push(u[i]);
        i += 1;
        assert(text@ + before_zero(u@.skip(i as int)) == before + (seq![u@[i - 1]] + before_zero(
            u@.skip(i as int),
        )));
    }
    assert(before_zero(u@.skip(i as int)) == Seq::<u16>::empty());
    assert(text@ == before_zero(u@));
    decode(&text)
}

/// Units that follow a character stand for what they stand for alone.
proof fn lemma_decode_after_char(c: char, rest: Seq<u16>)
    ensures
        from_utf16(char_units(c) + rest) == seq![c] + from_utf16(rest),
{
    let all = char_units(c) + rest;
    if (c as int) < 0x10000 {
        assert(all.skip(1) =~= rest);
        assert(all[0] as char == c);
    } else {
        assert(all.skip(2) =~= rest);
        assert(paired(all[0], all[1]) == c);
    }
}

/// The units of a text from its front.
proof fn lemma_utf16_front(s: Seq<char>)
    requires
        s.len() > 0,
    ensures
        utf16(s) == char_units(s[0]) + utf16(s.skip(1)),
    decreases s.len(),
{
    if s.len() == 1 {
        assert(s.drop_last() == Seq::<char>::empty());
        assert(s.skip(1) == Seq::<char>::empty());
        assert(utf16(s) =~= char_units(s[0]) + utf16(s.skip(1)));
    } else {
        lemma_utf16_front(s.drop_last());
        assert(s.drop_last().skip(1) == s.skip(1).drop_last());
        assert(utf16(s) =~= char_units(s[0]) + utf16(s.skip(1)));
    }
}

/// Every text comes back from its units.
pub proof fn law_utf16_round_trip(s: Seq<char>)
    ensures
        from_utf16(utf16(s)) == s,
    decreases s.len(),
{
    if s.len() > 0 {
        lemma_utf16_front(s);
        lemma_decode_after_char(s[0], utf16(s.skip(1)));
        law_utf16_round_trip(s.skip(1));
        assert(seq![s[0]] + s.skip(1) =~= s);
    }
}

/// A text without zeros comes back from what Windows takes for it.
pub proof fn law_wide_round_trip(s: Seq<char>)
    requires
        !s.contains('\0'),
    ensures
        from_utf16(before_zero(wide_units(s))) == s,
{
    lemma_no_zero_units(s);
    lemma_before_zero(utf16(s));
    law_utf16_round_trip(s);
}

proof fn lemma_no_zero_units(s: Seq<char>)
    requires
        !s.contains('\0'),
    ensures
        forall|i: int| 0 <= i < utf16(s).len() ==> #[trigger] utf16(s)[i] != 0,
    decreases s.len(),
{
    if s.len() > 0 {
        assert(s[s.len() - 1] == s.last());
        assert(s.last() != '\0') by {
            if s.last() == '\0' {
                assert(s.contains('\0'));
            }
        }
        assert(!s.drop_last().contains('\0')) by {
            if s.drop_last().contains('\0') {
                let k = choose|k: int| 0 <= k < s.drop_last().len() && s.drop_last()[k] == '\0';
                assert(s[k] == '\0');
            }
        }
        lemma_no_zero_units(s.drop_last());
        lemma_no_zero_in_char(s.last());
        let front = utf16(s.drop_last());
        assert forall|i: int| 0 <= i < utf16(s).len() implies #[trigger] utf16(s)[i] != 0 by {
            if i < front.len() {
                assert(front[i] != 0);
            } else {
                assert(utf16(s)[i] == char_units(s.last())[i - front.len()]);
            }
        }
    }
}

proof fn lemma_no_zero_in_char(c: char)
    requires
        c != '\0',
    ensures
        forall|i: int| 0 <= i < char_units(c).len() ==> #[trigger] char_units(c)[i] != 0,
{
}

proof fn lemma_before_zero(u: Seq<u16>)
    requires
        forall|i: int| 0 <= i < u.len() ==> #[trigger] u[i] != 0,
    ensures
        before_zero(u.push(0)) == u,
    decreases u.len(),
{
    let all = u.push(0);
    if u.len() > 0 {
        assert(all[0] == u[0]);
        assert(all.skip(1) == u.skip(1).push(0));
        assert forall|i: int| 0 <= i < u.skip(1).len() implies #[trigger] u.skip(1)[i] != 0 by {
            assert(u[i + 1] != 0);
        }
        lemma_before_zero(u.skip(1));
        assert(seq![u[0]] + u.skip(1) =~= u);
    }
}

/// An account of the machine.
#[derive(Debug)]
pub struct Account {
    pub sid: String,
    pub name: String,
    pub display_name: String,
}

/// The flag of an account that is disabled.
pub const ACCOUNT_DISABLED: u32 = 2;

/// The account that Windows describes, as it is said.
pub open spec fn account_of(
    flags: u32,
    sid: Option<Seq<char>>,
    name: Seq<char>,
    full_name: Seq<char>,
) -> Option<AccountView> {
    if flags & ACCOUNT_DISABLED == 0 && sid is Some {
        Some(
            AccountView {
                sid: sid->Some_0,
                name,
                display_name: if full_name.len() == 0 {
                    name
                } else {
                    full_name
                },
            },
        )
    } else {
        None
    }
}

/// The account that Windows describes; none where it is disabled or has no security
/// identifier. Without a full name the short one is shown.
pub fn account(flags: u32, sid: Option<String>, name: String, full_name: String) -> (r: Option<Account>)
    ensures
        account_of(flags, optional(sid), name@, full_name@) == match r {
            Some(a) => Some(a@),
            None => None,
        },
{
    if flags & ACCOUNT_DISABLED != 0 {
        return None;
    }
    match sid {
        None => None,
        Some(sid) => {
            let full = chars_of(full_name.as_str());
            let display_name = if full.len() == 0 {
                name.clone()
            } else {
                full_name
            };
            Some(Account { sid, name, display_name })
        },
    }
}

/// What Windows says of an account: its flags, its security identifier, where that can be
/// read, and its names.
#[derive(Debug)]
pub struct AccountRow {
    pub flags: u32,
    pub sid: Option<String>,
    pub name: String,
    pub full_name: String,
}

/// What an account says.
pub struct AccountView {
    pub sid: Seq<char>,
    pub name: Seq<char>,
    pub display_name: Seq<char>,
}

impl View for Account {
    type V = AccountView;

    open spec fn view(&self) -> AccountView {
        AccountView { sid: self.sid@, name: self.name@, display_name: self.display_name@ }
    }
}

/// What accounts say.
pub open spec fn account_views(accounts: Seq<Account>) -> Seq<AccountView> {
    Seq::new(accounts.len(), |i: int| accounts[i]@)
}

/// The accounts among what Windows lists: those that are not disabled and have a security
/// identifier, in order.
pub open spec fn accounts_in(rows: Seq<AccountRow>) -> Seq<AccountView>
    decreases rows.len(),
{
    if rows.len() == 0 {
        Seq::empty()
    } else {
        let row = rows.last();
        let rest = accounts_in(rows.drop_last());
        match account_of(row.flags, optional(row.sid), row.name@, row.full_name@) {
            Some(a) => rest.push(a),
            None => rest,
        }
    }
}

/// A text, once more, where there is one.
fn copy_optional(text: &Option<String>) -> (r: Option<String>)
    ensures
        optional(r) == optional(*text),
{
    match text {
        Some(t) => Some(t.clone()),
        None => None,
    }
}

/// The accounts among what Windows lists.
pub fn accounts(rows: &Vec<AccountRow>) -> (r: Vec<Account>)
    ensures
        account_views(r@) == accounts_in(rows@),
{
    let mut out: Vec<Account> = Vec::new();
    assert(account_views(out@) =~= Seq::<AccountView>::empty());
    for i in 0..rows.len()
        invariant
            account_views(out@) == accounts_in(rows@.take(i as int)),
    {
        assert(rows@.take(i + 1).drop_last() == rows@.take(i as int));
        let row = &rows[i];
        let ghost before = out@;
        if let Some(a) = account(row.flags, copy_optional(&row.sid), row.name.clone(), row.full_name.clone()) {
            let ghost said = a@;
            out.push(a);
            assert(account_views(out@) =~= account_views(before).push(said));
        }
    }
    assert(rows@.take(rows@.len() as int) == rows@);
    out
}

/// A user of the machine, as the server knows them.
pub fn local_user(uid: u32, account: &Account) -> (r: LocalUser)
    ensures
        r.local_uid == uid,
        r.username@ == account.name@,
        r.display_name@ == account.display_name@,
{
    LocalUser { local_uid: uid, username: account.name.clone(), display_name: account.display_name.clone() }
}

/// A session of the machine.
#[derive(Debug)]
pub struct Session {
    pub id: u32,
    pub sid: String,
    pub active: bool,
    pub locked: bool,
}

/// What Windows says of a session: its lock flag, the current time and the time of the
/// last input, in units of a hundred nanoseconds.
#[derive(Clone, Copy, Debug, PartialEq, Eq, Structural)]
pub struct SessionInfo {
    pub flags: i32,
    pub current_time: i64,
    pub last_input: i64,
}

/// The flag of a session that is locked.
pub const SESSION_LOCKED: i32 = 0;

/// Whether a session is locked; one that nothing is known of is not.
pub open spec fn session_locked(info: Option<SessionInfo>) -> bool {
    info matches Some(i) && i.flags == SESSION_LOCKED
}

/// Whether there was no input for so many seconds; a session that nothing is known of is
/// not idle, so that it counts as use.
pub open spec fn session_idle(info: Option<SessionInfo>, idle_seconds: u64) -> bool {
    info matches Some(i) && i.last_input > 0 && ((if i.current_time > i.last_input {
        i.current_time - i.last_input
    } else {
        0
    }) / 10_000_000 >= idle_seconds)
}

/// Whether a session is in use: it is connected, not locked and not idle.
pub open spec fn session_active(connected: bool, info: Option<SessionInfo>, idle_seconds: u64) -> bool {
    connected && !session_locked(info) && !session_idle(info, idle_seconds)
}

/// A session of a user: in use while it is connected, not locked and not idle.
pub fn session(
    id: u32,
    sid: String,
    connected: bool,
    info: Option<SessionInfo>,
    idle_seconds: u64,
) -> (r: Session)
    ensures
        r.id == id,
        r.sid@ == sid@,
        r.locked == session_locked(info),
        r.active == session_active(connected, info, idle_seconds),
{
    let mut locked = false;
    let mut idle = false;
    if let Some(i) = info {
        locked = i.flags == SESSION_LOCKED;
        if i.last_input > 0 {
            let without_input: u64 = if i.current_time > i.last_input {
                (i.current_time - i.last_input) as u64
            } else {
                0
            };
            idle = without_input / 10_000_000 >= idle_seconds;
        }
    }
    Session { id, sid, active: connected && !locked && !idle, locked }
}

/// Whether a session is one of a user: the session of the services is not.
pub fn is_user_session(id: u32) -> (r: bool)
    ensures
        r == (id != 0),
{
    id != 0
}

/// What Windows says of a session: its user's security identifier, where that can be read,
/// whether it is connected, and what else is known of it.
#[derive(Debug)]
pub struct SessionRow {
    pub id: u32,
    pub sid: Option<String>,
    pub connected: bool,
    pub info: Option<SessionInfo>,
}

/// What a session says.
pub struct SessionView {
    pub id: u32,
    pub sid: Seq<char>,
    pub active: bool,
    pub locked: bool,
}

impl View for Session {
    type V = SessionView;

    open spec fn view(&self) -> SessionView {
        SessionView { id: self.id, sid: self.sid@, active: self.active, locked: self.locked }
    }
}

/// What sessions say.
pub open spec fn session_views(sessions: Seq<Session>) -> Seq<SessionView> {
    Seq::new(sessions.len(), |i: int| sessions[i]@)
}

/// The sessions of users among what Windows lists: all but that of the services and those
/// whose user cannot be read, in order.
pub open spec fn sessions_in(rows: Seq<SessionRow>, idle_seconds: u64) -> Seq<SessionView>
    decreases rows.len(),
{
    if rows.len() == 0 {
        Seq::empty()
    } else {
        let row = rows.last();
        let rest = sessions_in(rows.drop_last(), idle_seconds);
        if row.id != 0 && row.sid is Some {
            rest.push(
                SessionView {
                    id: row.id,
                    sid: row.sid->Some_0@,
                    active: session_active(row.connected, row.info, idle_seconds),
                    locked: session_locked(row.info),
                },
            )
        } else {
            rest
        }
    }
}

/// The sessions of users among what Windows lists.
pub fn sessions(rows: &Vec<SessionRow>, idle_seconds: u64) -> (r: Vec<Session>)
    ensures
        session_views(r@) == sessions_in(rows@, idle_seconds),
{
    let mut out: Vec<Session> = Vec::new();
    assert(session_views(out@) =~= Seq::<SessionView>::empty());
    for i in 0..rows.len()
        invariant
            session_views(out@) == sessions_in(rows@.take(i as int), idle_seconds),
    {
        assert(rows@.take(i + 1).drop_last() == rows@.take(i as int));
        let row = &rows[i];
        let ghost before = out@;
        if is_user_session(row.id) {
            if let Some(sid) = &row.sid {
                let s = session(row.id, sid.clone(), row.connected, row.info, idle_seconds);
                let ghost said = s@;
                out.push(s);
                assert(session_views(out@) =~= session_views(before).push(said));
            }
        }
    }
    assert(rows@.take(rows@.len() as int) == rows@);
    out
}

/// Every session in use is connected, not locked and not idle, and is one that Windows lists
/// for a user who can be read.
pub proof fn law_sessions_in_use_are_listed(rows: Seq<SessionRow>, idle_seconds: u64, i: int)
    requires
        0 <= i < sessions_in(rows, idle_seconds).len(),
    ensures
        ({
            let s = sessions_in(rows, idle_seconds)[i];
            exists|k: int|
                #![trigger rows[k]]
                {
                    &&& 0 <= k < rows.len()
                    &&& rows[k].id == s.id && s.id != 0
                    &&& rows[k].sid is Some && rows[k].sid->Some_0@ == s.sid
                    &&& s.active ==> rows[k].connected && !s.locked && !session_idle(rows[k].info, idle_seconds)
                }
        }),
    decreases rows.len(),
{
    let front = rows.drop_last();
    let rest = sessions_in(front, idle_seconds);
    if i < rest.len() {
        law_sessions_in_use_are_listed(front, idle_seconds, i);
        let s = rest[i];
        let k = choose|k: int|
            #![trigger front[k]]
            {
                &&& 0 <= k < front.len()
                &&& front[k].id == s.id && s.id != 0
                &&& front[k].sid is Some && front[k].sid->Some_0@ == s.sid
                &&& s.active ==> front[k].connected && !s.locked && !session_idle(front[k].info, idle_seconds)
            };
        assert(rows[k] == front[k]);
        assert(sessions_in(rows, idle_seconds)[i] == s);
    } else {
        assert(rows[rows.len() - 1] == rows.last());
    }
}

/// A TCP connection of the machine, with the ports and addresses as Windows lists them:
/// their bytes in the order of the network.
#[derive(Clone, Copy, Debug, PartialEq, Eq, Structural)]
pub struct TcpRow {
    pub local_address: u32,
    pub local_port: u32,
    pub remote_address: u32,
    pub remote_port: u32,
    pub pid: u32,
}

/// The address 127.0.0.1 as Windows lists it.
pub const LISTED_LOOPBACK: u32 = 16_777_343;

/// The port of a listed one: the low two bytes, swapped.
pub open spec fn listed_port(raw: u32) -> int {
    (raw % 256) * 256 + (raw / 256) % 256
}

/// Whether a connection is the other end of one that comes from a port and goes to a port
/// of the machine itself.
pub open spec fn other_end(row: TcpRow, peer_port: u16, local_port: u16) -> bool {
    &&& listed_port(row.local_port) == peer_port
    &&& listed_port(row.remote_port) == local_port
    &&& row.local_address == LISTED_LOOPBACK
    &&& row.remote_address == LISTED_LOOPBACK
}

/// The process that owns the other end of a connection: that of the first row that is it.
pub open spec fn owner_of(rows: Seq<TcpRow>, peer_port: u16, local_port: u16) -> Option<u32>
    decreases rows.len(),
{
    if rows.len() == 0 {
        None
    } else if other_end(rows[0], peer_port, local_port) {
        Some(rows[0].pid)
    } else {
        owner_of(rows.skip(1), peer_port, local_port)
    }
}

/// The process that owns the other end of a connection.
pub fn socket_owner(rows: &Vec<TcpRow>, peer_port: u16, local_port: u16) -> (r: Option<u32>)
    ensures
        r == owner_of(rows@, peer_port, local_port),
{
    assert(rows@.skip(0) == rows@);
    for i in 0..rows.len()
        invariant
            owner_of(rows@.skip(i as int), peer_port, local_port) == owner_of(rows@, peer_port, local_port),
    {
        let row = rows[i];
        assert(rows@.skip(i as int)[0] == row);
        assert(rows@.skip(i as int).skip(1) == rows@.skip(i + 1));
        let from: u32 = (row.local_port % 256) * 256 + (row.local_port / 256) % 256;
        let to: u32 = (row.remote_port % 256) * 256 + (row.remote_port / 256) % 256;
        if from == peer_port as u32 && to == local_port as u32 && row.local_address == LISTED_LOOPBACK
            && row.remote_address == LISTED_LOOPBACK {
            return Some(row.pid);
        }
    }
    None
}

/// The owner of a connection is never taken from a connection with another end: who may
/// use a proxy depends on the machine's own table alone.
pub proof fn law_owner_is_that_of_the_peer(rows: Seq<TcpRow>, peer_port: u16, local_port: u16)
    ensures
        owner_of(rows, peer_port, local_port) matches Some(pid) ==> exists|i: int|
            0 <= i < rows.len() && other_end(#[trigger] rows[i], peer_port, local_port) && rows[i].pid == pid,
        owner_of(rows, peer_port, local_port) is None <==> forall|i: int|
            0 <= i < rows.len() ==> !other_end(#[trigger] rows[i], peer_port, local_port),
    decreases rows.len(),
{
    if rows.len() > 0 && !other_end(rows[0], peer_port, local_port) {
        let rest = rows.skip(1);
        law_owner_is_that_of_the_peer(rest, peer_port, local_port);
        if owner_of(rest, peer_port, local_port) is Some {
            let pid = owner_of(rest, peer_port, local_port)->Some_0;
            let k = choose|k: int|
                0 <= k < rest.len() && other_end(#[trigger] rest[k], peer_port, local_port) && rest[k].pid == pid;
            assert(rows[k + 1] == rest[k]);
        } else {
            assert forall|i: int| 0 <= i < rows.len() implies !other_end(
                #[trigger] rows[i],
                peer_port,
                local_port,
            ) by {
                if i > 0 {
                    assert(rest[i - 1] == rows[i]);
                }
            }
        }
    }
}

/// The whole seconds of a count of a hundred nanoseconds.
pub open spec fn seconds_of_ticks(ticks: u64) -> u64 {
    ticks / 10_000_000
}

/// The seconds that the machine has been awake, from its count of a hundred nanoseconds.
pub fn awake_seconds(ticks: u64) -> (r: u64)
    ensures
        r == seconds_of_ticks(ticks),
{
    ticks / 10_000_000
}

/// Whether two texts are the same but for ASCII upper and lower case.
pub fn same_ignoring_case(a: &str, b: &str) -> (r: bool)
    ensures
        r == (lower(a@) == lower(b@)),
{
    let x = lowercase(a);
    let y = lowercase(b);
    same(x.as_str(), y.as_str())
}

/// Whether a process may be the helper of a session.
pub open spec fn is_helper(process_session: u32, session: u32, name: Seq<char>) -> bool {
    process_session == session && lower(name) == lower("screenguard-tray-windows.exe"@)
}

/// Whether a process may be the helper of a session: it runs there under the helper's
/// name.
pub fn may_be_helper(process_session: u32, session: u32, name: &str) -> (r: bool)
    ensures
        r == is_helper(process_session, session, name@),
{
    process_session == session && same_ignoring_case(name, "screenguard-tray-windows.exe")
}

/// A character of the first plane is one unit, its number; any other is a pair, whose halves hold the
/// upper and the lower ten bits of what its number is beyond that plane.
pub proof fn law_characters_have_one_unit_or_a_pair(c: char)
    ensures
        (c as int) < 65536 ==> char_units(c).len() == 1 && char_units(c)[0] as int == c as int,
        (c as int) >= 65536 ==> {
            &&& char_units(c).len() == 2
            &&& 55296 <= char_units(c)[0] <= 56319
            &&& 56320 <= char_units(c)[1] <= 57343
            &&& c as int == 65536 + 1024 * (char_units(c)[0] - 55296) + (char_units(c)[1] - 56320)
        },
{
}

/// A half of a pair that stands alone is read as the replacement character, and what follows it is
/// read as it is alone.
pub proof fn law_lone_halves_are_replaced(u: u16, rest: Seq<u16>)
    requires
        55296 <= u <= 57343,
        u >= 56320 || rest.len() == 0 || !(56320 <= rest[0] <= 57343),
    ensures
        from_utf16(seq![u] + rest) == seq!['\u{fffd}'] + from_utf16(rest),
{
    assert((seq![u] + rest).skip(1) =~= rest);
    if rest.len() > 0 {
        assert((seq![u] + rest)[1] == rest[0]);
    }
}

/// What Windows gives is read up to the first zero, whatever follows it.
pub proof fn law_texts_end_at_the_first_zero(u: Seq<u16>, rest: Seq<u16>)
    requires
        forall|i: int| 0 <= i < u.len() ==> #[trigger] u[i] != 0,
    ensures
        before_zero(u + seq![0u16] + rest) == u,
        before_zero(u) == u,
    decreases u.len(),
{
    let all = u + seq![0u16] + rest;
    if u.len() > 0 {
        assert(u[0] != 0);
        let next = u.skip(1);
        assert(all[0] == u[0]);
        assert(all.skip(1) =~= next + seq![0u16] + rest);
        assert forall|i: int| 0 <= i < next.len() implies #[trigger] next[i] != 0 by {
            assert(u[i + 1] != 0);
        }
        law_texts_end_at_the_first_zero(next, rest);
        assert(seq![u[0]] + next =~= u);
    } else {
        assert(all[0] == 0);
        assert(u =~= Seq::<u16>::empty());
    }
}

/// An account counts exactly where its second flag is not set and it has a security identifier; it is
/// shown by its full name, or by its short one where it has no other.
pub proof fn law_enabled_accounts_count(flags: u32, sid: Option<Seq<char>>, name: Seq<char>, full_name: Seq<char>)
    ensures
        account_of(flags, sid, name, full_name) is Some <==> flags / 2 % 2 == 0 && sid is Some,
        account_of(flags, sid, name, full_name) matches Some(a) ==> {
            &&& sid == Some(a.sid)
            &&& a.name == name
            &&& full_name.len() > 0 ==> a.display_name == full_name
            &&& full_name.len() == 0 ==> a.display_name == name
        },
{
    assert((flags & 2 == 0) == (flags / 2 % 2 == 0)) by (bit_vector);
}

/// The accounts of the machine are those that count, among what Windows lists, and no others.
pub proof fn law_accounts_are_listed(rows: Seq<AccountRow>, a: AccountView)
    ensures
        accounts_in(rows).contains(a) <==> exists|i: int|
            0 <= i < rows.len() && account_of(
                (#[trigger] rows[i]).flags,
                optional(rows[i].sid),
                rows[i].name@,
                rows[i].full_name@,
            ) == Some(a),
    decreases rows.len(),
{
    if rows.len() > 0 {
        let front = rows.drop_last();
        law_accounts_are_listed(front, a);
        let before = accounts_in(front);
        let all = accounts_in(rows);
        assert(rows[rows.len() - 1] == rows.last());
        if all.contains(a) {
            let k = choose|k: int| 0 <= k < all.len() && all[k] == a;
            if k < before.len() {
                assert(before[k] == a);
                let i = choose|i: int|
                    0 <= i < front.len() && account_of(
                        (#[trigger] front[i]).flags,
                        optional(front[i].sid),
                        front[i].name@,
                        front[i].full_name@,
                    ) == Some(a);
                assert(rows[i] == front[i]);
            }
        }
        if exists|i: int|
            0 <= i < rows.len() && account_of(
                (#[trigger] rows[i]).flags,
                optional(rows[i].sid),
                rows[i].name@,
                rows[i].full_name@,
            ) == Some(a) {
            let i = choose|i: int|
                0 <= i < rows.len() && account_of(
                    (#[trigger] rows[i]).flags,
                    optional(rows[i].sid),
                    rows[i].name@,
                    rows[i].full_name@,
                ) == Some(a);
            if i < front.len() {
                assert(front[i] == rows[i]);
                let k = choose|k: int| 0 <= k < before.len() && before[k] == a;
                assert(all[k] == a);
            } else {
                assert(all[before.len() as int] == a);
            }
        }
    }
}

/// A session is in use exactly where it is connected, not locked, and had input within the seconds
/// after which it is idle. One that nothing is known of is in use while it is connected, and so is
/// one whose input was never noted.
pub proof fn law_sessions_are_in_use_with_recent_input(connected: bool, info: SessionInfo, idle_seconds: u64)
    ensures
        session_active(connected, None, idle_seconds) <==> connected,
        !session_locked(None),
        session_locked(Some(info)) <==> info.flags == 0,
        info.last_input <= 0 ==> (session_active(connected, Some(info), idle_seconds) <==> connected && info.flags
            != 0),
        0 < info.last_input < info.current_time ==> (session_active(connected, Some(info), idle_seconds)
            <==> connected && info.flags != 0 && info.current_time - info.last_input < idle_seconds * 10_000_000),
        0 < info.last_input && info.current_time <= info.last_input && idle_seconds > 0 ==> (session_active(
            connected,
            Some(info),
            idle_seconds,
        ) <==> connected && info.flags != 0),
{
}

/// Every session that Windows lists, but that of the services and those whose user cannot be read, is
/// one of the sessions, with its own user, and whether it is locked and in use.
pub proof fn law_sessions_of_users_are_listed(rows: Seq<SessionRow>, idle_seconds: u64, k: int)
    requires
        0 <= k < rows.len(),
        rows[k].id != 0,
        rows[k].sid is Some,
    ensures
        sessions_in(rows, idle_seconds).contains(
            SessionView {
                id: rows[k].id,
                sid: rows[k].sid->Some_0@,
                active: session_active(rows[k].connected, rows[k].info, idle_seconds),
                locked: session_locked(rows[k].info),
            },
        ),
    decreases rows.len(),
{
    let said = SessionView {
        id: rows[k].id,
        sid: rows[k].sid->Some_0@,
        active: session_active(rows[k].connected, rows[k].info, idle_seconds),
        locked: session_locked(rows[k].info),
    };
    let all = sessions_in(rows, idle_seconds);
    let before = sessions_in(rows.drop_last(), idle_seconds);
    if k < rows.len() - 1 {
        assert(rows.drop_last()[k] == rows[k]);
        law_sessions_of_users_are_listed(rows.drop_last(), idle_seconds, k);
        let i = choose|i: int| 0 <= i < before.len() && before[i] == said;
        assert(all[i] == said);
    } else {
        assert(all[before.len() as int] == said);
    }
}

/// A port is listed with its two bytes swapped.
pub proof fn law_ports_are_listed_swapped(upper: u8, lower_byte: u8)
    ensures
        listed_port((upper + 256 * lower_byte) as u32) == 256 * upper + lower_byte,
{
    let raw = (upper + 256 * lower_byte) as u32;
    assert(raw % 256 == upper);
    assert((raw / 256) % 256 == lower_byte);
}

/// The owner of a connection to this machine is the process of the first row whose local end is the
/// peer and whose remote end is the local port, both at 127.0.0.1.
pub proof fn law_the_first_other_end_counts(rows: Seq<TcpRow>, peer_port: u16, local_port: u16, i: int)
    requires
        0 <= i < rows.len(),
        listed_port(rows[i].local_port) == peer_port,
        listed_port(rows[i].remote_port) == local_port,
        rows[i].local_address == 127 + 0x0100_0000,
        rows[i].remote_address == 127 + 0x0100_0000,
        forall|k: int|
            0 <= k < i ==> listed_port((#[trigger] rows[k]).local_port) != peer_port || listed_port(rows[k].remote_port)
                != local_port || rows[k].local_address != 127 + 0x0100_0000 || rows[k].remote_address != 127
                + 0x0100_0000,
    ensures
        owner_of(rows, peer_port, local_port) == Some(rows[i].pid),
    decreases rows.len(),
{
    if i > 0 {
        let rest = rows.skip(1);
        assert(rows[0] == rows[0]);
        assert(!other_end(rows[0], peer_port, local_port));
        assert(rest[i - 1] == rows[i]);
        assert forall|k: int| 0 <= k < i - 1 implies listed_port((#[trigger] rest[k]).local_port) != peer_port
            || listed_port(rest[k].remote_port) != local_port || rest[k].local_address != 127 + 0x0100_0000
            || rest[k].remote_address != 127 + 0x0100_0000 by {
            assert(rest[k] == rows[k + 1]);
        }
        law_the_first_other_end_counts(rest, peer_port, local_port, i - 1);
    }
}

/// Nobody owns a connection that no row is the other end of: not one with other ports, and not one
/// with another machine.
pub proof fn law_other_machines_own_no_connection(rows: Seq<TcpRow>, peer_port: u16, local_port: u16)
    requires
        forall|k: int|
            0 <= k < rows.len() ==> listed_port((#[trigger] rows[k]).local_port) != peer_port || listed_port(
                rows[k].remote_port,
            ) != local_port || rows[k].local_address != 127 + 0x0100_0000 || rows[k].remote_address != 127
                + 0x0100_0000,
    ensures
        owner_of(rows, peer_port, local_port) is None,
{
    law_owner_is_that_of_the_peer(rows, peer_port, local_port);
    assert forall|i: int| 0 <= i < rows.len() implies !other_end(#[trigger] rows[i], peer_port, local_port) by {
        assert(rows[i] == rows[i]);
    }
}

/// Ten million ticks are a second.
pub proof fn law_ticks_are_parts_of_seconds(ticks: u64)
    ensures
        10_000_000 * seconds_of_ticks(ticks) <= ticks < 10_000_000 * seconds_of_ticks(ticks) + 10_000_000,
{
}

/// A process may be the helper of a session exactly where it runs in that session under the helper's
/// name, in upper or lower case.
pub proof fn law_helpers_run_in_their_session(process_session: u32, session: u32, name: Seq<char>)
    ensures
        is_helper(session, session, "screenguard-tray-windows.exe"@),
        process_session != session ==> !is_helper(process_session, session, name),
        lower(name) != lower("screenguard-tray-windows.exe"@) ==> !is_helper(process_session, session, name),
{
}

} // verus!
