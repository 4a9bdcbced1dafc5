//! The link to the server: pairing, reconnecting, and what the agent says of itself.
use rand::Rng;
use vstd::prelude::*;

use crate::clock::{date_value, Date};
use crate::text::{
    chars_of, ends_with, join, lower, lowercase, optional, replaced_all, same, starts_with, string_of, texts, trim,
    trim_end_text, trimmed_end_text, trimmed_str, with_replaced_all,
};

verus! {

/// The pause before the first attempt to reconnect, in seconds.
pub const FIRST_PAUSE: u64 = 5;

/// The longest pause before an attempt to reconnect, in seconds.
pub const LONGEST_PAUSE: u64 = 300;

/// The pauses between attempts to reach the server.
#[derive(Clone, Copy, Debug)]
pub struct Backoff {
    delay: u64,
}

impl View for Backoff {
    type V = u64;

    closed spec fn view(&self) -> u64 {
        self.delay
    }
}

/// The pause after an attempt that lasted so long, where this one would be next.
pub open spec fn pause_now(next: u64, lasted_secs: u64, lasted_nanos: u32) -> u64 {
    if lasted_secs > 30 || (lasted_secs == 30 && lasted_nanos > 0) {
        FIRST_PAUSE
    } else {
        next
    }
}

/// The pause that follows on another.
pub open spec fn pause_next(pause: u64) -> u64 {
    if pause * 2 < LONGEST_PAUSE {
        (pause * 2) as u64
    } else {
        LONGEST_PAUSE
    }
}

impl Backoff {
    /// Whether the next pause is one of those that occur.
    pub open spec fn valid(self) -> bool {
        FIRST_PAUSE <= self@ <= LONGEST_PAUSE
    }

    /// The pauses from the beginning.
    pub fn new() -> (r: Backoff)
        ensures
            r@ == pause_after(0),
            r.valid(),
    {
        Backoff { delay: FIRST_PAUSE }
    }

    /// The pause after an attempt that lasted so long. A link that held for more than half
    /// a minute starts the pauses anew; otherwise each is twice the one before, up to the
    /// longest.
    pub fn pause(&mut self, lasted_secs: u64, lasted_nanos: u32) -> (r: u64)
        requires
            old(self).valid(),
        ensures
            final(self).valid(),
            r == pause_now(old(self)@, lasted_secs, lasted_nanos),
            final(self)@ == pause_next(r),
    {
        if lasted_secs > 30 || (lasted_secs == 30 && lasted_nanos > 0) {
            self.delay = FIRST_PAUSE;
        }
        let now = self.delay;
        self.delay = if now * 2 < LONGEST_PAUSE {
            now * 2
        } else {
            LONGEST_PAUSE
        };
        now
    }
}

/// The pause before an attempt that follows so many failures in a row.
pub open spec fn pause_after(failures: nat) -> int
    decreases failures,
{
    if failures == 0 {
        FIRST_PAUSE as int
    } else if pause_after((failures - 1) as nat) * 2 < LONGEST_PAUSE {
        pause_after((failures - 1) as nat) * 2
    } else {
        LONGEST_PAUSE as int
    }
}

/// The pauses never get shorter while attempts fail, and never exceed the longest.
pub proof fn law_pauses_grow_to_the_longest(failures: nat)
    ensures
        FIRST_PAUSE <= pause_after(failures) <= pause_after(failures + 1) <= LONGEST_PAUSE,
    decreases failures,
{
    if failures > 0 {
        law_pauses_grow_to_the_longest((failures - 1) as nat);
    }
}

/// An account name as it is compared: without white space around it, in lower case.
pub open spec fn account_key(account: Option<Seq<char>>) -> Option<Seq<char>> {
    match account {
        Some(a) => Some(lower(trim(a))),
        None => None,
    }
}

/// An account name as it is compared.
fn account_key_of(account: &Option<String>) -> (r: Option<String>)
    ensures
        optional(r) == account_key(optional(*account)),
{
    match account {
        Some(a) => {
            let t = trimmed_str(a.as_str());
            Some(lowercase(t.as_str()))
        },
        None => None,
    }
}

/// What is stored of the link to a server.
#[derive(Debug)]
pub struct ServerConnection {
    pub server_url: String,
    pub auth_token: String,
    pub agent_id: String,
    pub cloud_account: Option<String>,
}

/// Whether an account that is configured is another one than that to which the agent is
/// bound.
pub open spec fn other_account(configured: Option<Seq<char>>, bound: Option<Seq<char>>) -> bool {
    configured is Some && account_key(configured) != account_key(bound)
}

/// Where the configured account is the one to which the agent is bound, also in another
/// case or with white space around it, or where none is configured, nothing is wiped; any
/// other account is another one.
pub proof fn law_the_same_account_keeps_everything(account: Seq<char>, bound: Option<Seq<char>>)
    ensures
        !other_account(Some(account), Some(account)),
        !other_account(None, bound),
        bound matches Some(b) && lower(trim(b)) == lower(trim(account)) ==> !other_account(Some(account), bound),
        bound matches Some(b) && lower(trim(b)) != lower(trim(account)) ==> other_account(Some(account), bound),
        other_account(Some(account), None),
{
}

/// Whether the cached policies and the use are wiped at the start, given the account that is
/// configured and the one that the machine is bound to, if it is bound at all.
pub open spec fn rebinds(configured: Option<Seq<char>>, bound: Option<Option<Seq<char>>>) -> bool {
    match bound {
        Some(account) => other_account(configured, account),
        None => false,
    }
}

/// Whether the cached policies and the use are wiped at the start: an account is
/// configured, and the agent is bound to another one. A machine that is not bound keeps
/// what it has.
pub fn needs_rebind(configured: &Option<String>, stored: &Option<ServerConnection>) -> (r: bool)
    ensures
        r == rebinds(
            optional(*configured),
            match *stored {
                Some(c) => Some(optional(c.cloud_account)),
                None => None,
            },
        ),
{
    match stored {
        Some(c) => {
            let wanted = account_key_of(configured);
            let bound = account_key_of(&c.cloud_account);
            match (wanted, bound) {
                (Some(w), Some(b)) => !same(w.as_str(), b.as_str()),
                (Some(_), None) => true,
                (None, _) => false,
            }
        },
        None => false,
    }
}

/// Where the agent connects to first.
#[derive(Debug)]
pub enum Route {
    /// To the server that it is paired with.
    Paired,
    /// To this address, to ask for pairing.
    Pair(String),
    /// To a server that is yet to be found, to ask for pairing.
    Discover,
}

/// Where the agent connects to first, as it is said.
pub enum RouteView {
    Paired,
    Pair(Seq<char>),
    Discover,
}

impl View for Route {
    type V = RouteView;

    open spec fn view(&self) -> RouteView {
        match *self {
            Route::Paired => RouteView::Paired,
            Route::Pair(url) => RouteView::Pair(url@),
            Route::Discover => RouteView::Discover,
        }
    }
}

/// Where an agent connects to first.
pub open spec fn route_of(paired: bool, account: bool, cloud_url: Seq<char>) -> RouteView {
    if paired {
        RouteView::Paired
    } else if account {
        RouteView::Pair(cloud_url)
    } else {
        RouteView::Discover
    }
}

/// Where an agent connects to: to its server where it is paired, to the cloud where an
/// account is configured, and to a server that it discovers otherwise.
pub fn route(paired: bool, cloud_account: &Option<String>, cloud_url: &str) -> (r: Route)
    ensures
        r@ == route_of(paired, *cloud_account is Some, cloud_url@),
{
    if paired {
        Route::Paired
    } else if cloud_account.is_some() {
        Route::Pair(cloud_url.to_owned())
    } else {
        Route::Discover
    }
}

/// The address of a server that was looked for.
pub open spec fn found_server(url: Option<Seq<char>>) -> Result<Seq<char>, Seq<char>> {
    match url {
        Some(u) => Ok(u),
        None => Err("No server discovered"@),
    }
}

/// A server that was found is used under its address, and that none was is an error.
pub proof fn law_found_servers_are_used(url: Seq<char>)
    ensures
        found_server(Some(url)) == Ok::<Seq<char>, Seq<char>>(url),
        found_server(None) == Err::<Seq<char>, Seq<char>>("No server discovered"@),
{
}

/// The address of a server that was looked for.
pub fn discovered(url: Option<String>) -> (r: Result<String, String>)
    ensures
        found_server(optional(url)) == match r {
            Ok(u) => Ok::<Seq<char>, Seq<char>>(u@),
            Err(e) => Err::<Seq<char>, Seq<char>>(e@),
        },
{
    match url {
        Some(u) => Ok(u),
        None => Err("No server discovered".to_owned()),
    }
}

/// What is stored once pairing is done.
pub fn paired(
    server_url: String,
    auth_token: String,
    agent_id: String,
    cloud_account: Option<String>,
) -> (r: ServerConnection)
    ensures
        r.server_url@ == server_url@,
        r.auth_token@ == auth_token@,
        r.agent_id@ == agent_id@,
        optional(r.cloud_account) == optional(cloud_account),
{
    ServerConnection { server_url, auth_token, agent_id, cloud_account }
}

/// A frame that came over the link.
#[derive(Clone, Copy, Debug, PartialEq, Eq, Structural)]
pub enum Frame {
    /// A text whose message was accepted as an answer to a pairing request.
    PairingAccepted,
    /// A text that takes the pairing back.
    Unpair,
    /// Any other text.
    Text,
    Ping,
    Close,
    Other,
}

/// What to do with a frame.
#[derive(Clone, Copy, Debug, PartialEq, Eq, Structural)]
pub enum FrameReply {
    /// Wait for the next one.
    Wait,
    /// Answer the ping, and wait.
    Pong,
    /// Pairing is done: store the connection.
    Paired,
    /// Hand the message on, and wait.
    Deliver,
    /// Forget the pairing, hand the message on, and end.
    ForgetAndEnd,
    /// End.
    End,
    /// Fail: the connection closed before pairing was done.
    Fail,
}

/// What to do with a frame while pairing.
pub open spec fn pairing_reply(frame: Frame) -> FrameReply {
    match frame {
        Frame::PairingAccepted => FrameReply::Paired,
        Frame::Ping => FrameReply::Pong,
        Frame::Close => FrameReply::Fail,
        _ => FrameReply::Wait,
    }
}

/// What to do with a frame while connected.
pub open spec fn connected_reply(frame: Frame) -> FrameReply {
    match frame {
        Frame::Unpair => FrameReply::ForgetAndEnd,
        Frame::PairingAccepted | Frame::Text => FrameReply::Deliver,
        Frame::Ping => FrameReply::Pong,
        Frame::Close => FrameReply::End,
        Frame::Other => FrameReply::Wait,
    }
}

/// What to do with a frame while pairing: only the acceptance counts.
pub fn while_pairing(frame: Frame) -> (r: FrameReply)
    ensures
        r == pairing_reply(frame),
{
    match frame {
        Frame::PairingAccepted => FrameReply::Paired,
        Frame::Ping => FrameReply::Pong,
        Frame::Close => FrameReply::Fail,
        _ => FrameReply::Wait,
    }
}

/// What to do with a frame while connected: every text is a message.
pub fn while_connected(frame: Frame) -> (r: FrameReply)
    ensures
        r == connected_reply(frame),
{
    match frame {
        Frame::Unpair => FrameReply::ForgetAndEnd,
        Frame::PairingAccepted | Frame::Text => FrameReply::Deliver,
        Frame::Ping => FrameReply::Pong,
        Frame::Close => FrameReply::End,
        Frame::Other => FrameReply::Wait,
    }
}

/// What is said of a link that the server closed.
pub open spec fn said_of_closing(pairing: bool) -> Seq<char> {
    if pairing {
        "Pairing connection closed"@
    } else {
        "Server closed connection"@
    }
}

/// It is told apart whether pairing or the link itself was closed.
pub proof fn law_closings_are_told_apart()
    ensures
        said_of_closing(true) == "Pairing connection closed"@,
        said_of_closing(false) == "Server closed connection"@,
        said_of_closing(true) != said_of_closing(false),
{
    reveal_strlit("Pairing connection closed");
    reveal_strlit("Server closed connection");
    assert("Pairing connection closed"@[0] == 'P' && "Server closed connection"@[0] == 'S');
}

/// What is said of a link that the server closed.
pub fn closed(pairing: bool) -> (r: String)
    ensures
        r@ == said_of_closing(pairing),
{
    if pairing {
        "Pairing connection closed".to_owned()
    } else {
        "Server closed connection".to_owned()
    }
}

/// The seconds of silence after which a link is given up.
pub const LONGEST_SILENCE: u64 = 60;

/// The seconds for which an answer to a pairing request is waited for.
pub const LONGEST_PAIRING: u64 = 300;

/// The header that proves who the agent is.
pub open spec fn bearer(token: Seq<char>) -> Seq<char> {
    "Bearer "@ + token
}

/// The header names the token, whole and alone, after the word of its scheme.
pub proof fn law_the_header_carries_the_token(token: Seq<char>)
    ensures
        bearer(token).len() == 7 + token.len(),
        bearer(token).skip(7) == token,
        bearer(token).take(7) == "Bearer "@,
{
    reveal_strlit("Bearer ");
    assert(bearer(token).skip(7) =~= token);
    assert(bearer(token).take(7) =~= "Bearer "@);
}

/// The header that proves who the agent is.
pub fn authorization(token: &str) -> (r: String)
    ensures
        r@ == bearer(token@),
{
    join("Bearer ", token)
}

/// The characters of a pairing code: letters and digits that are not mistaken for each
/// other.
pub open spec fn code_alphabet() -> Seq<char> {
    "ABCDEFGHJKLMNPQRSTUVWXYZ23456789"@
}

/// The number of characters of a pairing code.
pub const CODE_LENGTH: usize = 6;

/// `rand::Rng::gen_range` over the numbers below a bound, on the generator of the thread.
/// Which number comes is left to chance; it is below the bound. There is none below zero.
#[verifier::external_body]
fn draw(bound: usize) -> (r: usize)
    requires
        bound > 0,
    ensures
        r < bound,
{
    rand::thread_rng().gen_range(0..bound)
}

/// The pairing code for a series of draws.
pub open spec fn code_of(draws: Seq<usize>) -> Seq<char> {
    Seq::new(draws.len(), |i: int| code_alphabet()[draws[i] as int])
}

/// The pairing code for a series of draws.
pub fn code_from(draws: &Vec<usize>) -> (r: String)
    requires
        forall|i: int| 0 <= i < draws@.len() ==> #[trigger] draws@[i] < 32,
    ensures
        r@ == code_of(draws@),
{
    let alphabet = chars_of("ABCDEFGHJKLMNPQRSTUVWXYZ23456789");
    proof {
        reveal_strlit("ABCDEFGHJKLMNPQRSTUVWXYZ23456789");
    }
    let mut out: Vec<char> = Vec::new();
    for i in 0..draws.len()
        invariant
            alphabet@ == code_alphabet(),
            alphabet.len() == 32,
            forall|j: int| 0 <= j < draws@.len() ==> #[trigger] draws@[j] < 32,
            out@ == Seq::new(i as nat, |j: int| code_alphabet()[draws@[j] as int]),
    {
        out.push(alphabet[draws[i]]);
        assert(out@ =~= Seq::new((i + 1) as nat, |j: int| code_alphabet()[draws@[j] as int]));
    }
    string_of(&out)
}

/// A pairing code, by chance: so many characters of the alphabet, whichever come.
pub fn pairing_code() -> (r: String)
    ensures
        r@.len() == CODE_LENGTH,
        forall|i: int| 0 <= i < r@.len() ==> code_alphabet().contains(#[trigger] r@[i]),
{
    let mut draws: Vec<usize> = Vec::new();
    for i in 0..CODE_LENGTH
        invariant
            draws@.len() == i,
            forall|j: int| 0 <= j < draws@.len() ==> #[trigger] draws@[j] < 32,
    {
        draws.push(draw(32));
    }
    let code = code_from(&draws);
    proof {
        reveal_strlit("ABCDEFGHJKLMNPQRSTUVWXYZ23456789");
        assert forall|i: int| 0 <= i < code@.len() implies code_alphabet().contains(#[trigger] code@[i]) by {
            assert(draws@[i] < 32);
            assert(code_alphabet()[draws@[i] as int] == code@[i]);
        }
    }
    code
}

/// What the agent says of itself.
#[derive(Debug)]
pub struct Hello {
    pub machine_id: String,
    pub hostname: String,
    pub timezone: String,
    pub agent_version: String,
    pub last_config_version: u64,
    pub capabilities: Vec<String>,
    pub cloud_account: Option<String>,
}

/// The abilities that the agent announces; web filtering only where it is in force.
pub open spec fn capabilities_of(filtering: bool) -> Seq<Seq<char>> {
    if filtering {
        seq!["platform:windows"@, "arch:x86_64"@, "web_filter"@]
    } else {
        seq!["platform:windows"@, "arch:x86_64"@]
    }
}

/// The account that the agent names: the one that it is bound to, else the configured one.
pub open spec fn account_said(bound: Option<Seq<char>>, configured: Option<Seq<char>>) -> Option<Seq<char>> {
    if bound is Some {
        bound
    } else {
        configured
    }
}

/// What the agent says of itself. The account that it is bound to comes before the one
/// that is configured.
pub fn hello(
    machine_id: String,
    hostname: String,
    timezone: String,
    agent_version: String,
    filtering: bool,
    bound_account: Option<String>,
    configured_account: Option<String>,
) -> (r: Hello)
    ensures
        r.machine_id@ == machine_id@,
        r.hostname@ == hostname@,
        r.timezone@ == timezone@,
        r.agent_version@ == agent_version@,
        r.last_config_version == 0,
        texts(r.capabilities@) == capabilities_of(filtering),
        optional(r.cloud_account) == account_said(optional(bound_account), optional(configured_account)),
{
    let mut capabilities: Vec<String> = Vec::new();
    capabilities.push("platform:windows".to_owned());
    capabilities.push("arch:x86_64".to_owned());
    if filtering {
        capabilities.push("web_filter".to_owned());
    }
    assert(texts(capabilities@) =~= capabilities_of(filtering));
    let cloud_account = match bound_account {
        Some(a) => Some(a),
        None => configured_account,
    };
    Hello { machine_id, hostname, timezone, agent_version, last_config_version: 0, capabilities, cloud_account }
}

/// The name of the machine: what Windows says, or a general one.
pub open spec fn machine_name(computer_name: Option<Seq<char>>) -> Seq<char> {
    match computer_name {
        Some(name) => name,
        None => "Windows"@,
    }
}

/// A machine is named as Windows names it, and `Windows` where it does not.
pub proof fn law_machines_have_a_name(name: Seq<char>)
    ensures
        machine_name(Some(name)) == name,
        machine_name(None) == "Windows"@,
{
}

/// The name of the machine: what Windows says, or a general one.
pub fn hostname(computer_name: Option<String>) -> (r: String)
    ensures
        r@ == machine_name(optional(computer_name)),
{
    match computer_name {
        Some(name) => name,
        None => "Windows".to_owned(),
    }
}

/// The use of a user on a day, as it is stored.
#[derive(Debug)]
pub struct UsageRow {
    pub local_uid: u32,
    pub date: String,
    pub used_seconds: u64,
}

/// The use of a user on a day, as it is sent.
#[derive(Clone, Copy, Debug, PartialEq, Eq, Structural)]
pub struct UsageEntry {
    pub local_uid: u32,
    pub date: Date,
    pub used_seconds: u64,
}

/// The entry for a stored row, given the day that its text names.
pub open spec fn usage_entry(row: UsageRow, days: Option<i32>) -> Option<UsageEntry> {
    match days {
        Some(d) => Some(
            UsageEntry { local_uid: row.local_uid, date: Date { days: d }, used_seconds: row.used_seconds },
        ),
        None => None,
    }
}

/// The entries that are sent: those whose day can be read, in order.
pub open spec fn usage_entries_of(rows: Seq<UsageRow>) -> Seq<UsageEntry>
    decreases rows.len(),
{
    if rows.len() == 0 {
        Seq::empty()
    } else {
        match usage_entry(rows.last(), date_value(rows.last().date@)) {
            Some(e) => usage_entries_of(rows.drop_last()).push(e),
            None => usage_entries_of(rows.drop_last()),
        }
    }
}

/// The use that is sent to the server.
pub fn usage_entries(rows: &Vec<UsageRow>) -> (r: Vec<UsageEntry>)
    ensures
        r@ == usage_entries_of(rows@),
{
    let mut out: Vec<UsageEntry> = Vec::new();
    for i in 0..rows.len()
        invariant
            out@ == usage_entries_of(rows@.take(i as int)),
    {
        assert(rows@.take(i + 1).drop_last() == rows@.take(i as int));
        let row = &rows[i];
        match Date::from_key(row.date.as_str()) {
            Some(date) => {
                out.push(UsageEntry { local_uid: row.local_uid, date, used_seconds: row.used_seconds });
            },
            None => {},
        }
    }
    assert(rows@.take(rows@.len() as int) == rows@);
    out
}

/// The address of the administration, from the address of the server: the same host over
/// HTTP, without the path of the socket.
pub open spec fn web_address(url: Seq<char>) -> Seq<char> {
    trim_end_text(
        replaced_all(replaced_all(url, "wss://"@, "https://"@), "ws://"@, "http://"@),
        "/ws"@,
    )
}

/// The address of the administration, from those that are known.
pub open spec fn admin_address(
    webui: Option<Seq<char>>,
    paired: Option<Seq<char>>,
    server: Option<Seq<char>>,
) -> Seq<char> {
    match webui {
        Some(url) => url,
        None => match (paired, server) {
            (Some(url), _) => web_address(url),
            (None, Some(url)) => web_address(url),
            (None, None) => web_address(Seq::empty()),
        },
    }
}

/// The address of the administration: the configured one, or one that follows from the
/// server that the agent is paired with, or from the configured server.
pub fn admin_url(
    webui_url: &Option<String>,
    paired_url: &Option<String>,
    server_url: &Option<String>,
) -> (r: String)
    ensures
        r@ == admin_address(optional(*webui_url), optional(*paired_url), optional(*server_url)),
{
    match webui_url {
        Some(url) => url.clone(),
        None => {
            let url = match (paired_url, server_url) {
                (Some(url), _) => url.clone(),
                (None, Some(url)) => url.clone(),
                (None, None) => String::new(),
            };
            proof {
                reveal_strlit("wss://");
                reveal_strlit("ws://");
                reveal_strlit("/ws");
            }
            let a = chars_of(url.as_str());
            let b = with_replaced_all(&a, &chars_of("wss://"), &chars_of("https://"));
            let c = with_replaced_all(&b, &chars_of("ws://"), &chars_of("http://"));
            string_of(&trimmed_end_text(&c, &chars_of("/ws")))
        },
    }
}

/// The pauses between attempts that fail begin with five seconds and double up to five minutes; an
/// attempt that lasted for more than half a minute starts them anew.
pub proof fn law_pauses_double_up_to_five_minutes(next: u64, secs: u64, nanos: u32, pause: u64)
    requires
        next <= 300,
        pause <= 300,
    ensures
        secs < 30 || (secs == 30 && nanos == 0) ==> pause_now(next, secs, nanos) == next,
        secs > 30 || (secs == 30 && nanos > 0) ==> pause_now(next, secs, nanos) == 5,
        pause <= 150 ==> pause_next(pause) == pause + pause,
        pause > 150 ==> pause_next(pause) == 300,
        pause_after(0) == 5,
{
}

/// After so many failures in a row, the pause that is taken is the one of that many doublings.
pub proof fn law_failures_lengthen_the_pause(failures: nat, secs: u64, nanos: u32)
    requires
        secs < 30,
    ensures
        pause_next(pause_now(pause_after(failures) as u64, secs, nanos)) == pause_after(failures + 1),
{
    law_pauses_grow_to_the_longest(failures);
}

/// A machine that is bound to an account is wiped exactly where another one is configured; one that
/// is bound without an account is wiped where any is, and one that is not bound never is. White
/// space around an account and upper or lower case make no other account of it.
pub proof fn law_only_another_account_wipes(a: Seq<char>, b: Seq<char>, bound: Option<Option<Seq<char>>>)
    ensures
        !rebinds(None, bound),
        !rebinds(Some(a), None),
        rebinds(Some(a), Some(None)),
        rebinds(Some(a), Some(Some(b))) <==> lower(trim(a)) != lower(trim(b)),
{
}

/// An agent that is paired goes to its server, whatever is configured; one that is not goes to the
/// cloud exactly where an account is configured, and else looks for a server.
pub proof fn law_paired_agents_go_to_their_server(account: bool, url: Seq<char>)
    ensures
        route_of(true, account, url) == RouteView::Paired,
        route_of(false, true, url) == RouteView::Pair(url),
        route_of(false, false, url) == RouteView::Discover,
{
}

/// While pairing, only the acceptance pairs, and no message is handed on; while connected, a text
/// that takes the pairing back forgets it and ends the link, every other text is handed on, and
/// nothing pairs. A ping is answered in either case, and a close ends the link.
pub proof fn law_frames_have_their_reply(frame: Frame)
    ensures
        pairing_reply(frame) == FrameReply::Paired <==> frame == Frame::PairingAccepted,
        pairing_reply(frame) == FrameReply::Fail <==> frame == Frame::Close,
        pairing_reply(frame) != FrameReply::Deliver && pairing_reply(frame) != FrameReply::ForgetAndEnd,
        connected_reply(frame) == FrameReply::ForgetAndEnd <==> frame == Frame::Unpair,
        connected_reply(frame) == FrameReply::Deliver <==> frame == Frame::Text || frame == Frame::PairingAccepted,
        connected_reply(frame) == FrameReply::End <==> frame == Frame::Close,
        connected_reply(frame) != FrameReply::Paired && connected_reply(frame) != FrameReply::Fail,
        pairing_reply(frame) == FrameReply::Pong <==> frame == Frame::Ping,
        connected_reply(frame) == FrameReply::Pong <==> frame == Frame::Ping,
{
}

/// The characters of a pairing code are thirty-two capitals and digits, each once, without those
/// that are mistaken for each other.
pub proof fn law_code_characters_are_not_mistaken(c: char)
    ensures
        code_alphabet().len() == 32,
        code_alphabet().no_duplicates(),
        code_alphabet().contains(c) ==> (65 <= c as int <= 90 || 50 <= c as int <= 57) && c != 'I' && c != 'O',
{
    reveal_strlit("ABCDEFGHJKLMNPQRSTUVWXYZ23456789");
    if code_alphabet().contains(c) {
        let k = choose|k: int| 0 <= k < code_alphabet().len() && code_alphabet()[k] == c;
        assert(0 <= k < 32);
    }
}

/// The agent announces web filtering exactly where it is in force, and names the account that it is
/// bound to before the one that is configured.
pub proof fn law_abilities_are_announced(filtering: bool, bound: Seq<char>, configured: Option<Seq<char>>)
    ensures
        capabilities_of(filtering).contains("web_filter"@) <==> filtering,
        capabilities_of(filtering).contains("platform:windows"@),
        capabilities_of(filtering).contains("arch:x86_64"@),
        account_said(Some(bound), configured) == Some(bound),
        account_said(None, configured) == configured,
{
    reveal_strlit("web_filter");
    reveal_strlit("platform:windows");
    reveal_strlit("arch:x86_64");
    assert("web_filter"@.len() == 10 && "platform:windows"@.len() == 16 && "arch:x86_64"@.len() == 11);
    assert(capabilities_of(filtering)[0] == "platform:windows"@);
    assert(capabilities_of(filtering)[1] == "arch:x86_64"@);
    if filtering {
        assert(capabilities_of(filtering)[2] == "web_filter"@);
    }
}

/// The use that is sent is what is stored of each user and day; rows whose day cannot be read are
/// left out, and nothing is added.
pub proof fn law_stored_use_is_sent(rows: Seq<UsageRow>, uid: u32, days: i32, seconds: u64)
    ensures
        usage_entries_of(rows).contains(
            UsageEntry { local_uid: uid, date: Date { days }, used_seconds: seconds },
        ) <==> exists|i: int|
            0 <= i < rows.len() && (#[trigger] rows[i]).local_uid == uid && rows[i].used_seconds == seconds
                && date_value(rows[i].date@) == Some(days),
        usage_entries_of(rows).len() <= rows.len(),
    decreases rows.len(),
{
    let e = UsageEntry { local_uid: uid, date: Date { days }, used_seconds: seconds };
    if rows.len() > 0 {
        let front = rows.drop_last();
        law_stored_use_is_sent(front, uid, days, seconds);
        let before = usage_entries_of(front);
        let all = usage_entries_of(rows);
        assert(rows[rows.len() - 1] == rows.last());
        if all.contains(e) {
            let k = choose|k: int| 0 <= k < all.len() && all[k] == e;
            if k < before.len() {
                assert(before[k] == e);
                let i = choose|i: int|
                    0 <= i < front.len() && (#[trigger] front[i]).local_uid == uid && front[i].used_seconds == seconds
                        && date_value(front[i].date@) == Some(days);
                assert(rows[i] == front[i]);
            }
        }
        if exists|i: int|
            0 <= i < rows.len() && (#[trigger] rows[i]).local_uid == uid && rows[i].used_seconds == seconds
                && date_value(rows[i].date@) == Some(days) {
            let i = choose|i: int|
                0 <= i < rows.len() && (#[trigger] rows[i]).local_uid == uid && rows[i].used_seconds == seconds
                    && date_value(rows[i].date@) == Some(days);
            if i < front.len() {
                assert(front[i] == rows[i]);
                let k = choose|k: int| 0 <= k < before.len() && before[k] == e;
                assert(all[k] == e);
            } else {
                assert(all[before.len() as int] == e);
            }
        }
    }
}

/// A configured address of the administration counts before everything else; then the server that
/// the agent is paired with counts, and then the configured one.
pub proof fn law_the_configured_administration_comes_first(
    url: Seq<char>,
    paired: Option<Seq<char>>,
    server: Option<Seq<char>>,
)
    ensures
        admin_address(Some(url), paired, server) == url,
        admin_address(None, Some(url), server) == admin_address(None, None, Some(url)),
        admin_address(None, None, Some(url)) == web_address(url),
{
}

/// Where a text occurs nowhere, replacing it changes nothing.
proof fn lemma_nothing_to_replace(s: Seq<char>, from: Seq<char>, to: Seq<char>)
    requires
        from.len() > 0,
        forall|k: int| 0 <= k < s.len() ==> !starts_with(#[trigger] s.skip(k), from),
    ensures
        replaced_all(s, from, to) == s,
    decreases s.len(),
{
    if s.len() >= from.len() {
        assert(s.skip(0) =~= s);
        assert(!starts_with(s.skip(0), from));
        let rest = s.skip(1);
        assert forall|k: int| 0 <= k < rest.len() implies !starts_with(#[trigger] rest.skip(k), from) by {
            assert(rest.skip(k) =~= s.skip(k + 1));
        }
        lemma_nothing_to_replace(rest, from, to);
        assert(seq![s[0]] + rest =~= s);
    }
}

/// The address of the administration of a server on a host is that host over HTTP: over HTTPS where
/// the socket is encrypted.
pub proof fn law_the_administration_is_on_the_same_host(host: Seq<char>)
    requires
        host.len() > 2,
        !host.contains('/'),
    ensures
        web_address("wss://"@ + host + "/ws"@) == "https://"@ + host,
        web_address("ws://"@ + host + "/ws"@) == "http://"@ + host,
{
    reveal_strlit("wss://");
    reveal_strlit("ws://");
    reveal_strlit("https://");
    reveal_strlit("http://");
    reveal_strlit("/ws");
    let wss = "wss://"@;
    let ws = "ws://"@;
    let https = "https://"@;
    let http = "http://"@;
    let end = "/ws"@;
    let tail = host + end;
    lemma_no_slash(host);
    // No two slashes follow each other in what stands after the scheme.
    assert forall|k: int| 0 <= k < tail.len() implies !starts_with(#[trigger] tail.skip(k), wss) by {
        if starts_with(tail.skip(k), wss) {
            assert(tail.skip(k).take(6)[4] == '/' && tail.skip(k).take(6)[5] == '/');
            assert(tail[k + 4] == '/' && tail[k + 5] == '/');
        }
    }
    lemma_nothing_to_replace(tail, wss, https);
    let a = wss + host + end;
    assert(a =~= wss + tail);
    assert(a.take(6) =~= wss);
    assert(a.skip(6) =~= tail);
    assert(replaced_all(a, wss, https) == https + tail);
    let b = https + tail;
    assert forall|k: int| 0 <= k < b.len() implies !starts_with(#[trigger] b.skip(k), ws) by {
        if starts_with(b.skip(k), ws) {
            let front = b.skip(k).take(5);
            assert(front[0] == 'w' && front[3] == '/' && front[4] == '/');
            assert(b[k] == 'w' && b[k + 3] == '/' && b[k + 4] == '/');
            if k + 3 < 8 {
                assert(b[k] == https[k]);
            } else {
                assert(b[k + 3] == tail[k + 3 - 8] && b[k + 4] == tail[k + 4 - 8]);
            }
        }
    }
    lemma_nothing_to_replace(b, ws, http);
    lemma_cut_once(https, host);
    let c = ws + host + end;
    assert(c =~= ws + tail);
    assert forall|k: int| 0 <= k < c.len() implies !starts_with(#[trigger] c.skip(k), wss) by {
        if starts_with(c.skip(k), wss) {
            let front = c.skip(k).take(6);
            assert(front[0] == 'w' && front[1] == 's' && front[2] == 's' && front[4] == '/' && front[5] == '/');
            assert(c[k + 2] == 's' && c[k + 4] == '/' && c[k + 5] == '/');
            if k + 4 < 5 {
                assert(c[k + 2] == ws[k + 2]);
            } else {
                assert(c[k + 4] == tail[k + 4 - 5] && c[k + 5] == tail[k + 5 - 5]);
            }
        }
    }
    lemma_nothing_to_replace(c, wss, https);
    assert(c.take(5) =~= ws);
    assert(c.skip(5) =~= tail);
    assert forall|k: int| 0 <= k < tail.len() implies !starts_with(#[trigger] tail.skip(k), ws) by {
        if starts_with(tail.skip(k), ws) {
            assert(tail.skip(k).take(5)[3] == '/' && tail.skip(k).take(5)[4] == '/');
            assert(tail[k + 3] == '/' && tail[k + 4] == '/');
        }
    }
    lemma_nothing_to_replace(tail, ws, http);
    assert(replaced_all(c, ws, http) == http + tail);
    lemma_cut_once(http, host);
}

proof fn lemma_no_slash(host: Seq<char>)
    requires
        !host.contains('/'),
    ensures
        forall|i: int| 0 <= i < host.len() ==> #[trigger] host[i] != '/',
{
    assert forall|i: int| 0 <= i < host.len() implies #[trigger] host[i] != '/' by {
        assert(host.contains(host[i]));
    }
}

proof fn lemma_cut_once(scheme: Seq<char>, host: Seq<char>)
    requires
        host.len() > 2,
        !host.contains('/'),
    ensures
        trim_end_text(scheme + (host + "/ws"@), "/ws"@) == scheme + host,
{
    reveal_strlit("/ws");
    lemma_no_slash(host);
    reveal_with_fuel(trim_end_text, 3);
    let end = "/ws"@;
    let whole = scheme + (host + end);
    let short = scheme + host;
    assert(whole.skip(whole.len() - 3) =~= end);
    assert(ends_with(whole, end));
    assert(whole.take(whole.len() - 3) =~= short);
    assert(!ends_with(short, end)) by {
        if ends_with(short, end) {
            assert(short.skip(short.len() - 3)[0] == '/');
            assert(short[short.len() - 3] == host[host.len() - 3]);
        }
    }
}

/// Different draws give different codes: no draw is lost.
pub proof fn law_codes_tell_draws_apart(a: Seq<usize>, b: Seq<usize>)
    requires
        forall|i: int| 0 <= i < a.len() ==> #[trigger] a[i] < 32,
        forall|i: int| 0 <= i < b.len() ==> #[trigger] b[i] < 32,
        code_of(a) == code_of(b),
    ensures
        a == b,
{
    law_code_characters_are_not_mistaken('A');
    assert(code_of(a).len() == a.len() && code_of(b).len() == b.len());
    assert forall|i: int| 0 <= i < a.len() implies a[i] == b[i] by {
        assert(code_of(a)[i] == code_alphabet()[a[i] as int]);
        assert(code_of(b)[i] == code_alphabet()[b[i] as int]);
    }
    assert(a =~= b);
}

} // verus!
