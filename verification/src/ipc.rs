//! What the session helper is told. The helper may request its own status only;
//! identity comes from the pipe peer, never from a message.
use vstd::prelude::*;

use crate::text::same;

verus! {

/// The name of the pipe between the service and its helpers.
pub const PIPE_NAME: &'static str = "\\\\.\\pipe\\ScreenGuard.Session.v1";

/// The largest frame that the helper reads, its end included.
pub const MAX_FRAME: usize = 16384;

/// A message for the user, numbered so that it is shown once.
#[derive(Clone, Debug)]
pub struct Notification {
    pub id: u64,
    pub title: String,
    pub body: String,
}

/// What a notification says.
pub struct NotificationView {
    pub id: u64,
    pub title: Seq<char>,
    pub body: Seq<char>,
}

impl View for Notification {
    type V = NotificationView;

    open spec fn view(&self) -> NotificationView {
        NotificationView { id: self.id, title: self.title@, body: self.body@ }
    }
}

impl Notification {
    /// Another notification that says the same.
    pub fn copy(&self) -> (r: Notification)
        ensures
            r@ == self@,
    {
        Notification { id: self.id, title: self.title.clone(), body: self.body.clone() }
    }
}

/// What the helper of a session is told.
#[derive(Clone, Debug)]
pub struct SessionStatus {
    pub remaining_seconds: Option<i64>,
    pub blocked: bool,
    pub online: bool,
    pub language: String,
    pub admin_url: String,
    pub proxy_port: Option<u16>,
    pub notification: Option<Notification>,
}

/// What a session status says.
pub struct SessionStatusView {
    pub remaining_seconds: Option<i64>,
    pub blocked: bool,
    pub online: bool,
    pub language: Seq<char>,
    pub admin_url: Seq<char>,
    pub proxy_port: Option<u16>,
    pub notification: Option<NotificationView>,
}

/// What an optional notification says.
pub open spec fn notification_view(n: Option<Notification>) -> Option<NotificationView> {
    match n {
        Some(m) => Some(m@),
        None => None,
    }
}

impl View for SessionStatus {
    type V = SessionStatusView;

    open spec fn view(&self) -> SessionStatusView {
        SessionStatusView {
            remaining_seconds: self.remaining_seconds,
            blocked: self.blocked,
            online: self.online,
            language: self.language@,
            admin_url: self.admin_url@,
            proxy_port: self.proxy_port,
            notification: notification_view(self.notification),
        }
    }
}

/// The status of a session about which nothing is known: nothing is blocked and no
/// proxy is in use.
pub open spec fn no_status() -> SessionStatusView {
    SessionStatusView {
        remaining_seconds: None,
        blocked: false,
        online: false,
        language: Seq::empty(),
        admin_url: Seq::empty(),
        proxy_port: None,
        notification: None,
    }
}

impl Default for SessionStatus {
    fn default() -> (r: SessionStatus)
        ensures
            r@ == no_status(),
    {
        SessionStatus {
            remaining_seconds: None,
            blocked: false,
            online: false,
            language: String::new(),
            admin_url: String::new(),
            proxy_port: None,
            notification: None,
        }
    }
}

impl SessionStatus {
    /// Another status that says the same.
    pub fn copy(&self) -> (r: SessionStatus)
        ensures
            r@ == self@,
    {
        SessionStatus {
            remaining_seconds: self.remaining_seconds,
            blocked: self.blocked,
            online: self.online,
            language: self.language.clone(),
            admin_url: self.admin_url.clone(),
            proxy_port: self.proxy_port,
            notification: match &self.notification {
                Some(n) => Some(n.copy()),
                None => None,
            },
        }
    }
}

/// The status of a session, under the identity of the process that may ask for it: its
/// user and its session.
#[derive(Debug)]
pub struct StatusEntry {
    pub sid: String,
    pub session: u32,
    pub status: SessionStatus,
}

/// The last status that is kept for an identity; no status where there is none.
pub open spec fn status_of(entries: Seq<StatusEntry>, sid: Seq<char>, session: u32) -> SessionStatusView
    decreases entries.len(),
{
    if entries.len() == 0 {
        no_status()
    } else if entries.last().sid@ == sid && entries.last().session == session {
        entries.last().status@
    } else {
        status_of(entries.drop_last(), sid, session)
    }
}

/// The answer to a process: the status of its own user and session, and of no other.
pub fn status_for(entries: &Vec<StatusEntry>, sid: &str, session: u32) -> (r: SessionStatus)
    ensures
        r@ == status_of(entries@, sid@, session),
{
    let mut i: usize = entries.len();
    assert(entries@.take(i as int) == entries@);
    while i > 0
        invariant
            i <= entries.len(),
            status_of(entries@.take(i as int), sid@, session) == status_of(entries@, sid@, session),
        decreases i,
    {
        assert(entries@.take(i as int).drop_last() == entries@.take(i - 1));
        let e = &entries[i - 1];
        if same(e.sid.as_str(), sid) && e.session == session {
            return e.status.copy();
        }
        i -= 1;
    }
    SessionStatus::default()
}

/// A process is told what is kept for its own user and session, or nothing: never what is
/// kept for another.
pub proof fn law_status_is_that_of_the_asker(entries: Seq<StatusEntry>, sid: Seq<char>, session: u32)
    ensures
        status_of(entries, sid, session) == no_status() || exists|i: int|
            0 <= i < entries.len() && (#[trigger] entries[i]).sid@ == sid && entries[i].session == session
                && entries[i].status@ == status_of(entries, sid, session),
    decreases entries.len(),
{
    if entries.len() > 0 {
        if entries.last().sid@ == sid && entries.last().session == session {
            assert(entries[entries.len() - 1] == entries.last());
        } else {
            let front = entries.drop_last();
            law_status_is_that_of_the_asker(front, sid, session);
            if status_of(front, sid, session) != no_status() {
                let i = choose|i: int|
                    0 <= i < front.len() && (#[trigger] front[i]).sid@ == sid && front[i].session == session
                        && front[i].status@ == status_of(front, sid, session);
                assert(entries[i] == front[i]);
            }
        }
    }
}

/// The one request that the service accepts.
pub open spec fn status_request() -> Seq<u8> {
    seq![115u8, 116, 97, 116, 117, 115, 10]
}

/// Whether a request is the literal `status` and an end of line. Nothing else is
/// accepted from a helper.
pub fn is_status_request(request: &[u8]) -> (r: bool)
    ensures
        r == (request@ == status_request()),
{
    if request.len() != 7 {
        return false;
    }
    let r = request[0] == 115 && request[1] == 116 && request[2] == 97 && request[3] == 116 && request[4] == 117
        && request[5] == 115 && request[6] == 10;
    assert(r ==> request@ == status_request());
    r
}

/// A frame: the bytes of a value and an end of line.
pub open spec fn framed(body: Seq<u8>) -> Seq<u8> {
    body.push(10)
}

/// A frame: the bytes of a value and an end of line.
pub fn frame(body: Vec<u8>) -> (r: Vec<u8>)
    ensures
        r@ == framed(body@),
{
    let mut out = body;
    out.push(10);
    out
}

/// Whether the peer of the pipe is the service that Windows has registered, running.
pub open spec fn is_service_peer(pipe_pid: u32, service_pid: u32, running: bool) -> bool {
    pipe_pid == service_pid && running
}

/// Whether the peer of the pipe is the service that Windows has registered, running.
pub fn peer_is_service(pipe_pid: u32, service_pid: u32, running: bool) -> (r: bool)
    ensures
        r == is_service_peer(pipe_pid, service_pid, running),
{
    service_pid == pipe_pid && running
}

/// The bytes of a frame that have been read.
pub struct FrameReader {
    bytes: Vec<u8>,
}

/// What a reader does next.
#[derive(Clone, Copy, Debug, PartialEq, Eq, Structural)]
pub enum FrameStep {
    /// Read one more byte.
    More,
    /// The frame is complete.
    Done,
    /// The frame is larger than allowed.
    TooLarge,
}

/// What to do after so many bytes of a body were read.
pub open spec fn step_after(bytes: Seq<u8>) -> FrameStep {
    if bytes.len() < MAX_FRAME {
        FrameStep::More
    } else {
        FrameStep::TooLarge
    }
}

/// What a reader has after one more byte, and what it does next: an end of line completes the
/// frame, any other byte belongs to the body.
pub open spec fn fed(bytes: Seq<u8>, byte: u8) -> (Seq<u8>, FrameStep) {
    if byte == 10 {
        (bytes, FrameStep::Done)
    } else {
        (bytes.push(byte), step_after(bytes.push(byte)))
    }
}

impl View for FrameReader {
    type V = Seq<u8>;

    closed spec fn view(&self) -> Seq<u8> {
        self.bytes@
    }
}

impl FrameReader {
    /// A reader that has read nothing.
    pub fn new() -> (r: FrameReader)
        ensures
            r@ == Seq::<u8>::empty(),
    {
        FrameReader { bytes: Vec::new() }
    }

    /// Takes the next byte: an end of line completes the frame, any other byte belongs to
    /// the body.
    pub fn feed(&mut self, byte: u8) -> (r: FrameStep)
        ensures
            (final(self)@, r) == fed(old(self)@, byte),
    {
        if byte == 10 {
            FrameStep::Done
        } else {
            self.bytes.push(byte);
            if self.bytes.len() < MAX_FRAME {
                FrameStep::More
            } else {
                FrameStep::TooLarge
            }
        }
    }

    /// The body that was read.
    pub fn into_body(self) -> (r: Vec<u8>)
        ensures
            r@ == self@,
    {
        self.bytes
    }
}

/// What a reader has after a series of bytes, and what it does next.
pub open spec fn read_all(bytes: Seq<u8>) -> (Seq<u8>, FrameStep)
    decreases bytes.len(),
{
    if bytes.len() == 0 {
        (Seq::empty(), FrameStep::More)
    } else {
        let (body, step) = read_all(bytes.drop_last());
        if step != FrameStep::More {
            (body, step)
        } else {
            fed(body, bytes.last())
        }
    }
}

/// Reading a frame gives back the body that was framed, provided that the body holds no
/// end of line and is shorter than the largest frame.
pub proof fn law_frame_round_trip(body: Seq<u8>)
    requires
        body.len() < MAX_FRAME,
        !body.contains(10),
    ensures
        read_all(framed(body)) == (body, FrameStep::Done),
{
    lemma_read_body(body);
    assert(body.push(10).drop_last() == body);
}

proof fn lemma_read_body(body: Seq<u8>)
    requires
        body.len() < MAX_FRAME,
        !body.contains(10),
    ensures
        read_all(body) == (body, FrameStep::More),
    decreases body.len(),
{
    if body.len() > 0 {
        let front = body.drop_last();
        assert(!front.contains(10)) by {
            if front.contains(10) {
                let i = choose|i: int| 0 <= i < front.len() && front[i] == 10;
                assert(body[i] == 10);
            }
        }
        lemma_read_body(front);
        assert(body.last() != 10) by {
            assert(body[body.len() - 1] == body.last());
        }
        assert(front.push(body.last()) == body);
    } else {
        assert(body == Seq::<u8>::empty());
    }
}

/// A reader never holds more than the largest frame.
pub proof fn law_reader_is_bounded(bytes: Seq<u8>)
    ensures
        read_all(bytes).0.len() <= MAX_FRAME,
        read_all(bytes).1 == FrameStep::More ==> read_all(bytes).0.len() < MAX_FRAME,
    decreases bytes.len(),
{
    if bytes.len() > 0 {
        law_reader_is_bounded(bytes.drop_last());
    }
}

/// A process is told the last status that is kept for its user and session, and where none is kept
/// that nothing is known: no time, no block, no link, no proxy and no message.
pub proof fn law_the_last_status_counts(entries: Seq<StatusEntry>, sid: Seq<char>, session: u32, i: int)
    requires
        -1 <= i < entries.len(),
        i >= 0 ==> entries[i].sid@ == sid && entries[i].session == session,
        forall|k: int| i < k < entries.len() ==> (#[trigger] entries[k]).sid@ != sid || entries[k].session != session,
    ensures
        i >= 0 ==> status_of(entries, sid, session) == entries[i].status@,
        i == -1 ==> {
            let none = status_of(entries, sid, session);
            &&& none.remaining_seconds is None && !none.blocked && !none.online
            &&& none.proxy_port is None && none.notification is None
            &&& none.language.len() == 0 && none.admin_url.len() == 0
        },
    decreases entries.len(),
{
    if entries.len() > 0 && i < entries.len() - 1 {
        let front = entries.drop_last();
        assert(entries[entries.len() - 1].sid@ != sid || entries[entries.len() - 1].session != session);
        assert forall|k: int| i < k < front.len() implies (#[trigger] front[k]).sid@ != sid || front[k].session
            != session by {
            assert(entries[k].sid@ != sid || entries[k].session != session);
        }
        if i >= 0 {
            assert(front[i] == entries[i]);
        }
        law_the_last_status_counts(front, sid, session, i);
    }
}

/// The one request that is accepted is the word `status` and an end of line, in ASCII.
pub proof fn law_the_request_is_a_word(i: int)
    requires
        0 <= i < 6,
    ensures
        status_request().len() == 7,
        status_request()[i] as int == "status"@[i] as int,
        status_request()[6] == 10,
{
    reveal_strlit("status");
}

/// The peer is taken for the service exactly where it is the registered process and that runs.
pub proof fn law_only_the_registered_service_is_believed(pipe_pid: u32, service_pid: u32)
    ensures
        !is_service_peer(pipe_pid, service_pid, false),
        is_service_peer(pipe_pid, service_pid, true) <==> pipe_pid == service_pid,
{
}

/// A frame without an end of line is read on up to 16383 bytes and given up with the next one.
pub proof fn law_frames_are_given_up_when_too_large(bytes: Seq<u8>, byte: u8)
    requires
        byte != 10,
    ensures
        fed(bytes, byte).0 == bytes.push(byte),
        fed(bytes, byte).1 == FrameStep::More <==> bytes.len() + 1 < 16384,
        fed(bytes, byte).1 == FrameStep::TooLarge <==> bytes.len() + 1 >= 16384,
        fed(bytes, 10) == (bytes, FrameStep::Done),
{
}

} // verus!
