//! The protocol by which a browser is driven: requests, replies and events.
use std::collections::{HashSet, VecDeque};

use vstd::prelude::*;

use crate::data;
use crate::data::{number_data, table, text_data, Data};
use crate::json;
use crate::json::{read_json, read_json_bytes, write_json};
use crate::launcher;
use crate::launcher::duration_text;
use crate::manage;
use crate::numeral;
use crate::numeral::dec_text;
use crate::repl;
use crate::text::{cat, copy_text, same};

verus! {

/// How long a reply is waited for, in milliseconds.
pub const DEFAULT_SEND_TIMEOUT: u64 = 10000;

/// What went wrong with the browser.
#[derive(Debug)]
pub enum CdpError {
    Connect(String),
    Ws(String),
    Json(String),
    /// No reply came in time; in milliseconds.
    Timeout(u64),
    Closed,
    /// The browser refused.
    Protocol { code: i64, message: String },
}

pub open spec fn signed(n: i64) -> Seq<char> {
    if n < 0 {
        "-"@ + numeral::dec((-n) as nat)
    } else {
        numeral::dec(n as nat)
    }
}

pub fn signed_text(n: i64) -> (r: String)
    ensures
        r@ == signed(n),
{
    let wide: i128 = n as i128;
    if wide < 0 {
        cat("-", &dec_text((-wide) as u64))
    } else {
        dec_text(wide as u64)
    }
}

pub open spec fn cdp_message(e: CdpError) -> Seq<char> {
    match e {
        CdpError::Connect(x) => "CDP 连接失败: "@ + x@,
        CdpError::Ws(x) => "WebSocket 错误: "@ + x@,
        CdpError::Json(x) => "JSON 错误: "@ + x@,
        CdpError::Timeout(ms) => "CDP 命令超时（"@ + launcher::shown_duration(ms) + "）"@,
        CdpError::Closed => "CDP 连接已关闭"@,
        CdpError::Protocol { code, message } => "CDP 协议错误 "@ + signed(code) + ": "@ + message@,
    }
}

impl CdpError {
    pub fn message(&self) -> (r: String)
        ensures
            r@ == cdp_message(*self),
    {
        match self {
            CdpError::Connect(x) => cat("CDP 连接失败: ", x),
            CdpError::Ws(x) => cat("WebSocket 错误: ", x),
            CdpError::Json(x) => cat("JSON 错误: ", x),
            CdpError::Timeout(ms) => cat(&cat("CDP 命令超时（", &duration_text(*ms)), "）"),
            CdpError::Closed => copy_text("CDP 连接已关闭"),
            CdpError::Protocol { code, message } => cat(
                &cat(&cat("CDP 协议错误 ", &signed_text(*code)), ": "),
                message,
            ),
        }
    }
}

// ── Frames ──────────────────────────────────────────────────────────────────

/// A request as it is sent.
pub open spec fn request_frame(
    id: u64,
    method: Seq<char>,
    params: data::DataView,
    session: Option<Seq<char>>,
) -> data::DataView {
    let head = seq![
        ("id"@, data::number(id)),
        ("method"@, data::DataView::Text(method)),
        ("params"@, params),
    ];
    data::DataView::Table(
        match session {
            Some(s) => head.push(("sessionId"@, data::DataView::Text(s))),
            None => head,
        },
    )
}

pub fn encode_request(id: u64, method: &str, params: &Data, session_id: Option<&str>) -> (r: Data)
    ensures
        r@ == request_frame(id, method@, params@, repl::str_text(session_id)),
{
    let mut e = vec![
        (copy_text("id"), number_data(id)),
        (copy_text("method"), text_data(method)),
        (copy_text("params"), params.copy()),
    ];
    if let Some(s) = session_id {
        e.push((copy_text("sessionId"), text_data(s)));
    }
    let r = table(e);
    assert(r@->Table_0 =~= request_frame(
        id,
        method@,
        params@,
        repl::str_text(session_id),
    )->Table_0);
    r
}

/// A frame that came in.
#[derive(Debug)]
pub enum IncomingFrame<S = String, D = Data> {
    /// The reply to a request.
    Response { id: u64, result: D, error: Option<(i64, S)> },
    Event { method: S, params: D, session_id: Option<S> },
}

pub type FrameView = IncomingFrame<Seq<char>, data::DataView>;

impl IncomingFrame {
    pub open spec fn view(&self) -> FrameView {
        match self {
            IncomingFrame::Response { id, result, error } => IncomingFrame::Response {
                id: *id,
                result: result@,
                error: match error {
                    Some((c, m)) => Some((*c, m@)),
                    None => None,
                },
            },
            IncomingFrame::Event { method, params, session_id } => IncomingFrame::Event {
                method: method@,
                params: params@,
                session_id: manage::opt_text(*session_id),
            },
        }
    }
}

pub open spec fn opt_frame(o: Option<IncomingFrame>) -> Option<FrameView> {
    match o {
        Some(f) => Some(f.view()),
        None => None,
    }
}

pub open spec fn or_null(o: Option<data::DataView>) -> data::DataView {
    match o {
        Some(d) => d,
        None => data::DataView::Null,
    }
}

/// The error of a reply.
pub open spec fn frame_error(v: data::DataView) -> Option<(i64, Seq<char>)> {
    match v.field("error"@) {
        None => None,
        Some(e) => Some(
            (
                match e.field("code"@) {
                    Some(c) => match c.whole() {
                        Some(n) => n,
                        None => -1i64,
                    },
                    None => -1i64,
                },
                match e.text_field("message"@) {
                    Some(m) => m,
                    None => "未知错误"@,
                },
            ),
        ),
    }
}

/// What a value is, seen as a frame: a reply if it has a number, an event if it has a
/// method.
pub open spec fn frame_of(v: data::DataView) -> Option<FrameView> {
    match v.unsigned_field("id"@) {
        Some(id) => Some(
            IncomingFrame::Response {
                id: id as u64,
                result: or_null(v.field("result"@)),
                error: frame_error(v),
            },
        ),
        None => match v.text_field("method"@) {
            Some(m) => Some(
                IncomingFrame::Event {
                    method: m,
                    params: or_null(v.field("params"@)),
                    session_id: v.text_field("sessionId"@),
                },
            ),
            None => None,
        },
    }
}

fn or_null_of(o: Option<&Data>) -> (r: Data)
    ensures
        r@ == or_null(data::opt_data(o)),
{
    match o {
        Some(d) => d.copy(),
        None => Data::Null,
    }
}

fn frame_error_of(v: &Data) -> (r: Option<(i64, String)>)
    ensures
        match r {
            Some((c, m)) => frame_error(v@) == Some((c, m@)),
            None => frame_error(v@) is None,
        },
{
    match v.field("error") {
        None => None,
        Some(e) => {
            let code: i64 = match e.field("code") {
                Some(c) => match c.whole() {
                    Some(n) => n,
                    None => -1,
                },
                None => -1,
            };
            let message = match e.text_field("message") {
                Some(m) => copy_text(m),
                None => copy_text("未知错误"),
            };
            Some((code, message))
        },
    }
}

pub fn parse_frame(v: &Data) -> (r: Option<IncomingFrame>)
    ensures
        opt_frame(r) == frame_of(v@),
{
    if let Some(id) = v.unsigned_field("id") {
        return Some(
            IncomingFrame::Response {
                id,
                result: or_null_of(v.field("result")),
                error: frame_error_of(v),
            },
        );
    }
    match v.text_field("method") {
        Some(m) => {
            let session_id = match v.text_field("sessionId") {
                Some(s) => Some(copy_text(s)),
                None => None,
            };
            Some(
                IncomingFrame::Event {
                    method: copy_text(m),
                    params: or_null_of(v.field("params")),
                    session_id,
                },
            )
        },
        None => None,
    }
}

// ── Events ──────────────────────────────────────────────────────────────────

/// An event of the browser.
#[derive(Debug)]
pub struct CdpEvent<S = String, D = Data> {
    pub method: S,
    pub params: D,
    pub session_id: Option<S>,
    /// Its number: later events have larger ones.
    pub seq: u64,
}

pub type EventView = CdpEvent<Seq<char>, data::DataView>;

impl CdpEvent {
    pub open spec fn view(&self) -> EventView {
        CdpEvent {
            method: self.method@,
            params: self.params@,
            session_id: manage::opt_text(self.session_id),
            seq: self.seq,
        }
    }
}

pub open spec fn event_views(v: Seq<CdpEvent>) -> Seq<EventView> {
    Seq::new(v.len(), |i: int| v[i].view())
}

/// What a test says of an event: `true` for those that are looked for.
pub open spec fn said<P: Fn(&CdpEvent) -> bool>(pred: P, e: CdpEvent, answer: bool) -> bool {
    call_ensures(pred, (&e,), answer)
}

/// Whether an event is old, or the test refuses it.
pub open spec fn passed_over<P: Fn(&CdpEvent) -> bool>(since: u64, pred: P, e: CdpEvent) -> bool {
    e.seq < since || said(pred, e, false)
}

/// An event is the first of the queue that is not old and that the test accepts.
pub open spec fn first_accepted<P: Fn(&CdpEvent) -> bool>(
    since: u64,
    pred: P,
    q: Seq<CdpEvent>,
    k: int,
) -> bool {
    &&& 0 <= k < q.len()
    &&& q[k].seq >= since
    &&& said(pred, q[k], true)
    &&& forall|j: int| 0 <= j < k ==> passed_over(since, pred, #[trigger] q[j])
}

// ── The connection ──────────────────────────────────────────────────────────

/// A connection to a browser: the requests that wait for a reply, and the events that
/// nobody has taken yet.
#[derive(Debug)]
pub struct CdpConnection {
    pub pending: HashSet<u64>,
    pub next_id: u64,
    pub queue: VecDeque<CdpEvent>,
    pub next_seq: u64,
    pub closed: bool,
}

pub struct ConnectionView {
    pub pending: Set<u64>,
    pub next_id: u64,
    pub queue: Seq<EventView>,
    pub next_seq: u64,
    pub closed: bool,
}

impl View for CdpConnection {
    type V = ConnectionView;

    open spec fn view(&self) -> ConnectionView {
        ConnectionView {
            pending: self.pending@,
            next_id: self.next_id,
            queue: event_views(self.queue@),
            next_seq: self.next_seq,
            closed: self.closed,
        }
    }
}

/// What a frame means.
#[derive(Debug)]
pub enum Dispatch {
    /// The request with this number is answered.
    Answer { id: u64, outcome: Result<Data, CdpError> },
    /// An event has come; who waits for one looks again.
    Event,
    /// A reply that nobody waits for, or no frame at all.
    Ignored,
}

/// The events behind a new one have larger numbers, and all are smaller than the next.
pub open spec fn in_sequence(c: ConnectionView) -> bool {
    &&& forall|i: int| 0 <= i < c.queue.len() ==> (#[trigger] c.queue[i]).seq < c.next_seq
    &&& forall|i: int, j: int|
        0 <= i < j < c.queue.len() ==> (#[trigger] c.queue[i]).seq < (#[trigger] c.queue[j]).seq
}

/// A frame is dealt with: the connection afterwards and what the frame means.
pub open spec fn dispatched(c: ConnectionView, v: data::DataView, after: ConnectionView, d: Dispatch) -> bool {
    match frame_of(v) {
        None => after == c && d is Ignored,
        Some(IncomingFrame::Response { id, result, error }) => if c.pending.contains(id) {
            &&& after == (ConnectionView { pending: c.pending.remove(id), ..c })
            &&& d matches Dispatch::Answer { id: i, outcome } && i == id && (match error {
                Some((code, message)) => outcome matches Err(
                    CdpError::Protocol { code: k, message: m },
                ) && k == code && m@ == message,
                None => outcome matches Ok(x) && x@ == result,
            })
        } else {
            after == c && d is Ignored
        },
        Some(IncomingFrame::Event { method, params, session_id }) => {
            &&& after == (ConnectionView {
                queue: c.queue.push(CdpEvent { method, params, session_id, seq: c.next_seq }),
                next_seq: (c.next_seq + 1) as u64,
                ..c
            })
            &&& d is Event
        },
    }
}

/// A request is made.
pub open spec fn requested(
    c: ConnectionView,
    method: Seq<char>,
    params: data::DataView,
    session: Option<Seq<char>>,
    after: ConnectionView,
    r: Result<(u64, String), CdpError>,
) -> bool {
    if c.closed {
        r matches Err(CdpError::Closed) && after == c
    } else {
        &&& r matches Ok((id, t)) && id == c.next_id && t@ == json::json_text(
            json::put_in(request_frame(id, method, params, session)),
        )
        &&& after == (ConnectionView {
            pending: c.pending.insert(c.next_id),
            next_id: if c.next_id == u64::MAX {
                0
            } else {
                (c.next_id + 1) as u64
            },
            ..c
        })
    }
}

/// The first event that is not old and that the test accepts is taken; without one,
/// nothing changes.
pub open spec fn took<P: Fn(&CdpEvent) -> bool>(
    since: u64,
    pred: P,
    c: CdpConnection,
    after: CdpConnection,
    r: Option<CdpEvent>,
) -> bool {
    match r {
        Some(e) => exists|k: int| #[trigger]
            first_accepted(since, pred, c.queue@, k) && e == c.queue@[k] && after@ == (
            ConnectionView { queue: c@.queue.remove(k), ..c@ }),
        None => after@ == c@ && forall|j: int|
            0 <= j < c.queue@.len() ==> passed_over(since, pred, #[trigger] c.queue@[j]),
    }
}

/// The event that came, the error once the time is over, or nothing as long as it has to be
/// waited for.
pub open spec fn waited<P: Fn(&CdpEvent) -> bool>(
    since: u64,
    pred: P,
    over: bool,
    timeout: u64,
    c: CdpConnection,
    after: CdpConnection,
    r: Option<Result<CdpEvent, CdpError>>,
) -> bool {
    match r {
        Some(Ok(e)) => took(since, pred, c, after, Some(e)),
        Some(Err(e)) => over && (e matches CdpError::Timeout(t) && t == timeout) && took(
            since,
            pred,
            c,
            after,
            None,
        ),
        None => !over && took(since, pred, c, after, None),
    }
}

impl CdpConnection {
    pub fn new() -> (c: CdpConnection)
        ensures
            c@ == (ConnectionView {
                pending: Set::empty(),
                next_id: 1,
                queue: Seq::empty(),
                next_seq: 0,
                closed: false,
            }),
    {
        let c = CdpConnection {
            pending: HashSet::new(),
            next_id: 1,
            queue: VecDeque::new(),
            next_seq: 0,
            closed: false,
        };
        assert(event_views(c.queue@) =~= Seq::empty());
        c
    }

    /// Makes a request: its number and the text to send. A closed connection takes none.
    pub fn request(&mut self, method: &str, params: &Data, session_id: Option<&str>) -> (r: Result<
        (u64, String),
        CdpError,
    >)
        ensures
            requested(
                old(self)@,
                method@,
                params@,
                repl::str_text(session_id),
                final(self)@,
                r,
            ),
    {
        if self.closed {
            return Err(CdpError::Closed);
        }
        let id: u64 = self.next_id;
        self.next_id = id.wrapping_add(1);
        self.pending.insert(id);
        let frame = encode_request(id, method, params, session_id);
        Ok((id, write_json(&frame)))
    }

    /// A request to the browser itself.
    pub fn send(&mut self, method: &str, params: &Data) -> (r: Result<(u64, String), CdpError>)
        ensures
            requested(old(self)@, method@, params@, None, final(self)@, r),
    {
        self.request(method, params, None)
    }

    /// A request to the page of a session.
    pub fn send_in_session(&mut self, method: &str, params: &Data, session_id: &str) -> (r: Result<
        (u64, String),
        CdpError,
    >)
        ensures
            requested(old(self)@, method@, params@, Some(session_id@), final(self)@, r),
    {
        self.request(method, params, Some(session_id))
    }

    /// Deals with a frame.
    pub fn dispatch_frame(&mut self, v: &Data) -> (d: Dispatch)
        requires
            old(self).next_seq < u64::MAX,
        ensures
            dispatched(old(self)@, v@, final(self)@, d),
    {
        match parse_frame(v) {
            None => Dispatch::Ignored,
            Some(IncomingFrame::Response { id, result, error }) => {
                if self.pending.remove(&id) {
                    let outcome = match error {
                        Some((code, message)) => Err(CdpError::Protocol { code, message }),
                        None => Ok(result),
                    };
                    Dispatch::Answer { id, outcome }
                } else {
                    assert(self.pending@ =~= old(self)@.pending);
                    Dispatch::Ignored
                }
            },
            Some(IncomingFrame::Event { method, params, session_id }) => {
                let ghost before = event_views(self.queue@);
                let e = CdpEvent { method, params, session_id, seq: self.next_seq };
                self.queue.push_back(e);
                assert(event_views(self.queue@) =~= before.push(e.view()));
                self.next_seq = self.next_seq + 1;
                Dispatch::Event
            },
        }
    }

    /// Takes a text that came in. One that is no JSON is ignored.
    pub fn receive(&mut self, t: &str) -> (d: Dispatch)
        requires
            old(self).next_seq < u64::MAX,
        ensures
            match json::json_value(t@) {
                Some(v) => dispatched(old(self)@, v, final(self)@, d),
                None => final(self)@ == old(self)@ && d is Ignored,
            },
    {
        match read_json(t) {
            Some(v) => self.dispatch_frame(&v),
            None => Dispatch::Ignored,
        }
    }

    /// Takes bytes that came in. What is no JSON is ignored.
    pub fn receive_bytes(&mut self, b: &Vec<u8>) -> (d: Dispatch)
        requires
            old(self).next_seq < u64::MAX,
        ensures
            match json::bytes_value(b@) {
                Some(v) => dispatched(old(self)@, v, final(self)@, d),
                None => final(self)@ == old(self)@ && d is Ignored,
            },
    {
        match read_json_bytes(b) {
            Some(v) => self.dispatch_frame(&v),
            None => Dispatch::Ignored,
        }
    }

    /// The number of the next event.
    pub fn event_seq(&self) -> (r: u64)
        ensures
            r == self.next_seq,
    {
        self.next_seq
    }

    fn take_since<P: Fn(&CdpEvent) -> bool>(&mut self, since: u64, pred: &P) -> (r: Option<
        CdpEvent,
    >)
        requires
            forall|e: CdpEvent| #[trigger] call_requires(*pred, (&e,)),
        ensures
            took(since, *pred, *old(self), *final(self), r),
    {
        let ghost q = self.queue@;
        let mut i: usize = 0;
        while i < self.queue.len()
            invariant
                i <= self.queue.len(),
                *self == *old(self),
                q == self.queue@,
                forall|e: CdpEvent| #[trigger] call_requires(*pred, (&e,)),
                forall|j: int| 0 <= j < i ==> passed_over(since, *pred, #[trigger] q[j]),
            decreases self.queue.len() - i,
        {
            if self.queue[i].seq >= since {
                let accepted = pred(&self.queue[i]);
                assert(said(*pred, q[i as int], accepted));
                if accepted {
                    assert(first_accepted(since, *pred, q, i as int));
                    let e = self.queue.remove(i);
                    assert(event_views(self.queue@) =~= event_views(q).remove(i as int));
                    return e;
                }
            }
            i = i + 1;
        }
        None
    }

    /// Takes the first event that a test accepts, if there is one.
    pub fn try_take_event<P: Fn(&CdpEvent) -> bool>(&mut self, pred: &P) -> (r: Option<CdpEvent>)
        requires
            forall|e: CdpEvent| #[trigger] call_requires(*pred, (&e,)),
        ensures
            took(0, *pred, *old(self), *final(self), r),
    {
        self.take_since(0, pred)
    }

    /// Waits for an event: looks again whenever one has come, until the time is over.
    pub fn wait_for_event<P: Fn(&CdpEvent) -> bool>(
        &mut self,
        pred: &P,
        over: bool,
        timeout: u64,
    ) -> (r: Option<Result<CdpEvent, CdpError>>)
        requires
            forall|e: CdpEvent| #[trigger] call_requires(*pred, (&e,)),
        ensures
            waited(0, *pred, over, timeout, *old(self), *final(self), r),
    {
        self.wait_for_event_since(0, pred, over, timeout)
    }

    /// Waits for an event whose number is not smaller than `since`.
    pub fn wait_for_event_since<P: Fn(&CdpEvent) -> bool>(
        &mut self,
        since: u64,
        pred: &P,
        over: bool,
        timeout: u64,
    ) -> (r: Option<Result<CdpEvent, CdpError>>)
        requires
            forall|e: CdpEvent| #[trigger] call_requires(*pred, (&e,)),
        ensures
            waited(since, *pred, over, timeout, *old(self), *final(self), r),
    {
        match self.take_since(since, pred) {
            Some(e) => Some(Ok(e)),
            None => if over {
                Some(Err(CdpError::Timeout(timeout)))
            } else {
                None
            },
        }
    }

    /// Takes all events.
    pub fn drain_events(&mut self) -> (r: Vec<CdpEvent>)
        ensures
            event_views(r@) == old(self)@.queue,
            final(self)@ == (ConnectionView { queue: Seq::empty(), ..old(self)@ }),
    {
        let mut r: Vec<CdpEvent> = Vec::new();
        let mut queue: VecDeque<CdpEvent> = VecDeque::new();
        core::mem::swap(&mut queue, &mut self.queue);
        assert(event_views(self.queue@) =~= Seq::empty());
        let ghost all = queue@;
        assert(all =~= r@ + queue@);
        while queue.len() > 0
            invariant
                all == r@ + queue@,
            decreases queue.len(),
        {
            if let Some(e) = queue.pop_front() {
                r.push(e);
                assert(all =~= r@ + queue@);
            }
        }
        assert(all =~= r@);
        r
    }

    /// Closes the connection: these requests will never be answered.
    pub fn fail_all_pending(&mut self) -> (r: HashSet<u64>)
        ensures
            r@ == old(self)@.pending,
            final(self)@ == (ConnectionView { pending: Set::empty(), closed: true, ..old(self)@ }),
    {
        let mut r: HashSet<u64> = HashSet::new();
        core::mem::swap(&mut r, &mut self.pending);
        self.closed = true;
        r
    }
}

/// What came of a request.
#[derive(Debug)]
pub enum ReplyEvent {
    Answered(Result<Data, CdpError>),
    /// Nobody will answer it any more.
    Dropped,
    /// So many milliseconds have passed.
    TimedOut(u64),
}

/// What a request gives.
pub fn reply(event: ReplyEvent) -> (r: Result<Data, CdpError>)
    ensures
        match event {
            ReplyEvent::Answered(o) => r == o,
            ReplyEvent::Dropped => r matches Err(CdpError::Closed),
            ReplyEvent::TimedOut(ms) => r matches Err(CdpError::Timeout(n)) && n == ms,
        },
{
    match event {
        ReplyEvent::Answered(o) => o,
        ReplyEvent::Dropped => Err(CdpError::Closed),
        ReplyEvent::TimedOut(ms) => Err(CdpError::Timeout(ms)),
    }
}

// ── What holds of every connection ──────────────────────────────────────────

/// Whatever comes in, events keep their order: a later one has a larger number.
pub proof fn frames_keep_sequence(c: ConnectionView, v: data::DataView, after: ConnectionView, d: Dispatch)
    requires
        in_sequence(c),
        c.next_seq < u64::MAX,
        dispatched(c, v, after, d),
    ensures
        in_sequence(after),
{
}

/// A request is answered at most once: its number no longer waits afterwards.
pub proof fn answers_come_once(c: ConnectionView, v: data::DataView, after: ConnectionView, d: Dispatch)
    requires
        dispatched(c, v, after, d),
    ensures
        d matches Dispatch::Answer { id, .. } ==> c.pending.contains(id) && !after.pending.contains(
            id,
        ),
{
}

/// What is sent under a number is answered under that number: a reply to a request is read
/// as one with the same number.
pub proof fn reply_carries_the_number(id: u64, result: data::DataView)
    ensures
        frame_of(
            data::DataView::Table(seq![("id"@, data::number(id)), ("result"@, result)]),
        ) == Some(FrameView::Response { id, result, error: None }),
{
    reveal_strlit("id");
    reveal_strlit("result");
    reveal_strlit("error");
    let t = seq![("id"@, data::number(id)), ("result"@, result)];
    data::number_reads_back(id);
    assert(t.drop_first() =~= seq![("result"@, result)]);
    assert(t.drop_first().drop_first() =~= Seq::empty());
    assert("id"@.len() != "result"@.len());
    assert("id"@.len() != "error"@.len());
    assert("result"@.len() != "error"@.len());
    reveal_with_fuel(data::entry_value, 4);
    assert(data::entry_value(t, "error"@) is None);
    assert(data::entry_value(t, "result"@) == Some(result));
    assert(data::entry_value(t, "id"@) == Some(data::number(id)));
}

/// After the connection has been closed nothing is sent, and nobody waits.
pub proof fn closed_takes_no_request(
    c: ConnectionView,
    method: Seq<char>,
    params: data::DataView,
    session: Option<Seq<char>>,
    after: ConnectionView,
    r: Result<(u64, String), CdpError>,
)
    requires
        c.closed,
        requested(c, method, params, session, after, r),
    ensures
        r matches Err(CdpError::Closed),
        after == c,
{
}

/// Two requests that are made one after the other have different numbers, and both wait.
pub proof fn requests_are_told_apart(
    c: ConnectionView,
    m1: Seq<char>,
    p1: data::DataView,
    s1: Option<Seq<char>>,
    mid: ConnectionView,
    r1: Result<(u64, String), CdpError>,
    m2: Seq<char>,
    p2: data::DataView,
    s2: Option<Seq<char>>,
    after: ConnectionView,
    r2: Result<(u64, String), CdpError>,
)
    requires
        !c.closed,
        requested(c, m1, p1, s1, mid, r1),
        requested(mid, m2, p2, s2, after, r2),
    ensures
        (r1->Ok_0).0 != (r2->Ok_0).0,
        after.pending.contains((r1->Ok_0).0),
        after.pending.contains((r2->Ok_0).0),
{
}

/// A reply that is waited for is handed to who waits: its result, or the error that it carries.
/// A reply that nobody waits for changes nothing.
pub proof fn replies_are_handed_over(
    c: ConnectionView,
    v: data::DataView,
    after: ConnectionView,
    d: Dispatch,
    id: u64,
    x: data::DataView,
)
    requires
        dispatched(c, v, after, d),
        v.unsigned_field("id"@) == Some(id as nat),
    ensures
        after.queue == c.queue && after.next_seq == c.next_seq && after.closed == c.closed,
        c.pending.contains(id) ==> after.pending == c.pending.remove(id) && match d {
            Dispatch::Answer { id: i, outcome } => {
                &&& i == id
                &&& v.field("error"@) is None && v.field("result"@) == Some(x) ==> match outcome {
                    Ok(y) => y@ == x,
                    Err(_) => false,
                }
                &&& match v.field("error"@) {
                    Some(e) => match outcome {
                        Err(CdpError::Protocol { code, message }) => {
                            &&& match e.field("code"@) {
                                Some(n) => n is Int ==> code == n->Int_0,
                                None => code == -1,
                            }
                            &&& e.text_field("message"@) is Some ==> message@ == e.text_field(
                                "message"@,
                            )->0
                        },
                        _ => false,
                    },
                    None => true,
                }
            },
            _ => false,
        },
        !c.pending.contains(id) ==> after == c && d is Ignored,
{
}

/// An event waits behind those that came before it, with what it carries, under a number of its
/// own.
pub proof fn events_wait_in_order(
    c: ConnectionView,
    v: data::DataView,
    after: ConnectionView,
    d: Dispatch,
    m: Seq<char>,
    p: data::DataView,
)
    requires
        dispatched(c, v, after, d),
        v.unsigned_field("id"@) is None,
        v.text_field("method"@) == Some(m),
        v.field("params"@) == Some(p),
        c.next_seq < u64::MAX,
    ensures
        d is Event,
        after.pending == c.pending,
        after.queue.len() == c.queue.len() + 1,
        after.queue.drop_last() == c.queue,
        after.queue.last().method == m,
        after.queue.last().params == p,
        after.queue.last().session_id == v.text_field("sessionId"@),
        after.queue.last().seq == c.next_seq,
        after.next_seq == c.next_seq + 1,
{
    assert(after.queue.drop_last() =~= c.queue);
}

/// A request carries its number, its method, its parameters and, where there is one, the
/// session that it is for.
pub proof fn requests_carry_what_they_ask(
    id: u64,
    method: Seq<char>,
    params: data::DataView,
    session: Option<Seq<char>>,
)
    ensures
        ({
            let f = request_frame(id, method, params, session);
            &&& id <= i64::MAX ==> f.unsigned_field("id"@) == Some(id as nat)
            &&& f.text_field("method"@) == Some(method)
            &&& f.field("params"@) == Some(params)
            &&& f.text_field("sessionId"@) == session
        }),
{
    reveal_strlit("id");
    reveal_strlit("method");
    reveal_strlit("params");
    reveal_strlit("sessionId");
    assert("method"@[0] == 'm' && "params"@[0] == 'p');
    reveal_with_fuel(data::entry_value, 5);
    let f = request_frame(id, method, params, session);
    let t = f->Table_0;
    assert(t[0].0 == "id"@ && t[1].0 == "method"@ && t[2].0 == "params"@);
    let u = t.drop_first();
    let w = u.drop_first();
    let x = w.drop_first();
    assert(u[0] == t[1] && w[0] == t[2]);
    match session {
        Some(s) => {
            assert(x[0] == t[3]);
            assert(t.len() == 4 && t[3].0 == "sessionId"@);
        },
        None => {
            assert(t.len() == 3);
        },
    }
}

} // verus!
