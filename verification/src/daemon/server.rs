//! The daemon's side of a connection.

use crate::text::{
    is_blank, is_space, join2, trim_end, trimmed_end, trimming_the_end_takes_off_the_end,
};
use vstd::prelude::*;

verus! {

/// `Value` of serde_json: a JSON value. Nothing inside it is looked at here.
#[verifier::external_type_specification]
#[verifier::external_body]
pub struct ExValue(serde_json::Value);

/// A request sent from an IPC client to the daemon.
#[derive(Debug)]
pub struct IpcRequest {
    pub cmd: String,
    pub args: serde_json::Value,
}

/// A response sent from the daemon back to the IPC client.
#[derive(Debug)]
pub struct IpcResponse {
    pub ok: bool,
    pub data: Option<serde_json::Value>,
    pub error: Option<String>,
}

/// Whether a response reports success, with `data`.
pub open spec fn is_success(r: IpcResponse, data: serde_json::Value) -> bool {
    r.ok && r.data == Some(data) && r.error is None
}

/// Whether a response reports the failure `msg`.
pub open spec fn is_failure(r: IpcResponse, msg: Seq<char>) -> bool {
    !r.ok && r.data is None && (r.error matches Some(e) && e@ == msg)
}

impl IpcResponse {
    pub fn ok(data: serde_json::Value) -> (r: Self)
        ensures
            is_success(r, data),
    {
        IpcResponse { ok: true, data: Some(data), error: None }
    }

    pub fn err(msg: &str) -> (r: Self)
        ensures
            is_failure(r, msg@),
    {
        IpcResponse { ok: false, data: None, error: Some(msg.to_owned()) }
    }
}

/// A message with the end of the line behind it.
pub open spec fn framed(message: Seq<u8>) -> Seq<u8> {
    message.push(10)
}

/// Messages are lines: puts the end of the line behind a message.
pub fn frame(message: Vec<u8>) -> (r: Vec<u8>)
    ensures
        r@ == framed(message@),
{
    let mut r = message;
    r.push(10);
    r
}

/// What a connection waits for.
#[derive(Debug, Clone, Copy, PartialEq, Eq, Structural)]
pub enum Connection {
    /// The next line.
    Reading,
    /// The line to be parsed.
    Parsing,
    /// The request to be handed to the daemon.
    Dispatching,
    /// The daemon's reply.
    Awaiting,
    /// The response to be written. It is the last one, or it is only if it cannot be written.
    Answering { last: bool, last_if_failed: bool },
    Closed,
}

/// What happened on a connection.
#[derive(Debug)]
pub enum ConnectionEvent {
    /// A line came in.
    Line(String),
    /// The other side has closed.
    Eof,
    /// Reading failed.
    ReadFailed,
    /// The line was a request.
    Parsed(IpcRequest),
    /// The line was none, and why.
    Unparsable(String),
    /// The daemon took the request.
    Dispatched,
    /// The daemon takes no requests.
    Unavailable,
    /// The daemon's reply.
    Replied(IpcResponse),
    /// The daemon will not reply.
    NoReply,
    /// The response was written.
    Written,
    /// The response could not be written.
    WriteFailed,
}

/// What to do on a connection.
#[derive(Debug)]
pub enum ConnectionAction {
    Read,
    Parse(String),
    Dispatch(IpcRequest),
    Await,
    Respond(IpcResponse),
    Close,
}

impl Connection {
    /// Whether the event is one that the connection waits for.
    pub open spec fn takes(&self, e: ConnectionEvent) -> bool {
        match *self {
            Connection::Reading => e is Line || e is Eof || e is ReadFailed,
            Connection::Parsing => e is Parsed || e is Unparsable,
            Connection::Dispatching => e is Dispatched || e is Unavailable,
            Connection::Awaiting => e is Replied || e is NoReply,
            Connection::Answering { .. } => e is Written || e is WriteFailed,
            Connection::Closed => false,
        }
    }
}

/// Whether an action responds with the failure `msg`.
pub open spec fn responds_failure(a: ConnectionAction, msg: Seq<char>) -> bool {
    a matches ConnectionAction::Respond(r) && is_failure(r, msg)
}

/// Whether the event leads the connection to the next state and action. Blank lines are passed
/// over. A line that is no request is answered, and the connection goes on, even if the answer
/// cannot be written; where the daemon is gone, the connection ends with the answer.
pub open spec fn is_turn(
    st: Connection,
    e: ConnectionEvent,
    next: Connection,
    a: ConnectionAction,
) -> bool {
    match (st, e) {
        (Connection::Reading, ConnectionEvent::Line(line)) => if trimmed_end(line@).len() == 0 {
            next is Reading && a is Read
        } else {
            next is Parsing && (a matches ConnectionAction::Parse(t) && t@ == trimmed_end(line@))
        },
        (Connection::Parsing, ConnectionEvent::Parsed(request)) => next is Dispatching && (a
            matches ConnectionAction::Dispatch(q) && q == request),
        (Connection::Parsing, ConnectionEvent::Unparsable(why)) => responds_failure(
            a,
            "parse error: "@ + why@,
        ) && next == (Connection::Answering { last: false, last_if_failed: false }),
        (Connection::Dispatching, ConnectionEvent::Dispatched) => next is Awaiting && a is Await,
        (Connection::Dispatching, ConnectionEvent::Unavailable) => responds_failure(
            a,
            "daemon unavailable"@,
        ) && next == (Connection::Answering { last: true, last_if_failed: true }),
        (Connection::Awaiting, ConnectionEvent::Replied(response)) => next == (
        Connection::Answering { last: false, last_if_failed: true }) && (a
            matches ConnectionAction::Respond(r) && r == response),
        (Connection::Awaiting, ConnectionEvent::NoReply) => responds_failure(
            a,
            "no reply from daemon"@,
        ) && next == (Connection::Answering { last: true, last_if_failed: true }),
        (Connection::Answering { last, .. }, ConnectionEvent::Written) => if last {
            next is Closed && a is Close
        } else {
            next is Reading && a is Read
        },
        (Connection::Answering { last_if_failed, .. }, ConnectionEvent::WriteFailed) => if last_if_failed {
            next is Closed && a is Close
        } else {
            next is Reading && a is Read
        },
        _ => next is Closed && a is Close,
    }
}

impl Connection {
    /// A new connection.
    pub fn start() -> (r: (Self, ConnectionAction))
        ensures
            r.0 is Reading,
            r.1 is Read,
    {
        (Connection::Reading, ConnectionAction::Read)
    }

    /// Takes an event in.
    pub fn next(self, e: ConnectionEvent) -> (r: (Self, ConnectionAction))
        requires
            self.takes(e),
        ensures
            is_turn(self, e, r.0, r.1),
    {
        match (self, e) {
            (Connection::Reading, ConnectionEvent::Line(line)) => {
                let text = trim_end(line.as_str());
                if text.unicode_len() == 0 {
                    (Connection::Reading, ConnectionAction::Read)
                } else {
                    (Connection::Parsing, ConnectionAction::Parse(text))
                }
            },
            (Connection::Parsing, ConnectionEvent::Parsed(request)) => (
                Connection::Dispatching,
                ConnectionAction::Dispatch(request),
            ),
            (Connection::Parsing, ConnectionEvent::Unparsable(why)) => (
                Connection::Answering { last: false, last_if_failed: false },
                ConnectionAction::Respond(
                    IpcResponse::err(join2("parse error: ", why.as_str()).as_str()),
                ),
            ),
            (Connection::Dispatching, ConnectionEvent::Dispatched) => (
                Connection::Awaiting,
                ConnectionAction::Await,
            ),
            (Connection::Dispatching, ConnectionEvent::Unavailable) => (
                Connection::Answering { last: true, last_if_failed: true },
                ConnectionAction::Respond(IpcResponse::err("daemon unavailable")),
            ),
            (Connection::Awaiting, ConnectionEvent::Replied(response)) => (
                Connection::Answering { last: false, last_if_failed: true },
                ConnectionAction::Respond(response),
            ),
            (Connection::Awaiting, ConnectionEvent::NoReply) => (
                Connection::Answering { last: true, last_if_failed: true },
                ConnectionAction::Respond(IpcResponse::err("no reply from daemon")),
            ),
            (Connection::Answering { last, .. }, ConnectionEvent::Written) => {
                if last {
                    (Connection::Closed, ConnectionAction::Close)
                } else {
                    (Connection::Reading, ConnectionAction::Read)
                }
            },
            (Connection::Answering { last_if_failed, .. }, ConnectionEvent::WriteFailed) => {
                if last_if_failed {
                    (Connection::Closed, ConnectionAction::Close)
                } else {
                    (Connection::Reading, ConnectionAction::Read)
                }
            },
            _ => (Connection::Closed, ConnectionAction::Close),
        }
    }
}

// ---------------------------------------------------------------------------
// Laws
// ---------------------------------------------------------------------------

/// Whether a line that came in still waits for its response.
pub open spec fn owes_response(st: Connection) -> bool {
    st is Parsing || st is Dispatching || st is Awaiting
}

/// Every line that is not blank gets exactly one response: the connection owes one from the line
/// on until it responds, responds only when it owes one, and does not read on or close before.
pub proof fn every_request_gets_one_response(
    st: Connection,
    e: ConnectionEvent,
    next: Connection,
    a: ConnectionAction,
)
    requires
        st.takes(e),
        is_turn(st, e, next, a),
    ensures
        a is Respond <==> owes_response(st) && !owes_response(next),
        owes_response(st) ==> !(a is Read) && !(a is Close),
        !owes_response(st) && owes_response(next) ==> (e matches ConnectionEvent::Line(line)
            && trimmed_end(line@).len() > 0),
{
}

/// A message reads back from its line, unless it ends in white space itself.
pub proof fn messages_read_back(message: Seq<char>)
    requires
        message.len() == 0 || !is_space(message.last()),
    ensures
        trimmed_end(message.push('\n')) == message,
{
    let line = message.push('\n');
    assert(line.drop_last() =~= message);
    assert(line.last() == '\n' && is_space('\n'));
    assert(trimmed_end(line) == trimmed_end(message));
}

/// What a connection does with a line: a blank one is passed over, and of any other the text is
/// parsed, without the white space at its end.
pub proof fn blank_lines_are_passed_over(line: String, next: Connection, a: ConnectionAction)
    requires
        is_turn(Connection::Reading, ConnectionEvent::Line(line), next, a),
    ensures
        is_blank(line@) ==> a is Read && next is Reading,
        !is_blank(line@) ==> (a matches ConnectionAction::Parse(t) && t@ == trimmed_end(line@)
            && t@.len() > 0) && next is Parsing,
{
    trimming_the_end_takes_off_the_end(line@);
}

/// A request goes to the daemon as it came, and its reply goes back as it came. What cannot be
/// answered so is answered with the reason.
pub proof fn requests_and_replies_are_passed_on(
    st: Connection,
    e: ConnectionEvent,
    next: Connection,
    a: ConnectionAction,
)
    requires
        st.takes(e),
        is_turn(st, e, next, a),
    ensures
        e matches ConnectionEvent::Parsed(q) ==> a == ConnectionAction::Dispatch(q) && next
            is Dispatching,
        e matches ConnectionEvent::Replied(r) ==> a == ConnectionAction::Respond(r),
        e is Dispatched ==> a is Await && next is Awaiting,
        e matches ConnectionEvent::Unparsable(why) ==> (a matches ConnectionAction::Respond(r) && !r.ok
            && r.data is None && (r.error matches Some(t) && t@ == "parse error: "@ + why@)),
        e is Unavailable ==> (a matches ConnectionAction::Respond(r) && !r.ok && r.data is None && (
        r.error matches Some(t) && t@ == "daemon unavailable"@)),
        e is NoReply ==> (a matches ConnectionAction::Respond(r) && !r.ok && r.data is None && (
        r.error matches Some(t) && t@ == "no reply from daemon"@)),
        a is Dispatch ==> e is Parsed,
        a is Parse ==> e is Line,
{
}

/// A connection outlives a request that could be answered, and a line that is no request. It is
/// closed only if the other side is gone, if the daemon is, or if a reply cannot be written.
pub proof fn connections_stay_open(
    st: Connection,
    e: ConnectionEvent,
    next: Connection,
    a: ConnectionAction,
    f: ConnectionEvent,
    then: Connection,
    b: ConnectionAction,
)
    requires
        st.takes(e),
        is_turn(st, e, next, a),
        a is Respond,
        next.takes(f),
        is_turn(next, f, then, b),
    ensures
        f is Written && (e is Replied || e is Unparsable) ==> b is Read && then is Reading,
        f is WriteFailed && e is Unparsable ==> b is Read && then is Reading,
        e is Unavailable || e is NoReply || (e is Replied && f is WriteFailed) ==> b is Close && then
            is Closed,
{
}

/// A message is a line: all of it, and a line feed, so that different messages are different
/// lines.
pub proof fn messages_are_lines(a: Seq<u8>, b: Seq<u8>)
    ensures
        framed(a).drop_last() == a,
        framed(a).last() == 10,
        framed(a) == framed(b) ==> a == b,
{
    assert(framed(a).drop_last() =~= a);
    assert(framed(b).drop_last() =~= b);
}

/// A response is a success with data, or a failure with a reason, and never both.
pub proof fn responses_are_clear(
    r: IpcResponse,
    data: serde_json::Value,
    s: IpcResponse,
    msg: Seq<char>,
)
    requires
        is_success(r, data),
        is_failure(s, msg),
    ensures
        r.ok,
        r.data == Some(data),
        r.error is None,
        !s.ok,
        s.data is None,
        s.error matches Some(t) && t@ == msg,
        r != s,
{
}

} // verus!
