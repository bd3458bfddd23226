//! The per-connection SMTP state machine.
//!
//! A `Session` interprets the commands that arrive in the receive buffer,
//! consults the handler, queues replies in the send buffer and tells the
//! connection what to do next through an [`Action`].
use vstd::prelude::*;
use vstd::string::StringSliceAdditionalSpecFns;
use crate::buf::{first_data_end, RecvBuf, SendBuf};
use crate::command::{parse_command, parse_spec, Command, CommandView};
use crate::data::{unstuff, unstuff_chunk, unstuff_state, DotState};
use crate::handler::{Handler, Hesitant};
use crate::params::{MailParamsView, RcptParamsView};
use crate::scribe::{decimal, decimal_digits, lemma_decimal_digits};
use crate::reply::{
    code_ok, crlf, is_reply_stream, no_lf, lemma_empty_stream, lemma_stream_concat, lemma_stream_push, line_of,
    model_ok, render, reply_bytes, single_line, Reply, ReplyBuf, ReplyModel, Status,
};

verus! {

//------------ Action ---------------------------------------------------------

/// What the connection is to do next.
#[derive(PartialEq, Eq, Structural, Clone, Copy, Debug)]
pub enum Action {
    /// Read data.
    Read,
    /// Wait to be woken up.
    Wait,
    /// Write all data, then continue reading.
    Write,
    /// If the receive buffer holds more data, go on parsing it right away;
    /// otherwise write all data, then continue reading.
    Collect,
    /// Write all data, then start a TLS handshake, then continue reading.
    StartTls,
    /// Write all data, then close the connection.
    Close,
}

//------------ State ----------------------------------------------------------

/// How far a session has come outside of a pending decision.
#[derive(PartialEq, Eq, Structural, Clone, Copy, Debug)]
pub enum Level {
    /// No HELO or EHLO yet.
    Early,
    /// Greeted, no mail transaction.
    Greeted,
    /// In a mail transaction with this many accepted recipients.
    Mail(u64),
}

/// The progress through the message data.
#[derive(PartialEq, Eq, Structural, Clone, Copy, Debug)]
pub struct ReadData {
    /// Where in a line the next byte falls.
    pub dot: DotState,
    /// How many bytes of data have been passed on so far.
    pub size: u64,
}

/// The decision a session is waiting for.
#[derive(PartialEq, Eq, Structural, Clone, Copy, Debug)]
pub enum Pending {
    Start,
    Helo,
    Ehlo,
    Mail,
    /// A recipient, with the count of those accepted before.
    Rcpt(u64),
    /// DATA, with the count of accepted recipients.
    Data(u64),
    Vrfy(Level),
    Expn(Level),
    Help(Level),
    CheckTls,
    /// The end of the data; false if it was over the size limit.
    Complete(bool),
}

#[derive(PartialEq, Eq, Structural, Clone, Copy, Debug)]
pub enum State {
    /// A command is next.
    Idle(Level),
    /// Waiting for the handler to decide.
    Wait(Pending),
    /// Reading message data.
    Data(ReadData),
    /// Waiting for a QUIT.
    Dead,
}

//------------ Config ---------------------------------------------------------

/// What a server announces and enforces.
pub struct Config {
    hostname: Vec<u8>,
    systemname: Vec<u8>,
    size_limit: u64,
}

impl Config {
    /// The names go into replies, so they hold no line feed.
    #[verifier::type_invariant]
    closed spec fn inv(&self) -> bool {
        no_lf(self.hostname@) && no_lf(self.systemname@)
    }

    pub closed spec fn spec_hostname(&self) -> Seq<u8> {
        self.hostname@
    }

    pub closed spec fn spec_systemname(&self) -> Seq<u8> {
        self.systemname@
    }

    pub closed spec fn spec_limit(&self) -> u64 {
        self.size_limit
    }

    pub fn new(hostname: Vec<u8>, systemname: Vec<u8>, message_size_limit: u64) -> (r: Config)
        requires
            no_lf(hostname@),
            no_lf(systemname@),
        ensures
            r.spec_hostname() == hostname@,
            r.spec_systemname() == systemname@,
            r.spec_limit() == message_size_limit,
    {
        Config { hostname, systemname, size_limit: message_size_limit }
    }

    pub fn hostname(&self) -> (r: &[u8])
        ensures
            r@ == self.spec_hostname(),
    {
        self.hostname.as_slice()
    }

    pub fn systemname(&self) -> (r: &[u8])
        ensures
            r@ == self.spec_systemname(),
    {
        self.systemname.as_slice()
    }

    pub fn message_size_limit(&self) -> (r: u64)
        ensures
            r == self.spec_limit(),
    {
        self.size_limit
    }
}

//------------ Specification of the steps -------------------------------------

/// A one-line reply with a status code and a text ended by CRLF.
pub open spec fn canned(code: u16, status: Status, text: Seq<u8>) -> Seq<u8> {
    reply_bytes(code, Some(status), seq![line_of(text)])
}

pub open spec fn hello_first() -> Seq<u8> {
    canned(503, (5, 5, 1), "Please say 'Hello' first\r\n".spec_bytes())
}

pub open spec fn need_mail() -> Seq<u8> {
    canned(503, (5, 5, 1), "Need MAIL command first\r\n".spec_bytes())
}

pub open spec fn need_rcpt() -> Seq<u8> {
    canned(503, (5, 5, 1), "Need RCPT command first\r\n".spec_bytes())
}

pub open spec fn nested_mail() -> Seq<u8> {
    canned(503, (5, 5, 1), "Nested MAIL command\r\n".spec_bytes())
}

pub open spec fn leave_now() -> Seq<u8> {
    canned(503, (5, 5, 1), "Please leave now\r\n".spec_bytes())
}

pub open spec fn ok_reply() -> Seq<u8> {
    canned(250, (2, 0, 0), "Ok\r\n".spec_bytes())
}

pub open spec fn bye() -> Seq<u8> {
    canned(221, (2, 0, 0), "Bye\r\n".spec_bytes())
}

pub open spec fn unrecognized() -> Seq<u8> {
    canned(500, (5, 5, 2), "Unrecognized command.\r\n".spec_bytes())
}

pub open spec fn parameter_error() -> Seq<u8> {
    canned(501, (5, 5, 4), "Error in command parameters.\r\n".spec_bytes())
}

pub open spec fn ready_tls() -> Seq<u8> {
    canned(220, (2, 7, 0), "Ready to start TLS\r\n".spec_bytes())
}

/// The reply that the session gives on its own, without the handler, to a
/// command at a level; `None` where the handler is asked.
pub open spec fn core_reply(l: Level, c: CommandView, sec: bool) -> Option<Seq<u8>> {
    match c {
        CommandView::Mail(_, _) => match l {
            Level::Early => Some(hello_first()),
            Level::Greeted => None,
            Level::Mail(_) => Some(nested_mail()),
        },
        CommandView::Rcpt(_, _) => match l {
            Level::Early => Some(hello_first()),
            Level::Greeted => Some(need_mail()),
            Level::Mail(_) => None,
        },
        CommandView::Data => match l {
            Level::Early => Some(hello_first()),
            Level::Greeted => Some(need_mail()),
            Level::Mail(n) => if n == 0 {
                Some(need_rcpt())
            } else {
                None
            },
        },
        CommandView::Rset => Some(ok_reply()),
        CommandView::Noop => Some(ok_reply()),
        CommandView::Quit => Some(bye()),
        CommandView::StartTls => if sec {
            Some(unrecognized())
        } else {
            Some(ready_tls())
        },
        CommandView::Auth(_) => Some(unrecognized()),
        CommandView::Bdat(_) => Some(unrecognized()),
        CommandView::Unrecognized => Some(unrecognized()),
        CommandView::ParameterError => Some(parameter_error()),
        _ => None,
    }
}

pub open spec fn accepted(o: Option<Hesitant<bool>>) -> bool {
    o == Some(Hesitant::Final(true))
}

pub open spec fn rejected(o: Option<Hesitant<bool>>) -> bool {
    o == Some(Hesitant::Final(false))
}

pub open spec fn decided(o: Option<Hesitant<bool>>) -> bool {
    o matches Some(Hesitant::Final(_))
}

pub open spec fn start_step(o: Option<Hesitant<bool>>) -> (State, Action) {
    if accepted(o) {
        (State::Idle(Level::Early), Action::Write)
    } else if rejected(o) {
        (State::Dead, Action::Close)
    } else {
        (State::Wait(Pending::Start), Action::Wait)
    }
}

pub open spec fn hello_step(o: Option<Hesitant<bool>>, p: Pending) -> (State, Action) {
    if accepted(o) {
        (State::Idle(Level::Greeted), Action::Write)
    } else if rejected(o) {
        (State::Dead, Action::Close)
    } else {
        (State::Wait(p), Action::Wait)
    }
}

pub open spec fn mail_step(o: Option<Hesitant<bool>>) -> (State, Action) {
    if accepted(o) {
        (State::Idle(Level::Mail(0)), Action::Collect)
    } else if rejected(o) {
        (State::Idle(Level::Greeted), Action::Collect)
    } else {
        (State::Wait(Pending::Mail), Action::Wait)
    }
}

pub open spec fn one_more(n: u64) -> u64 {
    if n < u64::MAX {
        (n + 1) as u64
    } else {
        n
    }
}

pub open spec fn rcpt_step(n: u64, o: Option<Hesitant<bool>>) -> (State, Action) {
    if accepted(o) {
        (State::Idle(Level::Mail(one_more(n))), Action::Collect)
    } else if rejected(o) {
        (State::Idle(Level::Greeted), Action::Collect)
    } else {
        (State::Wait(Pending::Rcpt(n)), Action::Wait)
    }
}

pub open spec fn data_step(n: u64, o: Option<Hesitant<bool>>) -> (State, Action) {
    if accepted(o) {
        (State::Data(ReadData { dot: DotState::LineStart, size: 0 }), Action::Write)
    } else if rejected(o) {
        (State::Idle(Level::Greeted), Action::Write)
    } else {
        (State::Wait(Pending::Data(n)), Action::Wait)
    }
}

/// VRFY, EXPN and HELP keep the level.
pub open spec fn ancillary_step(l: Level, o: Option<Hesitant<bool>>, p: Pending) -> (State, Action) {
    if decided(o) {
        (State::Idle(l), Action::Write)
    } else {
        (State::Wait(p), Action::Wait)
    }
}

pub open spec fn tls_step(o: Option<Hesitant<bool>>) -> (State, Action) {
    if accepted(o) {
        (State::Idle(Level::Early), Action::Read)
    } else if rejected(o) {
        (State::Dead, Action::Read)
    } else {
        (State::Wait(Pending::CheckTls), Action::Wait)
    }
}

pub open spec fn complete_step(ok: bool, o: Option<Hesitant<bool>>) -> (State, Action) {
    if decided(o) {
        (State::Idle(Level::Greeted), Action::Collect)
    } else {
        (State::Wait(Pending::Complete(ok)), Action::Wait)
    }
}

/// The level after RSET.
pub open spec fn reset_level(l: Level) -> Level {
    match l {
        Level::Early => Level::Early,
        _ => Level::Greeted,
    }
}

/// The next state and action after command `c` at level `l`, where `o` is
/// what the handler decided if it was asked.
pub open spec fn idle_step(l: Level, c: CommandView, sec: bool, o: Option<Hesitant<bool>>) -> (
    State,
    Action,
) {
    match c {
        CommandView::Helo(_) => hello_step(o, Pending::Helo),
        CommandView::Ehlo(_) => hello_step(o, Pending::Ehlo),
        CommandView::Mail(_, _) => match l {
            Level::Greeted => mail_step(o),
            _ => (State::Idle(l), Action::Collect),
        },
        CommandView::Rcpt(_, _) => match l {
            Level::Mail(n) => rcpt_step(n, o),
            _ => (State::Idle(l), Action::Collect),
        },
        CommandView::Data => match l {
            Level::Mail(n) => if n == 0 {
                (State::Idle(l), Action::Write)
            } else {
                data_step(n, o)
            },
            _ => (State::Idle(l), Action::Write),
        },
        CommandView::Rset => (State::Idle(reset_level(l)), Action::Collect),
        CommandView::Vrfy(_, _) => ancillary_step(l, o, Pending::Vrfy(l)),
        CommandView::Expn(_, _) => ancillary_step(l, o, Pending::Expn(l)),
        CommandView::Help(_) => ancillary_step(l, o, Pending::Help(l)),
        CommandView::Quit => (State::Dead, Action::Close),
        CommandView::StartTls => if sec {
            (State::Idle(l), Action::Write)
        } else {
            (State::Idle(l), Action::StartTls)
        },
        _ => (State::Idle(l), Action::Write),
    }
}

/// The next state and action after the deferred decision `p` came out as
/// `o`.
pub open spec fn wake_step(p: Pending, o: Option<Hesitant<bool>>) -> (State, Action) {
    match p {
        Pending::Start => start_step(o),
        Pending::Helo => hello_step(o, Pending::Helo),
        Pending::Ehlo => hello_step(o, Pending::Ehlo),
        Pending::Mail => mail_step(o),
        Pending::Rcpt(n) => rcpt_step(n, o),
        Pending::Data(n) => data_step(n, o),
        Pending::Vrfy(l) => ancillary_step(l, o, p),
        Pending::Expn(l) => ancillary_step(l, o, p),
        Pending::Help(l) => ancillary_step(l, o, p),
        Pending::CheckTls => tls_step(o),
        Pending::Complete(ok) => complete_step(ok, o),
    }
}

/// The reply to a command once the session has ended, after the handler
/// refused the client: only QUIT is served.
pub open spec fn dead_reply(c: CommandView) -> Seq<u8> {
    match c {
        CommandView::Quit => bye(),
        CommandView::Rset => ok_reply(),
        CommandView::Unrecognized => unrecognized(),
        CommandView::ParameterError => parameter_error(),
        _ => leave_now(),
    }
}

/// Where the message data in `s` ends, in state `d`: the length of the
/// data before the end marker, and how much the data and the marker take.
/// At the very start of the data the CRLF that ended the DATA line counts,
/// so `"." CRLF` alone ends an empty message.
pub open spec fn data_end(s: Seq<u8>, d: ReadData) -> Option<(int, int)> {
    if d.size == 0 && d.dot == DotState::LineStart && s.len() >= 3 && s[0] == 46u8 && s[1] == 13u8
        && s[2] == 10u8 {
        Some((0, 3))
    } else {
        match first_data_end(s) {
            Some(i) => Some((i, i + 5)),
            None => None,
        }
    }
}

/// How many bytes of message data are passed on when no end of data is in
/// sight: all but the last four, which may be the start of the end.
pub open spec fn forwardable(len: int) -> int {
    if len > 4 {
        len - 4
    } else {
        0
    }
}

pub open spec fn add_size(size: u64, n: int) -> u64 {
    if size + n <= u64::MAX {
        (size + n) as u64
    } else {
        u64::MAX
    }
}

/// A call that the session makes on its handler, with what it hands over.
pub ghost enum Call {
    Start,
    Hello(Seq<u8>),
    CheckTls,
    Mail(Seq<u8>, MailParamsView),
    Recipient(Seq<u8>, RcptParamsView),
    Data,
    Reset,
    Chunk(Seq<u8>),
    Complete(bool),
    Verify(Seq<u8>),
    Expand(Seq<u8>),
    Help(Option<Seq<u8>>),
    Wakeup,
}

pub open spec fn go_ahead() -> Seq<u8> {
    reply_bytes(354, None, seq![line_of("Go ahead.\r\n".spec_bytes())])
}

pub open spec fn mail_failed() -> Seq<u8> {
    canned(554, (5, 5, 0), "Mail failed\r\n".spec_bytes())
}

pub open spec fn refused() -> Seq<u8> {
    canned(554, (5, 5, 0), "Connection refused.\r\n".spec_bytes())
}

/// The reply to a refused HELO or EHLO.
pub open spec fn hello_refused() -> Seq<u8> {
    reply_bytes(550, None, seq![line_of("Rejected for policy reasons\r\n".spec_bytes())])
}

/// The session's own reply when the handler rejected without writing one.
pub open spec fn rejected_reply() -> Seq<u8> {
    canned(550, (5, 7, 1), "Rejected for policy reasons\r\n".spec_bytes())
}

pub open spec fn too_big() -> Seq<u8> {
    canned(552, (5, 3, 4), "Message size exceeds fixed limit\r\n".spec_bytes())
}

pub open spec fn line_too_long() -> Seq<u8> {
    canned(500, (5, 5, 6), "Line too long\r\n".spec_bytes())
}

/// What is queued after a decision where the handler may write the reply:
/// what it wrote, or, if it wrote nothing, 250 on acceptance and 550 on
/// rejection; nothing while it defers.
pub open spec fn emitted(r: Hesitant<bool>, written: Seq<u8>) -> Seq<u8> {
    if written.len() > 0 {
        written
    } else {
        match r {
            Hesitant::Final(true) => ok_reply(),
            Hesitant::Final(false) => rejected_reply(),
            Hesitant::Defer => Seq::empty(),
        }
    }
}

/// What is queued when the decision `p` comes out as `r`, the handler
/// having written `written`.
pub open spec fn own_reply(
    p: Pending,
    r: Hesitant<bool>,
    written: Seq<u8>,
    host: Seq<u8>,
    system: Seq<u8>,
    limit: u64,
    sec: bool,
) -> Seq<u8> {
    match p {
        Pending::Start => match r {
            Hesitant::Final(true) => greeting(host, system),
            Hesitant::Final(false) => refused(),
            Hesitant::Defer => Seq::empty(),
        },
        Pending::Helo => match r {
            Hesitant::Final(true) => hello_reply(host, limit, false, sec),
            Hesitant::Final(false) => hello_refused(),
            Hesitant::Defer => Seq::empty(),
        },
        Pending::Ehlo => match r {
            Hesitant::Final(true) => hello_reply(host, limit, true, sec),
            Hesitant::Final(false) => hello_refused(),
            Hesitant::Defer => Seq::empty(),
        },
        Pending::Data(_) => match r {
            Hesitant::Final(true) => go_ahead(),
            Hesitant::Final(false) => mail_failed(),
            Hesitant::Defer => Seq::empty(),
        },
        Pending::CheckTls => Seq::empty(),
        Pending::Complete(ok) => if ok {
            emitted(r, written)
        } else {
            match r {
                Hesitant::Defer => Seq::empty(),
                _ => too_big(),
            }
        },
        _ => emitted(r, written),
    }
}

/// The decision that command `c` at level `l` asks of the handler, if any.
pub open spec fn consulted(l: Level, c: CommandView) -> Option<Pending> {
    match c {
        CommandView::Helo(_) => Some(Pending::Helo),
        CommandView::Ehlo(_) => Some(Pending::Ehlo),
        CommandView::Mail(_, _) => if l == Level::Greeted {
            Some(Pending::Mail)
        } else {
            None
        },
        CommandView::Rcpt(_, _) => match l {
            Level::Mail(n) => Some(Pending::Rcpt(n)),
            _ => None,
        },
        CommandView::Data => match l {
            Level::Mail(n) => if n > 0 {
                Some(Pending::Data(n))
            } else {
                None
            },
            _ => None,
        },
        CommandView::Vrfy(_, _) => Some(Pending::Vrfy(l)),
        CommandView::Expn(_, _) => Some(Pending::Expn(l)),
        CommandView::Help(_) => Some(Pending::Help(l)),
        _ => None,
    }
}

/// A reset of the handler if a mail transaction is open.
pub open spec fn reset_if(l: Level) -> Seq<Call> {
    if l is Mail {
        seq![Call::Reset]
    } else {
        Seq::empty()
    }
}

/// The handler calls that command `c` at level `l` makes, in order.
pub open spec fn command_calls(l: Level, c: CommandView) -> Seq<Call> {
    match c {
        CommandView::Helo(d) => reset_if(l).push(Call::Hello(d)),
        CommandView::Ehlo(d) => reset_if(l).push(Call::Hello(d)),
        CommandView::Mail(p, q) => if l == Level::Greeted {
            seq![Call::Mail(p, q)]
        } else {
            Seq::empty()
        },
        CommandView::Rcpt(p, q) => if l is Mail {
            seq![Call::Recipient(p, q)]
        } else {
            Seq::empty()
        },
        CommandView::Data => match l {
            Level::Mail(n) => if n > 0 {
                seq![Call::Data]
            } else {
                Seq::empty()
            },
            _ => Seq::empty(),
        },
        CommandView::Rset => reset_if(l),
        CommandView::Quit => reset_if(l),
        CommandView::Vrfy(w, _) => seq![Call::Verify(w)],
        CommandView::Expn(w, _) => seq![Call::Expand(w)],
        CommandView::Help(w) => seq![Call::Help(w)],
        _ => Seq::empty(),
    }
}

/// The handler calls at the end of message data: the data before the end
/// marker, unstuffed, a period still held back, and the completion.
pub open spec fn end_calls(s: Seq<u8>, d: ReadData, i: int, m: int, limit: u64) -> Seq<Call> {
    if m == 3 {
        seq![Call::Complete(true)]
    } else {
        let body = s.take(i);
        seq![Call::Chunk(unstuff(body, d.dot))] + unstuff_end_calls(unstuff_state(body, d.dot))
            + seq![Call::Complete(add_size(d.size, i) <= limit)]
    }
}

/// A period held back at the end of the data is passed on by itself.
pub open spec fn unstuff_end_calls(st: DotState) -> Seq<Call> {
    if st == DotState::Dot {
        seq![Call::Chunk(seq![46u8])]
    } else {
        Seq::empty()
    }
}

/// The reply in `o`, or nothing.
pub open spec fn reply_or_empty(o: Option<Seq<u8>>) -> Seq<u8> {
    match o {
        Some(b) => b,
        None => Seq::empty(),
    }
}

/// The decision recorded in `o`; a missing one counts as deferred.
pub open spec fn decision(o: Option<Hesitant<bool>>) -> Hesitant<bool> {
    match o {
        Some(r) => r,
        None => Hesitant::Defer,
    }
}

/// The handler call when message data arrives with no end marker in
/// sight: all but the last four bytes, unstuffed, if there are any.
pub open spec fn data_calls(s: Seq<u8>, d: ReadData) -> Seq<Call> {
    let k = forwardable(s.len() as int);
    if k > 0 {
        seq![Call::Chunk(unstuff(s.take(k), d.dot))]
    } else {
        Seq::empty()
    }
}

/// What one call of `Session::receive` does: session `s0` with receive
/// buffer `r0` and send buffer `b0` becomes `s1`, `r1` and `b1`, and the
/// connection is told `a`.
pub open spec fn receive_post<H: Handler>(
    s0: Session<H>,
    s1: Session<H>,
    r0: Seq<u8>,
    r1: Seq<u8>,
    b0: SendBuf,
    b1: SendBuf,
    sec: bool,
    a: Action,
) -> bool {
    let (host, system, limit) = s0.spec_config();
    &&& replies_added(b0, b1)
    &&& s1.spec_config() == s0.spec_config()
    &&& match s0.spec_state() {
        State::Wait(_) => {
            &&& a == Action::Wait
            &&& s1.spec_state() == s0.spec_state()
            &&& s1.calls() == s0.calls()
            &&& r1 == r0
            &&& b1 == b0
        },
        State::Idle(l) => match parse_spec(r0) {
            None => if r0.len() > MAX_COMMAND_LINE {
                &&& a == Action::Close
                &&& s1.spec_state() == State::Dead
                &&& r1 == Seq::<u8>::empty()
                &&& b1.contents() == b0.contents() + line_too_long()
                &&& s1.calls() == s0.calls() + reset_if(l)
            } else {
                &&& a == Action::Read
                &&& s1.spec_state() == s0.spec_state()
                &&& s1.calls() == s0.calls()
                &&& r1 == r0
                &&& b1 == b0
            },
            Some((c, n)) => {
                &&& r1 == r0.skip(n)
                &&& (s1.spec_state(), a) == idle_step(l, c, sec, s1.outcome())
                &&& s1.calls() == s0.calls() + command_calls(l, c)
                &&& match consulted(l, c) {
                    None => core_reply(l, c, sec) is Some && b1.contents() == b0.contents()
                        + reply_or_empty(core_reply(l, c, sec)),
                    Some(p) => s1.outcome() is Some && b1.contents() == b0.contents() + own_reply(
                        p,
                        decision(s1.outcome()),
                        s1.written(),
                        host,
                        system,
                        limit,
                        sec,
                    ),
                }
            },
        },
        State::Dead => {
            &&& s1.spec_state() == State::Dead
            &&& s1.calls() == s0.calls()
            &&& match parse_spec(r0) {
                None => if r0.len() > MAX_COMMAND_LINE {
                    &&& a == Action::Close
                    &&& r1 == Seq::<u8>::empty()
                    &&& b1.contents() == b0.contents() + line_too_long()
                } else {
                    &&& a == Action::Read
                    &&& r1 == r0
                    &&& b1 == b0
                },
                Some((c, n)) => {
                    &&& r1 == r0.skip(n)
                    &&& b1.contents() == b0.contents() + dead_reply(c)
                    &&& a == if c == CommandView::Quit {
                        Action::Close
                    } else {
                        Action::Write
                    }
                },
            }
        },
        State::Data(d) => match data_end(r0, d) {
            Some((i, m)) => {
                &&& r1 == r0.skip(m)
                &&& (s1.spec_state(), a) == complete_step(add_size(d.size, i) <= limit, s1.outcome())
                &&& s1.calls() == s0.calls() + end_calls(r0, d, i, m, limit)
                &&& s1.outcome() is Some
                &&& b1.contents() == b0.contents() + own_reply(
                    Pending::Complete(add_size(d.size, i) <= limit),
                    decision(s1.outcome()),
                    s1.written(),
                    host,
                    system,
                    limit,
                    sec,
                )
            },
            None => {
                let k = forwardable(r0.len() as int);
                &&& a == Action::Read
                &&& b1 == b0
                &&& r1 == r0.skip(k)
                &&& s1.spec_state() == State::Data(
                    ReadData { dot: unstuff_state(r0.take(k), d.dot), size: add_size(d.size, k) },
                )
                &&& s1.calls() == s0.calls() + data_calls(r0, d)
            },
        },
    }
}

/// The longest a command line may grow without its CRLF.
pub const MAX_COMMAND_LINE: usize = 1000;

/// `b` is `a` with complete, well-formed replies added and nothing sent.
pub open spec fn replies_added(a: SendBuf, b: SendBuf) -> bool {
    &&& b.sent() == a.sent()
    &&& b.contents().len() >= a.contents().len()
    &&& b.contents().subrange(0, a.contents().len() as int) == a.contents()
    &&& is_reply_stream(b.contents().skip(a.contents().len() as int))
}

pub proof fn lemma_replies_refl(a: SendBuf)
    ensures
        replies_added(a, a),
{
    lemma_empty_stream();
    assert(a.contents().skip(a.contents().len() as int) =~= Seq::<u8>::empty());
    assert(a.contents().subrange(0, a.contents().len() as int) =~= a.contents());
}

proof fn lemma_canned_texts()
    ensures
        single_line("Please say 'Hello' first\r\n".spec_bytes()),
        single_line("Need MAIL command first\r\n".spec_bytes()),
        single_line("Need RCPT command first\r\n".spec_bytes()),
        single_line("Nested MAIL command\r\n".spec_bytes()),
        single_line("Please leave now\r\n".spec_bytes()),
        single_line("Ok\r\n".spec_bytes()),
        single_line("Bye\r\n".spec_bytes()),
        single_line("Unrecognized command.\r\n".spec_bytes()),
        single_line("Error in command parameters.\r\n".spec_bytes()),
        single_line("Ready to start TLS\r\n".spec_bytes()),
{
    broadcast use vstd::string::is_ascii_spec_bytes;

    reveal_strlit("Please say 'Hello' first\r\n");
    reveal_strlit("Need MAIL command first\r\n");
    reveal_strlit("Need RCPT command first\r\n");
    reveal_strlit("Nested MAIL command\r\n");
    reveal_strlit("Please leave now\r\n");
    reveal_strlit("Ok\r\n");
    reveal_strlit("Bye\r\n");
    reveal_strlit("Unrecognized command.\r\n");
    reveal_strlit("Error in command parameters.\r\n");
    reveal_strlit("Ready to start TLS\r\n");
    assert(vstd::string::is_ascii("Please say 'Hello' first\r\n"));
    assert(vstd::string::is_ascii("Need MAIL command first\r\n"));
    assert(vstd::string::is_ascii("Need RCPT command first\r\n"));
    assert(vstd::string::is_ascii("Nested MAIL command\r\n"));
    assert(vstd::string::is_ascii("Please leave now\r\n"));
    assert(vstd::string::is_ascii("Ok\r\n"));
    assert(vstd::string::is_ascii("Bye\r\n"));
    assert(vstd::string::is_ascii("Unrecognized command.\r\n"));
    assert(vstd::string::is_ascii("Error in command parameters.\r\n"));
    assert(vstd::string::is_ascii("Ready to start TLS\r\n"));
}

/// The lines of the reply to EHLO: the hostname, then the extensions,
/// STARTTLS only while the connection is not secure.
pub open spec fn ehlo_lines(host: Seq<u8>, limit: u64, secure: bool) -> Seq<Seq<u8>> {
    let lines = seq![
        host,
        "EXPN".spec_bytes(),
        "HELP".spec_bytes(),
        "8BITMIME".spec_bytes(),
        "SIZE ".spec_bytes() + decimal(limit as nat),
        "PIPELINING".spec_bytes(),
        "DSN".spec_bytes(),
        "ETRN".spec_bytes(),
        "ENHANCEDSTATUSCODES".spec_bytes(),
        "SMTPUTF8".spec_bytes(),
    ];
    if secure {
        lines
    } else {
        lines.push("STARTTLS".spec_bytes())
    }
}

/// The reply to an accepted HELO or EHLO.
pub open spec fn hello_reply(host: Seq<u8>, limit: u64, ehlo: bool, secure: bool) -> Seq<u8> {
    if ehlo {
        reply_bytes(250, None, ehlo_lines(host, limit, secure))
    } else {
        reply_bytes(250, None, seq![host])
    }
}

/// The greeting: `220 <hostname> ESMTP <systemname>`.
pub open spec fn greeting(host: Seq<u8>, system: Seq<u8>) -> Seq<u8> {
    reply_bytes(220, None, seq![host + " ESMTP ".spec_bytes() + system])
}

proof fn lemma_extension_texts()
    ensures
        single_line("EXPN\r\n".spec_bytes()) && line_of("EXPN\r\n".spec_bytes()) == "EXPN".spec_bytes(),
        single_line("HELP\r\n".spec_bytes()) && line_of("HELP\r\n".spec_bytes()) == "HELP".spec_bytes(),
        single_line("8BITMIME\r\n".spec_bytes()) && line_of("8BITMIME\r\n".spec_bytes())
            == "8BITMIME".spec_bytes(),
        single_line("PIPELINING\r\n".spec_bytes()) && line_of("PIPELINING\r\n".spec_bytes())
            == "PIPELINING".spec_bytes(),
        single_line("DSN\r\n".spec_bytes()) && line_of("DSN\r\n".spec_bytes()) == "DSN".spec_bytes(),
        single_line("ETRN\r\n".spec_bytes()) && line_of("ETRN\r\n".spec_bytes()) == "ETRN".spec_bytes(),
        single_line("ENHANCEDSTATUSCODES\r\n".spec_bytes()) && line_of(
            "ENHANCEDSTATUSCODES\r\n".spec_bytes(),
        ) == "ENHANCEDSTATUSCODES".spec_bytes(),
        single_line("SMTPUTF8\r\n".spec_bytes()) && line_of("SMTPUTF8\r\n".spec_bytes())
            == "SMTPUTF8".spec_bytes(),
        single_line("STARTTLS\r\n".spec_bytes()) && line_of("STARTTLS\r\n".spec_bytes())
            == "STARTTLS".spec_bytes(),
        "SIZE ".spec_bytes() == seq![83u8, 73u8, 90u8, 69u8, 32u8],
        "\r\n".spec_bytes() == seq![13u8, 10u8],
{
    broadcast use vstd::string::is_ascii_spec_bytes;

    reveal_strlit("EXPN\r\n");
    reveal_strlit("EXPN");
    reveal_strlit("HELP\r\n");
    reveal_strlit("HELP");
    reveal_strlit("8BITMIME\r\n");
    reveal_strlit("8BITMIME");
    reveal_strlit("PIPELINING\r\n");
    reveal_strlit("PIPELINING");
    reveal_strlit("DSN\r\n");
    reveal_strlit("DSN");
    reveal_strlit("ETRN\r\n");
    reveal_strlit("ETRN");
    reveal_strlit("ENHANCEDSTATUSCODES\r\n");
    reveal_strlit("ENHANCEDSTATUSCODES");
    reveal_strlit("SMTPUTF8\r\n");
    reveal_strlit("SMTPUTF8");
    reveal_strlit("STARTTLS\r\n");
    reveal_strlit("STARTTLS");
    reveal_strlit("SIZE ");
    reveal_strlit("\r\n");
    assert(vstd::string::is_ascii("EXPN\r\n"));
    assert(vstd::string::is_ascii("EXPN"));
    assert(vstd::string::is_ascii("HELP\r\n"));
    assert(vstd::string::is_ascii("HELP"));
    assert(vstd::string::is_ascii("8BITMIME\r\n"));
    assert(vstd::string::is_ascii("8BITMIME"));
    assert(vstd::string::is_ascii("PIPELINING\r\n"));
    assert(vstd::string::is_ascii("PIPELINING"));
    assert(vstd::string::is_ascii("DSN\r\n"));
    assert(vstd::string::is_ascii("DSN"));
    assert(vstd::string::is_ascii("ETRN\r\n"));
    assert(vstd::string::is_ascii("ETRN"));
    assert(vstd::string::is_ascii("ENHANCEDSTATUSCODES\r\n"));
    assert(vstd::string::is_ascii("ENHANCEDSTATUSCODES"));
    assert(vstd::string::is_ascii("SMTPUTF8\r\n"));
    assert(vstd::string::is_ascii("SMTPUTF8"));
    assert(vstd::string::is_ascii("STARTTLS\r\n"));
    assert(vstd::string::is_ascii("STARTTLS"));
    assert(vstd::string::is_ascii("SIZE "));
    assert(vstd::string::is_ascii("\r\n"));
    assert(line_of("EXPN\r\n".spec_bytes()) =~= "EXPN".spec_bytes());
    assert(line_of("HELP\r\n".spec_bytes()) =~= "HELP".spec_bytes());
    assert(line_of("8BITMIME\r\n".spec_bytes()) =~= "8BITMIME".spec_bytes());
    assert(line_of("PIPELINING\r\n".spec_bytes()) =~= "PIPELINING".spec_bytes());
    assert(line_of("DSN\r\n".spec_bytes()) =~= "DSN".spec_bytes());
    assert(line_of("ETRN\r\n".spec_bytes()) =~= "ETRN".spec_bytes());
    assert(line_of("ENHANCEDSTATUSCODES\r\n".spec_bytes()) =~= "ENHANCEDSTATUSCODES".spec_bytes());
    assert(line_of("SMTPUTF8\r\n".spec_bytes()) =~= "SMTPUTF8".spec_bytes());
    assert(line_of("STARTTLS\r\n".spec_bytes()) =~= "STARTTLS".spec_bytes());
    assert("SIZE ".spec_bytes() =~= seq![83u8, 73u8, 90u8, 69u8, 32u8]);
    assert("\r\n".spec_bytes() =~= seq![13u8, 10u8]);
}

proof fn lemma_esmtp_text()
    ensures
        " ESMTP ".spec_bytes().len() == 7,
        no_lf(" ESMTP ".spec_bytes()),
{
    broadcast use vstd::string::is_ascii_spec_bytes;

    reveal_strlit(" ESMTP ");
    assert(vstd::string::is_ascii(" ESMTP "));
}

proof fn lemma_decision_texts()
    ensures
        single_line("Go ahead.\r\n".spec_bytes()),
        single_line("Mail failed\r\n".spec_bytes()),
        single_line("Connection refused.\r\n".spec_bytes()),
        single_line("Rejected for policy reasons\r\n".spec_bytes()),
        single_line("Message size exceeds fixed limit\r\n".spec_bytes()),
        single_line("Line too long\r\n".spec_bytes()),
{
    broadcast use vstd::string::is_ascii_spec_bytes;

    reveal_strlit("Go ahead.\r\n");
    reveal_strlit("Mail failed\r\n");
    reveal_strlit("Connection refused.\r\n");
    reveal_strlit("Rejected for policy reasons\r\n");
    reveal_strlit("Message size exceeds fixed limit\r\n");
    reveal_strlit("Line too long\r\n");
    assert(vstd::string::is_ascii("Go ahead.\r\n"));
    assert(vstd::string::is_ascii("Mail failed\r\n"));
    assert(vstd::string::is_ascii("Connection refused.\r\n"));
    assert(vstd::string::is_ascii("Rejected for policy reasons\r\n"));
    assert(vstd::string::is_ascii("Message size exceeds fixed limit\r\n"));
    assert(vstd::string::is_ascii("Line too long\r\n"));
}

proof fn lemma_emitted_texts()
    ensures
        single_line("Ok\r\n".spec_bytes()),
        single_line("Rejected for policy reasons\r\n".spec_bytes()),
{
    broadcast use vstd::string::is_ascii_spec_bytes;

    reveal_strlit("Ok\r\n");
    reveal_strlit("Rejected for policy reasons\r\n");
    assert(vstd::string::is_ascii("Ok\r\n"));
    assert(vstd::string::is_ascii("Rejected for policy reasons\r\n"));
}

/// `text` followed by CRLF.
fn with_crlf(text: &[u8]) -> (r: Vec<u8>)
    ensures
        r@ == text@ + crlf(),
        no_lf(text@) ==> single_line(r@) && line_of(r@) == text@,
{
    let mut v = vstd::slice::slice_to_vec(text);
    v.push(13u8);
    v.push(10u8);
    proof {
        assert(v@ =~= text@ + crlf());
        assert(line_of(v@) =~= text@);
        if no_lf(text@) {
            assert(v@.subrange(0, v@.len() - 2) =~= text@);
        }
    }
    v
}

/// Queues a one-line reply whose text is a single line.
fn canned_reply(send: &mut SendBuf, code: u16, status: Status, text: &str)
    requires
        code_ok(code),
        single_line(text.spec_bytes()),
    ensures
        final(send).contents() == old(send).contents() + canned(code, status, text.spec_bytes()),
        replies_added(*old(send), *final(send)),
{
    send.reply(code, status, text.as_bytes());
}

/// Queues what the handler wrote, or a reply of the session's own if it
/// wrote nothing and has decided.
fn emit(send: &mut SendBuf, reply: &ReplyBuf, o: &Hesitant<bool>)
    requires
        reply.wf(),
    ensures
        replies_added(*old(send), *final(send)),
        final(send).contents() == old(send).contents() + emitted(*o, reply.bytes()),
{
    if reply.is_empty() {
        proof {
            lemma_emitted_texts();
        }
        match o {
            Hesitant::Final(true) => canned_reply(send, 250, (2, 0, 0), "Ok\r\n"),
            Hesitant::Final(false) => canned_reply(
                send,
                550,
                (5, 7, 1),
                "Rejected for policy reasons\r\n",
            ),
            Hesitant::Defer => {
                proof {
                    lemma_replies_refl(*send);
                    assert(send.contents() =~= old(send).contents() + Seq::<u8>::empty());
                }
            },
        }
    } else {
        send.append(reply.as_slice());
        proof {
            let o_c = old(send).contents();
            assert(send.contents().skip(o_c.len() as int) =~= reply.bytes());
            assert(send.contents().subrange(0, o_c.len() as int) =~= o_c);
        }
    }
}

/// After `Reply::finish`, the buffer holds one more reply.
proof fn lemma_one_reply(a: SendBuf, b: SendBuf, m: ReplyModel)
    requires
        model_ok(m),
        b.contents() == a.contents() + render(m),
        b.sent() == a.sent(),
    ensures
        replies_added(a, b),
{
    lemma_empty_stream();
    lemma_stream_push(Seq::<u8>::empty(), m);
    assert(Seq::<u8>::empty() + render(m) =~= render(m));
    assert(b.contents().skip(a.contents().len() as int) =~= render(m));
    assert(b.contents().subrange(0, a.contents().len() as int) =~= a.contents());
}

//------------ Session --------------------------------------------------------

/// An SMTP session on one connection.
pub struct Session<H: Handler> {
    state: State,
    handler: H,
    config: Config,
    /// What the handler decided when it was last asked.
    outcome: Ghost<Option<Hesitant<bool>>>,
    /// Every call made on the handler, in order.
    calls: Ghost<Seq<Call>>,
    /// What the handler wrote into its reply buffer when it was last asked.
    written: Ghost<Seq<u8>>,
}

impl<H: Handler> Session<H> {
    pub closed spec fn spec_state(&self) -> State {
        self.state
    }

    /// What the handler decided when it was last asked.
    pub closed spec fn outcome(&self) -> Option<Hesitant<bool>> {
        self.outcome@
    }

    pub closed spec fn spec_limit(&self) -> u64 {
        self.config.size_limit
    }

    /// Every call made on the handler, in order.
    pub closed spec fn calls(&self) -> Seq<Call> {
        self.calls@
    }

    /// What the handler wrote into its reply buffer when it was last asked.
    pub closed spec fn written(&self) -> Seq<u8> {
        self.written@
    }

    /// The hostname, system name and message size limit.
    pub closed spec fn spec_config(&self) -> (Seq<u8>, Seq<u8>, u64) {
        (self.config.hostname@, self.config.systemname@, self.config.size_limit)
    }

    pub closed spec fn spec_hostname(&self) -> Seq<u8> {
        self.config.hostname@
    }

    pub closed spec fn spec_systemname(&self) -> Seq<u8> {
        self.config.systemname@
    }

    /// The state the session is in.
    pub fn state(&self) -> (r: State)
        ensures
            r == self.spec_state(),
    {
        self.state
    }

    /// The handler.
    pub fn handler(&self) -> &H {
        &self.handler
    }

    /// Starts a session: the handler accepts or refuses the connection.
    ///
    /// On acceptance the greeting `220 <hostname> ESMTP <systemname>` is
    /// queued, on refusal `554 5.5.0 Connection refused.`.
    pub fn new(handler: H, config: Config, send: &mut SendBuf) -> (r: (Session<H>, Action))
        ensures
            r.0.calls() == seq![Call::Start],
            r.0.outcome() is Some,
            (r.0.spec_state(), r.1) == start_step(r.0.outcome()),
            replies_added(*old(send), *final(send)),
            r.0.spec_config() == (config.spec_hostname(), config.spec_systemname(), config.spec_limit()),
            final(send).contents() == old(send).contents() + own_reply(
                Pending::Start,
                decision(r.0.outcome()),
                Seq::empty(),
                config.spec_hostname(),
                config.spec_systemname(),
                config.spec_limit(),
                false,
            ),
    {
        let mut session = Session {
            state: State::Wait(Pending::Start),
            handler,
            config,
            outcome: Ghost(None),
            calls: Ghost(Seq::empty()),
            written: Ghost(Seq::empty()),
        };
        let r = session.handler.start();
        session.calls = Ghost(Seq::empty().push(Call::Start));
        let action = session.after_start(r, send);
        (session, action)
    }

    fn after_start(&mut self, r: Hesitant<bool>, send: &mut SendBuf) -> (a: Action)
        ensures
            final(send).contents() == old(send).contents() + own_reply(
                Pending::Start,
                r,
                Seq::empty(),
                old(self).config.hostname@,
                old(self).config.systemname@,
                old(self).config.size_limit,
                false,
            ),
            final(self).outcome@ == Some(r),
            final(self).calls == old(self).calls,
            final(self).written == old(self).written,
            (final(self).state, a) == start_step(Some(r)),
            replies_added(*old(send), *final(send)),
            final(self).config == old(self).config,
    {
        self.outcome = Ghost(Some(r));
        proof {
            use_type_invariant(&self.config);
            lemma_decision_texts();
        }
        match r {
            Hesitant::Final(true) => {
                let mut text: Vec<u8> = Vec::new();
                text.extend_from_slice(self.config.hostname.as_slice());
                text.extend_from_slice(" ESMTP ".as_bytes());
                text.extend_from_slice(self.config.systemname.as_slice());
                let ghost host = self.config.hostname@;
                let ghost system = self.config.systemname@;
                proof {
                    lemma_esmtp_text();
                    assert(text@ =~= host + " ESMTP ".spec_bytes() + system);
                    if no_lf(host) && no_lf(system) {
                        assert forall|k: int| 0 <= k < text@.len() implies text@[k] != 10u8 by {
                            if k < host.len() {
                                assert(text@[k] == host[k]);
                            } else if k < host.len() + 7 {
                                assert(text@[k] == " ESMTP ".spec_bytes()[k - host.len()]);
                            } else {
                                assert(text@[k] == system[k - host.len() - 7]);
                            }
                        }
                    }
                }
                let line = with_crlf(text.as_slice());
                let mut reply = Reply::new(send, 220, None);
                reply.scribble_bytes(send, line.as_slice());
                proof {
                    if no_lf(host) && no_lf(system) {
                        assert(Seq::<u8>::empty() + text@ =~= text@);
                        assert(reply.lines() =~= seq![host + " ESMTP ".spec_bytes() + system]);
                    }
                }
                let ghost m = ReplyModel {
                    code: reply.spec_code(),
                    status: reply.spec_status(),
                    lines: reply.lines(),
                };
                reply.finish(send);
                proof {
                    lemma_one_reply(*old(send), *send, m);
                }
                self.state = State::Idle(Level::Early);
                Action::Write
            },
            Hesitant::Final(false) => {
                canned_reply(send, 554, (5, 5, 0), "Connection refused.\r\n");
                self.state = State::Dead;
                Action::Close
            },
            Hesitant::Defer => {
                proof {
                    lemma_replies_refl(*send);
                    assert(send.contents() =~= old(send).contents() + Seq::<u8>::empty());
                }
                self.state = State::Wait(Pending::Start);
                Action::Wait
            },
        }
    }

    /// Queues the reply to an accepted HELO or EHLO.
    fn write_hello(&self, send: &mut SendBuf, ehlo: bool, is_secure: bool)
        ensures
            replies_added(*old(send), *final(send)),
            final(send).contents() == old(send).contents() + hello_reply(
                self.config.hostname@,
                self.config.size_limit,
                ehlo,
                is_secure,
            ),
    {
        proof {
            lemma_extension_texts();
            use_type_invariant(&self.config);
        }
        let ghost host = self.config.hostname@;
        let mut reply = Reply::new(send, 250, None);
        let first = with_crlf(self.config.hostname.as_slice());
        reply.scribble_bytes(send, first.as_slice());
        proof {
            if no_lf(host) {
                assert(Seq::<u8>::empty() + host =~= host);
                assert(reply.lines() =~= seq![host]);
            }
        }
        if ehlo {
            reply.scribble_bytes(send, "EXPN\r\n".as_bytes());
            reply.scribble_bytes(send, "HELP\r\n".as_bytes());
            reply.scribble_bytes(send, "8BITMIME\r\n".as_bytes());
            let mut size: Vec<u8> = Vec::new();
            size.extend_from_slice("SIZE ".as_bytes());
            let digits = decimal_digits(self.config.size_limit);
            size.extend_from_slice(digits.as_slice());
            proof {
                lemma_decimal_digits(self.config.size_limit as nat);
                let d = decimal(self.config.size_limit as nat);
                assert(size@ =~= "SIZE ".spec_bytes() + d);
                assert forall|k: int| 0 <= k < size@.len() implies size@[k] != 10u8 by {
                    if k >= 5 {
                        assert(size@[k] == d[k - 5]);
                    }
                }
            }
            let size_line = with_crlf(size.as_slice());
            reply.scribble_bytes(send, size_line.as_slice());
            reply.scribble_bytes(send, "PIPELINING\r\n".as_bytes());
            reply.scribble_bytes(send, "DSN\r\n".as_bytes());
            reply.scribble_bytes(send, "ETRN\r\n".as_bytes());
            reply.scribble_bytes(send, "ENHANCEDSTATUSCODES\r\n".as_bytes());
            reply.scribble_bytes(send, "SMTPUTF8\r\n".as_bytes());
            if !is_secure {
                reply.scribble_bytes(send, "STARTTLS\r\n".as_bytes());
            }
        }
        let ghost m = ReplyModel {
            code: reply.spec_code(),
            status: reply.spec_status(),
            lines: reply.lines(),
        };
        reply.finish(send);
        proof {
            lemma_one_reply(*old(send), *send, m);
            if no_lf(host) && ehlo {
                assert(m.lines =~= ehlo_lines(host, self.config.size_limit, is_secure));
            }
        }
    }

    fn after_hello(&mut self, r: Hesitant<bool>, ehlo: bool, send: &mut SendBuf, is_secure: bool) -> (a: Action)
        ensures
            final(self).outcome@ == Some(r),
            final(self).calls == old(self).calls,
            final(self).written == old(self).written,
            (final(self).state, a) == hello_step(
                Some(r),
                if ehlo {
                    Pending::Ehlo
                } else {
                    Pending::Helo
                },
            ),
            replies_added(*old(send), *final(send)),
            final(self).config == old(self).config,
            final(send).contents() == old(send).contents() + own_reply(
                if ehlo {
                    Pending::Ehlo
                } else {
                    Pending::Helo
                },
                r,
                Seq::empty(),
                old(self).config.hostname@,
                old(self).config.systemname@,
                old(self).config.size_limit,
                is_secure,
            ),
    {
        self.outcome = Ghost(Some(r));
        match r {
            Hesitant::Final(true) => {
                self.write_hello(send, ehlo, is_secure);
                self.state = State::Idle(Level::Greeted);
                Action::Write
            },
            Hesitant::Final(false) => {
                proof {
                    lemma_decision_texts();
                }
                Reply::reply(send, 550, None, "Rejected for policy reasons\r\n".as_bytes());
                self.state = State::Dead;
                Action::Close
            },
            Hesitant::Defer => {
                proof {
                    lemma_replies_refl(*send);
                    assert(send.contents() =~= old(send).contents() + Seq::<u8>::empty());
                }
                self.state = State::Wait(if ehlo { Pending::Ehlo } else { Pending::Helo });
                Action::Wait
            },
        }
    }

    fn after_mail(&mut self, r: Hesitant<bool>, reply: &ReplyBuf, send: &mut SendBuf) -> (a: Action)
        requires
            reply.wf(),
        ensures
            final(self).outcome@ == Some(r),
            final(self).calls == old(self).calls,
            final(self).written == old(self).written,
            (final(self).state, a) == mail_step(Some(r)),
            final(send).contents() == old(send).contents() + emitted(r, reply.bytes()),
            replies_added(*old(send), *final(send)),
            reply.bytes().len() > 0 ==> final(send).contents() == old(send).contents()
                + reply.bytes(),
            final(self).config == old(self).config,
    {
        self.outcome = Ghost(Some(r));
        emit(send, reply, &r);
        match r {
            Hesitant::Final(true) => {
                self.state = State::Idle(Level::Mail(0));
                Action::Collect
            },
            Hesitant::Final(false) => {
                self.state = State::Idle(Level::Greeted);
                Action::Collect
            },
            Hesitant::Defer => {
                self.state = State::Wait(Pending::Mail);
                Action::Wait
            },
        }
    }

    fn after_rcpt(&mut self, n: u64, r: Hesitant<bool>, reply: &ReplyBuf, send: &mut SendBuf) -> (a: Action)
        requires
            reply.wf(),
        ensures
            final(self).outcome@ == Some(r),
            final(self).calls == old(self).calls,
            final(self).written == old(self).written,
            (final(self).state, a) == rcpt_step(n, Some(r)),
            final(send).contents() == old(send).contents() + emitted(r, reply.bytes()),
            replies_added(*old(send), *final(send)),
            reply.bytes().len() > 0 ==> final(send).contents() == old(send).contents()
                + reply.bytes(),
            final(self).config == old(self).config,
    {
        self.outcome = Ghost(Some(r));
        emit(send, reply, &r);
        match r {
            Hesitant::Final(true) => {
                let m = if n < u64::MAX { n + 1 } else { n };
                self.state = State::Idle(Level::Mail(m));
                Action::Collect
            },
            Hesitant::Final(false) => {
                self.state = State::Idle(Level::Greeted);
                Action::Collect
            },
            Hesitant::Defer => {
                self.state = State::Wait(Pending::Rcpt(n));
                Action::Wait
            },
        }
    }

    fn after_data(&mut self, n: u64, r: Hesitant<bool>, send: &mut SendBuf) -> (a: Action)
        ensures
            final(self).outcome@ == Some(r),
            final(self).calls == old(self).calls,
            final(self).written == old(self).written,
            (final(self).state, a) == data_step(n, Some(r)),
            final(send).contents() == old(send).contents() + own_reply(
                Pending::Data(n),
                r,
                Seq::empty(),
                old(self).config.hostname@,
                old(self).config.systemname@,
                old(self).config.size_limit,
                false,
            ),
            replies_added(*old(send), *final(send)),
            final(self).config == old(self).config,
    {
        self.outcome = Ghost(Some(r));
        proof {
            lemma_decision_texts();
        }
        match r {
            Hesitant::Final(true) => {
                Reply::reply(send, 354, None, "Go ahead.\r\n".as_bytes());
                self.state = State::Data(ReadData { dot: DotState::LineStart, size: 0 });
                Action::Write
            },
            Hesitant::Final(false) => {
                Reply::reply(send, 554, Some((5, 5, 0)), "Mail failed\r\n".as_bytes());
                self.state = State::Idle(Level::Greeted);
                Action::Write
            },
            Hesitant::Defer => {
                proof {
                    lemma_replies_refl(*send);
                    assert(send.contents() =~= old(send).contents() + Seq::<u8>::empty());
                }
                self.state = State::Wait(Pending::Data(n));
                Action::Wait
            },
        }
    }

    fn after_ancillary(
        &mut self,
        l: Level,
        p: Pending,
        r: Hesitant<bool>,
        reply: &ReplyBuf,
        send: &mut SendBuf,
    ) -> (a: Action)
        requires
            reply.wf(),
        ensures
            final(self).outcome@ == Some(r),
            final(self).calls == old(self).calls,
            final(self).written == old(self).written,
            (final(self).state, a) == ancillary_step(l, Some(r), p),
            final(send).contents() == old(send).contents() + emitted(r, reply.bytes()),
            replies_added(*old(send), *final(send)),
            reply.bytes().len() > 0 ==> final(send).contents() == old(send).contents()
                + reply.bytes(),
            final(self).config == old(self).config,
    {
        self.outcome = Ghost(Some(r));
        emit(send, reply, &r);
        match r {
            Hesitant::Final(_) => {
                self.state = State::Idle(l);
                Action::Write
            },
            Hesitant::Defer => {
                self.state = State::Wait(p);
                Action::Wait
            },
        }
    }

    fn after_tls(&mut self, r: Hesitant<bool>) -> (a: Action)
        ensures
            final(self).outcome@ == Some(r),
            final(self).calls == old(self).calls,
            final(self).written == old(self).written,
            (final(self).state, a) == tls_step(Some(r)),
            final(self).config == old(self).config,
    {
        self.outcome = Ghost(Some(r));
        match r {
            Hesitant::Final(true) => {
                self.state = State::Idle(Level::Early);
                Action::Read
            },
            Hesitant::Final(false) => {
                self.state = State::Dead;
                Action::Read
            },
            Hesitant::Defer => {
                self.state = State::Wait(Pending::CheckTls);
                Action::Wait
            },
        }
    }

    fn after_complete(&mut self, ok: bool, r: Hesitant<bool>, reply: &ReplyBuf, send: &mut SendBuf) -> (a: Action)
        requires
            reply.wf(),
        ensures
            final(self).outcome@ == Some(r),
            final(self).calls == old(self).calls,
            final(self).written == old(self).written,
            (final(self).state, a) == complete_step(ok, Some(r)),
            final(send).contents() == old(send).contents() + own_reply(
                Pending::Complete(ok),
                r,
                reply.bytes(),
                old(self).config.hostname@,
                old(self).config.systemname@,
                old(self).config.size_limit,
                false,
            ),
            replies_added(*old(send), *final(send)),
            ok && reply.bytes().len() > 0 ==> final(send).contents() == old(send).contents()
                + reply.bytes(),
            final(self).config == old(self).config,
    {
        self.outcome = Ghost(Some(r));
        if ok {
            emit(send, reply, &r);
        } else {
            match r {
                Hesitant::Final(_) => {
                    proof {
                        lemma_decision_texts();
                    }
                    Reply::reply(send, 552, Some((5, 3, 4)), "Message size exceeds fixed limit\r\n".as_bytes());
                },
                Hesitant::Defer => {
                    proof {
                        lemma_replies_refl(*send);
                        assert(send.contents() =~= old(send).contents() + Seq::<u8>::empty());
                    }
                },
            }
        }
        match r {
            Hesitant::Final(_) => {
                self.state = State::Idle(Level::Greeted);
                Action::Collect
            },
            Hesitant::Defer => {
                self.state = State::Wait(Pending::Complete(ok));
                Action::Wait
            },
        }
    }

    /// Carries out a command at level `l`.
    fn command(&mut self, l: Level, cmd: Command, send: &mut SendBuf, is_secure: bool) -> (a: Action)
        ensures
            (final(self).state, a) == idle_step(l, cmd@, is_secure, final(self).outcome@),
            replies_added(*old(send), *final(send)),
            final(self).calls@ =~= old(self).calls@ + command_calls(l, cmd@),
            match consulted(l, cmd@) {
                None => final(send).contents() == old(send).contents() + reply_or_empty(
                    core_reply(l, cmd@, is_secure),
                ) && core_reply(l, cmd@, is_secure) is Some,
                Some(p) => final(self).outcome@ is Some && final(send).contents() == old(
                    send,
                ).contents() + own_reply(
                    p,
                    decision(final(self).outcome@),
                    final(self).written@,
                    old(self).config.hostname@,
                    old(self).config.systemname@,
                    old(self).config.size_limit,
                    is_secure,
                ),
            },
            final(self).config == old(self).config,
    {
        proof {
            lemma_canned_texts();
        }
        match cmd {
            Command::Helo(domain) => {
                if let Level::Mail(_) = l {
                    self.handler.reset();
                    self.calls = Ghost(self.calls@.push(Call::Reset));
                }
                let r = self.handler.hello(domain.as_slice());
                self.calls = Ghost(self.calls@.push(Call::Hello(domain@)));
                self.after_hello(r, false, send, is_secure)
            },
            Command::Ehlo(domain) => {
                if let Level::Mail(_) = l {
                    self.handler.reset();
                    self.calls = Ghost(self.calls@.push(Call::Reset));
                }
                let r = self.handler.hello(domain.as_slice());
                self.calls = Ghost(self.calls@.push(Call::Hello(domain@)));
                self.after_hello(r, true, send, is_secure)
            },
            Command::Mail(path, params) => match l {
                Level::Early => {
                    canned_reply(send, 503, (5, 5, 1), "Please say 'Hello' first\r\n");
                    self.state = State::Idle(l);
                    Action::Collect
                },
                Level::Greeted => {
                    let mut reply = ReplyBuf::new();
                    let r = self.handler.mail(path.as_slice(), &params, &mut reply);
                    self.calls = Ghost(self.calls@.push(Call::Mail(path@, params@)));
                    self.written = Ghost(reply.bytes());
                    self.after_mail(r, &reply, send)
                },
                Level::Mail(_) => {
                    canned_reply(send, 503, (5, 5, 1), "Nested MAIL command\r\n");
                    self.state = State::Idle(l);
                    Action::Collect
                },
            },
            Command::Rcpt(path, params) => match l {
                Level::Early => {
                    canned_reply(send, 503, (5, 5, 1), "Please say 'Hello' first\r\n");
                    self.state = State::Idle(l);
                    Action::Collect
                },
                Level::Greeted => {
                    canned_reply(send, 503, (5, 5, 1), "Need MAIL command first\r\n");
                    self.state = State::Idle(l);
                    Action::Collect
                },
                Level::Mail(n) => {
                    let mut reply = ReplyBuf::new();
                    let r = self.handler.recipient(path.as_slice(), &params, &mut reply);
                    self.calls = Ghost(self.calls@.push(Call::Recipient(path@, params@)));
                    self.written = Ghost(reply.bytes());
                    self.after_rcpt(n, r, &reply, send)
                },
            },
            Command::Data => match l {
                Level::Early => {
                    canned_reply(send, 503, (5, 5, 1), "Please say 'Hello' first\r\n");
                    self.state = State::Idle(l);
                    Action::Write
                },
                Level::Greeted => {
                    canned_reply(send, 503, (5, 5, 1), "Need MAIL command first\r\n");
                    self.state = State::Idle(l);
                    Action::Write
                },
                Level::Mail(n) => {
                    if n == 0 {
                        canned_reply(send, 503, (5, 5, 1), "Need RCPT command first\r\n");
                        self.state = State::Idle(l);
                        Action::Write
                    } else {
                        let r = self.handler.data();
                        self.calls = Ghost(self.calls@.push(Call::Data));
                        self.after_data(n, r, send)
                    }
                },
            },
            Command::Rset => {
                canned_reply(send, 250, (2, 0, 0), "Ok\r\n");
                let next = match l {
                    Level::Early => Level::Early,
                    Level::Greeted => Level::Greeted,
                    Level::Mail(_) => {
                        self.handler.reset();
                        self.calls = Ghost(self.calls@.push(Call::Reset));
                        Level::Greeted
                    },
                };
                self.state = State::Idle(next);
                Action::Collect
            },
            Command::Vrfy(word, params) => {
                let mut reply = ReplyBuf::new();
                let r = self.handler.verify(word.as_slice(), params, &mut reply);
                self.calls = Ghost(self.calls@.push(Call::Verify(word@)));
                self.written = Ghost(reply.bytes());
                self.after_ancillary(l, Pending::Vrfy(l), r, &reply, send)
            },
            Command::Expn(word, params) => {
                let mut reply = ReplyBuf::new();
                let r = self.handler.expand(word.as_slice(), params, &mut reply);
                self.calls = Ghost(self.calls@.push(Call::Expand(word@)));
                self.written = Ghost(reply.bytes());
                self.after_ancillary(l, Pending::Expn(l), r, &reply, send)
            },
            Command::Help(word) => {
                let mut reply = ReplyBuf::new();
                let topic: Option<&[u8]> = match &word {
                    Some(w) => Some(w.as_slice()),
                    None => None,
                };
                let r = self.handler.help(topic, &mut reply);
                let ghost topic_view = match word {
                    Some(w) => Some(w@),
                    None => None,
                };
                self.calls = Ghost(self.calls@.push(Call::Help(topic_view)));
                self.written = Ghost(reply.bytes());
                self.after_ancillary(l, Pending::Help(l), r, &reply, send)
            },
            Command::Noop => {
                canned_reply(send, 250, (2, 0, 0), "Ok\r\n");
                self.state = State::Idle(l);
                Action::Write
            },
            Command::Quit => {
                canned_reply(send, 221, (2, 0, 0), "Bye\r\n");
                if let Level::Mail(_) = l {
                    self.handler.reset();
                    self.calls = Ghost(self.calls@.push(Call::Reset));
                }
                self.state = State::Dead;
                Action::Close
            },
            Command::StartTls => {
                self.state = State::Idle(l);
                if is_secure {
                    canned_reply(send, 500, (5, 5, 2), "Unrecognized command.\r\n");
                    Action::Write
                } else {
                    canned_reply(send, 220, (2, 7, 0), "Ready to start TLS\r\n");
                    Action::StartTls
                }
            },
            Command::Auth(_) | Command::Bdat(_) | Command::Unrecognized => {
                canned_reply(send, 500, (5, 5, 2), "Unrecognized command.\r\n");
                self.state = State::Idle(l);
                Action::Write
            },
            Command::ParameterError => {
                canned_reply(send, 501, (5, 5, 4), "Error in command parameters.\r\n");
                self.state = State::Idle(l);
                Action::Write
            },
        }
    }

    /// Takes in what the client sent.
    ///
    /// Outside of message data, one command is parsed and carried out; a
    /// command line that grows past `MAX_COMMAND_LINE` without ending is
    /// answered with 500 and the connection closed. While a decision is
    /// pending, nothing is parsed. In message data, the data up to the end
    /// marker is passed to the handler, unstuffed; with no end marker in
    /// sight, all but the last four bytes are.
    #[verifier::rlimit(60)]
    pub fn receive(&mut self, recv: &mut RecvBuf, send: &mut SendBuf, is_secure: bool) -> (a: Action)
        ensures
            receive_post(*old(self), *final(self), old(recv)@, final(recv)@, *old(send), *final(send), is_secure, a),
    {
        match self.state {
            State::Idle(l) => {
                match parse_command(recv.as_slice()) {
                    None => self.overlong(l, recv, send),
                    Some((cmd, n)) => {
                        recv.advance(n);
                        self.command(l, cmd, send, is_secure)
                    },
                }
            },
            State::Wait(_) => {
                proof {
                    lemma_replies_refl(*send);
                }
                Action::Wait
            },
            State::Data(d) => self.receive_data(d, recv, send),
            State::Dead => self.receive_dead(recv, send),
        }
    }

    /// No complete command line has arrived: reads on, unless the line has
    /// grown too long.
    fn overlong(&mut self, l: Level, recv: &mut RecvBuf, send: &mut SendBuf) -> (a: Action)
        requires
            old(self).state == State::Idle(l) || (old(self).state == State::Dead && l
                == Level::Early),
        ensures
            replies_added(*old(send), *final(send)),
            final(self).config == old(self).config,
            final(self).outcome == old(self).outcome,
            final(self).written == old(self).written,
            if old(recv)@.len() > MAX_COMMAND_LINE {
                &&& a == Action::Close
                &&& final(self).state == State::Dead
                &&& final(recv)@ == Seq::<u8>::empty()
                &&& final(send).contents() == old(send).contents() + line_too_long()
                &&& final(self).calls@ =~= old(self).calls@ + reset_if(l)
            } else {
                &&& a == Action::Read
                &&& final(self).state == old(self).state
                &&& final(recv)@ == old(recv)@
                &&& *final(send) == *old(send)
                &&& final(self).calls@ == old(self).calls@
            },
    {
        if recv.len() > MAX_COMMAND_LINE {
            proof {
                lemma_decision_texts();
            }
            canned_reply(send, 500, (5, 5, 6), "Line too long\r\n");
            recv.clear();
            if let Level::Mail(_) = l {
                self.handler.reset();
                self.calls = Ghost(self.calls@.push(Call::Reset));
            }
            self.state = State::Dead;
            Action::Close
        } else {
            proof {
                lemma_replies_refl(*send);
            }
            Action::Read
        }
    }

    fn receive_dead(&mut self, recv: &mut RecvBuf, send: &mut SendBuf) -> (a: Action)
        requires
            old(self).state == State::Dead,
        ensures
            replies_added(*old(send), *final(send)),
            final(self).config == old(self).config,
            final(self).outcome == old(self).outcome,
            final(self).written == old(self).written,
            final(self).calls == old(self).calls,
            final(self).state == State::Dead,
            match parse_spec(old(recv)@) {
                None => if old(recv)@.len() > MAX_COMMAND_LINE {
                    &&& a == Action::Close
                    &&& final(recv)@ == Seq::<u8>::empty()
                    &&& final(send).contents() == old(send).contents() + line_too_long()
                } else {
                    &&& a == Action::Read
                    &&& final(recv)@ == old(recv)@
                    &&& *final(send) == *old(send)
                },
                Some((c, n)) => {
                    &&& final(recv)@ == old(recv)@.skip(n)
                    &&& final(send).contents() == old(send).contents() + dead_reply(c)
                    &&& a == if c == CommandView::Quit {
                        Action::Close
                    } else {
                        Action::Write
                    }
                },
            },
    {
        proof {
            lemma_canned_texts();
        }
        match parse_command(recv.as_slice()) {
            None => self.overlong(Level::Early, recv, send),
            Some((cmd, n)) => {
                recv.advance(n);
                match cmd {
                    Command::Quit => {
                        canned_reply(send, 221, (2, 0, 0), "Bye\r\n");
                        Action::Close
                    },
                    Command::Rset => {
                        canned_reply(send, 250, (2, 0, 0), "Ok\r\n");
                        Action::Write
                    },
                    Command::Unrecognized => {
                        canned_reply(send, 500, (5, 5, 2), "Unrecognized command.\r\n");
                        Action::Write
                    },
                    Command::ParameterError => {
                        canned_reply(send, 501, (5, 5, 4), "Error in command parameters.\r\n");
                        Action::Write
                    },
                    _ => {
                        canned_reply(send, 503, (5, 5, 1), "Please leave now\r\n");
                        Action::Write
                    },
                }
            },
        }
    }

    fn receive_data(&mut self, d: ReadData, recv: &mut RecvBuf, send: &mut SendBuf) -> (a: Action)
        ensures
            replies_added(*old(send), *final(send)),
            final(self).config == old(self).config,
            match data_end(old(recv)@, d) {
                Some((i, m)) => {
                    &&& final(recv)@ == old(recv)@.skip(m)
                    &&& (final(self).state, a) == complete_step(
                        add_size(d.size, i) <= old(self).config.size_limit,
                        final(self).outcome@,
                    )
                    &&& final(self).calls@ =~= old(self).calls@ + end_calls(
                        old(recv)@,
                        d,
                        i,
                        m,
                        old(self).config.size_limit,
                    )
                    &&& final(self).outcome@ is Some
                    &&& final(send).contents() == old(send).contents() + own_reply(
                        Pending::Complete(add_size(d.size, i) <= old(self).config.size_limit),
                        decision(final(self).outcome@),
                        final(self).written@,
                        old(self).config.hostname@,
                        old(self).config.systemname@,
                        old(self).config.size_limit,
                        false,
                    )
                },
                None => {
                    let k = forwardable(old(recv)@.len() as int);
                    &&& a == Action::Read
                    &&& *final(send) == *old(send)
                    &&& final(recv)@ == old(recv)@.skip(k)
                    &&& final(self).state == State::Data(
                        ReadData {
                            dot: unstuff_state(old(recv)@.take(k), d.dot),
                            size: add_size(d.size, k),
                        },
                    )
                    &&& final(self).calls@ =~= old(self).calls@ + data_calls(old(recv)@, d)
                    &&& final(self).outcome == old(self).outcome
                    &&& final(self).written == old(self).written
                },
            },
    {
        let total = recv.len();
        if d.size == 0 && d.dot == DotState::LineStart && total >= 3 {
            let start = recv.as_slice();
            if start[0] == 46u8 && start[1] == 13u8 && start[2] == 10u8 {
                recv.advance(3);
                proof {
                    assert(add_size(d.size, 0) == 0);
                }
                let mut reply = ReplyBuf::new();
                let r = self.handler.complete(true, &mut reply);
                self.calls = Ghost(self.calls@.push(Call::Complete(true)));
                self.written = Ghost(reply.bytes());
                return self.after_complete(true, r, &reply, send);
            }
        }
        match recv.find_data_end() {
            Some(idx) => {
                let ghost body = old(recv)@.take(idx as int);
                let (out, st) = unstuff_chunk(
                    vstd::slice::slice_subrange(recv.as_slice(), 0, idx),
                    d.dot,
                );
                proof {
                    assert(old(recv)@.subrange(0, idx as int) =~= body);
                }
                self.handler.chunk(out.as_slice());
                self.calls = Ghost(self.calls@.push(Call::Chunk(out@)));
                if st == DotState::Dot {
                    let mut held: Vec<u8> = Vec::new();
                    held.push(46u8);
                    self.handler.chunk(held.as_slice());
                    self.calls = Ghost(self.calls@.push(Call::Chunk(held@)));
                    proof {
                        assert(held@ =~= seq![46u8]);
                    }
                }
                let size = add_size_exec(d.size, idx);
                recv.advance(idx + 5);
                let ok = size <= self.config.size_limit;
                let mut reply = ReplyBuf::new();
                let r = self.handler.complete(ok, &mut reply);
                self.calls = Ghost(self.calls@.push(Call::Complete(ok)));
                self.written = Ghost(reply.bytes());
                proof {
                    let c0 = old(self).calls@;
                    assert(self.calls@ =~= c0 + end_calls(
                        old(recv)@,
                        d,
                        idx as int,
                        idx + 5,
                        self.config.size_limit,
                    ));
                }
                self.after_complete(ok, r, &reply, send)
            },
            None => {
                let len = recv.len();
                if len > 4 {
                    let k = len - 4;
                    let (out, st) = unstuff_chunk(
                        vstd::slice::slice_subrange(recv.as_slice(), 0, k),
                        d.dot,
                    );
                    self.handler.chunk(out.as_slice());
                    self.calls = Ghost(self.calls@.push(Call::Chunk(out@)));
                    recv.advance(k);
                    self.state = State::Data(ReadData { dot: st, size: add_size_exec(d.size, k) });
                    proof {
                        assert(old(recv)@.subrange(0, k as int) =~= old(recv)@.take(k as int));
                    }
                } else {
                    recv.advance(0);
                    self.state = State::Data(d);
                    proof {
                        assert(old(recv)@.take(0) =~= Seq::<u8>::empty());
                        assert(add_size(d.size, 0) == d.size);
                        assert(self.calls@ =~= old(self).calls@ + Seq::<Call>::empty());
                    }
                }
                proof {
                    lemma_replies_refl(*send);
                }
                Action::Read
            },
        }
    }

    /// Resumes the decision that the session is waiting for: the handler
    /// is asked again, and its answer is carried out by [`Session::resolve`].
    pub fn wakeup(&mut self, send: &mut SendBuf, is_secure: bool) -> (a: Action)
        ensures
            replies_added(*old(send), *final(send)),
            final(self).spec_config() == old(self).spec_config(),
            match old(self).spec_state() {
                State::Wait(p) => {
                    &&& final(self).calls() == old(self).calls().push(Call::Wakeup)
                    &&& final(self).outcome() is Some
                    &&& (final(self).spec_state(), a) == wake_step(p, final(self).outcome())
                    &&& final(send).contents() == old(send).contents() + own_reply(
                        p,
                        decision(final(self).outcome()),
                        final(self).written(),
                        old(self).spec_hostname(),
                        old(self).spec_systemname(),
                        old(self).spec_limit(),
                        is_secure,
                    )
                },
                _ => {
                    &&& a == Action::Read
                    &&& *final(self) == *old(self)
                    &&& *final(send) == *old(send)
                },
            },
    {
        match self.state {
            State::Wait(_) => {
                let mut reply = ReplyBuf::new();
                let r = self.handler.wakeup(&mut reply);
                self.calls = Ghost(self.calls@.push(Call::Wakeup));
                self.resolve(r, &reply, send, is_secure)
            },
            _ => {
                proof {
                    lemma_replies_refl(*send);
                }
                Action::Read
            },
        }
    }

    /// Carries out the decision `r` that the session was waiting for, with
    /// the reply the handler wrote.
    ///
    /// Outside of a wait there is nothing to decide and nothing changes.
    pub fn resolve(&mut self, r: Hesitant<bool>, reply: &ReplyBuf, send: &mut SendBuf, is_secure: bool) -> (a: Action)
        requires
            reply.wf(),
        ensures
            replies_added(*old(send), *final(send)),
            final(self).spec_config() == old(self).spec_config(),
            final(self).calls() == old(self).calls(),
            match old(self).spec_state() {
                State::Wait(p) => {
                    &&& final(self).outcome() == Some(r)
                    &&& final(self).written() == reply.bytes()
                    &&& (final(self).spec_state(), a) == wake_step(p, Some(r))
                    &&& final(send).contents() == old(send).contents() + own_reply(
                        p,
                        r,
                        reply.bytes(),
                        old(self).spec_hostname(),
                        old(self).spec_systemname(),
                        old(self).spec_limit(),
                        is_secure,
                    )
                },
                _ => {
                    &&& a == Action::Read
                    &&& *final(self) == *old(self)
                    &&& *final(send) == *old(send)
                },
            },
    {
        match self.state {
            State::Wait(p) => {
                self.written = Ghost(reply.bytes());
                match p {
                    Pending::Start => self.after_start(r, send),
                    Pending::Helo => self.after_hello(r, false, send, is_secure),
                    Pending::Ehlo => self.after_hello(r, true, send, is_secure),
                    Pending::Mail => self.after_mail(r, reply, send),
                    Pending::Rcpt(n) => self.after_rcpt(n, r, reply, send),
                    Pending::Data(n) => self.after_data(n, r, send),
                    Pending::Vrfy(l) => self.after_ancillary(l, p, r, reply, send),
                    Pending::Expn(l) => self.after_ancillary(l, p, r, reply, send),
                    Pending::Help(l) => self.after_ancillary(l, p, r, reply, send),
                    Pending::CheckTls => {
                        proof {
                            lemma_replies_refl(*send);
                            assert(send.contents() =~= old(send).contents() + Seq::<u8>::empty());
                        }
                        self.after_tls(r)
                    },
                    Pending::Complete(ok) => self.after_complete(ok, r, reply, send),
                }
            },
            _ => {
                proof {
                    lemma_replies_refl(*send);
                }
                Action::Read
            },
        }
    }

    /// The connection is gone: an open mail transaction or data sink is
    /// released through the handler, and the session ends.
    pub fn abort(&mut self)
        ensures
            final(self).spec_state() == State::Dead,
            final(self).spec_config() == old(self).spec_config(),
            final(self).calls() =~= old(self).calls() + if has_transaction(old(self).spec_state()) {
                seq![Call::Reset]
            } else {
                Seq::<Call>::empty()
            },
    {
        if holds_transaction(self.state) {
            self.handler.reset();
            self.calls = Ghost(self.calls@.push(Call::Reset));
        } else {
            proof {
                assert(self.calls@ =~= self.calls@ + Seq::<Call>::empty());
            }
        }
        self.state = State::Dead;
    }

    /// A TLS handshake has completed: the handler checks the peer.
    ///
    /// An open mail transaction is dropped. Outside of a command-reading
    /// state there is nothing to confirm and the connection is to close.
    pub fn confirm_tls(&mut self, peer_cert: Option<&[u8]>) -> (a: Action)
        ensures
            final(self).spec_config() == old(self).spec_config(),
            match old(self).spec_state() {
                State::Idle(l) => {
                    &&& (final(self).spec_state(), a) == tls_step(final(self).outcome())
                    &&& final(self).calls() =~= old(self).calls() + reset_if(l).push(Call::CheckTls)
                },
                _ => a == Action::Close && *final(self) == *old(self),
            },
    {
        match self.state {
            State::Idle(l) => {
                if let Level::Mail(_) = l {
                    self.handler.reset();
                    self.calls = Ghost(self.calls@.push(Call::Reset));
                }
                let r = self.handler.check_tls(peer_cert);
                self.calls = Ghost(self.calls@.push(Call::CheckTls));
                proof {
                    assert(self.calls@ =~= old(self).calls@ + reset_if(l).push(Call::CheckTls));
                }
                self.after_tls(r)
            },
            _ => Action::Close,
        }
    }
}

/// A mail transaction or data sink is open, or may be once a pending
/// decision comes in.
pub open spec fn has_transaction(state: State) -> bool {
    match state {
        State::Idle(Level::Mail(_)) => true,
        State::Data(_) => true,
        State::Wait(p) => match p {
            Pending::Mail | Pending::Rcpt(_) | Pending::Data(_) | Pending::Complete(_) => true,
            Pending::Vrfy(Level::Mail(_)) | Pending::Expn(Level::Mail(_)) | Pending::Help(
                Level::Mail(_),
            ) => true,
            _ => false,
        },
        _ => false,
    }
}

/// Whether a mail transaction or data sink is open, or may be once a
/// pending decision comes in.
pub fn holds_transaction(state: State) -> (r: bool)
    ensures
        r == has_transaction(state),
{
    match state {
        State::Idle(Level::Mail(_)) => true,
        State::Data(_) => true,
        State::Wait(p) => match p {
            Pending::Mail | Pending::Rcpt(_) | Pending::Data(_) | Pending::Complete(_) => true,
            Pending::Vrfy(Level::Mail(_)) | Pending::Expn(Level::Mail(_)) | Pending::Help(
                Level::Mail(_),
            ) => true,
            _ => false,
        },
        _ => false,
    }
}

fn add_size_exec(size: u64, n: usize) -> (r: u64)
    ensures
        r == add_size(size, n as int),
{
    let n = n as u64;
    if n <= u64::MAX - size {
        size + n
    } else {
        u64::MAX
    }
}

//------------ Laws -----------------------------------------------------------

/// A MAIL that the handler accepts, in a greeted session, opens a mail
/// transaction with no recipients yet.
pub proof fn lemma_mail_opens_transaction(
    path: Seq<u8>,
    params: MailParamsView,
    sec: bool,
    o: Option<Hesitant<bool>>,
)
    requires
        accepted(o),
    ensures
        idle_step(Level::Greeted, CommandView::Mail(path, params), sec, o).0 == State::Idle(
            Level::Mail(0),
        ),
{
}

/// Before a MAIL has been accepted, RCPT and DATA are answered with 503
/// by the session itself and leave the state as it was, whatever the
/// handler would say.
pub proof fn lemma_no_recipient_before_mail(l: Level, c: CommandView, sec: bool, o: Option<Hesitant<bool>>)
    requires
        l == Level::Early || l == Level::Greeted,
        c is Rcpt || c is Data,
    ensures
        idle_step(l, c, sec, o).0 == State::Idle(l),
        core_reply(l, c, sec) == Some(
            if l == Level::Early {
                hello_first()
            } else {
                need_mail()
            },
        ),
        hello_first() == canned(503, (5, 5, 1), "Please say 'Hello' first\r\n".spec_bytes()),
        need_mail() == canned(503, (5, 5, 1), "Need MAIL command first\r\n".spec_bytes()),
{
}

/// DATA opens the message data only within a transaction that has at
/// least one accepted recipient.
pub proof fn lemma_data_needs_recipient(l: Level, sec: bool, o: Option<Hesitant<bool>>)
    ensures
        idle_step(l, CommandView::Data, sec, o).0 is Data ==> (l matches Level::Mail(n) && n >= 1),
        idle_step(l, CommandView::Data, sec, o).0 is Wait ==> (l matches Level::Mail(n) && n >= 1),
{
}

/// A deferred decision opens the message data only if it was a DATA, and
/// a DATA is only deferred with at least one accepted recipient.
pub proof fn lemma_deferred_data_needs_recipient(
    p: Pending,
    l: Level,
    c: CommandView,
    sec: bool,
    o: Option<Hesitant<bool>>,
    o2: Option<Hesitant<bool>>,
)
    ensures
        wake_step(p, o).0 is Data ==> p is Data,
        idle_step(l, c, sec, o2).0 matches State::Wait(Pending::Data(n)) ==> n >= 1,
        wake_step(p, o2).0 matches State::Wait(Pending::Data(n)) ==> p == Pending::Data(n),
{
}

/// Once the connection is secure, STARTTLS is refused with a 500 and
/// changes nothing, and EHLO no longer offers it: the secure reply is the
/// clear one without its last line, STARTTLS.
pub proof fn lemma_starttls_refused_when_secure(
    l: Level,
    o: Option<Hesitant<bool>>,
    host: Seq<u8>,
    limit: u64,
)
    ensures
        ehlo_lines(host, limit, false) == ehlo_lines(host, limit, true).push("STARTTLS".spec_bytes()),
        ehlo_lines(host, limit, true).len() == 10,
        ehlo_lines(host, limit, true).last() == "SMTPUTF8".spec_bytes(),
        core_reply(l, CommandView::StartTls, true) == Some(unrecognized()),
        unrecognized() == canned(500, (5, 5, 2), "Unrecognized command.\r\n".spec_bytes()),
        idle_step(l, CommandView::StartTls, true, o) == (State::Idle(l), Action::Write),
{
}

/// RSET is always answered with 250: a session taking commands is left
/// greeted, or early if no hello has been seen, and a session that has
/// ended stays ended.
pub proof fn lemma_rset(l: Level, sec: bool, o: Option<Hesitant<bool>>)
    ensures
        core_reply(l, CommandView::Rset, sec) == Some(ok_reply()),
        dead_reply(CommandView::Rset) == ok_reply(),
        ok_reply() == canned(250, (2, 0, 0), "Ok\r\n".spec_bytes()),
        idle_step(l, CommandView::Rset, sec, o).0 == State::Idle(
            if l == Level::Early {
                Level::Early
            } else {
                Level::Greeted
            },
        ),
{
}

/// The data handed to the sink by a list of handler calls, in order.
pub open spec fn chunk_data(calls: Seq<Call>) -> Seq<u8>
    decreases calls.len(),
{
    if calls.len() == 0 {
        Seq::empty()
    } else {
        chunk_data(calls.drop_last()) + match calls.last() {
            Call::Chunk(b) => b,
            _ => Seq::empty(),
        }
    }
}

/// At the end of message data the sink receives the data before the end
/// marker, unstuffed, with a held-back period; together with what earlier
/// steps passed on (`data_calls`, read from the state they left) this is
/// the whole body, unstuffed.
pub proof fn lemma_end_chunks(s: Seq<u8>, d: ReadData, i: int, m: int, limit: u64)
    requires
        m != 3,
    ensures
        chunk_data(end_calls(s, d, i, m, limit)) == crate::data::unstuff(s.take(i), d.dot)
            + crate::data::unstuff_end(unstuff_state(s.take(i), d.dot)),
        chunk_data(data_calls(s, d)) == crate::data::unstuff(
            s.take(forwardable(s.len() as int)),
            d.dot,
        ),
{
    let body = s.take(i);
    let u = unstuff(body, d.dot);
    let st = unstuff_state(body, d.dot);
    let c1 = seq![Call::Chunk(u)];
    let all = end_calls(s, d, i, m, limit);
    assert(c1.drop_last() =~= Seq::<Call>::empty());
    assert(chunk_data(Seq::<Call>::empty()) == Seq::<u8>::empty());
    assert(c1.last() == Call::Chunk(u));
    assert(chunk_data(c1) =~= u);
    if st == DotState::Dot {
        let c2 = c1.push(Call::Chunk(seq![46u8]));
        assert(c2.drop_last() =~= c1);
        assert(c2.last() == Call::Chunk(seq![46u8]));
        assert(chunk_data(c2) =~= u + seq![46u8]);
        assert(all.drop_last() =~= c2);
        assert(chunk_data(all) =~= u + seq![46u8]);
    } else {
        assert(all.drop_last() =~= c1);
        assert(chunk_data(all) =~= u + Seq::<u8>::empty());
    }
    let k = forwardable(s.len() as int);
    if k > 0 {
        let dc = seq![Call::Chunk(unstuff(s.take(k), d.dot))];
        assert(dc.drop_last() =~= Seq::<Call>::empty());
        assert(chunk_data(Seq::<Call>::empty()) == Seq::<u8>::empty());
        assert(chunk_data(dc) =~= unstuff(s.take(k), d.dot));
    } else {
        assert(s.take(0) =~= Seq::<u8>::empty());
    }
}

} // verus!
