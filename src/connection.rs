//! Driving a session from socket events.
//!
//! The connection owns the buffers and the session, turns each `Action`
//! into what to watch the socket for, and feeds readiness, wakeups and
//! handshakes back in. Each call makes at most one step of the session.
//! The socket itself belongs to the caller, who reads into
//! [`Connection::received`], writes from [`Connection::pending`] and
//! reports back through [`Connection::written`].
use vstd::prelude::*;
use crate::buf::{RecvBuf, SendBuf};
use crate::handler::Handler;
use crate::reply::{is_reply_stream, lemma_empty_stream, lemma_stream_concat};
use crate::session::{
    decision, has_transaction, own_reply, receive_post, replies_added, reset_if, start_step,
    tls_step, wake_step, Action, Call, Config, Pending, Session, State,
};

verus! {

/// What to do once everything queued has been written.
#[derive(PartialEq, Eq, Structural, Clone, Copy, Debug)]
pub enum AndThen {
    /// Go back to reading.
    Receive,
    /// Close the connection.
    Close,
    /// Start a TLS handshake.
    StartTls,
}

/// Where the connection is headed.
#[derive(PartialEq, Eq, Structural, Clone, Copy, Debug)]
pub enum Direction {
    /// Receive data and pass it to the session.
    Receive,
    /// More commands are waiting in the receive buffer: take the next one
    /// before writing the replies collected so far.
    Collect,
    /// Wait for a wakeup.
    Wait,
    /// Write what is queued, then go on.
    Reply(AndThen),
}

/// What the socket is to be watched for, or done with, next.
#[derive(PartialEq, Eq, Structural, Clone, Copy, Debug)]
pub enum Interest {
    /// Readable.
    Read,
    /// Call [`Connection::received`] again, with no new data: the next
    /// pipelined command is waiting.
    Again,
    /// Writable.
    Write,
    /// Nothing: a wakeup will come.
    Wait,
    /// Run the server side of a TLS handshake now.
    Handshake,
    /// Remove the connection.
    Close,
}

/// The direction an action sets, given whether the receive buffer is
/// empty afterwards.
pub open spec fn direction_of(a: Action, recv_empty: bool) -> Direction {
    match a {
        Action::Read => Direction::Receive,
        Action::Wait => Direction::Wait,
        Action::Write => Direction::Reply(AndThen::Receive),
        Action::Collect => if recv_empty {
            Direction::Reply(AndThen::Receive)
        } else {
            Direction::Collect
        },
        Action::StartTls => Direction::Reply(AndThen::StartTls),
        Action::Close => Direction::Reply(AndThen::Close),
    }
}

/// What to watch for in a direction, given whether anything waits to be
/// written.
pub open spec fn interest_of(d: Direction, nothing_pending: bool) -> Interest {
    match d {
        Direction::Receive => Interest::Read,
        Direction::Collect => Interest::Again,
        Direction::Wait => Interest::Wait,
        Direction::Reply(t) => if !nothing_pending {
            Interest::Write
        } else {
            match t {
                AndThen::Receive => Interest::Read,
                AndThen::Close => Interest::Close,
                AndThen::StartTls => Interest::Handshake,
            }
        },
    }
}

/// Turns an action into a direction.
pub fn direction(a: Action, recv_empty: bool) -> (r: Direction)
    ensures
        r == direction_of(a, recv_empty),
{
    match a {
        Action::Read => Direction::Receive,
        Action::Wait => Direction::Wait,
        Action::Write => Direction::Reply(AndThen::Receive),
        Action::Collect => if recv_empty {
            Direction::Reply(AndThen::Receive)
        } else {
            Direction::Collect
        },
        Action::StartTls => Direction::Reply(AndThen::StartTls),
        Action::Close => Direction::Reply(AndThen::Close),
    }
}

proof fn lemma_keeps_stream(a: SendBuf, b: SendBuf)
    requires
        is_reply_stream(a.contents()),
        replies_added(a, b),
    ensures
        is_reply_stream(b.contents()),
{
    let x = b.contents().skip(a.contents().len() as int);
    lemma_stream_concat(a.contents(), x);
    assert(b.contents() =~= a.contents() + x);
}

/// An SMTP connection apart from its socket.
pub struct Connection<H: Handler> {
    session: Session<H>,
    recv: RecvBuf,
    send: SendBuf,
    direction: Direction,
    secure: bool,
    /// Whether STARTTLS is offered at all.
    offer_tls: bool,
    /// The action of the session's last step.
    action: Ghost<Action>,
}

impl<H: Handler> Connection<H> {
    /// Everything queued for sending since the buffer was last emptied is
    /// complete, well-formed replies.
    pub closed spec fn wf(&self) -> bool {
        is_reply_stream(self.send.contents())
    }

    pub closed spec fn spec_session(&self) -> Session<H> {
        self.session
    }

    pub closed spec fn spec_send(&self) -> SendBuf {
        self.send
    }

    pub closed spec fn spec_direction(&self) -> Direction {
        self.direction
    }

    /// The action of the session's last step.
    pub closed spec fn last_action(&self) -> Action {
        self.action@
    }

    pub open spec fn spec_state(&self) -> State {
        self.spec_session().spec_state()
    }

    pub open spec fn spec_pending(&self) -> Seq<u8> {
        self.spec_send().pending()
    }

    pub closed spec fn spec_received(&self) -> Seq<u8> {
        self.recv@
    }

    pub closed spec fn spec_secure(&self) -> bool {
        self.secure
    }

    pub closed spec fn spec_offer_tls(&self) -> bool {
        self.offer_tls
    }

    /// What the session is told of security: STARTTLS is refused and not
    /// announced once the connection is secure, or where TLS is not offered.
    pub open spec fn tls_closed(&self) -> bool {
        self.spec_secure() || !self.spec_offer_tls()
    }

    /// Opens a connection: the handler is asked to start the session.
    ///
    /// `offer_tls` says whether STARTTLS is offered to the client.
    pub fn new(handler: H, config: Config, offer_tls: bool) -> (r: Connection<H>)
        ensures
            r.wf(),
            !r.spec_secure(),
            r.spec_offer_tls() == offer_tls,
            r.spec_received() == Seq::<u8>::empty(),
            r.spec_session().calls() == seq![Call::Start],
            (r.spec_state(), r.last_action()) == start_step(r.spec_session().outcome()),
            r.spec_direction() == direction_of(r.last_action(), true),
            r.spec_pending() == own_reply(
                Pending::Start,
                decision(r.spec_session().outcome()),
                Seq::empty(),
                config.spec_hostname(),
                config.spec_systemname(),
                config.spec_limit(),
                false,
            ),
    {
        let recv = RecvBuf::new();
        let mut send = SendBuf::new();
        let ghost empty = send;
        let (session, action) = Session::new(handler, config, &mut send);
        proof {
            lemma_empty_stream();
            lemma_keeps_stream(empty, send);
            assert(send.pending() =~= send.contents());
        }
        Connection {
            session,
            recv,
            send,
            direction: direction(action, true),
            secure: false,
            offer_tls,
            action: Ghost(action),
        }
    }

    /// What to watch the socket for.
    pub fn interest(&self) -> (r: Interest)
        ensures
            r == interest_of(self.spec_direction(), self.spec_pending().len() == 0),
    {
        match self.direction {
            Direction::Receive => Interest::Read,
            Direction::Collect => Interest::Again,
            Direction::Wait => Interest::Wait,
            Direction::Reply(t) => if !self.send.is_empty() {
                Interest::Write
            } else {
                match t {
                    AndThen::Receive => Interest::Read,
                    AndThen::Close => Interest::Close,
                    AndThen::StartTls => Interest::Handshake,
                }
            },
        }
    }

    /// The bytes waiting to be written.
    pub fn pending(&self) -> (r: &[u8])
        ensures
            r@ == self.spec_pending(),
    {
        self.send.as_slice()
    }

    pub fn is_secure(&self) -> (r: bool)
        ensures
            r == self.spec_secure(),
    {
        self.secure
    }

    /// The state of the session.
    pub fn state(&self) -> (r: State)
        ensures
            r == self.spec_state(),
    {
        self.session.state()
    }

    /// The handler.
    pub fn handler(&self) -> &H {
        self.session.handler()
    }

    /// Data has arrived from the client.
    ///
    /// When the connection is receiving or collecting, the session takes
    /// one step on it; otherwise it waits in the buffer until the session
    /// is ready for it.
    pub fn received(&mut self, data: &[u8]) -> (r: Interest)
        requires
            old(self).wf(),
        ensures
            final(self).wf(),
            final(self).spec_secure() == old(self).spec_secure(),
            final(self).spec_offer_tls() == old(self).spec_offer_tls(),
            r == interest_of(final(self).spec_direction(), final(self).spec_pending().len() == 0),
            old(self).spec_direction() == Direction::Receive || old(self).spec_direction()
                == Direction::Collect ==> {
                &&& receive_post(
                    old(self).spec_session(),
                    final(self).spec_session(),
                    old(self).spec_received() + data@,
                    final(self).spec_received(),
                    old(self).spec_send(),
                    final(self).spec_send(),
                    old(self).tls_closed(),
                    final(self).last_action(),
                )
                &&& final(self).spec_direction() == direction_of(
                    final(self).last_action(),
                    final(self).spec_received().len() == 0,
                )
            },
            !(old(self).spec_direction() == Direction::Receive || old(self).spec_direction()
                == Direction::Collect) ==> {
                &&& final(self).spec_received() == old(self).spec_received() + data@
                &&& final(self).spec_direction() == old(self).spec_direction()
                &&& final(self).spec_send() == old(self).spec_send()
                &&& final(self).spec_session() == old(self).spec_session()
            },
    {
        self.recv.append(data);
        if self.direction == Direction::Receive || self.direction == Direction::Collect {
            let ghost before = self.send;
            let a = self.session.receive(&mut self.recv, &mut self.send, self.secure || !self.offer_tls);
            proof {
                lemma_keeps_stream(before, self.send);
            }
            self.action = Ghost(a);
            self.direction = direction(a, self.recv.is_empty());
        }
        self.interest()
    }

    /// `n` bytes of what was pending have been written.
    ///
    /// Once everything is written after a reply, the connection goes back
    /// to receiving, or to collecting if commands are already waiting.
    pub fn written(&mut self, n: usize) -> (r: Interest)
        requires
            old(self).wf(),
        ensures
            final(self).wf(),
            final(self).spec_secure() == old(self).spec_secure(),
            final(self).spec_offer_tls() == old(self).spec_offer_tls(),
            final(self).spec_session() == old(self).spec_session(),
            final(self).spec_received() == old(self).spec_received(),
            final(self).spec_pending() == old(self).spec_pending().skip(
                if n <= old(self).spec_pending().len() {
                    n as int
                } else {
                    old(self).spec_pending().len() as int
                },
            ),
            final(self).spec_direction() == if n >= old(self).spec_pending().len()
                && old(self).spec_direction() == Direction::Reply(AndThen::Receive) {
                if old(self).spec_received().len() == 0 {
                    Direction::Receive
                } else {
                    Direction::Collect
                }
            } else {
                old(self).spec_direction()
            },
            r == interest_of(final(self).spec_direction(), final(self).spec_pending().len() == 0),
    {
        let done = self.send.advance(n);
        proof {
            if done {
                lemma_empty_stream();
            }
        }
        if done && self.direction == Direction::Reply(AndThen::Receive) {
            self.direction = if self.recv.is_empty() {
                Direction::Receive
            } else {
                Direction::Collect
            };
        }
        self.interest()
    }

    /// The handler has asked, through its notifier, to be consulted again.
    pub fn woken(&mut self) -> (r: Interest)
        requires
            old(self).wf(),
        ensures
            final(self).wf(),
            final(self).spec_received() == old(self).spec_received(),
            r == interest_of(final(self).spec_direction(), final(self).spec_pending().len() == 0),
            old(self).spec_direction() == Direction::Wait && old(self).spec_state() is Wait ==> {
                &&& final(self).spec_session().calls() == old(self).spec_session().calls().push(
                    Call::Wakeup,
                )
                &&& (final(self).spec_state(), final(self).last_action()) == wake_step(
                    old(self).spec_state()->Wait_0,
                    final(self).spec_session().outcome(),
                )
                &&& final(self).spec_send().contents() == old(self).spec_send().contents()
                    + own_reply(
                    old(self).spec_state()->Wait_0,
                    decision(final(self).spec_session().outcome()),
                    final(self).spec_session().written(),
                    old(self).spec_session().spec_hostname(),
                    old(self).spec_session().spec_systemname(),
                    old(self).spec_session().spec_limit(),
                    old(self).tls_closed(),
                )
                &&& final(self).spec_direction() == direction_of(
                    final(self).last_action(),
                    final(self).spec_received().len() == 0,
                )
            },
            !(old(self).spec_direction() == Direction::Wait && old(self).spec_state() is Wait)
                ==> final(self).spec_session() == old(self).spec_session()
                && final(self).spec_direction() == old(self).spec_direction()
                && final(self).spec_send() == old(self).spec_send(),
    {
        if self.direction != Direction::Wait {
            return self.interest();
        }
        if let State::Wait(_) = self.session.state() {
            let ghost before = self.send;
            let a = self.session.wakeup(&mut self.send, self.secure || !self.offer_tls);
            proof {
                lemma_keeps_stream(before, self.send);
            }
            self.action = Ghost(a);
            self.direction = direction(a, self.recv.is_empty());
        }
        self.interest()
    }

    /// The handshake is about to begin: whatever the client sent in the
    /// clear after STARTTLS is dropped.
    pub fn tls_started(&mut self)
        requires
            old(self).wf(),
        ensures
            final(self).wf(),
            final(self).spec_received() == Seq::<u8>::empty(),
            final(self).spec_direction() == old(self).spec_direction(),
            final(self).spec_session() == old(self).spec_session(),
            final(self).spec_send() == old(self).spec_send(),
    {
        self.recv.clear();
    }

    /// The socket failed or the client went away: whatever the handler
    /// holds for an open transaction is released.
    pub fn lost(&mut self)
        requires
            old(self).wf(),
        ensures
            final(self).wf(),
            final(self).spec_state() == State::Dead,
            final(self).spec_session().calls() =~= old(self).spec_session().calls() + if has_transaction(
                old(self).spec_state(),
            ) {
                seq![Call::Reset]
            } else {
                Seq::<Call>::empty()
            },
    {
        self.session.abort();
    }

    /// The client has been idle for too long: the session ends, releasing
    /// an open transaction, and the connection closes once anything queued
    /// has been written.
    pub fn timed_out(&mut self) -> (r: Interest)
        requires
            old(self).wf(),
        ensures
            final(self).wf(),
            final(self).spec_state() == State::Dead,
            final(self).spec_session().calls() =~= old(self).spec_session().calls() + if has_transaction(
                old(self).spec_state(),
            ) {
                seq![Call::Reset]
            } else {
                Seq::<Call>::empty()
            },
            final(self).spec_direction() == Direction::Reply(AndThen::Close),
            r == interest_of(final(self).spec_direction(), final(self).spec_pending().len() == 0),
    {
        self.session.abort();
        self.direction = Direction::Reply(AndThen::Close);
        self.interest()
    }

    /// The TLS handshake has completed; the connection is now secure.
    pub fn tls_established(&mut self, peer_cert: Option<&[u8]>) -> (r: Interest)
        requires
            old(self).wf(),
        ensures
            final(self).wf(),
            final(self).spec_secure(),
            final(self).spec_send() == old(self).spec_send(),
            match old(self).spec_state() {
                State::Idle(l) => {
                    &&& (final(self).spec_state(), final(self).last_action()) == tls_step(
                        final(self).spec_session().outcome(),
                    )
                    &&& final(self).spec_session().calls() =~= old(self).spec_session().calls()
                        + reset_if(l).push(Call::CheckTls)
                },
                _ => final(self).last_action() == Action::Close && final(self).spec_state()
                    == old(self).spec_state(),
            },
            final(self).spec_direction() == direction_of(
                final(self).last_action(),
                final(self).spec_received().len() == 0,
            ),
            r == interest_of(final(self).spec_direction(), final(self).spec_pending().len() == 0),
    {
        self.secure = true;
        let a = self.session.confirm_tls(peer_cert);
        self.action = Ghost(a);
        self.direction = direction(a, self.recv.is_empty());
        self.interest()
    }
}

} // verus!
