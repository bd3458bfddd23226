use smtp_receiver::buf::{RecvBuf, SendBuf};
use smtp_receiver::connection::{Connection, Interest};
use smtp_receiver::handler::{Handler, Hesitant};
use smtp_receiver::null::NullProtocol;
use smtp_receiver::params::{ExpnParameters, MailParameters, RcptParameters, VrfyParameters};
use smtp_receiver::reply::ReplyBuf;
use smtp_receiver::session::{Action, Config, Level, Pending, Session, State};

fn config() -> Config {
    Config::new(b"mail.example".to_vec(), b"Cloudship".to_vec(), 10240000)
}

/// Takes everything pending, as if it had been written to the socket, and
/// goes on with waiting commands.
fn drain<H: Handler>(conn: &mut Connection<H>) -> (String, Interest) {
    let text = String::from_utf8(conn.pending().to_vec()).unwrap();
    let n = conn.pending().len();
    let interest = conn.written(n);
    (text, settle(conn, interest))
}

/// Takes pipelined commands until the connection wants something else.
fn settle<H: Handler>(conn: &mut Connection<H>, mut interest: Interest) -> Interest {
    while interest == Interest::Again {
        interest = conn.received(b"");
    }
    interest
}

/// Hands data to the connection and takes every command it completes.
fn feed<H: Handler>(conn: &mut Connection<H>, data: &[u8]) -> Interest {
    let interest = conn.received(data);
    settle(conn, interest)
}

fn greeted() -> Connection<NullProtocol> {
    let mut conn = Connection::new(NullProtocol, config(), true);
    drain(&mut conn);
    feed(&mut conn, b"EHLO client.example\r\n");
    drain(&mut conn);
    conn
}

/// A handler that records the message data and can defer MAIL once.
struct Recorder {
    data: Vec<u8>,
    defer_mail: bool,
    completed: Vec<bool>,
    resets: usize,
}

impl Recorder {
    fn new(defer_mail: bool) -> Recorder {
        Recorder { data: Vec::new(), defer_mail, completed: Vec::new(), resets: 0 }
    }
}

impl Handler for Recorder {
    fn start(&mut self) -> Hesitant<bool> {
        Hesitant::Final(true)
    }

    fn hello(&mut self, _domain: &[u8]) -> Hesitant<bool> {
        Hesitant::Final(true)
    }

    fn check_tls(&mut self, _peer_cert: Option<&[u8]>) -> Hesitant<bool> {
        Hesitant::Final(true)
    }

    fn mail(&mut self, _path: &[u8], _params: &MailParameters, reply: &mut ReplyBuf) -> Hesitant<bool> {
        if self.defer_mail {
            self.defer_mail = false;
            return Hesitant::Defer;
        }
        reply.reply(250, (2, 1, 0), b"Ok\r\n");
        Hesitant::Final(true)
    }

    fn recipient(&mut self, path: &[u8], _params: &RcptParameters, reply: &mut ReplyBuf) -> Hesitant<bool> {
        if path == b"nobody@y" {
            return Hesitant::Final(false);
        }
        reply.reply(250, (2, 1, 0), b"Ok\r\n");
        Hesitant::Final(true)
    }

    fn data(&mut self) -> Hesitant<bool> {
        Hesitant::Final(true)
    }

    fn reset(&mut self) {
        self.resets += 1;
    }

    fn chunk(&mut self, data: &[u8]) {
        self.data.extend_from_slice(data);
    }

    fn complete(&mut self, ok: bool, reply: &mut ReplyBuf) -> Hesitant<bool> {
        self.completed.push(ok);
        reply.reply(250, (2, 0, 0), b"Queued\r\n");
        Hesitant::Final(true)
    }

    fn verify(&mut self, _word: &[u8], _params: VrfyParameters, _reply: &mut ReplyBuf) -> Hesitant<bool> {
        Hesitant::Final(false)
    }

    fn expand(&mut self, _word: &[u8], _params: ExpnParameters, _reply: &mut ReplyBuf) -> Hesitant<bool> {
        Hesitant::Defer
    }

    fn help(&mut self, _word: Option<&[u8]>, reply: &mut ReplyBuf) -> Hesitant<bool> {
        let mut r = reply.start(214, None);
        reply.write(&mut r, b"line one\r\nline two\r\n");
        reply.finish(r);
        Hesitant::Final(true)
    }

    fn wakeup(&mut self, reply: &mut ReplyBuf) -> Hesitant<bool> {
        reply.reply(250, (2, 1, 0), b"Ok\r\n");
        Hesitant::Final(true)
    }
}

fn recorder_greeted(defer_mail: bool) -> Connection<Recorder> {
    let mut conn = Connection::new(Recorder::new(defer_mail), config(), true);
    drain(&mut conn);
    feed(&mut conn, b"HELO client.example\r\n");
    drain(&mut conn);
    conn
}

#[test]
fn test() {
    let mut conn = Connection::new(NullProtocol, config(), true);
    let (greeting, _) = drain(&mut conn);
    assert!(greeting.starts_with("220"));
    feed(&mut conn, b"EHLO localhost.local\r\n");
    let (reply, _) = drain(&mut conn);
    assert!(reply.starts_with("250"));
}

#[test]
fn greeting_and_ehlo() {
    let mut conn = Connection::new(NullProtocol, config(), true);
    assert_eq!(conn.interest(), Interest::Write);
    let (greeting, interest) = drain(&mut conn);
    assert_eq!(greeting, "220 mail.example ESMTP Cloudship\r\n");
    assert_eq!(interest, Interest::Read);
    assert_eq!(feed(&mut conn, b"EHLO client.example\r\n"), Interest::Write);
    let (reply, _) = drain(&mut conn);
    assert_eq!(
        reply,
        "250-mail.example\r\n250-EXPN\r\n250-HELP\r\n250-8BITMIME\r\n250-SIZE 10240000\r\n\
         250-PIPELINING\r\n250-DSN\r\n250-ETRN\r\n250-ENHANCEDSTATUSCODES\r\n250-SMTPUTF8\r\n\
         250 STARTTLS\r\n"
    );
    assert_eq!(conn.state(), State::Idle(Level::Greeted));
}

#[test]
fn pipelined_mail_transaction() {
    let mut conn = greeted();
    assert_eq!(feed(&mut conn, b"MAIL FROM:<a@x>\r\nRCPT TO:<b@y>\r\nDATA\r\n"), Interest::Write);
    let (reply, interest) = drain(&mut conn);
    assert_eq!(reply, "250 2.1.0 Ok\r\n250 2.1.0 Ok\r\n354 Go ahead.\r\n");
    assert_eq!(interest, Interest::Read);
    feed(&mut conn, b"Subject: t\r\n\r\nbody\r\n.\r\n");
    let (reply, _) = drain(&mut conn);
    assert_eq!(reply, "250 2.1.0 Ok\r\n");
    assert_eq!(conn.state(), State::Idle(Level::Greeted));
}

#[test]
fn bad_sequence_replies() {
    let mut conn = Connection::new(NullProtocol, config(), true);
    drain(&mut conn);
    feed(&mut conn, b"RCPT TO:<b@y>\r\n");
    assert_eq!(drain(&mut conn).0, "503 5.5.1 Please say 'Hello' first\r\n");
    feed(&mut conn, b"HELO client.example\r\n");
    assert_eq!(drain(&mut conn).0, "250 mail.example\r\n");
    feed(&mut conn, b"RCPT TO:<b@y>\r\n");
    assert_eq!(drain(&mut conn).0, "503 5.5.1 Need MAIL command first\r\n");
    feed(&mut conn, b"DATA\r\n");
    assert_eq!(drain(&mut conn).0, "503 5.5.1 Need MAIL command first\r\n");
    assert_eq!(conn.state(), State::Idle(Level::Greeted));
}

#[test]
fn mail_opens_transaction() {
    let mut conn = greeted();
    feed(&mut conn, b"MAIL FROM:<a@x>\r\n");
    assert_eq!(drain(&mut conn).0, "250 2.1.0 Ok\r\n");
    assert_eq!(conn.state(), State::Idle(Level::Mail(0)));
    feed(&mut conn, b"MAIL FROM:<a@x>\r\n");
    assert_eq!(drain(&mut conn).0, "503 5.5.1 Nested MAIL command\r\n");
}

#[test]
fn data_needs_recipient() {
    let mut conn = greeted();
    feed(&mut conn, b"MAIL FROM:<a@x>\r\nDATA\r\n");
    assert_eq!(drain(&mut conn).0, "250 2.1.0 Ok\r\n503 5.5.1 Need RCPT command first\r\n");
    assert_eq!(conn.state(), State::Idle(Level::Mail(0)));
}

#[test]
fn starttls_then_ehlo() {
    let mut conn = greeted();
    assert_eq!(feed(&mut conn, b"STARTTLS\r\n"), Interest::Write);
    let (reply, interest) = drain(&mut conn);
    assert_eq!(reply, "220 2.7.0 Ready to start TLS\r\n");
    assert_eq!(interest, Interest::Handshake);
    conn.tls_started();
    assert_eq!(conn.tls_established(None), Interest::Read);
    assert!(conn.is_secure());
    assert_eq!(conn.state(), State::Idle(Level::Early));
    feed(&mut conn, b"EHLO client.example\r\n");
    let (reply, _) = drain(&mut conn);
    assert!(!reply.contains("STARTTLS"));
    assert!(reply.ends_with("250 SMTPUTF8\r\n"));
    feed(&mut conn, b"STARTTLS\r\n");
    assert_eq!(drain(&mut conn).0, "500 5.5.2 Unrecognized command.\r\n");
}

#[test]
fn quit_inside_body_is_data() {
    let mut conn = recorder_greeted(false);
    feed(&mut conn, b"MAIL FROM:<a@x>\r\nRCPT TO:<b@y>\r\nDATA\r\n");
    drain(&mut conn);
    feed(&mut conn, b"QUIT\r\n..x\r\n");
    assert_eq!(conn.pending().len(), 0);
    feed(&mut conn, b".\r\n");
    assert_eq!(drain(&mut conn).0, "250 2.0.0 Queued\r\n");
    assert_eq!(conn.handler().data, b"QUIT\r\n.x".to_vec());
    assert_eq!(conn.handler().completed, vec![true]);
}

#[test]
fn deferred_mail_holds_pipeline() {
    let mut conn = recorder_greeted(true);
    assert_eq!(feed(&mut conn, b"MAIL FROM:<a@x>\r\nRCPT TO:<b@y>\r\n"), Interest::Wait);
    assert_eq!(conn.pending().len(), 0);
    assert_eq!(feed(&mut conn, b"NOOP\r\n"), Interest::Wait);
    assert_eq!(conn.pending().len(), 0);
    assert_eq!(conn.woken(), Interest::Again);
    assert_eq!(conn.received(b""), Interest::Again);
    assert_eq!(conn.received(b""), Interest::Write);
    let (reply, _) = drain(&mut conn);
    assert_eq!(reply, "250 2.1.0 Ok\r\n250 2.1.0 Ok\r\n250 2.0.0 Ok\r\n");
    assert_eq!(conn.state(), State::Idle(Level::Mail(1)));
    assert_eq!(feed(&mut conn, b""), Interest::Read);
}

#[test]
fn rset_replies_ok() {
    let mut conn = Connection::new(Recorder::new(false), config(), true);
    drain(&mut conn);
    feed(&mut conn, b"RSET\r\n");
    assert_eq!(drain(&mut conn).0, "250 2.0.0 Ok\r\n");
    assert_eq!(conn.state(), State::Idle(Level::Early));
    feed(&mut conn, b"HELO c\r\nMAIL FROM:<a@x>\r\nRSET\r\n");
    assert_eq!(drain(&mut conn).0, "250 mail.example\r\n");
    assert_eq!(drain(&mut conn).0, "250 2.1.0 Ok\r\n250 2.0.0 Ok\r\n");
    assert_eq!(conn.state(), State::Idle(Level::Greeted));
    assert_eq!(conn.handler().resets, 1);
}

#[test]
fn rejected_recipient_drops_transaction() {
    let mut conn = recorder_greeted(false);
    feed(&mut conn, b"MAIL FROM:<a@x>\r\nRCPT TO:<nobody@y>\r\n");
    assert_eq!(drain(&mut conn).0, "250 2.1.0 Ok\r\n550 5.7.1 Rejected for policy reasons\r\n");
    assert_eq!(conn.state(), State::Idle(Level::Greeted));
}

#[test]
fn ancillary_commands() {
    let mut conn = recorder_greeted(false);
    feed(&mut conn, b"VRFY someone\r\n");
    assert_eq!(drain(&mut conn).0, "550 5.7.1 Rejected for policy reasons\r\n");
    feed(&mut conn, b"HELP\r\n");
    assert_eq!(drain(&mut conn).0, "214-line one\r\n214 line two\r\n");
    assert_eq!(feed(&mut conn, b"EXPN list\r\n"), Interest::Wait);
    assert_eq!(conn.woken(), Interest::Write);
    assert_eq!(drain(&mut conn).0, "250 2.1.0 Ok\r\n");
    assert_eq!(conn.state(), State::Idle(Level::Greeted));
}

#[test]
fn parse_errors_and_quit() {
    let mut conn = greeted();
    feed(&mut conn, b"FOO bar\r\n");
    assert_eq!(drain(&mut conn).0, "500 5.5.2 Unrecognized command.\r\n");
    feed(&mut conn, b"MAIL TO:<a@x>\r\n");
    assert_eq!(drain(&mut conn).0, "501 5.5.4 Error in command parameters.\r\n");
    feed(&mut conn, b"noop\r\n");
    assert_eq!(drain(&mut conn).0, "250 2.0.0 Ok\r\n");
    assert_eq!(feed(&mut conn, b"QUIT\r\n"), Interest::Write);
    let (reply, interest) = drain(&mut conn);
    assert_eq!(reply, "221 2.0.0 Bye\r\n");
    assert_eq!(interest, Interest::Close);
}

#[test]
fn message_over_limit() {
    let mut conn = Connection::new(Recorder::new(false), Config::new(b"m".to_vec(), b"s".to_vec(), 5), true);
    drain(&mut conn);
    feed(&mut conn, b"HELO c\r\nMAIL FROM:<a@x>\r\nRCPT TO:<b@y>\r\nDATA\r\n");
    assert_eq!(drain(&mut conn).0, "250 m\r\n");
    assert_eq!(drain(&mut conn).0, "250 2.1.0 Ok\r\n250 2.1.0 Ok\r\n354 Go ahead.\r\n");
    feed(&mut conn, b"123456789\r\n.\r\n");
    assert_eq!(drain(&mut conn).0, "552 5.3.4 Message size exceeds fixed limit\r\n");
    assert_eq!(conn.handler().completed, vec![false]);
    assert_eq!(conn.handler().data, b"123456789".to_vec());
}

#[test]
fn data_keeps_last_four_bytes() {
    let mut conn = recorder_greeted(false);
    feed(&mut conn, b"MAIL FROM:<a@x>\r\nRCPT TO:<b@y>\r\nDATA\r\n");
    drain(&mut conn);
    feed(&mut conn, b"abcdefgh\r\n.");
    assert_eq!(conn.handler().data, b"abcdefg".to_vec());
    assert_eq!(conn.pending().len(), 0);
    feed(&mut conn, b"\r\n");
    assert_eq!(conn.handler().data, b"abcdefgh".to_vec());
    assert_eq!(drain(&mut conn).0, "250 2.0.0 Queued\r\n");
}

#[test]
fn session_refused_start() {
    struct Refuse;
    impl Handler for Refuse {
        fn start(&mut self) -> Hesitant<bool> { Hesitant::Final(false) }
        fn hello(&mut self, _d: &[u8]) -> Hesitant<bool> { Hesitant::Final(false) }
        fn check_tls(&mut self, _c: Option<&[u8]>) -> Hesitant<bool> { Hesitant::Final(false) }
        fn mail(&mut self, _p: &[u8], _q: &MailParameters, _r: &mut ReplyBuf) -> Hesitant<bool> { Hesitant::Final(false) }
        fn recipient(&mut self, _p: &[u8], _q: &RcptParameters, _r: &mut ReplyBuf) -> Hesitant<bool> { Hesitant::Final(false) }
        fn data(&mut self) -> Hesitant<bool> { Hesitant::Final(false) }
        fn reset(&mut self) {}
        fn chunk(&mut self, _d: &[u8]) {}
        fn complete(&mut self, _ok: bool, _r: &mut ReplyBuf) -> Hesitant<bool> { Hesitant::Final(false) }
        fn verify(&mut self, _w: &[u8], _p: VrfyParameters, _r: &mut ReplyBuf) -> Hesitant<bool> { Hesitant::Final(false) }
        fn expand(&mut self, _w: &[u8], _p: ExpnParameters, _r: &mut ReplyBuf) -> Hesitant<bool> { Hesitant::Final(false) }
        fn help(&mut self, _w: Option<&[u8]>, _r: &mut ReplyBuf) -> Hesitant<bool> { Hesitant::Final(false) }
        fn wakeup(&mut self, _r: &mut ReplyBuf) -> Hesitant<bool> { Hesitant::Final(false) }
    }
    let mut send = SendBuf::new();
    let (session, _) = Session::new(Refuse, config(), &mut send);
    assert_eq!(send.as_slice(), b"554 5.5.0 Connection refused.\r\n");
    assert_eq!(session.state(), State::Dead);
    let mut session = session;
    let mut recv = RecvBuf::new();
    recv.append(b"RSET\r\nMAIL FROM:<a@x>\r\n");
    let before = send.len();
    assert_eq!(session.receive(&mut recv, &mut send, false), Action::Write);
    assert_eq!(&send.whole()[before..], b"250 2.0.0 Ok\r\n");
    let before = send.len();
    session.receive(&mut recv, &mut send, false);
    assert_eq!(&send.whole()[before..], b"503 5.5.1 Please leave now\r\n");
    assert_eq!(session.state(), State::Dead);
}

#[test]
fn lost_connection_releases_transaction() {
    let mut conn = recorder_greeted(false);
    feed(&mut conn, b"MAIL FROM:<a@x>\r\nRCPT TO:<b@y>\r\nDATA\r\n");
    drain(&mut conn);
    feed(&mut conn, b"partial body");
    conn.lost();
    assert_eq!(conn.handler().resets, 1);
    assert_eq!(conn.state(), State::Dead);
    let mut idle = recorder_greeted(false);
    idle.lost();
    assert_eq!(idle.handler().resets, 0);
}

#[test]
fn empty_message() {
    let mut conn = recorder_greeted(false);
    feed(&mut conn, b"MAIL FROM:<a@x>\r\nRCPT TO:<b@y>\r\nDATA\r\n");
    drain(&mut conn);
    feed(&mut conn, b".\r\n");
    assert_eq!(drain(&mut conn).0, "250 2.0.0 Queued\r\n");
    assert_eq!(conn.handler().data, Vec::<u8>::new());
    assert_eq!(conn.handler().completed, vec![true]);
    feed(&mut conn, b"MAIL FROM:<a@x>\r\nRCPT TO:<b@y>\r\nDATA\r\n");
    drain(&mut conn);
    feed(&mut conn, b".x\r\n.\r\n");
    assert_eq!(drain(&mut conn).0, "250 2.0.0 Queued\r\n");
    assert_eq!(conn.handler().data, b".x".to_vec());
}

#[test]
fn timeout_closes() {
    let mut conn = recorder_greeted(false);
    feed(&mut conn, b"MAIL FROM:<a@x>\r\n");
    drain(&mut conn);
    assert_eq!(conn.timed_out(), Interest::Close);
    assert_eq!(conn.state(), State::Dead);
    assert_eq!(conn.handler().resets, 1);
}

#[test]
fn resolve_deferred_mail() {
    let mut send = SendBuf::new();
    let (mut session, action) = Session::new(Recorder::new(true), config(), &mut send);
    assert_eq!(action, Action::Write);
    let mut recv = RecvBuf::new();
    recv.append(b"HELO c\r\nMAIL FROM:<a@x>\r\n");
    assert_eq!(session.receive(&mut recv, &mut send, false), Action::Write);
    assert_eq!(session.receive(&mut recv, &mut send, false), Action::Wait);
    assert_eq!(session.state(), State::Wait(Pending::Mail));
    let before = send.len();
    let a = session.resolve(Hesitant::Final(false), &ReplyBuf::new(), &mut send, false);
    assert_eq!(a, Action::Collect);
    assert_eq!(&send.whole()[before..], b"550 5.7.1 Rejected for policy reasons\r\n");
    assert_eq!(session.state(), State::Idle(Level::Greeted));
    let before = send.len();
    assert_eq!(session.resolve(Hesitant::Final(true), &ReplyBuf::new(), &mut send, false), Action::Read);
    assert_eq!(send.len(), before);
}

#[test]
fn resolve_deferred_hello_and_data() {
    let mut send = SendBuf::new();
    let (mut session, _) = Session::new(Recorder::new(false), config(), &mut send);
    let mut recv = RecvBuf::new();
    recv.append(b"EHLO c\r\n");
    session.receive(&mut recv, &mut send, true);
    recv.append(b"MAIL FROM:<a@x>\r\nRCPT TO:<b@y>\r\n");
    session.receive(&mut recv, &mut send, true);
    session.receive(&mut recv, &mut send, true);
    assert_eq!(session.state(), State::Idle(Level::Mail(1)));
    recv.append(b"DATA\r\n");
    session.receive(&mut recv, &mut send, true);
    assert!(matches!(session.state(), State::Data(_)));
    let mut reply = ReplyBuf::new();
    reply.reply(451, (4, 3, 0), b"Try later\r\n");
    let before = send.len();
    assert_eq!(session.resolve(Hesitant::Final(true), &reply, &mut send, true), Action::Read);
    assert_eq!(send.len(), before);
    let mut waiting = SendBuf::new();
    let (mut s2, _) = Session::new(NullProtocol, config(), &mut waiting);
    assert_eq!(s2.wakeup(&mut waiting, false), Action::Read);
}

#[test]
fn overlong_command_line() {
    let mut conn = greeted();
    let line = vec![b'x'; 1001];
    assert_eq!(conn.received(&line), Interest::Write);
    let (reply, interest) = drain(&mut conn);
    assert_eq!(reply, "500 5.5.6 Line too long\r\n");
    assert_eq!(interest, Interest::Close);
    assert_eq!(conn.state(), State::Dead);
}

#[test]
fn starttls_not_offered() {
    let mut conn = Connection::new(NullProtocol, config(), false);
    drain(&mut conn);
    feed(&mut conn, b"EHLO client.example\r\n");
    let (reply, _) = drain(&mut conn);
    assert!(reply.ends_with("250 SMTPUTF8\r\n"));
    feed(&mut conn, b"STARTTLS\r\n");
    assert_eq!(drain(&mut conn).0, "500 5.5.2 Unrecognized command.\r\n");
}

#[test]
fn data_refused_and_hello_refused() {
    struct Picky;
    impl Handler for Picky {
        fn start(&mut self) -> Hesitant<bool> { Hesitant::Final(true) }
        fn hello(&mut self, d: &[u8]) -> Hesitant<bool> { Hesitant::Final(d != b"bad.example") }
        fn check_tls(&mut self, _c: Option<&[u8]>) -> Hesitant<bool> { Hesitant::Final(true) }
        fn mail(&mut self, _p: &[u8], _q: &MailParameters, _r: &mut ReplyBuf) -> Hesitant<bool> { Hesitant::Final(true) }
        fn recipient(&mut self, _p: &[u8], _q: &RcptParameters, _r: &mut ReplyBuf) -> Hesitant<bool> { Hesitant::Final(true) }
        fn data(&mut self) -> Hesitant<bool> { Hesitant::Final(false) }
        fn reset(&mut self) {}
        fn chunk(&mut self, _d: &[u8]) {}
        fn complete(&mut self, _ok: bool, _r: &mut ReplyBuf) -> Hesitant<bool> { Hesitant::Final(true) }
        fn verify(&mut self, _w: &[u8], _p: VrfyParameters, _r: &mut ReplyBuf) -> Hesitant<bool> { Hesitant::Final(true) }
        fn expand(&mut self, _w: &[u8], _p: ExpnParameters, _r: &mut ReplyBuf) -> Hesitant<bool> { Hesitant::Final(true) }
        fn help(&mut self, _w: Option<&[u8]>, _r: &mut ReplyBuf) -> Hesitant<bool> { Hesitant::Final(true) }
        fn wakeup(&mut self, _r: &mut ReplyBuf) -> Hesitant<bool> { Hesitant::Final(true) }
    }
    let mut conn = Connection::new(Picky, config(), true);
    drain(&mut conn);
    feed(&mut conn, b"HELO good.example\r\n");
    drain(&mut conn);
    feed(&mut conn, b"MAIL FROM:<a@x>\r\nRCPT TO:<b@y>\r\nDATA\r\n");
    assert_eq!(drain(&mut conn).0, "250 2.0.0 Ok\r\n250 2.0.0 Ok\r\n554 5.5.0 Mail failed\r\n");
    assert_eq!(conn.state(), State::Idle(Level::Greeted));
    feed(&mut conn, b"HELO bad.example\r\n");
    let (reply, interest) = drain(&mut conn);
    assert_eq!(reply, "550 Rejected for policy reasons\r\n");
    assert_eq!(interest, Interest::Close);
    assert_eq!(conn.state(), State::Dead);
}
