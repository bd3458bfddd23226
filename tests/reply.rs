use smtp_receiver::buf::{RecvBuf, SendBuf};
use smtp_receiver::command::{parse_command, Command};
use smtp_receiver::data::{unstuff_chunk, DotState};
use smtp_receiver::reply::{Reply, ReplyBuf};
use smtp_receiver::scribe::{Scribble, Scribe};

#[test]
fn multi_line_reply() {
    let mut send = SendBuf::new();
    let mut r = Reply::new(&mut send, 250, Some((2, 0, 0)));
    r.scribble_bytes(&mut send, b"first\r\nsec");
    r.scribble_bytes(&mut send, b"ond\r\n");
    r.scribble_bytes(&mut send, b"");
    r.scribble_bytes(&mut send, b"third\r\n");
    r.finish(&mut send);
    assert_eq!(send.as_slice(), b"250-2.0.0 first\r\n250-2.0.0 second\r\n250 2.0.0 third\r\n");
}

#[test]
fn reply_without_crlf_is_ended() {
    let mut send = SendBuf::new();
    Reply::reply(&mut send, 451, None, b"later");
    assert_eq!(send.as_slice(), b"451 later\r\n");
    send.reply(250, (2, 1, 5), b"Ok\r\n");
    assert_eq!(send.as_slice(), b"451 later\r\n250 2.1.5 Ok\r\n");
}

#[test]
fn reply_buf_collects_replies() {
    let mut reply = ReplyBuf::new();
    assert!(reply.is_empty());
    reply.reply(250, (2, 1, 0), b"Ok\r\n");
    let mut r = reply.start(550, Some((5, 1, 1)));
    reply.write(&mut r, b"no\nsuch\r\nuser");
    reply.finish(r);
    assert_eq!(reply.as_slice(), b"250 2.1.0 Ok\r\n550-5.1.1 nosuch\r\n550 5.1.1 user\r\n");
}

#[test]
fn send_buf_drains() {
    let mut send = SendBuf::new();
    send.scribble_bytes(b"hello");
    assert_eq!(send.len(), 5);
    assert!(!send.advance(2));
    assert_eq!(send.as_slice(), b"llo");
    send.update(4, b'O');
    assert_eq!(send.as_slice(), b"llO");
    assert!(send.advance(3));
    assert!(send.is_empty());
    assert_eq!(send.len(), 0);
}

#[test]
fn scribble_numbers() {
    let mut send = SendBuf::new();
    send.scribble_u64(0);
    send.scribble_octet(b' ');
    send.scribble_u16(599);
    send.scribble_octet(b' ');
    send.scribble_i64(-12);
    send.scribble_octet(b' ');
    send.scribble_i64(i64::MIN);
    send.scribble_octet(b' ');
    send.scribble_bool(true);
    send.scribble_str(" x");
    42u32.scribble(&mut send);
    assert_eq!(send.as_slice(), b"0 599 -12 -9223372036854775808 1 x42");
}

#[test]
fn recv_buf_finds_data_end() {
    let mut recv = RecvBuf::new();
    recv.append(b"abc\r\n.\r\nrest");
    assert_eq!(recv.find_data_end(), Some(3));
    recv.advance(8);
    assert_eq!(recv.as_slice(), b"rest");
    assert_eq!(recv.len(), 4);
    assert_eq!(recv.find_data_end(), None);
    recv.advance(100);
    assert!(recv.is_empty());
    recv.append(b"x\r\n.\r");
    assert_eq!(recv.find_data_end(), None);
    recv.clear();
    assert_eq!(recv.len(), 0);
}

#[test]
fn parse_commands() {
    match parse_command(b"mail from:<a@x> SIZE=100\r\nrest") {
        Some((Command::Mail(path, params), n)) => {
            assert_eq!(path, b"a@x".to_vec());
            assert_eq!(params.size, Some(100));
            assert_eq!(params.body, None);
            assert_eq!(n, 26);
        }
        _ => panic!("MAIL not parsed"),
    }
    assert!(parse_command(b"NOOP").is_none());
    assert!(matches!(parse_command(b"QUIT  \r\n"), Some((Command::Quit, 8))));
    assert!(matches!(parse_command(b"FOO\r\n"), Some((Command::Unrecognized, 5))));
    assert!(matches!(parse_command(b"HELO\r\n"), Some((Command::ParameterError, 6))));
    assert!(matches!(parse_command(b"RCPT TO:b@y\r\n"), Some((Command::ParameterError, _))));
    assert!(matches!(parse_command(b"StartTLS\r\n"), Some((Command::StartTls, _))));
    match parse_command(b"HELP topic\r\n") {
        Some((Command::Help(Some(w)), _)) => assert_eq!(w, b"topic".to_vec()),
        _ => panic!("HELP not parsed"),
    }
}

#[test]
fn unstuff_undoes_stuffing() {
    let (out, st) = unstuff_chunk(b"..a\r\nb\r\n..", DotState::LineStart);
    assert_eq!(out, b".a\r\nb\r\n.".to_vec());
    assert_eq!(st, DotState::Middle);
    let (out, st) = unstuff_chunk(b"x\r\n.", DotState::LineStart);
    assert_eq!(out, b"x\r\n".to_vec());
    assert_eq!(st, DotState::Dot);
    let (out, st) = unstuff_chunk(b"y", st);
    assert_eq!(out, b".y".to_vec());
    assert_eq!(st, DotState::Middle);
}

#[test]
fn long_line_is_broken() {
    let mut send = SendBuf::new();
    let mut r = Reply::new(&mut send, 250, None);
    let a = vec![b'a'; 300];
    let b = vec![b'b'; 300];
    r.scribble_bytes(&mut send, &a);
    r.scribble_bytes(&mut send, &b);
    r.finish(&mut send);
    let mut expected = b"250-".to_vec();
    expected.extend_from_slice(&a);
    expected.extend_from_slice(b"\r\n250 ");
    expected.extend_from_slice(&b);
    expected.extend_from_slice(b"\r\n");
    assert_eq!(send.as_slice(), &expected[..]);
    let mut short = SendBuf::new();
    let mut r = Reply::new(&mut short, 250, None);
    r.scribble_bytes(&mut short, b"one ");
    r.scribble_bytes(&mut short, b"line");
    r.finish(&mut short);
    assert_eq!(short.as_slice(), b"250 one line\r\n");
}
