use smtp_receiver::command::{parse_command, Command};
use smtp_receiver::path::{
    check_address_literal, check_domain, check_dot_string, check_mailbox, check_path,
    check_quoted_string,
};

#[test]
fn mailboxes() {
    assert!(check_mailbox(b"a@x"));
    assert!(check_mailbox(b"first.last@mail.example.com"));
    assert!(check_mailbox(b"\"john q\\\"x\"@example.org"));
    assert!(check_mailbox(b"\"a@b\"@c"));
    assert!(check_mailbox(b"user@[192.0.2.1]"));
    assert!(!check_mailbox(b"no-at-sign"));
    assert!(!check_mailbox(b"a..b@x"));
    assert!(!check_mailbox(b"a@-x.com"));
    assert!(!check_mailbox(b"a@x..com"));
    assert!(!check_mailbox(b"@x"));
}

#[test]
fn path_parts() {
    assert!(check_dot_string(b"a.b+c"));
    assert!(!check_dot_string(b".a"));
    assert!(check_quoted_string(b"\"\""));
    assert!(!check_quoted_string(b"\"a\\\""));
    assert!(check_domain(b"mail-1.example"));
    assert!(!check_domain(b"mail-.example"));
    assert!(check_address_literal(b"[IPv6:::1]"));
    assert!(!check_address_literal(b"[]"));
    assert!(check_path(b"@relay.example,@other.example:user@example.com"));
    assert!(!check_path(b"@relay.example user@example.com"));
}

#[test]
fn paths_in_commands() {
    assert!(matches!(parse_command(b"MAIL FROM:<>\r\n"), Some((Command::Mail(_, _), _))));
    assert!(matches!(parse_command(b"MAIL FROM:<bad path>\r\n"), Some((Command::ParameterError, _))));
    assert!(matches!(parse_command(b"RCPT TO:<postmaster>\r\n"), Some((Command::Rcpt(_, _), _))));
    assert!(matches!(parse_command(b"RCPT TO:<>\r\n"), Some((Command::ParameterError, _))));
}

#[test]
fn hello_arguments() {
    assert!(matches!(parse_command(b"HELO mail.example\r\n"), Some((Command::Helo(_), _))));
    assert!(matches!(parse_command(b"HELO [192.0.2.1]\r\n"), Some((Command::ParameterError, _))));
    assert!(matches!(parse_command(b"EHLO [192.0.2.1]\r\n"), Some((Command::Ehlo(_), _))));
    assert!(matches!(parse_command(b"EHLO bad_name\r\n"), Some((Command::ParameterError, _))));
}
