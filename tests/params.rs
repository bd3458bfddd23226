use smtp_receiver::command::{parse_command, Command};
use smtp_receiver::params::{
    BodyValue, DsnAddressType, MailParameters, NotifyValue, OrcptParameter, RcptParameters,
    RetValue, Xtext,
};

#[test]
fn mail_parameters_all() {
    let p = MailParameters::parse(b"BODY=8bitmime  SIZE=12345 RET=HDRS ENVID=QQ+2B AUTH=<> SMTPUTF8").unwrap();
    assert_eq!(p.body, Some(BodyValue::EightBitMime));
    assert_eq!(p.size, Some(12345));
    assert_eq!(p.ret, Some(RetValue::Hdrs));
    assert_eq!(p.envid, Some(Xtext(b"QQ+2B".to_vec())));
    assert_eq!(p.auth, Some(Xtext(b"<>".to_vec())));
    assert!(p.smtputf8);
    assert_eq!(MailParameters::parse(b""), Some(MailParameters::new()));
}

#[test]
fn mail_parameters_rejected() {
    assert_eq!(MailParameters::parse(b"BODY=9BIT"), None);
    assert_eq!(MailParameters::parse(b"SIZE=18446744073709551616"), None);
    assert_eq!(MailParameters::parse(b"SIZE=18446744073709551615").unwrap().size, Some(u64::MAX));
    assert_eq!(MailParameters::parse(b"SIZE="), None);
    assert_eq!(MailParameters::parse(b"SIZE=12a"), None);
    assert_eq!(MailParameters::parse(b"ENVID=a+2"), None);
    assert_eq!(MailParameters::parse(b"SMTPUTF8=yes"), None);
    assert_eq!(MailParameters::parse(b"FOO=bar"), None);
    assert!(matches!(parse_command(b"MAIL FROM:<a@x> BODY=9BIT\r\n"), Some((Command::ParameterError, _))));
}

#[test]
fn rcpt_parameters() {
    let p = RcptParameters::parse(b"NOTIFY=SUCCESS,delay ORCPT=rfc822;b@y").unwrap();
    assert_eq!(p.notify, Some(NotifyValue { success: true, failure: false, delay: true }));
    assert_eq!(p.orcpt, Some(OrcptParameter { addr_type: DsnAddressType::Rfc822, addr: Xtext(b"b@y".to_vec()) }));
    assert_eq!(NotifyValue::parse(b"never"), Some(NotifyValue::new()));
    assert_eq!(NotifyValue::parse(b"SUCCESS,SOMETIMES"), None);
    assert_eq!(OrcptParameter::parse(b"x500;a"), None);
    assert_eq!(OrcptParameter::parse(b"utf-8"), None);
    assert_eq!(DsnAddressType::parse(b"X400"), Some(DsnAddressType::X400));
    assert_eq!(RcptParameters::parse(b"NOTIFY"), None);
    match parse_command(b"RCPT TO:<b@y> NOTIFY=FAILURE\r\n") {
        Some((Command::Rcpt(path, params), _)) => {
            assert_eq!(path, b"b@y".to_vec());
            assert_eq!(params.notify, Some(NotifyValue { success: false, failure: true, delay: false }));
        }
        _ => panic!("RCPT not parsed"),
    }
}

#[test]
fn vrfy_and_expn_parameters() {
    match parse_command(b"VRFY user smtputf8\r\n") {
        Some((Command::Vrfy(word, params), _)) => {
            assert_eq!(word, b"user".to_vec());
            assert!(params.smtputf8);
        }
        _ => panic!("VRFY not parsed"),
    }
    match parse_command(b"EXPN list\r\n") {
        Some((Command::Expn(word, params), _)) => {
            assert_eq!(word, b"list".to_vec());
            assert!(!params.smtputf8);
        }
        _ => panic!("EXPN not parsed"),
    }
    assert!(matches!(parse_command(b"VRFY user OTHER\r\n"), Some((Command::ParameterError, _))));
    assert!(matches!(parse_command(b"VRFY\r\n"), Some((Command::ParameterError, _))));
}
