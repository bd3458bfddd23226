use smtp_receiver::domain::{DomainName, Error};

fn name_str(s: &str) -> DomainName {
    DomainName::from_str(s).unwrap()
}

fn name_parts(parts: Vec<&str>) -> DomainName {
    DomainName::from_labels(parts.iter().map(|p| p.as_bytes().to_vec()).collect())
}

fn str_ping_pong(s: &str) {
    assert_eq!(name_str(s).to_string(), s);
}

#[test]
fn from_str_absolute_and_case() {
    assert_eq!(name_str("test.example.com."), name_parts(vec!("test", "EXAMPLE", "com", "")));
}

#[test]
fn from_str_relative() {
    assert_eq!(name_str("test.example.com"), name_parts(vec!("test", "example", "com")));
}

#[test]
fn from_str_escapes() {
    assert_eq!(name_str(r"tes\t.e\120ample.com\.com."), name_parts(vec!("test", "example", "com.com", "")));
}

#[test]
fn to_string() {
    str_ping_pong("test.example.com.");
    str_ping_pong("test.example.com");
    str_ping_pong(r"test\.e\010ample.com.");
}

#[test]
fn from_str_rejects_bad_input() {
    assert_eq!(DomainName::from_str("a\\").unwrap_err(), Error::InvalidDomainName);
    assert_eq!(DomainName::from_str("a\\1x2").unwrap_err(), Error::InvalidDomainName);
    assert_eq!(DomainName::from_str("a\u{7f}b").unwrap_err(), Error::InvalidDomainName);
    assert_eq!(Error::InvalidDomainName.description(), "invalid domain name");
}

#[test]
fn names_differ_in_labels() {
    assert_ne!(name_str("a.b"), name_str("a.c"));
    assert_ne!(name_str("a.b"), name_str("a.b."));
    let n = name_str("x\\046y");
    assert_eq!(n.len(), 1);
    assert_eq!(n.label(0), b"x.y");
}
