use smtp_receiver::imap4::{Tag, Wildcard};

#[test]
fn test_format() {
    assert_eq!(Tag::Tagged(b"a01".to_vec()).to_string(), "a01");
    assert_eq!(Tag::Untagged.to_string(), "*");
    assert_eq!(Wildcard::Segment.to_string(), "%");
}

#[test]
fn test_parse() {
    assert_eq!(Tag::parse(b"*"), Some((Tag::Untagged, 1)));
    assert_eq!(Tag::parse(b"a001"), Some((Tag::Tagged(b"a001".to_vec()), 4)));
}

#[test]
fn tag_stops_at_special() {
    assert_eq!(Tag::parse(b"a1+x"), Some((Tag::Tagged(b"a1".to_vec()), 2)));
    assert_eq!(Tag::parse(b"(x"), None);
    assert_eq!(Tag::parse(b""), None);
    assert_eq!(Wildcard::Anything.to_string(), "*");
}
