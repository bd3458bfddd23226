//! Pieces of IMAP4 syntax.
use vstd::prelude::*;
use crate::domain::push_char;

verus! {

#[derive(PartialEq, Eq, Structural, Clone, Copy, Debug)]
pub enum Charset {
    Utf8,
}

#[derive(PartialEq, Eq, Structural, Clone, Copy, Debug)]
pub enum Capability {
    Imap4Rev1,
}

/// A list wildcard.
#[derive(PartialEq, Eq, Structural, Clone, Copy, Debug)]
pub enum Wildcard {
    /// `*`: matches anything.
    Anything,
    /// `%`: matches within one level of the hierarchy.
    Segment,
}

impl Wildcard {
    /// The wildcard as it is written.
    pub fn to_string(&self) -> (r: String)
        ensures
            r@ == seq![
                match self {
                    Wildcard::Anything => '*',
                    Wildcard::Segment => '%',
                },
            ],
    {
        let mut res = String::new();
        match self {
            Wildcard::Anything => push_char(&mut res, '*'),
            Wildcard::Segment => push_char(&mut res, '%'),
        }
        proof {
            assert(res@ =~= seq![
                match self {
                    Wildcard::Anything => '*',
                    Wildcard::Segment => '%',
                },
            ]);
        }
        res
    }
}

/// A character of an atom: any CHAR but the atom-specials `(`, `)`, `{`,
/// SP, CTL, `%`, `*`, DQUOTE, `\` and `]`.
pub open spec fn is_atom_char(b: u8) -> bool {
    &&& 0x20 < b < 0x7f
    &&& b != 40u8 && b != 41u8 && b != 123u8
    &&& b != 37u8 && b != 42u8
    &&& b != 34u8 && b != 92u8
    &&& b != 93u8
}

/// A character of a tag: an atom character but `+`.
pub open spec fn is_tag_char(b: u8) -> bool {
    is_atom_char(b) && b != 43u8
}

fn is_tag_char_exec(b: u8) -> (r: bool)
    ensures
        r == is_tag_char(b),
{
    0x20u8 < b && b < 0x7fu8 && b != 40u8 && b != 41u8 && b != 123u8 && b != 37u8 && b != 42u8
        && b != 34u8 && b != 92u8 && b != 93u8 && b != 43u8
}

/// A command tag, or the `*` of an untagged response.
#[derive(PartialEq, Eq, Debug)]
pub enum Tag {
    Tagged(Vec<u8>),
    Untagged,
}

/// The longest run of tag characters at the start of `s`.
pub open spec fn tag_len(s: Seq<u8>, n: int) -> bool {
    &&& 0 <= n <= s.len()
    &&& forall|i: int| 0 <= i < n ==> is_tag_char(s[i])
    &&& (n == s.len() || !is_tag_char(s[n]))
}

impl Tag {
    /// The tag as it is written.
    pub fn to_string(&self) -> (r: String)
        ensures
            match self {
                Tag::Untagged => r@ == seq!['*'],
                Tag::Tagged(t) => r@ == Seq::new(t@.len(), |i: int| t@[i] as char),
            },
    {
        let mut res = String::new();
        match self {
            Tag::Untagged => {
                push_char(&mut res, '*');
                proof {
                    assert(res@ =~= seq!['*']);
                }
            },
            Tag::Tagged(t) => {
                let mut i: usize = 0;
                while i < t.len()
                    invariant
                        i <= t@.len(),
                        res@ == Seq::new(i as nat, |k: int| t@[k] as char),
                    decreases t@.len() - i,
                {
                    push_char(&mut res, t[i] as char);
                    i = i + 1;
                    proof {
                        assert(res@ =~= Seq::new(i as nat, |k: int| t@[k] as char));
                    }
                }
            },
        }
        res
    }

    /// Reads a tag, or the `*` of an untagged response, at the start of
    /// `input`.
    ///
    /// Returns it with the number of bytes it takes, or `None` if the input
    /// starts with neither.
    pub fn parse(input: &[u8]) -> (r: Option<(Tag, usize)>)
        ensures
            match r {
                None => input@.len() == 0 || (input@[0] != 42u8 && !is_tag_char(input@[0])),
                Some((Tag::Untagged, n)) => n == 1 && input@[0] == 42u8,
                Some((Tag::Tagged(t), n)) => {
                    &&& input@[0] != 42u8
                    &&& n >= 1
                    &&& tag_len(input@, n as int)
                    &&& t@ == input@.subrange(0, n as int)
                },
            },
    {
        if input.len() == 0 {
            return None;
        }
        if input[0] == 42u8 {
            return Some((Tag::Untagged, 1));
        }
        let mut n: usize = 0;
        while n < input.len() && is_tag_char_exec(input[n])
            invariant
                n <= input@.len(),
                forall|i: int| 0 <= i < n ==> is_tag_char(input@[i]),
            decreases input@.len() - n,
        {
            n = n + 1;
        }
        if n == 0 {
            None
        } else {
            let t = vstd::slice::slice_to_vec(vstd::slice::slice_subrange(input, 0, n));
            Some((Tag::Tagged(t), n))
        }
    }
}

/// Text meant for humans.
#[derive(PartialEq, Eq, Debug)]
pub struct Notice(pub Vec<u8>);

#[derive(PartialEq, Eq, Structural, Clone, Copy, Debug)]
pub struct UidValue(pub u32);

#[derive(PartialEq, Eq, Structural, Clone, Copy, Debug)]
pub struct UidValidity(pub u32);

/// A message's unique identifier within a validity period.
#[derive(PartialEq, Eq, Structural, Clone, Copy, Debug)]
pub struct Uid {
    pub value: UidValue,
    pub validity: UidValidity,
}

#[derive(PartialEq, Eq, Structural, Clone, Copy, Debug)]
pub struct MessageNumber(pub u32);

/// A message flag.
#[derive(PartialEq, Eq, Hash, Debug)]
pub enum Flag {
    Seen,
    Answered,
    Flagged,
    Deleted,
    Draft,
    Recent,
    /// A keyword flag.
    Flexible(Vec<u8>),
}

/// A set of flags.
#[derive(Debug)]
pub struct Flags(pub Vec<Flag>);

/// What can be asked of a message.
#[derive(Debug)]
pub enum MessageAttribute {
    UniqueIdentifier,
    SequenceNumber,
    Flags(Vec<Flag>),
    InternalDate,
    Size(u32),
    EnvelopeStructure,
    BodyStructure,
}

/// Response codes.
#[derive(Debug)]
pub enum ResponseCode {
    Alert(Notice),
    BadCharset(Vec<Charset>),
    Capability(Vec<Capability>),
    Parse(Notice),
    PermanentFlags(Flags),
    ReadOnly,
    ReadWrite,
    TryCreate,
    UidValidity(Uid),
    Unseen(MessageNumber),
}

} // verus!
