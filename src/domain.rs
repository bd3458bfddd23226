//! Domain names as sequences of labels, and their presentation format.
//!
//! In the presentation format labels are separated by `.`; a `\` escapes
//! the next character, or gives a byte as three decimal digits.
use vstd::prelude::*;
use vstd::string::StrSliceExecFns;

verus! {

/// What can go wrong with domain data.
#[derive(PartialEq, Eq, Structural, Clone, Copy, Debug)]
pub enum Error {
    /// A class code was invalid.
    InvalidClass,
    /// A class name was invalid.
    InvalidClassName,
    /// A domain name was invalid.
    InvalidDomainName,
}

impl Error {
    /// A short description of the error.
    pub fn description(&self) -> (r: &'static str)
        ensures
            r@ == match self {
                Error::InvalidClass => "invalid class"@,
                Error::InvalidClassName => "invalid class name"@,
                Error::InvalidDomainName => "invalid domain name"@,
            },
    {
        match self {
            Error::InvalidClass => "invalid class",
            Error::InvalidClassName => "invalid class name",
            Error::InvalidDomainName => "invalid domain name",
        }
    }
}

/// The value of an ASCII decimal digit character.
pub open spec fn digit_value(c: char) -> int {
    (c as int) - 48
}

pub open spec fn is_digit_char(c: char) -> bool {
    '0' <= c <= '9'
}

/// A character that stands for itself in a label: printable ASCII but for
/// `.` and `\`.
pub open spec fn is_plain(c: char) -> bool {
    (' ' <= c <= '-') || ('/' <= c <= '[') || (']' <= c <= '~')
}

/// `acc` with `b` added to its last label.
pub open spec fn push_byte(acc: Seq<Seq<u8>>, b: u8) -> Seq<Seq<u8>> {
    acc.update(acc.len() - 1, acc.last().push(b))
}

/// The labels that the characters `cs` add to `acc`, or `None` if they are
/// not a valid presentation.
pub open spec fn parse_chars(cs: Seq<char>, acc: Seq<Seq<u8>>) -> Option<Seq<Seq<u8>>>
    decreases cs.len(),
{
    if cs.len() == 0 {
        Some(acc)
    } else {
        let c = cs[0];
        if c == '.' {
            parse_chars(cs.drop_first(), acc.push(Seq::empty()))
        } else if c == '\\' {
            if cs.len() < 2 {
                None
            } else if is_digit_char(cs[1]) {
                if cs.len() < 4 || !is_digit_char(cs[2]) || !is_digit_char(cs[3]) {
                    None
                } else {
                    let v = digit_value(cs[1]) * 100 + digit_value(cs[2]) * 10 + digit_value(cs[3]);
                    parse_chars(cs.skip(4), push_byte(acc, (v % 256) as u8))
                }
            } else {
                parse_chars(cs.skip(2), push_byte(acc, ((cs[1] as int) % 256) as u8))
            }
        } else if is_plain(c) {
            parse_chars(cs.drop_first(), push_byte(acc, (c as int) as u8))
        } else {
            None
        }
    }
}

/// The labels that a presentation string names.
pub open spec fn parse_name(cs: Seq<char>) -> Option<Seq<Seq<u8>>> {
    parse_chars(cs, seq![Seq::<u8>::empty()])
}

/// The ASCII digit for a value below ten.
pub open spec fn digit_char(v: int) -> char {
    ((v + 48) as u8) as char
}

/// How a byte of a label is presented.
pub open spec fn escape_byte(u: u8) -> Seq<char> {
    if u == 46u8 {
        seq!['\\', '.']
    } else if u == 92u8 {
        seq!['\\', '\\']
    } else if 32 <= u < 128 {
        seq![u as char]
    } else {
        seq!['\\', digit_char(u as int / 100), digit_char((u as int / 10) % 10), digit_char(u as int % 10)]
    }
}

/// How a label is presented.
pub open spec fn escape_label(l: Seq<u8>) -> Seq<char>
    decreases l.len(),
{
    if l.len() == 0 {
        Seq::empty()
    } else {
        escape_label(l.drop_last()) + escape_byte(l.last())
    }
}

/// How a name is presented: its labels separated by `.`.
pub open spec fn present(labels: Seq<Seq<u8>>) -> Seq<char>
    decreases labels.len(),
{
    if labels.len() == 0 {
        Seq::empty()
    } else if labels.len() == 1 {
        escape_label(labels[0])
    } else {
        present(labels.drop_last()) + seq!['.'] + escape_label(labels.last())
    }
}

pub open spec fn lower(b: u8) -> u8 {
    if 65 <= b <= 90 {
        (b + 32) as u8
    } else {
        b
    }
}

/// Two labels are the same name but for ASCII case.
pub open spec fn label_eq(a: Seq<u8>, b: Seq<u8>) -> bool {
    a.len() == b.len() && forall|i: int| 0 <= i < a.len() ==> lower(a[i]) == lower(b[i])
}

/// Two names are the same but for ASCII case.
pub open spec fn name_eq(a: Seq<Seq<u8>>, b: Seq<Seq<u8>>) -> bool {
    a.len() == b.len() && forall|i: int| 0 <= i < a.len() ==> label_eq(a[i], b[i])
}

/// Relies on String::push: the character is appended to the string.
#[verifier::external_body]
pub(crate) fn push_char(s: &mut String, c: char)
    ensures
        final(s)@ == old(s)@.push(c),
{
    s.push(c)
}

/// A domain name as a sequence of labels.
#[derive(Debug)]
pub struct DomainName {
    labels: Vec<Vec<u8>>,
}

impl View for DomainName {
    type V = Seq<Seq<u8>>;

    closed spec fn view(&self) -> Seq<Seq<u8>> {
        Seq::new(self.labels@.len(), |i: int| self.labels@[i]@)
    }
}

impl DomainName {
    /// A name from its labels, as they are.
    pub fn from_labels(labels: Vec<Vec<u8>>) -> (r: DomainName)
        ensures
            r@ == Seq::new(labels@.len(), |i: int| labels@[i]@),
    {
        DomainName { labels }
    }

    /// The number of labels.
    pub fn len(&self) -> (r: usize)
        ensures
            r == self@.len(),
    {
        self.labels.len()
    }

    /// A label, as it is.
    pub fn label(&self, i: usize) -> (r: &[u8])
        requires
            i < self@.len(),
        ensures
            r@ == self@[i as int],
    {
        self.labels[i].as_slice()
    }

    /// Reads a name in presentation format.
    ///
    /// A name that ends in `.` ends with an empty label.
    pub fn from_str(s: &str) -> (r: Result<DomainName, Error>)
        ensures
            match r {
                Ok(n) => parse_name(s@) == Some(n@),
                Err(e) => parse_name(s@) is None && e == Error::InvalidDomainName,
            },
    {
        let n = s.unicode_len();
        let mut labels: Vec<Vec<u8>> = Vec::new();
        labels.push(Vec::new());
        let mut i: usize = 0;
        proof {
            assert(s@.skip(0) =~= s@);
            assert(Seq::new(labels@.len(), |k: int| labels@[k]@) =~= seq![Seq::<u8>::empty()]);
        }
        while i < n
            invariant
                n == s@.len(),
                i <= n,
                labels@.len() >= 1,
                parse_name(s@) == parse_chars(
                    s@.skip(i as int),
                    Seq::new(labels@.len(), |k: int| labels@[k]@),
                ),
            decreases n - i,
        {
            let ghost acc = Seq::new(labels@.len(), |k: int| labels@[k]@);
            let ghost rest = s@.skip(i as int);
            let c = s.get_char(i);
            assert(rest[0] == c);
            if c == '.' {
                labels.push(Vec::new());
                i = i + 1;
                proof {
                    assert(rest.drop_first() =~= s@.skip(i as int));
                    assert(Seq::new(labels@.len(), |k: int| labels@[k]@) =~= acc.push(
                        Seq::empty(),
                    ));
                }
            } else if c == '\\' {
                if n - i < 2 {
                    return Err(Error::InvalidDomainName);
                }
                let e = s.get_char(i + 1);
                assert(rest[1] == e);
                let b: u8;
                if '0' <= e && e <= '9' {
                    if n - i < 4 {
                        return Err(Error::InvalidDomainName);
                    }
                    let d2 = s.get_char(i + 2);
                    let d3 = s.get_char(i + 3);
                    assert(rest[2] == d2);
                    assert(rest[3] == d3);
                    if !('0' <= d2 && d2 <= '9') || !('0' <= d3 && d3 <= '9') {
                        return Err(Error::InvalidDomainName);
                    }
                    let v: u32 = (e as u32 - 48) * 100 + (d2 as u32 - 48) * 10 + (d3 as u32 - 48);
                    b = (v % 256) as u8;
                    i = i + 4;
                    proof {
                        assert(rest.skip(4) =~= s@.skip(i as int));
                    }
                } else {
                    b = ((e as u32) % 256) as u8;
                    i = i + 2;
                    proof {
                        assert(rest.skip(2) =~= s@.skip(i as int));
                    }
                }
                let last = labels.len() - 1;
                let mut label = labels.pop().unwrap();
                label.push(b);
                labels.push(label);
                proof {
                    assert(Seq::new(labels@.len(), |k: int| labels@[k]@) =~= push_byte(acc, b));
                }
            } else if (' ' <= c && c <= '-') || ('/' <= c && c <= '[') || (']' <= c && c <= '~') {
                let b = (c as u32) as u8;
                let mut label = labels.pop().unwrap();
                label.push(b);
                labels.push(label);
                i = i + 1;
                proof {
                    assert(rest.drop_first() =~= s@.skip(i as int));
                    assert(Seq::new(labels@.len(), |k: int| labels@[k]@) =~= push_byte(acc, b));
                }
            } else {
                return Err(Error::InvalidDomainName);
            }
        }
        proof {
            assert(s@.skip(n as int) =~= Seq::<char>::empty());
        }
        Ok(DomainName { labels })
    }

    /// The name in presentation format.
    pub fn to_string(&self) -> (r: String)
        ensures
            r@ == present(self@),
    {
        let mut res = String::new();
        let mut i: usize = 0;
        while i < self.labels.len()
            invariant
                i <= self@.len(),
                self@.len() == self.labels@.len(),
                res@ == present(self@.subrange(0, i as int)),
            decreases self@.len() - i,
        {
            if i > 0 {
                push_char(&mut res, '.');
            }
            let ghost before = res@;
            let label = self.labels[i].as_slice();
            let mut j: usize = 0;
            while j < label.len()
                invariant
                    j <= label@.len(),
                    res@ == before + escape_label(label@.subrange(0, j as int)),
                decreases label@.len() - j,
            {
                let u = label[j];
                if u == 46u8 {
                    push_char(&mut res, '\\');
                    push_char(&mut res, '.');
                } else if u == 92u8 {
                    push_char(&mut res, '\\');
                    push_char(&mut res, '\\');
                } else if 32u8 <= u && u < 128u8 {
                    push_char(&mut res, u as char);
                } else {
                    push_char(&mut res, '\\');
                    push_char(&mut res, (u / 100 + 48) as char);
                    push_char(&mut res, ((u / 10) % 10 + 48) as char);
                    push_char(&mut res, (u % 10 + 48) as char);
                }
                proof {
                    assert(label@.subrange(0, j + 1).drop_last() =~= label@.subrange(0, j as int));
                    assert(res@ =~= before + escape_label(label@.subrange(0, j + 1)));
                }
                j = j + 1;
            }
            proof {
                assert(label@.subrange(0, label@.len() as int) =~= label@);
                assert(self@[i as int] == label@);
                let p = self@.subrange(0, i + 1);
                assert(p.drop_last() =~= self@.subrange(0, i as int));
                if i == 0 {
                    assert(p =~= seq![label@]);
                }
            }
            i = i + 1;
        }
        proof {
            assert(self@.subrange(0, self@.len() as int) =~= self@);
        }
        res
    }
}

fn label_eq_exec(a: &[u8], b: &[u8]) -> (r: bool)
    ensures
        r == label_eq(a@, b@),
{
    if a.len() != b.len() {
        return false;
    }
    let mut i: usize = 0;
    while i < a.len()
        invariant
            a@.len() == b@.len(),
            i <= a@.len(),
            forall|j: int| 0 <= j < i ==> lower(a@[j]) == lower(b@[j]),
        decreases a@.len() - i,
    {
        let x = if 65u8 <= a[i] && a[i] <= 90u8 { a[i] + 32 } else { a[i] };
        let y = if 65u8 <= b[i] && b[i] <= 90u8 { b[i] + 32 } else { b[i] };
        if x != y {
            return false;
        }
        i = i + 1;
    }
    true
}

impl PartialEq for DomainName {
    /// Names are compared without regard to ASCII case.
    fn eq(&self, other: &DomainName) -> (r: bool)
        ensures
            r == name_eq(self@, other@),
    {
        if self.labels.len() != other.labels.len() {
            return false;
        }
        let mut i: usize = 0;
        while i < self.labels.len()
            invariant
                self@.len() == other@.len(),
                self.labels@.len() == self@.len(),
                other.labels@.len() == other@.len(),
                i <= self@.len(),
                forall|j: int| 0 <= j < i ==> label_eq(self@[j], other@[j]),
            decreases self@.len() - i,
        {
            assert(self@[i as int] == self.labels@[i as int]@);
            assert(other@[i as int] == other.labels@[i as int]@);
            if !label_eq_exec(self.labels[i].as_slice(), other.labels[i].as_slice()) {
                return false;
            }
            i = i + 1;
        }
        true
    }
}

impl vstd::std_specs::cmp::PartialEqSpecImpl for DomainName {
    open spec fn obeys_eq_spec() -> bool {
        true
    }

    open spec fn eq_spec(&self, other: &DomainName) -> bool {
        name_eq(self@, other@)
    }
}

} // verus!
