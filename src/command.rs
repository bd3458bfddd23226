//! The SMTP command grammar.
//!
//! A command is one line ended by CRLF. The verb is matched without regard
//! to ASCII case, and spaces or tabs before the CRLF are ignored.
use vstd::prelude::*;
use vstd::string::StringSliceAdditionalSpecFns;
use crate::path::{
    check_address_literal, check_domain, check_path, is_address_literal, is_domain, is_path,
};
use crate::params::{
    mail_params, parse_smtputf8, rcpt_params, smtputf8_param, ExpnParameters, MailParameters,
    MailParamsView, RcptParameters, RcptParamsView, VrfyParameters,
};

verus! {

/// A parsed command, with its arguments as raw bytes.
pub enum Command {
    /// `HELO domain`.
    Helo(Vec<u8>),
    /// `EHLO domain`, or an address literal.
    Ehlo(Vec<u8>),
    /// `MAIL FROM:<path> params`: the path without its brackets, and the
    /// parameters.
    Mail(Vec<u8>, MailParameters),
    /// `RCPT TO:<path> params`.
    Rcpt(Vec<u8>, RcptParameters),
    Data,
    Rset,
    /// `VRFY word [SMTPUTF8]`.
    Vrfy(Vec<u8>, VrfyParameters),
    /// `EXPN word [SMTPUTF8]`.
    Expn(Vec<u8>, ExpnParameters),
    Help(Option<Vec<u8>>),
    Noop,
    Quit,
    StartTls,
    Auth(Vec<u8>),
    Bdat(Vec<u8>),
    /// A verb that is not known.
    Unrecognized,
    /// A known verb with arguments that do not fit it.
    ParameterError,
}

/// What a command is, with sequences in place of vectors.
pub enum CommandView {
    Helo(Seq<u8>),
    Ehlo(Seq<u8>),
    Mail(Seq<u8>, MailParamsView),
    Rcpt(Seq<u8>, RcptParamsView),
    Data,
    Rset,
    Vrfy(Seq<u8>, VrfyParameters),
    Expn(Seq<u8>, ExpnParameters),
    Help(Option<Seq<u8>>),
    Noop,
    Quit,
    StartTls,
    Auth(Seq<u8>),
    Bdat(Seq<u8>),
    Unrecognized,
    ParameterError,
}

impl View for Command {
    type V = CommandView;

    open spec fn view(&self) -> CommandView {
        match self {
            Command::Helo(d) => CommandView::Helo(d@),
            Command::Ehlo(d) => CommandView::Ehlo(d@),
            Command::Mail(p, q) => CommandView::Mail(p@, q@),
            Command::Rcpt(p, q) => CommandView::Rcpt(p@, q@),
            Command::Data => CommandView::Data,
            Command::Rset => CommandView::Rset,
            Command::Vrfy(w, p) => CommandView::Vrfy(w@, *p),
            Command::Expn(w, p) => CommandView::Expn(w@, *p),
            Command::Help(w) => CommandView::Help(
                match w {
                    Some(w) => Some(w@),
                    None => None,
                },
            ),
            Command::Noop => CommandView::Noop,
            Command::Quit => CommandView::Quit,
            Command::StartTls => CommandView::StartTls,
            Command::Auth(a) => CommandView::Auth(a@),
            Command::Bdat(a) => CommandView::Bdat(a@),
            Command::Unrecognized => CommandView::Unrecognized,
            Command::ParameterError => CommandView::ParameterError,
        }
    }
}

pub open spec fn lower(b: u8) -> u8 {
    if 65 <= b <= 90 {
        (b + 32) as u8
    } else {
        b
    }
}

/// Equal but for ASCII case.
pub open spec fn eq_ci(a: Seq<u8>, b: Seq<u8>) -> bool {
    a.len() == b.len() && forall|i: int| 0 <= i < a.len() ==> lower(a[i]) == lower(b[i])
}

/// `a` starts with `p`, but for ASCII case.
pub open spec fn starts_ci(a: Seq<u8>, p: Seq<u8>) -> bool {
    p.len() <= a.len() && eq_ci(a.subrange(0, p.len() as int), p)
}

pub open spec fn is_wsp(b: u8) -> bool {
    b == 32u8 || b == 9u8
}

/// `i` is the first index holding `b`.
pub open spec fn first_at(s: Seq<u8>, b: u8, i: int) -> bool {
    0 <= i < s.len() && s[i] == b && forall|j: int| 0 <= j < i ==> s[j] != b
}

/// The index of the first `b` in `s`, or its length if there is none.
pub open spec fn first_index(s: Seq<u8>, b: u8) -> int {
    if exists|i: int| first_at(s, b, i) {
        choose|i: int| first_at(s, b, i)
    } else {
        s.len() as int
    }
}

/// CRLF starts at index `i`.
pub open spec fn crlf_at(s: Seq<u8>, i: int) -> bool {
    0 <= i && i + 1 < s.len() && s[i] == 13u8 && s[i + 1] == 10u8
}

/// `i` is the first index at which CRLF starts.
pub open spec fn first_crlf_at(s: Seq<u8>, i: int) -> bool {
    &&& crlf_at(s, i)
    &&& forall|j: int| 0 <= j < i ==> !crlf_at(s, j)
}

/// Where trailing spaces and tabs begin.
pub open spec fn trimmed_end(s: Seq<u8>) -> int
    decreases s.len(),
{
    if s.len() > 0 && is_wsp(s.last()) {
        trimmed_end(s.drop_last())
    } else {
        s.len() as int
    }
}

/// A path argument `<path>`, optionally followed by a space and
/// parameters.
pub open spec fn parse_path(a: Seq<u8>) -> Option<(Seq<u8>, Seq<u8>)> {
    let close = first_index(a, 62u8);
    if a.len() == 0 || a[0] != 60u8 || close == a.len() {
        None
    } else {
        let rest = a.subrange(close + 1, a.len() as int);
        if rest.len() == 0 {
            Some((a.subrange(1, close), rest))
        } else if rest[0] == 32u8 {
            Some((a.subrange(1, close), rest.skip(1)))
        } else {
            None
        }
    }
}

pub open spec fn path_command(arg: Seq<u8>, lead: Seq<u8>, mail: bool) -> CommandView {
    if !starts_ci(arg, lead) {
        CommandView::ParameterError
    } else {
        match parse_path(arg.skip(lead.len() as int)) {
            None => CommandView::ParameterError,
            Some((p, q)) => if mail {
                if !(p.len() == 0 || is_path(p)) {
                    CommandView::ParameterError
                } else {
                    match mail_params(q) {
                        Some(mp) => CommandView::Mail(p, mp),
                        None => CommandView::ParameterError,
                    }
                }
            } else {
                if !(eq_ci(p, "Postmaster".spec_bytes()) || is_path(p)) {
                    CommandView::ParameterError
                } else {
                    match rcpt_params(q) {
                        Some(rp) => CommandView::Rcpt(p, rp),
                        None => CommandView::ParameterError,
                    }
                }
            },
        }
    }
}

/// The word of VRFY or EXPN and what follows it after a space.
pub open spec fn word_and_rest(arg: Seq<u8>) -> Option<(Seq<u8>, bool)> {
    let sp = first_index(arg, 32u8);
    let rest = if sp < arg.len() {
        arg.subrange(sp + 1, arg.len() as int)
    } else {
        Seq::empty()
    };
    if sp == 0 {
        None
    } else {
        match smtputf8_param(rest) {
            Some(u) => Some((arg.subrange(0, sp), u)),
            None => None,
        }
    }
}

/// The command that a line without its CRLF holds.
pub open spec fn parse_line(line: Seq<u8>) -> CommandView {
    let t = line.subrange(0, trimmed_end(line));
    let sp = first_index(t, 32u8);
    let verb = t.subrange(0, sp);
    let arg = if sp < t.len() {
        t.subrange(sp + 1, t.len() as int)
    } else {
        Seq::empty()
    };
    if eq_ci(verb, "HELO".spec_bytes()) {
        if is_domain(arg) {
            CommandView::Helo(arg)
        } else {
            CommandView::ParameterError
        }
    } else if eq_ci(verb, "EHLO".spec_bytes()) {
        if is_domain(arg) || is_address_literal(arg) {
            CommandView::Ehlo(arg)
        } else {
            CommandView::ParameterError
        }
    } else if eq_ci(verb, "MAIL".spec_bytes()) {
        path_command(arg, "FROM:".spec_bytes(), true)
    } else if eq_ci(verb, "RCPT".spec_bytes()) {
        path_command(arg, "TO:".spec_bytes(), false)
    } else if eq_ci(verb, "DATA".spec_bytes()) {
        if arg.len() == 0 {
            CommandView::Data
        } else {
            CommandView::ParameterError
        }
    } else if eq_ci(verb, "RSET".spec_bytes()) {
        if arg.len() == 0 {
            CommandView::Rset
        } else {
            CommandView::ParameterError
        }
    } else if eq_ci(verb, "VRFY".spec_bytes()) {
        match word_and_rest(arg) {
            Some((w, u)) => CommandView::Vrfy(w, VrfyParameters { smtputf8: u }),
            None => CommandView::ParameterError,
        }
    } else if eq_ci(verb, "EXPN".spec_bytes()) {
        match word_and_rest(arg) {
            Some((w, u)) => CommandView::Expn(w, ExpnParameters { smtputf8: u }),
            None => CommandView::ParameterError,
        }
    } else if eq_ci(verb, "HELP".spec_bytes()) {
        if arg.len() > 0 {
            CommandView::Help(Some(arg))
        } else {
            CommandView::Help(None)
        }
    } else if eq_ci(verb, "NOOP".spec_bytes()) {
        CommandView::Noop
    } else if eq_ci(verb, "QUIT".spec_bytes()) {
        if arg.len() == 0 {
            CommandView::Quit
        } else {
            CommandView::ParameterError
        }
    } else if eq_ci(verb, "STARTTLS".spec_bytes()) {
        if arg.len() == 0 {
            CommandView::StartTls
        } else {
            CommandView::ParameterError
        }
    } else if eq_ci(verb, "AUTH".spec_bytes()) {
        if arg.len() > 0 {
            CommandView::Auth(arg)
        } else {
            CommandView::ParameterError
        }
    } else if eq_ci(verb, "BDAT".spec_bytes()) {
        if arg.len() > 0 {
            CommandView::Bdat(arg)
        } else {
            CommandView::ParameterError
        }
    } else {
        CommandView::Unrecognized
    }
}

/// What parsing the start of `input` gives: the command on the first line
/// and the length of that line with its CRLF, or nothing while no CRLF has
/// arrived.
pub open spec fn parse_spec(input: Seq<u8>) -> Option<(CommandView, int)> {
    if exists|k: int| first_crlf_at(input, k) {
        let k = choose|k: int| first_crlf_at(input, k);
        Some((parse_line(input.subrange(0, k)), k + 2))
    } else {
        None
    }
}

fn lower_exec(b: u8) -> (r: u8)
    ensures
        r == lower(b),
{
    if 65u8 <= b && b <= 90u8 {
        b + 32u8
    } else {
        b
    }
}

/// Compares two byte strings without regard to ASCII case.
pub fn eq_ignore_case(a: &[u8], b: &[u8]) -> (r: bool)
    ensures
        r == eq_ci(a@, b@),
{
    if a.len() != b.len() {
        return false;
    }
    let mut i: usize = 0;
    while i < a.len()
        invariant
            a@.len() == b@.len(),
            i <= a@.len(),
            forall|j: int| 0 <= j < i ==> lower(a@[j]) == lower(b@[j]),
        decreases a@.len() - i,
    {
        if lower_exec(a[i]) != lower_exec(b[i]) {
            return false;
        }
        i = i + 1;
    }
    true
}

/// Finds the first `b` in `s`; returns the length of `s` if there is none.
pub(crate) fn find_byte(s: &[u8], b: u8) -> (r: usize)
    ensures
        r as int == first_index(s@, b),
        r <= s@.len(),
{
    let mut i: usize = 0;
    while i < s.len()
        invariant
            i <= s@.len(),
            forall|j: int| 0 <= j < i ==> s@[j] != b,
        decreases s@.len() - i,
    {
        if s[i] == b {
            proof {
                assert(first_at(s@, b, i as int));
                let c = choose|c: int| first_at(s@, b, c);
                if c < i {
                } else if c > i {
                }
            }
            return i;
        }
        i = i + 1;
    }
    proof {
        assert(!exists|c: int| first_at(s@, b, c));
    }
    i
}

/// Finds where the trailing spaces and tabs of `s` begin.
fn trim_end(s: &[u8]) -> (r: usize)
    ensures
        r as int == trimmed_end(s@),
        r <= s@.len(),
{
    let mut n: usize = s.len();
    proof {
        assert(s@.subrange(0, n as int) =~= s@);
    }
    while n > 0 && (s[n - 1] == 32u8 || s[n - 1] == 9u8)
        invariant
            n <= s@.len(),
            trimmed_end(s@.subrange(0, n as int)) == trimmed_end(s@),
        decreases n,
    {
        proof {
            assert(s@.subrange(0, n as int).drop_last() =~= s@.subrange(0, n - 1));
        }
        n = n - 1;
    }
    proof {
        assert(s@.subrange(0, n as int).len() == n);
    }
    n
}

fn parse_path_exec(a: &[u8]) -> (r: Option<(Vec<u8>, Vec<u8>)>)
    ensures
        match r {
            None => parse_path(a@) is None,
            Some((p, q)) => parse_path(a@) == Some((p@, q@)),
        },
{
    let close = find_byte(a, 62u8);
    if a.len() == 0 || a[0] != 60u8 || close == a.len() {
        return None;
    }
    proof {
        assert(first_at(a@, 62u8, close as int));
    }
    let rest = vstd::slice::slice_subrange(a, close + 1, a.len());
    let path = vstd::slice::slice_to_vec(vstd::slice::slice_subrange(a, 1, close));
    if rest.len() == 0 {
        Some((path, Vec::new()))
    } else if rest[0] == 32u8 {
        let params = vstd::slice::slice_to_vec(vstd::slice::slice_subrange(rest, 1, rest.len()));
        proof {
            assert(params@ =~= rest@.skip(1));
        }
        Some((path, params))
    } else {
        None
    }
}

fn path_command_exec(arg: &[u8], lead: &[u8], mail: bool) -> (r: Command)
    ensures
        r@ == path_command(arg@, lead@, mail),
{
    if lead.len() > arg.len() || !eq_ignore_case(vstd::slice::slice_subrange(arg, 0, lead.len()), lead) {
        return Command::ParameterError;
    }
    let tail = vstd::slice::slice_subrange(arg, lead.len(), arg.len());
    proof {
        assert(tail@ =~= arg@.skip(lead@.len() as int));
    }
    match parse_path_exec(tail) {
        None => Command::ParameterError,
        Some((p, q)) => if mail {
            if !(p.len() == 0 || check_path(p.as_slice())) {
                Command::ParameterError
            } else {
                match MailParameters::parse(q.as_slice()) {
                    Some(mp) => Command::Mail(p, mp),
                    None => Command::ParameterError,
                }
            }
        } else {
            if !(eq_ignore_case(p.as_slice(), "Postmaster".as_bytes()) || check_path(p.as_slice())) {
                Command::ParameterError
            } else {
                match RcptParameters::parse(q.as_slice()) {
                    Some(rp) => Command::Rcpt(p, rp),
                    None => Command::ParameterError,
                }
            }
        },
    }
}

fn word_and_rest_exec(arg: &[u8]) -> (r: Option<(Vec<u8>, bool)>)
    ensures
        match r {
            Some((w, u)) => word_and_rest(arg@) == Some((w@, u)),
            None => word_and_rest(arg@) is None,
        },
{
    let sp = find_byte(arg, 32u8);
    let rest = if sp < arg.len() {
        vstd::slice::slice_subrange(arg, sp + 1, arg.len())
    } else {
        vstd::slice::slice_subrange(arg, arg.len(), arg.len())
    };
    proof {
        if sp >= arg@.len() {
            assert(rest@ =~= Seq::<u8>::empty());
        }
    }
    if sp == 0 {
        return None;
    }
    match parse_smtputf8(rest) {
        Some(u) => Some((vstd::slice::slice_to_vec(vstd::slice::slice_subrange(arg, 0, sp)), u)),
        None => None,
    }
}

/// Parses one line without its CRLF.
pub fn parse_line_exec(line: &[u8]) -> (r: Command)
    ensures
        r@ == parse_line(line@),
{
    let end = trim_end(line);
    let t = vstd::slice::slice_subrange(line, 0, end);
    let sp = find_byte(t, 32u8);
    let verb = vstd::slice::slice_subrange(t, 0, sp);
    let arg: Vec<u8> = if sp < t.len() {
        vstd::slice::slice_to_vec(vstd::slice::slice_subrange(t, sp + 1, t.len()))
    } else {
        Vec::new()
    };
    proof {
        assert(t@ == line@.subrange(0, trimmed_end(line@)));
        let a = if sp < t@.len() {
            t@.subrange(sp + 1, t@.len() as int)
        } else {
            Seq::empty()
        };
        assert(arg@ =~= a);
    }
    let n = arg.len();
    if eq_ignore_case(verb, "HELO".as_bytes()) {
        if check_domain(arg.as_slice()) {
            Command::Helo(arg)
        } else {
            Command::ParameterError
        }
    } else if eq_ignore_case(verb, "EHLO".as_bytes()) {
        if check_domain(arg.as_slice()) || check_address_literal(arg.as_slice()) {
            Command::Ehlo(arg)
        } else {
            Command::ParameterError
        }
    } else if eq_ignore_case(verb, "MAIL".as_bytes()) {
        path_command_exec(arg.as_slice(), "FROM:".as_bytes(), true)
    } else if eq_ignore_case(verb, "RCPT".as_bytes()) {
        path_command_exec(arg.as_slice(), "TO:".as_bytes(), false)
    } else if eq_ignore_case(verb, "DATA".as_bytes()) {
        if n == 0 {
            Command::Data
        } else {
            Command::ParameterError
        }
    } else if eq_ignore_case(verb, "RSET".as_bytes()) {
        if n == 0 {
            Command::Rset
        } else {
            Command::ParameterError
        }
    } else if eq_ignore_case(verb, "VRFY".as_bytes()) {
        match word_and_rest_exec(arg.as_slice()) {
            Some((w, u)) => Command::Vrfy(w, VrfyParameters { smtputf8: u }),
            None => Command::ParameterError,
        }
    } else if eq_ignore_case(verb, "EXPN".as_bytes()) {
        match word_and_rest_exec(arg.as_slice()) {
            Some((w, u)) => Command::Expn(w, ExpnParameters { smtputf8: u }),
            None => Command::ParameterError,
        }
    } else if eq_ignore_case(verb, "HELP".as_bytes()) {
        if n > 0 {
            Command::Help(Some(arg))
        } else {
            Command::Help(None)
        }
    } else if eq_ignore_case(verb, "NOOP".as_bytes()) {
        Command::Noop
    } else if eq_ignore_case(verb, "QUIT".as_bytes()) {
        if n == 0 {
            Command::Quit
        } else {
            Command::ParameterError
        }
    } else if eq_ignore_case(verb, "STARTTLS".as_bytes()) {
        if n == 0 {
            Command::StartTls
        } else {
            Command::ParameterError
        }
    } else if eq_ignore_case(verb, "AUTH".as_bytes()) {
        if n > 0 {
            Command::Auth(arg)
        } else {
            Command::ParameterError
        }
    } else if eq_ignore_case(verb, "BDAT".as_bytes()) {
        if n > 0 {
            Command::Bdat(arg)
        } else {
            Command::ParameterError
        }
    } else {
        Command::Unrecognized
    }
}

/// Parses the command at the start of `input`.
///
/// Returns the command and the number of bytes its line takes, CRLF
/// included, or `None` if no complete line has arrived yet.
pub fn parse_command(input: &[u8]) -> (r: Option<(Command, usize)>)
    ensures
        match r {
            None => parse_spec(input@) is None,
            Some((c, n)) => parse_spec(input@) == Some((c@, n as int)),
        },
{
    let len = input.len();
    if len < 2 {
        return None;
    }
    let mut i: usize = 0;
    while i < len - 1
        invariant
            len == input@.len(),
            len >= 2,
            i <= len - 1,
            forall|j: int| 0 <= j < i ==> !crlf_at(input@, j),
        decreases len - 1 - i,
    {
        if input[i] == 13u8 && input[i + 1] == 10u8 {
            proof {
                assert(first_crlf_at(input@, i as int));
                let c = choose|c: int| first_crlf_at(input@, c);
                if c < i {
                } else if c > i {
                }
            }
            let cmd = parse_line_exec(vstd::slice::slice_subrange(input, 0, i));
            return Some((cmd, i + 2));
        }
        i = i + 1;
    }
    None
}

} // verus!
