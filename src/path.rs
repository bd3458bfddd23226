//! The grammar of paths in MAIL and RCPT.
//!
//! A path is `[source-route ":"] local-part "@" domain`, where the local
//! part is a dot-string or a quoted string and the domain is a domain name
//! or an address literal in brackets.
use vstd::prelude::*;

verus! {

/// `atext`: the characters of an atom.
pub open spec fn is_atext(b: u8) -> bool {
    (0x21 <= b <= 0x27) || b == 0x2A || b == 0x2B || b == 0x2D || (0x2F <= b <= 0x39) || b == 0x3D
        || b == 0x3F || (0x41 <= b <= 0x5A) || (0x5E <= b <= 0x7E) || b >= 0x80
}

pub open spec fn is_let_dig(b: u8) -> bool {
    (48 <= b <= 57) || (65 <= b <= 90) || (97 <= b <= 122)
}

/// Atoms joined by single dots.
pub open spec fn is_dot_string(s: Seq<u8>) -> bool {
    &&& s.len() > 0
    &&& s[0] != 46u8
    &&& s.last() != 46u8
    &&& forall|i: int| 0 <= i < s.len() ==> #[trigger] s[i] == 46u8 || is_atext(s[i])
    &&& forall|i: int| 0 <= i < s.len() - 1 ==> !(#[trigger] s[i] == 46u8 && s[i + 1] == 46u8)
}

/// `qtextSMTP`.
pub open spec fn is_qtext(b: u8) -> bool {
    b == 32 || b == 33 || (35 <= b <= 91) || (93 <= b <= 126) || b >= 0x80
}

/// The inside of a quoted string: qtext, and `\` followed by a printable
/// character.
pub open spec fn is_quoted_body(s: Seq<u8>) -> bool
    decreases s.len(),
{
    if s.len() == 0 {
        true
    } else if s[0] == 92u8 {
        s.len() >= 2 && 32 <= s[1] <= 126 && is_quoted_body(s.skip(2))
    } else {
        is_qtext(s[0]) && is_quoted_body(s.drop_first())
    }
}

pub open spec fn is_quoted_string(s: Seq<u8>) -> bool {
    s.len() >= 2 && s[0] == 34u8 && s.last() == 34u8 && is_quoted_body(s.subrange(1, s.len() - 1))
}

/// A domain name: labels of letters, digits and hyphens, joined by dots,
/// each starting and ending with a letter or digit.
pub open spec fn is_domain(s: Seq<u8>) -> bool {
    &&& s.len() > 0
    &&& is_let_dig(s[0])
    &&& is_let_dig(s.last())
    &&& forall|i: int|
        0 <= i < s.len() ==> is_let_dig(#[trigger] s[i]) || s[i] == 45u8 || s[i] == 46u8
    &&& forall|i: int|
        0 < i < s.len() - 1 && #[trigger] s[i] == 46u8 ==> is_let_dig(s[i - 1]) && is_let_dig(
            s[i + 1],
        )
}

/// `dcontent`: the characters inside an address literal.
pub open spec fn is_dcontent(b: u8) -> bool {
    (33 <= b <= 90) || (94 <= b <= 126)
}

/// An address literal: `[` one or more dcontent `]`.
pub open spec fn is_address_literal(s: Seq<u8>) -> bool {
    &&& s.len() >= 3
    &&& s[0] == 91u8
    &&& s.last() == 93u8
    &&& forall|i: int| 1 <= i < s.len() - 1 ==> is_dcontent(#[trigger] s[i])
}

/// `i` is the last index holding `b`.
pub open spec fn last_at(s: Seq<u8>, b: u8, i: int) -> bool {
    0 <= i < s.len() && s[i] == b && forall|j: int| i < j < s.len() ==> s[j] != b
}

/// A mailbox: a local part, `@`, and a domain or address literal. The `@`
/// is the last one, since neither kind of domain holds one.
pub open spec fn is_mailbox(s: Seq<u8>) -> bool {
    exists|k: int|
        last_at(s, 64u8, k) && (is_dot_string(s.subrange(0, k)) || is_quoted_string(
            s.subrange(0, k),
        )) && (is_domain(s.subrange(k + 1, s.len() as int)) || is_address_literal(
            s.subrange(k + 1, s.len() as int),
        ))
}

/// A source route, `@one,@two`: kept for the grammar's sake and ignored.
pub open spec fn is_source_route(r: Seq<u8>) -> bool {
    &&& r.len() >= 2
    &&& r[0] == 64u8
    &&& forall|i: int|
        0 <= i < r.len() ==> is_let_dig(#[trigger] r[i]) || r[i] == 45u8 || r[i] == 46u8 || r[i]
            == 64u8 || r[i] == 44u8
}

/// The part of a path after its source route, if it has one.
pub open spec fn route_end(s: Seq<u8>) -> int {
    if s.len() > 0 && s[0] == 64u8 {
        crate::command::first_index(s, 58u8)
    } else {
        -1
    }
}

/// A path without its brackets: an optional source route and `:`, then
/// a mailbox.
pub open spec fn is_path(s: Seq<u8>) -> bool {
    let c = route_end(s);
    if c < 0 {
        is_mailbox(s)
    } else {
        c < s.len() && is_source_route(s.subrange(0, c)) && is_mailbox(
            s.subrange(c + 1, s.len() as int),
        )
    }
}

fn is_let_dig_exec(b: u8) -> (r: bool)
    ensures
        r == is_let_dig(b),
{
    (48u8 <= b && b <= 57u8) || (65u8 <= b && b <= 90u8) || (97u8 <= b && b <= 122u8)
}

pub fn check_dot_string(s: &[u8]) -> (r: bool)
    ensures
        r == is_dot_string(s@),
{
    let n = s.len();
    if n == 0 || s[0] == 46u8 || s[n - 1] == 46u8 {
        return false;
    }
    let mut i: usize = 0;
    while i < n
        invariant
            n == s@.len(),
            n > 0,
            i <= n,
            forall|j: int| 0 <= j < i ==> #[trigger] s@[j] == 46u8 || is_atext(s@[j]),
            forall|j: int| 0 <= j < i && j < n - 1 ==> !(#[trigger] s@[j] == 46u8 && s@[j + 1] == 46u8),
        decreases n - i,
    {
        let b = s[i];
        let atext = (0x21u8 <= b && b <= 0x27u8) || b == 0x2Au8 || b == 0x2Bu8 || b == 0x2Du8 || (
        0x2Fu8 <= b && b <= 0x39u8) || b == 0x3Du8 || b == 0x3Fu8 || (0x41u8 <= b && b <= 0x5Au8)
            || (0x5Eu8 <= b && b <= 0x7Eu8) || b >= 0x80u8;
        if b != 46u8 && !atext {
            return false;
        }
        if b == 46u8 && i + 1 < n && s[i + 1] == 46u8 {
            return false;
        }
        i = i + 1;
    }
    true
}

pub fn check_quoted_string(s: &[u8]) -> (r: bool)
    ensures
        r == is_quoted_string(s@),
{
    let n = s.len();
    if n < 2 || s[0] != 34u8 || s[n - 1] != 34u8 {
        return false;
    }
    let body = vstd::slice::slice_subrange(s, 1, n - 1);
    let m = body.len();
    let mut i: usize = 0;
    proof {
        assert(body@.skip(0) =~= body@);
    }
    while i < m
        invariant
            m == body@.len(),
            n == s@.len(),
            n >= 2,
            s@[0] == 34u8,
            s@[n - 1] == 34u8,
            body@ == s@.subrange(1, n - 1),
            i <= m,
            is_quoted_body(body@) == is_quoted_body(body@.skip(i as int)),
        decreases m - i,
    {
        let ghost rest = body@.skip(i as int);
        assert(rest[0] == body@[i as int]);
        if body[i] == 92u8 {
            if m - i < 2 || body[i + 1] < 32u8 || body[i + 1] > 126u8 {
                proof {
                    if m - i >= 2 {
                        assert(rest[1] == body@[i + 1]);
                    }
                    assert(!is_quoted_body(rest));
                }
                return false;
            }
            proof {
                assert(rest[1] == body@[i + 1]);
                assert(rest.skip(2) =~= body@.skip(i + 2));
            }
            i = i + 2;
        } else {
            let b = body[i];
            if !(b == 32u8 || b == 33u8 || (35u8 <= b && b <= 91u8) || (93u8 <= b && b <= 126u8)
                || b >= 0x80u8) {
                proof {
                    assert(!is_quoted_body(rest));
                }
                return false;
            }
            proof {
                assert(rest.drop_first() =~= body@.skip(i + 1));
            }
            i = i + 1;
        }
    }
    proof {
        assert(body@.skip(m as int).len() == 0);
    }
    true
}

pub fn check_domain(s: &[u8]) -> (r: bool)
    ensures
        r == is_domain(s@),
{
    let n = s.len();
    if n == 0 || !is_let_dig_exec(s[0]) || !is_let_dig_exec(s[n - 1]) {
        return false;
    }
    let mut i: usize = 0;
    while i < n
        invariant
            n == s@.len(),
            n > 0,
            i <= n,
            is_let_dig(s@[0]),
            is_let_dig(s@[n - 1]),
            forall|j: int|
                0 <= j < i ==> is_let_dig(#[trigger] s@[j]) || s@[j] == 45u8 || s@[j] == 46u8,
            forall|j: int|
                0 < j < i && j < n - 1 && #[trigger] s@[j] == 46u8 ==> is_let_dig(s@[j - 1])
                    && is_let_dig(s@[j + 1]),
        decreases n - i,
    {
        let b = s[i];
        if !is_let_dig_exec(b) && b != 45u8 && b != 46u8 {
            return false;
        }
        if b == 46u8 && 0 < i && i < n - 1 {
            if !is_let_dig_exec(s[i - 1]) || !is_let_dig_exec(s[i + 1]) {
                return false;
            }
        }
        i = i + 1;
    }
    true
}

pub fn check_address_literal(s: &[u8]) -> (r: bool)
    ensures
        r == is_address_literal(s@),
{
    let n = s.len();
    if n < 3 || s[0] != 91u8 || s[n - 1] != 93u8 {
        return false;
    }
    let mut i: usize = 1;
    while i < n - 1
        invariant
            n == s@.len(),
            n >= 3,
            1 <= i <= n - 1,
            forall|j: int| 1 <= j < i ==> is_dcontent(#[trigger] s@[j]),
        decreases n - 1 - i,
    {
        let b = s[i];
        if !((33u8 <= b && b <= 90u8) || (94u8 <= b && b <= 126u8)) {
            return false;
        }
        i = i + 1;
    }
    true
}

/// Checks a mailbox, `local-part "@" domain`.
pub fn check_mailbox(s: &[u8]) -> (r: bool)
    ensures
        r == is_mailbox(s@),
{
    let n = s.len();
    let mut k: usize = n;
    while k > 0 && s[k - 1] != 64u8
        invariant
            k <= n,
            n == s@.len(),
            forall|j: int| k <= j < n ==> s@[j] != 64u8,
        decreases k,
    {
        k = k - 1;
    }
    if k == 0 {
        proof {
            assert forall|i: int| !last_at(s@, 64u8, i) by {
                if 0 <= i < n && s@[i] == 64u8 {
                }
            }
        }
        return false;
    }
    let at = k - 1;
    proof {
        assert(last_at(s@, 64u8, at as int));
        assert forall|i: int| last_at(s@, 64u8, i) implies i == at by {
            if i < at {
                assert(s@[at as int] == 64u8);
            } else if i > at {
            }
        }
    }
    let local = vstd::slice::slice_subrange(s, 0, at);
    let domain = vstd::slice::slice_subrange(s, at + 1, n);
    let ok = (check_dot_string(local) || check_quoted_string(local)) && (check_domain(domain)
        || check_address_literal(domain));
    proof {
        if ok {
            assert(is_mailbox(s@));
        }
    }
    ok
}

/// Checks a path without its brackets.
pub fn check_path(s: &[u8]) -> (r: bool)
    ensures
        r == is_path(s@),
{
    if s.len() > 0 && s[0] == 64u8 {
        let c = crate::command::find_byte(s, 58u8);
        if c == s.len() {
            return false;
        }
        let route = vstd::slice::slice_subrange(s, 0, c);
        let mut i: usize = 0;
        let mut ok = route.len() >= 2;
        while i < route.len()
            invariant
                i <= route@.len(),
                ok ==> forall|j: int|
                    0 <= j < i ==> is_let_dig(#[trigger] route@[j]) || route@[j] == 45u8
                        || route@[j] == 46u8 || route@[j] == 64u8 || route@[j] == 44u8,
                ok ==> route@.len() >= 2,
                !ok ==> !is_source_route(route@),
            decreases route@.len() - i,
        {
            let b = route[i];
            if !(is_let_dig_exec(b) || b == 45u8 || b == 46u8 || b == 64u8 || b == 44u8) {
                ok = false;
            }
            i = i + 1;
        }
        if !ok {
            return false;
        }
        check_mailbox(vstd::slice::slice_subrange(s, c + 1, s.len()))
    } else {
        check_mailbox(s)
    }
}

} // verus!
