//! The parameters of MAIL and RCPT.
//!
//! Parameters are separated by spaces; each is a keyword, matched without
//! regard to ASCII case, with `=` and a value where the keyword takes one.
use vstd::prelude::*;
use vstd::string::StringSliceAdditionalSpecFns;
use crate::command::{eq_ci, eq_ignore_case, first_index};

verus! {

/// The BODY parameter of MAIL.
#[derive(PartialEq, Eq, Structural, Clone, Copy, Debug)]
pub enum BodyValue {
    SevenBit,
    EightBitMime,
    BinaryMime,
}

/// The RET parameter of MAIL.
#[derive(PartialEq, Eq, Structural, Clone, Copy, Debug)]
pub enum RetValue {
    Full,
    Hdrs,
}

/// The NOTIFY parameter of RCPT; all false means NEVER.
#[derive(PartialEq, Eq, Structural, Clone, Copy, Debug)]
pub struct NotifyValue {
    pub success: bool,
    pub failure: bool,
    pub delay: bool,
}

/// The address types a DSN knows.
#[derive(PartialEq, Eq, Structural, Clone, Copy, Debug)]
pub enum DsnAddressType {
    Rfc822,
    X400,
    Utf8,
}

/// Text in the xtext encoding of DSN parameters, as it was sent.
#[derive(PartialEq, Eq, Clone, Debug)]
pub struct Xtext(pub Vec<u8>);

/// The ORCPT parameter of RCPT.
#[derive(PartialEq, Eq, Clone, Debug)]
pub struct OrcptParameter {
    pub addr_type: DsnAddressType,
    pub addr: Xtext,
}

/// The parameters of VRFY.
#[derive(PartialEq, Eq, Structural, Clone, Copy, Debug)]
pub struct VrfyParameters {
    pub smtputf8: bool,
}

/// The parameters of EXPN.
#[derive(PartialEq, Eq, Structural, Clone, Copy, Debug)]
pub struct ExpnParameters {
    pub smtputf8: bool,
}

/// The only parameter of VRFY and EXPN: SMTPUTF8, or nothing.
pub open spec fn smtputf8_param(rest: Seq<u8>) -> Option<bool> {
    if rest.len() == 0 {
        Some(false)
    } else if eq_ci(rest, "SMTPUTF8".spec_bytes()) {
        Some(true)
    } else {
        None
    }
}

pub fn parse_smtputf8(rest: &[u8]) -> (r: Option<bool>)
    ensures
        r == smtputf8_param(rest@),
{
    if rest.len() == 0 {
        Some(false)
    } else if eq_ignore_case(rest, "SMTPUTF8".as_bytes()) {
        Some(true)
    } else {
        None
    }
}

/// The parameters of MAIL.
#[derive(PartialEq, Eq, Clone, Debug)]
pub struct MailParameters {
    pub body: Option<BodyValue>,
    pub size: Option<u64>,
    pub ret: Option<RetValue>,
    pub envid: Option<Xtext>,
    pub auth: Option<Xtext>,
    pub smtputf8: bool,
}

/// The parameters of RCPT.
#[derive(PartialEq, Eq, Clone, Debug)]
pub struct RcptParameters {
    pub notify: Option<NotifyValue>,
    pub orcpt: Option<OrcptParameter>,
}

pub struct MailParamsView {
    pub body: Option<BodyValue>,
    pub size: Option<u64>,
    pub ret: Option<RetValue>,
    pub envid: Option<Seq<u8>>,
    pub auth: Option<Seq<u8>>,
    pub smtputf8: bool,
}

pub struct RcptParamsView {
    pub notify: Option<NotifyValue>,
    pub orcpt: Option<(DsnAddressType, Seq<u8>)>,
}

pub open spec fn opt_view(x: Option<Xtext>) -> Option<Seq<u8>> {
    match x {
        Some(t) => Some(t.0@),
        None => None,
    }
}

impl View for MailParameters {
    type V = MailParamsView;

    open spec fn view(&self) -> MailParamsView {
        MailParamsView {
            body: self.body,
            size: self.size,
            ret: self.ret,
            envid: opt_view(self.envid),
            auth: opt_view(self.auth),
            smtputf8: self.smtputf8,
        }
    }
}

impl View for RcptParameters {
    type V = RcptParamsView;

    open spec fn view(&self) -> RcptParamsView {
        RcptParamsView {
            notify: self.notify,
            orcpt: match self.orcpt {
                Some(o) => Some((o.addr_type, o.addr.0@)),
                None => None,
            },
        }
    }
}

/// `s` cut at every `sep`; empty pieces included.
pub open spec fn split(s: Seq<u8>, sep: u8) -> Seq<Seq<u8>>
    decreases s.len(),
{
    if s.len() == 0 {
        seq![Seq::<u8>::empty()]
    } else if s.last() == sep {
        split(s.drop_last(), sep).push(Seq::empty())
    } else {
        let t = split(s.drop_last(), sep);
        t.update(t.len() - 1, t.last().push(s.last()))
    }
}

/// Cuts `s` at every `sep`.
pub fn split_bytes(s: &[u8], sep: u8) -> (r: Vec<Vec<u8>>)
    ensures
        Seq::new(r@.len(), |i: int| r@[i]@) == split(s@, sep),
{
    let mut r: Vec<Vec<u8>> = Vec::new();
    r.push(Vec::new());
    let mut i: usize = 0;
    proof {
        assert(s@.subrange(0, 0) =~= Seq::<u8>::empty());
        assert(Seq::new(r@.len(), |k: int| r@[k]@) =~= seq![Seq::<u8>::empty()]);
    }
    while i < s.len()
        invariant
            i <= s@.len(),
            r@.len() >= 1,
            Seq::new(r@.len(), |k: int| r@[k]@) == split(s@.subrange(0, i as int), sep),
        decreases s@.len() - i,
    {
        let ghost before = Seq::new(r@.len(), |k: int| r@[k]@);
        let b = s[i];
        proof {
            assert(s@.subrange(0, i + 1).drop_last() =~= s@.subrange(0, i as int));
            assert(s@.subrange(0, i + 1).last() == b);
        }
        if b == sep {
            r.push(Vec::new());
            proof {
                assert(Seq::new(r@.len(), |k: int| r@[k]@) =~= before.push(Seq::empty()));
            }
        } else {
            let mut last = r.pop().unwrap();
            last.push(b);
            r.push(last);
            proof {
                assert(Seq::new(r@.len(), |k: int| r@[k]@) =~= before.update(
                    before.len() - 1,
                    before.last().push(b),
                ));
            }
        }
        i = i + 1;
    }
    proof {
        assert(s@.subrange(0, s@.len() as int) =~= s@);
    }
    r
}

pub open spec fn is_hex(b: u8) -> bool {
    (48 <= b <= 57) || (65 <= b <= 70)
}

pub open spec fn is_xchar(b: u8) -> bool {
    (33 <= b <= 42) || (44 <= b <= 60) || (62 <= b <= 126)
}

/// `v` is xtext: xchars, and `+` followed by two upper-case hex digits.
pub open spec fn is_xtext(v: Seq<u8>) -> bool {
    forall|i: int|
        0 <= i < v.len() ==> (is_xchar(#[trigger] v[i]) || (v[i] == 43u8 && i + 2 < v.len()
            && is_hex(v[i + 1]) && is_hex(v[i + 2])))
}

fn check_xtext(v: &[u8]) -> (r: bool)
    ensures
        r == is_xtext(v@),
{
    let mut i: usize = 0;
    while i < v.len()
        invariant
            i <= v@.len(),
            forall|j: int|
                0 <= j < i ==> (is_xchar(#[trigger] v@[j]) || (v@[j] == 43u8 && j + 2 < v@.len()
                    && is_hex(v@[j + 1]) && is_hex(v@[j + 2]))),
        decreases v@.len() - i,
    {
        let b = v[i];
        let x = (33u8 <= b && b <= 42u8) || (44u8 <= b && b <= 60u8) || (62u8 <= b && b <= 126u8);
        if !x {
            if b != 43u8 || v.len() - i <= 2 {
                return false;
            }
            let h1 = v[i + 1];
            let h2 = v[i + 2];
            if !((48u8 <= h1 && h1 <= 57u8) || (65u8 <= h1 && h1 <= 70u8)) || !((48u8 <= h2 && h2
                <= 57u8) || (65u8 <= h2 && h2 <= 70u8)) {
                return false;
            }
        }
        i = i + 1;
    }
    true
}

/// The value of a string of decimal digits.
pub open spec fn digits_value(v: Seq<u8>) -> int
    decreases v.len(),
{
    if v.len() == 0 {
        0
    } else {
        digits_value(v.drop_last()) * 10 + (v.last() - 48)
    }
}

pub open spec fn all_digits(v: Seq<u8>) -> bool {
    forall|i: int| 0 <= i < v.len() ==> 48 <= #[trigger] v[i] <= 57
}

/// A SIZE value: one to twenty digits whose value fits in 64 bits.
pub open spec fn size_value(v: Seq<u8>) -> Option<u64> {
    if 1 <= v.len() <= 20 && all_digits(v) && digits_value(v) <= u64::MAX {
        Some(digits_value(v) as u64)
    } else {
        None
    }
}

proof fn lemma_digits_value_nonneg(v: Seq<u8>)
    requires
        all_digits(v),
    ensures
        digits_value(v) >= 0,
    decreases v.len(),
{
    if v.len() > 0 {
        lemma_digits_value_nonneg(v.drop_last());
    }
}

fn parse_size(v: &[u8]) -> (r: Option<u64>)
    ensures
        r == size_value(v@),
{
    if v.len() == 0 || v.len() > 20 {
        return None;
    }
    let mut acc: u64 = 0;
    let mut i: usize = 0;
    proof {
        assert(v@.subrange(0, 0) =~= Seq::<u8>::empty());
    }
    while i < v.len()
        invariant
            i <= v@.len(),
            all_digits(v@.subrange(0, i as int)),
            acc as int == digits_value(v@.subrange(0, i as int)),
        decreases v@.len() - i,
    {
        let b = v[i];
        proof {
            assert(v@.subrange(0, i + 1).drop_last() =~= v@.subrange(0, i as int));
        }
        if b < 48u8 || b > 57u8 {
            proof {
                assert(!all_digits(v@)) by {
                    assert(v@[i as int] == b);
                }
            }
            return None;
        }
        let d = (b - 48u8) as u64;
        if acc > (u64::MAX - d) / 10 {
            proof {
                lemma_digits_value_nonneg(v@.subrange(0, i + 1));
                assert(digits_value(v@.subrange(0, i + 1)) > u64::MAX);
                lemma_prefix_bound(v@, (i + 1) as int);
            }
            return None;
        }
        acc = acc * 10 + d;
        i = i + 1;
    }
    proof {
        assert(v@.subrange(0, v@.len() as int) =~= v@);
    }
    Some(acc)
}

/// A longer string of digits is worth at least as much as its prefix.
proof fn lemma_prefix_bound(v: Seq<u8>, k: int)
    requires
        0 <= k <= v.len(),
        all_digits(v.subrange(0, k)),
    ensures
        all_digits(v) ==> digits_value(v) >= digits_value(v.subrange(0, k)),
    decreases v.len() - k,
{
    if k < v.len() && all_digits(v) {
        assert(v.subrange(0, k + 1).drop_last() =~= v.subrange(0, k));
        lemma_digits_value_nonneg(v.subrange(0, k));
        lemma_prefix_bound(v, k + 1);
    } else if k == v.len() {
        assert(v.subrange(0, k) =~= v);
    }
}

pub open spec fn body_value(v: Seq<u8>) -> Option<BodyValue> {
    if eq_ci(v, "7BIT".spec_bytes()) {
        Some(BodyValue::SevenBit)
    } else if eq_ci(v, "8BITMIME".spec_bytes()) {
        Some(BodyValue::EightBitMime)
    } else if eq_ci(v, "BINARYMIME".spec_bytes()) {
        Some(BodyValue::BinaryMime)
    } else {
        None
    }
}

pub open spec fn ret_value(v: Seq<u8>) -> Option<RetValue> {
    if eq_ci(v, "FULL".spec_bytes()) {
        Some(RetValue::Full)
    } else if eq_ci(v, "HDRS".spec_bytes()) {
        Some(RetValue::Hdrs)
    } else {
        None
    }
}

/// A keyword and its value: the part before the first `=` and, if there is
/// an `=`, the part after it.
pub open spec fn key_of(tok: Seq<u8>) -> Seq<u8> {
    tok.subrange(0, first_index(tok, 61u8))
}

pub open spec fn value_of(tok: Seq<u8>) -> Option<Seq<u8>> {
    let eq = first_index(tok, 61u8);
    if eq < tok.len() {
        Some(tok.subrange(eq + 1, tok.len() as int))
    } else {
        None
    }
}

pub open spec fn no_mail_params() -> MailParamsView {
    MailParamsView { body: None, size: None, ret: None, envid: None, auth: None, smtputf8: false }
}

/// What one MAIL parameter adds, or `None` if it is not one.
pub open spec fn apply_mail_param(acc: MailParamsView, tok: Seq<u8>) -> Option<MailParamsView> {
    let key = key_of(tok);
    match value_of(tok) {
        None => if eq_ci(key, "SMTPUTF8".spec_bytes()) {
            Some(MailParamsView { smtputf8: true, ..acc })
        } else {
            None
        },
        Some(v) => if eq_ci(key, "BODY".spec_bytes()) {
            match body_value(v) {
                Some(b) => Some(MailParamsView { body: Some(b), ..acc }),
                None => None,
            }
        } else if eq_ci(key, "SIZE".spec_bytes()) {
            match size_value(v) {
                Some(n) => Some(MailParamsView { size: Some(n), ..acc }),
                None => None,
            }
        } else if eq_ci(key, "RET".spec_bytes()) {
            match ret_value(v) {
                Some(r) => Some(MailParamsView { ret: Some(r), ..acc }),
                None => None,
            }
        } else if eq_ci(key, "ENVID".spec_bytes()) && is_xtext(v) {
            Some(MailParamsView { envid: Some(v), ..acc })
        } else if eq_ci(key, "AUTH".spec_bytes()) && is_xtext(v) {
            Some(MailParamsView { auth: Some(v), ..acc })
        } else {
            None
        },
    }
}

/// The MAIL parameters that a list of space-separated pieces gives; empty
/// pieces, from runs of spaces, are skipped.
pub open spec fn mail_params_of(toks: Seq<Seq<u8>>) -> Option<MailParamsView>
    decreases toks.len(),
{
    if toks.len() == 0 {
        Some(no_mail_params())
    } else {
        match mail_params_of(toks.drop_last()) {
            None => None,
            Some(acc) => if toks.last().len() == 0 {
                Some(acc)
            } else {
                apply_mail_param(acc, toks.last())
            },
        }
    }
}

/// The MAIL parameters in `s`, or `None` if one of them is not valid.
pub open spec fn mail_params(s: Seq<u8>) -> Option<MailParamsView> {
    mail_params_of(split(s, 32u8))
}

/// Splits a parameter into keyword and value.
fn key_value(tok: &[u8]) -> (r: (&[u8], Option<&[u8]>))
    ensures
        r.0@ == key_of(tok@),
        match r.1 {
            Some(v) => value_of(tok@) == Some(v@),
            None => value_of(tok@) is None,
        },
{
    let eq = crate::command::find_byte(tok, 61u8);
    let key = vstd::slice::slice_subrange(tok, 0, eq);
    if eq < tok.len() {
        (key, Some(vstd::slice::slice_subrange(tok, eq + 1, tok.len())))
    } else {
        (key, None)
    }
}

fn parse_body(v: &[u8]) -> (r: Option<BodyValue>)
    ensures
        r == body_value(v@),
{
    if eq_ignore_case(v, "7BIT".as_bytes()) {
        Some(BodyValue::SevenBit)
    } else if eq_ignore_case(v, "8BITMIME".as_bytes()) {
        Some(BodyValue::EightBitMime)
    } else if eq_ignore_case(v, "BINARYMIME".as_bytes()) {
        Some(BodyValue::BinaryMime)
    } else {
        None
    }
}

fn parse_ret(v: &[u8]) -> (r: Option<RetValue>)
    ensures
        r == ret_value(v@),
{
    if eq_ignore_case(v, "FULL".as_bytes()) {
        Some(RetValue::Full)
    } else if eq_ignore_case(v, "HDRS".as_bytes()) {
        Some(RetValue::Hdrs)
    } else {
        None
    }
}

fn apply_mail(acc: MailParameters, tok: &[u8]) -> (r: Option<MailParameters>)
    ensures
        match r {
            Some(p) => apply_mail_param(acc@, tok@) == Some(p@),
            None => apply_mail_param(acc@, tok@) is None,
        },
{
    let (key, value) = key_value(tok);
    match value {
        None => if eq_ignore_case(key, "SMTPUTF8".as_bytes()) {
            Some(MailParameters { smtputf8: true, ..acc })
        } else {
            None
        },
        Some(v) => if eq_ignore_case(key, "BODY".as_bytes()) {
            match parse_body(v) {
                Some(b) => Some(MailParameters { body: Some(b), ..acc }),
                None => None,
            }
        } else if eq_ignore_case(key, "SIZE".as_bytes()) {
            match parse_size(v) {
                Some(n) => Some(MailParameters { size: Some(n), ..acc }),
                None => None,
            }
        } else if eq_ignore_case(key, "RET".as_bytes()) {
            match parse_ret(v) {
                Some(x) => Some(MailParameters { ret: Some(x), ..acc }),
                None => None,
            }
        } else if eq_ignore_case(key, "ENVID".as_bytes()) && check_xtext(v) {
            Some(MailParameters { envid: Some(Xtext(vstd::slice::slice_to_vec(v))), ..acc })
        } else if eq_ignore_case(key, "AUTH".as_bytes()) && check_xtext(v) {
            Some(MailParameters { auth: Some(Xtext(vstd::slice::slice_to_vec(v))), ..acc })
        } else {
            None
        },
    }
}

impl MailParameters {
    /// No parameters.
    pub fn new() -> (r: MailParameters)
        ensures
            r@ == no_mail_params(),
    {
        MailParameters { body: None, size: None, ret: None, envid: None, auth: None, smtputf8: false }
    }

    /// Parses the parameters of MAIL: BODY, SIZE, RET, ENVID, AUTH and
    /// SMTPUTF8, separated by spaces.
    pub fn parse(s: &[u8]) -> (r: Option<MailParameters>)
        ensures
            match r {
                Some(p) => mail_params(s@) == Some(p@),
                None => mail_params(s@) is None,
            },
    {
        let toks = split_bytes(s, 32u8);
        let ghost ts = Seq::new(toks@.len(), |k: int| toks@[k]@);
        let mut acc = MailParameters::new();
        let mut i: usize = 0;
        proof {
            assert(ts.subrange(0, 0) =~= Seq::<Seq<u8>>::empty());
        }
        while i < toks.len()
            invariant
                i <= toks@.len(),
                ts == Seq::new(toks@.len(), |k: int| toks@[k]@),
                ts == split(s@, 32u8),
                mail_params_of(ts.subrange(0, i as int)) == Some(acc@),
            decreases toks@.len() - i,
        {
            proof {
                assert(ts.subrange(0, i + 1).drop_last() =~= ts.subrange(0, i as int));
                assert(ts.subrange(0, i + 1).last() == toks@[i as int]@);
            }
            let tok = toks[i].as_slice();
            if tok.len() > 0 {
                match apply_mail(acc, tok) {
                    Some(next) => {
                        acc = next;
                    },
                    None => {
                        proof {
                            lemma_fold_fails_mail(ts, (i + 1) as int);
                        }
                        return None;
                    },
                }
            }
            i = i + 1;
        }
        proof {
            assert(ts.subrange(0, ts.len() as int) =~= ts);
        }
        Some(acc)
    }
}

/// Once a piece fails, the whole list fails.
proof fn lemma_fold_fails_mail(ts: Seq<Seq<u8>>, k: int)
    requires
        0 <= k <= ts.len(),
        mail_params_of(ts.subrange(0, k)) is None,
    ensures
        mail_params_of(ts) is None,
    decreases ts.len() - k,
{
    if k < ts.len() {
        assert(ts.subrange(0, k + 1).drop_last() =~= ts.subrange(0, k));
        lemma_fold_fails_mail(ts, k + 1);
    } else {
        assert(ts.subrange(0, k) =~= ts);
    }
}

pub open spec fn no_notify() -> NotifyValue {
    NotifyValue { success: false, failure: false, delay: false }
}

/// What the elements of a NOTIFY list give, or `None` if one is not
/// SUCCESS, FAILURE or DELAY.
pub open spec fn notify_of(els: Seq<Seq<u8>>) -> Option<NotifyValue>
    decreases els.len(),
{
    if els.len() == 0 {
        Some(no_notify())
    } else {
        match notify_of(els.drop_last()) {
            None => None,
            Some(acc) => {
                let e = els.last();
                if eq_ci(e, "SUCCESS".spec_bytes()) {
                    Some(NotifyValue { success: true, ..acc })
                } else if eq_ci(e, "FAILURE".spec_bytes()) {
                    Some(NotifyValue { failure: true, ..acc })
                } else if eq_ci(e, "DELAY".spec_bytes()) {
                    Some(NotifyValue { delay: true, ..acc })
                } else {
                    None
                }
            },
        }
    }
}

/// A NOTIFY value: NEVER, or a comma-separated list.
pub open spec fn notify_value(v: Seq<u8>) -> Option<NotifyValue> {
    if eq_ci(v, "NEVER".spec_bytes()) {
        Some(no_notify())
    } else {
        notify_of(split(v, 44u8))
    }
}

pub open spec fn addr_type_value(v: Seq<u8>) -> Option<DsnAddressType> {
    if eq_ci(v, "rfc822".spec_bytes()) {
        Some(DsnAddressType::Rfc822)
    } else if eq_ci(v, "x400".spec_bytes()) {
        Some(DsnAddressType::X400)
    } else if eq_ci(v, "utf-8".spec_bytes()) {
        Some(DsnAddressType::Utf8)
    } else {
        None
    }
}

/// An ORCPT value: an address type, `;`, and the address in xtext.
pub open spec fn orcpt_value(v: Seq<u8>) -> Option<(DsnAddressType, Seq<u8>)> {
    let k = first_index(v, 59u8);
    if k == v.len() {
        None
    } else {
        let addr = v.subrange(k + 1, v.len() as int);
        match addr_type_value(v.subrange(0, k)) {
            Some(t) => if is_xtext(addr) {
                Some((t, addr))
            } else {
                None
            },
            None => None,
        }
    }
}

pub open spec fn no_rcpt_params() -> RcptParamsView {
    RcptParamsView { notify: None, orcpt: None }
}

/// What one RCPT parameter adds, or `None` if it is not one.
pub open spec fn apply_rcpt_param(acc: RcptParamsView, tok: Seq<u8>) -> Option<RcptParamsView> {
    let key = key_of(tok);
    match value_of(tok) {
        None => None,
        Some(v) => if eq_ci(key, "NOTIFY".spec_bytes()) {
            match notify_value(v) {
                Some(n) => Some(RcptParamsView { notify: Some(n), ..acc }),
                None => None,
            }
        } else if eq_ci(key, "ORCPT".spec_bytes()) {
            match orcpt_value(v) {
                Some(o) => Some(RcptParamsView { orcpt: Some(o), ..acc }),
                None => None,
            }
        } else {
            None
        },
    }
}

pub open spec fn rcpt_params_of(toks: Seq<Seq<u8>>) -> Option<RcptParamsView>
    decreases toks.len(),
{
    if toks.len() == 0 {
        Some(no_rcpt_params())
    } else {
        match rcpt_params_of(toks.drop_last()) {
            None => None,
            Some(acc) => if toks.last().len() == 0 {
                Some(acc)
            } else {
                apply_rcpt_param(acc, toks.last())
            },
        }
    }
}

/// The RCPT parameters in `s`, or `None` if one of them is not valid.
pub open spec fn rcpt_params(s: Seq<u8>) -> Option<RcptParamsView> {
    rcpt_params_of(split(s, 32u8))
}

proof fn lemma_notify_fails(ts: Seq<Seq<u8>>, k: int)
    requires
        0 <= k <= ts.len(),
        notify_of(ts.subrange(0, k)) is None,
    ensures
        notify_of(ts) is None,
    decreases ts.len() - k,
{
    if k < ts.len() {
        assert(ts.subrange(0, k + 1).drop_last() =~= ts.subrange(0, k));
        lemma_notify_fails(ts, k + 1);
    } else {
        assert(ts.subrange(0, k) =~= ts);
    }
}

proof fn lemma_fold_fails_rcpt(ts: Seq<Seq<u8>>, k: int)
    requires
        0 <= k <= ts.len(),
        rcpt_params_of(ts.subrange(0, k)) is None,
    ensures
        rcpt_params_of(ts) is None,
    decreases ts.len() - k,
{
    if k < ts.len() {
        assert(ts.subrange(0, k + 1).drop_last() =~= ts.subrange(0, k));
        lemma_fold_fails_rcpt(ts, k + 1);
    } else {
        assert(ts.subrange(0, k) =~= ts);
    }
}

impl NotifyValue {
    /// NEVER: no notification.
    pub fn new() -> (r: NotifyValue)
        ensures
            r == no_notify(),
    {
        NotifyValue { success: false, failure: false, delay: false }
    }

    /// Parses a NOTIFY value.
    pub fn parse(v: &[u8]) -> (r: Option<NotifyValue>)
        ensures
            r == notify_value(v@),
    {
        if eq_ignore_case(v, "NEVER".as_bytes()) {
            return Some(NotifyValue::new());
        }
        NotifyValue::parse_list(v)
    }

    fn parse_list(v: &[u8]) -> (r: Option<NotifyValue>)
        ensures
            r == notify_of(split(v@, 44u8)),
    {
        let els = split_bytes(v, 44u8);
        let ghost es = Seq::new(els@.len(), |k: int| els@[k]@);
        let mut acc = NotifyValue::new();
        let mut i: usize = 0;
        proof {
            assert(es.subrange(0, 0) =~= Seq::<Seq<u8>>::empty());
        }
        while i < els.len()
            invariant
                i <= els@.len(),
                es == Seq::new(els@.len(), |k: int| els@[k]@),
                es == split(v@, 44u8),
                notify_of(es.subrange(0, i as int)) == Some(acc),
            decreases els@.len() - i,
        {
            proof {
                assert(es.subrange(0, i + 1).drop_last() =~= es.subrange(0, i as int));
                assert(es.subrange(0, i + 1).last() == els@[i as int]@);
            }
            let e = els[i].as_slice();
            if eq_ignore_case(e, "SUCCESS".as_bytes()) {
                acc = NotifyValue { success: true, ..acc };
            } else if eq_ignore_case(e, "FAILURE".as_bytes()) {
                acc = NotifyValue { failure: true, ..acc };
            } else if eq_ignore_case(e, "DELAY".as_bytes()) {
                acc = NotifyValue { delay: true, ..acc };
            } else {
                proof {
                    lemma_notify_fails(es, (i + 1) as int);
                }
                return None;
            }
            i = i + 1;
        }
        proof {
            assert(es.subrange(0, es.len() as int) =~= es);
        }
        Some(acc)
    }
}

impl DsnAddressType {
    pub fn parse(v: &[u8]) -> (r: Option<DsnAddressType>)
        ensures
            r == addr_type_value(v@),
    {
        if eq_ignore_case(v, "rfc822".as_bytes()) {
            Some(DsnAddressType::Rfc822)
        } else if eq_ignore_case(v, "x400".as_bytes()) {
            Some(DsnAddressType::X400)
        } else if eq_ignore_case(v, "utf-8".as_bytes()) {
            Some(DsnAddressType::Utf8)
        } else {
            None
        }
    }
}

impl Xtext {
    /// Takes `v` as xtext if it is.
    pub fn parse(v: &[u8]) -> (r: Option<Xtext>)
        ensures
            match r {
                Some(t) => is_xtext(v@) && t.0@ == v@,
                None => !is_xtext(v@),
            },
    {
        if check_xtext(v) {
            Some(Xtext(vstd::slice::slice_to_vec(v)))
        } else {
            None
        }
    }
}

impl OrcptParameter {
    /// Parses an ORCPT value.
    pub fn parse(v: &[u8]) -> (r: Option<OrcptParameter>)
        ensures
            match r {
                Some(o) => orcpt_value(v@) == Some((o.addr_type, o.addr.0@)),
                None => orcpt_value(v@) is None,
            },
    {
        let k = crate::command::find_byte(v, 59u8);
        if k == v.len() {
            return None;
        }
        let addr = vstd::slice::slice_subrange(v, k + 1, v.len());
        match DsnAddressType::parse(vstd::slice::slice_subrange(v, 0, k)) {
            Some(t) => match Xtext::parse(addr) {
                Some(x) => Some(OrcptParameter { addr_type: t, addr: x }),
                None => None,
            },
            None => None,
        }
    }
}

fn apply_rcpt(acc: RcptParameters, tok: &[u8]) -> (r: Option<RcptParameters>)
    ensures
        match r {
            Some(p) => apply_rcpt_param(acc@, tok@) == Some(p@),
            None => apply_rcpt_param(acc@, tok@) is None,
        },
{
    let (key, value) = key_value(tok);
    match value {
        None => None,
        Some(v) => if eq_ignore_case(key, "NOTIFY".as_bytes()) {
            match NotifyValue::parse(v) {
                Some(n) => Some(RcptParameters { notify: Some(n), ..acc }),
                None => None,
            }
        } else if eq_ignore_case(key, "ORCPT".as_bytes()) {
            match OrcptParameter::parse(v) {
                Some(o) => Some(RcptParameters { orcpt: Some(o), ..acc }),
                None => None,
            }
        } else {
            None
        },
    }
}

impl RcptParameters {
    /// No parameters.
    pub fn new() -> (r: RcptParameters)
        ensures
            r@ == no_rcpt_params(),
    {
        RcptParameters { notify: None, orcpt: None }
    }

    /// Parses the parameters of RCPT: NOTIFY and ORCPT, separated by
    /// spaces.
    pub fn parse(s: &[u8]) -> (r: Option<RcptParameters>)
        ensures
            match r {
                Some(p) => rcpt_params(s@) == Some(p@),
                None => rcpt_params(s@) is None,
            },
    {
        let toks = split_bytes(s, 32u8);
        let ghost ts = Seq::new(toks@.len(), |k: int| toks@[k]@);
        let mut acc = RcptParameters::new();
        let mut i: usize = 0;
        proof {
            assert(ts.subrange(0, 0) =~= Seq::<Seq<u8>>::empty());
        }
        while i < toks.len()
            invariant
                i <= toks@.len(),
                ts == Seq::new(toks@.len(), |k: int| toks@[k]@),
                ts == split(s@, 32u8),
                rcpt_params_of(ts.subrange(0, i as int)) == Some(acc@),
            decreases toks@.len() - i,
        {
            proof {
                assert(ts.subrange(0, i + 1).drop_last() =~= ts.subrange(0, i as int));
                assert(ts.subrange(0, i + 1).last() == toks@[i as int]@);
            }
            let tok = toks[i].as_slice();
            if tok.len() > 0 {
                match apply_rcpt(acc, tok) {
                    Some(next) => {
                        acc = next;
                    },
                    None => {
                        proof {
                            lemma_fold_fails_rcpt(ts, (i + 1) as int);
                        }
                        return None;
                    },
                }
            }
            i = i + 1;
        }
        proof {
            assert(ts.subrange(0, ts.len() as int) =~= ts);
        }
        Some(acc)
    }
}

} // verus!
