//! Building and queueing up replies.
//!
//! A reply is one or more lines, each `code SP text CRLF` for the last line
//! and `code "-" text CRLF` for the others, with an optional enhanced status
//! code `a.b.c SP` after the separator.
use vstd::prelude::*;
use crate::buf::SendBuf;
use vstd::string::StringSliceAdditionalSpecFns;
use crate::params::split;
use crate::scribe::{decimal, decimal_digits};

verus! {

/// An enhanced status code, `class.subject.detail`.
pub type Status = (u8, u16, u16);

pub open spec fn code_ok(code: u16) -> bool {
    200 <= code <= 599
}

pub open spec fn crlf() -> Seq<u8> {
    seq![13u8, 10u8]
}

/// The enhanced status code as written after the separator, with its space.
pub open spec fn status_bytes(status: Option<Status>) -> Seq<u8> {
    match status {
        None => Seq::empty(),
        Some((a, b, c)) => decimal(a as nat) + seq![46u8] + decimal(b as nat) + seq![46u8]
            + decimal(c as nat) + seq![32u8],
    }
}

/// The start of a line: the code, the separator and the status code.
pub open spec fn prefix(code: u16, sep: u8, status: Option<Status>) -> Seq<u8> {
    decimal(code as nat) + seq![sep] + status_bytes(status)
}

/// One complete line of a reply.
pub open spec fn reply_line(code: u16, sep: u8, status: Option<Status>, text: Seq<u8>) -> Seq<u8> {
    prefix(code, sep, status) + text + crlf()
}

/// Lines that are all followed by another one: each has `-` as separator.
pub open spec fn continued(code: u16, status: Option<Status>, lines: Seq<Seq<u8>>) -> Seq<u8>
    decreases lines.len(),
{
    if lines.len() == 0 {
        Seq::empty()
    } else {
        continued(code, status, lines.drop_last()) + reply_line(code, 45u8, status, lines.last())
    }
}

/// A complete reply: every line but the last with `-`, the last with a space.
pub open spec fn reply_bytes(code: u16, status: Option<Status>, lines: Seq<Seq<u8>>) -> Seq<u8> {
    if lines.len() == 0 {
        Seq::empty()
    } else {
        continued(code, status, lines.drop_last()) + reply_line(code, 32u8, status, lines.last())
    }
}

/// A line text holds no line feed: line breaks are the writer's business.
pub open spec fn no_lf(text: Seq<u8>) -> bool {
    forall|i: int| 0 <= i < text.len() ==> text[i] != 10u8
}

/// What a well-formed reply is made of.
pub struct ReplyModel {
    pub code: u16,
    pub status: Option<Status>,
    pub lines: Seq<Seq<u8>>,
}

pub open spec fn model_ok(r: ReplyModel) -> bool {
    &&& code_ok(r.code)
    &&& r.lines.len() >= 1
    &&& forall|i: int| 0 <= i < r.lines.len() ==> no_lf(#[trigger] r.lines[i])
}

pub open spec fn render(r: ReplyModel) -> Seq<u8> {
    reply_bytes(r.code, r.status, r.lines)
}

/// A sequence of replies, one after the other.
pub open spec fn stream(rs: Seq<ReplyModel>) -> Seq<u8>
    decreases rs.len(),
{
    if rs.len() == 0 {
        Seq::empty()
    } else {
        stream(rs.drop_last()) + render(rs.last())
    }
}

pub open spec fn all_ok(rs: Seq<ReplyModel>) -> bool {
    forall|i: int| 0 <= i < rs.len() ==> model_ok(#[trigger] rs[i])
}

/// True if `s` is nothing but complete, well-formed replies.
pub open spec fn is_reply_stream(s: Seq<u8>) -> bool {
    exists|rs: Seq<ReplyModel>| all_ok(rs) && stream(rs) == s
}

/// A single-line reply text: it ends in CRLF and holds no other line feed.
pub open spec fn single_line(text: Seq<u8>) -> bool {
    &&& text.len() >= 2
    &&& text[text.len() - 2] == 13u8
    &&& text[text.len() - 1] == 10u8
    &&& no_lf(text.subrange(0, text.len() - 2))
}

/// The line that a single-line reply text makes: the text without its CRLF.
pub open spec fn line_of(text: Seq<u8>) -> Seq<u8> {
    text.subrange(0, text.len() - 2)
}

proof fn lemma_three_digits(v: nat)
    requires
        100 <= v < 1000,
    ensures
        decimal(v).len() == 3,
{
    assert(v / 10 >= 10);
    assert(v / 10 / 10 < 10);
    assert(decimal(v / 10 / 10).len() == 1);
    assert(decimal(v / 10).len() == 2);
}

/// Joining two streams gives a stream.
pub proof fn lemma_stream_append(a: Seq<ReplyModel>, b: Seq<ReplyModel>)
    ensures
        stream(a + b) == stream(a) + stream(b),
    decreases b.len(),
{
    if b.len() == 0 {
        assert(a + b =~= a);
        assert(stream(b) =~= Seq::<u8>::empty());
        assert(stream(a) + stream(b) =~= stream(a));
    } else {
        assert((a + b).drop_last() =~= a + b.drop_last());
        lemma_stream_append(a, b.drop_last());
        assert(stream(a + b) =~= stream(a) + stream(b));
    }
}

/// A stream followed by one more good reply is still a stream.
pub proof fn lemma_stream_push(s: Seq<u8>, r: ReplyModel)
    requires
        is_reply_stream(s),
        model_ok(r),
    ensures
        is_reply_stream(s + render(r)),
{
    let rs = choose|rs: Seq<ReplyModel>| all_ok(rs) && stream(rs) == s;
    let rs2 = rs.push(r);
    assert(rs2.drop_last() =~= rs);
    assert(all_ok(rs2));
    assert(stream(rs2) == s + render(r));
}

/// Two streams in a row are a stream.
pub proof fn lemma_stream_concat(s: Seq<u8>, t: Seq<u8>)
    requires
        is_reply_stream(s),
        is_reply_stream(t),
    ensures
        is_reply_stream(s + t),
{
    let rs = choose|rs: Seq<ReplyModel>| all_ok(rs) && stream(rs) == s;
    let ts = choose|ts: Seq<ReplyModel>| all_ok(ts) && stream(ts) == t;
    lemma_stream_append(rs, ts);
    assert(all_ok(rs + ts));
}

pub proof fn lemma_empty_stream()
    ensures
        is_reply_stream(Seq::<u8>::empty()),
{
    let rs = Seq::<ReplyModel>::empty();
    assert(all_ok(rs));
    assert(stream(rs) == Seq::<u8>::empty());
}

/// The longest a reply line may be, CRLF included.
pub const MAX_LINE: usize = 512;

/// Writes the prefix of a line with a space as separator.
///
/// Returns the position of that space.
fn write_prefix(send: &mut SendBuf, code: u16, status: Option<Status>) -> (sp: usize)
    requires
        code_ok(code),
    ensures
        final(send).contents() == old(send).contents() + prefix(code, 32u8, status),
        final(send).sent() == old(send).sent(),
        sp == old(send).contents().len() + 3,
{
    proof {
        lemma_three_digits(code as nat);
    }
    send.append(decimal_digits(code as u64).as_slice());
    let res = send.len();
    send.append_octet(32u8);
    match status {
        None => {},
        Some((a, b, c)) => {
            send.append(decimal_digits(a as u64).as_slice());
            send.append_octet(46u8);
            send.append(decimal_digits(b as u64).as_slice());
            send.append_octet(46u8);
            send.append(decimal_digits(c as u64).as_slice());
            send.append_octet(32u8);
        },
    }
    proof {
        assert(send.contents() =~= old(send).contents() + prefix(code, 32u8, status));
    }
    res
}

/// How many octets a piece of text adds to its line, with the CRLF that
/// ends the line.
pub open spec fn piece_room(piece: Seq<u8>) -> int {
    if piece.last() == 13u8 {
        piece.len() as int + 1
    } else {
        piece.len() as int + 2
    }
}

/// The last line has text and would grow past `MAX_LINE` with `piece`, so
/// it is ended first.
pub open spec fn must_break(
    code: u16,
    status: Option<Status>,
    lines: Seq<Seq<u8>>,
    complete: bool,
    piece: Seq<u8>,
) -> bool {
    &&& !complete
    &&& lines.last().len() > 0
    &&& prefix(code, 32u8, status).len() + lines.last().len() + piece_room(piece) > MAX_LINE as int
}

/// The lines of a reply, and whether the last has ended, after a piece of
/// text without line feed: a new line is started if the last has ended
/// (or must be, for length); the piece goes onto the last line; a CR at
/// its end ends that line.
pub open spec fn piece_step(
    code: u16,
    status: Option<Status>,
    lines: Seq<Seq<u8>>,
    complete: bool,
    piece: Seq<u8>,
) -> (Seq<Seq<u8>>, bool) {
    let ended = complete || must_break(code, status, lines, complete, piece);
    let ls = if ended {
        lines.push(Seq::empty())
    } else {
        lines
    };
    if piece.last() == 13u8 {
        (ls.update(ls.len() - 1, ls.last() + piece.drop_last()), true)
    } else {
        (ls.update(ls.len() - 1, ls.last() + piece), false)
    }
}

/// `piece_step` over several pieces; empty pieces change nothing.
pub open spec fn pieces_step(
    code: u16,
    status: Option<Status>,
    lines: Seq<Seq<u8>>,
    complete: bool,
    ps: Seq<Seq<u8>>,
) -> (Seq<Seq<u8>>, bool)
    decreases ps.len(),
{
    if ps.len() == 0 {
        (lines, complete)
    } else {
        let (ls, c) = pieces_step(code, status, lines, complete, ps.drop_last());
        if ps.last().len() == 0 {
            (ls, c)
        } else {
            piece_step(code, status, ls, c, ps.last())
        }
    }
}

/// The lines of a reply, and whether the last has ended, after `text`:
/// the text is cut at each line feed and the pieces written in turn, so a
/// line feed without a CR before it is dropped.
pub open spec fn text_step(
    code: u16,
    status: Option<Status>,
    lines: Seq<Seq<u8>>,
    complete: bool,
    text: Seq<u8>,
) -> (Seq<Seq<u8>>, bool) {
    pieces_step(code, status, lines, complete, split(text, 10u8))
}

proof fn lemma_split_no_lf(x: Seq<u8>)
    requires
        no_lf(x),
    ensures
        split(x, 10u8) == seq![x],
    decreases x.len(),
{
    if x.len() == 0 {
        assert(x =~= Seq::<u8>::empty());
    } else {
        assert(x[x.len() - 1] != 10u8);
        assert(no_lf(x.drop_last()));
        lemma_split_no_lf(x.drop_last());
        assert(x.drop_last().push(x.last()) =~= x);
        assert(split(x, 10u8) =~= seq![x]);
    }
}

/// A single-line text is one piece, ended by its CR.
proof fn lemma_single_line_step(
    code: u16,
    status: Option<Status>,
    lines: Seq<Seq<u8>>,
    complete: bool,
    text: Seq<u8>,
)
    requires
        single_line(text),
    ensures
        text_step(code, status, lines, complete, text) == piece_step(
            code,
            status,
            lines,
            complete,
            line_of(text).push(13u8),
        ),
{
    let x = line_of(text);
    lemma_split_no_lf(x);
    let a = x.push(13u8);
    assert(a.drop_last() =~= x);
    assert(split(a, 10u8) =~= seq![a]);
    assert(a.last() == 13u8);
    assert(text.drop_last() =~= a);
    assert(text.last() == 10u8);
    assert(split(text, 10u8) =~= seq![a, Seq::<u8>::empty()]);
    let ps = seq![a, Seq::<u8>::empty()];
    assert(ps.drop_last() =~= seq![a]);
    assert(seq![a].drop_last() =~= Seq::<Seq<u8>>::empty());
    assert(pieces_step(code, status, lines, complete, Seq::<Seq<u8>>::empty()) == (lines, complete));
    assert(pieces_step(code, status, lines, complete, seq![a]) == piece_step(
        code,
        status,
        lines,
        complete,
        a,
    ));
    assert(ps.last().len() == 0);
}

//------------ Reply ----------------------------------------------------------

/// A reply being written into a send buffer, line by line.
pub struct Reply {
    code: u16,
    status: Option<Status>,
    /// Position of the separator after the code in the last prefix.
    sp: usize,
    /// Whether the last write ended a line.
    ///
    /// If so, the next write starts a new line of a multi-line reply.
    crlf: bool,
    /// Whether the last line has any text yet.
    has_text: bool,
    /// What the buffer held before the reply began.
    base: Ghost<Seq<u8>>,
    /// The lines that are followed by another.
    done: Ghost<Seq<Seq<u8>>>,
    /// The text of the last line so far.
    cur: Ghost<Seq<u8>>,
}

impl Reply {
    pub closed spec fn spec_code(&self) -> u16 {
        self.code
    }

    pub closed spec fn spec_status(&self) -> Option<Status> {
        self.status
    }

    /// What the send buffer held before the reply began.
    pub closed spec fn base(&self) -> Seq<u8> {
        self.base@
    }

    /// The lines of the reply so far, the unfinished one last.
    pub closed spec fn lines(&self) -> Seq<Seq<u8>> {
        self.done@.push(self.cur@)
    }

    /// Whether the last line has been ended by CRLF.
    pub closed spec fn is_complete(&self) -> bool {
        self.crlf
    }

    /// The reply is in step with the buffer it is written into.
    pub closed spec fn wf(&self, send: &SendBuf) -> bool {
        &&& code_ok(self.code)
        &&& forall|i: int| 0 <= i < self.done@.len() ==> no_lf(#[trigger] self.done@[i])
        &&& no_lf(self.cur@)
        &&& self.has_text == (self.cur@.len() > 0)
        &&& self.sp == self.base@.len() + continued(self.code, self.status, self.done@).len() + 3
        &&& send.contents() == self.base@ + continued(self.code, self.status, self.done@)
            + prefix(self.code, 32u8, self.status) + self.cur@ + (if self.crlf {
            crlf()
        } else {
            Seq::empty()
        })
    }

    /// Starts a reply with the given code and optional enhanced status code.
    pub fn new(send: &mut SendBuf, code: u16, status: Option<Status>) -> (r: Reply)
        requires
            code_ok(code),
        ensures
            r.wf(final(send)),
            r.base() == old(send).contents(),
            r.spec_code() == code,
            r.spec_status() == status,
            r.lines() == seq![Seq::<u8>::empty()],
            !r.is_complete(),
            final(send).sent() == old(send).sent(),
    {
        let sp = write_prefix(send, code, status);
        let r = Reply {
            code,
            status,
            sp,
            crlf: false,
            has_text: false,
            base: Ghost(old(send).contents()),
            done: Ghost(Seq::empty()),
            cur: Ghost(Seq::empty()),
        };
        proof {
            assert(continued(code, status, Seq::<Seq<u8>>::empty()) =~= Seq::<u8>::empty());
            assert(send.contents() =~= r.base@ + continued(code, status, r.done@) + prefix(
                code,
                32u8,
                status,
            ) + r.cur@ + Seq::<u8>::empty());
            assert(r.lines() =~= seq![Seq::<u8>::empty()]);
        }
        r
    }

    /// If the last line has ended, turns it into a continuation line and
    /// starts a new one.
    fn continue_line(&mut self, send: &mut SendBuf)
        requires
            old(self).wf(old(send)),
        ensures
            final(self).wf(final(send)),
            !final(self).crlf,
            final(self).code == old(self).code,
            final(self).status == old(self).status,
            final(self).base@ == old(self).base@,
            old(self).crlf ==> final(self).done@ == old(self).done@.push(old(self).cur@)
                && final(self).cur@ == Seq::<u8>::empty(),
            !old(self).crlf ==> final(self).done@ == old(self).done@ && final(self).cur@
                == old(self).cur@,
            final(send).sent() == old(send).sent(),
    {
        if self.crlf {
            let ghost c = continued(self.code, self.status, self.done@);
            proof {
                lemma_three_digits(self.code as nat);
            }
            send.update(self.sp, 45u8);
            proof {
                let new_done = self.done@.push(self.cur@);
                assert(new_done.drop_last() =~= self.done@);
                assert(continued(self.code, self.status, new_done) == c + reply_line(
                    self.code,
                    45u8,
                    self.status,
                    self.cur@,
                ));
                assert(send.contents() =~= self.base@ + continued(self.code, self.status, new_done));
            }
            self.sp = write_prefix(send, self.code, self.status);
            self.crlf = false;
            self.has_text = false;
            self.done = Ghost(self.done@.push(self.cur@));
            self.cur = Ghost(Seq::empty());
            proof {
                assert(send.contents() =~= self.base@ + continued(self.code, self.status, self.done@)
                    + prefix(self.code, 32u8, self.status) + self.cur@ + Seq::<u8>::empty());
            }
        }
    }

    /// Ends the last line if it has text and `piece` would make it longer
    /// than a reply line may be.
    fn break_if_long(&mut self, send: &mut SendBuf, piece: &[u8])
        requires
            old(self).wf(old(send)),
            piece@.len() > 0,
        ensures
            final(self).wf(final(send)),
            final(self).code == old(self).code,
            final(self).status == old(self).status,
            final(self).base@ == old(self).base@,
            final(self).done@ == old(self).done@,
            final(self).cur@ == old(self).cur@,
            final(self).crlf == (old(self).crlf || must_break(
                old(self).code,
                old(self).status,
                old(self).lines(),
                old(self).crlf,
                piece@,
            )),
            final(send).sent() == old(send).sent(),
    {
        if !self.crlf && self.has_text {
            proof {
                lemma_three_digits(self.code as nat);
                assert(send.contents().len() == self.base@.len() + continued(
                    self.code,
                    self.status,
                    self.done@,
                ).len() + prefix(self.code, 32u8, self.status).len() + self.cur@.len());
                assert(self.lines().last() == self.cur@);
            }
            let line_len = send.len() - (self.sp - 3);
            let n = piece.len();
            let extra = if piece[n - 1] == 13u8 { n - 1 } else { n };
            if extra > MAX_LINE - 2 || line_len > MAX_LINE - 2 - extra {
                send.append_octet(13u8);
                send.append_octet(10u8);
                self.crlf = true;
                proof {
                    assert(send.contents() =~= self.base@ + continued(self.code, self.status, self.done@)
                        + prefix(self.code, 32u8, self.status) + self.cur@ + crlf());
                }
            }
        } else {
            proof {
                assert(self.lines().last() == self.cur@);
            }
        }
    }

    /// Writes one piece of text that holds no line feed.
    ///
    /// A piece that ends in CR ends the line.
    fn write_piece(&mut self, send: &mut SendBuf, piece: &[u8])
        requires
            old(self).wf(old(send)),
            piece@.len() > 0,
            no_lf(piece@),
        ensures
            final(self).wf(final(send)),
            final(self).code == old(self).code,
            final(self).status == old(self).status,
            final(self).base@ == old(self).base@,
            final(self).crlf == (piece@.last() == 13u8),
            (final(self).lines(), final(self).crlf) == piece_step(
                old(self).code,
                old(self).status,
                old(self).lines(),
                old(self).crlf,
                piece@,
            ),
            final(send).sent() == old(send).sent(),
    {
        self.break_if_long(send, piece);
        let ghost mid_lines = self.lines();
        let ghost ended = self.crlf;
        self.continue_line(send);
        send.append(piece);
        let n = piece.len();
        if piece[n - 1] == 13u8 {
            send.append_octet(10u8);
            self.crlf = true;
            let ghost text = piece@.subrange(0, n - 1);
            self.cur = Ghost(self.cur@ + text);
            self.has_text = self.has_text || n > 1;
            proof {
                assert(piece@ =~= text.push(13u8));
                assert(piece@.drop_last() =~= text);
                assert(send.contents() =~= self.base@ + continued(self.code, self.status, self.done@)
                    + prefix(self.code, 32u8, self.status) + self.cur@ + crlf());
                let ls = if ended {
                    mid_lines.push(Seq::empty())
                } else {
                    mid_lines
                };
                assert(self.lines() =~= ls.update(ls.len() - 1, ls.last() + piece@.drop_last()));
            }
        } else {
            self.cur = Ghost(self.cur@ + piece@);
            self.has_text = true;
            proof {
                assert(send.contents() =~= self.base@ + continued(self.code, self.status, self.done@)
                    + prefix(self.code, 32u8, self.status) + self.cur@ + Seq::<u8>::empty());
                let ls = if ended {
                    mid_lines.push(Seq::empty())
                } else {
                    mid_lines
                };
                assert(self.lines() =~= ls.update(ls.len() - 1, ls.last() + piece@));
            }
        }
    }

    /// Writes text into the reply.
    ///
    /// Each CRLF in the text ends a line; if more text follows, the line
    /// just ended becomes a continuation line. A line feed without a CR
    /// before it is dropped. A line that would grow past `MAX_LINE` is
    /// ended before the piece of text that would make it so.
    pub fn scribble_bytes(&mut self, send: &mut SendBuf, text: &[u8])
        requires
            old(self).wf(old(send)),
        ensures
            final(self).wf(final(send)),
            final(self).spec_code() == old(self).spec_code(),
            final(self).spec_status() == old(self).spec_status(),
            final(self).base() == old(self).base(),
            (final(self).lines(), final(self).is_complete()) == text_step(
                old(self).spec_code(),
                old(self).spec_status(),
                old(self).lines(),
                old(self).is_complete(),
                text@,
            ),
            single_line(text@) ==> final(self).is_complete(),
            single_line(text@) && old(self).is_complete() ==> final(self).lines() == old(
                self,
            ).lines().push(line_of(text@)),
            single_line(text@) && !old(self).is_complete() && old(self).lines().last().len() == 0
                ==> final(self).lines() == old(self).lines().drop_last().push(
                old(self).lines().last() + line_of(text@),
            ),
            final(send).sent() == old(send).sent(),
    {
        let n = text.len();
        let mut start: usize = 0;
        let mut i: usize = 0;
        proof {
            assert(text@.subrange(0, 0) =~= Seq::<u8>::empty());
            assert(split(Seq::<u8>::empty(), 10u8).drop_last() =~= Seq::<Seq<u8>>::empty());
        }
        while i < n
            invariant
                n == text@.len(),
                start <= i <= n,
                self.wf(send),
                self.code == old(self).code,
                self.status == old(self).status,
                self.base@ == old(self).base@,
                send.sent() == old(send).sent(),
                forall|k: int| start <= k < i ==> text@[k] != 10u8,
                split(text@.subrange(0, i as int), 10u8).last() == text@.subrange(start as int, i as int),
                split(text@.subrange(0, i as int), 10u8).len() >= 1,
                (self.lines(), self.crlf) == pieces_step(
                    old(self).code,
                    old(self).status,
                    old(self).lines(),
                    old(self).crlf,
                    split(text@.subrange(0, i as int), 10u8).drop_last(),
                ),
            decreases n - i,
        {
            let ghost pre = text@.subrange(0, i as int);
            let ghost ps = split(pre, 10u8);
            proof {
                assert(text@.subrange(0, i + 1).drop_last() =~= pre);
                assert(text@.subrange(0, i + 1).last() == text@[i as int]);
            }
            if text[i] == 10u8 {
                proof {
                    assert(split(text@.subrange(0, i + 1), 10u8) == ps.push(Seq::empty()));
                    assert(ps.push(Seq::<u8>::empty()).drop_last() =~= ps);
                }
                if i > start {
                    let piece = vstd::slice::slice_subrange(text, start, i);
                    self.write_piece(send, piece);
                }
                start = i + 1;
                proof {
                    assert(text@.subrange(start as int, i + 1) =~= Seq::<u8>::empty());
                }
            } else {
                proof {
                    let t = split(text@.subrange(0, i + 1), 10u8);
                    assert(t == ps.update(ps.len() - 1, ps.last().push(text@[i as int])));
                    assert(t.drop_last() =~= ps.drop_last());
                    assert(t.last() =~= text@.subrange(start as int, i + 1));
                }
            }
            i = i + 1;
        }
        proof {
            assert(text@.subrange(0, n as int) =~= text@);
        }
        if n > start {
            let piece = vstd::slice::slice_subrange(text, start, n);
            self.write_piece(send, piece);
        }
        proof {
            if single_line(text@) {
                lemma_single_line_step(
                    old(self).code,
                    old(self).status,
                    old(self).lines(),
                    old(self).crlf,
                    text@,
                );
                let line = line_of(text@);
                assert(line.push(13u8).drop_last() =~= line);
                assert(Seq::<u8>::empty() + line =~= line);
            }
        }
    }

    /// Writes a single byte into the reply, as `scribble_bytes` would.
    pub fn scribble_octet(&mut self, send: &mut SendBuf, ch: u8)
        requires
            old(self).wf(old(send)),
        ensures
            final(self).wf(final(send)),
            final(self).spec_code() == old(self).spec_code(),
            final(self).spec_status() == old(self).spec_status(),
            final(self).base() == old(self).base(),
            final(send).sent() == old(send).sent(),
    {
        let mut one: Vec<u8> = Vec::new();
        one.push(ch);
        self.scribble_bytes(send, one.as_slice());
    }

    /// Ends the reply: a last line that CRLF has not ended yet gets one.
    pub fn finish(self, send: &mut SendBuf)
        requires
            self.wf(old(send)),
        ensures
            final(send).contents() == self.base() + reply_bytes(
                self.spec_code(),
                self.spec_status(),
                self.lines(),
            ),
            model_ok(
                ReplyModel {
                    code: self.spec_code(),
                    status: self.spec_status(),
                    lines: self.lines(),
                },
            ),
            final(send).sent() == old(send).sent(),
    {
        if !self.crlf {
            send.append_octet(13u8);
            send.append_octet(10u8);
        }
        proof {
            assert(self.lines().drop_last() =~= self.done@);
            assert(send.contents() =~= self.base@ + reply_bytes(
                self.code,
                self.status,
                self.lines(),
            ));
            let ls = self.lines();
            assert forall|i: int| 0 <= i < ls.len() implies no_lf(#[trigger] ls[i]) by {
                if i < self.done@.len() {
                    assert(ls[i] == self.done@[i]);
                }
            }
        }
    }

    /// Writes a whole reply.
    ///
    /// The text should end in CRLF; where it does not, the reply is ended
    /// with one all the same.
    pub fn reply(send: &mut SendBuf, code: u16, status: Option<Status>, text: &[u8])
        requires
            code_ok(code),
        ensures
            is_reply_stream(final(send).contents().skip(old(send).contents().len() as int)),
            final(send).contents().len() >= old(send).contents().len(),
            final(send).contents().subrange(0, old(send).contents().len() as int) == old(
                send,
            ).contents(),
            single_line(text@) ==> final(send).contents() == old(send).contents() + reply_bytes(
                code,
                status,
                seq![line_of(text@)],
            ),
            final(send).sent() == old(send).sent(),
    {
        let mut r = Reply::new(send, code, status);
        r.scribble_bytes(send, text);
        let ghost lines = r.lines();
        let ghost model = ReplyModel { code, status, lines };
        r.finish(send);
        proof {
            let old_c = old(send).contents();
            let added = reply_bytes(code, status, lines);
            assert(send.contents() == old_c + added);
            assert(send.contents().skip(old_c.len() as int) =~= added);
            assert(send.contents().subrange(0, old_c.len() as int) =~= old_c);
            lemma_empty_stream();
            lemma_stream_push(Seq::<u8>::empty(), model);
            assert(Seq::<u8>::empty() + render(model) =~= added);
            if single_line(text@) {
                assert(lines =~= seq![line_of(text@)]);
            }
        }
    }
}

//------------ ReplyBuf -------------------------------------------------------

impl SendBuf {
    /// Buffers a reply whose text, ending in CRLF, is at hand.
    pub fn reply(&mut self, code: u16, status: Status, text: &[u8])
        requires
            code_ok(code),
        ensures
            is_reply_stream(final(self).contents().skip(old(self).contents().len() as int)),
            final(self).contents().len() >= old(self).contents().len(),
            final(self).contents().subrange(0, old(self).contents().len() as int) == old(
                self,
            ).contents(),
            single_line(text@) ==> final(self).contents() == old(self).contents() + reply_bytes(
                code,
                Some(status),
                seq![line_of(text@)],
            ),
            final(self).sent() == old(self).sent(),
    {
        Reply::reply(self, code, Some(status), text)
    }
}

/// Where a handler writes the reply to a command.
///
/// Whatever is written through its methods is a sequence of complete,
/// well-formed replies.
pub struct ReplyBuf {
    send: SendBuf,
}

impl ReplyBuf {
    /// What has been written.
    pub closed spec fn bytes(&self) -> Seq<u8> {
        self.send.contents()
    }

    /// `r` is a reply being written into this buffer.
    pub closed spec fn holds(&self, r: &Reply) -> bool {
        r.wf(&self.send)
    }

    /// The buffer holds complete replies only.
    pub open spec fn wf(&self) -> bool {
        is_reply_stream(self.bytes())
    }

    pub fn new() -> (r: ReplyBuf)
        ensures
            r.bytes() == Seq::<u8>::empty(),
            r.wf(),
    {
        proof {
            lemma_empty_stream();
        }
        ReplyBuf { send: SendBuf::new() }
    }

    /// Buffers a reply whose text, ending in CRLF, is at hand.
    pub fn reply(&mut self, code: u16, status: Status, text: &[u8])
        requires
            code_ok(code),
        ensures
            old(self).wf() ==> final(self).wf(),
            single_line(text@) ==> final(self).bytes() == old(self).bytes() + reply_bytes(
                code,
                Some(status),
                seq![line_of(text@)],
            ),
    {
        self.send.reply(code, status, text);
        proof {
            let o = old(self).bytes();
            let n = self.bytes();
            assert(n =~= o + n.skip(o.len() as int));
            if old(self).wf() {
                lemma_stream_concat(o, n.skip(o.len() as int));
            }
        }
    }

    /// Starts a reply whose text is written piece by piece.
    pub fn start(&mut self, code: u16, status: Option<Status>) -> (r: Reply)
        requires
            code_ok(code),
        ensures
            final(self).holds(&r),
            r.base() == old(self).bytes(),
            r.spec_code() == code,
            r.spec_status() == status,
            r.lines() == seq![Seq::<u8>::empty()],
            !r.is_complete(),
    {
        Reply::new(&mut self.send, code, status)
    }

    /// Writes text into a started reply.
    pub fn write(&mut self, reply: &mut Reply, text: &[u8])
        requires
            old(self).holds(old(reply)),
        ensures
            final(self).holds(final(reply)),
            final(reply).base() == old(reply).base(),
            final(reply).spec_code() == old(reply).spec_code(),
            final(reply).spec_status() == old(reply).spec_status(),
            (final(reply).lines(), final(reply).is_complete()) == text_step(
                old(reply).spec_code(),
                old(reply).spec_status(),
                old(reply).lines(),
                old(reply).is_complete(),
                text@,
            ),
    {
        reply.scribble_bytes(&mut self.send, text);
    }

    /// Ends a started reply.
    pub fn finish(&mut self, reply: Reply)
        requires
            old(self).holds(&reply),
            is_reply_stream(reply.base()),
        ensures
            final(self).wf(),
            final(self).bytes() == reply.base() + reply_bytes(
                reply.spec_code(),
                reply.spec_status(),
                reply.lines(),
            ),
    {
        let ghost model = ReplyModel {
            code: reply.spec_code(),
            status: reply.spec_status(),
            lines: reply.lines(),
        };
        reply.finish(&mut self.send);
        proof {
            lemma_stream_push(reply.base(), model);
        }
    }

    /// True if nothing has been written.
    pub fn is_empty(&self) -> (r: bool)
        ensures
            r == (self.bytes().len() == 0),
    {
        self.send.len() == 0
    }

    /// What has been written.
    pub fn as_slice(&self) -> (r: &[u8])
        ensures
            r@ == self.bytes(),
    {
        self.send.whole()
    }
}

//------------ The shape of a reply -------------------------------------------

/// Sequences one after another.
pub open spec fn join(ss: Seq<Seq<u8>>) -> Seq<u8>
    decreases ss.len(),
{
    if ss.len() == 0 {
        Seq::empty()
    } else {
        join(ss.drop_last()) + ss.last()
    }
}

/// The lines of a reply as they are written: `-` after the code on every
/// line but the last, a space on the last.
pub open spec fn rendered_lines(code: u16, status: Option<Status>, lines: Seq<Seq<u8>>) -> Seq<
    Seq<u8>,
> {
    Seq::new(
        lines.len(),
        |i: int|
            reply_line(
                code,
                if i == lines.len() - 1 {
                    32u8
                } else {
                    45u8
                },
                status,
                lines[i],
            ),
    )
}

/// The value of three ASCII digits.
pub open spec fn three_digit_value(a: u8, b: u8, c: u8) -> int {
    (a - 48) * 100 + (b - 48) * 10 + (c - 48)
}

pub open spec fn is_digit(b: u8) -> bool {
    48 <= b <= 57
}

proof fn lemma_continued_join(code: u16, status: Option<Status>, lines: Seq<Seq<u8>>)
    ensures
        continued(code, status, lines) == join(
            Seq::new(lines.len(), |i: int| reply_line(code, 45u8, status, lines[i])),
        ),
    decreases lines.len(),
{
    let f = Seq::new(lines.len(), |i: int| reply_line(code, 45u8, status, lines[i]));
    if lines.len() > 0 {
        let g = Seq::new(
            lines.drop_last().len(),
            |i: int| reply_line(code, 45u8, status, lines.drop_last()[i]),
        );
        lemma_continued_join(code, status, lines.drop_last());
        assert(f.drop_last() =~= g);
    } else {
        assert(f =~= Seq::<Seq<u8>>::empty());
    }
}

proof fn lemma_code_digits(code: u16)
    requires
        code_ok(code),
    ensures
        decimal(code as nat).len() == 3,
        is_digit(decimal(code as nat)[0]),
        is_digit(decimal(code as nat)[1]),
        is_digit(decimal(code as nat)[2]),
        three_digit_value(decimal(code as nat)[0], decimal(code as nat)[1], decimal(code as nat)[2])
            == code,
{
    let v = code as nat;
    assert(v / 10 >= 10);
    assert(v / 10 / 10 < 10);
    let d = decimal(v);
    assert(decimal(v / 10 / 10) == seq![(48 + v / 10 / 10) as u8]);
    assert(decimal(v / 10) == decimal(v / 10 / 10).push((48 + (v / 10) % 10) as u8));
    assert(d == decimal(v / 10).push((48 + v % 10) as u8));
    assert(d[0] == (48 + v / 100) as u8);
    assert(d[1] == (48 + (v / 10) % 10) as u8);
    assert(d[2] == (48 + v % 10) as u8);
    assert(v == (v / 100) * 100 + ((v / 10) % 10) * 10 + v % 10) by (nonlinear_arith);
}

proof fn lemma_status_no_lf(status: Option<Status>)
    ensures
        no_lf(status_bytes(status)),
{
    if let Some((a, b, c)) = status {
        lemma_decimal_digits_from(a as nat);
        lemma_decimal_digits_from(b as nat);
        lemma_decimal_digits_from(c as nat);
        let s = status_bytes(status);
        assert forall|i: int| 0 <= i < s.len() implies s[i] != 10u8 by {
            let da = decimal(a as nat);
            let db = decimal(b as nat);
            let dc = decimal(c as nat);
            if i < da.len() {
                assert(s[i] == da[i]);
            } else if i < da.len() + 1 {
            } else if i < da.len() + 1 + db.len() {
                assert(s[i] == db[i - da.len() - 1]);
            } else if i < da.len() + 2 + db.len() {
            } else if i < da.len() + 2 + db.len() + dc.len() {
                assert(s[i] == dc[i - da.len() - 2 - db.len()]);
            }
        }
    }
}

proof fn lemma_decimal_digits_from(v: nat)
    ensures
        forall|i: int| 0 <= i < decimal(v).len() ==> is_digit(#[trigger] decimal(v)[i]),
{
    crate::scribe::lemma_decimal_digits(v);
}

/// Every reply that the writer produces is its lines one after another.
/// Each line starts with the three digits of the code, which lies between
/// 200 and 599; then comes `-` on every line but the last and a space on
/// the last, so exactly one line ends the reply; each line ends with CRLF,
/// and holds no other line feed.
pub proof fn lemma_reply_lines(r: ReplyModel)
    requires
        model_ok(r),
    ensures
        render(r) == join(rendered_lines(r.code, r.status, r.lines)),
        200 <= r.code <= 599,
        forall|i: int|
            0 <= i < r.lines.len() ==> {
                let line = #[trigger] rendered_lines(r.code, r.status, r.lines)[i];
                &&& line.len() >= 6
                &&& is_digit(line[0]) && is_digit(line[1]) && is_digit(line[2])
                &&& three_digit_value(line[0], line[1], line[2]) == r.code
                &&& line[3] == if i == r.lines.len() - 1 {
                    32u8
                } else {
                    45u8
                }
                &&& line[line.len() - 2] == 13u8
                &&& line[line.len() - 1] == 10u8
                &&& forall|j: int| 0 <= j < line.len() - 1 ==> line[j] != 10u8
            },
{
    let n = r.lines.len();
    let rl = rendered_lines(r.code, r.status, r.lines);
    lemma_continued_join(r.code, r.status, r.lines.drop_last());
    let f = Seq::new(
        r.lines.drop_last().len(),
        |i: int| reply_line(r.code, 45u8, r.status, r.lines.drop_last()[i]),
    );
    assert(rl.drop_last() =~= f);
    assert(render(r) == join(rl));
    lemma_code_digits(r.code);
    lemma_status_no_lf(r.status);
    assert forall|i: int| 0 <= i < n implies {
        let line = #[trigger] rl[i];
        &&& line.len() >= 6
        &&& is_digit(line[0]) && is_digit(line[1]) && is_digit(line[2])
        &&& three_digit_value(line[0], line[1], line[2]) == r.code
        &&& line[3] == if i == n - 1 {
            32u8
        } else {
            45u8
        }
        &&& line[line.len() - 2] == 13u8
        &&& line[line.len() - 1] == 10u8
        &&& forall|j: int| 0 <= j < line.len() - 1 ==> line[j] != 10u8
    } by {
        let sep: u8 = if i == n - 1 {
            32u8
        } else {
            45u8
        };
        let d = decimal(r.code as nat);
        let st = status_bytes(r.status);
        let t = r.lines[i];
        let line = rl[i];
        assert(line == d + seq![sep] + st + t + crlf());
        assert(no_lf(t));
        assert forall|j: int| 0 <= j < line.len() - 1 implies line[j] != 10u8 by {
            if j < 3 {
                assert(line[j] == d[j]);
            } else if j == 3 {
            } else if j < 4 + st.len() {
                assert(line[j] == st[j - 4]);
            } else if j < 4 + st.len() + t.len() {
                assert(line[j] == t[j - 4 - st.len()]);
            }
        }
    }
}

} // verus!
