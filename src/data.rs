//! Message data: undoing the client's dot-stuffing.
//!
//! A client doubles a period at the start of a line so that no line of the
//! message can be mistaken for the terminating `"." CRLF`. The server takes
//! the extra period away again. The work is done as bytes arrive, so the
//! position within a line is carried from one chunk to the next.
use vstd::prelude::*;

verus! {

/// Where in a line the next byte falls.
#[derive(PartialEq, Eq, Structural, Clone, Copy, Debug)]
pub enum DotState {
    /// At the start of a line.
    LineStart,
    /// After a period at the start of a line, which is held back.
    Dot,
    /// After a CR.
    Cr,
    /// Anywhere else.
    Middle,
}

/// The state after byte `c` outside of a held-back period.
pub open spec fn after(c: u8) -> DotState {
    if c == 13u8 {
        DotState::Cr
    } else {
        DotState::Middle
    }
}

/// What unstuffing emits for byte `c` in state `st`, and the next state.
pub open spec fn unstuff_step(st: DotState, c: u8) -> (Seq<u8>, DotState) {
    match st {
        DotState::LineStart => if c == 46u8 {
            (Seq::empty(), DotState::Dot)
        } else {
            (seq![c], after(c))
        },
        DotState::Dot => if c == 46u8 {
            (seq![46u8], DotState::Middle)
        } else {
            (seq![46u8, c], after(c))
        },
        DotState::Cr => if c == 10u8 {
            (seq![c], DotState::LineStart)
        } else {
            (seq![c], after(c))
        },
        DotState::Middle => (seq![c], after(c)),
    }
}

/// The unstuffed form of `s`, read from state `st`.
pub open spec fn unstuff(s: Seq<u8>, st: DotState) -> Seq<u8>
    decreases s.len(),
{
    if s.len() == 0 {
        Seq::empty()
    } else {
        let (out, next) = unstuff_step(st, s[0]);
        out + unstuff(s.drop_first(), next)
    }
}

/// The state after reading `s` from state `st`.
pub open spec fn unstuff_state(s: Seq<u8>, st: DotState) -> DotState
    decreases s.len(),
{
    if s.len() == 0 {
        st
    } else {
        unstuff_state(s.drop_first(), unstuff_step(st, s[0]).1)
    }
}

/// What is still owed when the data ends: a held-back period.
pub open spec fn unstuff_end(st: DotState) -> Seq<u8> {
    if st == DotState::Dot {
        seq![46u8]
    } else {
        Seq::empty()
    }
}

/// The whole of a message body, unstuffed.
pub open spec fn unstuffed(s: Seq<u8>) -> Seq<u8> {
    unstuff(s, DotState::LineStart) + unstuff_end(unstuff_state(s, DotState::LineStart))
}

/// What dot-stuffing emits for byte `c` in state `st`, and the next state.
pub open spec fn stuff_step(st: DotState, c: u8) -> (Seq<u8>, DotState) {
    match st {
        DotState::LineStart => if c == 46u8 {
            (seq![46u8, 46u8], DotState::Middle)
        } else {
            (seq![c], after(c))
        },
        DotState::Cr => if c == 10u8 {
            (seq![c], DotState::LineStart)
        } else {
            (seq![c], after(c))
        },
        _ => (seq![c], after(c)),
    }
}

/// The dot-stuffed form of `s`, as a client sends it, from state `st`.
pub open spec fn stuff(s: Seq<u8>, st: DotState) -> Seq<u8>
    decreases s.len(),
{
    if s.len() == 0 {
        Seq::empty()
    } else {
        let (out, next) = stuff_step(st, s[0]);
        out + stuff(s.drop_first(), next)
    }
}

/// The dot-stuffed form of a whole body.
pub open spec fn stuffed(s: Seq<u8>) -> Seq<u8> {
    stuff(s, DotState::LineStart)
}

/// Unstuffing two pieces one after the other is unstuffing them joined.
pub proof fn lemma_unstuff_concat(a: Seq<u8>, b: Seq<u8>, st: DotState)
    ensures
        unstuff(a + b, st) == unstuff(a, st) + unstuff(b, unstuff_state(a, st)),
        unstuff_state(a + b, st) == unstuff_state(b, unstuff_state(a, st)),
    decreases a.len(),
{
    if a.len() == 0 {
        assert(a + b =~= b);
        assert(unstuff(a, st) + unstuff(b, st) =~= unstuff(b, st));
    } else {
        let next = unstuff_step(st, a[0]).1;
        assert((a + b).drop_first() =~= a.drop_first() + b);
        assert((a + b)[0] == a[0]);
        lemma_unstuff_concat(a.drop_first(), b, next);
        assert(unstuff(a + b, st) =~= unstuff(a, st) + unstuff(b, unstuff_state(a, st)));
    }
}

proof fn lemma_unstuff_one(c: u8, st: DotState)
    ensures
        unstuff(seq![c], st) == unstuff_step(st, c).0,
        unstuff_state(seq![c], st) == unstuff_step(st, c).1,
{
    let s = seq![c];
    assert(s.drop_first() =~= Seq::<u8>::empty());
    assert(s[0] == c);
    let next = unstuff_step(st, c).1;
    assert(unstuff(Seq::<u8>::empty(), next) == Seq::<u8>::empty());
    assert(unstuff(s, st) =~= unstuff_step(st, c).0);
    assert(unstuff_state(Seq::<u8>::empty(), next) == next);
    assert(unstuff_state(s, st) == unstuff_state(s.drop_first(), next));
}

proof fn lemma_round_trip_from(s: Seq<u8>, st: DotState)
    requires
        st != DotState::Dot,
    ensures
        unstuff(stuff(s, st), st) == s,
        unstuff_state(stuff(s, st), st) != DotState::Dot,
    decreases s.len(),
{
    if s.len() > 0 {
        let c = s[0];
        let (out, next) = stuff_step(st, c);
        lemma_round_trip_from(s.drop_first(), next);
        lemma_unstuff_concat(out, stuff(s.drop_first(), next), st);
        if st == DotState::LineStart && c == 46u8 {
            assert(out =~= seq![46u8] + seq![46u8]);
            lemma_unstuff_concat(seq![46u8], seq![46u8], st);
            lemma_unstuff_one(46u8, st);
            lemma_unstuff_one(46u8, DotState::Dot);
            assert(unstuff(out, st) =~= seq![c]);
        } else {
            lemma_unstuff_one(c, st);
            assert(unstuff(out, st) =~= seq![c]);
        }
        assert(s =~= seq![c] + s.drop_first());
    }
}

/// Unstuffing undoes dot-stuffing: for every body, what the server takes
/// out is what the client put in.
pub proof fn lemma_unstuff_stuff(s: Seq<u8>)
    ensures
        unstuffed(stuffed(s)) == s,
{
    lemma_round_trip_from(s, DotState::LineStart);
    assert(unstuffed(stuffed(s)) =~= s);
}

/// Unstuffs a chunk of message data read from state `st`.
///
/// Returns the bytes for the data sink and the state for the next chunk.
pub fn unstuff_chunk(data: &[u8], st: DotState) -> (r: (Vec<u8>, DotState))
    ensures
        r.0@ == unstuff(data@, st),
        r.1 == unstuff_state(data@, st),
{
    let mut out: Vec<u8> = Vec::new();
    let mut cur = st;
    let mut i: usize = 0;
    proof {
        assert(data@.subrange(0, 0) =~= Seq::<u8>::empty());
    }
    while i < data.len()
        invariant
            i <= data@.len(),
            out@ == unstuff(data@.subrange(0, i as int), st),
            cur == unstuff_state(data@.subrange(0, i as int), st),
        decreases data@.len() - i,
    {
        let c = data[i];
        proof {
            let a = data@.subrange(0, i as int);
            assert(data@.subrange(0, i + 1) =~= a + seq![c]);
            lemma_unstuff_concat(a, seq![c], st);
            lemma_unstuff_one(c, unstuff_state(a, st));
        }
        match cur {
            DotState::LineStart => {
                if c == 46u8 {
                    cur = DotState::Dot;
                } else {
                    out.push(c);
                    cur = if c == 13u8 { DotState::Cr } else { DotState::Middle };
                }
            },
            DotState::Dot => {
                out.push(46u8);
                if c == 46u8 {
                    cur = DotState::Middle;
                } else {
                    out.push(c);
                    cur = if c == 13u8 { DotState::Cr } else { DotState::Middle };
                }
            },
            DotState::Cr => {
                out.push(c);
                cur = if c == 10u8 {
                    DotState::LineStart
                } else if c == 13u8 {
                    DotState::Cr
                } else {
                    DotState::Middle
                };
            },
            DotState::Middle => {
                out.push(c);
                cur = if c == 13u8 { DotState::Cr } else { DotState::Middle };
            },
        }
        proof {
            let a = data@.subrange(0, i as int);
            assert(out@ =~= unstuff(a, st) + unstuff(seq![c], unstuff_state(a, st)));
        }
        i = i + 1;
    }
    proof {
        assert(data@.subrange(0, data@.len() as int) =~= data@);
    }
    (out, cur)
}

} // verus!
