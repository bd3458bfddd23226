//! The buffers a connection reads into and writes out of.
use vstd::prelude::*;
use crate::scribe::Scribe;

verus! {

/// True if `CRLF "." CRLF`, the end of message data, starts at index `i`.
pub open spec fn is_data_end_at(s: Seq<u8>, i: int) -> bool {
    &&& 0 <= i
    &&& i + 5 <= s.len()
    &&& s[i] == 13u8
    &&& s[i + 1] == 10u8
    &&& s[i + 2] == 46u8
    &&& s[i + 3] == 13u8
    &&& s[i + 4] == 10u8
}

/// The index of the first `CRLF "." CRLF` in `s`, if there is one.
pub open spec fn first_data_end(s: Seq<u8>) -> Option<int> {
    if exists|i: int| is_data_end_at(s, i) {
        Some(choose|i: int| is_data_end_at(s, i) && forall|j: int| 0 <= j < i ==> !is_data_end_at(s, j))
    } else {
        None
    }
}

//------------ RecvBuf --------------------------------------------------------

/// The buffer to receive data into and parse it out of again.
///
/// Bytes before the read position have been consumed; those after it are
/// still to be looked at.
pub struct RecvBuf {
    inner: Vec<u8>,
    rpos: usize,
}

impl View for RecvBuf {
    type V = Seq<u8>;

    /// The bytes not yet consumed.
    closed spec fn view(&self) -> Seq<u8> {
        self.inner@.subrange(self.start(), self.inner@.len() as int)
    }
}

impl RecvBuf {
    /// Where the unconsumed bytes start.
    closed spec fn start(&self) -> int {
        if self.rpos <= self.inner@.len() { self.rpos as int } else { self.inner@.len() as int }
    }

    pub fn new() -> (r: RecvBuf)
        ensures
            r@ == Seq::<u8>::empty(),
    {
        let r = RecvBuf { inner: Vec::new(), rpos: 0 };
        proof {
            assert(r@ =~= Seq::<u8>::empty());
        }
        r
    }

    /// Appends bytes that arrived from the peer.
    pub fn append(&mut self, data: &[u8])
        ensures
            final(self)@ == old(self)@ + data@,
    {
        if self.rpos > self.inner.len() {
            self.rpos = self.inner.len();
        }
        self.inner.extend_from_slice(data);
        proof {
            assert(self@ =~= old(self)@ + data@);
        }
    }

    /// Consumes `len` bytes, or all of them if there are fewer.
    ///
    /// Once everything is consumed, the storage is cleared.
    pub fn advance(&mut self, len: usize)
        ensures
            final(self)@ == old(self)@.skip(if len <= old(self)@.len() { len as int } else { old(self)@.len() as int }),
    {
        let rest = if self.rpos <= self.inner.len() { self.inner.len() - self.rpos } else { 0 };
        if len < rest {
            self.rpos = self.rpos + len;
        } else {
            self.clear();
        }
        proof {
            assert(self@ =~= old(self)@.skip(if len <= old(self)@.len() { len as int } else { old(self)@.len() as int }));
        }
    }

    /// The bytes not yet consumed.
    pub fn as_slice(&self) -> (r: &[u8])
        ensures
            r@ == self@,
    {
        let start = if self.rpos <= self.inner.len() { self.rpos } else { self.inner.len() };
        vstd::slice::slice_subrange(self.inner.as_slice(), start, self.inner.len())
    }

    pub fn is_empty(&self) -> (r: bool)
        ensures
            r == (self@.len() == 0),
    {
        self.rpos >= self.inner.len()
    }

    pub fn len(&self) -> (r: usize)
        ensures
            r == self@.len(),
    {
        if self.rpos <= self.inner.len() { self.inner.len() - self.rpos } else { 0 }
    }

    /// Drops everything, consumed or not.
    pub fn clear(&mut self)
        ensures
            final(self)@ == Seq::<u8>::empty(),
    {
        self.inner.clear();
        self.rpos = 0;
        proof {
            assert(self@ =~= Seq::<u8>::empty());
        }
    }

    /// Finds the index of the first `CRLF "." CRLF` in the unconsumed bytes.
    pub fn find_data_end(&self) -> (r: Option<usize>)
        ensures
            match r {
                Some(i) => is_data_end_at(self@, i as int) && forall|j: int|
                    0 <= j < i ==> !is_data_end_at(self@, j),
                None => forall|j: int| !is_data_end_at(self@, j),
            },
            r matches Some(i) ==> first_data_end(self@) == Some(i as int),
            r is None ==> first_data_end(self@) is None,
    {
        let slice = self.as_slice();
        let n = slice.len();
        if n < 5 {
            return None;
        }
        let mut i: usize = 0;
        while i < n - 4
            invariant
                n == slice@.len(),
                slice@ == self@,
                n >= 5,
                i <= n - 4,
                forall|j: int| 0 <= j < i ==> !is_data_end_at(self@, j),
            decreases n - 4 - i,
        {
            if slice[i] == 13u8 && slice[i + 1] == 10u8 && slice[i + 2] == 46u8 && slice[i + 3]
                == 13u8 && slice[i + 4] == 10u8 {
                proof {
                    assert(is_data_end_at(self@, i as int));
                    let c = choose|k: int|
                        is_data_end_at(self@, k) && forall|j: int|
                            0 <= j < k ==> !is_data_end_at(self@, j);
                    if c < i {
                    } else if c > i {
                    }
                }
                return Some(i);
            }
            i = i + 1;
        }
        None
    }
}

//------------ SendBuf --------------------------------------------------------

/// The buffer that collects replies and eventually sends them.
///
/// The bytes before the write position have been sent already.
pub struct SendBuf {
    inner: Vec<u8>,
    wpos: usize,
}

impl SendBuf {

    /// Everything in the buffer, sent or not.
    pub closed spec fn contents(&self) -> Seq<u8> {
        self.inner@
    }

    /// How much of the contents has been sent.
    pub closed spec fn sent(&self) -> nat {
        if self.wpos <= self.inner@.len() { self.wpos as nat } else { self.inner@.len() }
    }

    /// The bytes still to be sent.
    pub open spec fn pending(&self) -> Seq<u8> {
        self.contents().skip(self.sent() as int)
    }

    pub fn new() -> (r: SendBuf)
        ensures
            r.contents() == Seq::<u8>::empty(),
            r.sent() == 0,
    {
        SendBuf { inner: Vec::new(), wpos: 0 }
    }

    /// Appends bytes to be sent.
    pub fn append(&mut self, data: &[u8])
        ensures
            final(self).contents() == old(self).contents() + data@,
            final(self).sent() == old(self).sent(),
    {
        if self.wpos > self.inner.len() {
            self.wpos = self.inner.len();
        }
        self.inner.extend_from_slice(data);
    }

    /// Appends a single byte to be sent.
    pub fn append_octet(&mut self, v: u8)
        ensures
            final(self).contents() == old(self).contents().push(v),
            final(self).sent() == old(self).sent(),
    {
        if self.wpos > self.inner.len() {
            self.wpos = self.inner.len();
        }
        self.inner.push(v);
    }

    /// The length of the contents, sent or not.
    pub fn len(&self) -> (r: usize)
        ensures
            r == self.contents().len(),
    {
        self.inner.len()
    }

    /// Overwrites the byte at `pos`.
    pub fn update(&mut self, pos: usize, ch: u8)
        requires
            pos < old(self).contents().len(),
        ensures
            final(self).contents() == old(self).contents().update(pos as int, ch),
            final(self).sent() == old(self).sent(),
    {
        self.inner.set(pos, ch);
    }

    /// True if nothing is waiting to be sent.
    pub fn is_empty(&self) -> (r: bool)
        ensures
            r == (self.pending().len() == 0),
    {
        self.wpos >= self.inner.len()
    }

    /// The bytes still to be sent.
    pub fn as_slice(&self) -> (r: &[u8])
        ensures
            r@ == self.pending(),
    {
        let start = if self.wpos <= self.inner.len() { self.wpos } else { self.inner.len() };
        vstd::slice::slice_subrange(self.inner.as_slice(), start, self.inner.len())
    }

    /// All of the contents, sent or not.
    pub fn whole(&self) -> (r: &[u8])
        ensures
            r@ == self.contents(),
    {
        self.inner.as_slice()
    }

    /// Marks `by` pending bytes as sent.
    ///
    /// Returns whether everything has been sent; if so, the buffer is
    /// emptied and its position reset.
    pub fn advance(&mut self, by: usize) -> (done: bool)
        ensures
            done == (by >= old(self).pending().len()),
            done ==> final(self).contents() == Seq::<u8>::empty() && final(self).sent() == 0,
            !done ==> final(self).contents() == old(self).contents() && final(self).sent()
                == old(self).sent() + by,
            final(self).pending() == old(self).pending().skip(
                if done { old(self).pending().len() as int } else { by as int },
            ),
    {
        let rest = if self.wpos <= self.inner.len() { self.inner.len() - self.wpos } else { 0 };
        if by < rest {
            self.wpos = self.wpos + by;
            proof {
                assert(self.pending() =~= old(self).pending().skip(by as int));
            }
            false
        } else {
            self.inner.clear();
            self.wpos = 0;
            proof {
                assert(self.pending() =~= old(self).pending().skip(old(self).pending().len() as int));
            }
            true
        }
    }
}

impl Scribe for SendBuf {
    open spec fn scribed(&self) -> Seq<u8> {
        self.contents()
    }

    fn scribble_bytes(&mut self, buf: &[u8]) {
        self.append(buf);
    }

    fn scribble_octet(&mut self, v: u8) {
        self.append_octet(v);
    }
}

} // verus!
