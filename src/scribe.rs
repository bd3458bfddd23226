//! Traits to assemble text-based messages.
//!
//! A `Scribe` is a buffer into which a message is assembled ("scribbled");
//! a `Scribble` is a value that knows how to write itself into one.
//! Integers are written in their decimal form, as Internet messages do.
use vstd::prelude::*;
use vstd::string::StringSliceAdditionalSpecFns;

verus! {

/// The ASCII digits of `v` in decimal, most significant first.
pub open spec fn decimal(v: nat) -> Seq<u8>
    decreases v,
{
    if v < 10 {
        seq![(48 + v) as u8]
    } else {
        decimal(v / 10).push((48 + v % 10) as u8)
    }
}

/// The text of a signed integer: a `-` for a negative value, then its digits.
pub open spec fn signed_decimal(v: int) -> Seq<u8> {
    if v < 0 {
        seq![45u8] + decimal((-v) as nat)
    } else {
        decimal(v as nat)
    }
}

/// Every decimal has at least one digit and only ASCII digits.
pub proof fn lemma_decimal_digits(v: nat)
    ensures
        decimal(v).len() >= 1,
        forall|i: int| 0 <= i < decimal(v).len() ==> 48 <= #[trigger] decimal(v)[i] <= 57,
    decreases v,
{
    if v >= 10 {
        lemma_decimal_digits(v / 10);
    }
}

/// The decimal digits of `v`, most significant first.
pub fn decimal_digits(v: u64) -> (r: Vec<u8>)
    ensures
        r@ == decimal(v as nat),
    decreases v,
{
    if v < 10 {
        let mut r: Vec<u8> = Vec::new();
        r.push(v as u8 + 48u8);
        proof {
            assert(r@ =~= decimal(v as nat));
        }
        r
    } else {
        let mut r = decimal_digits(v / 10);
        r.push((v % 10) as u8 + 48u8);
        r
    }
}

/// Something into which a text message can be assembled.
pub trait Scribe {
    /// What has been scribbled so far.
    spec fn scribed(&self) -> Seq<u8>;

    /// Attaches a byte slice to the end of the message.
    fn scribble_bytes(&mut self, buf: &[u8])
        ensures
            final(self).scribed() == old(self).scribed() + buf@,
    ;

    /// Attaches a single byte as it is.
    fn scribble_octet(&mut self, v: u8)
        ensures
            final(self).scribed() == old(self).scribed().push(v),
    ;

    /// Attaches `1` for true and `0` for false.
    fn scribble_bool(&mut self, v: bool)
        ensures
            final(self).scribed() == old(self).scribed().push(if v { 49u8 } else { 48u8 }),
    {
        if v {
            self.scribble_octet(49u8)
        } else {
            self.scribble_octet(48u8)
        }
    }

    /// Attaches the decimal form of an unsigned integer.
    fn scribble_u64(&mut self, v: u64)
        ensures
            final(self).scribed() == old(self).scribed() + decimal(v as nat),
    {
        let digits = decimal_digits(v);
        self.scribble_bytes(digits.as_slice())
    }

    fn scribble_u32(&mut self, v: u32)
        ensures
            final(self).scribed() == old(self).scribed() + decimal(v as nat),
    {
        self.scribble_u64(v as u64)
    }

    fn scribble_u16(&mut self, v: u16)
        ensures
            final(self).scribed() == old(self).scribed() + decimal(v as nat),
    {
        self.scribble_u64(v as u64)
    }

    fn scribble_u8(&mut self, v: u8)
        ensures
            final(self).scribed() == old(self).scribed() + decimal(v as nat),
    {
        self.scribble_u64(v as u64)
    }

    fn scribble_usize(&mut self, v: usize)
        ensures
            final(self).scribed() == old(self).scribed() + decimal(v as nat),
    {
        self.scribble_u64(v as u64)
    }

    /// Attaches the decimal form of a signed integer, with a leading `-`
    /// if it is negative.
    fn scribble_i64(&mut self, v: i64)
        ensures
            final(self).scribed() == old(self).scribed() + signed_decimal(v as int),
    {
        if v < 0 {
            self.scribble_octet(45u8);
            let m: u64 = ((-(v + 1)) as u64) + 1;
            self.scribble_u64(m);
        } else {
            self.scribble_u64(v as u64);
        }
    }

    fn scribble_i32(&mut self, v: i32)
        ensures
            final(self).scribed() == old(self).scribed() + signed_decimal(v as int),
    {
        self.scribble_i64(v as i64)
    }

    fn scribble_i16(&mut self, v: i16)
        ensures
            final(self).scribed() == old(self).scribed() + signed_decimal(v as int),
    {
        self.scribble_i64(v as i64)
    }

    fn scribble_i8(&mut self, v: i8)
        ensures
            final(self).scribed() == old(self).scribed() + signed_decimal(v as int),
    {
        self.scribble_i64(v as i64)
    }

    fn scribble_isize(&mut self, v: isize)
        ensures
            final(self).scribed() == old(self).scribed() + signed_decimal(v as int),
    {
        self.scribble_i64(v as i64)
    }

    /// Attaches the UTF-8 encoding of a string.
    fn scribble_str(&mut self, v: &str)
        ensures
            final(self).scribed() == old(self).scribed() + v.spec_bytes(),
    {
        self.scribble_bytes(v.as_bytes())
    }
}

/// A value that can write itself into a `Scribe`.
pub trait Scribble {
    /// The bytes that the value writes.
    spec fn scribbled(&self) -> Seq<u8>;

    fn scribble<S: Scribe>(&self, scribe: &mut S)
        ensures
            final(scribe).scribed() == old(scribe).scribed() + self.scribbled(),
    ;
}

impl Scribble for bool {
    open spec fn scribbled(&self) -> Seq<u8> {
        seq![if *self { 49u8 } else { 48u8 }]
    }

    fn scribble<S: Scribe>(&self, scribe: &mut S) {
        scribe.scribble_bool(*self);
    }
}

impl Scribble for u64 {
    open spec fn scribbled(&self) -> Seq<u8> {
        decimal(*self as nat)
    }

    fn scribble<S: Scribe>(&self, scribe: &mut S) {
        scribe.scribble_u64(*self);
    }
}

impl Scribble for u32 {
    open spec fn scribbled(&self) -> Seq<u8> {
        decimal(*self as nat)
    }

    fn scribble<S: Scribe>(&self, scribe: &mut S) {
        scribe.scribble_u32(*self);
    }
}

impl Scribble for u16 {
    open spec fn scribbled(&self) -> Seq<u8> {
        decimal(*self as nat)
    }

    fn scribble<S: Scribe>(&self, scribe: &mut S) {
        scribe.scribble_u16(*self);
    }
}

impl Scribble for usize {
    open spec fn scribbled(&self) -> Seq<u8> {
        decimal(*self as nat)
    }

    fn scribble<S: Scribe>(&self, scribe: &mut S) {
        scribe.scribble_usize(*self);
    }
}

impl Scribble for i64 {
    open spec fn scribbled(&self) -> Seq<u8> {
        signed_decimal(*self as int)
    }

    fn scribble<S: Scribe>(&self, scribe: &mut S) {
        scribe.scribble_i64(*self);
    }
}

impl Scribble for i32 {
    open spec fn scribbled(&self) -> Seq<u8> {
        signed_decimal(*self as int)
    }

    fn scribble<S: Scribe>(&self, scribe: &mut S) {
        scribe.scribble_i32(*self);
    }
}

impl Scribble for i16 {
    open spec fn scribbled(&self) -> Seq<u8> {
        signed_decimal(*self as int)
    }

    fn scribble<S: Scribe>(&self, scribe: &mut S) {
        scribe.scribble_i16(*self);
    }
}

impl Scribble for i8 {
    open spec fn scribbled(&self) -> Seq<u8> {
        signed_decimal(*self as int)
    }

    fn scribble<S: Scribe>(&self, scribe: &mut S) {
        scribe.scribble_i8(*self);
    }
}

impl Scribble for isize {
    open spec fn scribbled(&self) -> Seq<u8> {
        signed_decimal(*self as int)
    }

    fn scribble<S: Scribe>(&self, scribe: &mut S) {
        scribe.scribble_isize(*self);
    }
}

} // verus!
