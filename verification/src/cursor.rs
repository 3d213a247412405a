//! The cursor: the bytes of a caller's buffer that have not been consumed yet.
//! Every decoding step narrows it by taking a prefix; nothing is ever copied.

use vstd::prelude::*;
use vstd::slice::slice_subrange;

verus! {

/// A borrowed view of the bytes that remain to be decoded.
#[derive(Clone, Copy, Debug)]
pub struct Cursor<'a> {
    pub rest: &'a [u8],
}

impl<'a> View for Cursor<'a> {
    type V = Seq<u8>;

    /// The remaining bytes, in order.
    open spec fn view(&self) -> Seq<u8> {
        self.rest@
    }
}

impl<'a> Cursor<'a> {
    /// A cursor in front of the first byte of `buf`.
    pub fn new(buf: &'a [u8]) -> (c: Self)
        ensures
            c@ == buf@,
    {
        Cursor { rest: buf }
    }

    /// The bytes that have not been consumed.
    pub fn remaining(&self) -> (r: &'a [u8])
        ensures
            r@ == self@,
    {
        self.rest
    }

    /// How many bytes have not been consumed.
    pub fn len(&self) -> (n: usize)
        ensures
            n == self@.len(),
    {
        self.rest.len()
    }

    /// The byte `i` places ahead, without consuming anything.
    pub fn peek(&self, i: usize) -> (b: u8)
        requires
            i < self@.len(),
        ensures
            b == self@[i as int],
    {
        self.rest[i]
    }

    /// Consumes the first `n` bytes and hands them out, borrowed from the
    /// buffer for as long as the buffer lives.
    pub fn take(&mut self, n: usize) -> (head: &'a [u8])
        requires
            n <= old(self)@.len(),
        ensures
            head@ == old(self)@.take(n as int),
            final(self)@ == old(self)@.skip(n as int),
    {
        let len: usize = self.rest.len();
        let head = slice_subrange(self.rest, 0, n);
        self.rest = slice_subrange(self.rest, n, len);
        head
    }

    /// Consumes the first `n` bytes.
    pub fn advance(&mut self, n: usize)
        requires
            n <= old(self)@.len(),
        ensures
            final(self)@ == old(self)@.skip(n as int),
    {
        let len: usize = self.rest.len();
        self.rest = slice_subrange(self.rest, n, len);
    }
}

} // verus!
