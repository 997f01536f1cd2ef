//! A fixed-capacity output buffer over borrowed memory.
use crate::wire::{u16_bytes, u24_bytes};
use crate::TlsError;
use vstd::prelude::*;
use vstd::slice::slice_subrange;

verus! {

/// An append-only buffer over a mutable byte slice.
///
/// Its view is the sequence of bytes written so far; its capacity is the
/// length of the slice it was made from.  An append either writes all of its
/// bytes or fails and writes none.
pub struct CryptoBuffer<'b> {
    buf: &'b mut [u8],
    len: usize,
}

impl<'b> View for CryptoBuffer<'b> {
    type V = Seq<u8>;

    closed spec fn view(&self) -> Seq<u8> {
        self.buf@.take(self.len as int)
    }
}

impl<'b> CryptoBuffer<'b> {
    #[verifier::type_invariant]
    spec fn in_bounds(self) -> bool {
        self.len <= self.buf@.len()
    }

    /// The number of bytes that the buffer can hold in all.
    pub closed spec fn spec_capacity(&self) -> usize {
        self.buf.len()
    }

    /// An empty buffer that writes into `buf`.
    pub fn wrap(buf: &'b mut [u8]) -> (out: Self)
        ensures
            out@ == Seq::<u8>::empty(),
            out.capacity() == old(buf)@.len(),
    {
        Self { buf, len: 0 }
    }

    /// The number of bytes written so far.
    pub fn len(&self) -> (n: usize)
        ensures
            n == self@.len(),
            n <= self.capacity(),
    {
        proof {
            use_type_invariant(self);
        }
        self.len
    }

    /// The number of bytes that the buffer can hold in all.
    #[verifier::when_used_as_spec(spec_capacity)]
    pub fn capacity(&self) -> (n: usize)
        ensures
            n == self.capacity(),
    {
        self.buf.len()
    }

    /// Whether nothing has been written.
    pub fn is_empty(&self) -> (empty: bool)
        ensures
            empty == (self@.len() == 0),
    {
        proof {
            use_type_invariant(self);
        }
        self.len == 0
    }

    /// The bytes written so far.
    pub fn as_slice(&self) -> (written: &[u8])
        ensures
            written@ == self@,
    {
        proof {
            use_type_invariant(self);
        }
        slice_subrange(&*self.buf, 0, self.len)
    }

    /// Appends one byte.
    pub fn push(&mut self, b: u8) -> (r: Result<(), TlsError>)
        ensures
            final(self).capacity() == old(self).capacity(),
            r is Ok <==> old(self)@.len() < old(self).capacity(),
            r is Ok ==> final(self)@ == old(self)@.push(b),
            r is Err ==> r->Err_0 == TlsError::InsufficientSpace && final(self)@ == old(self)@,
    {
        proof {
            use_type_invariant(&*self);
        }
        if self.len < self.buf.len() {
            self.buf[self.len] = b;
            self.len = self.len + 1;
            Ok(())
        } else {
            Err(TlsError::InsufficientSpace)
        }
    }

    /// Appends all of `other`, or nothing where it does not fit.
    pub fn extend_from_slice(&mut self, other: &[u8]) -> (r: Result<(), TlsError>)
        ensures
            final(self).capacity() == old(self).capacity(),
            r is Ok <==> old(self)@.len() + other@.len() <= old(self).capacity(),
            r is Ok ==> final(self)@ == old(self)@ + other@,
            r is Err ==> r->Err_0 == TlsError::InsufficientSpace && final(self)@ == old(self)@,
    {
        proof {
            use_type_invariant(&*self);
        }
        if other.len() > self.buf.len() - self.len {
            return Err(TlsError::InsufficientSpace);
        }
        let start = self.len;
        let mut i: usize = 0;
        while i < other.len()
            invariant
                self.len == start,
                self.buf.len() == old(self).buf.len(),
                start + other.len() <= self.buf.len(),
                i <= other.len(),
                self.buf@.take(start + i) == old(self)@ + other@.take(i as int),
            decreases other.len() - i,
        {
            let ghost before = self.buf@;
            self.buf[start + i] = other[i];
            proof {
                assert(self.buf@.take(start + i + 1) == before.take(start + i).push(other@[i as int]));
                assert(other@.take(i + 1) == other@.take(i as int).push(other@[i as int]));
            }
            i = i + 1;
        }
        self.len = start + other.len();
        Ok(())
    }

    /// Appends the two low bytes of `value`, most significant first.
    pub fn push_u16(&mut self, value: u16) -> (r: Result<(), TlsError>)
        ensures
            final(self).capacity() == old(self).capacity(),
            r is Ok <==> old(self)@.len() + 2 <= old(self).capacity(),
            r is Ok ==> final(self)@ == old(self)@ + u16_bytes(value as int),
            r is Err ==> r->Err_0 == TlsError::InsufficientSpace && final(self)@ == old(self)@,
    {
        let field: [u8; 2] = [(value / 0x100) as u8, (value % 0x100) as u8];
        self.extend_from_slice(field.as_slice())
    }

    /// Appends the three low bytes of `value`, most significant first.
    pub fn push_u24(&mut self, value: u32) -> (r: Result<(), TlsError>)
        ensures
            final(self).capacity() == old(self).capacity(),
            r is Ok <==> old(self)@.len() + 3 <= old(self).capacity(),
            r is Ok ==> final(self)@ == old(self)@ + u24_bytes(value as int),
            r is Err ==> r->Err_0 == TlsError::InsufficientSpace && final(self)@ == old(self)@,
    {
        let field: [u8; 3] = [
            ((value / 0x1_0000) % 0x100) as u8,
            ((value / 0x100) % 0x100) as u8,
            (value % 0x100) as u8,
        ];
        self.extend_from_slice(field.as_slice())
    }
}

} // verus!
