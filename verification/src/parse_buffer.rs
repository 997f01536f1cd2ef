//! A forward-only cursor over borrowed input bytes.
use crate::wire::{be_u16, be_u24, be_u32};
use vstd::prelude::*;
use vstd::slice::slice_subrange;

verus! {

/// Why a read from a [`ParseBuffer`] failed.
#[derive(Debug, Clone, Copy, PartialEq, Eq, Structural)]
pub enum ParseError {
    /// Fewer bytes are left than the read asks for.
    InsufficientBytes,
}

/// A cursor over an immutable byte slice.
///
/// Its view is the sequence of bytes not yet read.  Every successful read
/// removes exactly what it returns from the front of that sequence; a failed
/// read leaves the cursor as it was.
pub struct ParseBuffer<'b> {
    pos: usize,
    buffer: &'b [u8],
}

impl<'b> View for ParseBuffer<'b> {
    type V = Seq<u8>;

    closed spec fn view(&self) -> Seq<u8> {
        self.buffer@.skip(self.pos as int)
    }
}

impl<'b> ParseBuffer<'b> {
    #[verifier::type_invariant]
    spec fn in_bounds(self) -> bool {
        self.pos <= self.buffer@.len()
    }

    /// A cursor at the start of `buffer`.
    pub fn new(buffer: &'b [u8]) -> (cursor: Self)
        ensures
            cursor@ == buffer@,
    {
        Self { pos: 0, buffer }
    }

    /// Whether every byte has been read.
    pub fn is_empty(&self) -> (empty: bool)
        ensures
            empty == (self@.len() == 0),
    {
        proof {
            use_type_invariant(self);
        }
        self.pos == self.buffer.len()
    }

    /// The number of bytes not yet read.
    pub fn remaining(&self) -> (n: usize)
        ensures
            n == self@.len(),
    {
        proof {
            use_type_invariant(self);
        }
        self.buffer.len() - self.pos
    }

    /// The bytes not yet read, without advancing.
    pub fn as_slice(&self) -> (rest: &'b [u8])
        ensures
            rest@ == self@,
    {
        proof {
            use_type_invariant(self);
        }
        slice_subrange(self.buffer, self.pos, self.buffer.len())
    }

    /// Splits the next `len` bytes off into a cursor of their own.
    pub fn slice(&mut self, len: usize) -> (r: Result<ParseBuffer<'b>, ParseError>)
        ensures
            r is Ok <==> len <= old(self)@.len(),
            r is Ok ==> r->Ok_0@ == old(self)@.take(len as int) && final(self)@ == old(self)@.skip(
                len as int,
            ),
            r is Err ==> r->Err_0 == ParseError::InsufficientBytes && final(self)@ == old(self)@,
    {
        proof {
            use_type_invariant(&*self);
        }
        if len <= self.buffer.len() - self.pos {
            let part = slice_subrange(self.buffer, self.pos, self.pos + len);
            self.pos = self.pos + len;
            Ok(ParseBuffer::new(part))
        } else {
            Err(ParseError::InsufficientBytes)
        }
    }

    /// Reads one byte.
    pub fn read_u8(&mut self) -> (r: Result<u8, ParseError>)
        ensures
            r is Ok <==> old(self)@.len() >= 1,
            r is Ok ==> r->Ok_0 == old(self)@[0] && final(self)@ == old(self)@.skip(1),
            r is Err ==> r->Err_0 == ParseError::InsufficientBytes && final(self)@ == old(self)@,
    {
        proof {
            use_type_invariant(&*self);
        }
        if 1 <= self.buffer.len() - self.pos {
            let value = self.buffer[self.pos];
            self.pos = self.pos + 1;
            Ok(value)
        } else {
            Err(ParseError::InsufficientBytes)
        }
    }

    /// Reads a two-byte big-endian number.
    pub fn read_u16(&mut self) -> (r: Result<u16, ParseError>)
        ensures
            r is Ok <==> old(self)@.len() >= 2,
            r is Ok ==> r->Ok_0 == be_u16(old(self)@) && final(self)@ == old(self)@.skip(2),
            r is Err ==> r->Err_0 == ParseError::InsufficientBytes && final(self)@ == old(self)@,
    {
        proof {
            use_type_invariant(&*self);
        }
        if 2 <= self.buffer.len() - self.pos {
            let b0 = self.buffer[self.pos] as u16;
            let b1 = self.buffer[self.pos + 1] as u16;
            self.pos = self.pos + 2;
            Ok(b0 * 0x100 + b1)
        } else {
            Err(ParseError::InsufficientBytes)
        }
    }

    /// Reads a three-byte big-endian number, the width of most TLS length fields.
    pub fn read_u24(&mut self) -> (r: Result<u32, ParseError>)
        ensures
            r is Ok <==> old(self)@.len() >= 3,
            r is Ok ==> r->Ok_0 == be_u24(old(self)@) && final(self)@ == old(self)@.skip(3),
            r is Err ==> r->Err_0 == ParseError::InsufficientBytes && final(self)@ == old(self)@,
    {
        proof {
            use_type_invariant(&*self);
        }
        if 3 <= self.buffer.len() - self.pos {
            let b0 = self.buffer[self.pos] as u32;
            let b1 = self.buffer[self.pos + 1] as u32;
            let b2 = self.buffer[self.pos + 2] as u32;
            self.pos = self.pos + 3;
            Ok(b0 * 0x1_0000 + b1 * 0x100 + b2)
        } else {
            Err(ParseError::InsufficientBytes)
        }
    }

    /// Reads a four-byte big-endian number.
    pub fn read_u32(&mut self) -> (r: Result<u32, ParseError>)
        ensures
            r is Ok <==> old(self)@.len() >= 4,
            r is Ok ==> r->Ok_0 == be_u32(old(self)@) && final(self)@ == old(self)@.skip(4),
            r is Err ==> r->Err_0 == ParseError::InsufficientBytes && final(self)@ == old(self)@,
    {
        proof {
            use_type_invariant(&*self);
        }
        if 4 <= self.buffer.len() - self.pos {
            let b0 = self.buffer[self.pos] as u32;
            let b1 = self.buffer[self.pos + 1] as u32;
            let b2 = self.buffer[self.pos + 2] as u32;
            let b3 = self.buffer[self.pos + 3] as u32;
            self.pos = self.pos + 4;
            Ok(b0 * 0x100_0000 + b1 * 0x1_0000 + b2 * 0x100 + b3)
        } else {
            Err(ParseError::InsufficientBytes)
        }
    }
}

} // verus!
