//! A seekable, readable byte source held in memory.
//!
//! A [`ByteSource`] owns the bytes of a brush library and a cursor into them.
//! Reads are all-or-nothing: a read that cannot be served in full fails with
//! [`IoError::UnexpectedEof`] and leaves the source as it was.

use byteorder::{BigEndian, ByteOrder};
use vstd::prelude::*;
use vstd::slice::{slice_subrange, slice_to_vec};

verus! {

/// The longest byte sequence a source may hold: offsets stay within the
/// positive range of a signed 64-bit integer, as the offsets of a seekable
/// file do.
pub const MAX_SOURCE_LEN: u64 = 0x7fff_ffff_ffff_ffff;

/// Why a read or a seek on a [`ByteSource`] failed.
#[derive(Clone, Copy, Debug, PartialEq, Eq, Structural)]
pub enum IoError {
    /// Fewer bytes are left at the cursor than the read asked for.
    UnexpectedEof,
    /// A relative seek would carry the cursor past the largest 64-bit offset.
    InvalidSeek,
}

/// The big-endian 16-bit number held by the two bytes at `at`.
pub open spec fn be_u16_at(bytes: Seq<u8>, at: int) -> int {
    bytes[at] as int * 0x100 + bytes[at + 1] as int
}

/// The big-endian 32-bit number held by the four bytes at `at`.
pub open spec fn be_u32_at(bytes: Seq<u8>, at: int) -> int {
    bytes[at] as int * 0x100_0000 + bytes[at + 1] as int * 0x1_0000 + bytes[at + 2] as int * 0x100
        + bytes[at + 3] as int
}

/// Calls `byteorder`'s `BigEndian::read_u16`, which decodes the first two
/// bytes of `buf` as a big-endian number and panics on a shorter buffer.
#[verifier::external_body]
pub(crate) fn be_u16(buf: &[u8]) -> (v: u16)
    requires
        buf@.len() >= 2,
    ensures
        v == be_u16_at(buf@, 0),
{
    BigEndian::read_u16(buf)
}

/// Calls `byteorder`'s `BigEndian::read_u32`, which decodes the first four
/// bytes of `buf` as a big-endian number and panics on a shorter buffer.
#[verifier::external_body]
pub(crate) fn be_u32(buf: &[u8]) -> (v: u32)
    requires
        buf@.len() >= 4,
    ensures
        v == be_u32_at(buf@, 0),
{
    BigEndian::read_u32(buf)
}

/// Bytes with a cursor.
pub struct ByteSource {
    data: Vec<u8>,
    pos: u64,
}

impl ByteSource {
    /// The bytes the source holds. No operation changes them.
    pub closed spec fn bytes(&self) -> Seq<u8> {
        self.data@
    }

    /// The offset of the cursor. It may lie beyond the last byte.
    pub closed spec fn position(&self) -> nat {
        self.pos as nat
    }

    /// Whether `n` more bytes can be read at the cursor.
    pub open spec fn has(&self, n: int) -> bool {
        self.position() + n <= self.bytes().len()
    }

    /// Whether `self` is `before` with the cursor moved `n` bytes on.
    pub open spec fn advanced(&self, before: &ByteSource, n: int) -> bool {
        &&& self.bytes() == before.bytes()
        &&& self.position() == before.position() + n
    }

    /// Every source holds at most [`MAX_SOURCE_LEN`] bytes.
    #[verifier::type_invariant]
    pub open spec fn bounded(&self) -> bool {
        self.bytes().len() <= MAX_SOURCE_LEN
    }

    /// A source over `data` with the cursor at its first byte.
    pub fn new(data: Vec<u8>) -> (src: ByteSource)
        requires
            data@.len() <= MAX_SOURCE_LEN,
        ensures
            src.bytes() == data@,
            src.position() == 0,
    {
        ByteSource { data, pos: 0 }
    }

    /// The number of bytes the source holds.
    pub fn len(&self) -> (n: u64)
        ensures
            n == self.bytes().len(),
            n <= MAX_SOURCE_LEN,
    {
        proof {
            use_type_invariant(self);
        }
        self.data.len() as u64
    }

    /// All the bytes, whatever the cursor.
    pub fn as_slice(&self) -> (all: &[u8])
        ensures
            all@ == self.bytes(),
    {
        self.data.as_slice()
    }

    /// The offset of the cursor.
    pub fn tell(&self) -> (at: u64)
        ensures
            at == self.position(),
    {
        self.pos
    }

    /// Moves the cursor to the absolute offset `at`, which may lie beyond the
    /// last byte: the next read then fails.
    pub fn seek_to(&mut self, at: u64)
        ensures
            final(self).bytes() == old(self).bytes(),
            final(self).position() == at,
    {
        proof {
            use_type_invariant(&*self);
        }
        self.pos = at;
    }

    /// Moves the cursor `n` bytes forward, also beyond the last byte. Fails,
    /// and moves nothing, where the new offset would not fit in 64 bits.
    pub fn skip(&mut self, n: u64) -> (r: Result<(), IoError>)
        ensures
            match r {
                Ok(_) => old(self).position() + n <= u64::MAX && final(self).advanced(
                    old(self),
                    n as int,
                ),
                Err(e) => old(self).position() + n > u64::MAX && e == IoError::InvalidSeek
                    && *final(self) == *old(self),
            },
    {
        proof {
            use_type_invariant(&*self);
        }
        match self.pos.checked_add(n) {
            Some(at) => {
                self.pos = at;
                Ok(())
            },
            None => Err(IoError::InvalidSeek),
        }
    }

    /// Reads the byte at the cursor.
    pub fn read_u8(&mut self) -> (r: Result<u8, IoError>)
        ensures
            match r {
                Ok(v) => old(self).has(1) && v == old(self).bytes()[old(self).position() as int]
                    && final(self).advanced(old(self), 1),
                Err(e) => !old(self).has(1) && e == IoError::UnexpectedEof
                    && *final(self) == *old(self),
            },
    {
        proof {
            use_type_invariant(&*self);
        }
        if self.pos >= self.data.len() as u64 {
            return Err(IoError::UnexpectedEof);
        }
        let v = self.data[self.pos as usize];
        self.pos = self.pos + 1;
        Ok(v)
    }

    /// Reads the two bytes at the cursor as a big-endian number.
    pub fn read_u16_be(&mut self) -> (r: Result<u16, IoError>)
        ensures
            match r {
                Ok(v) => old(self).has(2) && v == be_u16_at(
                    old(self).bytes(),
                    old(self).position() as int,
                ) && final(self).advanced(old(self), 2),
                Err(e) => !old(self).has(2) && e == IoError::UnexpectedEof
                    && *final(self) == *old(self),
            },
    {
        proof {
            use_type_invariant(&*self);
        }
        let len = self.data.len() as u64;
        if self.pos > len || len - self.pos < 2 {
            return Err(IoError::UnexpectedEof);
        }
        let at = self.pos as usize;
        let v = be_u16(slice_subrange(self.data.as_slice(), at, at + 2));
        self.pos = self.pos + 2;
        Ok(v)
    }

    /// Reads the four bytes at the cursor as a big-endian number.
    pub fn read_u32_be(&mut self) -> (r: Result<u32, IoError>)
        ensures
            match r {
                Ok(v) => old(self).has(4) && v == be_u32_at(
                    old(self).bytes(),
                    old(self).position() as int,
                ) && final(self).advanced(old(self), 4),
                Err(e) => !old(self).has(4) && e == IoError::UnexpectedEof
                    && *final(self) == *old(self),
            },
    {
        proof {
            use_type_invariant(&*self);
        }
        let len = self.data.len() as u64;
        if self.pos > len || len - self.pos < 4 {
            return Err(IoError::UnexpectedEof);
        }
        let at = self.pos as usize;
        let v = be_u32(slice_subrange(self.data.as_slice(), at, at + 4));
        self.pos = self.pos + 4;
        Ok(v)
    }

    /// Reads the `n` bytes at the cursor.
    pub fn read_exact(&mut self, n: u64) -> (r: Result<Vec<u8>, IoError>)
        ensures
            match r {
                Ok(v) => old(self).has(n as int) && v@ == old(self).bytes().subrange(
                    old(self).position() as int,
                    old(self).position() + n,
                ) && final(self).advanced(old(self), n as int),
                Err(e) => !old(self).has(n as int) && e == IoError::UnexpectedEof && *final(self)
                    == *old(self),
            },
    {
        proof {
            use_type_invariant(&*self);
        }
        let len = self.data.len() as u64;
        if self.pos > len || len - self.pos < n {
            return Err(IoError::UnexpectedEof);
        }
        let at = self.pos as usize;
        let v = slice_to_vec(slice_subrange(self.data.as_slice(), at, at + n as usize));
        self.pos = self.pos + n;
        Ok(v)
    }
}

} // verus!
