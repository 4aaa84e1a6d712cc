use vstd::prelude::*;

use crate::error::DiggerError;

verus! {

/// The two bytes of `v` in network byte order (most significant first).
pub open spec fn be16_bytes(v: u16) -> Seq<u8> {
    seq![(v / 256) as u8, (v % 256) as u8]
}

/// The four bytes of `v` in network byte order (most significant first).
pub open spec fn be32_bytes(v: u32) -> Seq<u8> {
    seq![(v / 0x100_0000) as u8, ((v / 0x1_0000) % 256) as u8, ((v / 256) % 256) as u8, (v % 256) as u8]
}

/// The big-endian 16-bit value stored at `s[i..i + 2]`.
pub open spec fn be16_at(s: Seq<u8>, i: int) -> u16 {
    (s[i] as int * 256 + s[i + 1] as int) as u16
}

/// The big-endian 32-bit value stored at `s[i..i + 4]`.
pub open spec fn be32_at(s: Seq<u8>, i: int) -> u32 {
    (s[i] as int * 0x100_0000 + s[i + 1] as int * 0x1_0000 + s[i + 2] as int * 256
        + s[i + 3] as int) as u32
}

/// An append-only byte buffer with a fixed capacity.
pub struct Writer {
    buf: Vec<u8>,
    capacity: usize,
}

impl Writer {
    /// The bytes written so far.
    pub closed spec fn bytes(&self) -> Seq<u8> {
        self.buf@
    }

    /// The most bytes this writer may hold.
    pub closed spec fn cap(&self) -> nat {
        self.capacity as nat
    }

    pub closed spec fn wf(&self) -> bool {
        self.buf@.len() <= self.capacity
    }

    /// An empty writer that holds at most `capacity` bytes.
    pub fn new(capacity: usize) -> (w: Writer)
        ensures
            w.wf(),
            w.bytes() == Seq::<u8>::empty(),
            w.cap() == capacity,
    {
        Writer { buf: Vec::new(), capacity }
    }

    /// The number of bytes written so far.
    pub fn len(&self) -> (r: usize)
        ensures
            r == self.bytes().len(),
    {
        self.buf.len()
    }

    /// The most bytes this writer may hold.
    pub fn capacity(&self) -> (r: usize)
        ensures
            r == self.cap(),
    {
        self.capacity
    }

    /// How many more bytes fit.
    pub fn room(&self) -> (r: usize)
        requires
            self.wf(),
        ensures
            r == self.cap() - self.bytes().len(),
    {
        self.capacity - self.buf.len()
    }

    /// Gives up the writer and returns the bytes written.
    pub fn into_bytes(self) -> (r: Vec<u8>)
        ensures
            r@ == self.bytes(),
    {
        self.buf
    }

    /// Appends the bytes of `s`, or fails with `BufferOverflow`, unchanged,
    /// when they do not fit.
    pub fn write_bytes(&mut self, s: &[u8]) -> (r: Result<(), DiggerError>)
        requires
            old(self).wf(),
        ensures
            final(self).wf(),
            final(self).cap() == old(self).cap(),
            old(self).bytes().len() + s@.len() <= old(self).cap() <==> r is Ok,
            r is Ok ==> final(self).bytes() == old(self).bytes() + s@,
            r is Err ==> r == Err::<(), DiggerError>(DiggerError::BufferOverflow)
                && final(self).bytes() == old(self).bytes(),
    {
        if s.len() > self.capacity - self.buf.len() {
            return Err(DiggerError::BufferOverflow);
        }
        let ghost start = self.buf@;
        let mut i: usize = 0;
        while i < s.len()
            invariant
                i <= s@.len(),
                start.len() + s@.len() <= self.capacity,
                self.capacity == old(self).capacity,
                self.buf@ == start + s@.subrange(0, i as int),
            decreases s@.len() - i,
        {
            self.buf.push(s[i]);
            i = i + 1;
            assert(s@.subrange(0, i as int) == s@.subrange(0, i - 1) + seq![s@[i - 1]]);
        }
        assert(s@.subrange(0, s@.len() as int) == s@);
        Ok(())
    }

    /// Appends one byte, or fails with `BufferOverflow`, unchanged, when it
    /// does not fit.
    pub fn write_u8(&mut self, v: u8) -> (r: Result<(), DiggerError>)
        requires
            old(self).wf(),
        ensures
            final(self).wf(),
            final(self).cap() == old(self).cap(),
            old(self).bytes().len() + 1 <= old(self).cap() <==> r is Ok,
            r is Ok ==> final(self).bytes() == old(self).bytes().push(v),
            r is Err ==> r == Err::<(), DiggerError>(DiggerError::BufferOverflow)
                && final(self).bytes() == old(self).bytes(),
    {
        if self.buf.len() >= self.capacity {
            return Err(DiggerError::BufferOverflow);
        }
        self.buf.push(v);
        Ok(())
    }

    /// Appends `v` in network byte order, or fails with `BufferOverflow`,
    /// unchanged, when it does not fit.
    pub fn write_u16(&mut self, v: u16) -> (r: Result<(), DiggerError>)
        requires
            old(self).wf(),
        ensures
            final(self).wf(),
            final(self).cap() == old(self).cap(),
            old(self).bytes().len() + 2 <= old(self).cap() <==> r is Ok,
            r is Ok ==> final(self).bytes() == old(self).bytes() + be16_bytes(v),
            r is Err ==> r == Err::<(), DiggerError>(DiggerError::BufferOverflow)
                && final(self).bytes() == old(self).bytes(),
    {
        if self.capacity - self.buf.len() < 2 {
            return Err(DiggerError::BufferOverflow);
        }
        self.buf.push((v / 256) as u8);
        self.buf.push((v % 256) as u8);
        assert(self.buf@ =~= old(self).bytes() + be16_bytes(v));
        Ok(())
    }

    /// Appends `v` in network byte order, or fails with `BufferOverflow`,
    /// unchanged, when it does not fit.
    pub fn write_u32(&mut self, v: u32) -> (r: Result<(), DiggerError>)
        requires
            old(self).wf(),
        ensures
            final(self).wf(),
            final(self).cap() == old(self).cap(),
            old(self).bytes().len() + 4 <= old(self).cap() <==> r is Ok,
            r is Ok ==> final(self).bytes() == old(self).bytes() + be32_bytes(v),
            r is Err ==> r == Err::<(), DiggerError>(DiggerError::BufferOverflow)
                && final(self).bytes() == old(self).bytes(),
    {
        if self.capacity - self.buf.len() < 4 {
            return Err(DiggerError::BufferOverflow);
        }
        self.buf.push((v / 0x100_0000) as u8);
        self.buf.push(((v / 0x1_0000) % 256) as u8);
        self.buf.push(((v / 256) % 256) as u8);
        self.buf.push((v % 256) as u8);
        assert(self.buf@ =~= old(self).bytes() + be32_bytes(v));
        Ok(())
    }
}

/// A read position over a message buffer.
pub struct Reader<'a> {
    buf: &'a [u8],
    pos: usize,
}

impl<'a> Reader<'a> {
    /// The whole buffer being read.
    pub closed spec fn data(&self) -> Seq<u8> {
        self.buf@
    }

    /// The offset of the next byte to read.
    pub closed spec fn offset(&self) -> int {
        self.pos as int
    }

    pub closed spec fn wf(&self) -> bool {
        self.pos <= self.buf@.len()
    }

    /// A reader at offset `pos` of `buf`.
    pub fn at(buf: &'a [u8], pos: usize) -> (r: Reader<'a>)
        requires
            pos <= buf@.len(),
        ensures
            r.wf(),
            r.data() == buf@,
            r.offset() == pos,
    {
        Reader { buf, pos }
    }

    /// The offset of the next byte to read.
    pub fn position(&self) -> (r: usize)
        ensures
            r == self.offset(),
    {
        self.pos
    }

    /// The whole buffer being read.
    pub fn bytes(&self) -> (r: &'a [u8])
        ensures
            r@ == self.data(),
    {
        self.buf
    }

    /// The length of the whole buffer.
    pub fn len(&self) -> (r: usize)
        ensures
            r == self.data().len(),
    {
        self.buf.len()
    }

    /// How many bytes remain after the read position.
    pub fn remaining(&self) -> (r: usize)
        requires
            self.wf(),
        ensures
            r == self.data().len() - self.offset(),
    {
        self.buf.len() - self.pos
    }

    /// Moves the read position to `pos`.
    pub fn seek(&mut self, pos: usize)
        requires
            pos <= old(self).data().len(),
        ensures
            final(self).wf(),
            final(self).data() == old(self).data(),
            final(self).offset() == pos,
    {
        self.pos = pos;
    }

    /// The byte at absolute offset `offset`, without moving the read
    /// position; `TruncatedMessage` past the end.
    pub fn peek_at(&self, offset: usize) -> (r: Result<u8, DiggerError>)
        ensures
            offset < self.data().len() ==> r == Ok::<u8, DiggerError>(self.data()[offset as int]),
            offset >= self.data().len() ==> r == Err::<u8, DiggerError>(
                DiggerError::TruncatedMessage,
            ),
    {
        if offset < self.buf.len() {
            Ok(self.buf[offset])
        } else {
            Err(DiggerError::TruncatedMessage)
        }
    }

    /// Reads one byte, or fails with `TruncatedMessage`, unmoved, at the end.
    pub fn read_u8(&mut self) -> (r: Result<u8, DiggerError>)
        requires
            old(self).wf(),
        ensures
            final(self).wf(),
            final(self).data() == old(self).data(),
            old(self).offset() + 1 <= old(self).data().len() ==> r == Ok::<u8, DiggerError>(
                old(self).data()[old(self).offset()],
            ) && final(self).offset() == old(self).offset() + 1,
            old(self).offset() + 1 > old(self).data().len() ==> r == Err::<u8, DiggerError>(
                DiggerError::TruncatedMessage,
            ) && final(self).offset() == old(self).offset(),
    {
        if self.buf.len() - self.pos < 1 {
            return Err(DiggerError::TruncatedMessage);
        }
        let v = self.buf[self.pos];
        self.pos = self.pos + 1;
        Ok(v)
    }

    /// Reads a 16-bit value in network byte order, or fails with
    /// `TruncatedMessage`, unmoved, when fewer than two bytes remain.
    pub fn read_u16(&mut self) -> (r: Result<u16, DiggerError>)
        requires
            old(self).wf(),
        ensures
            final(self).wf(),
            final(self).data() == old(self).data(),
            old(self).offset() + 2 <= old(self).data().len() ==> r == Ok::<u16, DiggerError>(
                be16_at(old(self).data(), old(self).offset()),
            ) && final(self).offset() == old(self).offset() + 2,
            old(self).offset() + 2 > old(self).data().len() ==> r == Err::<u16, DiggerError>(
                DiggerError::TruncatedMessage,
            ) && final(self).offset() == old(self).offset(),
    {
        if self.buf.len() - self.pos < 2 {
            return Err(DiggerError::TruncatedMessage);
        }
        let v = (self.buf[self.pos] as u16) * 256 + self.buf[self.pos + 1] as u16;
        self.pos = self.pos + 2;
        Ok(v)
    }

    /// Reads a 32-bit value in network byte order, or fails with
    /// `TruncatedMessage`, unmoved, when fewer than four bytes remain.
    pub fn read_u32(&mut self) -> (r: Result<u32, DiggerError>)
        requires
            old(self).wf(),
        ensures
            final(self).wf(),
            final(self).data() == old(self).data(),
            old(self).offset() + 4 <= old(self).data().len() ==> r == Ok::<u32, DiggerError>(
                be32_at(old(self).data(), old(self).offset()),
            ) && final(self).offset() == old(self).offset() + 4,
            old(self).offset() + 4 > old(self).data().len() ==> r == Err::<u32, DiggerError>(
                DiggerError::TruncatedMessage,
            ) && final(self).offset() == old(self).offset(),
    {
        if self.buf.len() - self.pos < 4 {
            return Err(DiggerError::TruncatedMessage);
        }
        let p = self.pos;
        let v = (self.buf[p] as u32) * 0x100_0000 + (self.buf[p + 1] as u32) * 0x1_0000
            + (self.buf[p + 2] as u32) * 256 + self.buf[p + 3] as u32;
        self.pos = p + 4;
        Ok(v)
    }

    /// Reads `n` bytes, or fails with `TruncatedMessage`, unmoved, when fewer
    /// remain.
    pub fn read_bytes(&mut self, n: usize) -> (r: Result<Vec<u8>, DiggerError>)
        requires
            old(self).wf(),
        ensures
            final(self).wf(),
            final(self).data() == old(self).data(),
            old(self).offset() + n <= old(self).data().len() ==> r is Ok && r->Ok_0@
                == old(self).data().subrange(old(self).offset(), old(self).offset() + n)
                && final(self).offset() == old(self).offset() + n,
            old(self).offset() + n > old(self).data().len() ==> r == Err::<Vec<u8>, DiggerError>(
                DiggerError::TruncatedMessage,
            ) && final(self).offset() == old(self).offset(),
    {
        if self.buf.len() - self.pos < n {
            return Err(DiggerError::TruncatedMessage);
        }
        let buf = self.buf;
        let p = self.pos;
        let mut out: Vec<u8> = Vec::new();
        let mut i: usize = 0;
        while i < n
            invariant
                p + n <= buf.len(),
                i <= n,
                out@ == buf@.subrange(p as int, p + i),
            decreases n - i,
        {
            out.push(buf[p + i]);
            i = i + 1;
            assert(out@ =~= buf@.subrange(p as int, p + i));
        }
        self.pos = p + n;
        Ok(out)
    }
}

} // verus!
