//! An in-memory byte buffer with a position, readable, writable and seekable.

use vstd::prelude::*;
use crate::io::{self, copy_prefix, Error, ErrorKind, Read, Seek, SeekFrom, Write};

verus! {

/// A container whose contents can be viewed as bytes.
pub trait ByteStore {
    /// The bytes held.
    spec fn stored(&self) -> Seq<u8>;

    /// The bytes held, as a slice.
    fn as_bytes(&self) -> (r: &[u8])
        ensures
            r@ == self.stored(),
    ;
}

impl ByteStore for Vec<u8> {
    open spec fn stored(&self) -> Seq<u8> {
        self@
    }

    fn as_bytes(&self) -> (r: &[u8]) {
        self.as_slice()
    }
}

impl<'a> ByteStore for &'a [u8] {
    open spec fn stored(&self) -> Seq<u8> {
        (*self)@
    }

    fn as_bytes(&self) -> (r: &[u8]) {
        *self
    }
}

impl<'a> ByteStore for &'a mut [u8] {
    open spec fn stored(&self) -> Seq<u8> {
        (**self)@
    }

    fn as_bytes(&self) -> (r: &[u8]) {
        &**self
    }
}

/// Wraps an in-memory buffer and gives it a position, so that it can be
/// read, written and sought like a stream.
#[derive(Clone, Debug, Default, Eq, PartialEq)]
pub struct Cursor<T> {
    inner: T,
    pos: u64,
}

impl<T> Cursor<T> {
    /// The wrapped buffer.
    pub closed spec fn spec_inner(&self) -> T {
        self.inner
    }

    /// The position.
    pub closed spec fn spec_pos(&self) -> u64 {
        self.pos
    }

    /// A cursor over `inner` at position 0.
    pub fn new(inner: T) -> (r: Cursor<T>)
        ensures
            r.spec_inner() == inner,
            r.spec_pos() == 0,
    {
        Cursor { pos: 0, inner }
    }

    /// The wrapped buffer, consuming the cursor.
    pub fn into_inner(self) -> (r: T)
        ensures
            r == self.spec_inner(),
    {
        self.inner
    }

    /// A reference to the wrapped buffer.
    pub fn get_ref(&self) -> (r: &T)
        ensures
            *r == self.spec_inner(),
    {
        &self.inner
    }

    /// A mutable reference to the wrapped buffer; the position is kept.
    pub fn get_mut(&mut self) -> (r: &mut T)
        ensures
            *r == old(self).spec_inner(),
            final(self).spec_inner() == *final(r),
            final(self).spec_pos() == old(self).spec_pos(),
    {
        &mut self.inner
    }

    /// The position.
    pub fn position(&self) -> (r: u64)
        ensures
            r == self.spec_pos(),
    {
        self.pos
    }

    /// Sets the position, which may lie past the end of the buffer.
    pub fn set_position(&mut self, pos: u64)
        ensures
            final(self).spec_pos() == pos,
            final(self).spec_inner() == old(self).spec_inner(),
    {
        self.pos = pos;
    }
}

impl<T: ByteStore> Cursor<T> {
    /// The bytes from the position on; empty when the position is at or past
    /// the end.
    pub open spec fn spec_remaining(&self) -> Seq<u8> {
        let len = self.spec_inner().stored().len();
        if self.spec_pos() >= len {
            Seq::empty()
        } else {
            self.spec_inner().stored().subrange(self.spec_pos() as int, len as int)
        }
    }

    /// The bytes from the position on.
    pub fn remaining_slice(&self) -> (r: &[u8])
        ensures
            r@ == self.spec_remaining(),
            self.spec_inner().stored().len() <= usize::MAX,
    {
        let bytes = self.inner.as_bytes();
        let start = if self.pos >= bytes.len() as u64 {
            bytes.len()
        } else {
            self.pos as usize
        };
        let (_, rest) = bytes.split_at(start);
        proof {
            if self.pos >= bytes.len() {
                assert(rest@ =~= Seq::<u8>::empty());
            }
        }
        rest
    }

    /// Whether the position is at or past the end.
    pub fn is_empty(&self) -> (r: bool)
        ensures
            r == (self.spec_pos() >= self.spec_inner().stored().len()),
    {
        self.pos >= self.inner.as_bytes().len() as u64
    }
}

/// The position `offset` bytes from `base`, where `offset` is read as a
/// two's-complement signed number; `None` below zero or past `u64::MAX`.
pub open spec fn offset_position(base: u64, offset: u64) -> Option<u64> {
    let delta: int = if offset < 0x8000_0000_0000_0000 {
        offset as int
    } else {
        offset as int - 0x1_0000_0000_0000_0000
    };
    if 0 <= base + delta <= u64::MAX {
        Some((base + delta) as u64)
    } else {
        None
    }
}

impl<T: ByteStore> Cursor<T> {
    /// What holds after seeking as `style` says: the buffer is kept; when the
    /// target lies in `0..=u64::MAX` it is the new position and is returned,
    /// and otherwise the seek fails with `InvalidInput` and the position is
    /// kept.
    pub open spec fn seek_post(old: &Self, new: &Self, style: SeekFrom, r: &io::Result<u64>) -> bool {
        let target = match style {
            SeekFrom::Start(n) => Some(n),
            SeekFrom::End(n) => offset_position(old.spec_inner().stored().len() as u64, n),
            SeekFrom::Current(n) => offset_position(old.spec_pos(), n),
        };
        &&& new.spec_inner() == old.spec_inner()
        &&& target matches Some(p) ==> r matches Ok(q) && q == p && new.spec_pos() == p
        &&& target is None ==> io::fails_with(r, ErrorKind::InvalidInput) && new.spec_pos()
            == old.spec_pos()
    }

    /// Moves the position as `style` says: to an absolute offset, or by a
    /// signed offset from the end or from the current position.
    ///
    /// Fails with `InvalidInput`, leaving the position, when the target is
    /// negative or past `u64::MAX`.
    pub fn seek_to(&mut self, style: SeekFrom) -> (r: io::Result<u64>)
        ensures
            Self::seek_post(old(self), final(self), style, &r),
    {
        let (base, offset) = match style {
            SeekFrom::Start(n) => {
                self.pos = n;
                return Ok(n);
            },
            SeekFrom::End(n) => (self.inner.as_bytes().len() as u64, n),
            SeekFrom::Current(n) => (self.pos, n),
        };
        let moved = if offset < 0x8000_0000_0000_0000 {
            base.checked_add(offset)
        } else {
            base.checked_sub(u64::MAX - offset + 1)
        };
        match moved {
            Some(n) => {
                self.pos = n;
                Ok(n)
            },
            None => Err(
                Error::new(
                    ErrorKind::InvalidInput,
                    "invalid seek to a negative or overflowing position",
                ),
            ),
        }
    }
}

impl<T: ByteStore> Seek for Cursor<T> {
    /// Moves the position; see `seek_to`.
    fn seek(&mut self, style: SeekFrom) -> (r: io::Result<u64>)
        ensures
            Self::seek_post(old(self), final(self), style, &r),
    {
        self.seek_to(style)
    }

    fn stream_len(&mut self) -> io::Result<u64> {
        Ok(self.inner.as_bytes().len() as u64)
    }

    fn stream_position(&mut self) -> io::Result<u64> {
        Ok(self.pos)
    }
}

impl<T: ByteStore> Read for Cursor<T> {
    /// Copies as many of the remaining bytes as `buf` holds and advances
    /// past them.
    fn read(&mut self, buf: &mut [u8]) -> (r: io::Result<usize>) {
        let rest = self.remaining_slice();
        let amt = if buf.len() < rest.len() {
            buf.len()
        } else {
            rest.len()
        };
        let (src, _) = rest.split_at(amt);
        copy_prefix(buf, src);
        proof {
            if self.pos < self.inner.stored().len() {
                assert(rest@.len() == self.inner.stored().len() - self.pos);
            }
        }
        self.pos = self.pos + amt as u64;
        Ok(amt)
    }

    /// Fills `buf` from the remaining bytes and advances past them, or fails
    /// with `UnexpectedEof` when fewer remain.
    fn read_exact(&mut self, buf: &mut [u8]) -> (r: io::Result<()>) {
        let rest = self.remaining_slice();
        if buf.len() > rest.len() {
            return Err(Error::new(ErrorKind::UnexpectedEof, "failed to fill whole buffer"));
        }
        let (src, _) = rest.split_at(buf.len());
        copy_prefix(buf, src);
        proof {
            if self.pos < self.inner.stored().len() {
                assert(rest@.len() == self.inner.stored().len() - self.pos);
            }
        }
        self.pos = self.pos + buf.len() as u64;
        Ok(())
    }
}

/// `data` with `buf` written from `pos` on, in place of what was there and
/// past its end if need be.
pub open spec fn overwrite_at(data: Seq<u8>, pos: int, buf: Seq<u8>) -> Seq<u8> {
    let end = pos + buf.len();
    data.subrange(0, pos) + buf + if end < data.len() {
        data.subrange(end, data.len() as int)
    } else {
        Seq::empty()
    }
}

/// `data` extended with zeros up to length `len`, if it is shorter.
pub open spec fn zero_padded(data: Seq<u8>, len: nat) -> Seq<u8> {
    if data.len() < len {
        data + Seq::new((len - data.len()) as nat, |i: int| 0u8)
    } else {
        data
    }
}

/// Writes into a fixed slice at `*pos_mut`: as many bytes of `buf` as fit
/// before the slice's end, from the position clamped to that end. Advances
/// the position by the count written.
fn slice_write(pos_mut: &mut u64, slice: &mut [u8], buf: &[u8]) -> (r: io::Result<usize>)
    ensures
        ({
            let len = old(slice)@.len();
            let p = if *old(pos_mut) < len { *old(pos_mut) as int } else { len as int };
            let amt = vstd::math::min(buf@.len() as int, len - p);
            &&& r matches Ok(n) && n == amt
            &&& final(slice)@ == overwrite_at(old(slice)@, p, buf@.subrange(0, amt))
            &&& *final(pos_mut) == *old(pos_mut) + amt
        }),
{
    let pos = if *pos_mut < slice.len() as u64 {
        *pos_mut as usize
    } else {
        slice.len()
    };
    let (head, tail) = slice.split_at_mut(pos);
    let amt = if buf.len() < tail.len() {
        buf.len()
    } else {
        tail.len()
    };
    let (src, _) = buf.split_at(amt);
    copy_prefix(tail, src);
    proof {
        assert(has_resolved(head));
    }
    *pos_mut = *pos_mut + amt as u64;
    Ok(amt)
}

/// Writes `buf` into a growable vector at `*pos_mut`, first padding the
/// vector with zeros up to the position. Advances the position by
/// `buf.len()`.
///
/// Fails with `InvalidInput`, changing nothing, when the end of the write
/// would lie past `usize::MAX`.
fn vec_write(pos_mut: &mut u64, vec: &mut Vec<u8>, buf: &[u8]) -> (r: io::Result<usize>)
    ensures
        *old(pos_mut) + buf@.len() > usize::MAX ==> io::fails_with(&r, ErrorKind::InvalidInput)
            && final(vec)@ == old(vec)@ && *final(pos_mut) == *old(pos_mut),
        *old(pos_mut) + buf@.len() <= usize::MAX ==> r == Ok::<usize, Error>(buf@.len() as usize)
            && final(vec)@ == overwrite_at(
            zero_padded(old(vec)@, *old(pos_mut) as nat),
            *old(pos_mut) as int,
            buf@,
        ) && *final(pos_mut) == *old(pos_mut) + buf@.len(),
{
    if *pos_mut > usize::MAX as u64 || buf.len() > usize::MAX - (*pos_mut as usize) {
        return Err(
            Error::new(
                ErrorKind::InvalidInput,
                "cursor position exceeds maximum possible vector length",
            ),
        );
    }
    let pos = *pos_mut as usize;
    let ghost padded = zero_padded(old(vec)@, pos as nat);
    proof {
        if old(vec)@.len() < pos {
            let zeros = Seq::new((pos - old(vec)@.len()) as nat, |i: int| 0u8);
            assert(padded == old(vec)@ + zeros);
            assert forall|k: int| old(vec)@.len() <= k < padded.len() implies padded[k] == 0u8 by {
                assert(padded[k] == zeros[k - old(vec)@.len()]);
            }
        }
    }
    while vec.len() < pos
        invariant
            forall|k: int| old(vec)@.len() <= k < padded.len() ==> padded[k] == 0u8,
            vec@.len() <= pos || vec@ == old(vec)@,
            vec@.len() >= old(vec)@.len(),
            vec@ =~= padded.subrange(0, vec@.len() as int),
            padded.len() >= pos,
            padded.len() == if old(vec)@.len() < pos { pos as nat } else { old(vec)@.len() },
        decreases pos - vec@.len(),
    {
        let ghost before = vec@;
        vec.push(0u8);
        proof {
            assert(old(vec)@.len() < pos);
            assert(padded[before.len() as int] == 0u8);
            assert(vec@ =~= padded.subrange(0, vec@.len() as int));
        }
    }
    assert(vec@ =~= padded);
    let mut i: usize = 0;
    while i < buf.len()
        invariant
            pos + buf@.len() <= usize::MAX,
            i <= buf@.len(),
            vec@ =~= overwrite_at(padded, pos as int, buf@.subrange(0, i as int)),
            padded.len() >= pos,
        decreases buf@.len() - i,
    {
        if pos + i < vec.len() {
            vec.set(pos + i, buf[i]);
        } else {
            vec.push(buf[i]);
        }
        i += 1;
        assert(vec@ =~= overwrite_at(padded, pos as int, buf@.subrange(0, i as int)));
    }
    assert(buf@.subrange(0, buf@.len() as int) =~= buf@);
    *pos_mut = *pos_mut + buf.len() as u64;
    Ok(buf.len())
}

impl<'a> Write for Cursor<&'a mut [u8]> {
    /// Writes into the slice at the position; see `slice_write`.
    fn write(&mut self, buf: &[u8]) -> (r: io::Result<usize>) {
        slice_write(&mut self.pos, self.inner, buf)
    }

    /// Nothing is buffered.
    fn flush(&mut self) -> (r: io::Result<()>) {
        Ok(())
    }
}

impl Write for Cursor<Vec<u8>> {
    /// Writes into the vector at the position; see `vec_write`.
    fn write(&mut self, buf: &[u8]) -> (r: io::Result<usize>) {
        vec_write(&mut self.pos, &mut self.inner, buf)
    }

    /// Nothing is buffered.
    fn flush(&mut self) -> (r: io::Result<()>) {
        Ok(())
    }
}

} // verus!
