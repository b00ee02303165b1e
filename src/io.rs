//! A minimal, allocation-free I/O error model.

use vstd::prelude::*;

verus! {

/// The category of an I/O failure.
#[derive(Clone, Copy, Debug, PartialEq, Eq, Structural)]
pub enum ErrorKind {
    NotFound,
    PermissionDenied,
    ConnectionRefused,
    ConnectionReset,
    HostUnreachable,
    NetworkUnreachable,
    ConnectionAborted,
    NotConnected,
    AddrInUse,
    AddrNotAvailable,
    NetworkDown,
    BrokenPipe,
    AlreadyExists,
    WouldBlock,
    NotADirectory,
    IsADirectory,
    DirectoryNotEmpty,
    ReadOnlyFilesystem,
    FilesystemLoop,
    StaleNetworkFileHandle,
    InvalidInput,
    InvalidData,
    TimedOut,
    WriteZero,
    StorageFull,
    NotSeekable,
    FilesystemQuotaExceeded,
    FileTooLarge,
    ResourceBusy,
    ExecutableFileBusy,
    Deadlock,
    CrossesDevices,
    TooManyLinks,
    InvalidFilename,
    ArgumentListTooLong,
    Interrupted,
    Unsupported,
    UnexpectedEof,
    OutOfMemory,
    Other,
}

/// An I/O error: a kind and a static description.
#[derive(Debug)]
pub struct Error {
    pub kind: ErrorKind,
    pub msg: &'static str,
}

/// The result of an I/O operation.
pub type Result<T> = core::result::Result<T, Error>;

impl Error {
    /// Builds an error of the given kind with the given description.
    pub fn new(kind: ErrorKind, msg: &'static str) -> (r: Self)
        ensures
            r.kind == kind,
            r.msg == msg,
    {
        Error { kind, msg }
    }

    /// Whether the operation was interrupted and may be retried.
    pub fn is_interrupted(&self) -> (r: bool)
        ensures
            r == (self.kind == ErrorKind::Interrupted),
    {
        match self.kind {
            ErrorKind::Interrupted => true,
            _ => false,
        }
    }

    /// The category of this error.
    pub fn kind(&self) -> (r: ErrorKind)
        ensures
            r == self.kind,
    {
        self.kind
    }
}

/// Whether `r` is a failure of kind `k`.
pub open spec fn fails_with<T>(r: &Result<T>, k: ErrorKind) -> bool {
    r matches Err(e) && e.kind == k
}

/// A position to seek to within a stream.
pub enum SeekFrom {
    /// An absolute offset from the start.
    Start(u64),
    /// An offset from the end.
    End(u64),
    /// An offset from the current position.
    Current(u64),
}

/// A stream with a position that can be moved.
pub trait Seek {
    /// Moves the position and returns the new one.
    fn seek(&mut self, pos: SeekFrom) -> Result<u64>;

    /// Moves the position back to the start.
    fn rewind(&mut self) -> Result<()> {
        match self.seek(SeekFrom::Start(0)) {
            Ok(_) => Ok(()),
            Err(e) => Err(e),
        }
    }

    /// The length of the stream; the position is put back where it was.
    fn stream_len(&mut self) -> Result<u64> {
        let old_pos = self.stream_position()?;
        let len = self.seek(SeekFrom::End(0))?;
        if old_pos != len {
            self.seek(SeekFrom::Start(old_pos))?;
        }
        Ok(len)
    }

    /// The current position.
    fn stream_position(&mut self) -> Result<u64> {
        self.seek(SeekFrom::Current(0))
    }
}

/// A sink of bytes.
pub trait Write {
    /// Writes a prefix of `buf` and returns its length.
    fn write(&mut self, buf: &[u8]) -> (r: Result<usize>)
        ensures
            r matches Ok(n) ==> n <= buf@.len(),
    ;

    /// Flushes buffered bytes, if any.
    fn flush(&mut self) -> Result<()>;
}

/// A source of bytes.
pub trait Read {
    /// Fills a prefix of `buf` and returns its length.
    fn read(&mut self, buf: &mut [u8]) -> (r: Result<usize>)
        ensures
            final(buf)@.len() == old(buf)@.len(),
            r matches Ok(n) ==> n <= old(buf)@.len(),
    ;

    /// Fills all of `buf`, or fails with `UnexpectedEof` when fewer bytes
    /// remain.
    fn read_exact(&mut self, buf: &mut [u8]) -> (r: Result<()>)
        ensures
            final(buf)@.len() == old(buf)@.len(),
    ;
}

/// Copies `src` into the front of `dst`; the rest of `dst` is kept.
pub fn copy_prefix(dst: &mut [u8], src: &[u8])
    requires
        src@.len() <= old(dst)@.len(),
    ensures
        final(dst)@ == src@ + old(dst)@.subrange(src@.len() as int, old(dst)@.len() as int),
{
    let mut i: usize = 0;
    while i < src.len()
        invariant
            src@.len() <= old(dst)@.len(),
            dst@.len() == old(dst)@.len(),
            i <= src@.len(),
            forall|k: int| 0 <= k < i ==> dst@[k] == src@[k],
            forall|k: int| i <= k < dst@.len() ==> dst@[k] == old(dst)@[k],
        decreases src@.len() - i,
    {
        dst[i] = src[i];
        i += 1;
    }
    assert(dst@ =~= src@ + old(dst)@.subrange(src@.len() as int, old(dst)@.len() as int));
}

impl<'a> Read for &'a [u8] {
    /// Copies as many bytes as both hold and advances past them.
    fn read(&mut self, buf: &mut [u8]) -> (r: Result<usize>) {
        let amt = if buf.len() < self.len() {
            buf.len()
        } else {
            self.len()
        };
        let (a, b) = self.split_at(amt);
        copy_prefix(buf, a);
        *self = b;
        Ok(amt)
    }

    /// Copies the first `buf.len()` bytes and advances past them, or fails
    /// with `UnexpectedEof` when fewer remain.
    fn read_exact(&mut self, buf: &mut [u8]) -> (r: Result<()>) {
        if buf.len() > self.len() {
            return Err(Error::new(ErrorKind::UnexpectedEof, "failed to fill whole buffer"));
        }
        let (a, b) = self.split_at(buf.len());
        copy_prefix(buf, a);
        *self = b;
        Ok(())
    }
}

impl<'a> Write for &'a mut [u8] {
    /// Copies as many bytes as both hold and advances past them.
    fn write(&mut self, buf: &[u8]) -> (r: Result<usize>) {
        let amt = if buf.len() < self.len() {
            buf.len()
        } else {
            self.len()
        };
        let mut taken: &'a mut [u8] = &mut [];
        core::mem::swap(self, &mut taken);
        let (a, b) = taken.split_at_mut(amt);
        let (src, _) = buf.split_at(amt);
        copy_prefix(a, src);
        *self = b;
        Ok(amt)
    }

    /// Nothing is buffered.
    fn flush(&mut self) -> (r: Result<()>) {
        Ok(())
    }
}

} // verus!
