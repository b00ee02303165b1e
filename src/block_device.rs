//! The block-device capability: fixed-size sectors read and written by index.

use vstd::prelude::*;
use crate::io;

verus! {

/// One read request made of a device: the sector asked for, the bytes the
/// buffer held afterwards, and what the read returned.
pub type SectorRead = (u64, Seq<u8>, io::Result<usize>);

/// One write request made of a device: the sector, the bytes handed over,
/// and what the write returned.
pub type SectorWrite = (u64, Seq<u8>, io::Result<usize>);

/// A device addressed in fixed-size sectors.
pub trait BlockDevice {
    /// The size, in bytes, of one sector of this device. A device that
    /// states its contracts defines it.
    closed spec fn spec_sector_size(&self) -> u64 {
        0
    }

    /// Every read request made of this device, in order. A device that
    /// states its contracts defines it.
    closed spec fn read_log(&self) -> Seq<SectorRead> {
        Seq::empty()
    }

    /// Every write request made of this device, in order. A device that
    /// states its contracts defines it.
    closed spec fn write_log(&self) -> Seq<SectorWrite> {
        Seq::empty()
    }

    /// The size, in bytes, of one sector of this device.
    fn sector_size(&self) -> (r: u64)
        ensures
            r == self.spec_sector_size(),
    ;

    /// Reads sector `n` into `buf` and returns how many bytes were read.
    /// The request and its outcome are added to the read log.
    fn read_sector(&mut self, n: u64, buf: &mut [u8]) -> (r: io::Result<usize>)
        ensures
            final(buf)@.len() == old(buf)@.len(),
            r is Ok ==> r->Ok_0 <= old(buf)@.len(),
            final(self).read_log() == old(self).read_log().push((n, final(buf)@, r)),
            final(self).write_log() == old(self).write_log(),
    ;

    /// Writes `buf` to sector `n` and returns how many bytes were written.
    /// The request and its outcome are added to the write log.
    fn write_sector(&mut self, n: u64, buf: &[u8]) -> (r: io::Result<usize>)
        ensures
            r is Ok ==> r->Ok_0 <= buf@.len(),
            final(self).read_log() == old(self).read_log(),
            final(self).write_log() == old(self).write_log().push((n, buf@, r)),
    ;
}

} // verus!
