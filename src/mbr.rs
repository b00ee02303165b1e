//! The master boot record: the partition table in the first sector of a disk.

use vstd::prelude::*;
use crate::block_device::BlockDevice;
use crate::bytes::{copy_range, le_u16, le_u32, read_u16, read_u32};
use crate::io;

verus! {

/// Size in bytes of the boot sector.
pub const MBR_SIZE: usize = 512;

/// Offset of the first partition entry.
pub const TABLE_OFFSET: usize = 446;

/// Size in bytes of one partition entry.
pub const ENTRY_SIZE: usize = 16;

/// A legacy cylinder-head-sector address.
#[derive(Clone, Copy, Debug)]
pub struct CHS {
    pub head: u8,
    pub sector_and_cylinder_start: u16,
}

impl CHS {
    /// The sector number: the low six bits of the packed field.
    pub fn start_sector(&self) -> (r: u8)
        ensures
            r == self.sector_and_cylinder_start % 64,
    {
        (self.sector_and_cylinder_start % 64) as u8
    }

    /// The cylinder number: the packed field without its six sector bits.
    pub fn start_cylinder(&self) -> (r: u16)
        ensures
            r == self.sector_and_cylinder_start / 64,
    {
        self.sector_and_cylinder_start / 64
    }
}

/// One of the four entries of the partition table.
#[derive(Clone, Copy, Debug)]
pub struct PartitionEntry {
    pub boot_indicator: u8,
    pub start_chs: CHS,
    pub partition_type: u8,
    pub end_chs: CHS,
    pub sector_offset: u32,
    pub num_sectors: u32,
}

/// Boot indicator of a bootable partition.
pub const BOOTABLE: u8 = 0x80;

/// Boot indicator of a partition that is not bootable.
pub const NOT_BOOTABLE: u8 = 0x00;

impl PartitionEntry {
    /// The first physical sector of the partition.
    pub fn starting_sector(&self) -> (r: u32)
        ensures
            r == self.sector_offset,
    {
        self.sector_offset
    }

    /// Whether this entry describes a FAT32 partition.
    pub open spec fn spec_is_fat32(&self) -> bool {
        self.partition_type == 0x0B || self.partition_type == 0x0C
    }

    /// Whether this entry describes a FAT32 partition (type `0x0B` or `0x0C`).
    pub fn is_fat32(&self) -> (r: bool)
        ensures
            r == self.spec_is_fat32(),
    {
        self.partition_type == 0x0B || self.partition_type == 0x0C
    }
}

/// The master boot record.
#[derive(Clone, Debug)]
pub struct MasterBootRecord {
    pub bootstrap: Vec<u8>,
    pub disk_id: Vec<u8>,
    pub partitions: [PartitionEntry; 4],
    pub magic: [u8; 2],
}

/// Why a master boot record was rejected.
#[derive(Debug)]
pub enum Error {
    /// The sector could not be read in full.
    Io(io::Error),
    /// Partition `.0` (0-indexed) holds a boot indicator other than `0x00` or `0x80`.
    UnknownBootIndicator(u8),
    /// The trailing signature is not `0x55, 0xAA`.
    BadSignature,
}

/// Whether `b` is a legal boot indicator.
pub open spec fn legal_indicator(b: u8) -> bool {
    b == NOT_BOOTABLE || b == BOOTABLE
}

/// Offset in the boot sector of the partition entry `i`.
pub open spec fn entry_offset(i: int) -> int {
    TABLE_OFFSET + ENTRY_SIZE * i
}

/// The boot indicator byte of partition entry `i` in the raw sector `b`.
pub open spec fn raw_indicator(b: Seq<u8>, i: int) -> u8 {
    b[entry_offset(i)]
}

/// Whether the raw sector ends in the signature `0x55, 0xAA`.
pub open spec fn has_signature(b: Seq<u8>) -> bool {
    b[510] == 0x55 && b[511] == 0xAA
}

/// Whether the entries before `k` all hold legal boot indicators.
pub open spec fn indicators_legal_below(b: Seq<u8>, k: int) -> bool {
    forall|j: int| 0 <= j < k ==> legal_indicator(#[trigger] raw_indicator(b, j))
}

/// Whether entry `k` is the first one with an illegal boot indicator.
pub open spec fn first_illegal(b: Seq<u8>, k: int) -> bool {
    0 <= k < 4 && indicators_legal_below(b, k) && !legal_indicator(raw_indicator(b, k))
}

/// Whether `c` is the CHS address stored at `off` in `b`.
pub open spec fn chs_decodes(b: Seq<u8>, off: int, c: CHS) -> bool {
    c.head == b[off] && c.sector_and_cylinder_start as nat == le_u16(b, off + 1)
}

/// Whether `e` is the partition entry stored at `off` in `b`.
pub open spec fn entry_decodes(b: Seq<u8>, off: int, e: PartitionEntry) -> bool {
    &&& e.boot_indicator == b[off]
    &&& chs_decodes(b, off + 1, e.start_chs)
    &&& e.partition_type == b[off + 4]
    &&& chs_decodes(b, off + 5, e.end_chs)
    &&& e.sector_offset as nat == le_u32(b, off + 8)
    &&& e.num_sectors as nat == le_u32(b, off + 12)
}

/// Whether `m` holds exactly the fields laid out in the 512-byte sector `b`.
pub open spec fn mbr_decodes(b: Seq<u8>, m: MasterBootRecord) -> bool {
    &&& b.len() == MBR_SIZE
    &&& m.bootstrap@ == b.subrange(0, 436)
    &&& m.disk_id@ == b.subrange(436, 446)
    &&& forall|i: int| 0 <= i < 4 ==> entry_decodes(b, entry_offset(i), #[trigger] m.partitions@[i])
    &&& m.magic@ == b.subrange(510, 512)
}

/// What decoding the sector `b` yields: `Ok` with the fields, or the first
/// failed check.
pub open spec fn mbr_outcome(b: Seq<u8>, r: Result<MasterBootRecord, Error>) -> bool {
    if b.len() != MBR_SIZE {
        r matches Err(Error::Io(e)) && e.kind == io::ErrorKind::UnexpectedEof
    } else if !has_signature(b) {
        r matches Err(Error::BadSignature)
    } else if !indicators_legal_below(b, 4) {
        r matches Err(Error::UnknownBootIndicator(k)) && first_illegal(b, k as int)
    } else {
        r matches Ok(m) && mbr_decodes(b, m)
    }
}

/// A 512-byte sector with the signature and four legal boot indicators
/// decodes, and every field of the record equals the sector's bytes at its
/// offset.
pub proof fn lemma_valid_sector_decodes(b: Seq<u8>, r: Result<MasterBootRecord, Error>)
    requires
        b.len() == MBR_SIZE,
        has_signature(b),
        forall|i: int| 0 <= i < 4 ==> legal_indicator(#[trigger] raw_indicator(b, i)),
        mbr_outcome(b, r),
    ensures
        r matches Ok(m) && mbr_decodes(b, m),
{
}

/// A 512-byte sector without the trailing `0x55, 0xAA` is rejected with
/// `BadSignature`, whatever its partition entries hold.
pub proof fn lemma_bad_signature(b: Seq<u8>, r: Result<MasterBootRecord, Error>)
    requires
        b.len() == MBR_SIZE,
        !(b[510] == 0x55 && b[511] == 0xAA),
        mbr_outcome(b, r),
    ensures
        r matches Err(Error::BadSignature),
{
}

/// A signed sector whose entries before `k` are legal and whose entry `k`
/// holds an illegal indicator is rejected with `UnknownBootIndicator(k)`,
/// whatever the entries after `k` hold.
pub proof fn lemma_first_bad_indicator(b: Seq<u8>, k: int, r: Result<MasterBootRecord, Error>)
    requires
        b.len() == MBR_SIZE,
        has_signature(b),
        0 <= k < 4,
        forall|j: int| 0 <= j < k ==> legal_indicator(#[trigger] raw_indicator(b, j)),
        !legal_indicator(raw_indicator(b, k)),
        mbr_outcome(b, r),
    ensures
        r matches Err(Error::UnknownBootIndicator(n)) && n == k,
{
    assert(!indicators_legal_below(b, 4));
    if let Err(Error::UnknownBootIndicator(m)) = r {
        let n = m as int;
        if n < k {
            assert(legal_indicator(raw_indicator(b, n)));
        } else if n > k {
            assert(legal_indicator(raw_indicator(b, k)));
        }
    }
}

/// What reading the boot sector yields, given what the device returned and
/// the bytes it left in the 512-byte buffer `b`.
pub open spec fn read_outcome(
    res: io::Result<usize>,
    b: Seq<u8>,
    r: Result<MasterBootRecord, Error>,
) -> bool {
    match res {
        Err(e) => r == Err::<MasterBootRecord, Error>(Error::Io(e)),
        Ok(n) => if n != MBR_SIZE {
            r matches Err(Error::Io(x)) && x.kind == io::ErrorKind::UnexpectedEof
        } else {
            mbr_outcome(b, r)
        },
    }
}

fn decode_chs(b: &[u8], off: usize) -> (r: CHS)
    requires
        off + 3 <= b@.len(),
    ensures
        chs_decodes(b@, off as int, r),
{
    CHS { head: b[off], sector_and_cylinder_start: read_u16(b, off + 1) }
}

fn decode_entry(b: &[u8], off: usize) -> (r: PartitionEntry)
    requires
        off + ENTRY_SIZE <= b@.len(),
    ensures
        entry_decodes(b@, off as int, r),
{
    PartitionEntry {
        boot_indicator: b[off],
        start_chs: decode_chs(b, off + 1),
        partition_type: b[off + 4],
        end_chs: decode_chs(b, off + 5),
        sector_offset: read_u32(b, off + 8),
        num_sectors: read_u32(b, off + 12),
    }
}

impl MasterBootRecord {
    /// Decodes and validates a boot sector held in memory.
    ///
    /// Fails with `Io` (`UnexpectedEof`) unless `b` holds exactly 512 bytes,
    /// with `BadSignature` unless it ends in `0x55, 0xAA`, and with
    /// `UnknownBootIndicator(k)` for the first entry `k` whose boot indicator
    /// is neither `0x00` nor `0x80`.
    pub fn parse(b: &[u8]) -> (r: Result<MasterBootRecord, Error>)
        ensures
            mbr_outcome(b@, r),
    {
        if b.len() != MBR_SIZE {
            return Err(
                Error::Io(io::Error::new(io::ErrorKind::UnexpectedEof, "short boot sector")),
            );
        }
        if b[510] != 0x55 || b[511] != 0xAA {
            return Err(Error::BadSignature);
        }
        let mut i: usize = 0;
        while i < 4
            invariant
                b@.len() == MBR_SIZE,
                has_signature(b@),
                i <= 4,
                indicators_legal_below(b@, i as int),
            decreases 4 - i,
        {
            let indicator = b[TABLE_OFFSET + ENTRY_SIZE * i];
            if indicator != NOT_BOOTABLE && indicator != BOOTABLE {
                assert(!legal_indicator(raw_indicator(b@, i as int)));
                assert(!indicators_legal_below(b@, 4));
                return Err(Error::UnknownBootIndicator(i as u8));
            }
            i += 1;
        }
        let partitions = [
            decode_entry(b, TABLE_OFFSET),
            decode_entry(b, TABLE_OFFSET + ENTRY_SIZE),
            decode_entry(b, TABLE_OFFSET + 2 * ENTRY_SIZE),
            decode_entry(b, TABLE_OFFSET + 3 * ENTRY_SIZE),
        ];
        let m = MasterBootRecord {
            bootstrap: copy_range(b, 0, 436),
            disk_id: copy_range(b, 436, 10),
            partitions,
            magic: [b[510], b[511]],
        };
        assert(m.magic@ =~= b@.subrange(510, 512));
        Ok(m)
    }

    /// Turns the outcome of reading the boot sector into `buf` into a
    /// record: a device error is passed on unchanged inside `Io`, a read of
    /// other than 512 bytes fails with `Io` (`UnexpectedEof`), and a full
    /// read is decoded by `parse`.
    pub fn from_read(res: io::Result<usize>, buf: &[u8]) -> (r: Result<MasterBootRecord, Error>)
        requires
            buf@.len() == MBR_SIZE,
        ensures
            read_outcome(res, buf@, r),
    {
        match res {
            Err(e) => Err(Error::Io(e)),
            Ok(n) => {
                if n != MBR_SIZE {
                    return Err(
                        Error::Io(
                            io::Error::new(io::ErrorKind::UnexpectedEof, "short boot sector read"),
                        ),
                    );
                }
                MasterBootRecord::parse(buf)
            },
        }
    }

    /// Reads sector 0 of `dev` into a 512-byte buffer, in one request, and
    /// turns the outcome into a record as `from_read` does.
    pub fn read_from<T: BlockDevice>(dev: &mut T) -> (r: Result<MasterBootRecord, Error>)
        ensures
            ({
                let log = final(dev).read_log();
                &&& log == old(dev).read_log().push(log.last())
                &&& final(dev).write_log() == old(dev).write_log()
                &&& log.last().0 == 0
                &&& log.last().1.len() == MBR_SIZE
                &&& read_outcome(log.last().2, log.last().1, r)
            }),
            r matches Ok(m) ==> m.wf(),
    {
        let mut buf: Vec<u8> = vec![0u8; MBR_SIZE];
        let res = dev.read_sector(0, buf.as_mut_slice());
        let r = MasterBootRecord::from_read(res, buf.as_slice());
        proof {
            if r is Ok {
                MasterBootRecord::lemma_decoded_wf(buf@, r->Ok_0);
            }
        }
        r
    }

    /// Reads sector 0 of `dev` and decodes it as a master boot record; see
    /// `read_from`, which states the request and the outcome.
    pub fn from<T: BlockDevice>(mut dev: T) -> (r: Result<MasterBootRecord, Error>)
        ensures
            r matches Ok(m) ==> m.wf(),
            r matches Err(Error::UnknownBootIndicator(k)) ==> k < 4,
    {
        MasterBootRecord::read_from(&mut dev)
    }

    /// A validated record: a 512-byte layout with the signature and four legal
    /// boot indicators.
    pub open spec fn wf(&self) -> bool {
        &&& self.bootstrap@.len() == 436
        &&& self.disk_id@.len() == 10
        &&& self.magic[0] == 0x55 && self.magic[1] == 0xAA
        &&& forall|i: int| 0 <= i < 4 ==> legal_indicator(#[trigger] self.partitions@[i].boot_indicator)
    }

    proof fn lemma_decoded_wf(b: Seq<u8>, m: MasterBootRecord)
        requires
            mbr_outcome(b, Ok(m)),
        ensures
            m.wf(),
    {
        assert forall|i: int| 0 <= i < 4 implies legal_indicator(#[trigger] m.partitions@[i].boot_indicator) by {
            assert(entry_decodes(b, entry_offset(i), m.partitions@[i]));
            assert(legal_indicator(raw_indicator(b, i)));
        }
        assert(m.magic@[0] == b.subrange(510, 512)[0]);
        assert(m.magic@[1] == b.subrange(510, 512)[1]);
    }

    /// The index of the first FAT32 entry at or after `i`, if any.
    pub open spec fn first_fat32_from(&self, i: int) -> Option<int>
        decreases 4 - i,
    {
        if i >= 4 || i < 0 {
            None
        } else if self.partitions@[i].spec_is_fat32() {
            Some(i)
        } else {
            self.first_fat32_from(i + 1)
        }
    }

    /// The first entry, in table order, whose type is `0x0B` or `0x0C`.
    pub fn fat32_partition(&self) -> (r: Option<&PartitionEntry>)
        ensures
            self.first_fat32_from(0) is None ==> r is None,
            self.first_fat32_from(0) matches Some(i) ==> r matches Some(e) && *e == self.partitions@[i],
    {
        let mut i: usize = 0;
        while i < 4
            invariant
                i <= 4,
                self.first_fat32_from(0) == self.first_fat32_from(i as int),
            decreases 4 - i,
        {
            if self.partitions[i].is_fat32() {
                return Some(&self.partitions[i]);
            }
            i += 1;
        }
        None
    }
}

} // verus!
