//! The FAT32 BIOS parameter block with its extended part: the descriptor in
//! the first sector of a volume.

use vstd::prelude::*;
use crate::block_device::BlockDevice;
use crate::bytes::{copy_range, le_u16, le_u32, read_u16, read_u32};
use crate::io;

verus! {

/// Size in bytes of the parameter block sector.
pub const BPB_SIZE: usize = 512;

/// The BIOS parameter block of a FAT32 volume.
#[derive(Clone, Debug)]
pub struct BiosParameterBlock {
    pub jump_code: Vec<u8>,
    pub oem_ident: Vec<u8>,
    pub bytes_per_sector: u16,
    pub sectors_per_cluster: u8,
    pub reserved_sectors: u16,
    pub num_fats: u8,
    pub max_dir_entries: u16,
    pub logical_sectors_1: u16,
    pub media_descriptor: u8,
    pub legacy_sectors_per_fat: u16,
    pub sectors_per_track: u16,
    pub num_heads: u16,
    pub num_hidden_sectors: u32,
    pub logical_sectors_2: u32,
    pub sectors_per_fat: u32,
    pub flags: u16,
    pub fat_version: u16,
    pub root_cluster: u32,
    pub fsinfo_sector: u16,
    pub backup_boot_sector: u16,
    pub reserved: Vec<u8>,
    pub drive_number: u8,
    pub nt_flags: u8,
    pub signature: u8,
    pub volume_id: u32,
    pub volume_label: Vec<u8>,
    pub system_identifier: Vec<u8>,
    pub boot_code: Vec<u8>,
    pub magic: [u8; 2],
}

/// Why a volume descriptor was rejected.
#[derive(Debug)]
pub enum Error {
    /// The sector could not be read in full.
    Io(io::Error),
    /// The trailing magic or the extended signature byte is wrong.
    BadSignature,
}

/// Whether the sector ends in `0x55, 0xAA` and its extended signature byte
/// is `0x28` or `0x29`.
pub open spec fn bpb_signed(b: Seq<u8>) -> bool {
    b[510] == 0x55 && b[511] == 0xAA && (b[66] == 0x28 || b[66] == 0x29)
}

/// Whether `p` holds exactly the fields laid out in the 512-byte sector `b`.
pub open spec fn bpb_decodes(b: Seq<u8>, p: BiosParameterBlock) -> bool {
    &&& b.len() == BPB_SIZE
    &&& p.jump_code@ == b.subrange(0, 3)
    &&& p.oem_ident@ == b.subrange(3, 11)
    &&& p.bytes_per_sector as nat == le_u16(b, 11)
    &&& p.sectors_per_cluster == b[13]
    &&& p.reserved_sectors as nat == le_u16(b, 14)
    &&& p.num_fats == b[16]
    &&& p.max_dir_entries as nat == le_u16(b, 17)
    &&& p.logical_sectors_1 as nat == le_u16(b, 19)
    &&& p.media_descriptor == b[21]
    &&& p.legacy_sectors_per_fat as nat == le_u16(b, 22)
    &&& p.sectors_per_track as nat == le_u16(b, 24)
    &&& p.num_heads as nat == le_u16(b, 26)
    &&& p.num_hidden_sectors as nat == le_u32(b, 28)
    &&& p.logical_sectors_2 as nat == le_u32(b, 32)
    &&& p.sectors_per_fat as nat == le_u32(b, 36)
    &&& p.flags as nat == le_u16(b, 40)
    &&& p.fat_version as nat == le_u16(b, 42)
    &&& p.root_cluster as nat == le_u32(b, 44)
    &&& p.fsinfo_sector as nat == le_u16(b, 48)
    &&& p.backup_boot_sector as nat == le_u16(b, 50)
    &&& p.reserved@ == b.subrange(52, 64)
    &&& p.drive_number == b[64]
    &&& p.nt_flags == b[65]
    &&& p.signature == b[66]
    &&& p.volume_id as nat == le_u32(b, 67)
    &&& p.volume_label@ == b.subrange(71, 82)
    &&& p.system_identifier@ == b.subrange(82, 90)
    &&& p.boot_code@ == b.subrange(90, 510)
    &&& p.magic@ == b.subrange(510, 512)
}

/// What decoding the sector `b` yields.
pub open spec fn bpb_outcome(b: Seq<u8>, r: Result<BiosParameterBlock, Error>) -> bool {
    if b.len() != BPB_SIZE {
        r matches Err(Error::Io(e)) && e.kind == io::ErrorKind::UnexpectedEof
    } else if !bpb_signed(b) {
        r matches Err(Error::BadSignature)
    } else {
        r matches Ok(p) && bpb_decodes(b, p)
    }
}

/// What reading the parameter block yields, given what the device returned
/// and the bytes it left in the 512-byte buffer `b`.
pub open spec fn bpb_read_outcome(
    res: io::Result<usize>,
    b: Seq<u8>,
    r: Result<BiosParameterBlock, Error>,
) -> bool {
    match res {
        Err(e) => r == Err::<BiosParameterBlock, Error>(Error::Io(e)),
        Ok(n) => if n != BPB_SIZE {
            r matches Err(Error::Io(x)) && x.kind == io::ErrorKind::UnexpectedEof
        } else {
            bpb_outcome(b, r)
        },
    }
}

impl BiosParameterBlock {
    /// Decodes and validates a parameter block held in memory.
    ///
    /// Fails with `Io` (`UnexpectedEof`) unless `b` holds exactly 512 bytes,
    /// and with `BadSignature` unless it ends in `0x55, 0xAA` and its
    /// extended signature byte is `0x28` or `0x29`.
    pub fn parse(b: &[u8]) -> (r: Result<BiosParameterBlock, Error>)
        ensures
            bpb_outcome(b@, r),
    {
        if b.len() != BPB_SIZE {
            return Err(Error::Io(io::Error::new(io::ErrorKind::UnexpectedEof, "short volume sector")));
        }
        if b[510] != 0x55 || b[511] != 0xAA || (b[66] != 0x28 && b[66] != 0x29) {
            return Err(Error::BadSignature);
        }
        let p = BiosParameterBlock {
            jump_code: copy_range(b, 0, 3),
            oem_ident: copy_range(b, 3, 8),
            bytes_per_sector: read_u16(b, 11),
            sectors_per_cluster: b[13],
            reserved_sectors: read_u16(b, 14),
            num_fats: b[16],
            max_dir_entries: read_u16(b, 17),
            logical_sectors_1: read_u16(b, 19),
            media_descriptor: b[21],
            legacy_sectors_per_fat: read_u16(b, 22),
            sectors_per_track: read_u16(b, 24),
            num_heads: read_u16(b, 26),
            num_hidden_sectors: read_u32(b, 28),
            logical_sectors_2: read_u32(b, 32),
            sectors_per_fat: read_u32(b, 36),
            flags: read_u16(b, 40),
            fat_version: read_u16(b, 42),
            root_cluster: read_u32(b, 44),
            fsinfo_sector: read_u16(b, 48),
            backup_boot_sector: read_u16(b, 50),
            reserved: copy_range(b, 52, 12),
            drive_number: b[64],
            nt_flags: b[65],
            signature: b[66],
            volume_id: read_u32(b, 67),
            volume_label: copy_range(b, 71, 11),
            system_identifier: copy_range(b, 82, 8),
            boot_code: copy_range(b, 90, 420),
            magic: [b[510], b[511]],
        };
        assert(p.magic@ =~= b@.subrange(510, 512));
        Ok(p)
    }

    /// Turns the outcome of reading the parameter block into `buf` into a
    /// block: a device error is passed on unchanged inside `Io`, a read of
    /// other than 512 bytes fails with `Io` (`UnexpectedEof`), and a full
    /// read is decoded by `parse`.
    pub fn from_read(res: io::Result<usize>, buf: &[u8]) -> (r: Result<BiosParameterBlock, Error>)
        requires
            buf@.len() == BPB_SIZE,
        ensures
            bpb_read_outcome(res, buf@, r),
    {
        match res {
            Err(e) => Err(Error::Io(e)),
            Ok(n) => {
                if n != BPB_SIZE {
                    return Err(
                        Error::Io(
                            io::Error::new(io::ErrorKind::UnexpectedEof, "short volume sector read"),
                        ),
                    );
                }
                BiosParameterBlock::parse(buf)
            },
        }
    }

    /// Reads sector `sector` of `device` into a 512-byte buffer, in one
    /// request, and turns the outcome into a block as `from_read` does.
    pub fn read_from<T: BlockDevice>(device: &mut T, sector: u64) -> (r: Result<BiosParameterBlock, Error>)
        ensures
            ({
                let log = final(device).read_log();
                &&& log == old(device).read_log().push(log.last())
                &&& final(device).write_log() == old(device).write_log()
                &&& log.last().0 == sector
                &&& log.last().1.len() == BPB_SIZE
                &&& bpb_read_outcome(log.last().2, log.last().1, r)
            }),
            r matches Ok(p) ==> p.wf(),
    {
        let mut buf: Vec<u8> = vec![0u8; BPB_SIZE];
        let res = device.read_sector(sector, buf.as_mut_slice());
        let r = BiosParameterBlock::from_read(res, buf.as_slice());
        proof {
            if r is Ok {
                assert(r->Ok_0.magic@[0] == buf@.subrange(510, 512)[0]);
                assert(r->Ok_0.magic@[1] == buf@.subrange(510, 512)[1]);
            }
        }
        r
    }

    /// Reads sector `sector` of `device` and decodes it as a parameter block;
    /// see `read_from`, which states the request and the outcome.
    pub fn from<T: BlockDevice>(mut device: T, sector: u64) -> (r: Result<BiosParameterBlock, Error>)
        ensures
            r matches Ok(p) ==> p.wf(),
    {
        BiosParameterBlock::read_from(&mut device, sector)
    }

    /// A validated block: trailing magic `0x55, 0xAA` and an extended
    /// signature of `0x28` or `0x29`.
    pub open spec fn wf(&self) -> bool {
        &&& self.magic[0] == 0x55 && self.magic[1] == 0xAA
        &&& self.signature == 0x28 || self.signature == 0x29
    }

    /// The volume's sector count: the 16-bit field when it is nonzero,
    /// otherwise the 32-bit field.
    pub open spec fn spec_logical_sectors(&self) -> u32 {
        if self.logical_sectors_1 != 0 {
            self.logical_sectors_1 as u32
        } else {
            self.logical_sectors_2
        }
    }

    /// The volume's sector count: the 16-bit field when it is nonzero,
    /// otherwise the 32-bit field.
    pub fn logical_sectors(&self) -> (r: u32)
        ensures
            r == self.spec_logical_sectors(),
    {
        if self.logical_sectors_1 > 0 {
            self.logical_sectors_1 as u32
        } else {
            self.logical_sectors_2
        }
    }
}

} // verus!
