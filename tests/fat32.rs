use std::cell::Cell;
use std::rc::Rc;

use fat32::block_device::BlockDevice;
use fat32::cache::{check_config, CachedPartition, Partition};
use fat32::ebpb::{BiosParameterBlock, Error as BpbError};
use fat32::io;
use fat32::mbr::{Error as MbrError, MasterBootRecord, CHS};

/// An in-memory device that counts its reads and can be told to fail.
struct MemDevice {
    sector_size: u64,
    data: Vec<u8>,
    reads: Rc<Cell<usize>>,
    writes: Rc<Cell<usize>>,
    failing: Rc<Cell<bool>>,
    short: bool,
}

impl MemDevice {
    fn new(sector_size: u64, sectors: usize) -> MemDevice {
        let mut data = vec![0u8; sector_size as usize * sectors];
        for (i, b) in data.iter_mut().enumerate() {
            *b = (i / sector_size as usize) as u8 ^ (i % 251) as u8;
        }
        MemDevice {
            sector_size,
            data,
            reads: Rc::new(Cell::new(0)), writes: Rc::new(Cell::new(0)),
            failing: Rc::new(Cell::new(false)),
            short: false,
        }
    }

    fn from_sector(bytes: &[u8]) -> MemDevice {
        MemDevice {
            sector_size: bytes.len() as u64,
            data: bytes.to_vec(),
            reads: Rc::new(Cell::new(0)), writes: Rc::new(Cell::new(0)),
            failing: Rc::new(Cell::new(false)),
            short: false,
        }
    }

    fn sector(&self, n: usize) -> Vec<u8> {
        let ss = self.sector_size as usize;
        self.data[n * ss..(n + 1) * ss].to_vec()
    }
}

impl BlockDevice for MemDevice {
    fn sector_size(&self) -> u64 {
        self.sector_size
    }

    fn read_sector(&mut self, n: u64, buf: &mut [u8]) -> io::Result<usize> {
        self.reads.set(self.reads.get() + 1);
        if self.failing.get() {
            return Err(io::Error::new(io::ErrorKind::Other, "device failure"));
        }
        let ss = self.sector_size as usize;
        let start = n as usize * ss;
        if start + ss > self.data.len() {
            return Err(io::Error::new(io::ErrorKind::NotFound, "no such sector"));
        }
        let mut amt = ss.min(buf.len());
        if self.short {
            amt /= 2;
        }
        buf[..amt].copy_from_slice(&self.data[start..start + amt]);
        Ok(amt)
    }

    fn write_sector(&mut self, n: u64, buf: &[u8]) -> io::Result<usize> {
        self.writes.set(self.writes.get() + 1);
        let ss = self.sector_size as usize;
        let start = n as usize * ss;
        let amt = ss.min(buf.len());
        self.data[start..start + amt].copy_from_slice(&buf[..amt]);
        Ok(amt)
    }
}

fn put_u32(b: &mut [u8], off: usize, v: u32) {
    b[off..off + 4].copy_from_slice(&v.to_le_bytes());
}

fn put_u16(b: &mut [u8], off: usize, v: u16) {
    b[off..off + 2].copy_from_slice(&v.to_le_bytes());
}

/// A signed boot sector with two partitions: entry 0 of type 0x83 and
/// entry 2 of FAT32 type 0x0C starting at 2048.
fn boot_sector() -> Vec<u8> {
    let mut b = vec![0u8; 512];
    for (i, x) in b[..436].iter_mut().enumerate() {
        *x = (i % 200) as u8;
    }
    for (i, x) in b[436..446].iter_mut().enumerate() {
        *x = 0xD0 + i as u8;
    }
    b[446] = 0x80;
    b[446 + 1] = 0x01;
    put_u16(&mut b, 446 + 2, 0x0102);
    b[446 + 4] = 0x83;
    b[446 + 5] = 0xFE;
    put_u16(&mut b, 446 + 6, 0xFFFF);
    put_u32(&mut b, 446 + 8, 63);
    put_u32(&mut b, 446 + 12, 1985);
    let e2 = 446 + 32;
    b[e2 + 4] = 0x0C;
    put_u32(&mut b, e2 + 8, 2048);
    put_u32(&mut b, e2 + 12, 1000);
    b[510] = 0x55;
    b[511] = 0xAA;
    b
}

fn volume_sector(logical_16: u16, logical_32: u32, signature: u8) -> Vec<u8> {
    let mut b = vec![0u8; 512];
    b[0] = 0xEB;
    b[1] = 0x58;
    b[2] = 0x90;
    b[3..11].copy_from_slice(b"MSWIN4.1");
    put_u16(&mut b, 11, 512);
    b[13] = 8;
    put_u16(&mut b, 14, 32);
    b[16] = 2;
    put_u16(&mut b, 19, logical_16);
    b[21] = 0xF8;
    put_u32(&mut b, 32, logical_32);
    put_u32(&mut b, 36, 1234);
    put_u32(&mut b, 44, 2);
    b[66] = signature;
    put_u32(&mut b, 67, 0xCAFEBABE);
    b[510] = 0x55;
    b[511] = 0xAA;
    b
}

#[test]
fn mbr_decodes_every_field_at_its_offset() {
    let b = boot_sector();
    let m = MasterBootRecord::parse(&b).unwrap();
    assert_eq!(&m.bootstrap[..], &b[..436]);
    assert_eq!(&m.disk_id[..], &b[436..446]);
    assert_eq!(m.magic, [0x55, 0xAA]);
    let e0 = m.partitions[0];
    assert_eq!(e0.boot_indicator, 0x80);
    assert_eq!(e0.start_chs.head, 0x01);
    assert_eq!(e0.start_chs.sector_and_cylinder_start, 0x0102);
    assert_eq!(e0.partition_type, 0x83);
    assert_eq!(e0.end_chs.head, 0xFE);
    assert_eq!(e0.end_chs.sector_and_cylinder_start, 0xFFFF);
    assert_eq!(e0.sector_offset, 63);
    assert_eq!(e0.num_sectors, 1985);
    assert_eq!(e0.starting_sector(), 63);
    let e2 = m.partitions[2];
    assert_eq!(e2.partition_type, 0x0C);
    assert_eq!(e2.starting_sector(), 2048);
    assert_eq!(e2.num_sectors, 1000);
}

#[test]
fn mbr_bad_signature() {
    let mut b = boot_sector();
    b[511] = 0xAB;
    assert!(matches!(MasterBootRecord::parse(&b), Err(MbrError::BadSignature)));
    let mut b = boot_sector();
    b[510] = 0xAA;
    b[511] = 0x55;
    b[446] = 0x07;
    assert!(matches!(MasterBootRecord::parse(&b), Err(MbrError::BadSignature)));
}

#[test]
fn mbr_first_unknown_boot_indicator_is_reported() {
    for k in 0..4usize {
        let mut b = boot_sector();
        b[446] = 0x00;
        b[446 + 16 * k] = 0x01;
        for later in k + 1..4 {
            b[446 + 16 * later] = 0x33;
        }
        match MasterBootRecord::parse(&b) {
            Err(MbrError::UnknownBootIndicator(n)) => assert_eq!(n as usize, k),
            other => panic!("unexpected outcome {:?}", other.is_ok()),
        }
    }
}

#[test]
fn mbr_short_buffer_is_an_io_error() {
    let b = boot_sector();
    match MasterBootRecord::parse(&b[..511]) {
        Err(MbrError::Io(e)) => assert_eq!(e.kind(), io::ErrorKind::UnexpectedEof),
        _ => panic!("expected an I/O error"),
    }
}

#[test]
fn mbr_from_reads_sector_zero() {
    let dev = MemDevice::from_sector(&boot_sector());
    let reads = dev.reads.clone();
    let m = MasterBootRecord::from(dev).unwrap();
    assert_eq!(reads.get(), 1);
    assert_eq!(m.fat32_partition().unwrap().starting_sector(), 2048);
}

#[test]
fn mbr_from_device_failure_and_short_read() {
    let dev = MemDevice::from_sector(&boot_sector());
    dev.failing.set(true);
    match MasterBootRecord::from(dev) {
        Err(MbrError::Io(e)) => assert_eq!(e.kind(), io::ErrorKind::Other),
        _ => panic!("expected the device's error"),
    }
    let mut dev = MemDevice::from_sector(&boot_sector());
    dev.short = true;
    match MasterBootRecord::from(dev) {
        Err(MbrError::Io(e)) => assert_eq!(e.kind(), io::ErrorKind::UnexpectedEof),
        _ => panic!("expected a short read error"),
    }
}

#[test]
fn fat32_partition_is_first_match_or_none() {
    let mut b = boot_sector();
    b[446 + 48 + 4] = 0x0B;
    put_u32(&mut b, 446 + 48 + 8, 9999);
    let m = MasterBootRecord::parse(&b).unwrap();
    assert_eq!(m.fat32_partition().unwrap().starting_sector(), 2048);

    b[446 + 32 + 4] = 0x07;
    let m = MasterBootRecord::parse(&b).unwrap();
    assert_eq!(m.fat32_partition().unwrap().starting_sector(), 9999);

    b[446 + 48 + 4] = 0x00;
    let m = MasterBootRecord::parse(&b).unwrap();
    assert!(m.fat32_partition().is_none());
}

#[test]
fn chs_fields_split_sector_and_cylinder() {
    let c = CHS { head: 3, sector_and_cylinder_start: (700 << 6) | 17 };
    assert_eq!(c.start_sector(), 17);
    assert_eq!(c.start_cylinder(), 700);
}

#[test]
fn bpb_decodes_fields() {
    let b = volume_sector(0, 2_000_000, 0x29);
    let p = BiosParameterBlock::parse(&b).unwrap();
    assert_eq!(p.bytes_per_sector, 512);
    assert_eq!(p.sectors_per_cluster, 8);
    assert_eq!(p.reserved_sectors, 32);
    assert_eq!(p.num_fats, 2);
    assert_eq!(p.sectors_per_fat, 1234);
    assert_eq!(p.root_cluster, 2);
    assert_eq!(p.volume_id, 0xCAFEBABE);
    assert_eq!(&p.oem_ident[..], b"MSWIN4.1");
    assert_eq!(p.magic, [0x55, 0xAA]);
}

#[test]
fn logical_sectors_prefers_nonzero_16_bit_field() {
    let p = BiosParameterBlock::parse(&volume_sector(4000, 2_000_000, 0x28)).unwrap();
    assert_eq!(p.logical_sectors(), 4000);
    let p = BiosParameterBlock::parse(&volume_sector(0, 2_000_000, 0x28)).unwrap();
    assert_eq!(p.logical_sectors(), 2_000_000);
}

#[test]
fn bpb_bad_magic_or_signature() {
    let mut b = volume_sector(0, 5, 0x29);
    b[510] = 0;
    assert!(matches!(BiosParameterBlock::parse(&b), Err(BpbError::BadSignature)));
    let b = volume_sector(0, 5, 0x27);
    assert!(matches!(BiosParameterBlock::parse(&b), Err(BpbError::BadSignature)));
    match BiosParameterBlock::parse(&b[..100]) {
        Err(BpbError::Io(e)) => assert_eq!(e.kind(), io::ErrorKind::UnexpectedEof),
        _ => panic!("expected an I/O error"),
    }
}

#[test]
fn ebpb_test() {
    let data = volume_sector(0, 77, 0x29);
    let dev = MemDevice::from_sector(&data);
    assert!(BiosParameterBlock::from(dev, 0).is_ok());
    let dev = MemDevice::from_sector(&data);
    assert!(BiosParameterBlock::from(dev, 1).is_err());
}

#[test]
fn read_outcomes_are_passed_on() {
    let b = boot_sector();
    match MasterBootRecord::from_read(Err(io::Error::new(io::ErrorKind::TimedOut, "slow")), &b) {
        Err(MbrError::Io(e)) => {
            assert_eq!(e.kind(), io::ErrorKind::TimedOut);
            assert_eq!(e.msg, "slow");
        }
        _ => panic!("expected the device's error"),
    }
    match MasterBootRecord::from_read(Ok(100), &b) {
        Err(MbrError::Io(e)) => assert_eq!(e.kind(), io::ErrorKind::UnexpectedEof),
        _ => panic!("expected a short read error"),
    }
    assert!(MasterBootRecord::from_read(Ok(512), &b).is_ok());

    let v = volume_sector(0, 5, 0x28);
    match BiosParameterBlock::from_read(Err(io::Error::new(io::ErrorKind::TimedOut, "slow")), &v) {
        Err(BpbError::Io(e)) => {
            assert_eq!(e.kind(), io::ErrorKind::TimedOut);
            assert_eq!(e.msg, "slow");
        }
        _ => panic!("expected the device's error"),
    }
    match BiosParameterBlock::from_read(Ok(511), &v) {
        Err(BpbError::Io(e)) => assert_eq!(e.kind(), io::ErrorKind::UnexpectedEof),
        _ => panic!("expected a short read error"),
    }
    assert!(BiosParameterBlock::from_read(Ok(512), &v).is_ok());
}

#[test]
fn read_from_makes_one_request() {
    let mut dev = MemDevice::from_sector(&boot_sector());
    assert!(MasterBootRecord::read_from(&mut dev).is_ok());
    assert_eq!(dev.reads.get(), 1);
    let mut data = vec![0u8; 512 * 3];
    data[512 * 2..].copy_from_slice(&volume_sector(0, 9, 0x29));
    let mut dev = MemDevice { sector_size: 512, data, reads: Rc::new(Cell::new(0)), writes: Rc::new(Cell::new(0)), failing: Rc::new(Cell::new(false)), short: false };
    assert_eq!(BiosParameterBlock::read_from(&mut dev, 2).unwrap().logical_sectors(), 9);
    assert_eq!(dev.reads.get(), 1);
    assert!(BiosParameterBlock::read_from(&mut dev, 1).is_err());
}

fn partition(start: u64, num_sectors: u64, sector_size: u64) -> Partition {
    Partition { start, num_sectors, sector_size }
}

#[test]
fn translate_with_factor_one() {
    let dev = MemDevice::new(512, 8);
    let c = CachedPartition::new(dev, partition(2048, 1000, 512)).unwrap();
    assert_eq!(c.factor(), 1);
    assert_eq!(c.virtual_to_physical(0).unwrap(), 2048);
    assert_eq!(c.virtual_to_physical(999).unwrap(), 3047);
    assert_eq!(c.virtual_to_physical(1000).unwrap_err().kind(), io::ErrorKind::InvalidInput);
}

#[test]
fn translate_with_factor_four() {
    let dev = MemDevice::new(512, 8);
    let c = CachedPartition::new(dev, partition(100, 10, 2048)).unwrap();
    assert_eq!(c.factor(), 4);
    assert_eq!(c.virtual_to_physical(3).unwrap(), 112);
}

#[test]
fn cached_sector_holds_a_logical_sector() {
    let dev = MemDevice::new(512, 32);
    let mut c = CachedPartition::new(dev, partition(0, 8, 2048)).unwrap();
    assert_eq!(c.get(1).unwrap().len(), 2048);
    assert_eq!(c.get_mut(2).unwrap().len(), 2048);
}

#[test]
fn get_twice_reads_device_once() {
    let dev = MemDevice::new(512, 16);
    let expected = dev.sector(7);
    let reads = dev.reads.clone();
    let mut c = CachedPartition::new(dev, partition(2, 10, 512)).unwrap();
    assert!(!c.is_cached(5));
    let first = c.get(5).unwrap().to_vec();
    assert_eq!(reads.get(), 1);
    let second = c.get(5).unwrap().to_vec();
    assert_eq!(reads.get(), 1);
    assert_eq!(first, expected);
    assert_eq!(second, expected);
    assert!(c.is_cached(5));
    assert!(!c.is_dirty(5));
}

#[test]
fn get_mut_then_get_returns_written_bytes() {
    let dev = MemDevice::new(512, 16);
    let reads = dev.reads.clone();
    let mut c = CachedPartition::new(dev, partition(0, 16, 512)).unwrap();
    {
        let s = c.get_mut(5).unwrap();
        s[0] = 0xAB;
        s[511] = 0xCD;
    }
    assert_eq!(reads.get(), 1);
    let d = c.get(5).unwrap();
    assert_eq!(d[0], 0xAB);
    assert_eq!(d[511], 0xCD);
    assert_eq!(reads.get(), 1);
    assert!(c.is_dirty(5));
}

#[test]
fn write_then_read_round_trip() {
    let dev = MemDevice::new(512, 16);
    let reads = dev.reads.clone();
    let mut c = CachedPartition::new(dev, partition(0, 16, 512)).unwrap();
    let w: Vec<u8> = (0..100u8).collect();
    assert_eq!(c.write_cached_sector(7, &w).unwrap(), 100);
    assert_eq!(reads.get(), 1);
    let mut r = vec![0u8; 100];
    assert_eq!(c.read_cached_sector(7, &mut r).unwrap(), 100);
    assert_eq!(r, w);
    assert_eq!(reads.get(), 1);
}

#[test]
fn block_device_capability_of_cached_partition() {
    let dev = MemDevice::new(512, 16);
    let before = dev.sector(3);
    let reads = dev.reads.clone();
    let mut c = CachedPartition::new(dev, partition(0, 16, 512)).unwrap();
    assert_eq!(BlockDevice::sector_size(&c), 512);
    let mut big = vec![0xEEu8; 600];
    assert_eq!(BlockDevice::read_sector(&mut c, 3, &mut big).unwrap(), 512);
    assert_eq!(&big[..512], &before[..]);
    assert_eq!(&big[512..], &[0xEEu8; 88][..]);
    assert_eq!(BlockDevice::write_sector(&mut c, 3, &[9u8; 10]).unwrap(), 10);
    let mut small = vec![0u8; 12];
    assert_eq!(BlockDevice::read_sector(&mut c, 3, &mut small).unwrap(), 12);
    assert_eq!(&small[..10], &[9u8; 10][..]);
    assert_eq!(&small[10..], &before[10..12]);
    assert_eq!(reads.get(), 1);
}

#[test]
fn load_concatenates_physical_sectors_in_order() {
    let dev = MemDevice::new(512, 32);
    let mut expected = dev.sector(10);
    expected.extend(dev.sector(11));
    let reads = dev.reads.clone();
    let mut c = CachedPartition::new(dev, partition(4, 8, 1024)).unwrap();
    assert_eq!(c.factor(), 2);
    let d = c.get(3).unwrap().to_vec();
    assert_eq!(d, expected);
    assert_eq!(reads.get(), 2);
}

#[test]
fn out_of_range_sector_is_invalid_input_without_device_access() {
    let dev = MemDevice::new(512, 16);
    let reads = dev.reads.clone();
    let mut c = CachedPartition::new(dev, partition(0, 4, 512)).unwrap();
    assert_eq!(c.get(4).unwrap_err().kind(), io::ErrorKind::InvalidInput);
    assert_eq!(c.get_mut(9).unwrap_err().kind(), io::ErrorKind::InvalidInput);
    assert_eq!(reads.get(), 0);
}

#[test]
fn failed_load_caches_nothing_and_can_be_retried() {
    let dev = MemDevice::new(512, 16);
    let failing = dev.failing.clone();
    let expected = dev.sector(2);
    let mut c = CachedPartition::new(dev, partition(0, 16, 512)).unwrap();
    failing.set(true);
    assert_eq!(c.get(2).unwrap_err().kind(), io::ErrorKind::Other);
    assert!(!c.is_cached(2));
    failing.set(false);
    assert_eq!(c.get(2).unwrap().to_vec(), expected);
}

#[test]
fn short_physical_read_is_unexpected_eof() {
    let mut dev = MemDevice::new(512, 16);
    dev.short = true;
    let mut c = CachedPartition::new(dev, partition(0, 16, 512)).unwrap();
    assert_eq!(c.get(1).unwrap_err().kind(), io::ErrorKind::UnexpectedEof);
    assert!(!c.is_cached(1));
}

#[test]
fn construction_rejects_sizes_that_do_not_divide() {
    let dev = MemDevice::new(512, 4);
    let r = CachedPartition::new(dev, partition(0, 4, 1000));
    assert_eq!(r.err().unwrap().kind(), io::ErrorKind::InvalidInput);
    let dev = MemDevice::new(512, 4);
    let r = CachedPartition::new(dev, partition(0, 4, 256));
    assert_eq!(r.err().unwrap().kind(), io::ErrorKind::InvalidInput);
    let dev = MemDevice::new(512, 4);
    let r = CachedPartition::new(dev, partition(u64::MAX - 2, 4, 512));
    assert_eq!(r.err().unwrap().kind(), io::ErrorKind::InvalidInput);
    assert!(check_config(&partition(0, 4, 1536), 512));
    assert!(!check_config(&partition(0, 4, 512), 0));
}

#[test]
fn mbr_from_test() {
    let dev = MemDevice::from_sector(&boot_sector());
    let mbr = MasterBootRecord::from(dev);
    assert_eq!(mbr.is_ok(), true);
    let mbr = mbr.ok().unwrap();
    let fats = mbr.fat32_partition();
    assert_eq!(fats.is_some(), true);
}

#[test]
fn cache_and_parsers_never_write_to_the_device() {
    let mut dev = MemDevice::from_sector(&boot_sector());
    assert!(MasterBootRecord::read_from(&mut dev).is_ok());
    let mut v = MemDevice::from_sector(&volume_sector(0, 3, 0x29));
    assert!(BiosParameterBlock::read_from(&mut v, 0).is_ok());
    assert_eq!(dev.writes.get() + v.writes.get(), 0);

    let dev = MemDevice::new(512, 16);
    let writes = dev.writes.clone();
    let mut c = CachedPartition::new(dev, partition(0, 8, 1024)).unwrap();
    assert_eq!(c.write_cached_sector(3, &[1u8; 700]).unwrap(), 700);
    assert_eq!(BlockDevice::write_sector(&mut c, 4, &[2u8; 10]).unwrap(), 10);
    c.get_mut(5).unwrap()[0] = 9;
    assert!(c.get(9).is_err());
    assert_eq!(writes.get(), 0);
}
