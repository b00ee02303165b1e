//! A partition view over a block device with an in-memory write-back cache of
//! logical sectors.

use vstd::prelude::*;
use crate::block_device::{BlockDevice, SectorRead, SectorWrite};
use crate::io;

verus! {

/// A cached logical sector: its bytes and whether they were handed out for
/// writing.
#[derive(Debug)]
pub struct CacheEntry {
    pub data: Vec<u8>,
    pub dirty: bool,
}

impl CacheEntry {
    /// The entry as plain values.
    pub open spec fn view_pair(&self) -> (Seq<u8>, bool) {
        (self.data@, self.dirty)
    }
}

/// The map from logical sector number to cache entry.
#[verifier::external_body]
pub struct SectorMap {
    map: hashbrown::HashMap<u64, CacheEntry>,
}

/// Cached sectors as plain values: each sector's bytes and dirty flag.
pub type SectorEntries = Map<u64, (Seq<u8>, bool)>;

/// What a sector map holds: each cached sector's bytes and dirty flag.
pub uninterp spec fn sector_map_entries(m: SectorMap) -> SectorEntries;

impl SectorMap {
    /// Relies on `hashbrown::HashMap::new`: the new map is empty.
    #[verifier::external_body]
    fn new() -> (r: SectorMap)
        ensures
            sector_map_entries(r) == SectorEntries::empty(),
    {
        SectorMap { map: hashbrown::HashMap::new() }
    }

    /// Relies on `hashbrown::HashMap::contains_key`: whether the key is present.
    #[verifier::external_body]
    fn contains(&self, k: u64) -> (r: bool)
        ensures
            r == sector_map_entries(*self).contains_key(k),
    {
        self.map.contains_key(&k)
    }

    /// Relies on `hashbrown::HashMap::get`: the entry of a present key.
    #[verifier::external_body]
    fn get(&self, k: u64) -> (r: Option<&CacheEntry>)
        ensures
            r is Some <==> sector_map_entries(*self).contains_key(k),
            r is Some ==> (*r->Some_0).view_pair() == sector_map_entries(*self)[k],
    {
        self.map.get(&k)
    }

    /// Relies on `hashbrown::HashMap::insert`: the key maps to the new entry and
    /// every other key keeps its entry.
    #[verifier::external_body]
    fn insert(&mut self, k: u64, e: CacheEntry)
        ensures
            sector_map_entries(*final(self)) == sector_map_entries(*old(self)).insert(k, e.view_pair()),
    {
        self.map.insert(k, e);
    }

    /// Relies on `hashbrown::HashMap::get_mut`: the entry of a present key,
    /// whose later changes are the map's.
    #[verifier::external_body]
    fn get_mut(&mut self, k: u64) -> (r: Option<&mut CacheEntry>)
        ensures
            r is Some <==> sector_map_entries(*old(self)).contains_key(k),
            r is None ==> sector_map_entries(*final(self)) == sector_map_entries(*old(self)),
            r is Some ==> (*r->Some_0).view_pair() == sector_map_entries(*old(self))[k]
                && sector_map_entries(*final(self)) == sector_map_entries(*old(self)).insert(
                k,
                (*final(r->Some_0)).view_pair(),
            ),
    {
        self.map.get_mut(&k)
    }
}

/// The geometry of a partition: where it starts on the device, how many
/// logical sectors it holds and how large each of them is.
#[derive(Clone, Copy, Debug)]
pub struct Partition {
    /// The physical sector where the partition begins.
    pub start: u64,
    /// The number of logical sectors.
    pub num_sectors: u64,
    /// The size, in bytes, of a logical sector.
    pub sector_size: u64,
}

/// Whether `p` can be served by a device whose sectors hold `phys` bytes:
/// the logical size is a nonzero multiple of `phys` that fits in memory, and
/// every physical sector of the partition has a `u64` number.
pub open spec fn config_ok(p: Partition, phys: u64) -> bool {
    &&& phys > 0
    &&& p.sector_size >= phys
    &&& p.sector_size % phys == 0
    &&& p.sector_size <= usize::MAX
    &&& p.start + p.num_sectors * (p.sector_size / phys) <= u64::MAX
}

/// Whether `p` can be served by a device whose sectors hold `phys` bytes:
/// see `config_ok`.
pub fn check_config(p: &Partition, phys: u64) -> (r: bool)
    ensures
        r == config_ok(*p, phys),
{
    if phys == 0 || p.sector_size < phys || p.sector_size % phys != 0 {
        return false;
    }
    if p.sector_size > usize::MAX as u64 {
        return false;
    }
    let factor = p.sector_size / phys;
    if p.num_sectors > 0 && factor > (u64::MAX - p.start) / p.num_sectors {
        proof {
            lemma_span_overflows(p.start as int, p.num_sectors as int, factor as int);
        }
        return false;
    }
    proof {
        if p.num_sectors > 0 {
            lemma_span_fits(p.start as int, p.num_sectors as int, factor as int);
        } else {
            assert(p.num_sectors * factor == 0) by (nonlinear_arith)
                requires
                    p.num_sectors == 0,
            ;
        }
    }
    true
}

/// Whether read `rec` returned a full sector of `len` bytes.
pub open spec fn full_read(rec: SectorRead, len: int) -> bool {
    rec.2 matches Ok(m) && m == len
}

/// Whether the reads that `after` adds to `before` are a load that failed
/// with `e`: requests of the consecutive sectors from `first` on, in
/// ascending order, with buffers of `len` bytes, all returning a full sector
/// but the last, which returned the device's error `e` itself or fewer bytes
/// (then `e` is `UnexpectedEof`); no more than `count` requests.
pub open spec fn is_failed_load(
    before: Seq<SectorRead>,
    after: Seq<SectorRead>,
    first: int,
    count: int,
    len: int,
    e: io::Error,
) -> bool {
    let k = after.len() - before.len();
    &&& 1 <= k <= count
    &&& after.subrange(0, before.len() as int) == before
    &&& forall|i: int|
        0 <= i < k ==> (#[trigger] after[before.len() + i]).0 == first + i
            && after[before.len() + i].1.len() == len
    &&& forall|i: int| 0 <= i < k - 1 ==> full_read(#[trigger] after[before.len() + i], len)
    &&& after.last().2 == Err::<usize, io::Error>(e) || (after.last().2 matches Ok(m) && m != len
        && e.kind == io::ErrorKind::UnexpectedEof)
}

/// Whether every cached sector lies in a partition of `num` sectors and
/// holds `size` bytes.
pub open spec fn entries_ok(m: SectorEntries, num: u64, size: u64) -> bool {
    forall|k: u64| #[trigger] m.contains_key(k) ==> k < num && m[k].0.len() == size
}

/// Whether the reads that `after` adds to `before` are one load: `count`
/// reads of the consecutive sectors from `first` on, in ascending order,
/// each returning a full sector of `len` bytes, whose bytes concatenated are
/// `data`.
pub open spec fn is_load(
    before: Seq<SectorRead>,
    after: Seq<SectorRead>,
    first: int,
    count: int,
    len: int,
    data: Seq<u8>,
) -> bool {
    &&& after.len() == before.len() + count
    &&& after.subrange(0, before.len() as int) == before
    &&& forall|i: int|
        0 <= i < count ==> (#[trigger] after[before.len() + i]).0 == first + i
            && after[before.len() + i].1.len() == len && full_read(after[before.len() + i], len)
    &&& data == after.subrange(before.len() as int, after.len() as int).map_values(
        |e: SectorRead| e.1,
    ).flatten()
}

/// Overwrites the front of `data` with as much of `buf` as fits.
pub open spec fn write_into(data: Seq<u8>, buf: Seq<u8>) -> Seq<u8> {
    let n = if data.len() < buf.len() { data.len() } else { buf.len() };
    buf.subrange(0, n as int) + data.subrange(n as int, data.len() as int)
}

/// Overwrites the front of `buf` with as much of `data` as fits.
pub open spec fn read_into(data: Seq<u8>, buf: Seq<u8>) -> Seq<u8> {
    write_into(buf, data)
}

/// The smaller of two lengths.
pub open spec fn min_len(a: nat, b: nat) -> nat {
    if a < b { a } else { b }
}

/// A partition of a block device whose logical sectors are served from an
/// in-memory cache, loaded on first access and never written back.
pub struct CachedPartition<D: BlockDevice> {
    device: D,
    cache: SectorMap,
    partition: Partition,
    device_sector_size: u64,
    served: Ghost<Seq<SectorRead>>,
    taken: Ghost<Seq<SectorWrite>>,
}

impl<D: BlockDevice> CachedPartition<D> {
    /// The partition's geometry.
    pub closed spec fn geometry(&self) -> Partition {
        self.partition
    }

    /// The device's sector size, fixed at construction.
    pub closed spec fn physical_size(&self) -> u64 {
        self.device_sector_size
    }

    /// The cached sectors.
    pub closed spec fn cached(&self) -> SectorEntries {
        sector_map_entries(self.cache)
    }

    /// Every read made on the device so far, in order.
    pub closed spec fn device_reads(&self) -> Seq<SectorRead> {
        self.device.read_log()
    }

    /// Every write made on the device so far, in order.
    pub closed spec fn device_writes(&self) -> Seq<SectorWrite> {
        self.device.write_log()
    }

    /// Every cached sector lies in the partition and holds a logical
    /// sector's bytes.
    pub open spec fn cache_ok(&self) -> bool {
        entries_ok(self.cached(), self.geometry().num_sectors, self.geometry().sector_size)
    }

    /// Whether a fetch of sector `n` failed with `e` because its load failed:
    /// the sector was not cached, and the device reads made are a failed load.
    pub open spec fn fetch_failed(old: &Self, new: &Self, n: u64, e: io::Error) -> bool {
        &&& !old.cached().contains_key(n)
        &&& is_failed_load(
            old.device_reads(),
            new.device_reads(),
            old.spec_physical(n as int),
            old.spec_factor(),
            old.physical_size() as int,
            e,
        )
    }

    /// The underlying device.
    pub closed spec fn device(&self) -> D {
        self.device
    }

    /// Physical sectors per logical sector.
    pub open spec fn spec_factor(&self) -> int {
        (self.geometry().sector_size / self.physical_size()) as int
    }

    /// The physical sector where logical sector `n` begins.
    pub open spec fn spec_physical(&self, n: int) -> int {
        self.geometry().start + n * self.spec_factor()
    }

    /// A usable configuration: see `config_ok`.
    pub open spec fn wf(&self) -> bool {
        config_ok(self.geometry(), self.physical_size())
    }

    /// Whether `new` is `old` after fetching logical sector `n` with bytes
    /// `data`: from the cache, with no device access, when `old` holds it;
    /// otherwise through one load.
    pub open spec fn fetched(old: &Self, new: &Self, n: u64, data: Seq<u8>) -> bool {
        if old.cached().contains_key(n) {
            &&& data == old.cached()[n].0
            &&& new.device_reads() == old.device_reads()
            &&& new.device() == old.device()
        } else {
            &&& data.len() == old.geometry().sector_size
            &&& is_load(
                old.device_reads(),
                new.device_reads(),
                old.spec_physical(n as int),
                old.spec_factor(),
                old.physical_size() as int,
                data,
            )
        }
    }

    /// The dirty flag of sector `n` before an access: false unless cached dirty.
    pub open spec fn prior_dirty(&self, n: u64) -> bool {
        self.cached().contains_key(n) && self.cached()[n].1
    }

    /// What holds after any access to logical sector `n`, whatever the
    /// device did: the geometry is kept, nothing is written to the device,
    /// earlier device reads stay recorded, a
    /// sector outside the partition is refused without a device access, a
    /// cached sector of the partition is always served, and a failure caches
    /// nothing and is either the range check's or the failed load's own.
    pub open spec fn access_frame<T>(old: &Self, new: &Self, n: u64, r: &io::Result<T>) -> bool {
        &&& new.wf()
        &&& new.geometry() == old.geometry()
        &&& new.physical_size() == old.physical_size()
        &&& old.device_reads().is_prefix_of(new.device_reads())
        &&& new.device_writes() == old.device_writes()
        &&& n >= old.geometry().num_sectors ==> io::fails_with(r, io::ErrorKind::InvalidInput)
            && new.device_reads() == old.device_reads()
        &&& n < old.geometry().num_sectors && old.cached().contains_key(n) ==> r is Ok
        &&& r is Err ==> new.cached() == old.cached()
        &&& r matches Err(e) ==> n >= old.geometry().num_sectors || Self::fetch_failed(
            old,
            new,
            n,
            *e,
        )
    }

    /// What holds after copying logical sector `n` into a buffer that held
    /// `old_buf` and then holds `new_buf`: the access frame; the cache stays
    /// sound; on failure the buffer is unchanged; on success the sector was
    /// fetched (from the cache, or by one load) and is cached with its dirty
    /// flag as before, and the front of the buffer holds as many of its
    /// bytes as both hold, which is the count returned.
    pub open spec fn read_post(
        old: &Self,
        new: &Self,
        n: u64,
        old_buf: Seq<u8>,
        new_buf: Seq<u8>,
        r: &io::Result<usize>,
    ) -> bool {
        &&& Self::access_frame(old, new, n, r)
        &&& old.cache_ok() ==> new.cache_ok()
        &&& r is Err ==> new_buf == old_buf
        &&& r matches Ok(amt) ==> {
            let data = new.cached()[n].0;
            &&& new.cached().contains_key(n)
            &&& Self::fetched(old, new, n, data)
            &&& new.cached() == old.cached().insert(n, (data, old.prior_dirty(n)))
            &&& amt == min_len(data.len(), old_buf.len())
            &&& new_buf == read_into(data, old_buf)
        }
    }

    /// What holds after copying `buf` into logical sector `n`: the access
    /// frame; the cache stays sound; on success the sector was fetched (from
    /// the cache, or by one load), its front now holds as many bytes of `buf`
    /// as both hold, which is the count returned, and it is dirty. Nothing is
    /// written to the device.
    pub open spec fn write_post(
        old: &Self,
        new: &Self,
        n: u64,
        buf: Seq<u8>,
        r: &io::Result<usize>,
    ) -> bool {
        &&& Self::access_frame(old, new, n, r)
        &&& old.cache_ok() ==> new.cache_ok()
        &&& r matches Ok(amt) ==> exists|prior: Seq<u8>|
            Self::fetched(old, new, n, prior) && new.cached() == old.cached().insert(
                n,
                (write_into(prior, buf), true),
            ) && amt == min_len(prior.len(), buf.len())
    }

    /// Creates a cache over `device`, whose sectors hold `device_sector_size`
    /// bytes, for the logical sectors of `partition`.
    ///
    /// Fails with `InvalidInput` unless the logical sector size is a nonzero
    /// multiple of the device's sector size and every physical sector of the
    /// partition has a `u64` number.
    pub fn with_sector_size(device: D, device_sector_size: u64, partition: Partition) -> (r:
        io::Result<Self>)
        ensures
            r is Ok <==> config_ok(partition, device_sector_size),
            r matches Err(e) ==> e.kind == io::ErrorKind::InvalidInput,
            r matches Ok(c) ==> c.wf() && c.geometry() == partition && c.physical_size()
                == device_sector_size && c.cached() == SectorEntries::empty()
                && c.cache_ok() && c.device() == device,
    {
        if !check_config(&partition, device_sector_size) {
            return Err(
                io::Error::new(
                    io::ErrorKind::InvalidInput,
                    "partition geometry does not fit the device's sector size",
                ),
            );
        }
        Ok(CachedPartition {
            device,
            cache: SectorMap::new(),
            partition,
            device_sector_size,
            served: Ghost(Seq::empty()),
            taken: Ghost(Seq::empty()),
        })
    }

    /// Creates a cache over `device` for the logical sectors of `partition`.
    ///
    /// Fails with `InvalidInput` unless the logical sector size is a nonzero
    /// multiple of `device.sector_size()` and every physical sector of the
    /// partition has a `u64` number.
    pub fn new(device: D, partition: Partition) -> (r: io::Result<Self>)
        ensures
            r is Ok <==> config_ok(partition, device.spec_sector_size()),
            r matches Err(e) ==> e.kind == io::ErrorKind::InvalidInput,
            r matches Ok(c) ==> c.wf() && c.geometry() == partition && c.physical_size()
                == device.spec_sector_size() && c.cached() == SectorEntries::empty()
                && c.cache_ok() && c.device() == device,
    {
        let size = device.sector_size();
        Self::with_sector_size(device, size, partition)
    }

    /// The number of physical sectors that make up one logical sector.
    pub fn factor(&self) -> (r: u64)
        requires
            self.wf(),
        ensures
            r == self.spec_factor(),
    {
        self.partition.sector_size / self.device_sector_size
    }

    /// Maps logical sector `virt` to the physical sector where it begins.
    ///
    /// Fails with `InvalidInput` when `virt` is not a sector of the partition.
    pub fn virtual_to_physical(&self, virt: u64) -> (r: io::Result<u64>)
        requires
            self.wf(),
        ensures
            r is Ok <==> virt < self.geometry().num_sectors,
            r matches Ok(p) ==> p == self.spec_physical(virt as int),
            r matches Err(e) ==> e.kind == io::ErrorKind::InvalidInput,
    {
        if virt >= self.partition.num_sectors {
            return Err(io::Error::new(io::ErrorKind::InvalidInput, "sector outside the partition"));
        }
        let factor = self.factor();
        proof {
            lemma_sector_in_span(
                self.partition.start as int,
                self.partition.num_sectors as int,
                factor as int,
                virt as int,
            );
        }
        Ok(self.partition.start + virt * factor)
    }

    /// Reads logical sector `sector` from the device: the `factor()`
    /// consecutive physical sectors from its first one on, in ascending
    /// order, concatenated.
    ///
    /// Fails with `InvalidInput` for a sector outside the partition, with the
    /// device's own error when a read fails, and with `UnexpectedEof` when a
    /// read returns fewer bytes than a device sector holds.
    fn load_sector(&mut self, sector: u64) -> (r: io::Result<Vec<u8>>)
        requires
            old(self).wf(),
        ensures
            final(self).wf(),
            final(self).geometry() == old(self).geometry(),
            final(self).physical_size() == old(self).physical_size(),
            final(self).cached() == old(self).cached(),
            final(self).served == old(self).served,
            final(self).taken == old(self).taken,
            old(self).device_reads().is_prefix_of(final(self).device_reads()),
            final(self).device_writes() == old(self).device_writes(),
            sector >= old(self).geometry().num_sectors ==> io::fails_with(
                &r,
                io::ErrorKind::InvalidInput,
            ) && final(self).device_reads() == old(self).device_reads(),
            r matches Ok(data) ==> data@.len() == old(self).geometry().sector_size && is_load(
                old(self).device_reads(),
                final(self).device_reads(),
                old(self).spec_physical(sector as int),
                old(self).spec_factor(),
                old(self).physical_size() as int,
                data@,
            ),
            sector < old(self).geometry().num_sectors ==> (r matches Err(e) ==> is_failed_load(
                old(self).device_reads(),
                final(self).device_reads(),
                old(self).spec_physical(sector as int),
                old(self).spec_factor(),
                old(self).physical_size() as int,
                e,
            )),
    {
        let first = self.virtual_to_physical(sector)?;
        let factor = self.factor();
        let phys = self.device_sector_size;
        proof {
            lemma_sector_in_span(
                self.partition.start as int,
                self.partition.num_sectors as int,
                factor as int,
                sector as int,
            );
            lemma_whole_multiple(self.partition.sector_size as int, phys as int);
        }
        let ghost before = self.device.read_log();
        let mut data: Vec<u8> = Vec::new();
        proof {
            let none = before.subrange(before.len() as int, before.len() as int);
            assert(before.subrange(0, before.len() as int) =~= before);
            assert(none.map_values(|e: SectorRead| e.1) =~= Seq::<Seq<u8>>::empty());
            assert(data@ =~= none.map_values(|e: SectorRead| e.1).flatten());
        }
        let mut i: u64 = 0;
        while i < factor
            invariant
                old(self).wf(),
                self.wf(),
                self.partition == old(self).partition,
                self.device_sector_size == phys,
                phys == old(self).physical_size(),
                factor == old(self).spec_factor(),
                first == old(self).spec_physical(sector as int),
                sector < old(self).geometry().num_sectors,
                first + factor <= u64::MAX,
                factor * phys == self.partition.sector_size,
                self.partition.sector_size <= usize::MAX,
                sector_map_entries(self.cache) == old(self).cached(),
                self.served == old(self).served,
                self.taken == old(self).taken,
                self.device.write_log() == old(self).device_writes(),
                before == old(self).device_reads(),
                i <= factor,
                data@.len() == i * phys,
                is_load(before, self.device.read_log(), first as int, i as int, phys as int, data@),
            decreases factor - i,
        {
            proof {
                assert(i * phys < factor * phys) by (nonlinear_arith)
                    requires
                        i < factor,
                        phys > 0,
                ;
            }
            let mut line: Vec<u8> = vec![0u8; phys as usize];
            let target: u64 = first + i;
            let ghost prev = self.device.read_log();
            let res = self.device.read_sector(target, line.as_mut_slice());
            let ghost rec = (target, line@, res);
            match res {
                Err(e) => {
                    proof {
                        lemma_failed_step(before, prev, first as int, i as int, factor as int, phys as int, data@, rec, e);
                    }
                    return Err(e);
                },
                Ok(n) => {
                    if n != line.len() {
                        let e = io::Error::new(io::ErrorKind::UnexpectedEof, "short sector read");
                        proof {
                            lemma_failed_step(before, prev, first as int, i as int, factor as int, phys as int, data@, rec, e);
                        }
                        return Err(e);
                    }
                },
            }
            proof {
                lemma_load_step(before, prev, first as int, i as int, phys as int, data@, rec);
            }
            data.append(&mut line);
            i += 1;
            proof {
                assert(data@.len() == i * phys) by (nonlinear_arith)
                    requires
                        data@.len() == (i - 1) * phys + phys,
                ;
            }
        }
        Ok(data)
    }

    /// The entry of logical sector `sector`, loaded and inserted first if the
    /// sector is not cached; a failed load inserts nothing.
    fn get_entry(&mut self, sector: u64) -> (r: io::Result<&mut CacheEntry>)
        requires
            old(self).wf(),
        ensures
            final(self).read_log() == old(self).read_log(),
            final(self).write_log() == old(self).write_log(),
            Self::access_frame(old(self), final(self), sector, &r),
            r is Ok ==> Self::fetched(old(self), final(self), sector, (*r->Ok_0).data@)
                && (*r->Ok_0).dirty == old(self).prior_dirty(sector) && final(self).cached()
                == old(self).cached().insert(sector, (*final(r->Ok_0)).view_pair()),
            old(self).cache_ok() ==> (r is Err ==> final(self).cache_ok()) && (r is Ok
                ==> (*r->Ok_0).data@.len() == old(self).geometry().sector_size),
    {
        broadcast use lemma_entries_insert;

        if sector >= self.partition.num_sectors {
            proof {
                assert(self.device.read_log().subrange(0, self.device.read_log().len() as int) =~= self.device.read_log());
            }
            return Err(io::Error::new(io::ErrorKind::InvalidInput, "sector outside the partition"));
        }
        if !self.cache.contains(sector) {
            let data = self.load_sector(sector)?;
            self.cache.insert(sector, CacheEntry { data, dirty: false });
        } else {
            proof {
                assert(self.device.read_log().subrange(0, self.device.read_log().len() as int) =~= self.device.read_log());
            }
        }
        match self.cache.get_mut(sector) {
            Some(entry) => Ok(entry),
            None => Err(io::Error::new(io::ErrorKind::NotFound, "sector missing from cache")),
        }
    }

    /// The bytes of logical sector `sector`, loaded from the device on first
    /// access. The dirty flag is left as it was.
    ///
    /// Fails with `InvalidInput` for a sector outside the partition, and with
    /// the load's error when the sector is not cached and cannot be read.
    pub fn get(&mut self, sector: u64) -> (r: io::Result<&[u8]>)
        requires
            old(self).wf(),
        ensures
            final(self).read_log() == old(self).read_log(),
            final(self).write_log() == old(self).write_log(),
            Self::access_frame(old(self), final(self), sector, &r),
            r matches Ok(d) ==> Self::fetched(old(self), final(self), sector, d@)
                && final(self).cached() == old(self).cached().insert(
                sector,
                (d@, old(self).prior_dirty(sector)),
            ),
            old(self).cache_ok() ==> final(self).cache_ok() && (r matches Ok(d) ==> d@.len()
                == old(self).geometry().sector_size),
    {
        broadcast use lemma_entries_insert;

        match self.get_entry(sector) {
            Ok(entry) => Ok(entry.data.as_slice()),
            Err(e) => Err(e),
        }
    }

    /// The bytes of logical sector `sector` for writing, loaded from the
    /// device on first access. The sector is marked dirty, and what the caller
    /// writes through the result is what the cache then holds.
    ///
    /// Fails with `InvalidInput` for a sector outside the partition, and with
    /// the load's error when the sector is not cached and cannot be read.
    pub fn get_mut(&mut self, sector: u64) -> (r: io::Result<&mut [u8]>)
        requires
            old(self).wf(),
        ensures
            final(self).read_log() == old(self).read_log(),
            final(self).write_log() == old(self).write_log(),
            Self::access_frame(old(self), final(self), sector, &r),
            r is Ok ==> Self::fetched(old(self), final(self), sector, (*r->Ok_0)@)
                && final(self).cached() == old(self).cached().insert(
                sector,
                ((*final(r->Ok_0))@, true),
            ),
            old(self).cache_ok() && r is Ok ==> (*r->Ok_0)@.len()
                == old(self).geometry().sector_size,
            old(self).cache_ok() && r is Err ==> final(self).cache_ok(),
            old(self).cache_ok() && r is Ok && (*final(r->Ok_0))@.len() == (*r->Ok_0)@.len()
                ==> final(self).cache_ok(),
    {
        broadcast use lemma_entries_insert;

        match self.get_entry(sector) {
            Ok(entry) => {
                entry.dirty = true;
                Ok(entry.data.as_mut_slice())
            },
            Err(e) => Err(e),
        }
    }

    /// Copies the front of logical sector `sector` into `buf`: as many bytes
    /// as both hold. Returns how many were copied. Served from the cache,
    /// loading the sector on first access; the dirty flag is left as it was.
    pub fn read_cached_sector(&mut self, sector: u64, buf: &mut [u8]) -> (r: io::Result<usize>)
        requires
            old(self).wf(),
        ensures
            final(self).read_log() == old(self).read_log(),
            final(self).write_log() == old(self).write_log(),
            Self::read_post(old(self), final(self), sector, old(buf)@, final(buf)@, &r),
    {
        broadcast use lemma_entries_insert;

        match self.get(sector) {
            Ok(data) => {
                let amt = if data.len() < buf.len() {
                    data.len()
                } else {
                    buf.len()
                };
                let mut i: usize = 0;
                while i < amt
                    invariant
                        amt <= data@.len(),
                        amt <= buf@.len(),
                        buf@.len() == old(buf)@.len(),
                        i <= amt,
                        forall|k: int| 0 <= k < i ==> buf@[k] == data@[k],
                        forall|k: int| i <= k < buf@.len() ==> buf@[k] == old(buf)@[k],
                    decreases amt - i,
                {
                    buf[i] = data[i];
                    i += 1;
                }
                assert(buf@ =~= read_into(data@, old(buf)@));
                Ok(amt)
            },
            Err(e) => Err(e),
        }
    }

    /// Copies the front of `buf` into logical sector `sector`: as many bytes
    /// as both hold. Returns how many were copied. The sector is loaded on
    /// first access, changed only in the cache, and marked dirty.
    pub fn write_cached_sector(&mut self, sector: u64, buf: &[u8]) -> (r: io::Result<usize>)
        requires
            old(self).wf(),
        ensures
            final(self).read_log() == old(self).read_log(),
            final(self).write_log() == old(self).write_log(),
            Self::write_post(old(self), final(self), sector, buf@, &r),
    {
        broadcast use lemma_entries_insert;

        match self.get_mut(sector) {
            Ok(data) => {
                let ghost prior = data@;
                let amt = if data.len() < buf.len() {
                    data.len()
                } else {
                    buf.len()
                };
                let mut i: usize = 0;
                while i < amt
                    invariant
                        amt <= prior.len(),
                        amt <= buf@.len(),
                        data@.len() == prior.len(),
                        i <= amt,
                        forall|k: int| 0 <= k < i ==> data@[k] == buf@[k],
                        forall|k: int| i <= k < data@.len() ==> data@[k] == prior[k],
                    decreases amt - i,
                {
                    data[i] = buf[i];
                    i += 1;
                }
                assert(data@ =~= write_into(prior, buf@));
                Ok(amt)
            },
            Err(e) => Err(e),
        }
    }

    /// Whether logical sector `sector` is cached.
    pub fn is_cached(&self, sector: u64) -> (r: bool)
        ensures
            r == self.cached().contains_key(sector),
    {
        self.cache.contains(sector)
    }

    /// Whether logical sector `sector` is cached and was handed out for
    /// writing.
    pub fn is_dirty(&self, sector: u64) -> (r: bool)
        ensures
            r == self.prior_dirty(sector),
    {
        match self.cache.get(sector) {
            Some(entry) => entry.dirty,
            None => false,
        }
    }

    /// Fetching an uncached sector twice in a row reads the device for one
    /// load only: the first fetch makes `factor()` reads, the second none, and
    /// both give the same bytes.
    pub proof fn lemma_fetch_twice_loads_once(
        s0: Self,
        s1: Self,
        s2: Self,
        n: u64,
        d1: Seq<u8>,
        d2: Seq<u8>,
    )
        requires
            !s0.cached().contains_key(n),
            Self::fetched(&s0, &s1, n, d1),
            s1.cached() == s0.cached().insert(n, (d1, s0.prior_dirty(n))),
            Self::fetched(&s1, &s2, n, d2),
        ensures
            d2 == d1,
            s2.device_reads() == s1.device_reads(),
            s2.device_reads().len() == s0.device_reads().len() + s0.spec_factor(),
    {
    }

    /// Bytes written through `get_mut` are what a later `get` of the sector
    /// returns, from the cache and without a device read, whether or not
    /// `get_mut` had to load the sector first; the sector stays dirty.
    pub proof fn lemma_get_after_get_mut(
        s0: Self,
        s1: Self,
        s2: Self,
        n: u64,
        handed_out: Seq<u8>,
        written: Seq<u8>,
        d2: Seq<u8>,
    )
        requires
            Self::fetched(&s0, &s1, n, handed_out),
            s1.cached() == s0.cached().insert(n, (written, true)),
            Self::fetched(&s1, &s2, n, d2),
            s2.cached() == s1.cached().insert(n, (d2, s1.prior_dirty(n))),
        ensures
            d2 == written,
            s2.cached()[n] == (written, true),
            s2.device_reads() == s1.device_reads(),
    {
    }

    /// Writing `w` to sector `n` and then reading `n` into a buffer that can
    /// take the written bytes gives those bytes back, with no device read
    /// after the write. When the sector was not cached and `w` fits in a
    /// logical sector, all of `w` is written.
    pub proof fn lemma_write_then_read(
        s0: Self,
        s1: Self,
        s2: Self,
        n: u64,
        w: Seq<u8>,
        written: nat,
        b: Seq<u8>,
        read: nat,
        b2: Seq<u8>,
    )
        requires
            exists|prior: Seq<u8>|
                Self::fetched(&s0, &s1, n, prior) && s1.cached() == s0.cached().insert(
                    n,
                    (write_into(prior, w), true),
                ) && written == min_len(prior.len(), w.len()),
            s2.cached().contains_key(n),
            Self::fetched(&s1, &s2, n, s2.cached()[n].0),
            s2.cached() == s1.cached().insert(n, (s2.cached()[n].0, s1.prior_dirty(n))),
            read == min_len(s2.cached()[n].0.len(), b.len()),
            b2 == read_into(s2.cached()[n].0, b),
            written <= b.len(),
        ensures
            read >= written,
            b2.subrange(0, written as int) == w.subrange(0, written as int),
            s2.device_reads() == s1.device_reads(),
            !s0.cached().contains_key(n) && w.len() <= s0.geometry().sector_size ==> written
                == w.len(),
    {
        let prior = choose|prior: Seq<u8>|
            Self::fetched(&s0, &s1, n, prior) && s1.cached() == s0.cached().insert(
                n,
                (write_into(prior, w), true),
            ) && written == min_len(prior.len(), w.len());
        let d = write_into(prior, w);
        assert(s1.cached()[n] == (d, true));
        assert(s2.cached()[n].0 == d);
        assert(b2.subrange(0, written as int) =~= w.subrange(0, written as int));
    }
}

impl<D: BlockDevice> BlockDevice for CachedPartition<D> {
    /// The logical sector size of the partition.
    closed spec fn spec_sector_size(&self) -> u64 {
        self.partition.sector_size
    }

    /// The logical sectors read through this partition, in order.
    closed spec fn read_log(&self) -> Seq<SectorRead> {
        self.served@
    }

    /// The logical sectors written through this partition, in order.
    closed spec fn write_log(&self) -> Seq<SectorWrite> {
        self.taken@
    }

    /// The logical sector size of the partition.
    fn sector_size(&self) -> (r: u64)
        ensures
            r == self.geometry().sector_size,
    {
        self.partition.sector_size
    }

    /// Copies the front of the cached logical sector `n` into `buf`, as
    /// `read_cached_sector` does; fails with `InvalidInput` on an unusable
    /// geometry.
    fn read_sector(&mut self, n: u64, buf: &mut [u8]) -> (r: io::Result<usize>)
        ensures
            old(self).wf() ==> Self::read_post(old(self), final(self), n, old(buf)@, final(buf)@, &r),
            !old(self).wf() ==> io::fails_with(&r, io::ErrorKind::InvalidInput) && final(buf)@
                == old(buf)@ && final(self).cached() == old(self).cached(),
    {
        let r = if !check_config(&self.partition, self.device_sector_size) {
            Err(io::Error::new(io::ErrorKind::InvalidInput, "unusable partition geometry"))
        } else {
            self.read_cached_sector(n, buf)
        };
        self.served = Ghost(self.served@.push((n, buf@, r)));
        r
    }

    /// Copies the front of `buf` into the cached logical sector `n`, as
    /// `write_cached_sector` does; fails with `InvalidInput` on an unusable
    /// geometry.
    fn write_sector(&mut self, n: u64, buf: &[u8]) -> (r: io::Result<usize>)
        ensures
            old(self).wf() ==> Self::write_post(old(self), final(self), n, buf@, &r),
            !old(self).wf() ==> io::fails_with(&r, io::ErrorKind::InvalidInput)
                && final(self).cached() == old(self).cached(),
    {
        let r = if !check_config(&self.partition, self.device_sector_size) {
            Err(io::Error::new(io::ErrorKind::InvalidInput, "unusable partition geometry"))
        } else {
            self.write_cached_sector(n, buf)
        };
        let ghost mid = *self;
        self.taken = Ghost(self.taken@.push((n, buf@, r)));
        proof {
            if r is Ok && old(self).wf() {
                let prior = choose|prior: Seq<u8>|
                    Self::fetched(old(self), &mid, n, prior) && mid.cached() == old(
                        self,
                    ).cached().insert(n, (write_into(prior, buf@), true)) && r->Ok_0 == min_len(
                        prior.len(),
                        buf@.len(),
                    );
                assert(Self::fetched(old(self), self, n, prior));
            }
        }
        r
    }
}

/// Caching one more sector of the partition with a logical sector's bytes
/// keeps the cache sound.
pub broadcast proof fn lemma_entries_insert(
    m: SectorEntries,
    n: u64,
    v: (Seq<u8>, bool),
    num: u64,
    size: u64,
)
    requires
        entries_ok(m, num, size),
        n < num,
        v.0.len() == size,
    ensures
        #[trigger] entries_ok(m.insert(n, v), num, size),
{
    assert forall|k: u64| #[trigger] m.insert(n, v).contains_key(k) implies k < num && m.insert(
        n,
        v,
    )[k].0.len() == size by {
        if k != n {
            assert(m.contains_key(k));
        }
    }
}

proof fn lemma_whole_multiple(size: int, phys: int)
    requires
        phys > 0,
        size % phys == 0,
    ensures
        (size / phys) * phys == size,
{
    vstd::arithmetic::div_mod::lemma_fundamental_div_mod(size, phys);
    vstd::arithmetic::mul::lemma_mul_is_commutative(phys, size / phys);
}

proof fn lemma_load_step(
    before: Seq<SectorRead>,
    prev: Seq<SectorRead>,
    first: int,
    i: int,
    len: int,
    data: Seq<u8>,
    rec: SectorRead,
)
    requires
        is_load(before, prev, first, i, len, data),
        0 <= i,
        rec.0 == first + i,
        rec.1.len() == len,
        full_read(rec, len),
    ensures
        is_load(before, prev.push(rec), first, i + 1, len, data + rec.1),
        before.is_prefix_of(prev.push(rec)),
{
    let next = prev.push(rec);
    let old_part = prev.subrange(before.len() as int, prev.len() as int);
    let new_part = next.subrange(before.len() as int, next.len() as int);
    assert(new_part =~= old_part.push(rec));
    assert(new_part.map_values(|e: SectorRead| e.1) =~= old_part.map_values(
        |e: SectorRead| e.1,
    ).push(rec.1));
    old_part.map_values(|e: SectorRead| e.1).lemma_flatten_push(rec.1);
    assert(next.subrange(0, before.len() as int) =~= before);
    assert forall|k: int| 0 <= k < i + 1 implies (#[trigger] next[before.len() + k]).0 == first + k
        && next[before.len() + k].1.len() == len && full_read(next[before.len() + k], len) by {
        if k < i {
            assert(next[before.len() + k] == prev[before.len() + k]);
        }
    }
}

proof fn lemma_failed_step(
    before: Seq<SectorRead>,
    prev: Seq<SectorRead>,
    first: int,
    i: int,
    count: int,
    len: int,
    data: Seq<u8>,
    rec: SectorRead,
    e: io::Error,
)
    requires
        is_load(before, prev, first, i, len, data),
        0 <= i < count,
        rec.0 == first + i,
        rec.1.len() == len,
        rec.2 == Err::<usize, io::Error>(e) || (rec.2 matches Ok(m) && m != len && e.kind
            == io::ErrorKind::UnexpectedEof),
    ensures
        is_failed_load(before, prev.push(rec), first, count, len, e),
        before.is_prefix_of(prev.push(rec)),
{
    let next = prev.push(rec);
    assert(next.subrange(0, before.len() as int) =~= before);
    assert forall|k: int| 0 <= k < i + 1 implies (#[trigger] next[before.len() + k]).0 == first + k
        && next[before.len() + k].1.len() == len by {
        if k < i {
            assert(next[before.len() + k] == prev[before.len() + k]);
        }
    }
    assert forall|k: int| 0 <= k < i implies full_read(#[trigger] next[before.len() + k], len) by {
        assert(next[before.len() + k] == prev[before.len() + k]);
    }
}

proof fn lemma_span_overflows(start: int, count: int, factor: int)
    requires
        0 <= start <= u64::MAX,
        count > 0,
        factor > (u64::MAX - start) / count,
    ensures
        start + count * factor > u64::MAX,
{
    assert(count * factor > u64::MAX - start) by (nonlinear_arith)
        requires
            count > 0,
            factor > (u64::MAX - start) / count,
            0 <= start <= u64::MAX,
    ;
}

proof fn lemma_span_fits(start: int, count: int, factor: int)
    requires
        0 <= start <= u64::MAX,
        count > 0,
        0 <= factor <= (u64::MAX - start) / count,
    ensures
        start + count * factor <= u64::MAX,
{
    assert(count * factor <= u64::MAX - start) by (nonlinear_arith)
        requires
            count > 0,
            0 <= factor <= (u64::MAX - start) / count,
            0 <= start <= u64::MAX,
    ;
}

proof fn lemma_sector_in_span(start: int, count: int, factor: int, n: int)
    requires
        start + count * factor <= u64::MAX,
        0 <= start,
        0 <= n < count,
        0 <= factor,
    ensures
        n * factor <= u64::MAX,
        start + n * factor <= u64::MAX,
        start + n * factor + factor <= u64::MAX,
{
    assert(n * factor + factor <= count * factor) by (nonlinear_arith)
        requires
            0 <= n < count,
            0 <= factor,
    ;
}

} // verus!
