//! One mounted volume of the record-based filesystem: its geometry, where
//! the records of the master file table lie, and the cache of loaded
//! records, whose entries are shared cells.
use vstd::prelude::*;
use crate::grc::AtomicCounter;
use crate::grc::Grc;
use crate::grc::GrcHeap;
use crate::vfs::Error;

verus! {

/// The smallest buffer that a record is cached in.
pub const MIN_RECORD_BUFFER: usize = 32;

/// The largest record that can be cached.
pub const MAX_RECORD_SIZE: usize = 2048;

/// A cached record: a count of its users, and the record's bytes.
pub struct MftCacheEnt<T> {
    pub count: usize,
    pub inner: T,
}

impl<T> MftCacheEnt<T> {
    /// An entry without users.
    pub fn new(inner: T) -> (entry: MftCacheEnt<T>)
        ensures
            entry.count == 0,
            entry.inner == inner,
    {
        MftCacheEnt { count: 0, inner }
    }
}

/// A handle of a cached record.
pub type CachedMft = Grc<AtomicCounter, MftCacheEnt<Vec<u8>>>;

/// The heap of the cached records.
pub type MftHeap = GrcHeap<AtomicCounter, MftCacheEnt<Vec<u8>>>;

/// The size of the buffer for a record of `mft_size` bytes: the smallest
/// power of two that holds the record, and at least `MIN_RECORD_BUFFER`.
pub open spec fn buffer_size(mft_size: nat) -> nat
    recommends
        mft_size <= MAX_RECORD_SIZE,
{
    if mft_size <= 32 {
        32
    } else if mft_size <= 64 {
        64
    } else if mft_size <= 128 {
        128
    } else if mft_size <= 256 {
        256
    } else if mft_size <= 512 {
        512
    } else if mft_size <= 1024 {
        1024
    } else {
        2048
    }
}

/// A new cache entry for a record of `mft_size` bytes: a buffer of zeroes of
/// the size that `buffer_size` gives, in a cell of its own. `None` if the
/// record is larger than `MAX_RECORD_SIZE`.
pub fn new_mft_cache_ent(heap: &mut MftHeap, mft_size: usize) -> (entry: Option<CachedMft>)
    requires
        old(heap).wf(),
    ensures
        final(heap).wf(),
        entry is Some <==> mft_size <= MAX_RECORD_SIZE,
        entry is None ==> *final(heap) == *old(heap),
        entry matches Some(handle) ==> {
            &&& handle.slot() == old(heap).slots()
            &&& final(heap).slots() == old(heap).slots() + 1
            &&& old(heap).same_but(final(heap), handle.slot())
            &&& final(heap).live(handle.slot())
            &&& final(heap).count(handle.slot()) == 1
            &&& final(heap).value(handle.slot()).count == 0
            &&& final(heap).value(handle.slot()).inner@ == Seq::new(
                buffer_size(mft_size as nat),
                |i: int| 0u8,
            )
        },
{
    if mft_size > MAX_RECORD_SIZE {
        return None;
    }
    let mut size: usize = MIN_RECORD_BUFFER;
    while size < mft_size
        invariant
            mft_size <= MAX_RECORD_SIZE,
            size == 32 || size == 64 || size == 128 || size == 256 || size == 512 || size == 1024
                || size == 2048,
            size == 32 || size / 2 < mft_size,
        decreases MAX_RECORD_SIZE - size,
    {
        size = size * 2;
    }
    let mut buffer: Vec<u8> = Vec::new();
    let mut i: usize = 0;
    while i < size
        invariant
            i <= size,
            buffer@ == Seq::new(i as nat, |k: int| 0u8),
        decreases size - i,
    {
        buffer.push(0);
        i = i + 1;
    }
    Some(Grc::new(heap, MftCacheEnt::new(buffer)))
}

/// One entry of the record cache: the number of the record and a handle of
/// its cell.
pub struct CacheSlot {
    pub index: u32,
    pub entry: CachedMft,
}

/// Where the bytes of a record are read from.
pub enum MftRead {
    /// From the table's own data attribute, at this byte offset.
    Attribute { offset: u64 },
    /// Whole blocks of the volume, from this block on.
    Blocks { block: u64 },
    /// A part of one block of the volume, from this byte offset on.
    Inner { block: u64, skip: usize },
}

/// A mounted volume.
pub struct Instance {
    pub block_size: usize,
    pub cluster_size_blocks: usize,
    pub mft_record_size: usize,
    pub mft_start: u64,
    pub mft_data_attr: bool,
    pub mft_cache: Vec<CacheSlot>,
    pub records: MftHeap,
}

/// The place of record `index` in the cache, if it is there.
pub open spec fn cached_at(cache: Seq<CacheSlot>, index: u32) -> Option<int> {
    if exists|i: int| 0 <= i < cache.len() && (#[trigger] cache[i]).index == index {
        Some(choose|i: int| 0 <= i < cache.len() && (#[trigger] cache[i]).index == index)
    } else {
        None
    }
}

/// The geometry is one that a volume can be mounted with: a cluster is a
/// whole number of blocks, and a record fits a cache buffer.
pub open spec fn mountable(
    block_size: usize,
    bytes_per_sector: u16,
    sectors_per_cluster: u8,
    mft_record_size: usize,
) -> bool {
    (bytes_per_sector * sectors_per_cluster) % (block_size as int) == 0 && mft_record_size
        <= MAX_RECORD_SIZE
}

/// Where record `entry_idx` is read from.
pub open spec fn record_location(inst: Instance, entry_idx: u32) -> MftRead {
    if inst.mft_data_attr {
        MftRead::Attribute { offset: (entry_idx * inst.mft_record_size) as u64 }
    } else if inst.mft_record_size > inst.block_size {
        MftRead::Blocks {
            block: (inst.mft_start * inst.cluster_size_blocks + entry_idx * (inst.mft_record_size
                / inst.block_size)) as u64,
        }
    } else {
        MftRead::Inner {
            block: (inst.mft_start * inst.cluster_size_blocks + entry_idx / ((inst.block_size
                / inst.mft_record_size) as u32)) as u64,
            skip: ((entry_idx % ((inst.block_size / inst.mft_record_size) as u32))
                * inst.mft_record_size) as usize,
        }
    }
}

impl Instance {
    /// The volume is in order: its sizes are not zero, no record is cached
    /// twice, and every cached record is alive.
    pub open spec fn wf(&self) -> bool {
        &&& self.block_size > 0
        &&& self.mft_record_size <= MAX_RECORD_SIZE
        &&& self.records.wf()
        &&& forall|i: int, j: int|
            0 <= i < j < self.mft_cache@.len() ==> (#[trigger] self.mft_cache@[i]).index != (
            #[trigger] self.mft_cache@[j]).index
        &&& forall|i: int|
            0 <= i < self.mft_cache@.len() ==> self.records.live(
                (#[trigger] self.mft_cache@[i]).entry.slot(),
            )
    }

    /// Mounts a volume of this geometry, or refuses it as inconsistent. The
    /// cache is empty, and the table's data attribute is not known yet.
    pub fn new(
        block_size: usize,
        bytes_per_sector: u16,
        sectors_per_cluster: u8,
        mft_record_size: usize,
        mft_start: u64,
    ) -> (mounted: Result<Instance, Error>)
        requires
            block_size > 0,
        ensures
            mounted is Ok <==> mountable(
                block_size,
                bytes_per_sector,
                sectors_per_cluster,
                mft_record_size,
            ),
            mounted matches Err(e) ==> e is InconsistentFilesystem,
            mounted matches Ok(inst) ==> {
                &&& inst.wf()
                &&& inst.block_size == block_size
                &&& inst.cluster_size_blocks == (bytes_per_sector * sectors_per_cluster) / (
                block_size as int)
                &&& inst.mft_record_size == mft_record_size
                &&& inst.mft_start == mft_start
                &&& !inst.mft_data_attr
                &&& inst.mft_cache@.len() == 0
                &&& inst.records.slots() == 0
            },
    {
        assert(bytes_per_sector * sectors_per_cluster <= 0xFFFF * 0xFF) by (nonlinear_arith)
            requires
                bytes_per_sector <= 0xFFFF,
                sectors_per_cluster <= 0xFF,
        ;
        let cluster_size_bytes: usize = bytes_per_sector as usize * sectors_per_cluster as usize;
        let cluster_size_blocks = cluster_size_bytes / block_size;
        if cluster_size_bytes % block_size != 0 {
            return Err(Error::InconsistentFilesystem);
        }
        if mft_record_size > MAX_RECORD_SIZE {
            return Err(Error::InconsistentFilesystem);
        }
        Ok(
            Instance {
                block_size,
                cluster_size_blocks,
                mft_record_size,
                mft_start,
                mft_data_attr: false,
                mft_cache: Vec::new(),
                records: GrcHeap::new(),
            },
        )
    }

    /// The cached record `entry`, if there is one, can take one more
    /// handle.
    pub open spec fn shareable(&self, entry: u32) -> bool {
        cached_at(self.mft_cache@, entry) matches Some(at) ==> self.records.count(
            self.mft_cache@[at].entry.slot(),
        ) != usize::MAX
    }

    /// `loaded` can be put into the cache as record `entry`: it is the only
    /// handle of a cell that the cache does not hold yet, and the cached
    /// record `entry`, if there is one, can take one more handle.
    pub open spec fn cacheable(&self, entry: u32, loaded: CachedMft) -> bool {
        &&& self.records.live(loaded.slot())
        &&& self.records.count(loaded.slot()) == 1
        &&& self.shareable(entry)
        &&& forall|i: int|
            0 <= i < self.mft_cache@.len() ==> (#[trigger] self.mft_cache@[i]).entry.slot()
                != loaded.slot()
    }

    /// Whether `get_mft_entry` may be called for record `entry`.
    pub fn can_share(&self, entry: u32) -> (ok: bool)
        requires
            self.wf(),
        ensures
            ok == self.shareable(entry),
    {
        let mut i: usize = 0;
        while i < self.mft_cache.len()
            invariant
                i <= self.mft_cache@.len(),
                self.wf(),
                forall|k: int| 0 <= k < i ==> (#[trigger] self.mft_cache@[k]).index != entry,
            decreases self.mft_cache@.len() - i,
        {
            if self.mft_cache[i].index == entry {
                proof {
                    self.lemma_cached_at(entry, i as int);
                }
                return self.records.can_clone(&self.mft_cache[i].entry);
            }
            i = i + 1;
        }
        true
    }

    /// Whether `cache_mft_entry` may be called with `loaded` for record
    /// `entry`.
    pub fn can_cache(&self, entry: u32, loaded: &CachedMft) -> (ok: bool)
        requires
            self.wf(),
        ensures
            ok == self.cacheable(entry, *loaded),
    {
        if !self.records.holds(loaded) {
            return false;
        }
        if !self.records.is_unique(loaded) {
            return false;
        }
        if !self.can_share(entry) {
            return false;
        }
        let mut i: usize = 0;
        while i < self.mft_cache.len()
            invariant
                i <= self.mft_cache@.len(),
                forall|k: int|
                    0 <= k < i ==> (#[trigger] self.mft_cache@[k]).entry.slot() != loaded.slot(),
            decreases self.mft_cache@.len() - i,
        {
            if self.mft_cache[i].entry.is_same(loaded) {
                return false;
            }
            i = i + 1;
        }
        true
    }

    /// The place of a cached record is the one place where its number
    /// stands.
    proof fn lemma_cached_at(&self, entry: u32, i: int)
        requires
            self.wf(),
            0 <= i < self.mft_cache@.len(),
            self.mft_cache@[i].index == entry,
        ensures
            cached_at(self.mft_cache@, entry) == Some(i),
    {
        let at = cached_at(self.mft_cache@, entry);
        assert(at is Some);
        if at->0 < i {
            assert(self.mft_cache@[at->0].index != self.mft_cache@[i].index);
        } else if at->0 > i {
            assert(self.mft_cache@[i].index != self.mft_cache@[at->0].index);
        }
    }

    /// Looks record `entry` up in the cache. A hit gives a new handle of
    /// the cached record's cell; a miss changes nothing, and the caller
    /// loads the record and hands it to `cache_mft_entry`.
    pub fn get_mft_entry(&mut self, entry: u32) -> (found: Option<CachedMft>)
        requires
            old(self).wf(),
            old(self).shareable(entry),
        ensures
            final(self).wf(),
            found is Some <==> cached_at(old(self).mft_cache@, entry) is Some,
            found is None ==> *final(self) == *old(self),
            found matches Some(handle) ==> {
                &&& handle == old(self).mft_cache@[cached_at(old(self).mft_cache@, entry)->0].entry
                &&& final(self).mft_cache@ == old(self).mft_cache@
                &&& old(self).records.same_but(&final(self).records, handle.slot())
                &&& final(self).records.count(handle.slot()) == old(self).records.count(
                    handle.slot(),
                ) + 1
                &&& final(self).records.value(handle.slot()) == old(self).records.value(
                    handle.slot(),
                )
            },
    {
        let mut i: usize = 0;
        while i < self.mft_cache.len()
            invariant
                i <= self.mft_cache@.len(),
                *self == *old(self),
                old(self).wf(),
                old(self).shareable(entry),
                forall|k: int| 0 <= k < i ==> (#[trigger] self.mft_cache@[k]).index != entry,
            decreases self.mft_cache@.len() - i,
        {
            if self.mft_cache[i].index == entry {
                proof {
                    old(self).lemma_cached_at(entry, i as int);
                }
                let handle = self.mft_cache[i].entry.clone(&mut self.records);
                proof {
                    assert forall|k: int| 0 <= k < self.mft_cache@.len() implies self.records.live(
                        (#[trigger] self.mft_cache@[k]).entry.slot(),
                    ) by {
                        assert(old(self).records.live(old(self).mft_cache@[k].entry.slot()));
                    }
                }
                return Some(handle);
            }
            i = i + 1;
        }
        proof {
            if cached_at(old(self).mft_cache@, entry) is Some {
                let at = cached_at(old(self).mft_cache@, entry)->0;
                assert(old(self).mft_cache@[at].index == entry);
            }
        }
        None
    }

    /// Puts a record that was loaded after a miss into the cache, and gives
    /// a handle of the cached record. If the record has come into the cache
    /// in the meantime, the cached one stays: the loaded one is given up,
    /// and its buffer is returned to be destroyed.
    pub fn cache_mft_entry(&mut self, entry: u32, loaded: CachedMft) -> (cached: (
        CachedMft,
        Option<MftCacheEnt<Vec<u8>>>,
    ))
        requires
            old(self).wf(),
            old(self).cacheable(entry, loaded),
        ensures
            final(self).wf(),
            match cached_at(old(self).mft_cache@, entry) {
                Some(at) => {
                    &&& cached.0 == old(self).mft_cache@[at].entry
                    &&& cached.1 == Some(old(self).records.value(loaded.slot()))
                    &&& final(self).mft_cache@ == old(self).mft_cache@
                    &&& !final(self).records.live(loaded.slot())
                    &&& final(self).records.count(cached.0.slot()) == old(self).records.count(
                        cached.0.slot(),
                    ) + 1
                    &&& final(self).records.value(cached.0.slot()) == old(self).records.value(
                        cached.0.slot(),
                    )
                },
                None => {
                    &&& cached.0 == loaded
                    &&& cached.1 is None
                    &&& final(self).mft_cache@ == old(self).mft_cache@.push(
                        CacheSlot { index: entry, entry: loaded },
                    )
                    &&& final(self).records.count(loaded.slot()) == 2
                    &&& final(self).records.value(loaded.slot()) == old(self).records.value(
                        loaded.slot(),
                    )
                    &&& old(self).records.same_but(&final(self).records, loaded.slot())
                },
            },
    {
        let ghost before = *self;
        match self.get_mft_entry(entry) {
            Some(existing) => {
                let ghost mid = *self;
                proof {
                    let at = cached_at(before.mft_cache@, entry)->0;
                    assert(existing == before.mft_cache@[at].entry);
                    assert(existing.slot() != loaded.slot());
                    assert(mid.records.live(loaded.slot()));
                    assert(mid.records.count(loaded.slot()) == 1);
                    assert(mid.records.value(loaded.slot()) == before.records.value(loaded.slot()));
                }
                let buffer = loaded.drop(&mut self.records);
                proof {
                    assert forall|i: int| 0 <= i < self.mft_cache@.len() implies self.records.live(
                        (#[trigger] self.mft_cache@[i]).entry.slot(),
                    ) by {
                        assert(mid.records.live(mid.mft_cache@[i].entry.slot()));
                        assert(mid.mft_cache@[i].entry.slot() != loaded.slot());
                    }
                }
                (existing, buffer)
            },
            None => {
                let shared = loaded.clone(&mut self.records);
                self.mft_cache.push(CacheSlot { index: entry, entry: loaded });
                proof {
                    assert forall|i: int, j: int|
                        0 <= i < j < self.mft_cache@.len() implies (#[trigger] self.mft_cache@[i]).index
                        != (#[trigger] self.mft_cache@[j]).index by {
                        if j == before.mft_cache@.len() {
                            assert(before.mft_cache@[i].index != entry);
                        } else {
                            assert(before.mft_cache@[i].index != before.mft_cache@[j].index);
                        }
                    }
                    assert forall|i: int| 0 <= i < self.mft_cache@.len() implies self.records.live(
                        (#[trigger] self.mft_cache@[i]).entry.slot(),
                    ) by {
                        if i < before.mft_cache@.len() {
                            assert(before.records.live(before.mft_cache@[i].entry.slot()));
                        }
                    }
                }
                (shared, None)
            },
        }
    }

    /// Where record `entry_idx` is read from: the table's own data attribute
    /// if that is known, else the volume, from the block in which the table
    /// starts.
    pub fn load_mft_entry(&self, entry_idx: u32) -> (read: MftRead)
        requires
            self.wf(),
            locatable(*self, entry_idx),
        ensures
            read == record_location(*self, entry_idx),
    {
        if self.mft_data_attr {
            assert(entry_idx * self.mft_record_size <= 0xFFFF_FFFF * 2048) by (nonlinear_arith)
                requires
                    entry_idx <= 0xFFFF_FFFF,
                    self.mft_record_size <= 2048,
            ;
            MftRead::Attribute { offset: entry_idx as u64 * self.mft_record_size as u64 }
        } else {
            let base = self.mft_start * self.cluster_size_blocks as u64;
            if self.mft_record_size > self.block_size {
                let blocks_per_entry = self.mft_record_size / self.block_size;
                MftRead::Blocks { block: base + (entry_idx as usize * blocks_per_entry) as u64 }
            } else {
                assert(self.block_size / self.mft_record_size >= 1) by (nonlinear_arith)
                    requires
                        self.block_size >= self.mft_record_size,
                        self.mft_record_size > 0,
                ;
                let entries_per_block = (self.block_size / self.mft_record_size) as u32;
                let rest = entry_idx % entries_per_block;
                assert(rest * self.mft_record_size <= self.block_size) by (nonlinear_arith)
                    requires
                        rest < self.block_size / self.mft_record_size,
                        self.mft_record_size > 0,
                ;
                MftRead::Inner {
                    block: base + (entry_idx / entries_per_block) as u64,
                    skip: rest as usize * self.mft_record_size,
                }
            }
        }
    }
}

impl Instance {
    /// Whether record `entry_idx` can be located: `load_mft_entry` must not
    /// be called where this is false.
    pub fn can_locate(&self, entry_idx: u32) -> (ok: bool)
        requires
            self.wf(),
        ensures
            ok == locatable(*self, entry_idx),
    {
        if self.mft_data_attr {
            return true;
        }
        let base = match self.mft_start.checked_mul(self.cluster_size_blocks as u64) {
            Some(base) => base,
            None => {
                return false;
            },
        };
        if self.mft_record_size > self.block_size {
            let blocks_per_entry = self.mft_record_size / self.block_size;
            match (entry_idx as usize).checked_mul(blocks_per_entry) {
                Some(blocks) => base.checked_add(blocks as u64).is_some(),
                None => false,
            }
        } else {
            if self.mft_record_size == 0 {
                return false;
            }
            let entries_per_block = self.block_size / self.mft_record_size;
            if entries_per_block > u32::MAX as usize {
                return false;
            }
            assert(entries_per_block >= 1) by (nonlinear_arith)
                requires
                    entries_per_block == self.block_size / self.mft_record_size,
                    self.block_size >= self.mft_record_size,
                    self.mft_record_size > 0,
            ;
            base.checked_add((entry_idx / entries_per_block as u32) as u64).is_some()
        }
    }
}

/// The numbers that locate record `entry_idx` fit their types: no record
/// size of zero where records share a block, and no block number beyond 64
/// bits.
pub open spec fn locatable(inst: Instance, entry_idx: u32) -> bool {
    inst.mft_data_attr || {
        &&& inst.mft_start * inst.cluster_size_blocks <= u64::MAX
        &&& if inst.mft_record_size > inst.block_size {
            &&& entry_idx * (inst.mft_record_size / inst.block_size) <= usize::MAX
            &&& inst.mft_start * inst.cluster_size_blocks + entry_idx * (inst.mft_record_size
                / inst.block_size) <= u64::MAX
        } else {
            &&& inst.mft_record_size > 0
            &&& inst.block_size / inst.mft_record_size <= u32::MAX
            &&& inst.mft_start * inst.cluster_size_blocks + entry_idx / ((inst.block_size
                / inst.mft_record_size) as u32) <= u64::MAX
        }
    }
}

/// What a record says of one of its attributes: the type and the name.
pub struct AttrInfo {
    pub ty: u32,
    pub name: String,
}

/// The attribute has this type and this name.
pub open spec fn attr_matches(attr: AttrInfo, ty: u32, name: Seq<char>) -> bool {
    attr.ty == ty && attr.name@ == name
}

/// The number of attributes among the first `n` that have the type and the
/// name.
pub open spec fn matches_before(attrs: Seq<AttrInfo>, ty: u32, name: Seq<char>, n: int) -> nat
    decreases n,
{
    if n <= 0 {
        0
    } else {
        matches_before(attrs, ty, name, n - 1) + if attr_matches(attrs[n - 1], ty, name) {
            1nat
        } else {
            0nat
        }
    }
}

impl Instance {
    /// The place, among the attributes of a record, of the one that has the
    /// type `attr_id` and the name `name` with `index` such attributes
    /// before it; `None` if the record has no more than `index` of them.
    pub fn get_attr(
        &self,
        attrs: &Vec<AttrInfo>,
        attr_id: u32,
        name: &String,
        index: usize,
    ) -> (found: Option<usize>)
        ensures
            found matches Some(at) ==> {
                &&& at < attrs@.len()
                &&& attr_matches(attrs@[at as int], attr_id, name@)
                &&& matches_before(attrs@, attr_id, name@, at as int) == index
            },
            found is None <==> matches_before(attrs@, attr_id, name@, attrs@.len() as int)
                <= index,
    {
        let mut count: usize = 0;
        let mut i: usize = 0;
        while i < attrs.len()
            invariant
                i <= attrs@.len(),
                count <= i,
                count == matches_before(attrs@, attr_id, name@, i as int),
                count <= index,
            decreases attrs@.len() - i,
        {
            if attrs[i].ty == attr_id && attrs[i].name == *name {
                if count == index {
                    proof {
                        lemma_matches_grow(attrs@, attr_id, name@, i + 1, attrs@.len() as int);
                    }
                    return Some(i);
                }
                count = count + 1;
            }
            i = i + 1;
        }
        None
    }
}

/// The count of matches does not go down as more attributes are taken in.
proof fn lemma_matches_grow(attrs: Seq<AttrInfo>, ty: u32, name: Seq<char>, n: int, m: int)
    requires
        n <= m,
    ensures
        matches_before(attrs, ty, name, n) <= matches_before(attrs, ty, name, m),
    decreases m - n,
{
    if n < m {
        lemma_matches_grow(attrs, ty, name, n, m - 1);
    }
}

} // verus!
