//! The durable tables and memory regions of the engine, backed by
//! `ic_stable_structures`.
//!
//! Each table is an ordered key-to-bytes map bound to its own virtual
//! memory region, so a table's contents survive a full process restart
//! and tables never alias each other's storage.  Verus sees each table
//! through its contents function alone (`byte_table_view`,
//! `block_table_view`); the small wrappers below state, over those
//! contents, what the backing crate's operations do.  A raw region's
//! bytes are deliberately not modelled: what is read back from one is
//! validated by the decoders in `codec` before anything depends on it.

use vstd::prelude::*;

verus! {

/// A virtual memory region handed out by a [`RegionPool`].
#[verifier::external_body]
pub struct Region {
    mem: ic_stable_structures::memory_manager::VirtualMemory<
        ic_stable_structures::DefaultMemoryImpl,
    >,
}

/// A manager that carves one backing memory into up to 255 disjoint
/// regions, addressed by stable small-integer identifiers.
#[verifier::external_body]
pub struct RegionPool {
    mgr: ic_stable_structures::memory_manager::MemoryManager<
        ic_stable_structures::DefaultMemoryImpl,
    >,
}

/// An ordered durable table from `u128` keys to byte strings.
#[verifier::external_body]
pub struct ByteTable {
    map: ic_stable_structures::BTreeMap<
        u128,
        Vec<u8>,
        ic_stable_structures::memory_manager::VirtualMemory<
            ic_stable_structures::DefaultMemoryImpl,
        >,
    >,
}

/// An ordered durable table from `(asset id, block index)` keys to byte
/// strings.
#[verifier::external_body]
pub struct BlockTable {
    map: ic_stable_structures::BTreeMap<
        (u128, u32),
        Vec<u8>,
        ic_stable_structures::memory_manager::VirtualMemory<
            ic_stable_structures::DefaultMemoryImpl,
        >,
    >,
}

/// What a [`ByteTable`] holds.
pub uninterp spec fn byte_table_view(t: ByteTable) -> Map<u128, Seq<u8>>;

/// What a [`BlockTable`] holds.
pub uninterp spec fn block_table_view(t: BlockTable) -> Map<(u128, u32), Seq<u8>>;

impl View for ByteTable {
    type V = Map<u128, Seq<u8>>;

    open spec fn view(&self) -> Map<u128, Seq<u8>> {
        byte_table_view(*self)
    }
}

impl View for BlockTable {
    type V = Map<(u128, u32), Seq<u8>>;

    open spec fn view(&self) -> Map<(u128, u32), Seq<u8>> {
        block_table_view(*self)
    }
}

impl RegionPool {
    /// Relies on `MemoryManager::init`: sets a manager up over a fresh
    /// default backing memory.
    #[verifier::external_body]
    pub fn new() -> RegionPool {
        RegionPool {
            mgr: ic_stable_structures::memory_manager::MemoryManager::init(
                ic_stable_structures::DefaultMemoryImpl::default(),
            ),
        }
    }

    /// Relies on `MemoryManager::get`: hands out the virtual region with
    /// the given identifier; the same identifier always reaches the same
    /// storage, and distinct identifiers never alias.  The contents
    /// functions describe one live table per region: never hold two
    /// tables over the same region at once.
    #[verifier::external_body]
    pub fn region(&self, id: u8) -> Region
        requires
            id < 255,
    {
        Region {
            mem: self.mgr.get(ic_stable_structures::memory_manager::MemoryId::new(id)),
        }
    }
}

impl Region {
    /// Relies on `Memory::size`: the region's current size, in 64 KiB
    /// pages of the backing memory; a machine-state reading, so nothing
    /// more is promised of it.
    #[verifier::external_body]
    pub fn size(&self) -> u64 {
        ic_stable_structures::Memory::size(&self.mem)
    }

    /// Relies on `Writer::write`: writes the bytes at the offset, growing
    /// the region first; reports whether growing sufficed.
    #[verifier::external_body]
    pub fn write(&mut self, offset: u64, data: &[u8]) -> bool {
        let mut writer = ic_stable_structures::writer::Writer::new(&mut self.mem, offset);
        writer.write(data).is_ok()
    }

    /// Relies on `Reader::read` (through `io::Read::read_exact`): yields
    /// exactly `len` bytes starting at the offset, or nothing where the
    /// region does not reach that far.
    #[verifier::external_body]
    pub fn read(&self, offset: u64, len: usize) -> (r: Option<Vec<u8>>)
        ensures
            r is Some ==> r.unwrap()@.len() == len,
    {
        let mut buf = vec![0u8; len];
        let mut reader = ic_stable_structures::reader::Reader::new(&self.mem, offset);
        match std::io::Read::read_exact(&mut reader, &mut buf) {
            Ok(()) => Some(buf),
            Err(_) => None,
        }
    }
}

impl ByteTable {
    /// Relies on `BTreeMap::new`: creates an empty table in the region,
    /// discarding whatever the region held.
    #[verifier::external_body]
    pub(crate) fn new(region: Region) -> (r: ByteTable)
        ensures
            forall|k: u128| !byte_table_view(r).contains_key(k),
    {
        ByteTable { map: ic_stable_structures::BTreeMap::new(region.mem) }
    }

    /// Relies on `BTreeMap::init`: reattaches to the table the region
    /// already holds, or creates an empty one; the contents are whatever
    /// was persisted, so nothing is promised of them.
    #[verifier::external_body]
    pub(crate) fn init(region: Region) -> ByteTable {
        ByteTable { map: ic_stable_structures::BTreeMap::init(region.mem) }
    }

    /// Relies on `BTreeMap::get`: yields the value stored under the key,
    /// if any.
    #[verifier::external_body]
    pub(crate) fn get(&self, key: u128) -> (r: Option<Vec<u8>>)
        ensures
            match r {
                Some(v) => byte_table_view(*self).contains_key(key) && v@ == byte_table_view(
                    *self,
                )[key],
                None => !byte_table_view(*self).contains_key(key),
            },
    {
        self.map.get(&key)
    }

    /// Relies on `BTreeMap::contains_key`.
    #[verifier::external_body]
    pub(crate) fn contains_key(&self, key: u128) -> (r: bool)
        ensures
            r == byte_table_view(*self).contains_key(key),
    {
        self.map.contains_key(&key)
    }

    /// Relies on `BTreeMap::insert`: binds the key to the value, leaving
    /// every other binding as it was.
    #[verifier::external_body]
    pub(crate) fn insert(&mut self, key: u128, value: Vec<u8>)
        ensures
            byte_table_view(*final(self)) == byte_table_view(*old(self)).insert(key, value@),
    {
        self.map.insert(key, value);
    }

    /// Relies on `BTreeMap::remove`: unbinds the key, leaving every other
    /// binding as it was.
    #[verifier::external_body]
    pub(crate) fn remove(&mut self, key: u128)
        ensures
            byte_table_view(*final(self)) == byte_table_view(*old(self)).remove(key),
    {
        self.map.remove(&key);
    }

    /// Relies on `BTreeMap::iter`: lists every entry once, in strictly
    /// ascending key order.
    #[verifier::external_body]
    pub(crate) fn entries(&self) -> (r: Vec<(u128, Vec<u8>)>)
        ensures
            r@.len() == byte_table_view(*self).dom().len(),
            forall|i: int|
                0 <= i < r@.len() ==> byte_table_view(*self).contains_key(#[trigger] r@[i].0)
                    && r@[i].1@ == byte_table_view(*self)[r@[i].0],
            forall|i: int, j: int| 0 <= i < j < r@.len() ==> r@[i].0 < r@[j].0,
            forall|k: u128|
                byte_table_view(*self).contains_key(k) ==> exists|i: int|
                    0 <= i < r@.len() && #[trigger] r@[i].0 == k,
    {
        self.map.iter().map(|e| e.into_pair()).collect()
    }
}

impl BlockTable {
    /// Relies on `BTreeMap::new`: creates an empty table in the region,
    /// discarding whatever the region held.
    #[verifier::external_body]
    pub(crate) fn new(region: Region) -> (r: BlockTable)
        ensures
            forall|k: (u128, u32)| !block_table_view(r).contains_key(k),
    {
        BlockTable { map: ic_stable_structures::BTreeMap::new(region.mem) }
    }

    /// Relies on `BTreeMap::init`: reattaches to the table the region
    /// already holds, or creates an empty one; the contents are whatever
    /// was persisted, so nothing is promised of them.
    #[verifier::external_body]
    pub(crate) fn init(region: Region) -> BlockTable {
        BlockTable { map: ic_stable_structures::BTreeMap::init(region.mem) }
    }

    /// Relies on `BTreeMap::get`: yields the value stored under the key,
    /// if any.
    #[verifier::external_body]
    pub(crate) fn get(&self, key: (u128, u32)) -> (r: Option<Vec<u8>>)
        ensures
            match r {
                Some(v) => block_table_view(*self).contains_key(key) && v@ == block_table_view(
                    *self,
                )[key],
                None => !block_table_view(*self).contains_key(key),
            },
    {
        self.map.get(&key)
    }

    /// Relies on `BTreeMap::insert`: binds the key to the value, leaving
    /// every other binding as it was.
    #[verifier::external_body]
    pub(crate) fn insert(&mut self, key: (u128, u32), value: Vec<u8>)
        ensures
            block_table_view(*final(self)) == block_table_view(*old(self)).insert(key, value@),
    {
        self.map.insert(key, value);
    }

    /// Relies on `BTreeMap::remove`: unbinds the key, leaving every other
    /// binding as it was.
    #[verifier::external_body]
    pub(crate) fn remove(&mut self, key: (u128, u32))
        ensures
            block_table_view(*final(self)) == block_table_view(*old(self)).remove(key),
    {
        self.map.remove(&key);
    }

    /// Relies on `BTreeMap::iter`: lists every entry once, in strictly
    /// ascending key order (pairs ordered lexicographically).
    #[verifier::external_body]
    pub(crate) fn entries(&self) -> (r: Vec<((u128, u32), Vec<u8>)>)
        ensures
            r@.len() == block_table_view(*self).dom().len(),
            forall|i: int|
                0 <= i < r@.len() ==> block_table_view(*self).contains_key(#[trigger] r@[i].0)
                    && r@[i].1@ == block_table_view(*self)[r@[i].0],
            forall|i: int, j: int|
                0 <= i < j < r@.len() ==> (r@[i].0.0 < r@[j].0.0 || (r@[i].0.0 == r@[j].0.0
                    && r@[i].0.1 < r@[j].0.1)),
            forall|k: (u128, u32)|
                block_table_view(*self).contains_key(k) ==> exists|i: int|
                    0 <= i < r@.len() && #[trigger] r@[i].0 == k,
    {
        self.map.iter().map(|e| e.into_pair()).collect()
    }
}

/// The reserved region for the serialized metadata blob.
pub const UPGRADES: u8 = 0;

/// The region backing the chunk table.
pub const STABLE_CHUNK_BTREE: u8 = 1;

/// The region backing the asset table.
pub const STABLE_ASSET_BTREE: u8 = 2;

/// The region backing the content-block table.
pub const STABLE_CONTENT_BTREE: u8 = 3;

/// The region the metadata blob is written into around a restart.
pub fn get_upgrades_memory(pool: &RegionPool) -> Region {
    pool.region(UPGRADES)
}

/// The region backing the chunk table.
pub fn get_chunk_stable_btree_memory(pool: &RegionPool) -> Region {
    pool.region(STABLE_CHUNK_BTREE)
}

/// The region backing the asset table.
pub fn get_asset_stable_btree_memory(pool: &RegionPool) -> Region {
    pool.region(STABLE_ASSET_BTREE)
}

/// The region backing the content-block table.
pub fn get_content_stable_btree_memory(pool: &RegionPool) -> Region {
    pool.region(STABLE_CONTENT_BTREE)
}

/// The current size of the chunk table's region, in pages.
pub fn chunk_memory_size(pool: &RegionPool) -> u64 {
    get_chunk_stable_btree_memory(pool).size()
}

/// The current size of the asset table's region, in pages.
pub fn asset_memory_size(pool: &RegionPool) -> u64 {
    get_asset_stable_btree_memory(pool).size()
}

/// Reattaches to the chunk table persisted in its region.  At most one
/// table may live over each region at a time; reattach only after the
/// previous table over the region is gone.
pub fn init_chunk_stable_data(pool: &RegionPool) -> ByteTable {
    ByteTable::init(get_chunk_stable_btree_memory(pool))
}

/// Reattaches to the asset table persisted in its region; at most one
/// table may live over the region at a time.
pub fn init_asset_stable_data(pool: &RegionPool) -> ByteTable {
    ByteTable::init(get_asset_stable_btree_memory(pool))
}

/// Reattaches to the content-block table persisted in its region; at
/// most one table may live over the region at a time.
pub fn init_content_stable_data(pool: &RegionPool) -> BlockTable {
    BlockTable::init(get_content_stable_btree_memory(pool))
}

} // verus!
