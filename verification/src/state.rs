//! The storage engine's state: the two counters, the chunk table, the
//! asset table and the content-block table, with the operations a caller
//! reaches.
//!
//! Every operation receives the environment's contributions — the
//! caller's identity and the current time — as plain values.

use vstd::prelude::*;
use crate::codec::{parse_chunk, parse_asset, chunk_bytes, PRINCIPAL_MAX_BYTES,
    CONTENT_MAX_BYTES};
use crate::crc::{crc32, crc32_of};
use crate::stable::{ByteTable, BlockTable, RegionPool, byte_table_view, block_table_view,
    get_chunk_stable_btree_memory, get_asset_stable_btree_memory, get_content_stable_btree_memory};
use crate::types::{Asset, AssetView, AssetQuery, Chunk, ChunkView, ChunkArg, ErrorKind,
    Principal};

verus! {

/// The capacity ceiling an instance reports against, in bytes (40 GiB).
pub const CAPACITY_CEILING_BYTES: u64 = 40 * 1024 * 1024 * 1024;

/// Whether a reported storage consumption is at or above the fixed
/// capacity ceiling.
pub fn is_full(memory_size_bytes: u64) -> (r: bool)
    ensures
        r == (memory_size_bytes >= CAPACITY_CEILING_BYTES),
{
    memory_size_bytes >= CAPACITY_CEILING_BYTES
}

impl Chunk {
    /// Builds the stored record of a fresh upload: checksums the content
    /// and stamps the owner, the identifier and the time on it.
    pub fn from_arg(owner: &Principal, id: u32, now: u64, arg: ChunkArg) -> (c: Chunk)
        ensures
            c@ == (ChunkView {
                checksum: crc32_of(arg.content@),
                content: arg.content@,
                created_at: now,
                id: id,
                order: arg.order,
                owner: owner@,
            }),
    {
        let checksum = crc32(arg.content.as_slice());
        Chunk {
            checksum,
            content: arg.content,
            created_at: now,
            id,
            order: arg.order,
            owner: owner.clone(),
        }
    }
}

/// The whole engine: counters and durable tables.  The counters are the
/// sole source of identifier uniqueness; the tables survive restarts.
pub struct State {
    pub in_production: bool,
    pub chunk_count: u32,
    pub chunks: ByteTable,
    pub asset_count: u128,
    pub assets: ByteTable,
    pub contents: BlockTable,
}

impl State {
    /// The raw bytes of the chunk table.
    pub open spec fn chunk_tbl(self) -> Map<u128, Seq<u8>> {
        byte_table_view(self.chunks)
    }

    /// The raw bytes of the asset table.
    pub open spec fn asset_tbl(self) -> Map<u128, Seq<u8>> {
        byte_table_view(self.assets)
    }

    /// The content blocks, keyed by asset identifier and block index.
    pub open spec fn blocks(self) -> Map<(u128, u32), Seq<u8>> {
        block_table_view(self.contents)
    }

    /// The stored chunks, as decoded records.
    pub open spec fn chunks_map(self) -> Map<u128, ChunkView> {
        Map::new(
            |k: u128| self.chunk_tbl().contains_key(k),
            |k: u128| parse_chunk(self.chunk_tbl()[k]).unwrap(),
        )
    }

    /// The stored assets, as decoded records.
    pub open spec fn assets_map(self) -> Map<u128, AssetView> {
        Map::new(
            |k: u128| self.asset_tbl().contains_key(k),
            |k: u128| parse_asset(self.asset_tbl()[k]).unwrap(),
        )
    }

    /// A chunk table entry decodes, records its own key as identifier,
    /// and lies below the chunk counter.
    pub open spec fn chunk_entry_wf(self, k: u128) -> bool {
        &&& k < self.chunk_count as u128
        &&& parse_chunk(self.chunk_tbl()[k]) is Some
        &&& parse_chunk(self.chunk_tbl()[k]).unwrap().id as u128 == k
    }

    /// An asset table entry decodes, records its own key as identifier,
    /// and lies below the asset counter.
    pub open spec fn asset_entry_wf(self, k: u128) -> bool {
        &&& k < self.asset_count
        &&& parse_asset(self.asset_tbl()[k]) is Some
        &&& parse_asset(self.asset_tbl()[k]).unwrap().id == k
    }

    /// The engine's invariant: every stored record decodes and is keyed
    /// by its own identifier, identifiers lie below their counters, and
    /// the content blocks are exactly the positions `0..chunk_size` of
    /// the stored assets.
    pub open spec fn wf(self) -> bool {
        &&& forall|k: u128| #[trigger] self.chunk_tbl().contains_key(k) ==> self.chunk_entry_wf(k)
        &&& forall|k: u128| #[trigger] self.asset_tbl().contains_key(k) ==> self.asset_entry_wf(k)
        &&& forall|p: (u128, u32)| #[trigger]
            self.blocks().contains_key(p) ==> self.asset_tbl().contains_key(p.0) && (
            p.1 as int) < parse_asset(self.asset_tbl()[p.0]).unwrap().chunk_size as int
        &&& forall|a: u128, i: u32|
            self.asset_tbl().contains_key(a) && (i as int) < parse_asset(
                self.asset_tbl()[a],
            ).unwrap().chunk_size as int ==> #[trigger] self.blocks().contains_key((a, i))
    }

    /// A change that leaves the asset table, the content blocks and the
    /// asset counter alone preserves their side of the invariant.
    pub proof fn lemma_wf_chunks_frame(pre: State, post: State)
        requires
            pre.wf(),
            post.asset_tbl() == pre.asset_tbl(),
            post.blocks() == pre.blocks(),
            post.asset_count == pre.asset_count,
            forall|k: u128| #[trigger] post.chunk_tbl().contains_key(k) ==> post.chunk_entry_wf(k),
        ensures
            post.wf(),
    {
        assert forall|k: u128| #[trigger]
            post.asset_tbl().contains_key(k) implies post.asset_entry_wf(k) by {
            assert(pre.asset_tbl().contains_key(k));
            assert(pre.asset_entry_wf(k));
        }
        assert forall|p: (u128, u32)| #[trigger]
            post.blocks().contains_key(p) implies post.asset_tbl().contains_key(p.0) && (
        p.1 as int) < parse_asset(post.asset_tbl()[p.0]).unwrap().chunk_size as int by {
            assert(pre.blocks().contains_key(p));
        }
        assert forall|a: u128, i: u32|
            post.asset_tbl().contains_key(a) && (i as int) < parse_asset(
                post.asset_tbl()[a],
            ).unwrap().chunk_size as int implies #[trigger] post.blocks().contains_key((a, i)) by {
            assert(pre.asset_tbl().contains_key(a));
            assert(pre.blocks().contains_key((a, i)));
        }
    }

    /// Allocates the next chunk identifier.
    pub fn get_chunk_id(&mut self) -> (id: u32)
        requires
            old(self).chunk_count < u32::MAX,
        ensures
            id == old(self).chunk_count,
            final(self).chunk_count == old(self).chunk_count + 1,
            final(self).chunks == old(self).chunks,
            final(self).assets == old(self).assets,
            final(self).contents == old(self).contents,
            final(self).asset_count == old(self).asset_count,
            final(self).in_production == old(self).in_production,
    {
        let id = self.chunk_count;
        self.chunk_count = self.chunk_count + 1;
        id
    }

    /// Allocates the next asset identifier.
    pub fn get_asset_id(&mut self) -> (id: u128)
        requires
            old(self).asset_count < u128::MAX,
        ensures
            id == old(self).asset_count,
            final(self).asset_count == old(self).asset_count + 1,
            final(self).chunks == old(self).chunks,
            final(self).assets == old(self).assets,
            final(self).contents == old(self).contents,
            final(self).chunk_count == old(self).chunk_count,
            final(self).in_production == old(self).in_production,
    {
        let id = self.asset_count;
        self.asset_count = self.asset_count + 1;
        id
    }

    /// Stores a freshly uploaded chunk: assigns the next identifier,
    /// checksums the content, records the caller and the time, and
    /// returns the identifier.  The declared `order` is not validated
    /// here; ordering is resolved at commit time.
    pub fn upload_chunk(&mut self, caller: &Principal, now: u64, arg: ChunkArg) -> (id: u32)
        requires
            old(self).wf(),
            old(self).chunk_count < u32::MAX,
            caller@.len() <= PRINCIPAL_MAX_BYTES,
            arg.content@.len() <= CONTENT_MAX_BYTES,
        ensures
            final(self).wf(),
            id == old(self).chunk_count,
            final(self).chunk_count == old(self).chunk_count + 1,
            final(self).chunks_map() == old(self).chunks_map().insert(
                id as u128,
                ChunkView {
                    checksum: crc32_of(arg.content@),
                    content: arg.content@,
                    created_at: now,
                    id: id,
                    order: arg.order,
                    owner: caller@,
                },
            ),
            !old(self).chunks_map().contains_key(id as u128),
            final(self).assets == old(self).assets,
            final(self).contents == old(self).contents,
            final(self).asset_count == old(self).asset_count,
            final(self).in_production == old(self).in_production,
    {
        let id = self.get_chunk_id();
        let chunk = Chunk::from_arg(caller, id, now, arg);
        let bytes = chunk.to_bytes();
        proof {
            crate::codec::lemma_chunk_codec_round_trip(chunk@);
            if old(self).chunk_tbl().contains_key(id as u128) {
                assert(old(self).chunk_entry_wf(id as u128));
            }
        }
        self.chunks.insert(id as u128, bytes);
        proof {
            let pre = *old(self);
            assert forall|k: u128| #[trigger]
                self.chunk_tbl().contains_key(k) implies self.chunk_entry_wf(k) by {
                if k == id as u128 {
                    assert(self.chunk_tbl()[k] == chunk_bytes(chunk@));
                } else {
                    assert(pre.chunk_tbl().contains_key(k));
                    assert(pre.chunk_entry_wf(k));
                }
            }
            assert(self.chunks_map() =~= pre.chunks_map().insert(id as u128, chunk@));
            State::lemma_wf_chunks_frame(pre, *self);
        }
        id
    }

    /// Stores a freshly uploaded chunk given as loose content and order.
    pub fn create_chunk(&mut self, caller: &Principal, now: u64, content: Vec<u8>, order: u32) -> (
        id: u32)
        requires
            old(self).wf(),
            old(self).chunk_count < u32::MAX,
            caller@.len() <= PRINCIPAL_MAX_BYTES,
            content@.len() <= CONTENT_MAX_BYTES,
        ensures
            final(self).wf(),
            id == old(self).chunk_count,
            final(self).chunk_count == old(self).chunk_count + 1,
            final(self).chunks_map() == old(self).chunks_map().insert(
                id as u128,
                ChunkView {
                    checksum: crc32_of(content@),
                    content: content@,
                    created_at: now,
                    id: id,
                    order: order,
                    owner: caller@,
                },
            ),
            final(self).assets == old(self).assets,
            final(self).contents == old(self).contents,
            final(self).asset_count == old(self).asset_count,
            final(self).in_production == old(self).in_production,
    {
        self.upload_chunk(caller, now, ChunkArg { order, content })
    }

    /// Whether a single chunk identifier currently has a stored chunk.
    pub fn chunk_availabity_check(&self, chunk_id: u32) -> (r: bool)
        ensures
            r == self.chunks_map().contains_key(chunk_id as u128),
    {
        self.chunks.contains_key(chunk_id as u128)
    }

    /// Whether every identifier in the given set currently has a stored
    /// chunk.
    pub fn chunk_availability_check(&self, ids: &Vec<u32>) -> (r: bool)
        ensures
            r == forall|i: int|
                0 <= i < ids@.len() ==> self.chunks_map().contains_key(#[trigger] ids@[i] as u128),
    {
        let n = ids.len();
        let mut idx: usize = 0;
        while idx < n
            invariant
                n == ids@.len(),
                idx <= n,
                forall|i: int|
                    0 <= i < idx ==> self.chunks_map().contains_key(#[trigger] ids@[i] as u128),
            decreases n - idx,
        {
            if !self.chunks.contains_key(ids[idx] as u128) {
                proof {
                    assert(!self.chunks_map().contains_key(ids@[idx as int] as u128));
                }
                return false;
            }
            idx = idx + 1;
        }
        true
    }

    /// Reads one content block of a committed asset directly, by its
    /// position.
    pub fn get_block(&self, asset_id: u128, index: u32) -> (r: Option<crate::types::Content>)
        ensures
            match r {
                Some(c) => self.blocks().contains_key((asset_id, index)) && c@ == self.blocks()[
                    (asset_id, index)
                ],
                None => !self.blocks().contains_key((asset_id, index)),
            },
    {
        match self.contents.get((asset_id, index)) {
            None => None,
            Some(bytes) => Some(crate::types::Content(bytes)),
        }
    }

    /// Looks a committed asset up, as its read-only projection.
    pub fn get(&self, asset_id: u128) -> (r: Result<AssetQuery, ErrorKind>)
        requires
            self.wf(),
        ensures
            match r {
                Ok(q) => self.assets_map().contains_key(asset_id)
                    && q@ == self.assets_map()[asset_id],
                Err(e) => e == ErrorKind::NotFound && !self.assets_map().contains_key(asset_id),
            },
    {
        match self.assets.get(asset_id) {
            None => Err(ErrorKind::NotFound),
            Some(bytes) => {
                proof {
                    assert(self.asset_tbl().contains_key(asset_id));
                    assert(self.asset_entry_wf(asset_id));
                    assert(bytes@ == self.asset_tbl()[asset_id]);
                }
                let asset = Asset::from_bytes(bytes.as_slice()).unwrap();
                proof {
                    assert(asset@ == self.assets_map()[asset_id]);
                }
                Ok(AssetQuery::from(&asset))
            },
        }
    }

    /// A full snapshot of the asset store: every asset's identifier and
    /// read-only projection, in ascending identifier order.
    pub fn assets_list(&self) -> (r: Vec<(u128, AssetQuery)>)
        requires
            self.wf(),
        ensures
            r@.len() == self.assets_map().dom().len(),
            forall|i: int|
                0 <= i < r@.len() ==> self.assets_map().contains_key(#[trigger] r@[i].0) && r@[i].1@
                    == self.assets_map()[r@[i].0],
            forall|i: int, j: int| 0 <= i < j < r@.len() ==> r@[i].0 < r@[j].0,
            forall|k: u128|
                self.assets_map().contains_key(k) ==> exists|i: int|
                    0 <= i < r@.len() && #[trigger] r@[i].0 == k,
    {
        let entries = self.assets.entries();
        let n = entries.len();
        let mut out: Vec<(u128, AssetQuery)> = Vec::new();
        let mut idx: usize = 0;
        proof {
            assert(self.assets_map().dom() =~= self.asset_tbl().dom());
        }
        while idx < n
            invariant
                self.wf(),
                n == entries@.len(),
                idx <= n,
                out@.len() == idx,
                forall|i: int|
                    0 <= i < entries@.len() ==> self.asset_tbl().contains_key(
                        #[trigger] entries@[i].0,
                    ) && entries@[i].1@ == self.asset_tbl()[entries@[i].0],
                forall|i: int| 0 <= i < idx ==> #[trigger] out@[i].0 == entries@[i].0,
                forall|i: int|
                    0 <= i < idx ==> self.assets_map().contains_key(#[trigger] out@[i].0)
                        && out@[i].1@ == self.assets_map()[out@[i].0],
            decreases n - idx,
        {
            let key = entries[idx].0;
            proof {
                assert(self.asset_tbl().contains_key(entries@[idx as int].0));
                assert(self.asset_entry_wf(entries@[idx as int].0));
            }
            let asset = Asset::from_bytes(entries[idx].1.as_slice()).unwrap();
            proof {
                assert(asset@ == self.assets_map()[key]);
            }
            out.push((key, AssetQuery::from(&asset)));
            idx = idx + 1;
        }
        proof {
            assert forall|k: u128| self.assets_map().contains_key(k) implies exists|i: int|
                0 <= i < out@.len() && #[trigger] out@[i].0 == k by {
                let i = choose|i: int| 0 <= i < entries@.len() && #[trigger] entries@[i].0 == k;
                assert(out@[i].0 == k);
            }
        }
        out
    }

    /// Deletes an asset and its content blocks.  Only the recorded owner
    /// may delete; nothing changes on an error.
    pub fn delete_asset(&mut self, caller: &Principal, asset_id: u128) -> (r: Result<
        (),
        ErrorKind,
    >)
        requires
            old(self).wf(),
        ensures
            final(self).wf(),
            match r {
                Ok(()) => {
                    &&& old(self).assets_map().contains_key(asset_id)
                    &&& old(self).assets_map()[asset_id].owner == caller@
                    &&& final(self).assets_map() == old(self).assets_map().remove(asset_id)
                    &&& forall|p: (u128, u32)|
                        final(self).blocks().contains_key(p) <==> (old(self).blocks().contains_key(p) && p.0 != asset_id)
                    &&& forall|p: (u128, u32)|
                        final(self).blocks().contains_key(p) ==> final(self).blocks()[p] == old(self).blocks()[p]
                    &&& final(self).chunks == old(self).chunks
                    &&& final(self).chunk_count == old(self).chunk_count
                    &&& final(self).asset_count == old(self).asset_count
                    &&& final(self).in_production == old(self).in_production
                },
                Err(ErrorKind::NotFound) => !old(self).assets_map().contains_key(asset_id)
                    && *final(self) == *old(self),
                Err(ErrorKind::Unauthorized) => old(self).assets_map().contains_key(asset_id)
                    && old(self).assets_map()[asset_id].owner != caller@ && *final(self) == *old(self),
                Err(_) => false,
            },
    {
        let bytes = match self.assets.get(asset_id) {
            None => { return Err(ErrorKind::NotFound); },
            Some(b) => b,
        };
        proof {
            assert(self.asset_tbl().contains_key(asset_id));
            assert(self.asset_entry_wf(asset_id));
        }
        let asset = Asset::from_bytes(bytes.as_slice()).unwrap();
        proof {
            assert(asset@ == self.assets_map()[asset_id]);
        }
        if !(&asset.owner == caller) {
            return Err(ErrorKind::Unauthorized);
        }
        let chunk_size = asset.chunk_size;
        let mut i: u32 = 0;
        while i < chunk_size
            invariant
                0 <= i <= chunk_size,
                old(self).wf(),
                chunk_size == old(self).assets_map()[asset_id].chunk_size,
                old(self).assets_map().contains_key(asset_id),
                self.assets == old(self).assets,
                self.chunks == old(self).chunks,
                self.chunk_count == old(self).chunk_count,
                self.asset_count == old(self).asset_count,
                self.in_production == old(self).in_production,
                forall|p: (u128, u32)|
                    self.blocks().contains_key(p) <==> (old(self).blocks().contains_key(p) && !(
                    p.0 == asset_id && p.1 < i)),
                forall|p: (u128, u32)|
                    self.blocks().contains_key(p) ==> self.blocks()[p] == old(self).blocks()[p],
            decreases chunk_size - i,
        {
            let ghost i0 = i;
            let ghost prev = self.blocks();
            self.contents.remove((asset_id, i));
            i = i + 1;
            proof {
                assert(self.blocks() == prev.remove((asset_id, i0)));
                assert forall|p: (u128, u32)|
                    self.blocks().contains_key(p) <==> (old(self).blocks().contains_key(p) && !(
                    p.0 == asset_id && p.1 < i)) by {
                    assert(prev.contains_key(p) <==> (old(self).blocks().contains_key(p) && !(
                    p.0 == asset_id && p.1 < i0)));
                }
            }
        }
        self.assets.remove(asset_id);
        proof {
            assert(final(self).assets_map() =~= old(self).assets_map().remove(asset_id));
            let post = *final(self);
            let pre = *old(self);
            assert forall|k: u128| #[trigger]
                post.chunk_tbl().contains_key(k) implies post.chunk_entry_wf(k) by {
                assert(pre.chunk_tbl().contains_key(k));
                assert(pre.chunk_entry_wf(k));
            }
            assert forall|k: u128| #[trigger]
                post.asset_tbl().contains_key(k) implies post.asset_entry_wf(k) by {
                assert(pre.asset_tbl().contains_key(k));
                assert(pre.asset_entry_wf(k));
            }
            assert forall|p: (u128, u32)| #[trigger]
                post.blocks().contains_key(p) implies post.asset_tbl().contains_key(p.0) && (
            p.1 as int) < parse_asset(post.asset_tbl()[p.0]).unwrap().chunk_size as int by {
                assert(pre.blocks().contains_key(p));
                assert(p.0 != asset_id);
            }
            assert forall|a: u128, i2: u32|
                post.asset_tbl().contains_key(a) && (i2 as int) < parse_asset(
                    post.asset_tbl()[a],
                ).unwrap().chunk_size as int implies #[trigger] post.blocks().contains_key(
                (a, i2),
            ) by {
                assert(a != asset_id);
                assert(pre.asset_tbl().contains_key(a));
                assert(pre.blocks().contains_key((a, i2)));
            }
            assert forall|p: (u128, u32)| final(self).blocks().contains_key(p) implies (old(self).blocks().contains_key(p) && p.0 != asset_id) by {
                if p.0 == asset_id {
                    assert(old(self).blocks().contains_key(p) ==> p.1 < chunk_size);
                }
            }
            assert forall|p: (u128, u32)|
                old(self).blocks().contains_key(p) && p.0 != asset_id implies final(self).blocks().contains_key(p) by {}
        }
        Ok(())
    }
}

impl State {
    /// Garbage-collects abandoned chunks: removes every stored chunk
    /// strictly older than the time-to-live, and nothing else.  Safe to
    /// call at any time; a second call at the same instant removes
    /// nothing.
    pub fn clear_expired_chunks(&mut self, now: u64)
        requires
            old(self).wf(),
            now >= crate::CHUNK_TTL_NANOS,
        ensures
            final(self).wf(),
            forall|k: u128|
                final(self).chunks_map().contains_key(k) <==> (old(
                    self,
                ).chunks_map().contains_key(k) && old(self).chunks_map()[k].created_at >= now
                    - crate::CHUNK_TTL_NANOS),
            forall|k: u128|
                final(self).chunks_map().contains_key(k) ==> final(self).chunks_map()[k] == old(
                    self,
                ).chunks_map()[k],
            final(self).chunk_count == old(self).chunk_count,
            final(self).assets == old(self).assets,
            final(self).contents == old(self).contents,
            final(self).asset_count == old(self).asset_count,
            final(self).in_production == old(self).in_production,
    {
        let ghost pre = *old(self);
        let cutoff = now - crate::CHUNK_TTL_NANOS;
        let entries = self.chunks.entries();
        let n = entries.len();
        let mut expired: Vec<u128> = Vec::new();
        let mut idx: usize = 0;
        while idx < n
            invariant
                pre.wf(),
                *self == pre,
                cutoff == now - crate::CHUNK_TTL_NANOS,
                n == entries@.len(),
                idx <= n,
                forall|i: int|
                    0 <= i < entries@.len() ==> pre.chunk_tbl().contains_key(
                        #[trigger] entries@[i].0,
                    ) && entries@[i].1@ == pre.chunk_tbl()[entries@[i].0],
                forall|i: int, j: int| 0 <= i < j < entries@.len() ==> entries@[i].0 < entries@[j].0,
                forall|k: u128|
                    pre.chunk_tbl().contains_key(k) ==> exists|i: int|
                        0 <= i < entries@.len() && #[trigger] entries@[i].0 == k,
                forall|i: int|
                    0 <= i < expired@.len() ==> pre.chunks_map().contains_key(
                        #[trigger] expired@[i],
                    ) && pre.chunks_map()[expired@[i]].created_at < cutoff,
                forall|i: int|
                    0 <= i < idx ==> (pre.chunks_map()[#[trigger] entries@[i].0].created_at < cutoff
                        ==> expired@.contains(entries@[i].0)),
            decreases n - idx,
        {
            let ghost key = entries@[idx as int].0;
            let ghost exp0 = expired@;
            proof {
                assert(pre.chunk_tbl().contains_key(key));
                assert(pre.chunk_entry_wf(key));
            }
            let chunk = Chunk::from_bytes(entries[idx].1.as_slice()).unwrap();
            proof {
                assert(chunk@ == pre.chunks_map()[key]);
            }
            if chunk.created_at < cutoff {
                expired.push(entries[idx].0);
                proof {
                    assert(expired@[expired@.len() - 1] == key);
                    assert(expired@.contains(key));
                }
            }
            idx = idx + 1;
            proof {
                assert forall|i: int|
                    0 <= i < idx implies (pre.chunks_map()[
                    #[trigger] entries@[i].0
                ].created_at < cutoff ==> expired@.contains(entries@[i].0)) by {
                    if pre.chunks_map()[entries@[i].0].created_at < cutoff {
                        if i < idx - 1 {
                            assert(exp0.contains(entries@[i].0));
                            let w = choose|w: int|
                                0 <= w < exp0.len() && #[trigger] exp0[w] == entries@[i].0;
                            assert(expired@[w] == entries@[i].0);
                            assert(expired@.contains(entries@[i].0));
                        } else {
                            assert(entries@[i].0 == key);
                        }
                    }
                }
            }
        }
        let m = expired.len();
        let mut j: usize = 0;
        while j < m
            invariant
                pre.wf(),
                cutoff == now - crate::CHUNK_TTL_NANOS,
                m == expired@.len(),
                j <= m,
                self.assets == pre.assets,
                self.contents == pre.contents,
                self.chunk_count == pre.chunk_count,
                self.asset_count == pre.asset_count,
                self.in_production == pre.in_production,
                forall|i: int|
                    0 <= i < expired@.len() ==> pre.chunks_map().contains_key(
                        #[trigger] expired@[i],
                    ) && pre.chunks_map()[expired@[i]].created_at < cutoff,
                forall|k: u128|
                    pre.chunks_map().contains_key(k) && pre.chunks_map()[k].created_at < cutoff
                        ==> expired@.contains(k),
                forall|k: u128|
                    self.chunk_tbl().contains_key(k) <==> (pre.chunk_tbl().contains_key(k)
                        && !expired@.subrange(0, j as int).contains(k)),
                forall|k: u128|
                    self.chunk_tbl().contains_key(k) ==> self.chunk_tbl()[k] == pre.chunk_tbl()[k],
            decreases m - j,
        {
            let key = expired[j];
            let ghost prev = self.chunk_tbl();
            self.chunks.remove(key);
            j = j + 1;
            proof {
                assert forall|k: u128|
                    self.chunk_tbl().contains_key(k) <==> (pre.chunk_tbl().contains_key(k)
                        && !expired@.subrange(0, j as int).contains(k)) by {
                    assert(prev.contains_key(k) <==> (pre.chunk_tbl().contains_key(k)
                        && !expired@.subrange(0, j - 1).contains(k)));
                    if expired@.subrange(0, j as int).contains(k) {
                        let w = choose|w: int|
                            0 <= w < j && #[trigger] expired@.subrange(0, j as int)[w] == k;
                        if w < j - 1 {
                            assert(expired@.subrange(0, j - 1)[w] == k);
                            assert(expired@.subrange(0, j - 1).contains(k));
                        } else {
                            assert(k == key);
                        }
                        assert(!self.chunk_tbl().contains_key(k));
                    } else {
                        assert(!expired@.subrange(0, j - 1).contains(k)) by {
                            if expired@.subrange(0, j - 1).contains(k) {
                                let w = choose|w: int|
                                    0 <= w < j - 1 && #[trigger] expired@.subrange(0, j - 1)[w]
                                        == k;
                                assert(expired@.subrange(0, j as int)[w] == k);
                            }
                        }
                        assert(k != key) by {
                            if k == key {
                                assert(expired@.subrange(0, j as int)[j - 1] == k);
                            }
                        }
                    }
                }
            }
        }
        proof {
            let post = *self;
            assert forall|k: u128|
                post.chunks_map().contains_key(k) <==> (pre.chunks_map().contains_key(k)
                    && pre.chunks_map()[k].created_at >= cutoff) by {
                assert(expired@.subrange(0, m as int) =~= expired@);
                if pre.chunks_map().contains_key(k) && pre.chunks_map()[k].created_at < cutoff {
                    assert(expired@.contains(k));
                }
                if expired@.contains(k) {
                    let w = choose|w: int| 0 <= w < expired@.len() && #[trigger] expired@[w] == k;
                    assert(pre.chunks_map()[k].created_at < cutoff);
                }
            }
            assert forall|k: u128| #[trigger]
                post.chunk_tbl().contains_key(k) implies post.chunk_entry_wf(k) by {
                assert(pre.chunk_tbl().contains_key(k));
                assert(pre.chunk_entry_wf(k));
            }
            State::lemma_wf_chunks_frame(pre, post);
        }
    }
}

impl Default for State {
    /// A fresh engine: zero counters, empty tables, each table bound to
    /// its own region of a fresh pool.
    fn default() -> (s: State)
        ensures
            s.wf(),
            s.chunk_count == 0,
            s.asset_count == 0,
            !s.in_production,
            s.chunks_map() == Map::<u128, ChunkView>::empty(),
            s.assets_map() == Map::<u128, AssetView>::empty(),
            s.blocks() == Map::<(u128, u32), Seq<u8>>::empty(),
    {
        let pool = RegionPool::new();
        let s = State {
            in_production: false,
            chunk_count: 0,
            chunks: ByteTable::new(get_chunk_stable_btree_memory(&pool)),
            asset_count: 0,
            assets: ByteTable::new(get_asset_stable_btree_memory(&pool)),
            contents: BlockTable::new(get_content_stable_btree_memory(&pool)),
        };
        proof {
            assert(s.chunks_map() =~= Map::<u128, ChunkView>::empty());
            assert(s.assets_map() =~= Map::<u128, AssetView>::empty());
            assert(s.blocks() =~= Map::<(u128, u32), Seq<u8>>::empty());
        }
        s
    }
}

} // verus!
