//! The upgrade persistence layer: before a controlled shutdown the
//! heap-resident counters are serialized, length-prefixed, into the
//! reserved region; on restart they are read back and the durable tables
//! reattach to their regions.  A restart installs a state exactly when
//! the blob decodes and every stored record passes validation — anything
//! less aborts the startup with an error, with no partial recovery.

use vstd::prelude::*;
use vstd::bytes::{spec_u32_to_le_bytes, u32_to_le_bytes, u32_from_le_bytes};
use crate::codec::{meta_bytes, parse_meta, parse_asset, StateMeta, StateMetaView};
use crate::stable::{Region, ByteTable, BlockTable};
use crate::state::State;
use crate::types::{Asset, Chunk, ErrorKind};

verus! {

impl State {
    /// The metadata this state would persist around a restart.
    pub open spec fn meta_view(self) -> StateMetaView {
        StateMetaView {
            in_production: self.in_production,
            chunk_count: self.chunk_count,
            asset_count: self.asset_count,
        }
    }
}

/// The state a restart would install: the given metadata's counters and
/// flag around the given reattached tables.
pub open spec fn installed_state(
    m: StateMetaView,
    chunks: ByteTable,
    assets: ByteTable,
    contents: BlockTable,
) -> State {
    State {
        in_production: m.in_production,
        chunk_count: m.chunk_count,
        chunks,
        asset_count: m.asset_count,
        assets,
        contents,
    }
}

impl State {
    /// The blob written into the reserved region before a shutdown: the
    /// metadata's length, then its bytes.
    pub fn upgrade_blob(&self) -> (b: Vec<u8>)
        ensures
            b@ == spec_u32_to_le_bytes(meta_bytes(self.meta_view()).len() as u32) + meta_bytes(
                self.meta_view(),
            ),
    {
        let meta = StateMeta {
            in_production: self.in_production,
            chunk_count: self.chunk_count,
            asset_count: self.asset_count,
        };
        let mut body = meta.to_bytes();
        let mut out = u32_to_le_bytes(body.len() as u32);
        out.append(&mut body);
        out
    }
}

/// Serializes the state's metadata and writes the length-prefixed blob
/// at the start of the reserved region; reports whether the region could
/// be grown far enough.  The durable tables need no action here.
pub fn pre_upgrade(state: &State, region: &mut Region) -> bool {
    let blob = state.upgrade_blob();
    region.write(0, blob.as_slice())
}

/// Installs the state a metadata blob and the reattached tables stand
/// for: succeeds exactly when the blob decodes and every stored record
/// passes validation, and then installs the decoded counters and flag
/// around the given tables, unchanged.
pub fn install(
    blob: &[u8],
    chunks: ByteTable,
    assets: ByteTable,
    contents: BlockTable,
) -> (r: Result<State, ErrorKind>)
    ensures
        ({
            let m = parse_meta(blob@);
            match r {
                Ok(s) => {
                    &&& m is Some
                    &&& s == installed_state(m.unwrap(), chunks, assets, contents)
                    &&& s.wf()
                },
                Err(e) => {
                    &&& e == ErrorKind::EncodingFailure
                    &&& (m is None || !installed_state(
                        m.unwrap(),
                        chunks,
                        assets,
                        contents,
                    ).wf())
                },
            }
        }),
{
    let meta = match StateMeta::from_bytes(blob) {
        None => { return Err(ErrorKind::EncodingFailure); },
        Some(m) => m,
    };
    let st = State {
        in_production: meta.in_production,
        chunk_count: meta.chunk_count,
        chunks,
        asset_count: meta.asset_count,
        assets,
        contents,
    };
    proof {
        assert(st == installed_state(parse_meta(blob@).unwrap(), chunks, assets, contents));
    }

    // Every chunk record must decode, under its own identifier, below
    // the restored counter.
    let chunk_entries = st.chunks.entries();
    let n = chunk_entries.len();
    let mut idx: usize = 0;
    while idx < n
        invariant
            parse_meta(blob@) is Some,
            st == installed_state(parse_meta(blob@).unwrap(), chunks, assets, contents),
            n == chunk_entries@.len(),
            idx <= n,
            forall|i: int|
                0 <= i < chunk_entries@.len() ==> st.chunk_tbl().contains_key(
                    #[trigger] chunk_entries@[i].0,
                ) && chunk_entries@[i].1@ == st.chunk_tbl()[chunk_entries@[i].0],
            forall|i: int| 0 <= i < idx ==> st.chunk_entry_wf(#[trigger] chunk_entries@[i].0),
        decreases n - idx,
    {
        let key = chunk_entries[idx].0;
        let ok = match Chunk::from_bytes(chunk_entries[idx].1.as_slice()) {
            None => false,
            Some(c) => c.id as u128 == key && key < st.chunk_count as u128,
        };
        if !ok {
            proof {
                assert(st.chunk_tbl().contains_key(key));
                assert(!st.chunk_entry_wf(key));
                assert(!st.wf());
            }
            return Err(ErrorKind::EncodingFailure);
        }
        idx = idx + 1;
    }
    proof {
        assert forall|k: u128| #[trigger]
            st.chunk_tbl().contains_key(k) implies st.chunk_entry_wf(k) by {
            let i = choose|i: int|
                0 <= i < chunk_entries@.len() && #[trigger] chunk_entries@[i].0 == k;
        }
    }

    // Every asset record must decode, under its own identifier, below
    // the restored counter.
    let asset_entries = st.assets.entries();
    let m = asset_entries.len();
    let mut idx: usize = 0;
    while idx < m
        invariant
            parse_meta(blob@) is Some,
            st == installed_state(parse_meta(blob@).unwrap(), chunks, assets, contents),
            m == asset_entries@.len(),
            idx <= m,
            forall|i: int|
                0 <= i < asset_entries@.len() ==> st.asset_tbl().contains_key(
                    #[trigger] asset_entries@[i].0,
                ) && asset_entries@[i].1@ == st.asset_tbl()[asset_entries@[i].0],
            forall|i: int| 0 <= i < idx ==> st.asset_entry_wf(#[trigger] asset_entries@[i].0),
        decreases m - idx,
    {
        let key = asset_entries[idx].0;
        let ok = match Asset::from_bytes(asset_entries[idx].1.as_slice()) {
            None => false,
            Some(a) => a.id == key && key < st.asset_count,
        };
        if !ok {
            proof {
                assert(st.asset_tbl().contains_key(key));
                assert(!st.asset_entry_wf(key));
                assert(!st.wf());
            }
            return Err(ErrorKind::EncodingFailure);
        }
        idx = idx + 1;
    }
    proof {
        assert forall|k: u128| #[trigger]
            st.asset_tbl().contains_key(k) implies st.asset_entry_wf(k) by {
            let i = choose|i: int|
                0 <= i < asset_entries@.len() && #[trigger] asset_entries@[i].0 == k;
        }
    }

    // Every content block must belong to a stored asset and lie below
    // its block count.
    let block_entries = st.contents.entries();
    let b = block_entries.len();
    let mut idx: usize = 0;
    while idx < b
        invariant
            parse_meta(blob@) is Some,
            st == installed_state(parse_meta(blob@).unwrap(), chunks, assets, contents),
            b == block_entries@.len(),
            idx <= b,
            forall|k: u128| #[trigger] st.asset_tbl().contains_key(k) ==> st.asset_entry_wf(k),
            forall|i: int|
                0 <= i < block_entries@.len() ==> st.blocks().contains_key(
                    #[trigger] block_entries@[i].0,
                ),
            forall|i: int|
                0 <= i < idx ==> st.asset_tbl().contains_key(#[trigger] block_entries@[i].0.0) && (
                block_entries@[i].0.1 as int) < parse_asset(
                    st.asset_tbl()[block_entries@[i].0.0],
                ).unwrap().chunk_size as int,
        decreases b - idx,
    {
        let key = block_entries[idx].0;
        let ok = match st.assets.get(key.0) {
            None => false,
            Some(abytes) => {
                proof {
                    assert(st.asset_entry_wf(key.0));
                }
                let a = Asset::from_bytes(abytes.as_slice()).unwrap();
                key.1 < a.chunk_size
            },
        };
        if !ok {
            proof {
                assert(st.blocks().contains_key(key));
                assert(!st.wf());
            }
            return Err(ErrorKind::EncodingFailure);
        }
        idx = idx + 1;
    }
    proof {
        assert forall|p: (u128, u32)| #[trigger]
            st.blocks().contains_key(p) implies st.asset_tbl().contains_key(p.0) && (p.1 as int)
            < parse_asset(st.asset_tbl()[p.0]).unwrap().chunk_size as int by {
            let i = choose|i: int|
                0 <= i < block_entries@.len() && #[trigger] block_entries@[i].0 == p;
        }
    }

    // Every stored asset must have all of its blocks present.
    let mut idx: usize = 0;
    while idx < m
        invariant
            parse_meta(blob@) is Some,
            st == installed_state(parse_meta(blob@).unwrap(), chunks, assets, contents),
            m == asset_entries@.len(),
            idx <= m,
            forall|k: u128| #[trigger] st.asset_tbl().contains_key(k) ==> st.asset_entry_wf(k),
            forall|i: int|
                0 <= i < asset_entries@.len() ==> st.asset_tbl().contains_key(
                    #[trigger] asset_entries@[i].0,
                ) && asset_entries@[i].1@ == st.asset_tbl()[asset_entries@[i].0],
            forall|i: int, w: u32|
                0 <= i < idx && (w as int) < parse_asset(
                    st.asset_tbl()[#[trigger] asset_entries@[i].0],
                ).unwrap().chunk_size as int ==> #[trigger] st.blocks().contains_key(
                    (asset_entries@[i].0, w),
                ),
        decreases m - idx,
    {
        let key = asset_entries[idx].0;
        proof {
            assert(st.asset_entry_wf(key));
        }
        let a = Asset::from_bytes(asset_entries[idx].1.as_slice()).unwrap();
        let cs = a.chunk_size;
        let mut w: u32 = 0;
        while w < cs
            invariant
                parse_meta(blob@) is Some,
                st == installed_state(parse_meta(blob@).unwrap(), chunks, assets, contents),
                w <= cs,
                cs as int == parse_asset(st.asset_tbl()[key]).unwrap().chunk_size as int,
                st.asset_tbl().contains_key(key),
                forall|v: u32| (v as int) < w ==> #[trigger] st.blocks().contains_key((key, v)),
            decreases cs - w,
        {
            if st.contents.get((key, w)).is_none() {
                proof {
                    assert(!st.blocks().contains_key((key, w)));
                    assert(!st.wf());
                }
                return Err(ErrorKind::EncodingFailure);
            }
            w = w + 1;
        }
        idx = idx + 1;
    }
    proof {
        assert forall|a: u128, w: u32|
            st.asset_tbl().contains_key(a) && (w as int) < parse_asset(
                st.asset_tbl()[a],
            ).unwrap().chunk_size as int implies #[trigger] st.blocks().contains_key((a, w)) by {
            let i = choose|i: int|
                0 <= i < asset_entries@.len() && #[trigger] asset_entries@[i].0 == a;
        }
        assert(st.wf());
    }
    Ok(st)
}

/// Reads the metadata blob back from the reserved region, reattaches the
/// given durable tables around it, and installs the state they stand for
/// through [`install`]; a region or blob that does not decode aborts the
/// startup.
pub fn post_upgrade(
    region: &Region,
    chunks: ByteTable,
    assets: ByteTable,
    contents: BlockTable,
) -> (r: Result<State, ErrorKind>)
    ensures
        match r {
            Ok(s) => {
                &&& s.wf()
                &&& s.chunks == chunks
                &&& s.assets == assets
                &&& s.contents == contents
            },
            Err(e) => e == ErrorKind::EncodingFailure,
        },
{
    let len_bytes = match region.read(0, 4) {
        None => { return Err(ErrorKind::EncodingFailure); },
        Some(b) => b,
    };
    let len = u32_from_le_bytes(len_bytes.as_slice()) as usize;
    let blob = match region.read(4, len) {
        None => { return Err(ErrorKind::EncodingFailure); },
        Some(b) => b,
    };
    install(blob.as_slice(), chunks, assets, contents)
}

} // verus!
