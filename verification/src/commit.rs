//! The commit/assembly engine: validates a caller-supplied batch of
//! chunk identifiers, orders the chunks, verifies the aggregate
//! checksum, and materializes an immutable asset — all as one atomic
//! unit of work in which no mutation precedes a successful validation.

use vstd::prelude::*;
use vstd::utf8::{encode_utf8, is_ascii_chars, is_ascii_chars_encode_utf8};
use crate::codec::{parse_asset, asset_bytes, PRINCIPAL_MAX_BYTES, TEXT_MAX_BYTES};
use crate::sort::{sort_pairs, sort_pairs_exec, lemma_sort_pairs_multiset,
    lemma_sort_pairs_contains};
use crate::state::State;
use crate::types::{Asset, AssetView, AssetProperties, Chunk, ErrorKind, Principal};
use crate::url::{url_chars, generate_url, lemma_url_chars_ascii};
use crate::CHECKSUM_MODULO;

verus! {

/// Whether one of the first `m` identifiers of the batch names the key
/// `k`.
pub open spec fn batch_has_id_upto(ids: Seq<u32>, m: int, k: u128) -> bool {
    exists|j: int| 0 <= j < m && ids[j] as u128 == k
}

/// Whether some identifier of the batch names the key `k`.
pub open spec fn batch_has_id(ids: Seq<u32>, k: u128) -> bool {
    batch_has_id_upto(ids, ids.len() as int, k)
}

impl State {
    /// The error the commit's validation pass gives, scanning the batch
    /// in order: the first absent chunk fails it with `InvalidChunk`, the
    /// first chunk with a foreign owner with `NotOwner`.
    pub open spec fn commit_validate(self, ids: Seq<u32>, caller: Seq<u8>) -> Option<ErrorKind>
        decreases ids.len(),
    {
        if ids.len() == 0 {
            None
        } else if !self.chunks_map().contains_key(ids.first() as u128) {
            Some(ErrorKind::InvalidChunk)
        } else if self.chunks_map()[ids.first() as u128].owner != caller {
            Some(ErrorKind::NotOwner)
        } else {
            self.commit_validate(ids.drop_first(), caller)
        }
    }

    /// The `(identifier, order)` pairs of a batch, in the caller's order.
    pub open spec fn batch_pairs(self, ids: Seq<u32>) -> Seq<(u32, u32)> {
        Seq::new(ids.len(), |i: int| (ids[i], self.chunks_map()[ids[i] as u128].order))
    }

    /// The total content length of the batch's chunks, over the pairs.
    pub open spec fn pairs_size(self, pairs: Seq<(u32, u32)>) -> int
        decreases pairs.len(),
    {
        if pairs.len() == 0 {
            0
        } else {
            self.pairs_size(pairs.drop_last()) + self.chunks_map()[pairs.last().0 as u128].content.len()
        }
    }

    /// The aggregate checksum of the batch, over the pairs: the running
    /// sum of the chunks' CRC-32 values, each step reduced modulo the
    /// fixed constant.
    pub open spec fn batch_checksum(self, pairs: Seq<(u32, u32)>) -> u32
        decreases pairs.len(),
    {
        if pairs.len() == 0 {
            0
        } else {
            (((self.batch_checksum(pairs.drop_last()) as int) + (self.chunks_map()[pairs.last().0 as u128].checksum as int)) % (CHECKSUM_MODULO as int)) as u32
        }
    }

    /// The asset a successful commit of this batch creates.
    pub open spec fn committed_asset(
        self,
        ids: Seq<u32>,
        caller: Seq<u8>,
        now: u64,
        canister_id: Seq<u8>,
        canister_text: Seq<char>,
        props: AssetProperties,
    ) -> AssetView {
        AssetView {
            canister_id: canister_id,
            chunk_size: ids.len() as u32,
            content_encoding: props.content_encoding,
            content_type: props.content_type@,
            filename: props.filename@,
            content_size: self.pairs_size(sort_pairs(self.batch_pairs(ids))) as u32,
            created_at: now,
            id: self.asset_count,
            owner: caller,
            url: url_chars(canister_text, self.asset_count, self.in_production),
        }
    }

    /// A batch that validates up to an identifier keeps validating with
    /// it appended exactly when that chunk is present and the caller's.
    pub proof fn lemma_commit_validate_push(self, ids: Seq<u32>, caller: Seq<u8>, x: u32)
        requires
            self.commit_validate(ids, caller) is None,
        ensures
            self.commit_validate(ids.push(x), caller) == if !self.chunks_map().contains_key(
                x as u128,
            ) {
                Some(ErrorKind::InvalidChunk)
            } else if self.chunks_map()[x as u128].owner != caller {
                Some(ErrorKind::NotOwner)
            } else {
                None::<ErrorKind>
            },
        decreases ids.len(),
    {
        if ids.len() == 0 {
            assert(ids.push(x).first() == x);
            assert(ids.push(x).drop_first() =~= Seq::<u32>::empty());
            assert(self.commit_validate(Seq::<u32>::empty(), caller) is None);
        } else {
            assert(self.chunks_map().contains_key(ids.first() as u128));
            assert(self.chunks_map()[ids.first() as u128].owner == caller);
            assert(ids.push(x).first() == ids.first());
            assert(ids.push(x).drop_first() =~= ids.drop_first().push(x));
            self.lemma_commit_validate_push(ids.drop_first(), caller, x);
            assert(self.commit_validate(ids.push(x), caller) == self.commit_validate(
                ids.drop_first().push(x),
                caller,
            ));
        }
    }

    /// A batch whose first `m` identifiers validate, and whose next one
    /// fails the check with `e`, fails the whole validation with `e`.
    pub proof fn lemma_commit_validate_extend(self, ids: Seq<u32>, caller: Seq<u8>, m: int, e: ErrorKind)
        requires
            0 <= m < ids.len(),
            self.commit_validate(ids.subrange(0, m), caller) is None,
            e == ErrorKind::InvalidChunk ==> !self.chunks_map().contains_key(ids[m] as u128),
            e == ErrorKind::NotOwner ==> self.chunks_map().contains_key(ids[m] as u128)
                && self.chunks_map()[ids[m] as u128].owner != caller,
            e == ErrorKind::InvalidChunk || e == ErrorKind::NotOwner,
        ensures
            self.commit_validate(ids, caller) == Some(e),
        decreases m,
    {
        if m == 0 {
            assert(ids.first() == ids[0]);
        } else {
            let prefix = ids.subrange(0, m);
            assert(prefix.first() == ids.first());
            assert(prefix.drop_first() =~= ids.drop_first().subrange(0, m - 1));
            assert(ids.drop_first()[m - 1] == ids[m]);
            self.lemma_commit_validate_extend(ids.drop_first(), caller, m - 1, e);
        }
    }

    /// A batch that validates has every chunk present and owned by the
    /// caller.
    pub proof fn lemma_commit_validate_all(self, ids: Seq<u32>, caller: Seq<u8>)
        requires
            self.commit_validate(ids, caller) is None,
        ensures
            forall|i: int|
                0 <= i < ids.len() ==> self.chunks_map().contains_key(#[trigger] ids[i] as u128)
                    && self.chunks_map()[ids[i] as u128].owner == caller,
        decreases ids.len(),
    {
        if ids.len() == 0 {
        } else {
            self.lemma_commit_validate_all(ids.drop_first(), caller);
            assert forall|i: int|
                0 <= i < ids.len() implies self.chunks_map().contains_key(
                #[trigger] ids[i] as u128,
            ) && self.chunks_map()[ids[i] as u128].owner == caller by {
                if i > 0 {
                    assert(ids.drop_first()[i - 1] == ids[i]);
                }
            }
        }
    }

    /// Batch sizes are non-negative, and a prefix never outweighs the
    /// whole.
    pub proof fn lemma_pairs_size_prefix(self, pairs: Seq<(u32, u32)>, i: int)
        requires
            0 <= i <= pairs.len(),
        ensures
            0 <= self.pairs_size(pairs.subrange(0, i)) <= self.pairs_size(pairs),
        decreases pairs.len() - i,
    {
        if i == pairs.len() {
            assert(pairs.subrange(0, i) =~= pairs);
            self.lemma_pairs_size_nonneg(pairs);
        } else {
            self.lemma_pairs_size_prefix(pairs, i + 1);
            let t = pairs.subrange(0, i + 1);
            assert(t.drop_last() =~= pairs.subrange(0, i));
            self.lemma_pairs_size_nonneg(pairs.subrange(0, i));
        }
    }

    /// Batch sizes are non-negative.
    pub proof fn lemma_pairs_size_nonneg(self, pairs: Seq<(u32, u32)>)
        ensures
            self.pairs_size(pairs) >= 0,
        decreases pairs.len(),
    {
        if pairs.len() == 0 {
        } else {
            self.lemma_pairs_size_nonneg(pairs.drop_last());
        }
    }

    /// Validates the batch, assembles its chunks in order, verifies the
    /// aggregate checksum against the declared one, and — only then —
    /// writes the blocks, consumes the chunks and records the new asset.
    /// On any error nothing has changed.
    #[verifier::rlimit(100)]
    pub fn commit_batch(
        &mut self,
        caller: &Principal,
        now: u64,
        canister_id: &Principal,
        canister_text: &str,
        chunk_ids: &Vec<u32>,
        asset_properties: &AssetProperties,
    ) -> (r: Result<u128, ErrorKind>)
        requires
            old(self).wf(),
            old(self).asset_count < u128::MAX,
            caller@.len() <= PRINCIPAL_MAX_BYTES,
            canister_id@.len() <= PRINCIPAL_MAX_BYTES,
            is_ascii_chars(canister_text@),
            canister_text@.len() <= 100,
            encode_utf8(asset_properties.content_type@).len() <= TEXT_MAX_BYTES,
            encode_utf8(asset_properties.filename@).len() <= TEXT_MAX_BYTES,
            chunk_ids@.len() <= u32::MAX,
            old(self).commit_validate(chunk_ids@, caller@) is None ==> old(self).pairs_size(
                sort_pairs(old(self).batch_pairs(chunk_ids@)),
            ) <= u32::MAX,
        ensures
            final(self).wf(),
            final(self).chunk_count == old(self).chunk_count,
            final(self).in_production == old(self).in_production,
            match old(self).commit_validate(chunk_ids@, caller@) {
                Some(e) => r == Err::<u128, ErrorKind>(e) && *final(self) == *old(self),
                None => {
                    let sorted = sort_pairs(old(self).batch_pairs(chunk_ids@));
                    if old(self).batch_checksum(sorted) != asset_properties.checksum {
                        r == Err::<u128, ErrorKind>(ErrorKind::ChecksumMismatch) && *final(self)
                            == *old(self)
                    } else {
                        &&& r == Ok::<u128, ErrorKind>(old(self).asset_count)
                        &&& final(self).asset_count == old(self).asset_count + 1
                        &&& forall|k: u128|
                            final(self).chunks_map().contains_key(k) <==> (old(
                                self,
                            ).chunks_map().contains_key(k) && !batch_has_id(chunk_ids@, k))
                        &&& forall|k: u128|
                            final(self).chunks_map().contains_key(k) ==> final(self).chunks_map()[k]
                                == old(self).chunks_map()[k]
                        &&& final(self).assets_map() == old(self).assets_map().insert(
                            old(self).asset_count,
                            old(self).committed_asset(
                                chunk_ids@,
                                caller@,
                                now,
                                canister_id@,
                                canister_text@,
                                *asset_properties,
                            ),
                        )
                        &&& forall|i: int|
                            0 <= i < sorted.len() ==> final(self).blocks().contains_key(
                                (old(self).asset_count, i as u32),
                            ) && final(self).blocks()[(old(self).asset_count, i as u32)] == old(
                                self,
                            ).chunks_map()[sorted[i].0 as u128].content
                        &&& forall|p: (u128, u32)|
                            p.0 != old(self).asset_count ==> (final(self).blocks().contains_key(p)
                                <==> old(self).blocks().contains_key(p))
                        &&& forall|p: (u128, u32)|
                            p.0 != old(self).asset_count && final(self).blocks().contains_key(p)
                                ==> final(self).blocks()[p] == old(self).blocks()[p]
                        &&& forall|p: (u128, u32)|
                            p.0 == old(self).asset_count && final(self).blocks().contains_key(p)
                                ==> (p.1 as int) < sorted.len()
                    }
                },
            },
    {
        let ghost pre = *old(self);
        let n = chunk_ids.len();

        // Collect and verify the chunks: each must exist and belong to
        // the caller.
        let mut pairs: Vec<(u32, u32)> = Vec::new();
        let mut idx: usize = 0;
        proof {
            assert(chunk_ids@.subrange(0, 0) =~= Seq::<u32>::empty());
            assert(pairs@ =~= pre.batch_pairs(chunk_ids@.subrange(0, 0)));
        }
        while idx < n
            invariant
                pre.wf(),
                *self == pre,
                n == chunk_ids@.len(),
                idx <= n,
                pre.commit_validate(chunk_ids@.subrange(0, idx as int), caller@) is None,
                pairs@ == pre.batch_pairs(chunk_ids@.subrange(0, idx as int)),
            decreases n - idx,
        {
            let ghost prefix = chunk_ids@.subrange(0, idx as int);
            let id = *vstd::slice::slice_index_get(chunk_ids.as_slice(), idx);
            proof {
                assert(chunk_ids@.subrange(0, idx + 1) =~= prefix.push(id));
                pre.lemma_commit_validate_push(prefix, caller@, id);
            }
            match self.chunks.get(id as u128) {
                None => {
                    proof {
                        assert(pre.commit_validate(chunk_ids@, caller@) == Some(
                            ErrorKind::InvalidChunk,
                        )) by {
                            pre.lemma_commit_validate_extend(
                                chunk_ids@,
                                caller@,
                                idx as int,
                                ErrorKind::InvalidChunk,
                            );
                        }
                    }
                    return Err(ErrorKind::InvalidChunk);
                },
                Some(bytes) => {
                    proof {
                        assert(pre.chunk_tbl().contains_key(id as u128));
                        assert(pre.chunk_entry_wf(id as u128));
                    }
                    let chunk = Chunk::from_bytes(bytes.as_slice()).unwrap();
                    proof {
                        assert(chunk@ == pre.chunks_map()[id as u128]);
                    }
                    if !(&chunk.owner == caller) {
                        proof {
                            assert(pre.commit_validate(chunk_ids@, caller@) == Some(
                                ErrorKind::NotOwner,
                            )) by {
                                pre.lemma_commit_validate_extend(
                                    chunk_ids@,
                                    caller@,
                                    idx as int,
                                    ErrorKind::NotOwner,
                                );
                            }
                        }
                        return Err(ErrorKind::NotOwner);
                    }
                    pairs.push((id, chunk.order));
                    proof {
                        assert(pairs@ =~= pre.batch_pairs(chunk_ids@.subrange(0, idx + 1)));
                    }
                },
            }
            idx = idx + 1;
        }
        proof {
            assert(chunk_ids@.subrange(0, n as int) =~= chunk_ids@);
        }

        // Order the chunks: ascending by order, ties by batch position.
        let sorted = sort_pairs_exec(&pairs);
        let ghost sorted_spec = sort_pairs(pre.batch_pairs(chunk_ids@));
        proof {
            lemma_sort_pairs_multiset(pre.batch_pairs(chunk_ids@));
            pre.lemma_commit_validate_all(chunk_ids@, caller@);
            assert forall|i: int|
                0 <= i < sorted_spec.len() implies pre.chunks_map().contains_key(
                #[trigger] sorted_spec[i].0 as u128,
            ) by {
                assert(sorted_spec.contains(sorted_spec[i]));
                lemma_sort_pairs_contains(pre.batch_pairs(chunk_ids@), sorted_spec[i]);
                let j = choose|j: int|
                    0 <= j < pre.batch_pairs(chunk_ids@).len() && pre.batch_pairs(chunk_ids@)[j]
                        == sorted_spec[i];
                assert(pre.batch_pairs(chunk_ids@)[j].0 == chunk_ids@[j]);
            }
        }

        // Accumulate the total size and the aggregate checksum over the
        // sorted sequence; nothing is mutated yet.
        let mut checksum_acc: u64 = 0;
        let mut size_acc: u64 = 0;
        let mut i: usize = 0;
        proof {
            assert(sorted_spec.subrange(0, 0) =~= Seq::<(u32, u32)>::empty());
        }
        while i < sorted.len()
            invariant
                pre.wf(),
                *self == pre,
                sorted@ == sorted_spec,
                sorted_spec.len() == chunk_ids@.len(),
                i <= sorted@.len(),
                pre.pairs_size(sorted_spec) <= u32::MAX,
                forall|w: int|
                    0 <= w < sorted_spec.len() ==> pre.chunks_map().contains_key(
                        #[trigger] sorted_spec[w].0 as u128,
                    ),
                checksum_acc == pre.batch_checksum(sorted_spec.subrange(0, i as int)),
                checksum_acc < CHECKSUM_MODULO,
                size_acc == pre.pairs_size(sorted_spec.subrange(0, i as int)),
            decreases sorted@.len() - i,
        {
            let pair = *vstd::slice::slice_index_get(sorted.as_slice(), i);
            proof {
                assert(sorted_spec[i as int].0 == pair.0);
                assert(pre.chunk_tbl().contains_key(pair.0 as u128));
                assert(pre.chunk_entry_wf(pair.0 as u128));
                assert(sorted_spec.subrange(0, i + 1).drop_last() =~= sorted_spec.subrange(
                    0,
                    i as int,
                ));
                assert(sorted_spec.subrange(0, i + 1).last() == sorted_spec[i as int]);
                pre.lemma_pairs_size_prefix(sorted_spec, i + 1);
            }
            let bytes = self.chunks.get(pair.0 as u128).unwrap();
            let chunk = Chunk::from_bytes(bytes.as_slice()).unwrap();
            proof {
                assert(chunk@ == pre.chunks_map()[pair.0 as u128]);
            }
            checksum_acc = (checksum_acc + chunk.checksum as u64) % (CHECKSUM_MODULO as u64);
            size_acc = size_acc + chunk.content.len() as u64;
            i = i + 1;
        }
        proof {
            assert(sorted_spec.subrange(0, sorted@.len() as int) =~= sorted_spec);
        }

        // Verify the aggregate checksum; on a mismatch nothing changes.
        if checksum_acc as u32 != asset_properties.checksum {
            return Err(ErrorKind::ChecksumMismatch);
        }

        // The batch is valid: allocate the identifier, write the blocks,
        // consume the chunks, record the asset.
        let asset_id = self.get_asset_id();
        proof {
            assert forall|p: (u128, u32)|
                p.0 == asset_id implies !self.blocks().contains_key(p) by {
                if self.blocks().contains_key(p) {
                    assert(pre.blocks().contains_key(p));
                    assert(pre.asset_tbl().contains_key(p.0));
                    assert(pre.asset_entry_wf(p.0));
                }
            }
        }

        let mut i: usize = 0;
        while i < sorted.len()
            invariant
                pre.wf(),
                self.chunks == pre.chunks,
                self.assets == pre.assets,
                self.chunk_count == pre.chunk_count,
                self.in_production == pre.in_production,
                self.asset_count == pre.asset_count + 1,
                asset_id == pre.asset_count,
                sorted@ == sorted_spec,
                sorted_spec.len() == chunk_ids@.len(),
                chunk_ids@.len() <= u32::MAX,
                i <= sorted@.len(),
                forall|w: int|
                    0 <= w < sorted_spec.len() ==> pre.chunks_map().contains_key(
                        #[trigger] sorted_spec[w].0 as u128,
                    ),
                forall|p: (u128, u32)|
                    p.0 != asset_id ==> (self.blocks().contains_key(p) <==> pre.blocks(
                    ).contains_key(p)),
                forall|p: (u128, u32)|
                    p.0 != asset_id && self.blocks().contains_key(p) ==> self.blocks()[p]
                        == pre.blocks()[p],
                forall|p: (u128, u32)|
                    p.0 == asset_id && (p.1 as int) < i ==> #[trigger] self.blocks().contains_key(
                        p,
                    ) && self.blocks()[p]
                        == pre.chunks_map()[sorted_spec[p.1 as int].0 as u128].content,
                forall|p: (u128, u32)|
                    p.0 == asset_id && #[trigger] self.blocks().contains_key(p) ==> (p.1 as int)
                        < i,
            decreases sorted@.len() - i,
        {
            let pair = *vstd::slice::slice_index_get(sorted.as_slice(), i);
            proof {
                assert(sorted_spec[i as int].0 == pair.0);
                assert(pre.chunk_tbl().contains_key(pair.0 as u128));
                assert(pre.chunk_entry_wf(pair.0 as u128));
            }
            let bytes = self.chunks.get(pair.0 as u128).unwrap();
            let chunk = Chunk::from_bytes(bytes.as_slice()).unwrap();
            proof {
                assert(chunk@ == pre.chunks_map()[pair.0 as u128]);
            }
            let ghost prev = self.blocks();
            let ghost i0 = i as int;
            self.contents.insert((asset_id, i as u32), chunk.content);
            i = i + 1;
            proof {
                assert(self.blocks() == prev.insert(
                    (asset_id, i0 as u32),
                    pre.chunks_map()[sorted_spec[i0].0 as u128].content,
                ));
                assert forall|p: (u128, u32)|
                    p.0 == asset_id && (p.1 as int) < i implies #[trigger] self.blocks(
                ).contains_key(p) && self.blocks()[p]
                    == pre.chunks_map()[sorted_spec[p.1 as int].0 as u128].content by {
                    if p.1 as int == i0 {
                        assert(p.1 == i0 as u32);
                        assert(p == (asset_id, i0 as u32));
                    } else {
                        assert(prev.contains_key(p));
                        assert(p != (asset_id, i0 as u32));
                    }
                }
            }
        }

        proof {
            assert forall|w: int| #![trigger sorted_spec[w]]
                0 <= w < sorted_spec.len() implies self.blocks().contains_key(
                (asset_id, w as u32),
            ) by {
                let p = (asset_id, w as u32);
                assert(p.0 == asset_id && (p.1 as int) < sorted_spec.len());
            }
        }

        // Consume the committed chunks.
        let ghost contents_done = self.contents;
        let mut i: usize = 0;
        while i < n
            invariant
                pre.wf(),
                n == chunk_ids@.len(),
                i <= n,
                self.assets == pre.assets,
                self.contents == contents_done,
                self.chunk_count == pre.chunk_count,
                self.in_production == pre.in_production,
                self.asset_count == pre.asset_count + 1,
                forall|k: u128|
                    self.chunk_tbl().contains_key(k) <==> (pre.chunk_tbl().contains_key(k)
                        && !batch_has_id_upto(chunk_ids@, i as int, k)),
                forall|k: u128|
                    self.chunk_tbl().contains_key(k) ==> self.chunk_tbl()[k] == pre.chunk_tbl()[k],
            decreases n - i,
        {
            let id = *vstd::slice::slice_index_get(chunk_ids.as_slice(), i);
            let ghost prev = self.chunk_tbl();
            self.chunks.remove(id as u128);
            i = i + 1;
            proof {
                assert forall|k: u128|
                    self.chunk_tbl().contains_key(k) <==> (pre.chunk_tbl().contains_key(k)
                        && !batch_has_id_upto(chunk_ids@, i as int, k)) by {
                    assert(prev.contains_key(k) <==> (pre.chunk_tbl().contains_key(k)
                        && !batch_has_id_upto(chunk_ids@, i - 1, k)));
                    if batch_has_id_upto(chunk_ids@, i as int, k) {
                        let j = choose|j: int| 0 <= j < i && chunk_ids@[j] as u128 == k;
                        if j < i - 1 {
                            assert(batch_has_id_upto(chunk_ids@, i - 1, k));
                        } else {
                            assert(k == id as u128);
                        }
                        assert(!self.chunk_tbl().contains_key(k));
                    } else {
                        assert(!batch_has_id_upto(chunk_ids@, i - 1, k));
                        assert(k != id as u128) by {
                            if k == id as u128 {
                                assert(chunk_ids@[i - 1] as u128 == k);
                                assert(batch_has_id_upto(chunk_ids@, i as int, k));
                            }
                        }
                    }
                }
            }
        }

        // Record the new asset under the fresh identifier.
        let url = generate_url(canister_text, asset_id, self.in_production);
        let asset = Asset {
            canister_id: canister_id.clone(),
            chunk_size: n as u32,
            content_encoding: asset_properties.content_encoding,
            content_type: asset_properties.content_type.clone(),
            filename: asset_properties.filename.clone(),
            content_size: size_acc as u32,
            created_at: now,
            id: asset_id,
            owner: caller.clone(),
            url,
        };
        proof {
            broadcast use is_ascii_chars_encode_utf8;

            lemma_url_chars_ascii(canister_text@, asset_id, pre.in_production);
            assert(asset.wf());
            crate::codec::lemma_asset_codec_round_trip(asset@);
        }
        let bytes = asset.to_bytes();
        self.assets.insert(asset_id, bytes);
        proof {
            let post = *self;
            assert(post.contents == contents_done);
            assert forall|w: int|
                0 <= w < sorted_spec.len() implies post.blocks().contains_key(
                (asset_id, w as u32),
            ) && post.blocks()[(asset_id, w as u32)]
                == pre.chunks_map()[sorted_spec[w].0 as u128].content by {
                let p = (asset_id, w as u32);
                assert(p.0 == asset_id && (p.1 as int) < sorted_spec.len());
                assert(post.blocks().contains_key(p));
                assert((p.1 as int) == w);
            }
            if pre.asset_tbl().contains_key(asset_id) {
                assert(pre.asset_entry_wf(asset_id));
                assert(false);
            }
            assert(post.assets_map() =~= pre.assets_map().insert(asset_id, asset@));
            assert(asset@ == pre.committed_asset(
                chunk_ids@,
                caller@,
                now,
                canister_id@,
                canister_text@,
                *asset_properties,
            ));
            assert forall|k: u128| #[trigger]
                post.chunk_tbl().contains_key(k) implies post.chunk_entry_wf(k) by {
                assert(pre.chunk_tbl().contains_key(k));
                assert(pre.chunk_entry_wf(k));
            }
            assert forall|k: u128| #[trigger]
                post.asset_tbl().contains_key(k) implies post.asset_entry_wf(k) by {
                if k == asset_id {
                    assert(post.asset_tbl()[k] == asset_bytes(asset@));
                } else {
                    assert(pre.asset_tbl().contains_key(k));
                    assert(pre.asset_entry_wf(k));
                }
            }
            assert forall|p: (u128, u32)| #[trigger]
                post.blocks().contains_key(p) implies post.asset_tbl().contains_key(p.0) && (
            p.1 as int) < parse_asset(post.asset_tbl()[p.0]).unwrap().chunk_size as int by {
                if p.0 == asset_id {
                    assert(post.asset_tbl()[p.0] == asset_bytes(asset@));
                } else {
                    assert(pre.blocks().contains_key(p));
                    assert(pre.asset_tbl().contains_key(p.0));
                    assert(pre.asset_entry_wf(p.0));
                }
            }
            assert forall|a: u128, w: u32|
                post.asset_tbl().contains_key(a) && (w as int) < parse_asset(
                    post.asset_tbl()[a],
                ).unwrap().chunk_size as int implies #[trigger] post.blocks().contains_key(
                (a, w),
            ) by {
                if a == asset_id {
                    assert(post.asset_tbl()[a] == asset_bytes(asset@));
                    assert((w as int) < n as int);
                } else {
                    assert(pre.asset_tbl().contains_key(a));
                    assert(pre.blocks().contains_key((a, w)));
                }
            }
        }
        Ok(asset_id)
    }
}

} // verus!
