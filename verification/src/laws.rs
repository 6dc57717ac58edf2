//! The engine's cross-operation laws, stated and proved over the same
//! spec functions its operations' contracts use.

use vstd::prelude::*;
use crate::codec::{meta_bytes, parse_meta, lemma_meta_codec_round_trip};
use crate::sort::{sort_pairs, lemma_sort_pairs_multiset};
use crate::stable::{ByteTable, BlockTable};
use crate::state::State;
use crate::types::ErrorKind;
use crate::upgrade::installed_state;
use crate::CHECKSUM_MODULO;
use crate::CHUNK_TTL_NANOS;

verus! {

impl State {
    /// The plain (unreduced) sum of the batch's chunk checksums.
    pub open spec fn pairs_checksum_total(self, pairs: Seq<(u32, u32)>) -> int
        decreases pairs.len(),
    {
        if pairs.len() == 0 {
            0
        } else {
            self.pairs_checksum_total(pairs.drop_last()) + self.chunks_map()[
                pairs.last().0 as u128
            ].checksum
        }
    }

    /// The aggregate checksum is the plain sum reduced modulo the fixed
    /// constant.
    pub proof fn lemma_batch_checksum_is_total(self, pairs: Seq<(u32, u32)>)
        ensures
            self.batch_checksum(pairs) == self.pairs_checksum_total(pairs) % (
            CHECKSUM_MODULO as int),
        decreases pairs.len(),
    {
        if pairs.len() == 0 {
        } else {
            self.lemma_batch_checksum_is_total(pairs.drop_last());
            let a = self.pairs_checksum_total(pairs.drop_last());
            let c = self.chunks_map()[pairs.last().0 as u128].checksum as int;
            let m = CHECKSUM_MODULO as int;
            vstd::arithmetic::div_mod::lemma_fundamental_div_mod(a, m);
            vstd::arithmetic::div_mod::lemma_mod_multiples_vanish(a / m, a % m + c, m);
        }
    }

    /// Removing one pair subtracts exactly its chunk's checksum from the
    /// plain sum.
    proof fn lemma_total_remove(self, pairs: Seq<(u32, u32)>, i: int)
        requires
            0 <= i < pairs.len(),
        ensures
            self.pairs_checksum_total(pairs.remove(i)) == self.pairs_checksum_total(pairs)
                - self.chunks_map()[pairs[i].0 as u128].checksum,
        decreases pairs.len(),
    {
        if i == pairs.len() - 1 {
            assert(pairs.remove(i) =~= pairs.drop_last());
        } else {
            assert(pairs.remove(i).drop_last() =~= pairs.drop_last().remove(i));
            assert(pairs.remove(i).last() == pairs.last());
            self.lemma_total_remove(pairs.drop_last(), i);
            assert(pairs.drop_last()[i] == pairs[i]);
        }
    }

    /// Two batches with the same multiset of pairs have the same plain
    /// sum.
    proof fn lemma_total_permutation(self, p1: Seq<(u32, u32)>, p2: Seq<(u32, u32)>)
        requires
            p1.to_multiset() == p2.to_multiset(),
        ensures
            self.pairs_checksum_total(p1) == self.pairs_checksum_total(p2),
        decreases p1.len(),
    {
        broadcast use vstd::seq_lib::group_to_multiset_ensures;

        if p1.len() == 0 {
            assert(p1.to_multiset().len() == p1.len());
            assert(p2.to_multiset().len() == p2.len());
            assert(p2.len() == 0);
        } else {
            let x = p1.last();
            assert(p1.contains(x));
            assert(p1.to_multiset().count(x) > 0);
            assert(p2.to_multiset().count(x) > 0);
            assert(p2.contains(x));
            let j = choose|j: int| 0 <= j < p2.len() && #[trigger] p2[j] == x;
            assert(p1.drop_last() =~= p1.remove(p1.len() - 1));
            assert(p1.remove(p1.len() - 1).to_multiset() =~= p1.to_multiset().remove(x));
            assert(p2.remove(j).to_multiset() =~= p2.to_multiset().remove(x));
            self.lemma_total_permutation(p1.drop_last(), p2.remove(j));
            self.lemma_total_remove(p2, j);
        }
    }

    /// The aggregate checksum is order-independent: any two batches with
    /// the same multiset of pairs — in particular, a batch and its
    /// order-sorted arrangement — agree on it.
    pub proof fn lemma_batch_checksum_order_independent(
        self,
        p1: Seq<(u32, u32)>,
        p2: Seq<(u32, u32)>,
    )
        requires
            p1.to_multiset() == p2.to_multiset(),
        ensures
            self.batch_checksum(p1) == self.batch_checksum(p2),
    {
        self.lemma_batch_checksum_is_total(p1);
        self.lemma_batch_checksum_is_total(p2);
        self.lemma_total_permutation(p1, p2);
    }

    /// The aggregate checksum a commit verifies — computed over the
    /// sorted batch — equals the order-independent sum over the batch as
    /// the caller gave it.
    pub proof fn lemma_commit_checksum_order_independent(self, ids: Seq<u32>)
        ensures
            self.batch_checksum(sort_pairs(self.batch_pairs(ids))) == self.batch_checksum(
                self.batch_pairs(ids),
            ),
    {
        lemma_sort_pairs_multiset(self.batch_pairs(ids));
        self.lemma_batch_checksum_order_independent(
            sort_pairs(self.batch_pairs(ids)),
            self.batch_pairs(ids),
        );
    }

    /// The concatenation of an asset's blocks `0..n`, in order.
    pub open spec fn blocks_concat(self, aid: u128, n: int) -> Seq<u8>
        decreases n,
    {
        if n <= 0 {
            Seq::empty()
        } else {
            self.blocks_concat(aid, n - 1) + self.blocks()[(aid, (n - 1) as u32)]
        }
    }

    /// The concatenation of the batch's chunk contents, in pair order.
    pub open spec fn batch_content(self, pairs: Seq<(u32, u32)>) -> Seq<u8>
        decreases pairs.len(),
    {
        if pairs.len() == 0 {
            Seq::empty()
        } else {
            self.batch_content(pairs.drop_last()) + self.chunks_map()[
                pairs.last().0 as u128
            ].content
        }
    }

    /// A batch's concatenated content is exactly as long as the batch's
    /// total size — so a committed asset's declared `content_size` is
    /// the sum of its blocks' byte lengths at creation time.
    pub proof fn lemma_batch_content_len(self, pairs: Seq<(u32, u32)>)
        ensures
            self.batch_content(pairs).len() == self.pairs_size(pairs),
        decreases pairs.len(),
    {
        if pairs.len() == 0 {
        } else {
            self.lemma_batch_content_len(pairs.drop_last());
        }
    }

    /// Round trip: where a commit has laid the sorted batch's chunks out
    /// as the blocks of a new asset — as `commit_batch` ensures on
    /// success — reading the blocks back in order reconstitutes exactly
    /// the chunks' bytes in order-sorted sequence.
    pub proof fn lemma_commit_round_trip(pre: State, post: State, aid: u128, sorted: Seq<
        (u32, u32),
    >, n: int)
        requires
            0 <= n <= sorted.len(),
            sorted.len() <= u32::MAX,
            forall|i: int|
                0 <= i < sorted.len() ==> post.blocks().contains_key(
                    (aid, #[trigger] (i as u32)),
                ) && post.blocks()[(aid, i as u32)] == pre.chunks_map()[sorted[i].0 as u128].content,
        ensures
            post.blocks_concat(aid, n) == pre.batch_content(sorted.subrange(0, n)),
        decreases n,
    {
        if n == 0 {
            assert(sorted.subrange(0, 0) =~= Seq::<(u32, u32)>::empty());
        } else {
            Self::lemma_commit_round_trip(pre, post, aid, sorted, n - 1);
            let t = sorted.subrange(0, n);
            assert(t.drop_last() =~= sorted.subrange(0, n - 1));
            assert(t.last() == sorted[n - 1]);
            assert(post.blocks()[(aid, (n - 1) as u32)] == pre.chunks_map()[
                sorted[n - 1].0 as u128
            ].content);
        }
    }

    /// Idempotence: clearing expired chunks twice at one instant removes
    /// nothing the second time, and no sweep ever removes a chunk
    /// younger than the time-to-live.
    pub proof fn lemma_clear_expired_idempotent(s0: State, s1: State, s2: State, now: u64)
        requires
            now >= CHUNK_TTL_NANOS,
            forall|k: u128|
                s1.chunks_map().contains_key(k) <==> (#[trigger] s0.chunks_map().contains_key(k)
                    && s0.chunks_map()[k].created_at >= now - CHUNK_TTL_NANOS),
            forall|k: u128|
                #[trigger] s1.chunks_map().contains_key(k) ==> s1.chunks_map()[k]
                    == s0.chunks_map()[k],
            forall|k: u128|
                s2.chunks_map().contains_key(k) <==> (#[trigger] s1.chunks_map().contains_key(k)
                    && s1.chunks_map()[k].created_at >= now - CHUNK_TTL_NANOS),
        ensures
            forall|k: u128|
                s2.chunks_map().contains_key(k) <==> #[trigger] s1.chunks_map().contains_key(k),
            forall|k: u128|
                s0.chunks_map().contains_key(k) && #[trigger] s0.chunks_map()[k].created_at >= now
                    - CHUNK_TTL_NANOS ==> s1.chunks_map().contains_key(k),
    {
        assert forall|k: u128|
            s2.chunks_map().contains_key(k) <==> #[trigger] s1.chunks_map().contains_key(k) by {
            if s1.chunks_map().contains_key(k) {
                assert(s0.chunks_map().contains_key(k));
                assert(s1.chunks_map()[k] == s0.chunks_map()[k]);
            }
        }
    }

    /// Restart round trip: the metadata blob a state persists decodes
    /// back to exactly its own counters and flag, so a restore from that
    /// blob — which `install` promises to install unchanged — keeps
    /// `in_production`, `chunk_count` and `asset_count` as they were.
    /// With every identifier below its counter (well-formedness) and
    /// every allocation incrementing the counter, identifiers are never
    /// reused, across restarts included.
    pub proof fn lemma_restart_preserves_counters(
        s: State,
        chunks: ByteTable,
        assets: ByteTable,
        contents: BlockTable,
    )
        ensures
            parse_meta(meta_bytes(s.meta_view())) == Some(s.meta_view()),
            installed_state(s.meta_view(), chunks, assets, contents).chunk_count == s.chunk_count,
            installed_state(s.meta_view(), chunks, assets, contents).asset_count == s.asset_count,
            installed_state(s.meta_view(), chunks, assets, contents).in_production
                == s.in_production,
    {
        lemma_meta_codec_round_trip(s.meta_view());
    }

    /// A batch with an absent chunk, all of whose present chunks are the
    /// caller's, always fails validation with `InvalidChunk` — and
    /// `commit_batch` then returns that error with the stores untouched.
    /// (With an earlier foreign-owned chunk the ownership error comes
    /// first instead.)
    pub proof fn lemma_commit_invalid_chunk(s: State, ids: Seq<u32>, caller: Seq<u8>)
        requires
            forall|i: int|
                0 <= i < ids.len() && s.chunks_map().contains_key(#[trigger] ids[i] as u128)
                    ==> s.chunks_map()[ids[i] as u128].owner == caller,
            exists|i: int|
                0 <= i < ids.len() && !s.chunks_map().contains_key(#[trigger] ids[i] as u128),
        ensures
            s.commit_validate(ids, caller) == Some(ErrorKind::InvalidChunk),
        decreases ids.len(),
    {
        let w = choose|i: int|
            0 <= i < ids.len() && !s.chunks_map().contains_key(#[trigger] ids[i] as u128);
        assert(ids[0] == ids.first());
        if !s.chunks_map().contains_key(ids.first() as u128) {
        } else {
            assert(w > 0);
            assert forall|i: int|
                0 <= i < ids.drop_first().len() && s.chunks_map().contains_key(
                    #[trigger] ids.drop_first()[i] as u128,
                ) implies s.chunks_map()[ids.drop_first()[i] as u128].owner == caller by {
                assert(ids.drop_first()[i] == ids[i + 1]);
            }
            assert(ids.drop_first()[w - 1] == ids[w]);
            assert(!s.chunks_map().contains_key(ids.drop_first()[w - 1] as u128));
            Self::lemma_commit_invalid_chunk(s, ids.drop_first(), caller);
        }
    }

    /// Ownership: a batch whose chunks are all present but one of which
    /// belongs to another identity always fails validation with
    /// `NotOwner` — and `commit_batch` then returns that error with the
    /// stores untouched.
    pub proof fn lemma_commit_not_owner(s: State, ids: Seq<u32>, caller: Seq<u8>)
        requires
            forall|i: int|
                0 <= i < ids.len() ==> s.chunks_map().contains_key(#[trigger] ids[i] as u128),
            exists|i: int|
                0 <= i < ids.len() && s.chunks_map()[#[trigger] ids[i] as u128].owner != caller,
        ensures
            s.commit_validate(ids, caller) == Some(ErrorKind::NotOwner),
        decreases ids.len(),
    {
        let w = choose|i: int|
            0 <= i < ids.len() && s.chunks_map()[#[trigger] ids[i] as u128].owner != caller;
        assert(ids[0] == ids.first());
        if s.chunks_map()[ids.first() as u128].owner != caller {
        } else {
            assert(w > 0);
            assert forall|i: int|
                0 <= i < ids.drop_first().len() implies s.chunks_map().contains_key(
                #[trigger] ids.drop_first()[i] as u128,
            ) by {
                assert(ids.drop_first()[i] == ids[i + 1]);
            }
            assert(ids.drop_first()[w - 1] == ids[w]);
            assert(s.chunks_map()[ids.drop_first()[w - 1] as u128].owner != caller);
            Self::lemma_commit_not_owner(s, ids.drop_first(), caller);
        }
    }
}

} // verus!
