//! Byte encodings of the records the engine persists.
//!
//! Every table value is stored as a variable-length byte encoding; the
//! functions here define those encodings, and each decoder is proved to
//! invert its encoder.  Integers are little-endian; variable-length parts
//! are length-prefixed with a 32-bit count; text is UTF-8.

use vstd::prelude::*;
use vstd::bytes::*;
use vstd::slice::{slice_subrange, slice_to_vec};
use vstd::string::StrSliceExecFns;
use vstd::utf8::{valid_utf8, decode_utf8, encode_utf8, encode_utf8_valid_utf8,
    encode_utf8_decode_utf8};
use crate::types::{Asset, AssetView, Chunk, ChunkView, ContentEncoding, Principal};

verus! {

/// The longest identity the engine accepts, in bytes.
pub const PRINCIPAL_MAX_BYTES: usize = 29;

/// The longest chunk content the engine accepts, in bytes.
pub const CONTENT_MAX_BYTES: usize = 2 * 1024 * 1024;

/// A stored chunk record is well formed when its variable-length parts
/// respect the declared maxima of the chunk table.
pub open spec fn chunk_view_wf(c: ChunkView) -> bool {
    &&& c.owner.len() <= PRINCIPAL_MAX_BYTES
    &&& c.content.len() <= CONTENT_MAX_BYTES
}

/// The byte encoding of a chunk record: the fixed-width fields, the
/// length-prefixed owner, then the content (which runs to the end).
pub open spec fn chunk_bytes(c: ChunkView) -> Seq<u8> {
    spec_u32_to_le_bytes(c.id) + spec_u32_to_le_bytes(c.order) + spec_u32_to_le_bytes(c.checksum)
        + spec_u64_to_le_bytes(c.created_at) + spec_u32_to_le_bytes(c.owner.len() as u32)
        + c.owner + c.content
}

/// The value a chunk record encoding stands for, or `None` where the
/// bytes are not a well-formed encoding.
pub open spec fn parse_chunk(b: Seq<u8>) -> Option<ChunkView> {
    if b.len() < 24 {
        None
    } else {
        let owner_len = spec_u32_from_le_bytes(b.subrange(20, 24)) as int;
        if owner_len > PRINCIPAL_MAX_BYTES || 24 + owner_len > b.len() {
            None
        } else if b.len() - 24 - owner_len > CONTENT_MAX_BYTES {
            None
        } else {
            Some(ChunkView {
                id: spec_u32_from_le_bytes(b.subrange(0, 4)),
                order: spec_u32_from_le_bytes(b.subrange(4, 8)),
                checksum: spec_u32_from_le_bytes(b.subrange(8, 12)),
                created_at: spec_u64_from_le_bytes(b.subrange(12, 20)),
                owner: b.subrange(24, 24 + owner_len),
                content: b.subrange(24 + owner_len, b.len() as int),
            })
        }
    }
}

/// Decoding inverts encoding: every well-formed chunk record is read back
/// from its own byte encoding unchanged.
pub proof fn lemma_chunk_codec_round_trip(c: ChunkView)
    requires
        chunk_view_wf(c),
    ensures
        parse_chunk(chunk_bytes(c)) == Some(c),
{
    lemma_auto_spec_u32_to_from_le_bytes();
    lemma_auto_spec_u64_to_from_le_bytes();
    let b = chunk_bytes(c);
    assert(b.len() == 24 + c.owner.len() + c.content.len());
    assert(b.subrange(0, 4) =~= spec_u32_to_le_bytes(c.id));
    assert(b.subrange(4, 8) =~= spec_u32_to_le_bytes(c.order));
    assert(b.subrange(8, 12) =~= spec_u32_to_le_bytes(c.checksum));
    assert(b.subrange(12, 20) =~= spec_u64_to_le_bytes(c.created_at));
    assert(b.subrange(20, 24) =~= spec_u32_to_le_bytes(c.owner.len() as u32));
    let owner_len = c.owner.len() as int;
    assert(b.subrange(24, 24 + owner_len) =~= c.owner);
    assert(b.subrange(24 + owner_len, b.len() as int) =~= c.content);
    assert(parse_chunk(b) == Some(c));
}

/// Reads the little-endian `u32` at `off`.
pub fn read_u32_at(b: &[u8], off: usize) -> (r: u32)
    requires
        off + 4 <= b@.len(),
    ensures
        r == spec_u32_from_le_bytes(b@.subrange(off as int, off + 4)),
{
    let n = b.len();
    u32_from_le_bytes(slice_subrange(b, off, off + 4))
}

/// Reads the little-endian `u64` at `off`.
pub fn read_u64_at(b: &[u8], off: usize) -> (r: u64)
    requires
        off + 8 <= b@.len(),
    ensures
        r == spec_u64_from_le_bytes(b@.subrange(off as int, off + 8)),
{
    let n = b.len();
    u64_from_le_bytes(slice_subrange(b, off, off + 8))
}

/// Reads the little-endian `u128` at `off`.
pub fn read_u128_at(b: &[u8], off: usize) -> (r: u128)
    requires
        off + 16 <= b@.len(),
    ensures
        r == spec_u128_from_le_bytes(b@.subrange(off as int, off + 16)),
{
    let n = b.len();
    u128_from_le_bytes(slice_subrange(b, off, off + 16))
}

/// Copies the `len` bytes at `off` out of `b`.
pub fn read_seg(b: &[u8], off: usize, len: usize) -> (r: Vec<u8>)
    requires
        off + len <= b@.len(),
    ensures
        r@ == b@.subrange(off as int, off + len),
{
    let n = b.len();
    slice_to_vec(slice_subrange(b, off, off + len))
}

impl Chunk {
    /// A stored chunk record is well formed when its variable-length
    /// parts respect the declared maxima of the chunk table.
    pub open spec fn wf(&self) -> bool {
        chunk_view_wf(self@)
    }

    /// Serializes this chunk record for the chunk table.
    pub fn to_bytes(&self) -> (r: Vec<u8>)
        requires
            self.wf(),
        ensures
            r@ == chunk_bytes(self@),
    {
        let mut out = u32_to_le_bytes(self.id);
        let mut order = u32_to_le_bytes(self.order);
        out.append(&mut order);
        let mut checksum = u32_to_le_bytes(self.checksum);
        out.append(&mut checksum);
        let mut created = u64_to_le_bytes(self.created_at);
        out.append(&mut created);
        let mut owner_len = u32_to_le_bytes(self.owner.bytes.len() as u32);
        out.append(&mut owner_len);
        let mut owner = slice_to_vec(self.owner.bytes.as_slice());
        out.append(&mut owner);
        let mut content = slice_to_vec(self.content.as_slice());
        out.append(&mut content);
        proof {
            assert(out@ =~= chunk_bytes(self@));
        }
        out
    }

    /// Deserializes a chunk record from the chunk table, or `None` where
    /// the bytes are not a well-formed encoding.
    pub fn from_bytes(b: &[u8]) -> (r: Option<Chunk>)
        ensures
            match parse_chunk(b@) {
                Some(c) => r is Some && r.unwrap()@ == c && r.unwrap().wf(),
                None => r is None,
            },
    {
        if b.len() < 24 {
            return None;
        }
        let owner_len = read_u32_at(b, 20) as usize;
        if owner_len > PRINCIPAL_MAX_BYTES || owner_len > b.len() - 24 {
            return None;
        }
        let content_len = b.len() - 24 - owner_len;
        if content_len > CONTENT_MAX_BYTES {
            return None;
        }
        let id = read_u32_at(b, 0);
        let order = read_u32_at(b, 4);
        let checksum = read_u32_at(b, 8);
        let created_at = read_u64_at(b, 12);
        let owner = read_seg(b, 24, owner_len);
        let content = read_seg(b, 24 + owner_len, content_len);
        Some(Chunk { checksum, content, created_at, id, order, owner: Principal { bytes: owner } })
    }
}

/// The longest text field (content type, filename, URL) the engine
/// accepts, as UTF-8 bytes.
pub const TEXT_MAX_BYTES: usize = 64 * 1024;

/// The single byte that stands for a content encoding.
pub open spec fn encoding_byte(e: ContentEncoding) -> u8 {
    match e {
        ContentEncoding::Identity => 0,
        ContentEncoding::GZIP => 1,
    }
}

/// A length-prefixed segment: a 32-bit count followed by that many bytes.
pub open spec fn seg_bytes(s: Seq<u8>) -> Seq<u8> {
    spec_u32_to_le_bytes(s.len() as u32) + s
}

/// The segment starting at `off` and the offset just past it, or `None`
/// where the prefix or the counted bytes run past the end.
pub open spec fn parse_seg(b: Seq<u8>, off: int) -> Option<(Seq<u8>, int)> {
    if off < 0 || off + 4 > b.len() {
        None
    } else {
        let l = spec_u32_from_le_bytes(b.subrange(off, off + 4)) as int;
        if off + 4 + l > b.len() {
            None
        } else {
            Some((b.subrange(off + 4, off + 4 + l), off + 4 + l))
        }
    }
}

/// A stored asset record is well formed when its variable-length parts
/// respect the declared maxima of the asset table.
pub open spec fn asset_view_wf(a: AssetView) -> bool {
    &&& a.owner.len() <= PRINCIPAL_MAX_BYTES
    &&& a.canister_id.len() <= PRINCIPAL_MAX_BYTES
    &&& encode_utf8(a.content_type).len() <= TEXT_MAX_BYTES
    &&& encode_utf8(a.filename).len() <= TEXT_MAX_BYTES
    &&& encode_utf8(a.url).len() <= TEXT_MAX_BYTES
}

/// The byte encoding of an asset record: the fixed-width fields, the
/// encoding byte, then five length-prefixed segments (owner, location,
/// content type, filename, URL; text as UTF-8).
pub open spec fn asset_bytes(a: AssetView) -> Seq<u8> {
    spec_u128_to_le_bytes(a.id) + spec_u32_to_le_bytes(a.chunk_size)
        + spec_u32_to_le_bytes(a.content_size) + spec_u64_to_le_bytes(a.created_at)
        + seq![encoding_byte(a.content_encoding)] + seg_bytes(a.owner) + seg_bytes(a.canister_id)
        + seg_bytes(encode_utf8(a.content_type)) + seg_bytes(encode_utf8(a.filename))
        + seg_bytes(encode_utf8(a.url))
}

/// The value an asset record encoding stands for, or `None` where the
/// bytes are not a well-formed encoding that ends exactly at the last
/// segment.
pub open spec fn parse_asset(b: Seq<u8>) -> Option<AssetView> {
    if b.len() < 33 || b[32] > 1 {
        None
    } else {
        match parse_seg(b, 33) {
            None => None,
            Some((owner, o1)) => match parse_seg(b, o1) {
                None => None,
                Some((canister_id, o2)) => match parse_seg(b, o2) {
                    None => None,
                    Some((ct, o3)) => match parse_seg(b, o3) {
                        None => None,
                        Some((fname, o4)) => match parse_seg(b, o4) {
                            None => None,
                            Some((url, o5)) => {
                                if o5 != b.len() || owner.len() > PRINCIPAL_MAX_BYTES
                                    || canister_id.len() > PRINCIPAL_MAX_BYTES
                                    || ct.len() > TEXT_MAX_BYTES || fname.len() > TEXT_MAX_BYTES
                                    || url.len() > TEXT_MAX_BYTES || !valid_utf8(ct)
                                    || !valid_utf8(fname) || !valid_utf8(url) {
                                    None
                                } else {
                                    Some(AssetView {
                                        id: spec_u128_from_le_bytes(b.subrange(0, 16)),
                                        chunk_size: spec_u32_from_le_bytes(b.subrange(16, 20)),
                                        content_size: spec_u32_from_le_bytes(b.subrange(20, 24)),
                                        created_at: spec_u64_from_le_bytes(b.subrange(24, 32)),
                                        content_encoding: if b[32] == 0 {
                                            ContentEncoding::Identity
                                        } else {
                                            ContentEncoding::GZIP
                                        },
                                        owner,
                                        canister_id,
                                        content_type: decode_utf8(ct),
                                        filename: decode_utf8(fname),
                                        url: decode_utf8(url),
                                    })
                                }
                            },
                        },
                    },
                },
            },
        }
    }
}

/// Decoding inverts encoding: every well-formed asset record is read back
/// from its own byte encoding unchanged.
pub proof fn lemma_asset_codec_round_trip(a: AssetView)
    requires
        asset_view_wf(a),
    ensures
        parse_asset(asset_bytes(a)) == Some(a),
{
    broadcast use encode_utf8_valid_utf8, encode_utf8_decode_utf8;

    lemma_auto_spec_u32_to_from_le_bytes();
    lemma_auto_spec_u64_to_from_le_bytes();
    lemma_auto_spec_u128_to_from_le_bytes();
    let b = asset_bytes(a);
    let owner = a.owner;
    let canister_id = a.canister_id;
    let ct = encode_utf8(a.content_type);
    let fname = encode_utf8(a.filename);
    let url = encode_utf8(a.url);
    let o1 = 37 + owner.len() as int;
    let o2 = o1 + 4 + canister_id.len();
    let o3 = o2 + 4 + ct.len();
    let o4 = o3 + 4 + fname.len();
    let o5 = o4 + 4 + url.len();
    assert(b.len() == o5);
    assert(b.subrange(0, 16) =~= spec_u128_to_le_bytes(a.id));
    assert(b.subrange(16, 20) =~= spec_u32_to_le_bytes(a.chunk_size));
    assert(b.subrange(20, 24) =~= spec_u32_to_le_bytes(a.content_size));
    assert(b.subrange(24, 32) =~= spec_u64_to_le_bytes(a.created_at));
    assert(b[32] == encoding_byte(a.content_encoding));
    assert(b.subrange(33, 37) =~= spec_u32_to_le_bytes(owner.len() as u32));
    assert(b.subrange(37, o1) =~= owner);
    assert(parse_seg(b, 33) == Some((owner, o1)));
    assert(b.subrange(o1, o1 + 4) =~= spec_u32_to_le_bytes(canister_id.len() as u32));
    assert(b.subrange(o1 + 4, o2) =~= canister_id);
    assert(parse_seg(b, o1) == Some((canister_id, o2)));
    assert(b.subrange(o2, o2 + 4) =~= spec_u32_to_le_bytes(ct.len() as u32));
    assert(b.subrange(o2 + 4, o3) =~= ct);
    assert(parse_seg(b, o2) == Some((ct, o3)));
    assert(b.subrange(o3, o3 + 4) =~= spec_u32_to_le_bytes(fname.len() as u32));
    assert(b.subrange(o3 + 4, o4) =~= fname);
    assert(parse_seg(b, o3) == Some((fname, o4)));
    assert(b.subrange(o4, o4 + 4) =~= spec_u32_to_le_bytes(url.len() as u32));
    assert(b.subrange(o4 + 4, o5) =~= url);
    assert(parse_seg(b, o4) == Some((url, o5)));
    assert(parse_asset(b) == Some(a));
}

/// Relies on `String::from_utf8`: decodes the bytes as UTF-8, and fails
/// exactly on byte sequences that are not valid UTF-8.
#[verifier::external_body]
fn string_from_utf8(v: Vec<u8>) -> (r: Option<String>)
    ensures
        r is Some <==> valid_utf8(v@),
        r is Some ==> encode_utf8(r.unwrap()@) == v@,
{
    match String::from_utf8(v) {
        Ok(s) => Some(s),
        Err(_) => None,
    }
}

/// Appends a length-prefixed segment to `out`.
fn push_seg(out: &mut Vec<u8>, seg: &[u8])
    requires
        seg@.len() <= TEXT_MAX_BYTES,
    ensures
        final(out)@ == old(out)@ + seg_bytes(seg@),
{
    let n = seg.len();
    let mut prefix = u32_to_le_bytes(n as u32);
    out.append(&mut prefix);
    let mut body = slice_to_vec(seg);
    out.append(&mut body);
    proof {
        assert(final(out)@ =~= old(out)@ + seg_bytes(seg@));
    }
}

/// Reads the segment starting at `off`, returning its bytes and the
/// offset just past it.
fn read_seg_at(b: &[u8], off: usize) -> (r: Option<(Vec<u8>, usize)>)
    ensures
        match parse_seg(b@, off as int) {
            Some(p) => r is Some && r.unwrap().0@ == p.0 && r.unwrap().1 == p.1,
            None => r is None,
        },
{
    let n = b.len();
    if off > n || n - off < 4 {
        return None;
    }
    let l = read_u32_at(b, off) as usize;
    if l > n - off - 4 {
        return None;
    }
    let seg = read_seg(b, off + 4, l);
    Some((seg, off + 4 + l))
}

impl Asset {
    /// A stored asset record is well formed when its variable-length
    /// parts respect the declared maxima of the asset table.
    pub open spec fn wf(&self) -> bool {
        asset_view_wf(self@)
    }

    /// Serializes this asset record for the asset table.
    pub fn to_bytes(&self) -> (r: Vec<u8>)
        requires
            self.wf(),
        ensures
            r@ == asset_bytes(self@),
    {
        let mut out = u128_to_le_bytes(self.id);
        let mut chunk_size = u32_to_le_bytes(self.chunk_size);
        out.append(&mut chunk_size);
        let mut content_size = u32_to_le_bytes(self.content_size);
        out.append(&mut content_size);
        let mut created = u64_to_le_bytes(self.created_at);
        out.append(&mut created);
        let encoding: u8 = match self.content_encoding {
            ContentEncoding::Identity => 0,
            ContentEncoding::GZIP => 1,
        };
        out.push(encoding);
        push_seg(&mut out, self.owner.bytes.as_slice());
        push_seg(&mut out, self.canister_id.bytes.as_slice());
        push_seg(&mut out, self.content_type.as_str().as_bytes());
        push_seg(&mut out, self.filename.as_str().as_bytes());
        push_seg(&mut out, self.url.as_str().as_bytes());
        proof {
            assert(out@ =~= asset_bytes(self@));
        }
        out
    }

    /// Deserializes an asset record from the asset table, or `None` where
    /// the bytes are not a well-formed encoding.
    pub fn from_bytes(b: &[u8]) -> (r: Option<Asset>)
        ensures
            match parse_asset(b@) {
                Some(a) => r is Some && r.unwrap()@ == a && r.unwrap().wf(),
                None => r is None,
            },
    {
        if b.len() < 33 {
            return None;
        }
        let encoding_code = *vstd::slice::slice_index_get(b, 32);
        if encoding_code > 1 {
            return None;
        }
        let (owner, o1) = match read_seg_at(b, 33) {
            None => { return None; },
            Some(p) => p,
        };
        let (canister_id, o2) = match read_seg_at(b, o1) {
            None => { return None; },
            Some(p) => p,
        };
        let (ct, o3) = match read_seg_at(b, o2) {
            None => { return None; },
            Some(p) => p,
        };
        let (fname, o4) = match read_seg_at(b, o3) {
            None => { return None; },
            Some(p) => p,
        };
        let (url, o5) = match read_seg_at(b, o4) {
            None => { return None; },
            Some(p) => p,
        };
        if o5 != b.len() || owner.len() > PRINCIPAL_MAX_BYTES
            || canister_id.len() > PRINCIPAL_MAX_BYTES || ct.len() > TEXT_MAX_BYTES
            || fname.len() > TEXT_MAX_BYTES || url.len() > TEXT_MAX_BYTES {
            return None;
        }
        let content_type = match string_from_utf8(ct) {
            None => { return None; },
            Some(s) => s,
        };
        let filename = match string_from_utf8(fname) {
            None => { return None; },
            Some(s) => s,
        };
        let url_text = match string_from_utf8(url) {
            None => { return None; },
            Some(s) => s,
        };
        let id = read_u128_at(b, 0);
        let chunk_size = read_u32_at(b, 16);
        let content_size = read_u32_at(b, 20);
        let created_at = read_u64_at(b, 24);
        proof {
            broadcast use encode_utf8_decode_utf8;
        }
        Some(Asset {
            canister_id: Principal { bytes: canister_id },
            chunk_size,
            content_encoding: if encoding_code == 0 {
                ContentEncoding::Identity
            } else {
                ContentEncoding::GZIP
            },
            content_type,
            filename,
            content_size,
            created_at,
            id,
            owner: Principal { bytes: owner },
            url: url_text,
        })
    }
}

/// The transient counters and flags that live on the heap and are
/// serialized into the reserved region around a restart; the durable
/// tables need no such treatment.
pub struct StateMeta {
    pub in_production: bool,
    pub chunk_count: u32,
    pub asset_count: u128,
}

/// The mathematical value of the serialized metadata.
pub ghost struct StateMetaView {
    pub in_production: bool,
    pub chunk_count: u32,
    pub asset_count: u128,
}

impl View for StateMeta {
    type V = StateMetaView;

    open spec fn view(&self) -> StateMetaView {
        StateMetaView {
            in_production: self.in_production,
            chunk_count: self.chunk_count,
            asset_count: self.asset_count,
        }
    }
}

/// The byte encoding of the metadata record.
pub open spec fn meta_bytes(m: StateMetaView) -> Seq<u8> {
    seq![if m.in_production { 1u8 } else { 0u8 }] + spec_u32_to_le_bytes(m.chunk_count)
        + spec_u128_to_le_bytes(m.asset_count)
}

/// The value a metadata encoding stands for, or `None` where the bytes
/// are not a well-formed encoding.
pub open spec fn parse_meta(b: Seq<u8>) -> Option<StateMetaView> {
    if b.len() != 21 || b[0] > 1 {
        None
    } else {
        Some(StateMetaView {
            in_production: b[0] == 1,
            chunk_count: spec_u32_from_le_bytes(b.subrange(1, 5)),
            asset_count: spec_u128_from_le_bytes(b.subrange(5, 21)),
        })
    }
}

/// Decoding inverts encoding for the metadata record.
pub proof fn lemma_meta_codec_round_trip(m: StateMetaView)
    ensures
        parse_meta(meta_bytes(m)) == Some(m),
{
    lemma_auto_spec_u32_to_from_le_bytes();
    lemma_auto_spec_u128_to_from_le_bytes();
    let b = meta_bytes(m);
    assert(b.subrange(1, 5) =~= spec_u32_to_le_bytes(m.chunk_count));
    assert(b.subrange(5, 21) =~= spec_u128_to_le_bytes(m.asset_count));
    assert(parse_meta(b) == Some(m));
}

impl StateMeta {
    /// Serializes the metadata record.
    pub fn to_bytes(&self) -> (r: Vec<u8>)
        ensures
            r@ == meta_bytes(self@),
    {
        let mut out: Vec<u8> = Vec::new();
        out.push(if self.in_production { 1 } else { 0 });
        let mut chunk_count = u32_to_le_bytes(self.chunk_count);
        out.append(&mut chunk_count);
        let mut asset_count = u128_to_le_bytes(self.asset_count);
        out.append(&mut asset_count);
        proof {
            assert(out@ =~= meta_bytes(self@));
        }
        out
    }

    /// Deserializes the metadata record, or `None` where the bytes are
    /// not a well-formed encoding.
    pub fn from_bytes(b: &[u8]) -> (r: Option<StateMeta>)
        ensures
            match parse_meta(b@) {
                Some(m) => r is Some && r.unwrap()@ == m,
                None => r is None,
            },
    {
        if b.len() != 21 {
            return None;
        }
        let flag = *vstd::slice::slice_index_get(b, 0);
        if flag > 1 {
            return None;
        }
        let chunk_count = read_u32_at(b, 1);
        let asset_count = read_u128_at(b, 5);
        Some(StateMeta { in_production: flag == 1, chunk_count, asset_count })
    }
}

} // verus!
