//! Data model of the storage engine: identities, chunks, assets and the
//! records exchanged with callers.

use vstd::prelude::*;

verus! {

/// An opaque caller identity.  The engine never looks inside it; it only
/// records it at upload time and compares it on commit and delete.
pub struct Principal {
    pub bytes: Vec<u8>,
}

impl View for Principal {
    type V = Seq<u8>;

    open spec fn view(&self) -> Seq<u8> {
        self.bytes@
    }
}

impl vstd::std_specs::cmp::PartialEqSpecImpl for Principal {
    open spec fn obeys_eq_spec() -> bool {
        true
    }

    open spec fn eq_spec(&self, other: &Principal) -> bool {
        self.bytes@ == other.bytes@
    }
}

impl PartialEq for Principal {
    fn eq(&self, other: &Self) -> bool {
        let r = self.bytes == other.bytes;
        proof {
            if r {
                assert(self.bytes@ =~= other.bytes@);
            }
        }
        r
    }
}

impl Clone for Principal {
    fn clone(&self) -> (r: Self)
        ensures
            r@ == self@,
    {
        Principal { bytes: vstd::slice::slice_to_vec(self.bytes.as_slice()) }
    }
}

/// The errors an operation can return to its caller.
#[derive(Clone, Copy, Debug, PartialEq, Eq, Structural)]
pub enum ErrorKind {
    /// A referenced chunk is absent from the chunk store.
    InvalidChunk,
    /// A referenced chunk is owned by an identity other than the caller.
    NotOwner,
    /// The aggregate checksum of the batch differs from the declared one.
    ChecksumMismatch,
    /// No asset has the given identifier.
    NotFound,
    /// Only the recorded owner may delete an asset.
    Unauthorized,
    /// Persisted state could not be decoded.
    EncodingFailure,
}

impl ErrorKind {
    /// The stable, client-facing message each error carries.
    pub open spec fn spec_message(&self) -> Seq<char> {
        match self {
            ErrorKind::InvalidChunk => "Invalid chunk ID."@,
            ErrorKind::NotOwner => "Caller does not own the chunk."@,
            ErrorKind::ChecksumMismatch => "Checksum mismatch."@,
            ErrorKind::NotFound => "Asset Not Found"@,
            ErrorKind::Unauthorized => "Unauthorized"@,
            ErrorKind::EncodingFailure => "failed to decode state"@,
        }
    }

    /// The stable, client-facing message of this error.
    pub fn message(&self) -> (r: String)
        ensures
            r@ == self.spec_message(),
    {
        match self {
            ErrorKind::InvalidChunk => String::from_str("Invalid chunk ID."),
            ErrorKind::NotOwner => String::from_str("Caller does not own the chunk."),
            ErrorKind::ChecksumMismatch => String::from_str("Checksum mismatch."),
            ErrorKind::NotFound => String::from_str("Asset Not Found"),
            ErrorKind::Unauthorized => String::from_str("Unauthorized"),
            ErrorKind::EncodingFailure => String::from_str("failed to decode state"),
        }
    }
}

/// How an asset's content is encoded, as declared by the committing caller.
#[derive(Clone, Copy, Debug, PartialEq, Eq, Structural)]
pub enum ContentEncoding {
    Identity,
    GZIP,
}

/// One chunk upload request: the fragment's bytes and its assembly order.
pub struct ChunkArg {
    pub order: u32,
    pub content: Vec<u8>,
}

/// The properties a caller declares when committing a batch of chunks.
pub struct AssetProperties {
    pub content_encoding: ContentEncoding,
    pub content_type: String,
    pub filename: String,
    pub checksum: u32,
}

/// A transient fragment awaiting assembly: created by an upload, destroyed
/// by the commit that consumes it or by garbage collection once expired.
pub struct Chunk {
    pub checksum: u32,
    pub content: Vec<u8>,
    pub created_at: u64,
    pub id: u32,
    pub order: u32,
    pub owner: Principal,
}

/// The mathematical value of a stored chunk.
pub ghost struct ChunkView {
    pub checksum: u32,
    pub content: Seq<u8>,
    pub created_at: u64,
    pub id: u32,
    pub order: u32,
    pub owner: Seq<u8>,
}

impl View for Chunk {
    type V = ChunkView;

    open spec fn view(&self) -> ChunkView {
        ChunkView {
            checksum: self.checksum,
            content: self.content@,
            created_at: self.created_at,
            id: self.id,
            order: self.order,
            owner: self.owner@,
        }
    }
}

/// An immutable committed object.  Its content blocks live in a secondary
/// ordered table keyed by `(asset id, block index)`; this record carries
/// the metadata, with `chunk_size` counting the blocks and `content_size`
/// their total length in bytes.
pub struct Asset {
    pub canister_id: Principal,
    pub chunk_size: u32,
    pub content_encoding: ContentEncoding,
    pub content_type: String,
    pub filename: String,
    pub content_size: u32,
    pub created_at: u64,
    pub id: u128,
    pub owner: Principal,
    pub url: String,
}

/// The mathematical value of a stored asset's metadata.
pub ghost struct AssetView {
    pub canister_id: Seq<u8>,
    pub chunk_size: u32,
    pub content_encoding: ContentEncoding,
    pub content_type: Seq<char>,
    pub filename: Seq<char>,
    pub content_size: u32,
    pub created_at: u64,
    pub id: u128,
    pub owner: Seq<u8>,
    pub url: Seq<char>,
}

impl View for Asset {
    type V = AssetView;

    open spec fn view(&self) -> AssetView {
        AssetView {
            canister_id: self.canister_id@,
            chunk_size: self.chunk_size,
            content_encoding: self.content_encoding,
            content_type: self.content_type@,
            filename: self.filename@,
            content_size: self.content_size,
            created_at: self.created_at,
            id: self.id,
            owner: self.owner@,
            url: self.url@,
        }
    }
}

/// A read-only projection of an asset, as returned by listing and lookup:
/// everything but the content itself.
pub struct AssetQuery {
    pub canister_id: Principal,
    pub chunk_size: u32,
    pub content_encoding: ContentEncoding,
    pub content_type: String,
    pub filename: String,
    pub content_size: u32,
    pub created_at: u64,
    pub id: u128,
    pub owner: Principal,
    pub url: String,
}

impl View for AssetQuery {
    type V = AssetView;

    open spec fn view(&self) -> AssetView {
        AssetView {
            canister_id: self.canister_id@,
            chunk_size: self.chunk_size,
            content_encoding: self.content_encoding,
            content_type: self.content_type@,
            filename: self.filename@,
            content_size: self.content_size,
            created_at: self.created_at,
            id: self.id,
            owner: self.owner@,
            url: self.url@,
        }
    }
}

impl From<&Asset> for AssetQuery {
    fn from(value: &Asset) -> (r: Self)
        ensures
            r@ == value@,
    {
        AssetQuery {
            canister_id: value.canister_id.clone(),
            chunk_size: value.chunk_size,
            content_encoding: value.content_encoding,
            content_type: value.content_type.clone(),
            filename: value.filename.clone(),
            content_size: value.content_size,
            created_at: value.created_at,
            id: value.id,
            owner: value.owner.clone(),
            url: value.url.clone(),
        }
    }
}

impl vstd::std_specs::convert::FromSpecImpl<&Asset> for AssetQuery {
    open spec fn obeys_from_spec() -> bool {
        false
    }

    open spec fn from_spec(t: &Asset) -> AssetQuery {
        AssetQuery {
            canister_id: t.canister_id,
            chunk_size: t.chunk_size,
            content_encoding: t.content_encoding,
            content_type: t.content_type,
            filename: t.filename,
            content_size: t.content_size,
            created_at: t.created_at,
            id: t.id,
            owner: t.owner,
            url: t.url,
        }
    }
}

/// One content block of an asset: the bytes stored at one position of
/// the secondary content table.
pub struct Content(pub Vec<u8>);

impl View for Content {
    type V = Seq<u8>;

    open spec fn view(&self) -> Seq<u8> {
        self.0@
    }
}

/// One HTTP header: name and value.
pub struct HeaderField(pub String, pub String);

/// A read request against the streaming protocol: the path's final
/// segment is the decimal asset identifier.
pub struct HttpRequest {
    pub method: String,
    pub url: String,
    pub headers: Vec<HeaderField>,
    pub body: Vec<u8>,
}

/// A page of the streaming read protocol: status, headers, the block
/// served as body, and the continuation, if any.
pub struct HttpResponse {
    pub status_code: u16,
    pub headers: Vec<HeaderField>,
    pub body: Vec<u8>,
    pub streaming_strategy: Option<StreamingStrategy>,
}

/// What a continuation is built from: the asset, the block just served,
/// and the asset's block count.
pub struct CreateStrategyArgs {
    pub asset_id: u128,
    pub chunk_index: u32,
    pub data_chunks_size: u32,
}

/// The opaque cursor of the streaming read protocol: enough to fetch the
/// next block of an asset.
pub struct StreamingCallbackToken {
    pub asset_id: u128,
    pub chunk_index: u32,
    pub content_encoding: String,
}

/// The callable a continuation names: a service instance and a method on
/// it.
pub struct CallbackFunc {
    pub principal: Principal,
    pub method: String,
}

/// How a reader fetches the rest of a multi-block asset.
pub enum StreamingStrategy {
    Callback { token: StreamingCallbackToken, callback: CallbackFunc },
}

/// One step's result in the streaming read: a block, and the cursor for
/// the next one unless the stream is over.
pub struct StreamingCallbackHttpResponse {
    pub body: Vec<u8>,
    pub token: Option<StreamingCallbackToken>,
}

} // verus!
