//! End-to-end scenarios against the storage engine: uploads, commits,
//! streaming reads, garbage collection and deletion.

use file_storage::state::{State, is_full, CAPACITY_CEILING_BYTES};
use file_storage::types::{AssetProperties, ChunkArg, ContentEncoding, ErrorKind, HttpRequest,
    Principal, StreamingStrategy};
use file_storage::CHECKSUM_MODULO;
use file_storage::CHUNK_TTL_NANOS;

fn alice() -> Principal {
    Principal { bytes: vec![1, 2, 3] }
}

fn bob() -> Principal {
    Principal { bytes: vec![9, 9] }
}

fn instance() -> Principal {
    Principal { bytes: vec![0, 0, 7] }
}

fn props(checksum: u32) -> AssetProperties {
    AssetProperties {
        content_encoding: ContentEncoding::GZIP,
        content_type: String::from("text/plain"),
        filename: String::from("f.txt"),
        checksum,
    }
}

fn commit(
    state: &mut State,
    caller: &Principal,
    ids: Vec<u32>,
    declared: u32,
) -> Result<u128, ErrorKind> {
    state.commit_batch(caller, 1_000, &instance(), "abc", &ids, &props(declared))
}

#[test]
fn upload_assigns_monotonic_identifiers() {
    let mut state = State::default();
    let a = alice();
    let id0 = state.upload_chunk(&a, 10, ChunkArg { order: 0, content: vec![1] });
    let id1 = state.upload_chunk(&a, 11, ChunkArg { order: 0, content: vec![2] });
    let id2 = state.create_chunk(&a, 12, vec![3], 1);
    assert_eq!(id0, 0);
    assert_eq!(id1, 1);
    assert_eq!(id2, 2);
    assert!(state.chunk_availabity_check(id0));
    assert!(state.chunk_availability_check(&vec![id0, id1, id2]));
    assert!(!state.chunk_availabity_check(3));
    assert!(!state.chunk_availability_check(&vec![id0, 3]));
}

#[test]
fn end_to_end_out_of_order_batch() {
    // Upload three chunks with order {2, 0, 1} and contents "C", "A",
    // "B"; commit with the identifiers in upload order and the declared
    // checksum (c0 + c1 + c2) mod 400000000; the blocks then read back
    // "A", "B", "C".
    let mut state = State::default();
    let a = alice();
    let id_c = state.upload_chunk(&a, 1, ChunkArg { order: 2, content: b"C".to_vec() });
    let id_a = state.upload_chunk(&a, 2, ChunkArg { order: 0, content: b"A".to_vec() });
    let id_b = state.upload_chunk(&a, 3, ChunkArg { order: 1, content: b"B".to_vec() });
    let c_c = crc32fast::hash(b"C") as u64;
    let c_a = crc32fast::hash(b"A") as u64;
    let c_b = crc32fast::hash(b"B") as u64;
    let declared = ((c_a + c_b + c_c) % (CHECKSUM_MODULO as u64)) as u32;
    let asset_id = commit(&mut state, &a, vec![id_c, id_a, id_b], declared).unwrap();
    assert_eq!(asset_id, 0);

    // The consumed chunks are gone.
    assert!(!state.chunk_availabity_check(id_a));
    assert!(!state.chunk_availabity_check(id_b));
    assert!(!state.chunk_availabity_check(id_c));

    let q = state.get(asset_id).unwrap();
    assert_eq!(q.chunk_size, 3);
    assert_eq!(q.content_size, 3);
    assert_eq!(q.filename, "f.txt");
    assert_eq!(q.url, "http://abc.localhost:8080/asset/0");

    // Stream the asset back, block by block.
    let request = HttpRequest {
        method: String::from("GET"),
        url: String::from("http://abc.localhost:8080/asset/0"),
        headers: vec![],
        body: vec![],
    };
    let first = state.http_request(&request, &instance());
    assert_eq!(first.status_code, 200);
    assert_eq!(first.body, b"A".to_vec());
    let token1 = match first.streaming_strategy.unwrap() {
        StreamingStrategy::Callback { token, callback } => {
            assert_eq!(callback.method, "http_request_streaming_callback");
            assert_eq!(callback.principal.bytes, instance().bytes);
            token
        },
    };
    assert_eq!(token1.chunk_index, 1);
    assert_eq!(token1.content_encoding, "gzip");
    let second = state.http_request_streaming_callback(&token1);
    assert_eq!(second.body, b"B".to_vec());
    let token2 = second.token.unwrap();
    assert_eq!(token2.chunk_index, 2);
    let third = state.http_request_streaming_callback(&token2);
    assert_eq!(third.body, b"C".to_vec());
    assert!(third.token.is_none());
}

#[test]
fn round_trip_with_duplicate_orders() {
    // Equal order values keep their batch order (stable sort).
    let mut state = State::default();
    let a = alice();
    let id0 = state.upload_chunk(&a, 1, ChunkArg { order: 5, content: b"xx".to_vec() });
    let id1 = state.upload_chunk(&a, 2, ChunkArg { order: 5, content: b"yy".to_vec() });
    let id2 = state.upload_chunk(&a, 3, ChunkArg { order: 1, content: b"zz".to_vec() });
    let sum = (crc32fast::hash(b"xx") as u64 + crc32fast::hash(b"yy") as u64
        + crc32fast::hash(b"zz") as u64) % (CHECKSUM_MODULO as u64);
    let asset_id = commit(&mut state, &a, vec![id0, id1, id2], sum as u32).unwrap();
    let request = HttpRequest {
        method: String::from("GET"),
        url: format!("/asset/{}", asset_id),
        headers: vec![],
        body: vec![],
    };
    let first = state.http_request(&request, &instance());
    assert_eq!(first.body, b"zz".to_vec());
    let token = match first.streaming_strategy.unwrap() {
        StreamingStrategy::Callback { token, .. } => token,
    };
    let second = state.http_request_streaming_callback(&token);
    assert_eq!(second.body, b"xx".to_vec());
    let third = state.http_request_streaming_callback(&second.token.unwrap());
    assert_eq!(third.body, b"yy".to_vec());
    assert!(third.token.is_none());
}

#[test]
fn single_block_asset_has_no_continuation() {
    let mut state = State::default();
    let a = alice();
    let id = state.upload_chunk(&a, 1, ChunkArg { order: 0, content: b"only".to_vec() });
    let declared = (crc32fast::hash(b"only") as u64 % (CHECKSUM_MODULO as u64)) as u32;
    let asset_id = commit(&mut state, &a, vec![id], declared).unwrap();
    let request = HttpRequest {
        method: String::from("GET"),
        url: format!("/asset/{}", asset_id),
        headers: vec![],
        body: vec![],
    };
    let first = state.http_request(&request, &instance());
    assert_eq!(first.status_code, 200);
    assert_eq!(first.body, b"only".to_vec());
    assert!(first.streaming_strategy.is_none());
    // A direct continuation call on the only block also ends the stream.
    let callback = state.http_request_streaming_callback(
        &file_storage::types::StreamingCallbackToken {
            asset_id,
            chunk_index: 0,
            content_encoding: String::from("gzip"),
        },
    );
    assert_eq!(callback.body, b"only".to_vec());
    assert!(callback.token.is_none());
}

#[test]
fn http_request_unknown_asset_is_not_found() {
    let state = State::default();
    let request = HttpRequest {
        method: String::from("GET"),
        url: String::from("/asset/12"),
        headers: vec![],
        body: vec![],
    };
    let r = state.http_request(&request, &instance());
    assert_eq!(r.status_code, 404);
    assert_eq!(r.body, b"Asset Not Found".to_vec());
    assert!(r.streaming_strategy.is_none());
}

#[test]
fn commit_with_absent_chunk_is_invalid_chunk() {
    let mut state = State::default();
    let a = alice();
    let id = state.upload_chunk(&a, 1, ChunkArg { order: 0, content: b"x".to_vec() });
    let r = commit(&mut state, &a, vec![id, 77], 0);
    assert_eq!(r, Err(ErrorKind::InvalidChunk));
    // Nothing was consumed and nothing was created.
    assert!(state.chunk_availabity_check(id));
    assert!(state.assets_list().is_empty());
}

#[test]
fn commit_of_foreign_chunk_is_not_owner() {
    let mut state = State::default();
    let a = alice();
    let b = bob();
    let id_a = state.upload_chunk(&a, 1, ChunkArg { order: 0, content: b"mine".to_vec() });
    let id_b = state.upload_chunk(&b, 2, ChunkArg { order: 1, content: b"theirs".to_vec() });
    let sum = (crc32fast::hash(b"mine") as u64 + crc32fast::hash(b"theirs") as u64)
        % (CHECKSUM_MODULO as u64);
    let r = commit(&mut state, &a, vec![id_a, id_b], sum as u32);
    assert_eq!(r, Err(ErrorKind::NotOwner));
    // Both stores are untouched.
    assert!(state.chunk_availability_check(&vec![id_a, id_b]));
    assert!(state.assets_list().is_empty());
    assert!(matches!(state.get(0), Err(ErrorKind::NotFound)));
}

#[test]
fn corrupted_chunk_fails_checksum_and_consumes_nothing() {
    // The declared aggregate is computed over the intended contents, but
    // one chunk arrives corrupted, so its stored checksum differs.
    let mut state = State::default();
    let a = alice();
    let id0 = state.upload_chunk(&a, 1, ChunkArg { order: 0, content: b"good".to_vec() });
    let id1 = state.upload_chunk(&a, 2, ChunkArg { order: 1, content: b"bda".to_vec() });
    let declared = (crc32fast::hash(b"good") as u64 + crc32fast::hash(b"bad") as u64)
        % (CHECKSUM_MODULO as u64);
    let r = commit(&mut state, &a, vec![id0, id1], declared as u32);
    assert_eq!(r, Err(ErrorKind::ChecksumMismatch));
    // No asset was created and no chunk was consumed.
    assert!(state.chunk_availability_check(&vec![id0, id1]));
    assert!(state.assets_list().is_empty());
    assert!(matches!(state.get(0), Err(ErrorKind::NotFound)));
}

#[test]
fn expired_chunk_is_collected_and_commit_fails() {
    // A chunk uploaded and never committed for eleven minutes is gone
    // after a sweep, and a commit naming it fails.
    let minute: u64 = 60 * 1_000_000_000;
    let mut state = State::default();
    let a = alice();
    let id = state.upload_chunk(&a, 0, ChunkArg { order: 0, content: b"stale".to_vec() });
    state.clear_expired_chunks(11 * minute);
    assert!(!state.chunk_availabity_check(id));
    let r = commit(&mut state, &a, vec![id], 0);
    assert_eq!(r, Err(ErrorKind::InvalidChunk));
}

#[test]
fn clear_expired_is_idempotent_and_spares_young_chunks() {
    let mut state = State::default();
    let a = alice();
    let old_id = state.upload_chunk(&a, 0, ChunkArg { order: 0, content: b"old".to_vec() });
    let now = 2 * CHUNK_TTL_NANOS;
    let young_id = state.upload_chunk(&a, now, ChunkArg { order: 1, content: b"new".to_vec() });
    state.clear_expired_chunks(now);
    assert!(!state.chunk_availabity_check(old_id));
    assert!(state.chunk_availabity_check(young_id));
    // A second sweep at the same instant removes nothing further.
    state.clear_expired_chunks(now);
    assert!(state.chunk_availabity_check(young_id));
    // A chunk created exactly at the cutoff stays.
    let edge_id = state.upload_chunk(&a, now - CHUNK_TTL_NANOS, ChunkArg {
        order: 2,
        content: b"edge".to_vec(),
    });
    state.clear_expired_chunks(now);
    assert!(state.chunk_availabity_check(edge_id));
}

#[test]
fn delete_asset_is_owner_only() {
    let mut state = State::default();
    let a = alice();
    let b = bob();
    let id = state.upload_chunk(&a, 1, ChunkArg { order: 0, content: b"data".to_vec() });
    let declared = (crc32fast::hash(b"data") as u64 % (CHECKSUM_MODULO as u64)) as u32;
    let asset_id = commit(&mut state, &a, vec![id], declared).unwrap();
    assert_eq!(state.delete_asset(&b, asset_id), Err(ErrorKind::Unauthorized));
    assert!(state.get(asset_id).is_ok());
    assert_eq!(state.delete_asset(&a, asset_id), Ok(()));
    assert!(matches!(state.get(asset_id), Err(ErrorKind::NotFound)));
    assert_eq!(state.delete_asset(&a, asset_id), Err(ErrorKind::NotFound));
}

#[test]
fn assets_list_snapshots_every_asset_in_identifier_order() {
    let mut state = State::default();
    let a = alice();
    assert!(state.assets_list().is_empty());
    let id0 = state.upload_chunk(&a, 1, ChunkArg { order: 0, content: b"one".to_vec() });
    let d0 = (crc32fast::hash(b"one") as u64 % (CHECKSUM_MODULO as u64)) as u32;
    let first = commit(&mut state, &a, vec![id0], d0).unwrap();
    let id1 = state.upload_chunk(&a, 2, ChunkArg { order: 0, content: b"two".to_vec() });
    let d1 = (crc32fast::hash(b"two") as u64 % (CHECKSUM_MODULO as u64)) as u32;
    let second = commit(&mut state, &a, vec![id1], d1).unwrap();
    let listed = state.assets_list();
    assert_eq!(listed.len(), 2);
    assert_eq!(listed[0].0, first);
    assert_eq!(listed[1].0, second);
    assert_eq!(listed[0].1.content_size, 3);
    assert_eq!(listed[1].1.owner.bytes, alice().bytes);
}

#[test]
fn blocks_read_back_directly_by_position() {
    let mut state = State::default();
    let a = alice();
    let id0 = state.upload_chunk(&a, 1, ChunkArg { order: 1, content: b"second".to_vec() });
    let id1 = state.upload_chunk(&a, 2, ChunkArg { order: 0, content: b"first".to_vec() });
    let sum = (crc32fast::hash(b"second") as u64 + crc32fast::hash(b"first") as u64)
        % (CHECKSUM_MODULO as u64);
    let asset_id = commit(&mut state, &a, vec![id0, id1], sum as u32).unwrap();
    assert_eq!(state.get_block(asset_id, 0).unwrap().0, b"first".to_vec());
    assert_eq!(state.get_block(asset_id, 1).unwrap().0, b"second".to_vec());
    assert!(state.get_block(asset_id, 2).is_none());
    assert!(state.get_block(asset_id + 1, 0).is_none());
}

#[test]
fn empty_batch_commits_to_an_empty_asset() {
    let mut state = State::default();
    let a = alice();
    assert!(matches!(commit(&mut state, &a, vec![], 1), Err(ErrorKind::ChecksumMismatch)));
    let asset_id = commit(&mut state, &a, vec![], 0).unwrap();
    let q = state.get(asset_id).unwrap();
    assert_eq!(q.chunk_size, 0);
    assert_eq!(q.content_size, 0);
    assert!(state.get_block(asset_id, 0).is_none());
}

#[test]
fn capacity_ceiling_is_forty_gib() {
    assert_eq!(CAPACITY_CEILING_BYTES, 40 * 1024 * 1024 * 1024);
    assert!(!is_full(CAPACITY_CEILING_BYTES - 1));
    assert!(is_full(CAPACITY_CEILING_BYTES));
    assert!(is_full(u64::MAX));
    assert!(!is_full(0));
}

#[test]
fn version_is_one() {
    assert_eq!(file_storage::http::version(), 1);
}

#[test]
fn error_messages_are_stable() {
    assert_eq!(ErrorKind::InvalidChunk.message(), "Invalid chunk ID.");
    assert_eq!(ErrorKind::NotOwner.message(), "Caller does not own the chunk.");
    assert_eq!(ErrorKind::ChecksumMismatch.message(), "Checksum mismatch.");
    assert_eq!(ErrorKind::NotFound.message(), "Asset Not Found");
    assert_eq!(ErrorKind::Unauthorized.message(), "Unauthorized");
}
