//! Restart persistence: the durable tables reattach to their regions and
//! the counters survive through the reserved metadata region.

use file_storage::stable::{RegionPool, get_upgrades_memory, init_chunk_stable_data,
    init_asset_stable_data, init_content_stable_data};
use file_storage::state::State;
use file_storage::types::{AssetProperties, ChunkArg, ContentEncoding, ErrorKind, HttpRequest,
    Principal};
use file_storage::upgrade::{install, pre_upgrade, post_upgrade};
use file_storage::codec::StateMeta;
use file_storage::CHECKSUM_MODULO;

fn carol() -> Principal {
    Principal { bytes: vec![4, 4, 4] }
}

fn attach_state(pool: &RegionPool) -> State {
    State {
        in_production: false,
        chunk_count: 0,
        chunks: init_chunk_stable_data(pool),
        asset_count: 0,
        assets: init_asset_stable_data(pool),
        contents: init_content_stable_data(pool),
    }
}

#[test]
fn state_survives_a_restart() {
    let pool = RegionPool::new();
    let mut state = attach_state(&pool);
    let caller = carol();

    let id = state.upload_chunk(&caller, 5, ChunkArg { order: 0, content: b"persist".to_vec() });
    let declared = (crc32fast::hash(b"persist") as u64 % (CHECKSUM_MODULO as u64)) as u32;
    let props = AssetProperties {
        content_encoding: ContentEncoding::Identity,
        content_type: String::from("text/plain"),
        filename: String::from("p.txt"),
        checksum: declared,
    };
    let asset_id = state
        .commit_batch(&caller, 6, &carol(), "abc", &vec![id], &props)
        .unwrap();
    let pending = state.upload_chunk(&caller, 7, ChunkArg { order: 0, content: b"later".to_vec() });

    let mut region = get_upgrades_memory(&pool);
    assert!(pre_upgrade(&state, &mut region));
    drop(state);

    // A restart: the tables reattach by region identifier, the counters
    // come back from the reserved region.
    let restored = post_upgrade(
        &get_upgrades_memory(&pool),
        init_chunk_stable_data(&pool),
        init_asset_stable_data(&pool),
        init_content_stable_data(&pool),
    )
    .unwrap();
    assert_eq!(restored.chunk_count, 2);
    assert_eq!(restored.asset_count, 1);
    assert!(restored.chunk_availabity_check(pending));
    let q = restored.get(asset_id).unwrap();
    assert_eq!(q.content_size, 7);
    let request = HttpRequest {
        method: String::from("GET"),
        url: format!("/asset/{}", asset_id),
        headers: vec![],
        body: vec![],
    };
    let r = restored.http_request(&request, &carol());
    assert_eq!(r.status_code, 200);
    assert_eq!(r.body, b"persist".to_vec());

    // Fresh identifiers stay unique after the restart.
    let mut restored = restored;
    let next = restored.upload_chunk(&caller, 8, ChunkArg { order: 1, content: b"x".to_vec() });
    assert_eq!(next, 2);
}

#[test]
fn restart_from_an_empty_region_is_an_encoding_failure() {
    let pool = RegionPool::new();
    let r = post_upgrade(
        &get_upgrades_memory(&pool),
        init_chunk_stable_data(&pool),
        init_asset_stable_data(&pool),
        init_content_stable_data(&pool),
    );
    assert!(matches!(r, Err(ErrorKind::EncodingFailure)));
}

#[test]
fn restart_from_a_corrupt_blob_is_an_encoding_failure() {
    let pool = RegionPool::new();
    let mut region = get_upgrades_memory(&pool);
    // A length prefix promising five bytes, followed by garbage that is
    // no metadata record.
    assert!(region.write(0, &[5, 0, 0, 0, 9, 9, 9, 9, 9]));
    let r = post_upgrade(
        &region,
        init_chunk_stable_data(&pool),
        init_asset_stable_data(&pool),
        init_content_stable_data(&pool),
    );
    assert!(matches!(r, Err(ErrorKind::EncodingFailure)));
}

#[test]
fn install_restores_exactly_the_persisted_counters() {
    let pool = RegionPool::new();
    let meta = StateMeta { in_production: true, chunk_count: 5, asset_count: 9 };
    let blob = meta.to_bytes();
    let s = install(
        blob.as_slice(),
        init_chunk_stable_data(&pool),
        init_asset_stable_data(&pool),
        init_content_stable_data(&pool),
    )
    .unwrap();
    assert!(s.in_production);
    assert_eq!(s.chunk_count, 5);
    assert_eq!(s.asset_count, 9);
}

#[test]
fn install_rejects_an_undecodable_blob() {
    let pool = RegionPool::new();
    let r = install(
        &[1, 2, 3],
        init_chunk_stable_data(&pool),
        init_asset_stable_data(&pool),
        init_content_stable_data(&pool),
    );
    assert!(matches!(r, Err(ErrorKind::EncodingFailure)));
}
