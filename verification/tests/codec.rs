//! The byte codecs and URL helpers: encodings decode back to what was
//! encoded, malformed bytes are rejected, and request paths parse to the
//! identifier they name.

use file_storage::types::{Asset, Chunk, ContentEncoding, Principal};
use file_storage::codec::StateMeta;
use file_storage::url::{generate_url, parse_asset_id, u128_to_dec};

#[test]
fn chunk_record_round_trips() {
    let chunk = Chunk {
        checksum: 0xDEAD_BEEF,
        content: vec![0, 1, 2, 255],
        created_at: 123_456_789,
        id: 42,
        order: 7,
        owner: Principal { bytes: vec![1, 2] },
    };
    let bytes = chunk.to_bytes();
    let back = Chunk::from_bytes(bytes.as_slice()).unwrap();
    assert_eq!(back.checksum, 0xDEAD_BEEF);
    assert_eq!(back.content, vec![0, 1, 2, 255]);
    assert_eq!(back.created_at, 123_456_789);
    assert_eq!(back.id, 42);
    assert_eq!(back.order, 7);
    assert_eq!(back.owner.bytes, vec![1, 2]);
}

#[test]
fn chunk_record_rejects_truncated_bytes() {
    assert!(Chunk::from_bytes(&[1, 2, 3]).is_none());
    assert!(Chunk::from_bytes(&[]).is_none());
    // A record whose owner length runs past the end.
    let mut bytes = vec![0u8; 24];
    bytes[20] = 200;
    assert!(Chunk::from_bytes(bytes.as_slice()).is_none());
}

#[test]
fn asset_record_round_trips() {
    let asset = Asset {
        canister_id: Principal { bytes: vec![7] },
        chunk_size: 3,
        content_encoding: ContentEncoding::GZIP,
        content_type: String::from("application/octet-stream"),
        filename: String::from("naïve £.bin"),
        content_size: 900,
        created_at: 55,
        id: 12,
        owner: Principal { bytes: vec![8, 9] },
        url: String::from("http://abc.localhost:8080/asset/12"),
    };
    let bytes = asset.to_bytes();
    let back = Asset::from_bytes(bytes.as_slice()).unwrap();
    assert_eq!(back.chunk_size, 3);
    assert!(matches!(back.content_encoding, ContentEncoding::GZIP));
    assert_eq!(back.content_type, "application/octet-stream");
    assert_eq!(back.filename, "naïve £.bin");
    assert_eq!(back.content_size, 900);
    assert_eq!(back.created_at, 55);
    assert_eq!(back.id, 12);
    assert_eq!(back.owner.bytes, vec![8, 9]);
    assert_eq!(back.canister_id.bytes, vec![7]);
    assert_eq!(back.url, "http://abc.localhost:8080/asset/12");
}

#[test]
fn asset_record_rejects_bad_encoding_byte() {
    let asset = Asset {
        canister_id: Principal { bytes: vec![] },
        chunk_size: 0,
        content_encoding: ContentEncoding::Identity,
        content_type: String::new(),
        filename: String::new(),
        content_size: 0,
        created_at: 0,
        id: 0,
        owner: Principal { bytes: vec![] },
        url: String::new(),
    };
    let mut bytes = asset.to_bytes();
    bytes[32] = 2;
    assert!(Asset::from_bytes(bytes.as_slice()).is_none());
    assert!(Asset::from_bytes(&[0; 10]).is_none());
}

#[test]
fn metadata_round_trips() {
    let meta = StateMeta { in_production: true, chunk_count: 17, asset_count: 9_000_000_000 };
    let bytes = meta.to_bytes();
    assert_eq!(bytes.len(), 21);
    let back = StateMeta::from_bytes(bytes.as_slice()).unwrap();
    assert!(back.in_production);
    assert_eq!(back.chunk_count, 17);
    assert_eq!(back.asset_count, 9_000_000_000);
    assert!(StateMeta::from_bytes(&[0; 20]).is_none());
    assert!(StateMeta::from_bytes(&[3; 21]).is_none());
}

#[test]
fn decimal_rendering_is_exact() {
    assert_eq!(u128_to_dec(0), "0");
    assert_eq!(u128_to_dec(7), "7");
    assert_eq!(u128_to_dec(1024), "1024");
    assert_eq!(u128_to_dec(u128::MAX), "340282366920938463463374607431768211455");
}

#[test]
fn generated_urls_are_exact() {
    assert_eq!(generate_url("abc", 7, false), "http://abc.localhost:8080/asset/7");
    assert_eq!(generate_url("abc", 7, true), "https://abc.raw.ic0.app/asset/7");
}

#[test]
fn request_paths_parse_to_their_identifier() {
    assert_eq!(parse_asset_id("http://abc.localhost:8080/asset/42"), Some(42));
    assert_eq!(parse_asset_id("/asset/0"), Some(0));
    assert_eq!(parse_asset_id("/asset/42?name=x&y=2"), Some(42));
    assert_eq!(parse_asset_id("9"), Some(9));
    assert_eq!(parse_asset_id("/asset/340282366920938463463374607431768211455"),
        Some(u128::MAX));
    // The URL a committed asset carries parses back to its identifier.
    assert_eq!(parse_asset_id(&generate_url("abc", 31, true)), Some(31));
}

#[test]
fn malformed_request_paths_parse_to_nothing() {
    assert_eq!(parse_asset_id(""), None);
    assert_eq!(parse_asset_id("/asset/"), None);
    assert_eq!(parse_asset_id("/asset/12x"), None);
    assert_eq!(parse_asset_id("/asset/x12"), None);
    assert_eq!(parse_asset_id("/asset/?12"), None);
    // One past the largest representable identifier.
    assert_eq!(parse_asset_id("/asset/340282366920938463463374607431768211456"), None);
}
