use unrusty::cat_file::{
    cat_file_check, cat_file_print, cat_file_print_prepared, cat_file_size, cat_file_size_prepared,
    cat_file_type, cat_file_type_prepared,
};
use unrusty::db::{
    get_store, insert, insert_with_simulate, read, read_with_invalid, simulate_insert, DbError,
    Object, ObjectRepr, ObjectType,
};

use std::io::Write;

fn zlib(data: &[u8]) -> Vec<u8> {
    let mut enc = flate2::write::ZlibEncoder::new(Vec::new(), flate2::Compression::default());
    enc.write_all(data).unwrap();
    enc.finish().unwrap()
}

#[test]
fn insert_then_read_round_trips() {
    let (id, bytes) = insert(b"hello world", ObjectType::Blob).unwrap();
    assert_eq!(id.hash().len(), 40);
    let obj = read(&bytes).unwrap();
    assert_eq!(obj.data, b"hello world".to_vec());
    assert!(matches!(obj.object_type, ObjectType::Blob));
}

#[test]
fn insert_read_round_trips_for_every_valid_type() {
    for t in [ObjectType::Blob, ObjectType::Tree, ObjectType::Commit] {
        let (_, bytes) = insert(b"payload", t).unwrap();
        let obj = read(&bytes).unwrap();
        assert_eq!(obj.data, b"payload".to_vec());
        assert_eq!(obj.object_type.token(), t.token());
    }
}

#[test]
fn known_identifier_of_hello_world_blob() {
    // the framed bytes are "blob 11\0hello world"; their SHA-1 is fixed
    let id = simulate_insert(b"hello world", ObjectType::Blob);
    assert_eq!(id.hash(), "95d09f2b10159347eece71399a7e2e907ea3df4f");
}

#[test]
fn hashing_is_deterministic_and_idempotent() {
    let a = simulate_insert(b"same content", ObjectType::Blob);
    let b = simulate_insert(b"same content", ObjectType::Blob);
    assert_eq!(a.hash(), b.hash());
    let (id1, bytes1) = insert(b"same content", ObjectType::Blob).unwrap();
    let (id2, bytes2) = insert(b"same content", ObjectType::Blob).unwrap();
    assert_eq!(id1.hash(), id2.hash());
    assert_eq!(id1.hash(), a.hash());
    assert_eq!(bytes1, bytes2);
}

#[test]
fn identifier_differs_per_type() {
    let blob = simulate_insert(b"x", ObjectType::Blob);
    let tree = simulate_insert(b"x", ObjectType::Tree);
    assert_ne!(blob.hash(), tree.hash());
}

#[test]
fn simulate_flag_controls_the_compressed_bytes() {
    let (id_sim, none) = insert_with_simulate(b"abc", ObjectType::Blob, true).unwrap();
    assert!(none.is_none());
    let (id_wet, some) = insert_with_simulate(b"abc", ObjectType::Blob, false).unwrap();
    assert_eq!(id_sim.hash(), id_wet.hash());
    assert!(some.is_some());
}

#[test]
fn stored_bytes_are_compressed_not_the_frame_itself() {
    let store = get_store(b"hello world", ObjectType::Blob);
    assert_eq!(store, b"blob 11\0hello world".to_vec());
    let (_, bytes) = insert(b"hello world", ObjectType::Blob).unwrap();
    assert_ne!(bytes, store);
}

#[test]
fn multi_digit_lengths_round_trip() {
    let payload = vec![7u8; 123];
    let store = get_store(&payload, ObjectType::Blob);
    assert!(store.starts_with(b"blob 123\0"));
    let (_, bytes) = insert(&payload, ObjectType::Blob).unwrap();
    let obj = read(&bytes).unwrap();
    assert_eq!(obj.data.len(), 123);
    assert_eq!(cat_file_size(&bytes, false).unwrap(), 123);
}

#[test]
fn read_rejects_bytes_without_separator() {
    let raw = zlib(b"blob 5hello");
    let err = read(&raw).unwrap_err();
    assert!(matches!(err, DbError::MalformedObject { .. }));
}

#[test]
fn read_rejects_length_mismatch() {
    let raw = zlib(b"blob 6\0hello");
    let err = read(&raw).unwrap_err();
    assert!(matches!(err, DbError::MalformedObject { .. }));
    let raw = zlib(b"blob 4\0hello");
    let err = read(&raw).unwrap_err();
    assert!(matches!(err, DbError::MalformedObject { .. }));
}

#[test]
fn read_rejects_grammar_violations() {
    for header in [
        &b"blob5\0hello"[..],     // no space
        &b" 5\0hello"[..],        // empty token
        &b"Blob 5\0hello"[..],    // uppercase token
        &b"blob 05\0hello"[..],   // leading zero
        &b"blob \0"[..],          // empty length
        &b"blob x\0hello"[..],    // non-digit length
        &b"blob 5 \0hello"[..],   // second space
    ] {
        let raw = zlib(header);
        let err = read(&raw).unwrap_err();
        assert!(matches!(err, DbError::MalformedObject { .. }));
    }
}

#[test]
fn read_rejects_bytes_that_are_no_zlib_stream() {
    let err = read(b"definitely not compressed").unwrap_err();
    assert!(matches!(err, DbError::ReadError { .. }));
}

#[test]
fn zero_length_payload_cannot_be_read_back() {
    // the grammar's length field cannot represent zero
    let (_, bytes) = insert(b"", ObjectType::Blob).unwrap();
    let err = read(&bytes).unwrap_err();
    assert!(matches!(err, DbError::MalformedObject { .. }));
}

#[test]
fn unknown_token_needs_the_permissive_mode() {
    let raw = zlib(b"foo 5\0hello");
    let err = read(&raw).unwrap_err();
    assert!(matches!(err, DbError::InvalidType));
    let err = read_with_invalid(&raw, false).unwrap_err();
    assert!(matches!(err, DbError::InvalidType));
    let obj = read_with_invalid(&raw, true).unwrap();
    assert!(matches!(obj.object_type, ObjectType::Invalid));
    assert_eq!(obj.data, b"hello".to_vec());
    assert!(!obj.is_valid());
}

#[test]
fn try_from_accepts_exactly_forty_lowercase_hex() {
    let ok = ObjectRepr::try_from("95d09f2b10159347eece71399a7e2e907ea3df4f").unwrap();
    assert_eq!(ok.hash(), "95d09f2b10159347eece71399a7e2e907ea3df4f");
    assert!(ObjectRepr::try_from("0123456789abcdef0123456789abcdef01234567").is_ok());
}

#[test]
fn try_from_rejects_bad_identifiers() {
    // uppercase
    assert!(ObjectRepr::try_from("95D09F2B10159347EECE71399A7E2E907EA3DF4F").is_err());
    // length 39
    assert!(ObjectRepr::try_from("95d09f2b10159347eece71399a7e2e907ea3df4").is_err());
    // length 41
    assert!(ObjectRepr::try_from("95d09f2b10159347eece71399a7e2e907ea3df4f5").is_err());
    // non-hex characters
    assert!(ObjectRepr::try_from("95d09f2b10159347eece71399a7e2e907ea3dg4f").is_err());
    assert!(ObjectRepr::try_from("95d09f2b|0159347eece71399a7e2e907ea3df4f").is_err());
    assert!(ObjectRepr::try_from("").is_err());
}

#[test]
fn object_type_tokens_round_trip() {
    assert_eq!(ObjectType::Blob.token(), "blob");
    assert_eq!(ObjectType::Tree.token(), "tree");
    assert_eq!(ObjectType::Commit.token(), "commit");
    assert_eq!(ObjectType::Invalid.token(), "invalid");
    assert!(matches!(ObjectType::from_token("blob"), ObjectType::Blob));
    assert!(matches!(ObjectType::from_token("tree"), ObjectType::Tree));
    assert!(matches!(ObjectType::from_token("commit"), ObjectType::Commit));
    assert!(matches!(ObjectType::from_token("invalid"), ObjectType::Invalid));
    assert!(matches!(ObjectType::from_token("bloc"), ObjectType::Invalid));
    assert!(matches!(ObjectType::from_token(""), ObjectType::Invalid));
}

#[test]
fn object_type_validity_and_listing() {
    assert!(ObjectType::Blob.is_valid());
    assert!(ObjectType::Tree.is_valid());
    assert!(ObjectType::Commit.is_valid());
    assert!(!ObjectType::Invalid.is_valid());
    let all = ObjectType::iterator();
    assert_eq!(all.len(), 4);
    assert!(matches!(all[0], ObjectType::Blob));
    assert!(matches!(all[3], ObjectType::Invalid));
}

#[test]
fn derived_queries_report_type_size_and_text() {
    let (_, bytes) = insert(b"hello world", ObjectType::Blob).unwrap();
    assert!(matches!(cat_file_type(&bytes, false).unwrap(), ObjectType::Blob));
    assert_eq!(cat_file_size(&bytes, false).unwrap(), 11);
    assert_eq!(cat_file_print(&bytes).unwrap(), "hello world");
    assert!(cat_file_check(&bytes));
}

#[test]
fn derived_queries_on_prepared_objects() {
    let obj = Object { data: b"abc".to_vec(), object_type: ObjectType::Tree };
    assert!(matches!(cat_file_type_prepared(&obj).unwrap(), ObjectType::Tree));
    assert_eq!(cat_file_size_prepared(&obj).unwrap(), 3);
    assert_eq!(cat_file_print_prepared(&obj).unwrap(), "abc");
}

#[test]
fn permissive_mode_applies_to_derived_queries() {
    let raw = zlib(b"foo 2\0hi");
    assert!(matches!(cat_file_type(&raw, false), Err(DbError::InvalidType)));
    assert!(matches!(cat_file_type(&raw, true).unwrap(), ObjectType::Invalid));
    assert!(matches!(cat_file_size(&raw, false), Err(DbError::InvalidType)));
    assert_eq!(cat_file_size(&raw, true).unwrap(), 2);
    assert!(!cat_file_check(&raw));
}

#[test]
fn lossy_print_never_fails_on_invalid_text() {
    let payload: &[u8] = &[0xff, 0xfe, b'o', b'k'];
    let (_, bytes) = insert(payload, ObjectType::Blob).unwrap();
    let text = cat_file_print(&bytes).unwrap();
    assert!(text.contains('\u{FFFD}'));
    assert!(text.ends_with("ok"));
    let obj = read(&bytes).unwrap();
    let prepared = cat_file_print_prepared(&obj).unwrap();
    assert_eq!(prepared, text);
}
