use hades_save::blob::{compress_blob, decompress_blob, DecodeError, MAX_BLOB_LEN, SAV16_UNCOMPRESSED_SIZE};
use hades_save::container::{load_version_id, FormatError, Version16};
use hades_save::pascal::{read_pascal_str, write_pascal_str};

fn sample_record() -> Version16 {
    Version16 {
        time: 0x0102030405060708,
        location: "Tartarus".to_string(),
        runs: 42,
        active_meta_points: 7,
        active_shrine_points: 3,
        god_mode_enabled: true,
        hell_mode_enabled: false,
        lua_keys: vec!["GameState".to_string(), "CurrentRun".to_string()],
        current_map_name: "RoomOpening".to_string(),
        start_next_map: "Hub_Main".to_string(),
        lua_state_compressed: vec![1, 2, 3, 4, 5],
    }
}

#[test]
fn header_parse_gives_version_and_checksum() {
    let bytes = sample_record().to_bytes();
    assert_eq!(&bytes[0..4], b"SGB1");
    let (rest, id) = load_version_id(&bytes).unwrap();
    assert_eq!(id.version, 16);
    assert_eq!(id.checksum, adler32::RollingAdler32::from_buffer(&bytes[8..]).hash());
    assert_eq!(rest.len(), bytes.len() - 12);
}

#[test]
fn checksum_covers_bytes_from_offset_eight() {
    let bytes = sample_record().to_bytes();
    let stored = u32::from_le_bytes([bytes[4], bytes[5], bytes[6], bytes[7]]);
    assert_eq!(stored, adler32::RollingAdler32::from_buffer(&bytes[8..]).hash());
    assert_ne!(stored, 0);
}

#[test]
fn record_layout_is_exact() {
    let bytes = sample_record().to_bytes();
    assert_eq!(&bytes[8..12], &16u32.to_le_bytes());
    assert_eq!(&bytes[12..20], &0x0102030405060708u64.to_le_bytes());
    assert_eq!(&bytes[20..24], &8u32.to_le_bytes());
    assert_eq!(&bytes[24..32], b"Tartarus");
    assert_eq!(&bytes[32..36], &42u32.to_le_bytes());
    assert_eq!(bytes[44], 1);
    assert_eq!(bytes[45], 0);
    assert_eq!(&bytes[46..50], &2u32.to_le_bytes());
    let n = bytes.len();
    assert_eq!(&bytes[n - 9..n - 5], &5u32.to_le_bytes());
    assert_eq!(&bytes[n - 5..], &[1, 2, 3, 4, 5]);
}

#[test]
fn file_round_trip_is_byte_exact() {
    let bytes = sample_record().to_bytes();
    let (rest, _) = load_version_id(&bytes).unwrap();
    let record = Version16::load(rest).unwrap();
    assert_eq!(record.location, "Tartarus");
    assert_eq!(record.lua_keys, vec!["GameState".to_string(), "CurrentRun".to_string()]);
    assert!(record.god_mode_enabled);
    assert!(!record.hell_mode_enabled);
    assert_eq!(record.to_bytes(), bytes);
}

#[test]
fn to_owned_keeps_every_field() {
    let copy = sample_record().to_owned();
    assert_eq!(copy.to_bytes(), sample_record().to_bytes());
    assert_eq!(copy.runs, 42);
}

#[test]
fn bad_signature_is_rejected() {
    let mut bytes = sample_record().to_bytes();
    bytes[0] = b'X';
    assert_eq!(load_version_id(&bytes).unwrap_err(), FormatError::BadSignature);
}

#[test]
fn short_header_is_truncated() {
    assert_eq!(load_version_id(b"SGB1\x00\x00").unwrap_err(), FormatError::Truncated);
    assert_eq!(load_version_id(b"SG").unwrap_err(), FormatError::Truncated);
}

#[test]
fn short_record_is_truncated() {
    let bytes = sample_record().to_bytes();
    let rest = &bytes[12..bytes.len() - 1];
    assert_eq!(Version16::load(rest).unwrap_err(), FormatError::Truncated);
    assert_eq!(Version16::load(&bytes[12..15]).unwrap_err(), FormatError::Truncated);
}

#[test]
fn extra_bytes_after_record_are_rejected() {
    let mut bytes = sample_record().to_bytes();
    bytes.push(0);
    assert_eq!(Version16::load(&bytes[12..]).unwrap_err(), FormatError::TrailingBytes);
}

#[test]
fn invalid_utf8_is_rejected() {
    let mut bytes = sample_record().to_bytes();
    bytes[24] = 0xff;
    assert_eq!(Version16::load(&bytes[12..]).unwrap_err(), FormatError::InvalidUtf8);
}

#[test]
fn pascal_string_round_trip() {
    let mut buf = Vec::new();
    write_pascal_str(&mut buf, "héllo");
    assert_eq!(&buf[0..4], &6u32.to_le_bytes());
    buf.extend_from_slice(&[9, 9]);
    let (s, next) = read_pascal_str(&buf, 0).unwrap();
    assert_eq!(s, "héllo");
    assert_eq!(next, 10);
}

#[test]
fn pascal_string_errors() {
    assert_eq!(read_pascal_str(&[5, 0, 0, 0, b'a'], 0).unwrap_err(), FormatError::Truncated);
    assert_eq!(read_pascal_str(&[1, 0], 0).unwrap_err(), FormatError::Truncated);
    assert_eq!(read_pascal_str(&[1, 0, 0, 0, 0xc3], 0).unwrap_err(), FormatError::InvalidUtf8);
}

#[test]
fn blob_round_trip() {
    let data: Vec<u8> = (0..2000u32).map(|i| (i % 7) as u8).collect();
    let blob = compress_blob(&data);
    assert_ne!(blob, data);
    assert_eq!(decompress_blob(&blob, data.len()).unwrap(), data);
}

#[test]
fn blob_of_wrong_size_fails() {
    let data = vec![3u8; 100];
    let blob = compress_blob(&data);
    assert_eq!(decompress_blob(&blob, 99).unwrap_err(), DecodeError::Decompression);
    assert_eq!(decompress_blob(&[0xff, 0xff], 10).unwrap_err(), DecodeError::Decompression);
}

#[test]
fn lua_state_replacement_round_trip() {
    let mut record = sample_record();
    let state = vec![0u8; SAV16_UNCOMPRESSED_SIZE];
    record.set_lua_state(&state);
    assert_eq!(record.runs, 42);
    assert_eq!(record.decompress_lua_state().unwrap(), state);
    let bytes = record.to_bytes();
    let back = Version16::load(&bytes[12..]).unwrap();
    assert_eq!(back.decompress_lua_state().unwrap().len(), SAV16_UNCOMPRESSED_SIZE);
}

#[test]
fn wrong_state_size_is_a_decompression_error() {
    let record = sample_record();
    assert_eq!(record.decompress_lua_state().unwrap_err(), DecodeError::Decompression);
}

#[test]
fn overlong_blob_is_a_decompression_error() {
    let mut blob = vec![0xffu8; MAX_BLOB_LEN];
    blob[0] = 0xf0;
    assert_eq!(decompress_blob(&blob, SAV16_UNCOMPRESSED_SIZE).unwrap_err(), DecodeError::Decompression);
}
