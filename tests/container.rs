use glb_scene::container::{read_container, u32_from_slice, LoadError};

const MAGIC: [u8; 4] = *b"glTF";

fn container(magic: &[u8; 4], version: u32, json: &[u8], json_tag: &[u8; 4], blob: &[u8], bin_tag: &[u8; 4]) -> Vec<u8> {
    let mut d = Vec::new();
    d.extend_from_slice(magic);
    d.extend_from_slice(&version.to_le_bytes());
    let total = 28 + json.len() + blob.len();
    d.extend_from_slice(&(total as u32).to_le_bytes());
    d.extend_from_slice(&(json.len() as u32).to_le_bytes());
    d.extend_from_slice(json_tag);
    d.extend_from_slice(json);
    d.extend_from_slice(&(blob.len() as u32).to_le_bytes());
    d.extend_from_slice(bin_tag);
    d.extend_from_slice(blob);
    d
}

fn valid() -> Vec<u8> {
    container(&MAGIC, 2, b"{\"a\":1}", b"JSON", &[1, 2, 3, 4, 5], b"BIN\0")
}

#[test]
fn u32_from_slice_reads_little_endian() {
    assert_eq!(u32_from_slice(&[0x78, 0x56, 0x34, 0x12]), 0x1234_5678);
    assert_eq!(u32_from_slice(&[2, 0, 0, 0, 9, 9]), 2);
    assert_eq!(u32_from_slice(&[0xff, 0xff, 0xff, 0xff]), u32::MAX);
}

#[test]
fn reads_both_chunks() {
    let c = read_container(&valid(), &MAGIC).unwrap();
    assert_eq!(c.json, b"{\"a\":1}".to_vec());
    assert_eq!(c.blob, vec![1, 2, 3, 4, 5]);
}

#[test]
fn trailing_bytes_are_not_consumed() {
    let mut d = valid();
    d.extend_from_slice(&[0, 0, 0, 0, b'X', b'Y', b'Z', 0]);
    let c = read_container(&d, &MAGIC).unwrap();
    assert_eq!(c.blob, vec![1, 2, 3, 4, 5]);
}

#[test]
fn empty_chunks() {
    let d = container(&MAGIC, 2, b"", b"JSON", b"", b"BIN\0");
    let c = read_container(&d, &MAGIC).unwrap();
    assert!(c.json.is_empty());
    assert!(c.blob.is_empty());
}

#[test]
fn other_magic_is_a_format_error() {
    let d = container(b"TEST", 2, b"{}", b"JSON", b"", b"BIN\0");
    assert_eq!(read_container(&d, &MAGIC).err(), Some(LoadError::Format));
    assert!(read_container(&d, b"TEST").is_ok());
}

#[test]
fn wrong_version_is_a_format_error() {
    let d = container(&MAGIC, 1, b"{}", b"JSON", b"", b"BIN\0");
    assert_eq!(read_container(&d, &MAGIC).err(), Some(LoadError::Format));
}

#[test]
fn wrong_json_tag_is_a_format_error() {
    let d = container(&MAGIC, 2, b"{}", b"JSOM", b"", b"BIN\0");
    assert_eq!(read_container(&d, &MAGIC).err(), Some(LoadError::Format));
}

#[test]
fn wrong_bin_tag_is_a_format_error() {
    let d = container(&MAGIC, 2, b"{}", b"JSON", b"", b"BIN ");
    assert_eq!(read_container(&d, &MAGIC).err(), Some(LoadError::Format));
}

#[test]
fn short_prologue_is_truncated() {
    assert_eq!(read_container(&[], &MAGIC).err(), Some(LoadError::Truncated));
    assert_eq!(read_container(b"glTF\x02\x00\x00\x00", &MAGIC).err(), Some(LoadError::Truncated));
}

#[test]
fn every_proper_prefix_is_truncated() {
    let d = valid();
    for k in 0..d.len() {
        assert_eq!(read_container(&d[..k], &MAGIC).err(), Some(LoadError::Truncated), "prefix of {} bytes", k);
    }
    assert!(read_container(&d, &MAGIC).is_ok());
}

#[test]
fn declared_length_past_the_end_is_truncated() {
    let mut d = valid();
    let n = d.len();
    // blob length field sits 8 + 5 bytes before the end
    d[n - 13] = 200;
    assert_eq!(read_container(&d, &MAGIC).err(), Some(LoadError::Truncated));
}
