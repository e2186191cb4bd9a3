use ascalon_ar::archive::{Archive, GetError, OpenError};

fn push_le16(v: &mut Vec<u8>, x: u16) {
    v.extend_from_slice(&x.to_le_bytes());
}

fn push_le32(v: &mut Vec<u8>, x: u32) {
    v.extend_from_slice(&x.to_le_bytes());
}

fn push_le64(v: &mut Vec<u8>, x: u64) {
    v.extend_from_slice(&x.to_le_bytes());
}

/// An entry of the synthetic manifest: offset, size, extra-bytes
/// discriminator, flags.
#[derive(Clone, Copy)]
struct Entry {
    offset: u64,
    size: u32,
    extra: u16,
    flags: u8,
}

/// Builds a complete archive file image: header, payloads, index region,
/// manifest table. `assets` pairs each raw stored payload with its id and
/// extra-bytes discriminator; `extra_pairs` appends raw index pairs on top
/// of the generated ones.
fn build_archive(assets: &[(u32, Vec<u8>, u16)], extra_pairs: &[(u32, u32)]) -> Vec<u8> {
    build_archive_raw(assets, extra_pairs, 151, *b"AN\x1a", *b"Mft\x1a", 3, true)
}

fn build_archive_raw(
    assets: &[(u32, Vec<u8>, u16)],
    extra_pairs: &[(u32, u32)],
    version: u8,
    magic: [u8; 3],
    table_magic: [u8; 4],
    slot_flags: u8,
    slot2_consistent: bool,
) -> Vec<u8> {
    // layout: header (40) | payloads | index region | manifest table
    let mut payload_entries: Vec<Entry> = Vec::new();
    let mut payload_bytes: Vec<u8> = Vec::new();
    let mut off = 40u64;
    for (_, data, extra) in assets {
        payload_entries.push(Entry {
            offset: off,
            size: data.len() as u32,
            extra: *extra,
            flags: 3,
        });
        payload_bytes.extend_from_slice(data);
        off += data.len() as u64;
    }
    let index_off = off;
    let n_pairs = assets.len() + extra_pairs.len();
    let index_size = (n_pairs * 8) as u32;
    let mft_off = index_off + index_size as u64;
    let n_entries = 3 + assets.len();
    let mft_size = (24 + 24 * n_entries) as u32;

    let mut file = Vec::new();
    // header
    file.push(version);
    file.extend_from_slice(&magic);
    push_le32(&mut file, 0); // reserved
    push_le32(&mut file, 0); // reserved
    push_le32(&mut file, 0); // reserved
    push_le32(&mut file, 0); // checksum, unvalidated
    push_le32(&mut file, 0); // reserved
    push_le64(&mut file, mft_off);
    push_le32(&mut file, mft_size);
    push_le32(&mut file, 0); // flags
    assert_eq!(file.len(), 40);
    // payloads
    file.extend_from_slice(&payload_bytes);
    // index region: one pair per asset (1-based manifest position), then
    // the raw extras
    for (k, (id, _, _)) in assets.iter().enumerate() {
        push_le32(&mut file, *id);
        push_le32(&mut file, (4 + k) as u32);
    }
    for (id, pos) in extra_pairs {
        push_le32(&mut file, *id);
        push_le32(&mut file, *pos);
    }
    // manifest table header
    assert_eq!(file.len() as u64, mft_off);
    file.extend_from_slice(&table_magic);
    file.extend_from_slice(&[0u8; 20]);
    // slot 0: the manifest table's own entry slot
    let mut entries = vec![
        Entry { offset: 0, size: 40, extra: 0, flags: slot_flags },
        Entry { offset: index_off, size: index_size, extra: 0, flags: slot_flags },
        Entry {
            offset: if slot2_consistent { mft_off } else { mft_off + 1 },
            size: mft_size,
            extra: 0,
            flags: slot_flags,
        },
    ];
    entries.extend_from_slice(&payload_entries);
    for e in &entries {
        push_le64(&mut file, e.offset);
        push_le32(&mut file, e.size);
        push_le16(&mut file, e.extra);
        file.push(e.flags);
        file.push(0); // reserved
        push_le32(&mut file, 0); // reserved
        push_le32(&mut file, 0); // checksum, unvalidated
    }
    file
}

fn open_err(file: &[u8]) -> OpenError {
    match Archive::open(map_bytes(file)) {
        Err(e) => e,
        Ok(_) => panic!("expected open to fail"),
    }
}

fn map_bytes(bytes: &[u8]) -> memmap2::Mmap {
    let mut m = memmap2::MmapMut::map_anon(bytes.len()).expect("anonymous mapping");
    m.copy_from_slice(bytes);
    m.make_read_only().expect("read-only mapping")
}

/// A stored payload for the store-only test codec: 4 opaque bytes, the
/// little-endian uncompressed size, then the bytes themselves.
fn stored_payload(content: &[u8]) -> Vec<u8> {
    let mut p = vec![0xAA, 0xBB, 0xCC, 0xDD];
    push_le32(&mut p, content.len() as u32);
    p.extend_from_slice(content);
    p
}

/// A store-only codec double: the compressed bytes are the content itself.
fn store_codec(data: &[u8], size: u32) -> Option<Vec<u8>> {
    if data.len() < 8 {
        return None;
    }
    let content = &data[8..];
    if content.len() != size as usize {
        return None;
    }
    Some(content.to_vec())
}

fn failing_codec(_data: &[u8], _size: u32) -> Option<Vec<u8>> {
    None
}

fn short_codec(_data: &[u8], size: u32) -> Option<Vec<u8>> {
    Some(vec![0u8; (size as usize).saturating_sub(1)])
}

#[test]
fn open_valid_archive_and_lookup() {
    let a = stored_payload(b"first asset");
    let b = stored_payload(b"second asset");
    let file = build_archive(&[(10, a, 8), (20, b, 8)], &[]);
    let ar = Archive::open(map_bytes(&file)).expect("open");
    assert_eq!(ar.get(10, store_codec).unwrap().unwrap(), b"first asset");
    assert_eq!(ar.get(20, store_codec).unwrap().unwrap(), b"second asset");
    assert_eq!(ar.get(30, store_codec).unwrap(), None);
}

#[test]
fn open_skips_id_zero() {
    let a = stored_payload(b"payload");
    // a pair with id zero pointing at a valid position is an unused slot
    let file = build_archive(&[(7, a, 8)], &[(0, 4)]);
    let ar = Archive::open(map_bytes(&file)).expect("open");
    assert_eq!(ar.get(0, store_codec).unwrap(), None);
    assert_eq!(ar.get(7, store_codec).unwrap().unwrap(), b"payload");
}

#[test]
fn open_duplicate_id_first_occurrence_wins() {
    let a = stored_payload(b"first");
    let b = stored_payload(b"later");
    // both pairs carry id 5; the second points at the second asset entry
    let file = build_archive(&[(5, a, 8), (0, b, 8)], &[(5, 5)]);
    let ar = Archive::open(map_bytes(&file)).expect("open");
    assert_eq!(ar.get(5, store_codec).unwrap().unwrap(), b"first");
}

#[test]
fn open_bad_version() {
    let file = build_archive_raw(&[], &[], 150, *b"AN\x1a", *b"Mft\x1a", 3, true);
    assert_eq!(open_err(&file), OpenError::BadVersion);
}

#[test]
fn open_bad_magic() {
    let file = build_archive_raw(&[], &[], 151, *b"XN\x1a", *b"Mft\x1a", 3, true);
    assert_eq!(open_err(&file), OpenError::BadMagic);
}

#[test]
fn open_bad_table_magic() {
    let file = build_archive_raw(&[], &[], 151, *b"AN\x1a", *b"Xft\x1a", 3, true);
    assert_eq!(open_err(&file), OpenError::BadTableMagic);
}

#[test]
fn open_truncated() {
    let file = vec![151u8, b'A', b'N', 0x1a, 0, 0];
    assert_eq!(open_err(&file), OpenError::Truncated);
}

#[test]
fn open_bad_slot_flags() {
    // the head bit is missing from every reserved slot
    let file = build_archive_raw(&[], &[], 151, *b"AN\x1a", *b"Mft\x1a", 1, true);
    assert_eq!(open_err(&file), OpenError::BadManifestSlot);
}

#[test]
fn open_self_slot_mismatch() {
    let file = build_archive_raw(&[], &[], 151, *b"AN\x1a", *b"Mft\x1a", 3, false);
    assert_eq!(open_err(&file), OpenError::SelfSlotMismatch);
}

#[test]
fn open_bad_index_position() {
    let a = stored_payload(b"x");
    // position 99 is past the manifest table
    let file = build_archive(&[(3, a, 8)], &[(9, 99)]);
    assert_eq!(open_err(&file), OpenError::BadIndexPosition);
}

#[test]
fn get_absent_id_is_not_an_error() {
    let file = build_archive(&[], &[]);
    let ar = Archive::open(map_bytes(&file)).expect("open");
    for _ in 0..3 {
        assert_eq!(ar.get(1234, store_codec).unwrap(), None);
    }
}

#[test]
fn get_unsupported_discriminator_is_absent() {
    let a = stored_payload(b"odd shape");
    let file = build_archive(&[(6, a, 7)], &[]);
    let ar = Archive::open(map_bytes(&file)).expect("open");
    assert_eq!(ar.get(6, store_codec).unwrap(), None);
}

#[test]
fn get_length_equals_recorded_size() {
    let content = vec![0x5Au8; 333];
    let file = build_archive(&[(42, stored_payload(&content), 8)], &[]);
    let ar = Archive::open(map_bytes(&file)).expect("open");
    let out = ar.get(42, store_codec).unwrap().unwrap();
    assert_eq!(out.len(), 333);
}

#[test]
fn get_round_trip() {
    let content: Vec<u8> = (0u32..512).map(|i| (i * 7 % 251) as u8).collect();
    let file = build_archive(&[(99, stored_payload(&content), 8)], &[]);
    let ar = Archive::open(map_bytes(&file)).expect("open");
    assert_eq!(ar.get(99, store_codec).unwrap().unwrap(), content);
}

#[test]
fn get_codec_failure_is_scoped() {
    let a = stored_payload(b"one");
    let b = stored_payload(b"two");
    let file = build_archive(&[(1, a, 8), (2, b, 8)], &[]);
    let ar = Archive::open(map_bytes(&file)).expect("open");
    assert_eq!(ar.get(1, failing_codec).unwrap_err(), GetError::Codec);
    // the handle is not poisoned: other lookups still succeed
    assert_eq!(ar.get(2, store_codec).unwrap().unwrap(), b"two");
}

#[test]
fn get_wrong_length_from_codec_is_codec_error() {
    let file = build_archive(&[(1, stored_payload(b"abcdef"), 8)], &[]);
    let ar = Archive::open(map_bytes(&file)).expect("open");
    assert_eq!(ar.get(1, short_codec).unwrap_err(), GetError::Codec);
}

#[test]
fn get_payload_out_of_bounds() {
    let a = stored_payload(b"ok");
    let mut file = build_archive(&[(1, a, 8)], &[]);
    // corrupt the asset entry's recorded size so the payload leaves the file
    let mft_off = u64::from_le_bytes(file[24..32].try_into().unwrap()) as usize;
    let asset_entry = mft_off + 24 + 24 * 3;
    file[asset_entry + 8..asset_entry + 12].copy_from_slice(&0xFFFF_0000u32.to_le_bytes());
    let ar = Archive::open(map_bytes(&file)).expect("open");
    assert_eq!(ar.get(1, store_codec).unwrap_err(), GetError::Bounds);
}
