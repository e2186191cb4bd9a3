use ascalon_ar::bytes::{read_le16, read_le32, read_le64};
use ascalon_ar::view::{Array, CharRef, Filename, Ref, ViewError, WcharRef};

#[test]
fn little_endian_readers() {
    let b = [0x01u8, 0x02, 0x03, 0x04, 0x05, 0x06, 0x07, 0x08, 0x09];
    assert_eq!(read_le16(&b, 0), 0x0201);
    assert_eq!(read_le16(&b, 7), 0x0908);
    assert_eq!(read_le32(&b, 1), 0x05040302);
    assert_eq!(read_le64(&b, 0), 0x0807060504030201);
}

/// Builds a buffer with an array header (count, displacement) at `pos`.
fn buffer_with_array(pos: usize, count: u32, disp: u64, len: usize) -> Vec<u8> {
    let mut b: Vec<u8> = (0..len as u32).map(|i| (i % 256) as u8).collect();
    b[pos..pos + 4].copy_from_slice(&count.to_le_bytes());
    b[pos + 4..pos + 12].copy_from_slice(&disp.to_le_bytes());
    b
}

#[test]
fn array_target_is_field_relative() {
    // header at 4, displacement 12: the target must be 4 + 12 = 16,
    // not 12 from the buffer start
    let b = buffer_with_array(4, 2, 12, 32);
    let a = Array::read(&b, 4).expect("read");
    assert_eq!(a.count, 2);
    assert_eq!(a.offset, 12);
    let s = a.as_slice(&b, 3).expect("resolve");
    assert_eq!(s, &b[16..22]);
    assert_ne!(s, &b[12..18]);
}

#[test]
fn array_out_of_bounds() {
    let b = buffer_with_array(4, 8, 24, 32);
    let a = Array::read(&b, 4).expect("read");
    // 4 + 24 + 8 * 2 = 44 > 32
    assert_eq!(a.as_slice(&b, 2).unwrap_err(), ViewError::Bounds);
}

#[test]
fn array_header_must_fit() {
    let b = vec![0u8; 10];
    assert_eq!(Array::read(&b, 0).unwrap_err(), ViewError::Bounds);
}

#[test]
fn ref_target_is_field_relative() {
    let mut b: Vec<u8> = (0..40u8).collect();
    b[8..16].copy_from_slice(&16u64.to_le_bytes());
    let r = Ref::read(&b, 8).expect("read");
    // target = 8 + 16 = 24
    let s = r.as_ref(&b, 4).expect("resolve");
    assert_eq!(s, &b[24..28]);
}

#[test]
fn ref_out_of_bounds() {
    let mut b = vec![0u8; 24];
    b[8..16].copy_from_slice(&15u64.to_le_bytes());
    let r = Ref::read(&b, 8).expect("read");
    // target = 8 + 15 = 23, 23 + 4 > 24
    assert_eq!(r.as_ref(&b, 4).unwrap_err(), ViewError::Bounds);
}

#[test]
fn filename_exposes_raw_displacement() {
    let mut b = vec![0u8; 16];
    b[0..8].copy_from_slice(&0x1122334455u64.to_le_bytes());
    let f = Filename::read(&b, 0).expect("read");
    assert_eq!(f.displacement(), 0x1122334455);
}

fn put_wide(b: &mut Vec<u8>, at: usize, units: &[u16]) {
    for (i, u) in units.iter().enumerate() {
        b[at + 2 * i..at + 2 * i + 2].copy_from_slice(&u.to_le_bytes());
    }
}

#[test]
fn wide_string_decodes() {
    let mut b = vec![0u8; 40];
    // header at 4, displacement 12 -> text at 16
    b[4..12].copy_from_slice(&12u64.to_le_bytes());
    put_wide(&mut b, 16, &[0x48, 0x69, 0x21, 0x00]); // "Hi!" then NUL
    let w = WcharRef::read(&b, 4).expect("read");
    assert_eq!(w.as_string(&b).expect("decode"), "Hi!");
}

#[test]
fn wide_string_surrogate_pair() {
    let mut b = vec![0u8; 40];
    b[0..8].copy_from_slice(&10u64.to_le_bytes());
    // U+1F600 as the pair D83D DE00
    put_wide(&mut b, 10, &[0xD83D, 0xDE00, 0x00]);
    let w = WcharRef::read(&b, 0).expect("read");
    assert_eq!(w.as_string(&b).expect("decode"), "\u{1F600}");
}

#[test]
fn wide_string_unpaired_surrogate_is_replaced() {
    let mut b = vec![0u8; 40];
    b[0..8].copy_from_slice(&8u64.to_le_bytes());
    put_wide(&mut b, 8, &[0xD800, 0x41, 0x00]);
    let w = WcharRef::read(&b, 0).expect("read");
    assert_eq!(w.as_string(&b).expect("decode"), "\u{FFFD}A");
}

#[test]
fn wide_string_empty() {
    let mut b = vec![0u8; 16];
    b[0..8].copy_from_slice(&8u64.to_le_bytes());
    put_wide(&mut b, 8, &[0x00]);
    let w = WcharRef::read(&b, 0).expect("read");
    assert_eq!(w.as_string(&b).expect("decode"), "");
}

#[test]
fn wide_string_without_terminator_is_bounds_error() {
    let mut b = vec![0u8; 20];
    b[0..8].copy_from_slice(&8u64.to_le_bytes());
    put_wide(&mut b, 8, &[0x41, 0x42, 0x43, 0x44, 0x45, 0x46]); // fills to the end, no NUL
    let w = WcharRef::read(&b, 0).expect("read");
    assert_eq!(w.as_string(&b).unwrap_err(), ViewError::Bounds);
}

#[test]
fn narrow_string_decodes() {
    let mut b = vec![0u8; 32];
    // header at 2, displacement 14 -> text at 16
    b[2..10].copy_from_slice(&14u64.to_le_bytes());
    b[16..22].copy_from_slice(b"hello\0");
    let c = CharRef::read(&b, 2).expect("read");
    assert_eq!(c.as_string(&b).expect("decode"), "hello");
}

#[test]
fn narrow_string_high_bytes_decode_as_latin1() {
    let mut b = vec![0u8; 24];
    b[0..8].copy_from_slice(&8u64.to_le_bytes());
    b[8] = 0xE9; // é in Latin-1
    b[9] = 0;
    let c = CharRef::read(&b, 0).expect("read");
    assert_eq!(c.as_string(&b).expect("decode"), "\u{E9}");
}

#[test]
fn narrow_string_empty() {
    let mut b = vec![0u8; 16];
    b[0..8].copy_from_slice(&8u64.to_le_bytes());
    b[8] = 0;
    let c = CharRef::read(&b, 0).expect("read");
    assert_eq!(c.as_string(&b).expect("decode"), "");
}

#[test]
fn narrow_string_without_terminator_is_bounds_error() {
    let mut b = vec![1u8; 16];
    b[0..8].copy_from_slice(&8u64.to_le_bytes());
    let c = CharRef::read(&b, 0).expect("read");
    assert_eq!(c.as_string(&b).unwrap_err(), ViewError::Bounds);
}

#[test]
fn string_target_out_of_bounds() {
    let mut b = vec![0u8; 16];
    b[0..8].copy_from_slice(&100u64.to_le_bytes());
    let c = CharRef::read(&b, 0).expect("read");
    assert_eq!(c.as_string(&b).unwrap_err(), ViewError::Bounds);
    let w = WcharRef::read(&b, 0).expect("read");
    assert_eq!(w.as_string(&b).unwrap_err(), ViewError::Bounds);
}
