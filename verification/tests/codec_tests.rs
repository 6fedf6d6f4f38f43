use resgen::codec::{read, read_exact, read_u32, read_u32_slice, write_all, write_u32, CodecError};

#[test]
fn read_u32_little_endian() {
    let data: Vec<u8> = vec![0x78, 0x56, 0x34, 0x12, 0xAA];
    let mut buf: &[u8] = &data;
    let v = read_u32(&mut buf);
    assert_eq!(v, Some(0x12345678));
    assert_eq!(buf, &[0xAA]);
}

#[test]
fn read_u32_short_buffer() {
    let data: Vec<u8> = vec![1, 2, 3];
    let mut buf: &[u8] = &data;
    let v = read_u32(&mut buf);
    assert_eq!(v, None);
    assert_eq!(buf, &[1, 2, 3]);
}

#[test]
fn read_u32_extremes() {
    let data: Vec<u8> = vec![0xFF, 0xFF, 0xFF, 0xFF, 0, 0, 0, 0];
    let mut buf: &[u8] = &data;
    assert_eq!(read_u32(&mut buf), Some(u32::MAX));
    assert_eq!(read_u32(&mut buf), Some(0));
    assert_eq!(read_u32(&mut buf), None);
}

#[test]
fn read_record_bytes() {
    let data: Vec<u8> = vec![1, 2, 3, 4, 5];
    let mut buf: &[u8] = &data;
    let r = read(&mut buf, 3);
    assert_eq!(r, Some(vec![1, 2, 3]));
    assert_eq!(buf, &[4, 5]);
    let r2 = read(&mut buf, 3);
    assert_eq!(r2, None);
    assert_eq!(buf, &[4, 5]);
    let r3 = read(&mut buf, 0);
    assert_eq!(r3, Some(vec![]));
}

#[test]
fn read_u32_slice_words() {
    let data: Vec<u8> = vec![1, 0, 0, 0, 0xEF, 0xBE, 0xAD, 0xDE, 9];
    let mut buf: &[u8] = &data;
    let r = read_u32_slice(&mut buf, 2);
    assert_eq!(r, Some(vec![1, 0xDEADBEEF]));
    assert_eq!(buf, &[9]);
    let r2 = read_u32_slice(&mut buf, 1);
    assert_eq!(r2, None);
    assert_eq!(buf, &[9]);
}

#[test]
fn read_exact_truncated() {
    let data: Vec<u8> = vec![1, 0, 0, 0];
    let mut buf: &[u8] = &data;
    let r = read_exact(&mut buf, 2);
    assert!(matches!(r, Err(CodecError::Truncated)));
    assert_eq!(buf.len(), 4);
    let ok = read_exact(&mut buf, 1);
    assert!(matches!(ok, Ok(v) if v == vec![1]));
    assert_eq!(buf.len(), 0);
}

#[test]
fn write_u32_exact_bytes() {
    let mut out: Vec<u8> = vec![7];
    write_u32(&mut out, 0x12345678);
    assert_eq!(out, vec![7, 0x78, 0x56, 0x34, 0x12]);
}

#[test]
fn write_then_read_round_trip() {
    let rec: Vec<u32> = vec![1, 0xDEADBEEF, u32::MAX, 0];
    let mut out: Vec<u8> = Vec::new();
    write_all(&mut out, &rec);
    assert_eq!(out.len(), 16);
    let mut buf: &[u8] = &out;
    let back = read_exact(&mut buf, 4);
    assert!(matches!(back, Ok(v) if v == rec));
    assert_eq!(buf.len(), 0);
}
