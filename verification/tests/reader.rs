use commitlog::error::DecodeError;
use commitlog::le::{get_u16, get_u32, get_u64, put_u16, put_u32, put_u64};
use commitlog::reader::{decode_u32, read_exact};

#[test]
fn read_exact_takes_a_prefix() {
    let bytes = [1, 2, 3, 4, 5];
    let mut reader = &bytes[..];
    assert_eq!(read_exact(&mut reader, 2), Ok(Some(&[1u8, 2][..])));
    assert_eq!(reader, &[3, 4, 5]);
    assert_eq!(read_exact(&mut reader, 0), Ok(Some(&[][..])));
    assert_eq!(reader, &[3, 4, 5]);
    assert_eq!(read_exact(&mut reader, 3), Ok(Some(&[3u8, 4, 5][..])));
    assert!(reader.is_empty());
}

#[test]
fn read_exact_at_end() {
    let mut reader: &[u8] = &[];
    assert_eq!(read_exact(&mut reader, 1), Ok(None));
    assert_eq!(read_exact(&mut reader, 0), Ok(Some(&[][..])));
}

#[test]
fn read_exact_of_too_few_bytes_drains() {
    let bytes = [1, 2, 3];
    let mut reader = &bytes[..];
    assert_eq!(read_exact(&mut reader, 4), Err(DecodeError::Truncated));
    assert!(reader.is_empty());
    assert_eq!(read_exact(&mut reader, 4), Ok(None));
}

#[test]
fn decode_u32_is_little_endian() {
    let bytes = [0x78, 0x56, 0x34, 0x12, 9];
    let mut reader = &bytes[..];
    assert_eq!(decode_u32(&mut reader), Ok(0x12345678));
    assert_eq!(reader, &[9]);
    assert_eq!(decode_u32(&mut reader), Err(DecodeError::Truncated));
    assert!(reader.is_empty());
    assert_eq!(decode_u32(&mut reader), Err(DecodeError::Truncated));
}

#[test]
fn integers_are_little_endian() {
    let mut out = vec![0xaa];
    put_u16(&mut out, 0x0102);
    put_u32(&mut out, 0x03040506);
    put_u64(&mut out, 0x0708090a0b0c0d0e);
    assert_eq!(
        out,
        vec![0xaa, 2, 1, 6, 5, 4, 3, 0x0e, 0x0d, 0x0c, 0x0b, 0x0a, 9, 8, 7]
    );
    assert_eq!(get_u16(&out, 1), 0x0102);
    assert_eq!(get_u32(&out, 3), 0x03040506);
    assert_eq!(get_u64(&out, 7), 0x0708090a0b0c0d0e);
    assert_eq!(get_u16(&out, 0), 0x02aa);
}

#[test]
fn integers_agree_with_std() {
    for x in [0u64, 1, 255, 256, 0xffff, 0x1_0000, u32::MAX as u64, u64::MAX, 0xdead_beef_0bad_f00d] {
        let mut out = Vec::new();
        put_u64(&mut out, x);
        assert_eq!(out, x.to_le_bytes());
        assert_eq!(get_u64(&out, 0), x);
        let mut out = Vec::new();
        put_u32(&mut out, x as u32);
        assert_eq!(out, (x as u32).to_le_bytes());
        assert_eq!(get_u32(&out, 0), x as u32);
        let mut out = Vec::new();
        put_u16(&mut out, x as u16);
        assert_eq!(out, (x as u16).to_le_bytes());
        assert_eq!(get_u16(&out, 0), x as u16);
    }
}
